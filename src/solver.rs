use vstd::prelude::*;
use itertools::Itertools;
use vstd::relations::injective_on;
use vstd::set_lib::{lemma_int_range, lemma_len_subset, lemma_map_size, lemma_subset_equality, set_int_range};
use crate::device::{Device, RATIO_ONE};
use crate::price::PricePoint;
use crate::series::{PriceSeries, chronological};

verus! {

/// Slot `j` ranks before slot `i`: it is cheaper, or as cheap and earlier.
pub open spec fn ahead(s: Seq<PricePoint>, j: int, i: int) -> bool {
    s[j].price < s[i].price || (s[j].price == s[i].price && j < i)
}

/// The slots of the window `[start, start + size)` that rank before slot `i`.
pub open spec fn ahead_set(s: Seq<PricePoint>, start: int, size: int, i: int) -> Set<int> {
    Set::new(|j: int| start <= j < start + size && ahead(s, j, i))
}

/// The position of slot `i` when the window `[start, start + size)` is ranked
/// by price, ties in chronological order.
pub open spec fn rank(s: Seq<PricePoint>, start: int, size: int, i: int) -> int {
    ahead_set(s, start, size, i).len() as int
}

/// `start` opens one of the sliding windows of `size` slots over `len` slots.
pub open spec fn window_start(len: int, size: int, start: int) -> bool {
    0 <= start && start + size <= len
}

pub open spec fn in_window(start: int, size: int, i: int) -> bool {
    start <= i < start + size
}

/// The sampling interval of the series, in seconds.
pub open spec fn interval(s: Seq<PricePoint>) -> int {
    (s[s.len() - 1].timestamp - s[0].timestamp) / (s.len() - 1)
}

/// The number of slots in a window: the configured duration over the interval,
/// or the whole series when no duration is set or the series has a single slot.
pub open spec fn window_size(s: Seq<PricePoint>, window: Option<u64>) -> int {
    if s.len() <= 1 {
        s.len() as int
    } else {
        match window {
            Some(secs) => secs as int / interval(s),
            None => s.len() as int,
        }
    }
}

/// `floor(ratio * size)` for a ratio in parts per million.
pub open spec fn ratio_floor(ratio: u32, size: int) -> int {
    (ratio as int * size) / (RATIO_ONE as int)
}

/// `ceil(ratio * size)` for a ratio in parts per million.
pub open spec fn ratio_ceil(ratio: u32, size: int) -> int {
    (ratio as int * size + RATIO_ONE - 1) / (RATIO_ONE as int)
}

pub open spec fn under_threshold(s: Seq<PricePoint>, d: &Device, i: int) -> bool {
    d.threshold.is_some() && s[i].price <= d.threshold.unwrap()
}

/// In some sliding window of `size` slots, slot `i` ranks at position `limit` or later.
pub open spec fn ranked_beyond(s: Seq<PricePoint>, size: int, limit: int, i: int) -> bool {
    exists|w: int| #![trigger rank(s, w, size, i)]
        window_start(s.len() as int, size, w) && in_window(w, size, i) && rank(s, w, size, i) >= limit
}

/// In some sliding window of `size` slots, slot `i` ranks before position `limit`.
pub open spec fn ranked_within(s: Seq<PricePoint>, size: int, limit: int, i: int) -> bool {
    exists|w: int| #![trigger rank(s, w, size, i)]
        window_start(s.len() as int, size, w) && in_window(w, size, i) && rank(s, w, size, i) < limit
}

/// Slot `i` ranks at or beyond the cap of the maximum ratio in some window.
pub open spec fn capped(s: Seq<PricePoint>, d: &Device, i: int) -> bool {
    d.threshold.is_some() && d.ratio_max.is_some() && ranked_beyond(
        s,
        window_size(s, d.window),
        ratio_floor(d.ratio_max.unwrap(), window_size(s, d.window)),
        i,
    )
}

/// Slot `i` is among the cheapest that some window must enable.
pub open spec fn forced(s: Seq<PricePoint>, d: &Device, i: int) -> bool {
    d.ratio_min.is_some() && ranked_within(
        s,
        window_size(s, d.window),
        ratio_ceil(d.ratio_min.unwrap(), window_size(s, d.window)),
        i,
    )
}

/// Whether the device is on in slot `i`: under the threshold and not capped by
/// the maximum ratio, or forced on by the minimum ratio.
pub open spec fn enabled_at(s: Seq<PricePoint>, d: &Device, i: int) -> bool {
    (under_threshold(s, d, i) && !capped(s, d, i)) || forced(s, d, i)
}

/// The enabled timestamps of a per-slot decision.
pub open spec fn enabled_set(s: Seq<PricePoint>, mask: Seq<bool>) -> Set<i64> {
    Set::new(|t: i64| exists|i: int| 0 <= i < s.len() && mask[i] && #[trigger] s[i].timestamp == t)
}

pub open spec fn by_price_then_slot(a: (i64, usize), b: (i64, usize)) -> bool {
    a.0 < b.0 || (a.0 == b.0 && a.1 < b.1)
}

/// Relies on itertools' `Itertools::sorted_by_key`, which collects into a `Vec`
/// and calls the stable `slice::sort_by_key`: the items come back permuted into
/// ascending price, equal prices keeping their order, here ascending slots.
#[verifier::external_body]
fn sort_by_price(items: Vec<(i64, usize)>) -> (r: Vec<(i64, usize)>)
    requires
        forall|a: int, b: int| 0 <= a < b < items@.len() ==> items@[a].1 < items@[b].1,
    ensures
        r@.len() == items@.len(),
        forall|x: (i64, usize)| r@.contains(x) <==> items@.contains(x),
        forall|a: int, b: int| 0 <= a < b < r@.len() ==> by_price_then_slot(r@[a], r@[b]),
{
    items.into_iter().sorted_by_key(|p| p.0).collect()
}

proof fn lemma_rank_is_position(s: Seq<PricePoint>, start: int, size: int, r: Seq<(i64, usize)>, k: int)
    requires
        0 <= k < r.len(),
        forall|a: int| 0 <= a < r.len() ==> in_window(start, size, #[trigger] r[a].1 as int)
            && r[a].0 == s[r[a].1 as int].price,
        forall|j: int| in_window(start, size, j) ==> exists|a: int| 0 <= a < r.len() && #[trigger] r[a].1 == j,
        forall|a: int, b: int| 0 <= a < b < r.len() ==> by_price_then_slot(r[a], r[b]),
    ensures
        rank(s, start, size, r[k].1 as int) == k,
{
    let i = r[k].1 as int;
    let q = r.take(k).map_values(|e: (i64, usize)| e.1 as int);
    let a_set = ahead_set(s, start, size, i);
    assert forall|x: int, y: int| 0 <= x < y < q.len() implies q[x] != q[y] by {
        assert(by_price_then_slot(r[x], r[y]));
    }
    assert(q.no_duplicates());
    q.unique_seq_to_set();
    assert forall|j: int| a_set.contains(j) <==> q.to_set().contains(j) by {
        if a_set.contains(j) {
            assert(in_window(start, size, j));
            let a = choose|a: int| 0 <= a < r.len() && #[trigger] r[a].1 == j;
            if a > k {
                assert(by_price_then_slot(r[k], r[a]));
            }
            assert(a != k);
            assert(q[a] == j);
        }
        if q.to_set().contains(j) {
            assert(q.contains(j));
            let a = choose|a: int| 0 <= a < q.len() && q[a] == j;
            assert(by_price_then_slot(r[a], r[k]));
        }
    }
    assert(a_set =~= q.to_set());
}

/// The slots of the window `[start, start + size)`, cheapest first, ties in
/// chronological order.
fn ranked_window(series: &PriceSeries, start: usize, size: usize) -> (r: Vec<usize>)
    requires
        start + size <= series@.len(),
    ensures
        r@.len() == size,
        forall|k: int| 0 <= k < size ==> in_window(start as int, size as int, #[trigger] r@[k] as int)
            && rank(series@, start as int, size as int, r@[k] as int) == k,
        forall|i: int| in_window(start as int, size as int, i) ==> exists|k: int| 0 <= k < size && #[trigger] r@[k] == i,
{
    let n = series.len();
    let mut items: Vec<(i64, usize)> = Vec::new();
    let mut m: usize = 0;
    while m < size
        invariant
            m <= size,
            start + size <= series@.len(),
            items@.len() == m,
            n == series@.len(),
            forall|a: int| 0 <= a < m ==> (#[trigger] items@[a]).0 == series@[start + a].price && items@[a].1 == start + a,
        decreases size - m,
    {
        let p = series.get(start + m);
        items.push((p.price, start + m));
        m = m + 1;
    }
    let sorted = sort_by_price(items);
    let ghost s = sorted@;
    assert forall|a: int| 0 <= a < s.len() implies in_window(start as int, size as int, #[trigger] s[a].1 as int)
        && s[a].0 == series@[s[a].1 as int].price by {
        assert(items@.contains(s[a]));
        let b = choose|b: int| 0 <= b < items@.len() && items@[b] == s[a];
        assert(items@[b].1 == start + b);
    }
    assert forall|j: int| in_window(start as int, size as int, j) implies exists|a: int| 0 <= a < s.len() && #[trigger] s[a].1 == j by {
        assert(items@[j - start].1 == j);
        assert(s.contains(items@[j - start]));
    }
    let mut out: Vec<usize> = Vec::new();
    let mut k: usize = 0;
    while k < sorted.len()
        invariant
            sorted@ == s,
            s.len() == size,
            k <= size,
            out@.len() == k,
            forall|a: int| 0 <= a < k ==> #[trigger] out@[a] == s[a].1,
        decreases size - k,
    {
        out.push(sorted[k].1);
        k = k + 1;
    }
    assert forall|k: int| 0 <= k < size implies in_window(start as int, size as int, #[trigger] out@[k] as int)
        && rank(series@, start as int, size as int, out@[k] as int) == k by {
        lemma_rank_is_position(series@, start as int, size as int, s, k);
    }
    assert forall|i: int| in_window(start as int, size as int, i) implies exists|k: int| 0 <= k < size && #[trigger] out@[k] == i by {
        let a = choose|a: int| 0 <= a < s.len() && #[trigger] s[a].1 == i;
        assert(out@[a] == i);
    }
    out
}

/// `ranked_beyond` restricted to the windows that open before `upto`.
spec fn beyond_before(s: Seq<PricePoint>, size: int, limit: int, upto: int, i: int) -> bool {
    exists|w: int| #![trigger rank(s, w, size, i)]
        window_start(s.len() as int, size, w) && w < upto && in_window(w, size, i) && rank(s, w, size, i) >= limit
}

/// `ranked_within` restricted to the windows that open before `upto`.
spec fn within_before(s: Seq<PricePoint>, size: int, limit: int, upto: int, i: int) -> bool {
    exists|w: int| #![trigger rank(s, w, size, i)]
        window_start(s.len() as int, size, w) && w < upto && in_window(w, size, i) && rank(s, w, size, i) < limit
}

/// Switches off every slot that ranks at position `cap` or later in some
/// sliding window of `size` slots.
fn clear_beyond(series: &PriceSeries, mask: &mut Vec<bool>, size: usize, cap: u128)
    requires
        old(mask)@.len() == series@.len(),
        size <= series@.len(),
    ensures
        final(mask)@.len() == series@.len(),
        forall|i: int| 0 <= i < series@.len() ==> #[trigger] final(mask)@[i] == (old(mask)@[i]
            && !ranked_beyond(series@, size as int, cap as int, i)),
{
    let n = series.len();
    let ghost s = series@;
    let ghost orig = mask@;
    if size == 0 {
        return;
    }
    let mut w: usize = 0;
    while w <= n - size
        invariant
            n == s.len(),
            s == series@,
            0 < size <= n,
            w + size <= n + 1,
            mask@.len() == n,
            forall|i: int| 0 <= i < n ==> #[trigger] mask@[i] == (orig[i]
                && !beyond_before(s, size as int, cap as int, w as int, i)),
        decreases n + 1 - w - size,
    {
        let ranked = ranked_window(series, w, size);
        let mut k: usize = if cap < size as u128 { cap as usize } else { size };
        let ghost before = mask@;
        while k < size
            invariant
                n == s.len(),
                s == series@,
                w + size <= n,
                k <= size,
                cap <= k || k == size,
                ranked@.len() == size,
                mask@.len() == n,
                forall|kk: int| 0 <= kk < size ==> in_window(w as int, size as int, #[trigger] ranked@[kk] as int)
                    && rank(s, w as int, size as int, ranked@[kk] as int) == kk,
                forall|i: int| 0 <= i < n ==> #[trigger] mask@[i] == (before[i]
                    && !(exists|kk: int| cap <= kk < k && #[trigger] ranked@[kk] == i)),
            decreases size - k,
        {
            let slot = ranked[k];
            mask.set(slot, false);
            proof {
                assert forall|i: int| 0 <= i < n implies #[trigger] mask@[i] == (before[i]
                    && !(exists|kk: int| cap <= kk < k + 1 && #[trigger] ranked@[kk] == i)) by {
                    if i == slot as int {
                        assert(ranked@[k as int] == i);
                    } else if exists|kk: int| cap <= kk < k + 1 && #[trigger] ranked@[kk] == i {
                        let kk = choose|kk: int| cap <= kk < k + 1 && #[trigger] ranked@[kk] == i;
                        assert(kk != k);
                    }
                }
            }
            k = k + 1;
        }
        proof {
            assert forall|i: int| 0 <= i < n implies #[trigger] mask@[i] == (orig[i]
                && !beyond_before(s, size as int, cap as int, w + 1, i)) by {
                let here = in_window(w as int, size as int, i) && rank(s, w as int, size as int, i) >= cap;
                if here {
                    let kk = choose|kk: int| 0 <= kk < size && #[trigger] ranked@[kk] == i;
                    assert(rank(s, w as int, size as int, ranked@[kk] as int) == kk);
                    assert(cap <= kk < k && ranked@[kk] == i);
                }
                if exists|kk: int| cap <= kk < k && #[trigger] ranked@[kk] == i {
                    let kk = choose|kk: int| cap <= kk < k && #[trigger] ranked@[kk] == i;
                    assert(rank(s, w as int, size as int, ranked@[kk] as int) == kk);
                    assert(here);
                }
                if beyond_before(s, size as int, cap as int, w + 1, i) {
                    let v = choose|v: int| #![trigger rank(s, v, size as int, i)]
                        window_start(s.len() as int, size as int, v) && v < w + 1 && in_window(v, size as int, i)
                            && rank(s, v, size as int, i) >= cap;
                    if v < w {
                        assert(beyond_before(s, size as int, cap as int, w as int, i));
                    }
                }
            }
        }
        w = w + 1;
    }
    proof {
        assert forall|i: int| 0 <= i < n implies #[trigger] mask@[i] == (orig[i]
            && !ranked_beyond(s, size as int, cap as int, i)) by {
            if ranked_beyond(s, size as int, cap as int, i) {
                let v = choose|v: int| #![trigger rank(s, v, size as int, i)]
                    window_start(s.len() as int, size as int, v) && in_window(v, size as int, i)
                        && rank(s, v, size as int, i) >= cap;
                assert(beyond_before(s, size as int, cap as int, w as int, i));
            }
        }
    }
}

/// Switches on every slot that ranks before position `need` in some sliding
/// window of `size` slots.
fn set_within(series: &PriceSeries, mask: &mut Vec<bool>, size: usize, need: u128)
    requires
        old(mask)@.len() == series@.len(),
        size <= series@.len(),
    ensures
        final(mask)@.len() == series@.len(),
        forall|i: int| 0 <= i < series@.len() ==> #[trigger] final(mask)@[i] == (old(mask)@[i]
            || ranked_within(series@, size as int, need as int, i)),
{
    let n = series.len();
    let ghost s = series@;
    let ghost orig = mask@;
    if size == 0 {
        return;
    }
    let top: usize = if need < size as u128 { need as usize } else { size };
    let mut w: usize = 0;
    while w <= n - size
        invariant
            n == s.len(),
            s == series@,
            0 < size <= n,
            top <= size,
            top == need || top == size,
            top <= need,
            w + size <= n + 1,
            mask@.len() == n,
            forall|i: int| 0 <= i < n ==> #[trigger] mask@[i] == (orig[i]
                || within_before(s, size as int, need as int, w as int, i)),
        decreases n + 1 - w - size,
    {
        let ranked = ranked_window(series, w, size);
        let mut k: usize = 0;
        let ghost before = mask@;
        while k < top
            invariant
                n == s.len(),
                s == series@,
                w + size <= n,
                top <= size,
                k <= top,
                ranked@.len() == size,
                mask@.len() == n,
                forall|kk: int| 0 <= kk < size ==> in_window(w as int, size as int, #[trigger] ranked@[kk] as int)
                    && rank(s, w as int, size as int, ranked@[kk] as int) == kk,
                forall|i: int| 0 <= i < n ==> #[trigger] mask@[i] == (before[i]
                    || (exists|kk: int| 0 <= kk < k && #[trigger] ranked@[kk] == i)),
            decreases top - k,
        {
            let slot = ranked[k];
            mask.set(slot, true);
            proof {
                assert forall|i: int| 0 <= i < n implies #[trigger] mask@[i] == (before[i]
                    || (exists|kk: int| 0 <= kk < k + 1 && #[trigger] ranked@[kk] == i)) by {
                    if i == slot as int {
                        assert(ranked@[k as int] == i);
                    } else if exists|kk: int| 0 <= kk < k + 1 && #[trigger] ranked@[kk] == i {
                        let kk = choose|kk: int| 0 <= kk < k + 1 && #[trigger] ranked@[kk] == i;
                        assert(kk != k);
                    }
                }
            }
            k = k + 1;
        }
        proof {
            assert forall|i: int| 0 <= i < n implies #[trigger] mask@[i] == (orig[i]
                || within_before(s, size as int, need as int, w + 1, i)) by {
                let here = in_window(w as int, size as int, i) && rank(s, w as int, size as int, i) < need;
                if here {
                    let kk = choose|kk: int| 0 <= kk < size && #[trigger] ranked@[kk] == i;
                    assert(rank(s, w as int, size as int, ranked@[kk] as int) == kk);
                    assert(0 <= kk < k && ranked@[kk] == i);
                }
                if exists|kk: int| 0 <= kk < k && #[trigger] ranked@[kk] == i {
                    let kk = choose|kk: int| 0 <= kk < k && #[trigger] ranked@[kk] == i;
                    assert(rank(s, w as int, size as int, ranked@[kk] as int) == kk);
                    assert(here);
                }
                if within_before(s, size as int, need as int, w + 1, i) {
                    let v = choose|v: int| #![trigger rank(s, v, size as int, i)]
                        window_start(s.len() as int, size as int, v) && v < w + 1 && in_window(v, size as int, i)
                            && rank(s, v, size as int, i) < need;
                    if v < w {
                        assert(within_before(s, size as int, need as int, w as int, i));
                    }
                }
            }
        }
        w = w + 1;
    }
    proof {
        assert forall|i: int| 0 <= i < n implies #[trigger] mask@[i] == (orig[i]
            || ranked_within(s, size as int, need as int, i)) by {
            if ranked_within(s, size as int, need as int, i) {
                let v = choose|v: int| #![trigger rank(s, v, size as int, i)]
                    window_start(s.len() as int, size as int, v) && in_window(v, size as int, i)
                        && rank(s, v, size as int, i) < need;
                assert(within_before(s, size as int, need as int, w as int, i));
            }
        }
    }
}

proof fn lemma_timestamps_spread(s: Seq<PricePoint>, i: int)
    requires
        chronological(s),
        0 <= i < s.len(),
    ensures
        s[i].timestamp - s[0].timestamp >= i,
    decreases i,
{
    if i > 0 {
        lemma_timestamps_spread(s, i - 1);
    }
}

/// The number of slots in the device's window over this series.
pub fn window_slots(series: &PriceSeries, window: Option<u64>) -> (r: u64)
    requires
        series.wf(),
    ensures
        r as int == window_size(series@, window),
{
    let n = series.len();
    if n <= 1 {
        return n as u64;
    }
    match window {
        Some(secs) => {
            let first = series.first();
            let last = series.last();
            proof {
                lemma_timestamps_spread(series@, n - 1);
            }
            let span: u64 = (last.timestamp - first.timestamp) as u64;
            let gap: u64 = span / ((n - 1) as u64);
            proof {
                vstd::arithmetic::div_mod::lemma_div_is_ordered(n - 1, span as int, (n - 1) as int);
                vstd::arithmetic::div_mod::lemma_div_basics((n - 1) as int);
            }
            secs / gap
        },
        None => n as u64,
    }
}

/// The slots in which the device is on: those at or under the threshold, less
/// those beyond the maximum ratio's cap in some window, plus the cheapest that
/// the minimum ratio asks of each window.
pub fn satisfy_constraints(series: &PriceSeries, device: &Device) -> (r: Vec<bool>)
    requires
        series.wf(),
    ensures
        r@.len() == series@.len(),
        forall|i: int| 0 <= i < series@.len() ==> #[trigger] r@[i] == enabled_at(series@, device, i),
{
    let n = series.len();
    let ghost s = series@;
    let mut mask: Vec<bool> = Vec::new();
    let mut i: usize = 0;
    while i < n
        invariant
            n == s.len(),
            s == series@,
            i <= n,
            mask@.len() == i,
            forall|j: int| 0 <= j < i ==> #[trigger] mask@[j] == under_threshold(s, device, j),
        decreases n - i,
    {
        let below = match device.threshold {
            Some(t) => series.get(i).price <= t,
            None => false,
        };
        mask.push(below);
        i = i + 1;
    }
    let size = window_slots(series, device.window);
    if device.threshold.is_some() && device.ratio_max.is_some() && size <= n as u64 {
        let ratio = device.ratio_max.unwrap();
        proof {
            assert(ratio as int * size as int <= 0xffff_ffff * 0xffff_ffff_ffff_ffff) by (nonlinear_arith)
                requires
                    ratio <= 0xffff_ffffu32,
                    size <= 0xffff_ffff_ffff_ffffu64,
            ;
        }
        let cap: u128 = (ratio as u128 * size as u128) / (RATIO_ONE as u128);
        clear_beyond(series, &mut mask, size as usize, cap);
    }
    assert forall|j: int| 0 <= j < n implies #[trigger] mask@[j] == (under_threshold(s, device, j)
        && !capped(s, device, j)) by {
        if capped(s, device, j) && size > n as u64 {
            let w = choose|w: int| #![trigger rank(s, w, size as int, j)]
                window_start(s.len() as int, size as int, w) && in_window(w, size as int, j)
                    && rank(s, w, size as int, j) >= ratio_floor(device.ratio_max.unwrap(), size as int);
        }
    }
    if device.ratio_min.is_some() && size <= n as u64 {
        let ratio = device.ratio_min.unwrap();
        proof {
            assert(ratio as int * size as int <= 0xffff_ffff * 0xffff_ffff_ffff_ffff) by (nonlinear_arith)
                requires
                    ratio <= 0xffff_ffffu32,
                    size <= 0xffff_ffff_ffff_ffffu64,
            ;
        }
        let need: u128 = (ratio as u128 * size as u128 + (RATIO_ONE - 1) as u128) / (RATIO_ONE as u128);
        set_within(series, &mut mask, size as usize, need);
    }
    assert forall|j: int| 0 <= j < n implies #[trigger] mask@[j] == enabled_at(s, device, j) by {
        if forced(s, device, j) && size > n as u64 {
            let w = choose|w: int| #![trigger rank(s, w, size as int, j)]
                window_start(s.len() as int, size as int, w) && in_window(w, size as int, j)
                    && rank(s, w, size as int, j) < ratio_ceil(device.ratio_min.unwrap(), size as int);
        }
    }
    mask
}

/// The timestamps of the enabled slots, in chronological order.
pub fn enabled_timestamps(series: &PriceSeries, mask: &Vec<bool>) -> (r: Vec<i64>)
    requires
        series.wf(),
        mask@.len() == series@.len(),
    ensures
        forall|t: i64| r@.contains(t) <==> enabled_set(series@, mask@).contains(t),
        forall|a: int, b: int| 0 <= a < b < r@.len() ==> r@[a] < r@[b],
{
    let n = series.len();
    let ghost s = series@;
    let ghost src: Seq<int> = Seq::empty();
    let mut out: Vec<i64> = Vec::new();
    let mut i: usize = 0;
    while i < n
        invariant
            n == s.len(),
            s == series@,
            chronological(s),
            mask@.len() == n,
            i <= n,
            src.len() == out@.len(),
            forall|a: int| 0 <= a < src.len() ==> 0 <= #[trigger] src[a] < i && mask@[src[a]]
                && out@[a] == s[src[a]].timestamp,
            forall|a: int, b: int| 0 <= a < b < src.len() ==> src[a] < src[b],
            forall|j: int| 0 <= j < i && mask@[j] ==> exists|a: int| 0 <= a < src.len() && #[trigger] src[a] == j,
        decreases n - i,
    {
        let p = series.get(i);
        if mask[i] {
            let ghost prev = src;
            out.push(p.timestamp);
            proof {
                src = src.push(i as int);
                assert forall|j: int| 0 <= j < i + 1 && mask@[j] implies exists|a: int| 0 <= a < src.len() && #[trigger] src[a] == j by {
                    if j < i {
                        let a = choose|a: int| 0 <= a < prev.len() && #[trigger] prev[a] == j;
                        assert(src[a] == j);
                    } else {
                        assert(src[src.len() - 1] == j);
                    }
                }
            }
        }
        i = i + 1;
    }
    proof {
        assert forall|a: int, b: int| 0 <= a < b < out@.len() implies out@[a] < out@[b] by {
            assert(src[a] < src[b]);
        }
        assert forall|t: i64| out@.contains(t) <==> enabled_set(s, mask@).contains(t) by {
            if out@.contains(t) {
                let a = choose|a: int| 0 <= a < out@.len() && out@[a] == t;
                assert(0 <= src[a] < s.len() && mask@[src[a]] && s[src[a]].timestamp == t);
            }
            if enabled_set(s, mask@).contains(t) {
                let j = choose|j: int| 0 <= j < s.len() && mask@[j] && #[trigger] s[j].timestamp == t;
                let a = choose|a: int| 0 <= a < src.len() && #[trigger] src[a] == j;
                assert(out@[a] == t);
            }
        }
    }
    out
}

/// The timestamps of a series.
pub open spec fn series_timestamps(s: Seq<PricePoint>) -> Set<i64> {
    Set::new(|t: i64| exists|i: int| 0 <= i < s.len() && #[trigger] s[i].timestamp == t)
}

/// The decisions of a device over a whole series.
pub open spec fn decisions(s: Seq<PricePoint>, d: &Device) -> Seq<bool> {
    Seq::new(s.len(), |i: int| enabled_at(s, d, i))
}

/// Every enabled timestamp is a timestamp of the day's series.
pub proof fn enabled_within_series(s: Seq<PricePoint>, d: &Device)
    ensures
        enabled_set(s, decisions(s, d)).subset_of(series_timestamps(s)),
{
}

/// A window longer than the series leaves no sliding window, so both ratio
/// passes do nothing: the device follows its threshold alone, and is never on
/// without one.
pub proof fn oversized_window_is_threshold_only(s: Seq<PricePoint>, d: &Device, i: int)
    requires
        window_size(s, d.window) > s.len(),
        0 <= i < s.len(),
    ensures
        enabled_at(s, d, i) == under_threshold(s, d, i),
        d.threshold.is_none() ==> !enabled_at(s, d, i),
{
}

/// Without ratios a device is on exactly in the slots priced at or under its threshold.
pub proof fn threshold_only(s: Seq<PricePoint>, d: &Device, i: int)
    requires
        d.ratio_min.is_none(),
        d.ratio_max.is_none(),
        d.threshold.is_some(),
        0 <= i < s.len(),
    ensures
        enabled_at(s, d, i) == (s[i].price <= d.threshold.unwrap()),
{
}

/// Two results of the solver on the same series and device are the same decisions.
pub proof fn solver_is_deterministic(s: Seq<PricePoint>, d: &Device, a: Seq<bool>, b: Seq<bool>)
    requires
        a.len() == s.len(),
        b.len() == s.len(),
        forall|i: int| 0 <= i < s.len() ==> #[trigger] a[i] == enabled_at(s, d, i),
        forall|i: int| 0 <= i < s.len() ==> #[trigger] b[i] == enabled_at(s, d, i),
    ensures
        a == b,
{
    assert(a =~= b);
}

proof fn lemma_ahead_set_in_window(s: Seq<PricePoint>, start: int, size: int, i: int)
    requires
        size >= 0,
    ensures
        ahead_set(s, start, size, i).subset_of(set_int_range(start, start + size)),
        ahead_set(s, start, size, i).finite(),
{
    lemma_int_range(start, start + size);
    lemma_len_subset(ahead_set(s, start, size, i), set_int_range(start, start + size));
}

proof fn lemma_rank_below_size(s: Seq<PricePoint>, start: int, size: int, i: int)
    requires
        in_window(start, size, i),
    ensures
        0 <= rank(s, start, size, i) < size,
{
    let range = set_int_range(start, start + size);
    lemma_int_range(start, start + size);
    lemma_ahead_set_in_window(s, start, size, i);
    assert(ahead_set(s, start, size, i).subset_of(range.remove(i)));
    lemma_len_subset(ahead_set(s, start, size, i), range.remove(i));
}

proof fn lemma_rank_increases(s: Seq<PricePoint>, start: int, size: int, j: int, i: int)
    requires
        in_window(start, size, j),
        in_window(start, size, i),
        ahead(s, j, i),
    ensures
        rank(s, start, size, j) < rank(s, start, size, i),
{
    let aj = ahead_set(s, start, size, j);
    let ai = ahead_set(s, start, size, i);
    lemma_ahead_set_in_window(s, start, size, i);
    assert(ai.contains(j));
    assert(aj.subset_of(ai.remove(j)));
    lemma_len_subset(aj, ai.remove(j));
}

proof fn lemma_ranks_fill_window(s: Seq<PricePoint>, start: int, size: int)
    requires
        size >= 0,
    ensures
        set_int_range(start, start + size).map(|i: int| rank(s, start, size, i)) == set_int_range(0, size),
        injective_on(|i: int| rank(s, start, size, i), set_int_range(start, start + size)),
{
    let f = |i: int| rank(s, start, size, i);
    let win = set_int_range(start, start + size);
    lemma_int_range(start, start + size);
    lemma_int_range(0, size);
    assert forall|a: int, b: int| win.contains(a) && win.contains(b) && #[trigger] f(a) == #[trigger] f(b) implies a == b by {
        if a != b {
            if ahead(s, a, b) {
                lemma_rank_increases(s, start, size, a, b);
            } else {
                lemma_rank_increases(s, start, size, b, a);
            }
        }
    }
    assert(injective_on(f, win));
    assert forall|k: int| #[trigger] win.map(f).contains(k) implies set_int_range(0, size).contains(k) by {
        let i = choose|i: int| win.contains(i) && f(i) == k;
        lemma_rank_below_size(s, start, size, i);
    }
    lemma_map_size(win, win.map(f), f);
    lemma_subset_equality(win.map(f), set_int_range(0, size));
}

/// The slots of the window `[start, start + size)` in which the device is on.
pub open spec fn enabled_in_window(s: Seq<PricePoint>, d: &Device, start: int, size: int) -> Set<int> {
    Set::new(|i: int| in_window(start, size, i) && enabled_at(s, d, i))
}

/// With a minimum ratio, every sliding window holds at least `ceil(ratio_min * size)`
/// enabled slots, whatever the threshold and the maximum ratio did.
pub proof fn ratio_min_guarantee(s: Seq<PricePoint>, d: &Device, w: int)
    requires
        s.len() > 0,
        chronological(s),
        d.ratio_min.is_some(),
        d.ratio_min.unwrap() <= RATIO_ONE,
        window_start(s.len() as int, window_size(s, d.window), w),
    ensures
        enabled_in_window(s, d, w, window_size(s, d.window)).len()
            >= ratio_ceil(d.ratio_min.unwrap(), window_size(s, d.window)),
{
    let size = window_size(s, d.window);
    let ratio = d.ratio_min.unwrap();
    let need = ratio_ceil(ratio, size);
    if s.len() > 1 && d.window.is_some() {
        lemma_timestamps_spread(s, s.len() - 1);
        vstd::arithmetic::div_mod::lemma_div_is_ordered(s.len() - 1, s[s.len() - 1].timestamp - s[0].timestamp, s.len() - 1);
        vstd::arithmetic::div_mod::lemma_div_basics(s.len() - 1);
        vstd::arithmetic::div_mod::lemma_div_pos_is_pos(d.window.unwrap() as int, interval(s));
    }
    assert(size >= 0);
    assert(0 <= need <= size) by (nonlinear_arith)
        requires
            need == (ratio as int * size + RATIO_ONE - 1) / (RATIO_ONE as int),
            ratio <= RATIO_ONE,
            0 <= ratio,
            size >= 0,
            RATIO_ONE == 1000000,
    ;
    let f = |i: int| rank(s, w, size, i);
    let win = set_int_range(w, w + size);
    lemma_int_range(w, w + size);
    lemma_int_range(0, need);
    lemma_ranks_fill_window(s, w, size);
    let cheapest = win.filter(|i: int| f(i) < need);
    lemma_len_subset(cheapest, win);
    assert forall|k: int| #[trigger] cheapest.map(f).contains(k) <==> set_int_range(0, need).contains(k) by {
        if set_int_range(0, need).contains(k) {
            assert(set_int_range(0, size).contains(k));
            assert(win.map(f).contains(k));
            let i = choose|i: int| win.contains(i) && f(i) == k;
            assert(cheapest.contains(i));
        }
    }
    assert(cheapest.map(f) =~= set_int_range(0, need));
    lemma_map_size(cheapest, set_int_range(0, need), f);
    let on = enabled_in_window(s, d, w, size);
    assert forall|i: int| cheapest.contains(i) implies on.contains(i) by {
        assert(rank(s, w, size, i) < need);
        assert(forced(s, d, i));
    }
    assert(on.subset_of(win));
    lemma_len_subset(on, win);
    lemma_len_subset(cheapest, on);
}

} // verus!
