use vstd::prelude::*;
use vstd::arithmetic::div_mod::{lemma_hoist_over_denominator, lemma_mod_multiples_vanish};

verus! {

/// Earliest instant accepted: 0001-01-01T00:00:00Z, in seconds since the Unix epoch.
pub const MIN_TIMESTAMP: i64 = -62135596800;

/// Latest instant accepted: 9999-12-31T23:59:59Z, in seconds since the Unix epoch.
pub const MAX_TIMESTAMP: i64 = 253402300799;

/// A whole number of weeks, larger than the distance from `MIN_TIMESTAMP` back
/// to a day before it, so that shifted local times are never negative.
const WEEK_ALIGNED_SHIFT: i64 = 62135942400;

pub open spec fn valid_timestamp(ts: int) -> bool {
    MIN_TIMESTAMP <= ts <= MAX_TIMESTAMP
}

/// One slot of a day's series: an instant (seconds since the Unix epoch, UTC)
/// and a price in thousandths of a currency unit per MWh.
#[derive(Clone, Copy, Debug, PartialEq, Eq, Structural)]
pub struct PricePoint {
    pub timestamp: i64,
    pub price: i64,
}

/// The two flat distribution rates of a grid package, in the unit of `PricePoint::price`.
#[derive(Clone, Copy, Debug, PartialEq, Eq, Structural)]
pub struct GridPackage {
    pub day: i64,
    pub night: i64,
}

/// The offset of Tallinn's civil time from UTC, in seconds, at the given instant.
pub uninterp spec fn tallinn_offset(ts: int) -> int;

/// Relies on chrono's `DateTime::from_timestamp` (in range for every accepted
/// instant) and chrono-tz's `Europe::Tallinn` offset lookup, whose `FixedOffset`
/// keeps the offset strictly within one day.
#[verifier::external_body]
fn tallinn_offset_secs(ts: i64) -> (r: i32)
    requires
        valid_timestamp(ts as int),
    ensures
        r as int == tallinn_offset(ts as int),
        -86400 < r < 86400,
{
    let utc = chrono::DateTime::from_timestamp(ts, 0).unwrap();
    let offset = chrono::TimeZone::offset_from_utc_datetime(&chrono_tz::Europe::Tallinn, &utc.naive_utc());
    chrono::Offset::fix(&offset).local_minus_utc()
}

/// Seconds since the Unix epoch on Tallinn's wall clock.
pub open spec fn local_seconds(ts: int) -> int {
    ts + tallinn_offset(ts)
}

/// Hour of the local day, 0 to 23.
pub open spec fn local_hour(ts: int) -> int {
    (local_seconds(ts) % 86400) / 3600
}

/// Day of the local week, counted from Monday as 1 to Sunday as 7
/// (1970-01-01 was a Thursday).
pub open spec fn local_weekday(ts: int) -> int {
    (local_seconds(ts) / 86400 + 3) % 7 + 1
}

/// The day rate applies from 07:00 to 22:00 on Monday to Friday.
pub open spec fn is_day_tariff(hour: int, weekday: int) -> bool {
    7 <= hour < 22 && weekday < 6
}

pub open spec fn rate_for(hour: int, weekday: int, package: GridPackage) -> int {
    if is_day_tariff(hour, weekday) {
        package.day as int
    } else {
        package.night as int
    }
}

pub open spec fn grid_rate(ts: int, package: GridPackage) -> int {
    rate_for(local_hour(ts), local_weekday(ts), package)
}

pub open spec fn adjusted(point: PricePoint, package: GridPackage) -> PricePoint {
    PricePoint {
        timestamp: point.timestamp,
        price: (point.price + grid_rate(point.timestamp as int, package)) as i64,
    }
}

/// The sum of a price and either rate fits in an `i64`.
pub open spec fn adjustable(price: int, package: GridPackage) -> bool {
    i64::MIN <= price + package.day <= i64::MAX && i64::MIN <= price + package.night <= i64::MAX
}

/// Whether the day rate applies at a local hour (0 to 23) on a weekday (Monday = 1).
pub fn day_tariff(hour: u32, weekday: u32) -> (r: bool)
    ensures
        r == is_day_tariff(hour as int, weekday as int),
{
    7 <= hour && hour < 22 && weekday < 6
}

/// The rate of the package that applies at a local hour on a weekday.
pub fn rate_at(hour: u32, weekday: u32, package: &GridPackage) -> (r: i64)
    ensures
        r as int == rate_for(hour as int, weekday as int, *package),
{
    if day_tariff(hour, weekday) {
        package.day
    } else {
        package.night
    }
}

/// Local hour and weekday (Monday = 1) of an instant on the wall clock of a zone
/// whose offset from UTC at that instant is `offset` seconds.
pub fn hour_and_weekday(ts: i64, offset: i32) -> (r: (u32, u32))
    requires
        valid_timestamp(ts as int),
        -86400 < offset < 86400,
    ensures
        r.0 as int == ((ts + offset) % 86400) / 3600,
        r.1 as int == ((ts + offset) / 86400 + 3) % 7 + 1,
        r.0 < 24,
        1 <= r.1 <= 7,
{
    let local: i64 = ts + offset as i64;
    let shifted: u64 = (local + WEEK_ALIGNED_SHIFT) as u64;
    let hour: u64 = (shifted % 86400) / 3600;
    let weekday: u64 = ((shifted / 86400 + 3) % 7) + 1;
    proof {
        let x = local as int;
        let k: int = 719166;
        assert(WEEK_ALIGNED_SHIFT == 86400 * k);
        lemma_mod_multiples_vanish(k, x, 86400);
        assert(shifted as int == 86400 * k + x);
        lemma_hoist_over_denominator(x, k, 86400);
        assert(shifted as int / 86400 == x / 86400 + k) by {
            assert(x + k * 86400 == shifted as int);
        }
        lemma_mod_multiples_vanish(102738, x / 86400 + 3, 7);
        assert(shifted as int / 86400 + 3 == 7 * 102738 + (x / 86400 + 3));
    }
    (hour as u32, weekday as u32)
}

/// Adds the package's grid rate, chosen by Tallinn's local time at the point's
/// instant, to the point's price.
pub fn add_grid_rate(point: &PricePoint, package: &GridPackage) -> (r: PricePoint)
    requires
        valid_timestamp(point.timestamp as int),
        adjustable(point.price as int, *package),
    ensures
        r == adjusted(*point, *package),
{
    let offset = tallinn_offset_secs(point.timestamp);
    let (hour, weekday) = hour_and_weekday(point.timestamp, offset);
    let rate = rate_at(hour, weekday, package);
    PricePoint { timestamp: point.timestamp, price: point.price + rate }
}

/// A point at local hour 10 on a Wednesday pays the day rate; one at local
/// hour 23 on a Saturday pays the night rate.
pub proof fn grid_rate_examples(ts: int, package: GridPackage)
    ensures
        local_hour(ts) == 10 && local_weekday(ts) == 3 ==> grid_rate(ts, package) == package.day,
        local_hour(ts) == 23 && local_weekday(ts) == 6 ==> grid_rate(ts, package) == package.night,
{
}

} // verus!
