use spot_switch::device::Device;
use spot_switch::price::PricePoint;
use spot_switch::series::PriceSeries;
use spot_switch::solver::{enabled_timestamps, satisfy_constraints, window_slots};

fn hourly(prices: &[i64]) -> PriceSeries {
    let points: Vec<PricePoint> = prices
        .iter()
        .enumerate()
        .map(|(i, p)| PricePoint { timestamp: 1_700_000_000 + 3600 * i as i64, price: *p })
        .collect();
    PriceSeries::from_points(points).unwrap()
}

fn device(threshold: Option<i64>, ratio_min: Option<u32>, ratio_max: Option<u32>, window: Option<u64>) -> Device {
    Device {
        threshold,
        ratio_min,
        ratio_max,
        window,
        cmd_on: vec!["on".to_string()],
        cmd_off: vec!["off".to_string()],
    }
}

#[test]
fn threshold_with_ratio_max_keeps_cheap_slots() {
    let s = hourly(&[10, 5, 8, 2]);
    let d = device(Some(6), None, Some(500_000), Some(7200));
    assert_eq!(satisfy_constraints(&s, &d), vec![false, true, false, true]);
}

#[test]
fn ratio_min_enables_cheapest_of_each_window() {
    let s = hourly(&[10, 5, 8, 2]);
    let d = device(None, Some(500_000), None, Some(7200));
    assert_eq!(satisfy_constraints(&s, &d), vec![false, true, false, true]);
}

#[test]
fn threshold_alone_is_exact() {
    let s = hourly(&[10, 5, 8, 2, 6, 7]);
    let d = device(Some(6), None, None, None);
    assert_eq!(satisfy_constraints(&s, &d), vec![false, true, false, true, true, false]);
}

#[test]
fn ratio_max_removes_beyond_cap() {
    // whole-day window of 4 slots, cap floor(0.5 * 4) = 2: only the two cheapest stay
    let s = hourly(&[1, 2, 3, 4]);
    let d = device(Some(10), None, Some(500_000), None);
    assert_eq!(satisfy_constraints(&s, &d), vec![true, true, false, false]);
}

#[test]
fn ratio_max_ties_keep_chronological_order() {
    let s = hourly(&[3, 3, 3]);
    let d = device(Some(3), None, Some(333_334), None);
    // cap floor(0.333334 * 3) = 1: the earliest of the equal prices stays
    assert_eq!(satisfy_constraints(&s, &d), vec![true, false, false]);
}

#[test]
fn ratio_min_rounds_up() {
    // need ceil(0.25 * 3) = 1 per whole-day window
    let s = hourly(&[9, 4, 7]);
    let d = device(None, Some(250_000), None, None);
    assert_eq!(satisfy_constraints(&s, &d), vec![false, true, false]);
}

#[test]
fn ratio_min_readds_slots_removed_by_cap() {
    let s = hourly(&[1, 2, 3, 4]);
    let d = device(Some(10), Some(750_000), Some(750_000), Some(7200));
    // windows of 2: cap floor(1.5) = 1 removes the dearer of each pair, need ceil(1.5) = 2 adds both back
    assert_eq!(satisfy_constraints(&s, &d), vec![true, true, true, true]);
}

#[test]
fn oversized_window_leaves_threshold_result() {
    let s = hourly(&[10, 5, 8, 2]);
    let d = device(Some(6), Some(1_000_000), Some(0), Some(5 * 3600));
    assert_eq!(window_slots(&s, d.window), 5);
    assert_eq!(satisfy_constraints(&s, &d), vec![false, true, false, true]);
    let no_threshold = device(None, Some(1_000_000), None, Some(5 * 3600));
    assert_eq!(satisfy_constraints(&s, &no_threshold), vec![false, false, false, false]);
}

#[test]
fn ratio_min_guarantee_holds_in_every_window() {
    let s = hourly(&[7, 3, 9, 1, 8, 8, 2, 6]);
    let d = device(None, Some(340_000), None, Some(3 * 3600));
    let mask = satisfy_constraints(&s, &d);
    for w in 0..=(mask.len() - 3) {
        let on = mask[w..w + 3].iter().filter(|b| **b).count();
        assert!(on >= 2);
    }
}

#[test]
fn single_slot_window_is_whole_series() {
    let s = hourly(&[4]);
    assert_eq!(window_slots(&s, Some(7200)), 1);
    let d = device(None, Some(500_000), None, Some(7200));
    assert_eq!(satisfy_constraints(&s, &d), vec![true]);
}

#[test]
fn window_shorter_than_interval_has_no_slots() {
    let s = hourly(&[4, 5, 6]);
    assert_eq!(window_slots(&s, Some(1800)), 0);
    let d = device(None, Some(1_000_000), None, Some(1800));
    assert_eq!(satisfy_constraints(&s, &d), vec![false, false, false]);
}

#[test]
fn solver_gives_same_result_twice() {
    let s = hourly(&[5, 1, 5, 1, 3]);
    let d = device(Some(4), Some(500_000), Some(500_000), Some(7200));
    assert_eq!(satisfy_constraints(&s, &d), satisfy_constraints(&s, &d));
}

#[test]
fn window_slots_divides_by_interval() {
    let points: Vec<PricePoint> = (0..96).map(|i| PricePoint { timestamp: 900 * i, price: 1 }).collect();
    let s = PriceSeries::from_points(points).unwrap();
    assert_eq!(window_slots(&s, Some(3600)), 4);
    assert_eq!(window_slots(&s, None), 96);
}

#[test]
fn enabled_timestamps_follow_decisions() {
    let s = hourly(&[10, 5, 8, 2]);
    let d = device(Some(6), None, Some(500_000), Some(7200));
    let mask = satisfy_constraints(&s, &d);
    assert_eq!(enabled_timestamps(&s, &mask), vec![1_700_003_600, 1_700_010_800]);
    assert_eq!(enabled_timestamps(&s, &vec![false; 4]), Vec::<i64>::new());
}
