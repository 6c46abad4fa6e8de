use spot_switch::device::{validate_constraints, validate_device, ConstraintError, Device};
use spot_switch::price::{GridPackage, PricePoint};
use spot_switch::schedule::{accept_prices, device_command, first_day_offset, next_phase, plan_day, slot_timing, FetchError, Phase, SlotTiming};
use spot_switch::series::{PriceSeries, SeriesError};

fn device(threshold: Option<i64>, ratio_min: Option<u32>, ratio_max: Option<u32>, window: Option<u64>) -> Device {
    Device {
        threshold,
        ratio_min,
        ratio_max,
        window,
        cmd_on: vec!["relay".to_string(), "on".to_string()],
        cmd_off: vec!["relay".to_string(), "off".to_string()],
    }
}

#[test]
fn simulation_stops_after_one_day() {
    let mut phase = Phase::Fetching;
    let mut steps = 0;
    while phase != Phase::Done {
        phase = next_phase(phase, true);
        steps += 1;
    }
    assert_eq!(steps, 4);
    assert_eq!(next_phase(Phase::Executing, false), Phase::Fetching);
    assert_eq!(next_phase(Phase::Done, false), Phase::Done);
}

#[test]
fn simulation_never_waits_nor_runs_commands() {
    let d = device(Some(1), None, None, None);
    assert_eq!(slot_timing(true, 100, 200), SlotTiming::Now);
    assert_eq!(slot_timing(true, 300, 200), SlotTiming::Now);
    assert!(device_command(&d, true, true).is_none());
    assert!(device_command(&d, false, true).is_none());
}

#[test]
fn live_run_waits_or_skips() {
    assert_eq!(slot_timing(false, 300, 200), SlotTiming::Wait(100));
    assert_eq!(slot_timing(false, 200, 200), SlotTiming::Wait(0));
    assert_eq!(slot_timing(false, 199, 200), SlotTiming::Skip);
    let d = device(Some(1), None, None, None);
    assert_eq!(device_command(&d, true, false).unwrap(), &d.cmd_on);
    assert_eq!(device_command(&d, false, false).unwrap(), &d.cmd_off);
}

#[test]
fn market_answer_checks() {
    let pts = vec![PricePoint { timestamp: 0, price: 1 }, PricePoint { timestamp: 3600, price: 2 }];
    assert!(matches!(accept_prices(false, pts.clone()), Err(FetchError::Unsuccessful)));
    assert!(matches!(accept_prices(true, vec![]), Err(FetchError::Series(SeriesError::Empty))));
    let back = vec![PricePoint { timestamp: 3600, price: 1 }, PricePoint { timestamp: 0, price: 2 }];
    assert!(matches!(accept_prices(true, back), Err(FetchError::Series(SeriesError::NotIncreasing))));
    let far = vec![PricePoint { timestamp: i64::MAX, price: 1 }];
    assert!(matches!(accept_prices(true, far), Err(FetchError::Series(SeriesError::OutOfRange))));
    let ok = accept_prices(true, pts.clone()).unwrap();
    assert_eq!(ok.points(), &pts);
}

#[test]
fn constraint_rules() {
    assert_eq!(validate_constraints(&device(None, None, None, Some(3600))), Err(ConstraintError::WindowWithoutRatio));
    assert_eq!(validate_constraints(&device(None, None, Some(1), None)), Err(ConstraintError::RatioMaxWithoutThreshold));
    assert_eq!(validate_constraints(&device(Some(1), Some(6), Some(5), None)), Err(ConstraintError::RatioMinAboveMax));
    assert_eq!(validate_constraints(&device(Some(1), Some(5), Some(5), Some(3600))), Ok(()));
    assert_eq!(validate_device(&device(None, Some(1_000_001), None, None)), Err(ConstraintError::RatioOutOfRange));
    let mut empty = device(Some(1), None, None, None);
    empty.cmd_off = vec![];
    assert_eq!(validate_device(&empty), Err(ConstraintError::EmptyCommand));
    assert_eq!(validate_device(&device(None, Some(1_000_000), None, None)), Ok(()));
}

#[test]
fn day_plan_adjusts_then_decides_each_device() {
    // 2024-01-10 (a Wednesday) 04:00 and 05:00 UTC: 06:00 and 07:00 in Tallinn
    let raw = PriceSeries::from_points(vec![
        PricePoint { timestamp: 1704859200, price: 10 },
        PricePoint { timestamp: 1704862800, price: 10 },
    ])
    .unwrap();
    let package = GridPackage { day: 100, night: 0 };
    let devices = vec![device(Some(50), None, None, None), device(None, Some(500_000), None, None)];
    let plan = plan_day(&raw, &package, &devices).unwrap();
    assert_eq!(plan.prices.get(0).price, 10);
    assert_eq!(plan.prices.get(1).price, 110);
    assert!(plan.is_enabled(0, 0));
    assert!(!plan.is_enabled(0, 1));
    assert!(plan.is_enabled(1, 0));
    assert!(!plan.is_enabled(1, 1));
    let huge = GridPackage { day: i64::MAX, night: 0 };
    assert!(plan_day(&raw, &huge, &devices).is_none());
}

#[test]
fn live_run_starts_next_day() {
    assert_eq!(first_day_offset(true), 0);
    assert_eq!(first_day_offset(false), 1);
}
