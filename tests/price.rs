use spot_switch::price::{add_grid_rate, day_tariff, hour_and_weekday, rate_at, GridPackage, PricePoint};

const PACKAGE: GridPackage = GridPackage { day: 50_000, night: 30_000 };

#[test]
fn wednesday_ten_oclock_pays_day_rate() {
    // 2024-01-10 08:00 UTC is 10:00 on a Wednesday in Tallinn
    let p = PricePoint { timestamp: 1704873600, price: 1_000 };
    assert_eq!(add_grid_rate(&p, &PACKAGE), PricePoint { timestamp: 1704873600, price: 51_000 });
}

#[test]
fn saturday_eleven_pm_pays_night_rate() {
    // 2024-01-13 21:00 UTC is 23:00 on a Saturday in Tallinn
    let p = PricePoint { timestamp: 1705179600, price: -2_000 };
    assert_eq!(add_grid_rate(&p, &PACKAGE).price, 28_000);
}

#[test]
fn summer_offset_moves_into_day_rate() {
    // 2024-07-10 04:30 UTC is 07:30 in Tallinn (UTC+3)
    let p = PricePoint { timestamp: 1720585800, price: 0 };
    assert_eq!(add_grid_rate(&p, &PACKAGE).price, 50_000);
}

#[test]
fn winter_offset_moves_into_night_rate() {
    // 2024-01-12 21:30 UTC is 23:30 on a Friday in Tallinn (UTC+2)
    let p = PricePoint { timestamp: 1705095000, price: 0 };
    assert_eq!(add_grid_rate(&p, &PACKAGE).price, 30_000);
}

#[test]
fn local_hour_and_weekday_from_epoch() {
    assert_eq!(hour_and_weekday(0, 0), (0, 4));
    assert_eq!(hour_and_weekday(-1, 0), (23, 3));
    assert_eq!(hour_and_weekday(0, 7200), (2, 4));
    assert_eq!(hour_and_weekday(1704873600, 7200), (10, 3));
}

#[test]
fn day_tariff_bounds() {
    assert!(day_tariff(7, 1));
    assert!(day_tariff(21, 5));
    assert!(!day_tariff(22, 3));
    assert!(!day_tariff(6, 3));
    assert!(!day_tariff(12, 6));
    assert!(!day_tariff(12, 7));
    assert_eq!(rate_at(10, 3, &PACKAGE), 50_000);
    assert_eq!(rate_at(23, 6, &PACKAGE), 30_000);
}
