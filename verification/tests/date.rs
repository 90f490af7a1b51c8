use finance_as_code::date::{date, datetime, Date, DateTime, Time};

#[test]
fn test_datetime() {
    let dt: DateTime = datetime(2023, 8, 15, 12, 30, 45);
    assert_eq!(dt, Date::from_ymd_opt(2023, 8, 15).unwrap().and_hms_opt(12, 30, 45).unwrap());
}

#[test]
fn test_date() {
    let d: Date = date(2023, 8, 15);
    assert_eq!(d, Date::from_ymd_opt(2023, 8, 15).unwrap());
}

#[test]
fn midnight_and_invalid_times() {
    let midnight = DateTime::new(date(2023, 8, 15), Time::from_hms_opt(0, 0, 0).unwrap());
    assert_eq!(datetime(2023, 8, 15, 0, 0, 0), midnight);
    assert!(Time::from_hms_opt(24, 0, 0).is_none());
    assert!(date(2023, 8, 15).and_hms_opt(12, 60, 0).is_none());
}
