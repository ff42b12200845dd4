use time::{DateAdjustment, Duration, Time};

fn hms(hour: u8, minute: u8, second: u8) -> Time {
    Time::from_hms(hour, minute, second).expect("components must be in range")
}

#[test]
fn from_hms_validates() {
    assert!(Time::from_hms(1, 2, 3).is_ok());
    assert!(Time::from_hms(24, 0, 0).is_err());
    assert!(Time::from_hms(0, 60, 0).is_err());
    assert!(Time::from_hms(0, 0, 60).is_err());
}

#[test]
fn hour_range_error_payload() {
    let err = Time::from_hms(24, 0, 0).unwrap_err();
    assert_eq!(err.name, "hour");
    assert_eq!(err.minimum, 0);
    assert_eq!(err.maximum, 23);
    assert_eq!(err.value, 24);
    assert!(!err.conditional_range);
}

#[test]
fn from_hms_subsecond_validates() {
    assert!(Time::from_hms_milli(1, 2, 3, 4).is_ok());
    assert!(Time::from_hms_milli(0, 0, 0, 1_000).is_err());
    assert!(Time::from_hms_micro(1, 2, 3, 4).is_ok());
    assert!(Time::from_hms_micro(0, 0, 0, 1_000_000).is_err());
    assert!(Time::from_hms_nano(1, 2, 3, 4).is_ok());
    assert!(Time::from_hms_nano(0, 0, 0, 1_000_000_000).is_err());
}

#[test]
fn getters() {
    let t = Time::from_hms_nano(23, 59, 59, 999_999_999).unwrap();
    assert_eq!(t.as_hms(), (23, 59, 59));
    assert_eq!(t.as_hms_milli(), (23, 59, 59, 999));
    assert_eq!(t.as_hms_micro(), (23, 59, 59, 999_999));
    assert_eq!(t.as_hms_nano(), (23, 59, 59, 999_999_999));
    assert_eq!(t.hour(), 23);
    assert_eq!(t.minute(), 59);
    assert_eq!(t.second(), 59);
    assert_eq!(t.millisecond(), 999);
    assert_eq!(t.microsecond(), 999_999);
    assert_eq!(t.nanosecond(), 999_999_999);
    assert_eq!(Time::midnight().as_hms_nano(), (0, 0, 0, 0));
}

#[test]
fn adjusting_add_wraps_forward() {
    // 23:59:59 + 2 seconds wraps to 00:00:01 on the next day.
    let (adjustment, t) = hms(23, 59, 59).adjusting_add(Duration::seconds(2));
    assert_eq!(adjustment, DateAdjustment::Next);
    assert_eq!(t, hms(0, 0, 1));
}

#[test]
fn adjusting_add_wraps_backward() {
    // 00:00:01 - 2 seconds wraps to 23:59:59 on the previous day.
    let (adjustment, t) = hms(0, 0, 1).adjusting_add(Duration::seconds(-2));
    assert_eq!(adjustment, DateAdjustment::Previous);
    assert_eq!(t, hms(23, 59, 59));
}

#[test]
fn adjusting_add_same_day() {
    let (adjustment, t) = hms(12, 0, 0).adjusting_add(Duration::hours(2));
    assert_eq!(adjustment, DateAdjustment::Same);
    assert_eq!(t, hms(14, 0, 0));
}

#[test]
fn adjusting_add_std_wraps() {
    let (next, t) = hms(23, 59, 59).adjusting_add_std(2, 0);
    assert!(next);
    assert_eq!(t, hms(0, 0, 1));
    let (next, t) = hms(12, 0, 0).adjusting_add_std(2 * 3600, 0);
    assert!(!next);
    assert_eq!(t, hms(14, 0, 0));
}

#[test]
fn adjusting_sub_std_wraps() {
    let (previous, t) = hms(0, 0, 1).adjusting_sub_std(2, 0);
    assert!(previous);
    assert_eq!(t, hms(23, 59, 59));
    let (previous, t) = hms(14, 0, 0).adjusting_sub_std(2 * 3600, 0);
    assert!(!previous);
    assert_eq!(t, hms(12, 0, 0));
}

#[test]
fn add_sub_duration() {
    assert_eq!(hms(12, 0, 0).add_duration(Duration::hours(2)), hms(14, 0, 0));
    assert_eq!(hms(0, 0, 1).add_duration(Duration::seconds(-2)), hms(23, 59, 59));
    assert_eq!(hms(14, 0, 0).sub_duration(Duration::hours(2)), hms(12, 0, 0));
    assert_eq!(hms(23, 59, 59).sub_duration(Duration::seconds(-2)), hms(0, 0, 1));
}

#[test]
fn add_then_sub_restores() {
    // Adding a duration and subtracting it again restores the time.
    let cases = [
        (hms(0, 0, 0), Duration::nanoseconds(1)),
        (hms(23, 59, 59), Duration::seconds(2)),
        (hms(12, 30, 45), Duration::hours(37)),
        (hms(6, 0, 0), Duration::seconds(-90_061)),
    ];
    for (t, d) in cases {
        assert_eq!(t.add_duration(d).sub_duration(d), t);
    }
}

#[test]
fn sub_time_gives_signed_duration() {
    assert_eq!(hms(0, 0, 0).sub_time(hms(0, 0, 0)).whole_seconds(), 0);
    assert_eq!(hms(1, 0, 0).sub_time(hms(0, 0, 0)).whole_seconds(), 3600);
    assert_eq!(hms(0, 0, 0).sub_time(hms(1, 0, 0)).whole_seconds(), -3600);
    assert_eq!(hms(0, 0, 0).sub_time(hms(23, 0, 0)).whole_seconds(), -23 * 3600);
    let d = Time::from_hms_nano(0, 0, 0, 500_000_000)
        .unwrap()
        .sub_time(hms(0, 0, 1));
    assert_eq!(d.whole_seconds(), 0);
    assert_eq!(d.subsec_nanoseconds(), -500_000_000);
}

#[test]
fn duration_constructors() {
    assert_eq!(Duration::weeks(1).whole_seconds(), 604_800);
    assert_eq!(Duration::days(1).whole_seconds(), 86_400);
    assert_eq!(Duration::hours(1).whole_minutes(), 60);
    assert_eq!(Duration::minutes(90).whole_hours(), 1);
    assert_eq!(Duration::milliseconds(1_500).subsec_nanoseconds(), 500_000_000);
    assert_eq!(Duration::microseconds(-1_500).whole_seconds(), 0);
    assert_eq!(Duration::microseconds(-1_500).subsec_nanoseconds(), -1_500_000);
    assert_eq!(Duration::nanoseconds(-1_000_000_001).whole_seconds(), -1);
    assert_eq!(Duration::nanoseconds(-1_000_000_001).subsec_nanoseconds(), -1);
}

#[test]
fn duration_normalisation_and_sign() {
    let d = Duration::new(1, -500_000_000);
    assert_eq!(d.whole_seconds(), 0);
    assert_eq!(d.subsec_nanoseconds(), 500_000_000);
    let d = Duration::new(-1, 500_000_000);
    assert_eq!(d.whole_seconds(), 0);
    assert_eq!(d.subsec_nanoseconds(), -500_000_000);
    assert!(Duration::seconds(1).is_positive());
    assert!(Duration::seconds(-1).is_negative());
    assert!(Duration::seconds(0).is_zero());
    assert_eq!(Duration::seconds(5).negated(), Duration::seconds(-5));
}

#[test]
fn times_and_dates_order() {
    assert!(hms(0, 0, 0) < hms(0, 0, 1));
    assert!(hms(12, 0, 0) > hms(11, 59, 59));
    let earlier = Time::from_hms_nano(1, 2, 3, 4).unwrap();
    let later = Time::from_hms_nano(1, 2, 3, 5).unwrap();
    assert!(earlier < later);
    let d1 = time::Date::from_calendar_date(2019, 12, 31).unwrap();
    let d2 = time::Date::from_calendar_date(2020, 1, 1).unwrap();
    assert!(d1 < d2);
    assert!(time::PrimitiveDateTime::new(d1, later) < time::PrimitiveDateTime::new(d2, earlier));
}
