use time::{Date, Weekday};

fn ymd(year: i32, month: u8, day: u8) -> Date {
    Date::from_calendar_date(year, month, day).expect("components must be in range")
}

#[test]
fn ordinal_round_trip() {
    // For all valid (year, ordinal) pairs, construction and readback agree.
    for &(year, ordinal) in &[(2019, 1), (2020, 366), (-9999, 1), (9999, 365), (1970, 100)] {
        let d = Date::from_ordinal_date(year, ordinal).unwrap();
        assert_eq!(d.to_ordinal_date(), (year, ordinal));
    }
    assert!(Date::from_ordinal_date(2019, 366).is_err());
    assert!(Date::from_ordinal_date(2020, 366).is_ok());
    assert!(Date::from_ordinal_date(10_000, 1).is_err());
}

#[test]
fn julian_day_known_values() {
    assert_eq!(ymd(-4713, 11, 24).to_julian_day(), 0);
    assert_eq!(ymd(2000, 1, 1).to_julian_day(), 2_451_545);
    assert_eq!(ymd(2019, 1, 1).to_julian_day(), 2_458_485);
    assert_eq!(ymd(2019, 12, 31).to_julian_day(), 2_458_849);
    assert_eq!(ymd(1970, 1, 1).to_julian_day(), 2_440_588);
}

#[test]
fn julian_day_round_trip() {
    // The Julian-day conversion is a bijection on its domain.
    for &jd in &[0, 2_451_545, 2_458_485, -1_930_999, 5_373_484, 1_234_567] {
        let d = Date::from_julian_day(jd).unwrap();
        assert_eq!(d.to_julian_day(), jd);
    }
    for &(y, m, d) in &[(2020, 2, 29), (1969, 12, 31), (-44, 3, 15)] {
        let date = ymd(y, m, d);
        assert_eq!(Date::from_julian_day(date.to_julian_day()).unwrap(), date);
    }
    assert!(Date::from_julian_day(-1_931_000).is_err());
    assert!(Date::from_julian_day(5_373_485).is_err());
}

#[test]
fn calendar_date_round_trip() {
    assert_eq!(ymd(2019, 1, 1).to_ordinal_date(), (2019, 1));
    assert_eq!(ymd(2019, 12, 31).to_ordinal_date(), (2019, 365));
    assert_eq!(ymd(2020, 2, 29).to_ordinal_date(), (2020, 60));
    assert_eq!(ymd(2020, 3, 1).to_ordinal_date(), (2020, 61));
    assert_eq!(ymd(2019, 6, 15).to_calendar_date(), (2019, 6, 15));
    assert_eq!(ymd(2020, 2, 29).month(), 2);
    assert_eq!(ymd(2020, 2, 29).day(), 29);
}

#[test]
fn calendar_date_rejects_invalid() {
    assert!(Date::from_calendar_date(2019, 2, 29).is_err());
    assert!(Date::from_calendar_date(2020, 2, 29).is_ok());
    assert!(Date::from_calendar_date(2019, 13, 1).is_err());
    assert!(Date::from_calendar_date(2019, 4, 31).is_err());
    let err = Date::from_calendar_date(2019, 2, 29).unwrap_err();
    assert_eq!(err.name, "day");
    assert_eq!(err.minimum, 1);
    assert_eq!(err.maximum, 28);
    assert_eq!(err.value, 29);
    assert!(err.conditional_range);
}

#[test]
fn year_rollover_cascade() {
    // Adding one day to the last day of a year lands on 1 January,
    // leap years included.
    assert_eq!(ymd(2019, 12, 31).add_days(1).unwrap(), ymd(2020, 1, 1));
    assert_eq!(ymd(2020, 12, 31).add_days(1).unwrap(), ymd(2021, 1, 1));
    assert_eq!(ymd(2020, 1, 1).add_days(-1).unwrap(), ymd(2019, 12, 31));
    assert_eq!(ymd(2020, 2, 28).add_days(1).unwrap(), ymd(2020, 2, 29));
    assert_eq!(ymd(2019, 2, 28).add_days(1).unwrap(), ymd(2019, 3, 1));
    assert!(Date::from_ordinal_date(9999, 365).unwrap().add_days(1).is_err());
}

#[test]
fn weekday_and_weeks() {
    assert_eq!(ymd(2019, 1, 1).weekday(), Weekday::Tuesday);
    assert_eq!(ymd(2019, 2, 1).weekday(), Weekday::Friday);
    assert_eq!(ymd(2019, 3, 1).weekday(), Weekday::Friday);
    assert_eq!(Weekday::Tuesday.number_from_monday(), 2);
    assert_eq!(Weekday::Sunday.number_days_from_sunday(), 0);
    assert_eq!(Weekday::Sunday.next(), Weekday::Monday);
    assert_eq!(Weekday::Monday.previous(), Weekday::Sunday);
}

#[test]
fn iso_week_dates() {
    assert_eq!(ymd(2019, 1, 1).iso_week(), 1);
    assert_eq!(ymd(2020, 1, 1).iso_week(), 1);
    assert_eq!(ymd(2020, 12, 31).iso_week(), 53);
    assert_eq!(ymd(2021, 1, 1).iso_week(), 53);
    assert_eq!(ymd(2019, 1, 1).to_iso_week_date(), (2019, 1, Weekday::Tuesday));
    assert_eq!(ymd(2019, 10, 4).to_iso_week_date(), (2019, 40, Weekday::Friday));
    assert_eq!(ymd(2020, 1, 1).to_iso_week_date(), (2020, 1, Weekday::Wednesday));
    assert_eq!(ymd(2020, 12, 31).to_iso_week_date(), (2020, 53, Weekday::Thursday));
    assert_eq!(ymd(2021, 1, 1).to_iso_week_date(), (2020, 53, Weekday::Friday));
}

#[test]
fn sunday_and_monday_based_weeks() {
    assert_eq!(ymd(2019, 1, 1).sunday_based_week(), 0);
    assert_eq!(ymd(2020, 1, 1).sunday_based_week(), 0);
    assert_eq!(ymd(2020, 12, 31).sunday_based_week(), 52);
    assert_eq!(ymd(2021, 1, 1).sunday_based_week(), 0);
    assert_eq!(ymd(2019, 1, 1).monday_based_week(), 0);
    assert_eq!(ymd(2020, 12, 31).monday_based_week(), 52);
    assert_eq!(ymd(2021, 1, 1).monday_based_week(), 0);
}
