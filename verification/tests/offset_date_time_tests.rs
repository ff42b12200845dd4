use time::{Date, Duration, OffsetDateTime, PrimitiveDateTime, Time, UtcOffset};

fn datetime(year: i32, month: u8, day: u8, hour: u8, minute: u8, second: u8) -> PrimitiveDateTime {
    PrimitiveDateTime::new(
        Date::from_calendar_date(year, month, day).unwrap(),
        Time::from_hms(hour, minute, second).unwrap(),
    )
}

fn offset(hours: i8) -> UtcOffset {
    UtcOffset::from_hms(hours, 0, 0).unwrap()
}

#[test]
fn epoch_correctness() {
    // Zero is exactly the epoch; negative timestamps floor rather than
    // truncate, so -1 is the last second of 1969.
    assert_eq!(OffsetDateTime::from_unix_timestamp(0).unwrap(), OffsetDateTime::unix_epoch());
    let before = OffsetDateTime::from_unix_timestamp(-1).unwrap();
    assert_eq!(before.to_ordinal_date(), (1969, 365));
    assert_eq!(before.to_hms(), (23, 59, 59));
    assert_eq!(before.unix_timestamp(), -1);
}

#[test]
fn from_unix_timestamp_known_values() {
    let dt = OffsetDateTime::from_unix_timestamp(1_546_300_800).unwrap();
    assert_eq!(dt.to_calendar_date(), (2019, 1, 1));
    assert_eq!(dt.to_hms(), (0, 0, 0));
    assert!(dt.offset().is_utc());
    assert_eq!(dt.unix_timestamp(), 1_546_300_800);
    assert!(OffsetDateTime::from_unix_timestamp(253_402_300_800).is_err());
    assert!(OffsetDateTime::from_unix_timestamp(-377_705_116_801).is_err());
    let err = OffsetDateTime::from_unix_timestamp(253_402_300_800).unwrap_err();
    assert_eq!(err.name, "timestamp");
}

#[test]
fn from_unix_timestamp_nanos() {
    assert_eq!(
        OffsetDateTime::from_unix_timestamp_nanos(0).unwrap(),
        OffsetDateTime::unix_epoch()
    );
    let dt = OffsetDateTime::from_unix_timestamp_nanos(1_546_300_800_000_000_000).unwrap();
    assert_eq!(dt.to_calendar_date(), (2019, 1, 1));
    let dt = OffsetDateTime::from_unix_timestamp_nanos(-1_500_000_000).unwrap();
    assert_eq!(dt.to_hms(), (23, 59, 58));
    assert_eq!(dt.nanosecond(), 500_000_000);
    assert_eq!(dt.unix_timestamp_nanos(), -1_500_000_000);
}

#[test]
fn offset_invariant_equality() {
    // Re-expressing an instant in any offset leaves it equal to itself.
    let dt = datetime(2000, 1, 1, 0, 0, 0).assume_utc();
    assert_eq!(dt.to_offset(offset(-1)), dt.to_offset(offset(11)));
    assert_eq!(dt.to_offset(offset(-8)), dt);
}

#[test]
fn to_offset_presents_other_wall_clock() {
    let sydney = datetime(2000, 1, 1, 0, 0, 0).assume_offset(offset(11));
    let new_york = sydney.to_offset(offset(-5));
    let los_angeles = sydney.to_offset(offset(-8));
    assert_eq!(sydney.hour(), 0);
    assert_eq!(new_york.hour(), 8);
    assert_eq!(los_angeles.hour(), 5);
    assert_eq!(new_york.to_calendar_date(), (1999, 12, 31));
    assert_eq!(
        datetime(2000, 1, 1, 0, 0, 0).assume_utc().to_offset(offset(-1)).year(),
        1999
    );
}

#[test]
fn presentation_getters_cascade() {
    let dt = datetime(2019, 12, 31, 23, 0, 0).assume_utc().to_offset(offset(1));
    assert_eq!(dt.year(), 2020);
    assert_eq!(dt.ordinal(), 1);
    assert_eq!(dt.month(), 1);
    assert_eq!(dt.day(), 1);
    assert_eq!(dt.hour(), 0);
    let dt = datetime(2019, 1, 1, 23, 59, 59).assume_utc().to_offset(offset(-2));
    assert_eq!(dt.hour(), 21);
    let half = UtcOffset::from_hms(0, 30, 0).unwrap();
    assert_eq!(datetime(2019, 1, 1, 23, 59, 59).assume_utc().to_offset(half).minute(), 29);
}

#[test]
fn unix_timestamp_respects_offset_storage() {
    // An instant's timestamp ignores the presentation offset; a local
    // reading attached to an offset shifts the stored UTC instant.
    assert_eq!(datetime(1970, 1, 1, 0, 0, 0).assume_utc().unix_timestamp(), 0);
    assert_eq!(
        datetime(1970, 1, 1, 0, 0, 0).assume_offset(offset(-1)).unix_timestamp(),
        3_600
    );
    assert_eq!(
        datetime(1970, 1, 1, 0, 0, 0).assume_offset(offset(-1)).unix_timestamp_nanos(),
        3_600_000_000_000
    );
}

#[test]
fn replace_parts() {
    let noon = Time::from_hms(12, 0, 0).unwrap();
    assert_eq!(
        datetime(2020, 1, 1, 5, 0, 0).assume_utc().replace_time(noon),
        datetime(2020, 1, 1, 12, 0, 0).assume_utc()
    );
    let with_offset = datetime(2020, 1, 1, 12, 0, 0).assume_offset(offset(-5));
    let replaced = with_offset.replace_time(Time::from_hms(7, 0, 0).unwrap());
    assert_eq!(replaced, datetime(2020, 1, 1, 7, 0, 0).assume_offset(offset(-5)));
    let d30 = Date::from_calendar_date(2020, 1, 30).unwrap();
    assert_eq!(
        datetime(2020, 1, 1, 12, 0, 0).assume_utc().replace_date(d30),
        datetime(2020, 1, 30, 12, 0, 0).assume_utc()
    );
    assert_eq!(
        datetime(2020, 1, 1, 12, 0, 0).assume_utc().replace_date_time(datetime(
            2020, 1, 30, 16, 0, 0
        )),
        datetime(2020, 1, 30, 16, 0, 0).assume_utc()
    );
    let moved = datetime(2020, 1, 1, 0, 0, 0).assume_utc().replace_offset(offset(-5));
    assert_eq!(moved.offset(), offset(-5));
    assert_eq!(moved.to_hms(), (0, 0, 0));
}

#[test]
fn arithmetic_crosses_year_boundary() {
    let base = datetime(2019, 12, 31, 23, 59, 59).assume_utc();
    let bumped = base.add_duration(Duration::seconds(2)).unwrap();
    assert_eq!(bumped.to_calendar_date(), (2020, 1, 1));
    assert_eq!(bumped.to_hms(), (0, 0, 1));
    let back = bumped.sub_duration(Duration::seconds(2)).unwrap();
    assert_eq!(back, base);
    assert_eq!(
        datetime(2019, 1, 2, 0, 0, 0).assume_utc().sub_datetime(
            datetime(2019, 1, 1, 0, 0, 0).assume_utc()
        ),
        Duration::days(1)
    );
    assert_eq!(
        datetime(2019, 1, 1, 0, 0, 0).assume_utc().sub_datetime(
            datetime(2019, 1, 2, 0, 0, 0).assume_utc()
        ),
        Duration::days(-1)
    );
}

#[test]
fn iso_week_and_weekday_getters() {
    let dt = datetime(2019, 1, 1, 0, 0, 0).assume_utc();
    assert_eq!(dt.iso_week(), 1);
    assert_eq!(dt.weekday(), time::Weekday::Tuesday);
    assert_eq!(dt.to_iso_week_date(), (2019, 1, time::Weekday::Tuesday));
    assert_eq!(dt.sunday_based_week(), 0);
    assert_eq!(dt.monday_based_week(), 0);
    assert_eq!(dt.to_julian_day(), 2_458_485);
    assert_eq!(dt.to_ordinal_date(), (2019, 1));
}

#[test]
fn subsecond_getters() {
    let dt = PrimitiveDateTime::new(
        Date::from_calendar_date(2019, 1, 1).unwrap(),
        Time::from_hms_nano(23, 59, 59, 999_999_999).unwrap(),
    )
    .assume_utc();
    assert_eq!(dt.millisecond(), 999);
    assert_eq!(dt.microsecond(), 999_999);
    assert_eq!(dt.nanosecond(), 999_999_999);
    assert_eq!(dt.to_hms_milli(), (23, 59, 59, 999));
    assert_eq!(dt.to_hms_micro(), (23, 59, 59, 999_999));
    assert_eq!(dt.to_hms_nano(), (23, 59, 59, 999_999_999));
}

#[test]
fn now_utc_is_plausible() {
    let now = OffsetDateTime::now_utc();
    assert!(now.offset().is_utc());
    assert!(now.year() >= 2019);
}

#[test]
fn now_local_reports_indeterminate() {
    assert!(OffsetDateTime::now_local().is_err());
}

#[test]
fn utc_offset_accessors() {
    let o = UtcOffset::from_hms(-5, -30, -10).unwrap();
    assert_eq!(o.as_hms(), (-5, -30, -10));
    assert_eq!(o.whole_seconds(), -(5 * 3600 + 30 * 60 + 10));
    assert_eq!(o.whole_hours(), -5);
    assert_eq!(o.minutes_past_hour(), -30);
    assert_eq!(o.seconds_past_minute(), -10);
    assert!(UtcOffset::utc().is_utc());
    assert!(UtcOffset::from_hms(24, 0, 0).is_err());
    assert_eq!(UtcOffset::from_whole_seconds(-19_800).unwrap().as_hms(), (-5, -30, 0));
}

#[test]
fn ordering_ignores_offset() {
    let base = datetime(2019, 1, 1, 0, 0, 0).assume_utc();
    let later = datetime(2019, 1, 1, 0, 0, 1).assume_utc();
    assert!(base < later);
    assert!(later > base);
    // The same instant read in another offset compares equal.
    assert_eq!(
        base.partial_cmp(&base.to_offset(offset(5))),
        Some(std::cmp::Ordering::Equal)
    );
    // An earlier instant stays earlier whatever offsets are attached.
    assert!(base.to_offset(offset(-11)) < later.to_offset(offset(11)));
}
