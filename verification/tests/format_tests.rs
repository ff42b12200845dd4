use time::error::{Format, InvalidFormatDescription, Parse};
use time::format_description::{self, Component, FormatItem};
use time::{Date, OffsetDateTime, PrimitiveDateTime, Time, UtcOffset};

fn compile(description: &str) -> Vec<FormatItem> {
    format_description::parse(description).expect("description must compile")
}

#[test]
fn tokenizer_items() {
    let items = compile("[hour]:[minute]:[second]");
    assert_eq!(items.len(), 5);
    assert!(matches!(items[0], FormatItem::Component(Component::Hour { .. })));
    assert!(matches!(&items[1], FormatItem::Literal(l) if l == b":"));
    assert!(matches!(items[2], FormatItem::Component(Component::Minute { .. })));
    let items = compile("plain text");
    assert_eq!(items.len(), 1);
    assert!(matches!(&items[0], FormatItem::Literal(l) if l == b"plain text"));
    let items = compile("a[[b");
    assert!(matches!(&items[0], FormatItem::Literal(l) if l == b"a[b"));
    assert_eq!(compile("").len(), 0);
}

#[test]
fn tokenizer_errors() {
    assert_eq!(
        format_description::parse("[hour"),
        Err(InvalidFormatDescription::UnclosedBracket(0))
    );
    assert_eq!(
        format_description::parse("ab[]"),
        Err(InvalidFormatDescription::MissingComponentName(2))
    );
    assert!(matches!(
        format_description::parse("[cat]"),
        Err(InvalidFormatDescription::InvalidComponentName(_))
    ));
    assert!(matches!(
        format_description::parse("[hour padding:sideways]"),
        Err(InvalidFormatDescription::InvalidModifier(_))
    ));
    assert!(matches!(
        format_description::parse("[hour nonsense:yes]"),
        Err(InvalidFormatDescription::InvalidModifier(_))
    ));
}

#[test]
fn format_time() {
    let format = compile("[hour]:[minute]:[second]");
    let t = Time::from_hms(12, 0, 0).unwrap();
    assert_eq!(t.format(&format).unwrap(), b"12:00:00".to_vec());
    let t = Time::from_hms(1, 2, 3).unwrap();
    assert_eq!(t.format(&format).unwrap(), b"01:02:03".to_vec());
}

#[test]
fn format_padding_styles() {
    let t = Time::from_hms(5, 4, 3).unwrap();
    assert_eq!(t.format(&compile("[hour padding:none]")).unwrap(), b"5".to_vec());
    assert_eq!(t.format(&compile("[hour padding:space]")).unwrap(), b" 5".to_vec());
    assert_eq!(t.format(&compile("[hour padding:zero]")).unwrap(), b"05".to_vec());
}

#[test]
fn format_twelve_hour_clock_and_period() {
    let format = compile("[hour repr:12]:[minute] [period]");
    assert_eq!(
        Time::from_hms(13, 0, 0).unwrap().format(&format).unwrap(),
        b"01:00 PM".to_vec()
    );
    assert_eq!(
        Time::from_hms(0, 30, 0).unwrap().format(&format).unwrap(),
        b"12:30 AM".to_vec()
    );
    let lower = compile("[hour repr:12] [period case:lower]");
    assert_eq!(Time::from_hms(12, 0, 0).unwrap().format(&lower).unwrap(), b"12 pm".to_vec());
}

#[test]
fn format_subsecond() {
    let t = Time::from_hms_nano(0, 0, 0, 123_456_789).unwrap();
    assert_eq!(t.format(&compile("[subsecond digits:3]")).unwrap(), b"123".to_vec());
    assert_eq!(t.format(&compile("[subsecond digits:9]")).unwrap(), b"123456789".to_vec());
    let t = Time::from_hms_milli(0, 0, 0, 500).unwrap();
    assert_eq!(t.format(&compile("[subsecond digits:1+]")).unwrap(), b"500".to_vec());
}

#[test]
fn format_requires_matching_value() {
    let t = Time::from_hms(12, 0, 0).unwrap();
    assert_eq!(t.format(&compile("[year]")), Err(Format::InsufficientTypeInformation));
    assert_eq!(t.format(&compile("[offset_hour]")), Err(Format::InsufficientTypeInformation));
}

#[test]
fn format_into_appends() {
    let format = compile("[hour]:[minute]");
    let mut out: Vec<u8> = b">> ".to_vec();
    let written = Time::from_hms(7, 8, 9).unwrap().format_into(&mut out, &format).unwrap();
    assert_eq!(written, 5);
    assert_eq!(out, b">> 07:08".to_vec());
}

#[test]
fn format_offset_date_time() {
    let format = compile(
        "[year]-[month]-[day] [hour]:[minute]:[second] [offset_hour \
         sign:mandatory]:[offset_minute]:[offset_second]",
    );
    let dt = PrimitiveDateTime::new(
        Date::from_calendar_date(2020, 1, 2).unwrap(),
        Time::from_hms(3, 4, 5).unwrap(),
    )
    .assume_offset(UtcOffset::from_hms(6, 7, 8).unwrap());
    assert_eq!(dt.format(&format).unwrap(), b"2020-01-02 03:04:05 +06:07:08".to_vec());
}

#[test]
fn format_negative_year_and_offset() {
    let format = compile("[year]-[ordinal] [offset_hour]:[offset_minute]");
    let dt = PrimitiveDateTime::new(
        Date::from_ordinal_date(-44, 74).unwrap(),
        Time::from_hms(0, 0, 0).unwrap(),
    )
    .assume_offset(UtcOffset::from_hms(-5, -30, 0).unwrap());
    assert_eq!(dt.format(&format).unwrap(), b"-0044-074 -05:30".to_vec());
}

#[test]
fn parse_time() {
    let format = compile("[hour]:[minute]:[second]");
    assert_eq!(
        Time::parse("12:00:00", &format).unwrap(),
        Time::from_hms(12, 0, 0).unwrap()
    );
    assert_eq!(
        Time::parse("23:59:59", &format).unwrap(),
        Time::from_hms(23, 59, 59).unwrap()
    );
}

#[test]
fn parse_time_errors() {
    let format = compile("[hour]:[minute]:[second]");
    assert_eq!(Time::parse("12-00-00", &format), Err(Parse::InvalidLiteral));
    assert_eq!(Time::parse("ab:00:00", &format), Err(Parse::InvalidComponent("hour")));
    assert_eq!(
        Time::parse("12:00:00x", &format),
        Err(Parse::UnexpectedTrailingCharacters)
    );
    assert!(matches!(
        Time::parse("25:00:00", &format),
        Err(Parse::ComponentRange(e)) if e.name == "hour"
    ));
    assert_eq!(
        Time::parse("12", &compile("[hour]")),
        Err(Parse::InsufficientInformation)
    );
}

#[test]
fn parse_twelve_hour_clock() {
    let format = compile("[hour repr:12]:[minute] [period]");
    assert_eq!(
        Time::parse("01:00 PM", &format).unwrap(),
        Time::from_hms(13, 0, 0).unwrap()
    );
    assert_eq!(
        Time::parse("12:30 am", &format).unwrap(),
        Time::from_hms(0, 30, 0).unwrap()
    );
}

#[test]
fn parse_offset_date_time() {
    let format = compile(
        "[year]-[month]-[day] [hour]:[minute]:[second] [offset_hour \
         sign:mandatory]:[offset_minute]:[offset_second]",
    );
    let expected = PrimitiveDateTime::new(
        Date::from_calendar_date(2020, 1, 2).unwrap(),
        Time::from_hms(3, 4, 5).unwrap(),
    )
    .assume_offset(UtcOffset::from_hms(6, 7, 8).unwrap());
    let parsed = OffsetDateTime::parse("2020-01-02 03:04:05 +06:07:08", &format).unwrap();
    assert_eq!(parsed, expected);
    assert_eq!(parsed.offset(), UtcOffset::from_hms(6, 7, 8).unwrap());
}

#[test]
fn parse_negative_offset() {
    let format = compile("[year]-[ordinal] [hour]:[minute] [offset_hour]:[offset_minute]");
    let parsed = OffsetDateTime::parse("1969-365 23:30 -01:30", &format).unwrap();
    assert_eq!(parsed.offset().whole_seconds(), -(3600 + 1800));
    assert_eq!(parsed.unix_timestamp(), -30 * 60 + 90 * 60);
}

#[test]
fn format_parse_round_trip() {
    // For a lossless format, parsing the rendering restores the value.
    let format = compile("[hour]:[minute]:[second].[subsecond digits:9]");
    let cases = [
        Time::from_hms_nano(0, 0, 0, 0).unwrap(),
        Time::from_hms_nano(23, 59, 59, 999_999_999).unwrap(),
        Time::from_hms_nano(12, 34, 56, 789_000_001).unwrap(),
    ];
    for t in cases {
        let rendered = t.format(&format).unwrap();
        let text = String::from_utf8(rendered).unwrap();
        assert_eq!(Time::parse(&text, &format).unwrap(), t);
    }
    let format = compile(
        "[year]-[month]-[day] [hour]:[minute]:[second] [offset_hour \
         sign:mandatory]:[offset_minute]:[offset_second]",
    );
    let dt = PrimitiveDateTime::new(
        Date::from_calendar_date(1999, 12, 31).unwrap(),
        Time::from_hms(23, 59, 59).unwrap(),
    )
    .assume_offset(UtcOffset::from_hms(11, 0, 0).unwrap());
    let text = String::from_utf8(dt.format(&format).unwrap()).unwrap();
    assert_eq!(OffsetDateTime::parse(&text, &format).unwrap(), dt);
}

#[test]
fn parse_last_occurrence_wins() {
    // A later occurrence of a component overwrites an earlier one.
    let format = compile("[hour] [hour]:[minute]");
    let t = Time::parse("05 07:30", &format).unwrap();
    assert_eq!(t.as_hms(), (7, 30, 0));
    // Without a minute the accumulator cannot resolve.
    assert_eq!(
        Time::parse("05 07", &compile("[hour] [hour]")),
        Err(Parse::InsufficientInformation)
    );
}

#[test]
fn display_bytes_canonical_rendering() {
    assert_eq!(
        Time::from_hms(12, 0, 0).unwrap().display_bytes(),
        b"12:00:00.000".to_vec()
    );
    assert_eq!(
        Time::from_hms_milli(1, 2, 3, 40).unwrap().display_bytes(),
        b"1:02:03.040".to_vec()
    );
    assert_eq!(
        Time::from_hms_nano(23, 59, 59, 123_456_789).unwrap().display_bytes(),
        b"23:59:59.123456789".to_vec()
    );
}

#[test]
fn tokenizer_rejects_misplaced_modifiers() {
    assert!(matches!(
        format_description::parse("[minute repr:12]"),
        Err(InvalidFormatDescription::InvalidModifier(_))
    ));
    assert!(matches!(
        format_description::parse("[second sign:mandatory]"),
        Err(InvalidFormatDescription::InvalidModifier(_))
    ));
    assert!(matches!(
        format_description::parse("[hour digits:3]"),
        Err(InvalidFormatDescription::InvalidModifier(_))
    ));
    assert!(format_description::parse("[hour repr:12]").is_ok());
    assert!(format_description::parse("[year sign:mandatory]").is_ok());
}
