//! A datetime that is always stored in UTC, paired with the fixed offset
//! used to present it.
//!
//! Equality and ordering compare the UTC instant alone: two values that
//! name the same instant in different offsets are equal. The offset is
//! presentation metadata, and every presentation accessor recomputes the
//! locally adjusted value on demand.

use vstd::prelude::*;
use vstd::string::StringSliceAdditionalSpecFns;

use crate::date::{
    iso_week_parts, jd_to_parts, lemma_in_bounds_from_julian, lemma_jd_to_parts_of,
    month_of_ordinal_spec, days_before_month_spec, Date, MAX_JULIAN_DAY, MIN_JULIAN_DAY,
};
use crate::duration::Duration;
use crate::error::{ComponentRange, IndeterminateOffset};
use crate::primitive_date_time::{
    lemma_julian_from_epoch, PrimitiveDateTime, UNIX_EPOCH_JULIAN_DAY,
};
use crate::time::{is_range_err, lemma_time_fields_from_nanos, Time, NANOS_PER_DAY};
use crate::utc_offset::UtcOffset;
use crate::util::{div_floor_i64, div_floor_i128, rem_euclid_i64, rem_euclid_i128};
use crate::weekday::{weekday_index, Weekday};
use vstd::arithmetic::div_mod::{
    lemma_div_is_ordered, lemma_fundamental_div_mod, lemma_fundamental_div_mod_converse,
};

verus! {

/// The smallest Unix timestamp a validated constructor accepts: midnight
/// on the first representable date.
pub const MIN_TIMESTAMP: i64 = -377_705_116_800;

/// The largest Unix timestamp a validated constructor accepts: the last
/// second of the last representable date.
pub const MAX_TIMESTAMP: i64 = 253_402_300_799;

/// A [`PrimitiveDateTime`] that is always stored in UTC, together with the
/// [`UtcOffset`] in which it is presented.
#[derive(Clone, Copy, Debug, Eq)]
pub struct OffsetDateTime {
    /// The instant, always in UTC.
    pub utc_datetime: PrimitiveDateTime,
    /// The offset applied when presenting the instant; never part of
    /// instant identity.
    pub offset: UtcOffset,
}

/// Whether two offset datetimes name the same instant: the stored UTC
/// datetimes are equal, whatever the presentation offsets.
pub open spec fn same_instant(a: OffsetDateTime, b: OffsetDateTime) -> bool {
    a.utc_datetime == b.utc_datetime
}

impl PartialEq for OffsetDateTime {
    /// Equality compares the UTC instant only; the offset is ignored.
    fn eq(&self, rhs: &Self) -> (r: bool) {
        self.utc_datetime == rhs.utc_datetime
    }
}

impl vstd::std_specs::cmp::PartialEqSpecImpl for OffsetDateTime {
    open spec fn obeys_eq_spec() -> bool {
        true
    }

    open spec fn eq_spec(&self, rhs: &Self) -> bool {
        same_instant(*self, *rhs)
    }
}

impl PartialOrd for OffsetDateTime {
    /// Ordering compares the UTC instant only; the offset is ignored.
    fn partial_cmp(&self, other: &Self) -> (r: Option<core::cmp::Ordering>) {
        self.utc_datetime.partial_cmp(&other.utc_datetime)
    }
}

impl vstd::std_specs::cmp::PartialOrdSpecImpl for OffsetDateTime {
    open spec fn obeys_partial_cmp_spec() -> bool {
        true
    }

    open spec fn partial_cmp_spec(&self, other: &Self) -> Option<core::cmp::Ordering> {
        Some(
            crate::primitive_date_time::datetime_order(self.utc_datetime, other.utc_datetime),
        )
    }
}

impl OffsetDateTime {
    /// Well-formedness: the stored datetime is valid and within the
    /// representable date range, and the offset is canonical.
    pub open spec fn wf(self) -> bool {
        &&& self.utc_datetime.wf()
        &&& self.utc_datetime.date.in_bounds()
        &&& self.offset.wf()
    }

    /// The instant as a count of nanoseconds since the Unix epoch.
    pub open spec fn epoch_nanos(self) -> int {
        self.utc_datetime.epoch_nanos()
    }

    /// The instant shifted by the presentation offset, as nanoseconds
    /// since the Unix epoch.
    pub open spec fn local_nanos(self) -> int {
        self.epoch_nanos() + self.offset.total_seconds() * 1_000_000_000
    }

    /// The Julian day of the presented (local) date.
    pub open spec fn local_jd(self) -> int {
        UNIX_EPOCH_JULIAN_DAY + self.local_nanos() / (NANOS_PER_DAY as int)
    }

    /// The presented (local) time of day, as nanoseconds since midnight.
    pub open spec fn local_time_nanos(self) -> int {
        self.local_nanos() % (NANOS_PER_DAY as int)
    }

    /// Midnight on 1 January 1970, in UTC: the Unix epoch.
    pub fn unix_epoch() -> (r: Self)
        ensures
            r.wf(),
            r.epoch_nanos() == 0,
            r.offset == (UtcOffset { hours: 0, minutes: 0, seconds: 0 }),
            r.utc_datetime == (PrimitiveDateTime {
                date: Date { year: 1970, ordinal: 1 },
                time: Time { hour: 0, minute: 0, second: 0, nanosecond: 0 },
            }),
    {
        OffsetDateTime {
            utc_datetime: PrimitiveDateTime {
                date: Date { year: 1970, ordinal: 1 },
                time: Time { hour: 0, minute: 0, second: 0, nanosecond: 0 },
            },
            offset: UtcOffset { hours: 0, minutes: 0, seconds: 0 },
        }
    }

    /// The current date and time in UTC, read from the system clock.
    ///
    /// Nothing is assumed of the clock's value; whatever it reports is
    /// converted exactly, and a reading outside the representable range
    /// falls back to the Unix epoch.
    pub fn now_utc() -> (r: Self)
        ensures
            r.wf(),
            r.offset == (UtcOffset { hours: 0, minutes: 0, seconds: 0 }),
    {
        let now = std::time::SystemTime::now();
        let epoch = unix_epoch_system_time();
        let negative: bool;
        let secs: u64;
        let nanos: u32;
        match now.duration_since(epoch) {
            Ok(d) => {
                negative = false;
                secs = d.as_secs();
                nanos = d.subsec_nanos();
            },
            Err(e) => {
                let d = e.duration();
                negative = true;
                secs = d.as_secs();
                nanos = d.subsec_nanos();
            },
        }
        let magnitude: i128 = (secs as i128) * 1_000_000_000 + (nanos as i128);
        let total: i128 = if negative {
            -magnitude
        } else {
            magnitude
        };
        match Self::from_unix_timestamp_nanos(total) {
            Ok(o) => o,
            Err(_) => Self::unix_epoch(),
        }
    }

    /// The current date and time in the system's local offset.
    ///
    /// Determining the local offset is not supported here (doing so
    /// soundly is not possible on the targeted platforms), so the error is
    /// returned unconditionally.
    pub fn now_local() -> (r: Result<Self, IndeterminateOffset>)
        ensures
            r is Err,
    {
        let _now = Self::now_utc();
        Err(IndeterminateOffset)
    }

    /// The same instant presented in the given offset: only the
    /// presentation offset changes, never the stored UTC instant.
    pub fn to_offset(self, offset: UtcOffset) -> (r: Self)
        ensures
            r.utc_datetime == self.utc_datetime,
            r.offset == offset,
    {
        OffsetDateTime { utc_datetime: self.utc_datetime, offset }
    }

    /// Attempts to create an `OffsetDateTime` from a Unix timestamp in
    /// seconds, rejecting one outside the representable range. The result
    /// is presented in UTC.
    pub fn from_unix_timestamp(timestamp: i64) -> (r: Result<Self, ComponentRange>)
        ensures
            r is Ok <==> MIN_TIMESTAMP <= timestamp <= MAX_TIMESTAMP,
            r matches Ok(o) ==> {
                &&& o.wf()
                &&& o.offset == (UtcOffset { hours: 0, minutes: 0, seconds: 0 })
                &&& o.epoch_nanos() == timestamp * 1_000_000_000
                &&& o.utc_datetime.time.nanosecond == 0
            },
            !(MIN_TIMESTAMP <= timestamp <= MAX_TIMESTAMP) ==> (r matches Err(e) && is_range_err(
                e,
                "timestamp"@,
                MIN_TIMESTAMP as i64,
                MAX_TIMESTAMP as i64,
                timestamp,
            )),
    {
        if timestamp < MIN_TIMESTAMP || timestamp > MAX_TIMESTAMP {
            return Err(
                ComponentRange {
                    name: "timestamp",
                    minimum: MIN_TIMESTAMP,
                    maximum: MAX_TIMESTAMP,
                    value: timestamp,
                    conditional_range: false,
                },
            );
        }
        let days: i64 = div_floor_i64(timestamp, 86_400);
        proof {
            lemma_div_is_ordered(MIN_TIMESTAMP as int, timestamp as int, 86_400);
            lemma_div_is_ordered(timestamp as int, MAX_TIMESTAMP as int, 86_400);
            assert((MIN_TIMESTAMP as int) / 86_400 == -4_371_587);
            assert((MAX_TIMESTAMP as int) / 86_400 == 2_932_896);
        }
        let jd: i64 = UNIX_EPOCH_JULIAN_DAY as i64 + days;
        proof {
            assert(crate::date::year_start_jd(-10_000) <= jd as int);
            assert((jd as int) < crate::date::year_start_jd(10_001));
        }
        let date = Date::from_julian_day_unchecked(jd as i32);
        let secs: u32 = rem_euclid_i64(timestamp, 86_400) as u32;
        proof {
            crate::time::lemma_day_secs_decompose(secs as int);
        }
        let time = Time {
            hour: (secs / 3600) as u8,
            minute: ((secs % 3600) / 60) as u8,
            second: (secs % 60) as u8,
            nanosecond: 0,
        };
        let r = OffsetDateTime {
            utc_datetime: PrimitiveDateTime { date, time },
            offset: UtcOffset { hours: 0, minutes: 0, seconds: 0 },
        };
        proof {
            lemma_in_bounds_from_julian(date);
            lemma_fundamental_div_mod(timestamp as int, 86_400);
            assert(r.epoch_nanos() == timestamp * 1_000_000_000) by (nonlinear_arith)
                requires
                    r.epoch_nanos() == (jd - UNIX_EPOCH_JULIAN_DAY) * (NANOS_PER_DAY as int) + (
                    secs * 1_000_000_000 + 0) && jd == UNIX_EPOCH_JULIAN_DAY + days && timestamp
                        == 86_400 * days + secs && NANOS_PER_DAY == 86_400 * 1_000_000_000,
            ;
        }
        Ok(r)
    }

    /// Attempts to create an `OffsetDateTime` from a Unix timestamp in
    /// nanoseconds, rejecting one outside the representable range. The
    /// result is presented in UTC.
    pub fn from_unix_timestamp_nanos(timestamp: i128) -> (r: Result<Self, ComponentRange>)
        ensures
            r is Ok <==> MIN_TIMESTAMP <= timestamp as int / 1_000_000_000 <= MAX_TIMESTAMP,
            r matches Ok(o) ==> {
                &&& o.wf()
                &&& o.offset == (UtcOffset { hours: 0, minutes: 0, seconds: 0 })
                &&& o.epoch_nanos() == timestamp
            },
            r matches Err(e) ==> ({
                let q = timestamp as int / 1_000_000_000;
                &&& e.name@ == "timestamp"@
                &&& e.minimum == MIN_TIMESTAMP
                &&& e.maximum == MAX_TIMESTAMP
                &&& e.value == if q < i64::MIN {
                    i64::MIN as int
                } else if q > i64::MAX {
                    i64::MAX as int
                } else {
                    q
                }
                &&& e.conditional_range == false
            }),
    {
        let q: i128 = div_floor_i128(timestamp, 1_000_000_000);
        let rem: i128 = rem_euclid_i128(timestamp, 1_000_000_000);
        if q < MIN_TIMESTAMP as i128 || q > MAX_TIMESTAMP as i128 {
            let shown: i64 = if q < i64::MIN as i128 {
                i64::MIN
            } else if q > i64::MAX as i128 {
                i64::MAX
            } else {
                q as i64
            };
            return Err(
                ComponentRange {
                    name: "timestamp",
                    minimum: MIN_TIMESTAMP,
                    maximum: MAX_TIMESTAMP,
                    value: shown,
                    conditional_range: false,
                },
            );
        }
        match Self::from_unix_timestamp(q as i64) {
            Ok(o) => {
                let time = Time {
                    hour: o.utc_datetime.time.hour,
                    minute: o.utc_datetime.time.minute,
                    second: o.utc_datetime.time.second,
                    nanosecond: rem as u32,
                };
                let r = OffsetDateTime {
                    utc_datetime: PrimitiveDateTime { date: o.utc_datetime.date, time },
                    offset: o.offset,
                };
                proof {
                    lemma_fundamental_div_mod(timestamp as int, 1_000_000_000);
                    assert(r.epoch_nanos() == timestamp) by (nonlinear_arith)
                        requires
                            r.epoch_nanos() == o.epoch_nanos() + rem && o.epoch_nanos() == q
                                * 1_000_000_000 && timestamp == 1_000_000_000 * q + rem,
                    ;
                }
                Ok(r)
            },
            Err(e) => Err(e),
        }
    }

    /// The presentation offset.
    pub fn offset(self) -> (r: UtcOffset)
        ensures
            r == self.offset,
    {
        self.offset
    }

    /// The Unix timestamp of the instant, in whole seconds rounded towards
    /// negative infinity.
    pub fn unix_timestamp(self) -> (r: i64)
        requires
            self.wf(),
        ensures
            r == self.epoch_nanos() / 1_000_000_000,
    {
        let jd: i64 = self.utc_datetime.date.to_julian_day() as i64;
        let t = self.utc_datetime.time;
        let day_secs: i64 = t.hour as i64 * 3600 + t.minute as i64 * 60 + t.second as i64;
        let r: i64 = (jd - UNIX_EPOCH_JULIAN_DAY as i64) * 86_400 + day_secs;
        proof {
            assert(self.epoch_nanos() == r * 1_000_000_000 + t.nanosecond) by (nonlinear_arith)
                requires
                    self.epoch_nanos() == (jd - UNIX_EPOCH_JULIAN_DAY) * (NANOS_PER_DAY as int) + (
                    day_secs * 1_000_000_000 + t.nanosecond) && r == (jd - UNIX_EPOCH_JULIAN_DAY)
                        * 86_400 + day_secs && NANOS_PER_DAY == 86_400 * 1_000_000_000,
            ;
            lemma_fundamental_div_mod_converse(
                self.epoch_nanos(),
                1_000_000_000,
                r as int,
                t.nanosecond as int,
            );
        }
        r
    }

    /// The Unix timestamp of the instant, in nanoseconds.
    pub fn unix_timestamp_nanos(self) -> (r: i128)
        requires
            self.wf(),
        ensures
            r == self.epoch_nanos(),
    {
        let seconds: i64 = self.unix_timestamp();
        let r: i128 = (seconds as i128) * 1_000_000_000
            + self.utc_datetime.time.nanosecond as i128;
        proof {
            lemma_fundamental_div_mod(self.epoch_nanos(), 1_000_000_000);
            lemma_epoch_subsec(self);
        }
        r
    }

    /// The presented (local) date.
    pub fn date(self) -> (r: Date)
        requires
            self.wf(),
        ensures
            r.wf(),
            r.julian() == self.local_jd(),
            (r.year as int, r.ordinal as int) == jd_to_parts(self.local_jd()),
    {
        let local = self.utc_datetime.utc_to_offset(self.offset);
        proof {
            lemma_julian_from_epoch(local);
            lemma_jd_to_parts_of(self.local_jd(), (local.date.year as int, local.date.ordinal as int));
        }
        local.date
    }

    /// The presented (local) time of day.
    pub fn time(self) -> (r: Time)
        requires
            self.wf(),
        ensures
            r.wf(),
            r.nanos_of_day() == self.local_time_nanos(),
    {
        let local = self.utc_datetime.utc_to_offset(self.offset);
        proof {
            lemma_fundamental_div_mod_converse(
                local.epoch_nanos(),
                NANOS_PER_DAY as int,
                local.date.julian() - UNIX_EPOCH_JULIAN_DAY,
                local.time.nanos_of_day(),
            );
        }
        local.time
    }

    /// The year of the presented date.
    pub fn year(self) -> (r: i32)
        requires
            self.wf(),
        ensures
            r == jd_to_parts(self.local_jd()).0,
    {
        self.date().year()
    }

    /// The month of the presented date, in `1..=12`.
    pub fn month(self) -> (r: u8)
        requires
            self.wf(),
        ensures
            r == month_of_ordinal_spec(
                jd_to_parts(self.local_jd()).0,
                jd_to_parts(self.local_jd()).1,
            ),
    {
        self.date().month()
    }

    /// The day of the month of the presented date, in `1..=31`.
    pub fn day(self) -> (r: u8)
        requires
            self.wf(),
        ensures
            ({
                let parts = jd_to_parts(self.local_jd());
                r == parts.1 - days_before_month_spec(
                    parts.0,
                    month_of_ordinal_spec(parts.0, parts.1),
                )
            }),
    {
        self.date().day()
    }

    /// The day of the year of the presented date, in `1..=366`.
    pub fn ordinal(self) -> (r: u16)
        requires
            self.wf(),
        ensures
            r == jd_to_parts(self.local_jd()).1,
    {
        self.date().ordinal()
    }

    /// The ISO 8601 week number of the presented date, in `1..=53`.
    pub fn iso_week(self) -> (r: u8)
        requires
            self.wf(),
        ensures
            ({
                let parts = jd_to_parts(self.local_jd());
                r == iso_week_parts(parts.0, parts.1).1
            }),
    {
        self.date().iso_week()
    }

    /// The week number of the presented date, where week 1 begins on the
    /// first Sunday of the year.
    pub fn sunday_based_week(self) -> (r: u8)
        requires
            self.wf(),
        ensures
            ({
                let parts = jd_to_parts(self.local_jd());
                r == (parts.1 - (self.local_jd() % 7 + 1) % 7 + 6) / 7
            }),
    {
        self.date().sunday_based_week()
    }

    /// The week number of the presented date, where week 1 begins on the
    /// first Monday of the year.
    pub fn monday_based_week(self) -> (r: u8)
        requires
            self.wf(),
        ensures
            ({
                let parts = jd_to_parts(self.local_jd());
                r == (parts.1 - self.local_jd() % 7 + 6) / 7
            }),
    {
        self.date().monday_based_week()
    }

    /// The year, month, and day of the presented date.
    pub fn to_calendar_date(self) -> (r: (i32, u8, u8))
        requires
            self.wf(),
        ensures
            ({
                let parts = jd_to_parts(self.local_jd());
                let month = month_of_ordinal_spec(parts.0, parts.1);
                r.0 == parts.0 && r.1 == month && r.2 == parts.1 - days_before_month_spec(
                    parts.0,
                    month,
                )
            }),
    {
        self.date().to_calendar_date()
    }

    /// The year and day-of-year ordinal of the presented date.
    pub fn to_ordinal_date(self) -> (r: (i32, u16))
        requires
            self.wf(),
        ensures
            (r.0 as int, r.1 as int) == jd_to_parts(self.local_jd()),
    {
        self.date().to_ordinal_date()
    }

    /// The ISO 8601 year, week number, and weekday of the presented date.
    pub fn to_iso_week_date(self) -> (r: (i32, u8, Weekday))
        requires
            self.wf(),
        ensures
            ({
                let parts = jd_to_parts(self.local_jd());
                (r.0 as int, r.1 as int) == iso_week_parts(parts.0, parts.1) && weekday_index(r.2)
                    == self.local_jd() % 7
            }),
    {
        self.date().to_iso_week_date()
    }

    /// The day of the week of the presented date.
    pub fn weekday(self) -> (w: Weekday)
        requires
            self.wf(),
        ensures
            weekday_index(w) == self.local_jd() % 7,
    {
        self.date().weekday()
    }

    /// The Julian day of the presented date.
    pub fn to_julian_day(self) -> (r: i32)
        requires
            self.wf(),
        ensures
            r == self.local_jd(),
    {
        self.date().to_julian_day()
    }

    /// The presented clock hour, minute, and second.
    pub fn to_hms(self) -> (r: (u8, u8, u8))
        requires
            self.wf(),
        ensures
            r.0 == self.local_time_nanos() / 3_600_000_000_000,
            r.1 == (self.local_time_nanos() / 60_000_000_000) % 60,
            r.2 == (self.local_time_nanos() / 1_000_000_000) % 60,
    {
        let t = self.time();
        proof {
            lemma_time_fields_from_nanos(t);
        }
        t.as_hms()
    }

    /// The presented clock hour, minute, second, and millisecond.
    pub fn to_hms_milli(self) -> (r: (u8, u8, u8, u16))
        requires
            self.wf(),
        ensures
            r.0 == self.local_time_nanos() / 3_600_000_000_000,
            r.1 == (self.local_time_nanos() / 60_000_000_000) % 60,
            r.2 == (self.local_time_nanos() / 1_000_000_000) % 60,
            r.3 == (self.local_time_nanos() % 1_000_000_000) / 1_000_000,
    {
        let t = self.time();
        proof {
            lemma_time_fields_from_nanos(t);
        }
        t.as_hms_milli()
    }

    /// The presented clock hour, minute, second, and microsecond.
    pub fn to_hms_micro(self) -> (r: (u8, u8, u8, u32))
        requires
            self.wf(),
        ensures
            r.0 == self.local_time_nanos() / 3_600_000_000_000,
            r.1 == (self.local_time_nanos() / 60_000_000_000) % 60,
            r.2 == (self.local_time_nanos() / 1_000_000_000) % 60,
            r.3 == (self.local_time_nanos() % 1_000_000_000) / 1_000,
    {
        let t = self.time();
        proof {
            lemma_time_fields_from_nanos(t);
        }
        t.as_hms_micro()
    }

    /// The presented clock hour, minute, second, and nanosecond.
    pub fn to_hms_nano(self) -> (r: (u8, u8, u8, u32))
        requires
            self.wf(),
        ensures
            r.0 == self.local_time_nanos() / 3_600_000_000_000,
            r.1 == (self.local_time_nanos() / 60_000_000_000) % 60,
            r.2 == (self.local_time_nanos() / 1_000_000_000) % 60,
            r.3 == self.local_time_nanos() % 1_000_000_000,
    {
        let t = self.time();
        proof {
            lemma_time_fields_from_nanos(t);
        }
        t.as_hms_nano()
    }

    /// The presented clock hour, in `0..24`.
    pub fn hour(self) -> (r: u8)
        requires
            self.wf(),
        ensures
            r == self.local_time_nanos() / 3_600_000_000_000,
    {
        let t = self.time();
        proof {
            lemma_time_fields_from_nanos(t);
        }
        t.hour()
    }

    /// The presented minute within the hour, in `0..60`.
    pub fn minute(self) -> (r: u8)
        requires
            self.wf(),
        ensures
            r == (self.local_time_nanos() / 60_000_000_000) % 60,
    {
        let t = self.time();
        proof {
            lemma_time_fields_from_nanos(t);
        }
        t.minute()
    }

    /// The presented second within the minute, in `0..60`.
    pub fn second(self) -> (r: u8)
        requires
            self.wf(),
        ensures
            r == (self.local_time_nanos() / 1_000_000_000) % 60,
    {
        let t = self.time();
        proof {
            lemma_time_fields_from_nanos(t);
        }
        t.second()
    }

    /// The milliseconds within the second, in `0..1_000`; the offset has
    /// second resolution, so the sub-second part never shifts.
    pub fn millisecond(self) -> (r: u16)
        requires
            self.wf(),
        ensures
            r == self.utc_datetime.time.nanosecond / 1_000_000,
    {
        self.utc_datetime.millisecond()
    }

    /// The microseconds within the second, in `0..1_000_000`.
    pub fn microsecond(self) -> (r: u32)
        requires
            self.wf(),
        ensures
            r == self.utc_datetime.time.nanosecond / 1_000,
    {
        self.utc_datetime.microsecond()
    }

    /// The nanoseconds within the second, in `0..1_000_000_000`.
    pub fn nanosecond(self) -> (r: u32)
        requires
            self.wf(),
        ensures
            r == self.utc_datetime.time.nanosecond,
    {
        self.utc_datetime.nanosecond()
    }

    /// Replaces the presented time of day, keeping the presented date and
    /// the offset; the stored UTC instant is recomputed.
    pub fn replace_time(self, time: Time) -> (r: Self)
        requires
            self.wf(),
            time.wf(),
            MIN_JULIAN_DAY <= UNIX_EPOCH_JULIAN_DAY + ((self.local_jd() - UNIX_EPOCH_JULIAN_DAY) * (
            NANOS_PER_DAY as int) + time.nanos_of_day() - self.offset.total_seconds()
                * 1_000_000_000) / (NANOS_PER_DAY as int) <= MAX_JULIAN_DAY,
        ensures
            r.wf(),
            r.offset == self.offset,
            r.epoch_nanos() == (self.local_jd() - UNIX_EPOCH_JULIAN_DAY) * (NANOS_PER_DAY as int)
                + time.nanos_of_day() - self.offset.total_seconds() * 1_000_000_000,
    {
        let local = self.utc_datetime.utc_to_offset(self.offset);
        proof {
            lemma_julian_from_epoch(local);
        }
        local.replace_time(time).assume_offset(self.offset)
    }

    /// Replaces the presented date, keeping the presented time of day and
    /// the offset; the stored UTC instant is recomputed.
    pub fn replace_date(self, date: Date) -> (r: Self)
        requires
            self.wf(),
            date.wf(),
            date.in_bounds(),
            MIN_JULIAN_DAY <= UNIX_EPOCH_JULIAN_DAY + ((date.julian() - UNIX_EPOCH_JULIAN_DAY) * (
            NANOS_PER_DAY as int) + self.local_time_nanos() - self.offset.total_seconds()
                * 1_000_000_000) / (NANOS_PER_DAY as int) <= MAX_JULIAN_DAY,
        ensures
            r.wf(),
            r.offset == self.offset,
            r.epoch_nanos() == (date.julian() - UNIX_EPOCH_JULIAN_DAY) * (NANOS_PER_DAY as int)
                + self.local_time_nanos() - self.offset.total_seconds() * 1_000_000_000,
    {
        let local = self.utc_datetime.utc_to_offset(self.offset);
        proof {
            lemma_fundamental_div_mod_converse(
                local.epoch_nanos(),
                NANOS_PER_DAY as int,
                local.date.julian() - UNIX_EPOCH_JULIAN_DAY,
                local.time.nanos_of_day(),
            );
        }
        local.replace_date(date).assume_offset(self.offset)
    }

    /// Replaces both presented halves at once, keeping the offset; the
    /// given datetime is read as local in the stored offset.
    pub fn replace_date_time(self, date_time: PrimitiveDateTime) -> (r: Self)
        requires
            self.wf(),
            date_time.wf(),
            date_time.date.in_bounds(),
            MIN_JULIAN_DAY <= UNIX_EPOCH_JULIAN_DAY + (date_time.epoch_nanos()
                - self.offset.total_seconds() * 1_000_000_000) / (NANOS_PER_DAY as int)
                <= MAX_JULIAN_DAY,
        ensures
            r.wf(),
            r.offset == self.offset,
            r.epoch_nanos() == date_time.epoch_nanos() - self.offset.total_seconds()
                * 1_000_000_000,
    {
        date_time.assume_offset(self.offset)
    }

    /// Replaces the offset, re-reading the stored datetime's fields as a
    /// local reading in the new offset.
    pub fn replace_offset(self, offset: UtcOffset) -> (r: Self)
        requires
            self.wf(),
            offset.wf(),
            MIN_JULIAN_DAY <= UNIX_EPOCH_JULIAN_DAY + (self.epoch_nanos() - offset.total_seconds()
                * 1_000_000_000) / (NANOS_PER_DAY as int) <= MAX_JULIAN_DAY,
        ensures
            r.wf(),
            r.offset == offset,
            r.epoch_nanos() == self.epoch_nanos() - offset.total_seconds() * 1_000_000_000,
    {
        self.utc_datetime.assume_offset(offset)
    }

    /// The presented (local) date, as a value.
    pub open spec fn local_date_spec(self) -> Date {
        Date {
            year: jd_to_parts(self.local_jd()).0 as i32,
            ordinal: jd_to_parts(self.local_jd()).1 as u16,
        }
    }

    /// The presented (local) time of day, as a value.
    pub open spec fn local_time_spec(self) -> Time {
        Time {
            hour: (self.local_time_nanos() / 3_600_000_000_000) as u8,
            minute: ((self.local_time_nanos() / 60_000_000_000) % 60) as u8,
            second: ((self.local_time_nanos() / 1_000_000_000) % 60) as u8,
            nanosecond: (self.local_time_nanos() % 1_000_000_000) as u32,
        }
    }

    /// Renders the instant against a compiled format description, using the
    /// presented date, time, and offset, appending the bytes to `output`
    /// and returning how many were written.
    pub fn format_into(
        self,
        output: &mut Vec<u8>,
        format: &Vec<crate::format_description::FormatItem>,
    ) -> (r: Result<usize, crate::error::Format>)
        requires
            self.wf(),
            crate::format_description::items_wf(format@),
        ensures
            r is Ok <==> crate::formatting::render_items_spec(
                format@,
                Some(self.local_date_spec()),
                Some(self.local_time_spec()),
                Some(self.offset),
            ) is Some,
            r matches Ok(count) ==> final(output)@ == old(output)@
                + crate::formatting::render_items_spec(
                format@,
                Some(self.local_date_spec()),
                Some(self.local_time_spec()),
                Some(self.offset),
            ).unwrap() && count == crate::formatting::render_items_spec(
                format@,
                Some(self.local_date_spec()),
                Some(self.local_time_spec()),
                Some(self.offset),
            ).unwrap().len(),
            r matches Err(e) ==> e == crate::error::Format::InsufficientTypeInformation,
    {
        let local = self.utc_datetime.utc_to_offset(self.offset);
        proof {
            lemma_julian_from_epoch(local);
            lemma_jd_to_parts_of(
                self.local_jd(),
                (local.date.year as int, local.date.ordinal as int),
            );
            lemma_fundamental_div_mod_converse(
                local.epoch_nanos(),
                NANOS_PER_DAY as int,
                local.date.julian() - UNIX_EPOCH_JULIAN_DAY,
                local.time.nanos_of_day(),
            );
            lemma_time_fields_from_nanos(local.time);
            assert(local.date == self.local_date_spec());
            assert(local.time == self.local_time_spec());
        }
        crate::formatting::format_items_into(
            output,
            format,
            Some(local.date),
            Some(local.time),
            Some(self.offset),
        )
    }

    /// Renders the instant against a compiled format description, using
    /// the presented date, time, and offset.
    pub fn format(self, format: &Vec<crate::format_description::FormatItem>) -> (r: Result<
        Vec<u8>,
        crate::error::Format,
    >)
        requires
            self.wf(),
            crate::format_description::items_wf(format@),
        ensures
            r is Ok <==> crate::formatting::render_items_spec(
                format@,
                Some(self.local_date_spec()),
                Some(self.local_time_spec()),
                Some(self.offset),
            ) is Some,
            r matches Ok(bytes) ==> bytes@ == crate::formatting::render_items_spec(
                format@,
                Some(self.local_date_spec()),
                Some(self.local_time_spec()),
                Some(self.offset),
            ).unwrap(),
            r matches Err(e) ==> e == crate::error::Format::InsufficientTypeInformation,
    {
        let mut out: Vec<u8> = Vec::new();
        match self.format_into(&mut out, format) {
            Ok(_) => Ok(out),
            Err(e) => Err(e),
        }
    }

    /// Parses an offset datetime from the input against a compiled format
    /// description: the tokens must consume the whole input, and the
    /// accumulated components must resolve into a date, a time, and an
    /// offset naming an instant within the representable range.
    pub fn parse(input: &str, description: &Vec<crate::format_description::FormatItem>) -> (r:
        Result<OffsetDateTime, crate::error::Parse>)
        requires
            crate::format_description::items_wf(description@),
        ensures
            ({
                let spec_r = crate::parsing::parse_items_spec(
                    description@,
                    input.spec_bytes(),
                    0,
                    crate::parsing::Parsed::empty_spec(),
                );
                &&& (r matches Ok(odt) ==> ({
                    &&& spec_r matches Some(p)
                    &&& p.1 == input.spec_bytes().len()
                    &&& crate::parsing::resolved_date(p.0) matches Some(d)
                    &&& crate::parsing::resolved_time(p.0) matches Some(t)
                    &&& crate::parsing::resolved_offset_secs(p.0) matches Some(off)
                    &&& odt.wf()
                    &&& odt.offset.total_seconds() == off
                    &&& odt.epoch_nanos() == (d.julian() - UNIX_EPOCH_JULIAN_DAY) * (
                    NANOS_PER_DAY as int) + t.nanos_of_day() - off * 1_000_000_000
                }))
                &&& (spec_r is None ==> r is Err)
                &&& (spec_r matches Some(p) ==> (p.1 < input.spec_bytes().len() ==> r == Err::<
                    OffsetDateTime,
                    crate::error::Parse,
                >(crate::error::Parse::UnexpectedTrailingCharacters)))
                &&& (spec_r is Some ==> ({
                    let p = spec_r.unwrap();
                    let rd = crate::parsing::resolved_date(p.0);
                    let rt = crate::parsing::resolved_time(p.0);
                    let ro = crate::parsing::resolved_offset_secs(p.0);
                    (p.1 == input.spec_bytes().len() && rd is Some && rt is Some && ro is Some)
                        ==> ({
                        let total = (rd.unwrap().julian() - UNIX_EPOCH_JULIAN_DAY) * (
                        NANOS_PER_DAY as int) + rt.unwrap().nanos_of_day() - ro.unwrap()
                            * 1_000_000_000;
                        &&& (MIN_TIMESTAMP <= total / 1_000_000_000 <= MAX_TIMESTAMP ==> (
                        r matches Ok(odt) && odt.wf() && odt.epoch_nanos() == total
                            && odt.offset.total_seconds() == ro.unwrap()))
                        &&& (!(MIN_TIMESTAMP <= total / 1_000_000_000 <= MAX_TIMESTAMP) ==> (
                        r matches Err(pe) && pe matches crate::error::Parse::ComponentRange(_)))
                    })
                }))
            }),
    {
        let b: &[u8] = input.as_bytes();
        match crate::parsing::run_parser(b, description) {
            Err(e) => Err(e),
            Ok((acc, i)) => {
                if i < b.len() {
                    return Err(crate::error::Parse::UnexpectedTrailingCharacters);
                }
                let date = match crate::parsing::resolve_date(acc) {
                    Ok(d) => d,
                    Err(e) => {
                        return Err(e);
                    },
                };
                let time = match crate::parsing::resolve_time(acc) {
                    Ok(t) => t,
                    Err(e) => {
                        return Err(e);
                    },
                };
                let offset = match crate::parsing::resolve_offset(acc) {
                    Ok(o) => o,
                    Err(e) => {
                        return Err(e);
                    },
                };
                let jd: i128 = date.to_julian_day() as i128;
                let tn: i128 = ((time.hour as i128) * 3600 + (time.minute as i128) * 60
                    + (time.second as i128)) * 1_000_000_000 + (time.nanosecond as i128);
                let off: i128 = offset.whole_seconds() as i128;
                let total: i128 = (jd - UNIX_EPOCH_JULIAN_DAY as i128) * (NANOS_PER_DAY as i128)
                    + tn - off * 1_000_000_000;
                proof {
                    assert(total == (date.julian() - UNIX_EPOCH_JULIAN_DAY) * (NANOS_PER_DAY as int)
                        + time.nanos_of_day() - offset.total_seconds() * 1_000_000_000);
                }
                match Self::from_unix_timestamp_nanos(total) {
                    Ok(o) => Ok(o.to_offset(offset)),
                    Err(e) => Err(crate::error::Parse::ComponentRange(e)),
                }
            },
        }
    }

    /// The instant shifted forwards by `duration`, rejecting a result
    /// outside the representable range; the offset is kept.
    pub fn add_duration(self, duration: Duration) -> (r: Result<Self, ComponentRange>)
        requires
            self.wf(),
            duration.wf(),
        ensures
            r is Ok <==> MIN_JULIAN_DAY <= UNIX_EPOCH_JULIAN_DAY + (self.epoch_nanos()
                + duration.total_nanos()) / (NANOS_PER_DAY as int) <= MAX_JULIAN_DAY,
            r matches Ok(o) ==> {
                &&& o.wf()
                &&& o.offset == self.offset
                &&& o.epoch_nanos() == self.epoch_nanos() + duration.total_nanos()
            },
            r matches Err(e) ==> e.name@ == "julian_day"@,
    {
        match self.utc_datetime.add_duration(duration) {
            Ok(u) => Ok(OffsetDateTime { utc_datetime: u, offset: self.offset }),
            Err(e) => Err(e),
        }
    }

    /// The instant shifted backwards by `duration`, rejecting a result
    /// outside the representable range; the offset is kept.
    pub fn sub_duration(self, duration: Duration) -> (r: Result<Self, ComponentRange>)
        requires
            self.wf(),
            duration.wf(),
            duration.seconds > i64::MIN,
        ensures
            r is Ok <==> MIN_JULIAN_DAY <= UNIX_EPOCH_JULIAN_DAY + (self.epoch_nanos()
                - duration.total_nanos()) / (NANOS_PER_DAY as int) <= MAX_JULIAN_DAY,
            r matches Ok(o) ==> {
                &&& o.wf()
                &&& o.offset == self.offset
                &&& o.epoch_nanos() == self.epoch_nanos() - duration.total_nanos()
            },
            r matches Err(e) ==> e.name@ == "julian_day"@,
    {
        match self.utc_datetime.sub_duration(duration) {
            Ok(u) => Ok(OffsetDateTime { utc_datetime: u, offset: self.offset }),
            Err(e) => Err(e),
        }
    }

    /// The signed span between two instants: `self` minus `rhs`. The
    /// offsets play no part.
    pub fn sub_datetime(self, rhs: Self) -> (r: Duration)
        requires
            self.wf(),
            rhs.wf(),
        ensures
            r.wf(),
            r.total_nanos() == self.epoch_nanos() - rhs.epoch_nanos(),
    {
        self.utc_datetime.sub_datetime(rhs.utc_datetime)
    }
}

/// The sub-second part of an instant is untouched by whole-second
/// arithmetic: the epoch nanosecond count's remainder modulo one second is
/// the stored nanosecond field.
proof fn lemma_epoch_subsec(o: OffsetDateTime)
    requires
        o.wf(),
    ensures
        o.epoch_nanos() % 1_000_000_000 == o.utc_datetime.time.nanosecond,
        o.epoch_nanos() / 1_000_000_000 == (o.utc_datetime.date.julian() - UNIX_EPOCH_JULIAN_DAY)
            * 86_400 + (o.utc_datetime.time.hour * 3600 + o.utc_datetime.time.minute * 60
            + o.utc_datetime.time.second),
{
    let t = o.utc_datetime.time;
    let jd = o.utc_datetime.date.julian();
    let q = (jd - UNIX_EPOCH_JULIAN_DAY) * 86_400 + (t.hour * 3600 + t.minute * 60 + t.second);
    assert(o.epoch_nanos() == q * 1_000_000_000 + t.nanosecond) by (nonlinear_arith)
        requires
            o.epoch_nanos() == (jd - UNIX_EPOCH_JULIAN_DAY) * (NANOS_PER_DAY as int) + ((t.hour
                * 3600 + t.minute * 60 + t.second) as int * 1_000_000_000 + t.nanosecond) && q == (
            jd - UNIX_EPOCH_JULIAN_DAY) * 86_400 + (t.hour * 3600 + t.minute * 60 + t.second) && (
            NANOS_PER_DAY as int) == 86_400 * 1_000_000_000,
    ;
    lemma_fundamental_div_mod_converse(o.epoch_nanos(), 1_000_000_000, q, t.nanosecond as int);
}

/// The instant zero seconds after the Unix epoch is exactly the epoch
/// value, and the instant one second before it is the last second of 1969:
/// negative timestamps resolve by flooring, not by truncation.
pub proof fn lemma_epoch_correctness(o: OffsetDateTime)
    requires
        o.wf(),
    ensures
        o.epoch_nanos() == 0 ==> o.utc_datetime == (PrimitiveDateTime {
            date: Date { year: 1970, ordinal: 1 },
            time: Time { hour: 0, minute: 0, second: 0, nanosecond: 0 },
        }),
        o.epoch_nanos() == -1_000_000_000 ==> o.utc_datetime == (PrimitiveDateTime {
            date: Date { year: 1969, ordinal: 365 },
            time: Time { hour: 23, minute: 59, second: 59, nanosecond: 0 },
        }),
{
    let d = o.utc_datetime.date;
    let t = o.utc_datetime.time;
    if o.epoch_nanos() == 0 {
        lemma_fundamental_div_mod_converse(
            0,
            NANOS_PER_DAY as int,
            d.julian() - UNIX_EPOCH_JULIAN_DAY,
            t.nanos_of_day(),
        );
        assert(d.julian() == UNIX_EPOCH_JULIAN_DAY && t.nanos_of_day() == 0);
        crate::date::lemma_date_parts_unique(
            d.julian(),
            (d.year as int, d.ordinal as int),
            (1970int, 1int),
        );
        lemma_time_fields_from_nanos(t);
    }
    if o.epoch_nanos() == -1_000_000_000 {
        lemma_fundamental_div_mod_converse(
            -1_000_000_000,
            NANOS_PER_DAY as int,
            d.julian() - UNIX_EPOCH_JULIAN_DAY,
            t.nanos_of_day(),
        );
        assert(d.julian() == UNIX_EPOCH_JULIAN_DAY - 1 && t.nanos_of_day() == (NANOS_PER_DAY as int)
            - 1_000_000_000);
        crate::date::lemma_date_parts_unique(
            d.julian(),
            (d.year as int, d.ordinal as int),
            (1969int, 365int),
        );
        lemma_time_fields_from_nanos(t);
    }
}

/// Parse-of-format round trip for offset datetimes, end to end: a
/// well-formed instant whose presented date stays within the validated
/// year range renders against any lossless description naming every date,
/// time, and offset component, and the token walk over that rendering
/// consumes it whole and resolves back to the presented date, the
/// presented time, and the offset's total seconds — which recombine to the
/// original instant, whose timestamp lies in the parseable range. Instants
/// whose presented date leaves the validated range are excluded: a
/// four-digit year field cannot carry their rendering.
pub proof fn lemma_parse_of_format_roundtrip(
    items: Seq<crate::format_description::FormatItem>,
    x: OffsetDateTime,
)
    requires
        x.wf(),
        x.local_date_spec().in_bounds(),
        crate::parsing::lossless_instant_items(items),
        crate::parsing::has_year(items),
        crate::parsing::has_month(items),
        crate::parsing::has_day(items),
        crate::parsing::has_hour_24(items),
        crate::parsing::has_minute(items),
        crate::parsing::has_second(items),
        crate::parsing::has_subsecond(items),
        crate::parsing::has_offset_hour(items),
        crate::parsing::has_offset_minute(items),
        crate::parsing::has_offset_second(items),
    ensures
        ({
            let d = x.local_date_spec();
            let t = x.local_time_spec();
            let rendered = crate::formatting::render_items_spec(
                items,
                Some(d),
                Some(t),
                Some(x.offset),
            );
            &&& rendered is Some
            &&& crate::parsing::parse_items_spec(
                items,
                rendered.unwrap(),
                0,
                crate::parsing::Parsed::empty_spec(),
            ) matches Some(p) && p.1 == rendered.unwrap().len() && crate::parsing::resolved_date(
                p.0,
            ) == Some(d) && crate::parsing::resolved_time(p.0) == Some(t)
                && crate::parsing::resolved_offset_secs(p.0) == Some(x.offset.total_seconds())
            &&& (d.julian() - UNIX_EPOCH_JULIAN_DAY) * (NANOS_PER_DAY as int) + t.nanos_of_day()
                - x.offset.total_seconds() * 1_000_000_000 == x.epoch_nanos()
            &&& MIN_TIMESTAMP <= x.epoch_nanos() / 1_000_000_000 <= MAX_TIMESTAMP
        }),
{
    let npd = NANOS_PER_DAY as int;
    let d = x.local_date_spec();
    let t = x.local_time_spec();
    let o = x.offset;
    let jd = x.utc_datetime.date.julian();
    let tn = x.utc_datetime.time.nanos_of_day();
    let offns = o.total_seconds() * 1_000_000_000;
    let sum = tn + offns;
    let local = x.local_nanos();
    let ltn = x.local_time_nanos();
    assert(crate::date::year_start_jd(-9_999) == MIN_JULIAN_DAY);
    assert(crate::date::year_start_jd(10_000) == MAX_JULIAN_DAY + 1);
    crate::date::lemma_year_start_succ(-10_000);
    crate::date::lemma_year_start_succ(10_000);
    crate::date::lemma_year_start_succ(x.utc_datetime.date.year as int);
    crate::date::lemma_year_start_mono(-9_999, x.utc_datetime.date.year as int);
    crate::date::lemma_year_start_mono(x.utc_datetime.date.year + 1, 10_000);
    assert(MIN_JULIAN_DAY <= jd <= MAX_JULIAN_DAY);
    // The presented Julian day is the stored one shifted by at most a day.
    assert(-npd < sum < 2 * npd);
    assert((-npd) / npd == -1);
    assert((2 * npd - 1) / npd == 1);
    lemma_div_is_ordered(-npd, sum, npd);
    lemma_div_is_ordered(sum, 2 * npd - 1, npd);
    assert(local == sum + (jd - UNIX_EPOCH_JULIAN_DAY) * npd) by (nonlinear_arith)
        requires
            local == (jd - UNIX_EPOCH_JULIAN_DAY) * npd + tn + offns && sum == tn + offns,
    ;
    vstd::arithmetic::div_mod::lemma_hoist_over_denominator(
        sum,
        jd - UNIX_EPOCH_JULIAN_DAY,
        npd as nat,
    );
    assert(x.local_jd() == jd + sum / npd);
    assert(MIN_JULIAN_DAY - 1 <= x.local_jd() <= MAX_JULIAN_DAY + 1);
    crate::date::lemma_jd_to_parts_valid(x.local_jd());
    assert(d.wf());
    assert(d.julian() == x.local_jd());
    // The presented time's fields recombine to the presented nanosecond
    // count.
    vstd::arithmetic::div_mod::lemma_mod_division_less_than_divisor(local, npd);
    assert(0 <= ltn < npd);
    lemma_div_is_ordered(ltn, npd - 1, 3_600_000_000_000);
    assert((npd - 1) / 3_600_000_000_000 == 23);
    vstd::arithmetic::div_mod::lemma_div_pos_is_pos(ltn, 3_600_000_000_000);
    vstd::arithmetic::div_mod::lemma_mod_division_less_than_divisor(
        ltn / 60_000_000_000,
        60,
    );
    vstd::arithmetic::div_mod::lemma_mod_division_less_than_divisor(ltn / 1_000_000_000, 60);
    vstd::arithmetic::div_mod::lemma_mod_division_less_than_divisor(ltn, 1_000_000_000);
    vstd::arithmetic::div_mod::lemma_div_pos_is_pos(ltn, 60_000_000_000);
    vstd::arithmetic::div_mod::lemma_div_pos_is_pos(ltn, 1_000_000_000);
    assert(t.wf());
    vstd::arithmetic::div_mod::lemma_div_denominator(ltn, 1_000_000_000, 60);
    vstd::arithmetic::div_mod::lemma_div_denominator(ltn, 60_000_000_000, 60);
    lemma_fundamental_div_mod(ltn, 1_000_000_000);
    lemma_fundamental_div_mod(ltn / 1_000_000_000, 60);
    lemma_fundamental_div_mod(ltn / 60_000_000_000, 60);
    assert(t.nanos_of_day() == ltn) by (nonlinear_arith)
        requires
            t.nanos_of_day() == ((ltn / 3_600_000_000_000) * 3600 + ((ltn / 60_000_000_000) % 60)
                * 60 + ((ltn / 1_000_000_000) % 60)) * 1_000_000_000 + (ltn % 1_000_000_000) && ltn
                == 1_000_000_000 * (ltn / 1_000_000_000) + ltn % 1_000_000_000 && ltn
                / 1_000_000_000 == 60 * ((ltn / 1_000_000_000) / 60) + (ltn / 1_000_000_000) % 60
                && (ltn / 1_000_000_000) / 60 == ltn / 60_000_000_000 && ltn / 60_000_000_000 == 60
                * ((ltn / 60_000_000_000) / 60) + (ltn / 60_000_000_000) % 60 && (ltn
                / 60_000_000_000) / 60 == ltn / 3_600_000_000_000,
    ;
    // The presented parts recombine to the stored instant.
    lemma_fundamental_div_mod(local, npd);
    assert((d.julian() - UNIX_EPOCH_JULIAN_DAY) * npd + t.nanos_of_day() == local)
        by (nonlinear_arith)
        requires
            local == npd * (local / npd) + local % npd && d.julian() == UNIX_EPOCH_JULIAN_DAY
                + local / npd && t.nanos_of_day() == local % npd,
    ;
    // The instant's timestamp lies in the parseable range.
    lemma_epoch_subsec(x);
    // The rendering parses back to the presented parts.
    crate::parsing::lemma_format_parse_roundtrip_instant(items, d, t, o);
}

/// Presenting one instant in any two offsets yields values that compare
/// equal: `==` on `OffsetDateTime` compares the stored UTC instant alone,
/// and changing the presentation offset never changes that instant.
pub proof fn lemma_offset_invariant_equality(dt: OffsetDateTime, a: UtcOffset, b: UtcOffset)
    ensures
        same_instant(
            OffsetDateTime { utc_datetime: dt.utc_datetime, offset: a },
            OffsetDateTime { utc_datetime: dt.utc_datetime, offset: b },
        ),
{
}

// region: system clock (trusted declarations)
#[verifier::external_type_specification]
#[verifier::external_body]
pub struct ExSystemTime(std::time::SystemTime);

#[verifier::external_type_specification]
#[verifier::external_body]
pub struct ExSystemTimeError(std::time::SystemTimeError);

/// Relies on std::time::SystemTime::now: a snapshot of the system clock.
/// Nothing is assumed of its value.
pub assume_specification[ std::time::SystemTime::now ]() -> std::time::SystemTime;

/// Relies on std::time::SystemTime::duration_since: the span between two
/// clock snapshots, or an error carrying the backwards span. Nothing is
/// assumed of the value.
pub assume_specification[ std::time::SystemTime::duration_since ](
    t: &std::time::SystemTime,
    earlier: std::time::SystemTime,
) -> Result<core::time::Duration, std::time::SystemTimeError>;

/// Relies on core::time::Duration::as_secs: the whole seconds of a span.
pub assume_specification[ core::time::Duration::as_secs ](d: &core::time::Duration) -> u64;

/// Relies on core::time::Duration::subsec_nanos: the sub-second part of a
/// span, documented to be below one second.
pub assume_specification[ core::time::Duration::subsec_nanos ](d: &core::time::Duration) -> (r:
    u32)
    ensures
        r < 1_000_000_000,
;

/// Relies on std::time::SystemTimeError::duration: how far the clock
/// snapshot lies before the reference point.
pub assume_specification[ std::time::SystemTimeError::duration ](
    e: &std::time::SystemTimeError,
) -> core::time::Duration;

/// Relies on std::time::UNIX_EPOCH: the clock value of the Unix epoch.
#[verifier::external_body]
fn unix_epoch_system_time() -> std::time::SystemTime {
    std::time::UNIX_EPOCH
}

// endregion system clock
} // verus!
