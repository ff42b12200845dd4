//! A date and a clock time combined, with no offset attached.

use vstd::prelude::*;

use crate::date::{Date, MAX_JULIAN_DAY, MIN_JULIAN_DAY};
use crate::duration::Duration;
use crate::error::ComponentRange;
use crate::time::{adjustment_days, subday_nanos, Time, NANOS_PER_DAY};
use crate::util::DateAdjustment;

verus! {

/// The Julian day of the Unix epoch, 1970-01-01.
pub const UNIX_EPOCH_JULIAN_DAY: i32 = 2_440_588;

/// A [`Date`] and a [`Time`] combined; it carries no offset, and ordering
/// and equality are structural (date first, then time).
#[derive(Clone, Copy, Debug, PartialEq, Eq, Hash, Structural)]
pub struct PrimitiveDateTime {
    /// The calendar date.
    pub date: Date,
    /// The time of day.
    pub time: Time,
}

impl PrimitiveDateTime {
    /// Well-formedness of both halves.
    pub open spec fn wf(self) -> bool {
        self.date.wf() && self.time.wf()
    }

    /// The datetime as a count of nanoseconds since the Unix epoch.
    pub open spec fn epoch_nanos(self) -> int {
        (self.date.julian() - UNIX_EPOCH_JULIAN_DAY) * (NANOS_PER_DAY as int)
            + self.time.nanos_of_day()
    }

    /// Combines a date and a time of day.
    pub fn new(date: Date, time: Time) -> (r: Self)
        ensures
            r == (PrimitiveDateTime { date, time }),
    {
        PrimitiveDateTime { date, time }
    }

    /// The date half.
    pub fn date(self) -> (r: Date)
        ensures
            r == self.date,
    {
        self.date
    }

    /// The time half.
    pub fn time(self) -> (r: Time)
        ensures
            r == self.time,
    {
        self.time
    }

    /// The same date with a different time of day.
    pub fn replace_time(self, time: Time) -> (r: Self)
        ensures
            r == (PrimitiveDateTime { date: self.date, time }),
    {
        PrimitiveDateTime { date: self.date, time }
    }

    /// The same time of day on a different date.
    pub fn replace_date(self, date: Date) -> (r: Self)
        ensures
            r == (PrimitiveDateTime { date, time: self.time }),
    {
        PrimitiveDateTime { date, time: self.time }
    }

    /// The Julian day of the date half.
    pub fn to_julian_day(self) -> (r: i32)
        requires
            self.wf(),
        ensures
            r == self.date.julian(),
    {
        self.date.to_julian_day()
    }

    /// The clock hour of the time half.
    pub fn hour(self) -> (r: u8)
        ensures
            r == self.time.hour,
    {
        self.time.hour
    }

    /// The minute of the time half.
    pub fn minute(self) -> (r: u8)
        ensures
            r == self.time.minute,
    {
        self.time.minute
    }

    /// The second of the time half.
    pub fn second(self) -> (r: u8)
        ensures
            r == self.time.second,
    {
        self.time.second
    }

    /// The nanosecond of the time half.
    pub fn nanosecond(self) -> (r: u32)
        ensures
            r == self.time.nanosecond,
    {
        self.time.nanosecond
    }

    /// The millisecond of the time half.
    pub fn millisecond(self) -> (r: u16)
        requires
            self.wf(),
        ensures
            r == self.time.nanosecond / 1_000_000,
    {
        self.time.millisecond()
    }

    /// The microsecond of the time half.
    pub fn microsecond(self) -> (r: u32)
        ensures
            r == self.time.nanosecond / 1_000,
    {
        self.time.microsecond()
    }

    /// The datetime shifted forwards by `duration`, rejecting a result
    /// whose date leaves the representable range.
    pub fn add_duration(self, duration: Duration) -> (r: Result<Self, ComponentRange>)
        requires
            self.wf(),
            duration.wf(),
        ensures
            r is Ok <==> MIN_JULIAN_DAY <= UNIX_EPOCH_JULIAN_DAY + (self.epoch_nanos()
                + duration.total_nanos()) / (NANOS_PER_DAY as int) <= MAX_JULIAN_DAY,
            r matches Ok(p) ==> {
                &&& p.wf()
                &&& p.date.in_bounds()
                &&& p.epoch_nanos() == self.epoch_nanos() + duration.total_nanos()
            },
            r matches Err(e) ==> e.name@ == "julian_day"@,
    {
        let (adj, time) = self.time.adjusting_add(duration);
        let adj_days: i64 = match adj {
            DateAdjustment::Previous => -1,
            DateAdjustment::Same => 0,
            DateAdjustment::Next => 1,
        };
        let days: i64 = duration.whole_days() + adj_days;
        proof {
            lemma_shift_decomposition(duration);
            let npd = NANOS_PER_DAY as int;
            let t = self.time.nanos_of_day();
            let sub = subday_nanos(duration);
            vstd::arithmetic::div_mod::lemma_fundamental_div_mod(t + sub, npd);
            let wd = crate::util::trunc_div_spec(duration.seconds as int, 86_400);
            let sum = self.epoch_nanos() + duration.total_nanos();
            let newjd = self.date.julian() + wd + adjustment_days(adj);
            assert(sum == (newjd - UNIX_EPOCH_JULIAN_DAY) * npd + time.nanos_of_day())
                by (nonlinear_arith)
                requires
                    sum == self.epoch_nanos() + duration.total_nanos() && self.epoch_nanos() == (
                    self.date.julian() - UNIX_EPOCH_JULIAN_DAY) * npd + t && duration.total_nanos()
                        == npd * wd + sub && t + sub == npd * adjustment_days(adj)
                        + time.nanos_of_day() && newjd == self.date.julian() + wd + adjustment_days(
                        adj,
                    ),
            ;
            vstd::arithmetic::div_mod::lemma_fundamental_div_mod_converse(
                sum,
                npd,
                newjd - UNIX_EPOCH_JULIAN_DAY,
                time.nanos_of_day(),
            );
        }
        match self.date.add_days(days) {
            Ok(date) => Ok(PrimitiveDateTime { date, time }),
            Err(e) => Err(e),
        }
    }

    /// The datetime shifted backwards by `duration`, rejecting a result
    /// whose date leaves the representable range.
    pub fn sub_duration(self, duration: Duration) -> (r: Result<Self, ComponentRange>)
        requires
            self.wf(),
            duration.wf(),
            duration.seconds > i64::MIN,
        ensures
            r is Ok <==> MIN_JULIAN_DAY <= UNIX_EPOCH_JULIAN_DAY + (self.epoch_nanos()
                - duration.total_nanos()) / (NANOS_PER_DAY as int) <= MAX_JULIAN_DAY,
            r matches Ok(p) ==> {
                &&& p.wf()
                &&& p.date.in_bounds()
                &&& p.epoch_nanos() == self.epoch_nanos() - duration.total_nanos()
            },
            r matches Err(e) ==> e.name@ == "julian_day"@,
    {
        self.add_duration(duration.negated())
    }

    /// The datetime shifted by a sub-day number of whole seconds, carrying
    /// any midnight crossing into the date.
    fn shift_whole_seconds(self, secs: i32) -> (r: Self)
        requires
            self.wf(),
            -86_400 < secs < 86_400,
            MIN_JULIAN_DAY - 1 <= self.date.julian() <= MAX_JULIAN_DAY + 1,
        ensures
            r.wf(),
            r.epoch_nanos() == self.epoch_nanos() + secs * 1_000_000_000,
            self.date.julian() - 1 <= r.date.julian() <= self.date.julian() + 1,
    {
        proof {
            crate::date::lemma_year_start_succ(-10_000);
            crate::date::lemma_year_start_succ(10_000);
            assert(crate::date::year_start_jd(-9_999) == MIN_JULIAN_DAY);
            assert(crate::date::year_start_jd(10_000) == MAX_JULIAN_DAY + 1);
        }
        let jd: i64 = self.date.to_julian_day() as i64;
        let npd: i64 = NANOS_PER_DAY;
        if secs >= 0 {
            proof {
                vstd::arithmetic::div_mod::lemma_small_mod(secs as nat, 86_400);
            }
            let (next, t2) = self.time.adjusting_add_std(secs as u64, 0);
            let jd2: i64 = if next {
                jd + 1
            } else {
                jd
            };
            proof {
                let sum = self.time.nanos_of_day() + secs * 1_000_000_000;
                let carry: int = if next {
                    1
                } else {
                    0
                };
                if next {
                    vstd::arithmetic::div_mod::lemma_fundamental_div_mod_converse(
                        sum,
                        npd as int,
                        1,
                        sum - npd,
                    );
                } else {
                    vstd::arithmetic::div_mod::lemma_fundamental_div_mod_converse(
                        sum,
                        npd as int,
                        0,
                        sum,
                    );
                }
            }
            let date2 = Date::from_julian_day_unchecked(jd2 as i32);
            let r = PrimitiveDateTime { date: date2, time: t2 };
            proof {
                let carry: int = if next {
                    1
                } else {
                    0
                };
                assert(r.epoch_nanos() == self.epoch_nanos() + secs * 1_000_000_000)
                    by (nonlinear_arith)
                    requires
                        r.epoch_nanos() == (r.date.julian() - UNIX_EPOCH_JULIAN_DAY) * (
                        NANOS_PER_DAY as int) + r.time.nanos_of_day() && self.epoch_nanos() == (
                        self.date.julian() - UNIX_EPOCH_JULIAN_DAY) * (NANOS_PER_DAY as int)
                            + self.time.nanos_of_day() && r.date.julian() == self.date.julian()
                            + carry && r.time.nanos_of_day() == self.time.nanos_of_day() + secs
                            * 1_000_000_000 - (NANOS_PER_DAY as int) * carry,
                ;
            }
            r
        } else {
            let mag: u64 = (-secs) as u64;
            proof {
                vstd::arithmetic::div_mod::lemma_small_mod((-secs) as nat, 86_400);
            }
            let (prev, t2) = self.time.adjusting_sub_std(mag, 0);
            let jd2: i64 = if prev {
                jd - 1
            } else {
                jd
            };
            proof {
                let sum = self.time.nanos_of_day() + secs * 1_000_000_000;
                if prev {
                    vstd::arithmetic::div_mod::lemma_fundamental_div_mod_converse(
                        sum,
                        npd as int,
                        -1,
                        sum + npd,
                    );
                } else {
                    vstd::arithmetic::div_mod::lemma_fundamental_div_mod_converse(
                        sum,
                        npd as int,
                        0,
                        sum,
                    );
                }
            }
            let date2 = Date::from_julian_day_unchecked(jd2 as i32);
            let r = PrimitiveDateTime { date: date2, time: t2 };
            proof {
                let carry: int = if prev {
                    -1
                } else {
                    0
                };
                assert(r.epoch_nanos() == self.epoch_nanos() + secs * 1_000_000_000)
                    by (nonlinear_arith)
                    requires
                        r.epoch_nanos() == (r.date.julian() - UNIX_EPOCH_JULIAN_DAY) * (
                        NANOS_PER_DAY as int) + r.time.nanos_of_day() && self.epoch_nanos() == (
                        self.date.julian() - UNIX_EPOCH_JULIAN_DAY) * (NANOS_PER_DAY as int)
                            + self.time.nanos_of_day() && r.date.julian() == self.date.julian()
                            + carry && r.time.nanos_of_day() == self.time.nanos_of_day() + secs
                            * 1_000_000_000 - (NANOS_PER_DAY as int) * carry,
                ;
            }
            r
        }
    }

    /// Attaches the given offset to this datetime, reinterpreting it as a
    /// local reading in that offset; the stored UTC instant is shifted
    /// back by the offset.
    pub fn assume_offset(self, offset: crate::utc_offset::UtcOffset) -> (r:
        crate::offset_date_time::OffsetDateTime)
        requires
            self.wf(),
            offset.wf(),
            MIN_JULIAN_DAY - 1 <= self.date.julian() <= MAX_JULIAN_DAY + 1,
            MIN_JULIAN_DAY <= UNIX_EPOCH_JULIAN_DAY + (self.epoch_nanos() - offset.total_seconds()
                * 1_000_000_000) / (NANOS_PER_DAY as int) <= MAX_JULIAN_DAY,
        ensures
            r.wf(),
            r.offset == offset,
            r.epoch_nanos() == self.epoch_nanos() - offset.total_seconds() * 1_000_000_000,
    {
        let off: i32 = offset.whole_seconds();
        let utc = self.shift_whole_seconds(-off);
        proof {
            lemma_julian_from_epoch(utc);
            crate::date::lemma_in_bounds_from_julian(utc.date);
        }
        crate::offset_date_time::OffsetDateTime { utc_datetime: utc, offset }
    }

    /// Attaches the UTC offset to this datetime, treating it as already
    /// being in UTC.
    pub fn assume_utc(self) -> (r: crate::offset_date_time::OffsetDateTime)
        requires
            self.wf(),
            self.date.in_bounds(),
        ensures
            r.wf(),
            r.offset == (crate::utc_offset::UtcOffset { hours: 0, minutes: 0, seconds: 0 }),
            r.utc_datetime == self,
    {
        crate::offset_date_time::OffsetDateTime {
            utc_datetime: self,
            offset: crate::utc_offset::UtcOffset::utc(),
        }
    }

    /// Reads this datetime as UTC and produces the local reading in the
    /// given offset.
    pub fn utc_to_offset(self, offset: crate::utc_offset::UtcOffset) -> (r: Self)
        requires
            self.wf(),
            self.date.in_bounds(),
            offset.wf(),
        ensures
            r.wf(),
            r.epoch_nanos() == self.epoch_nanos() + offset.total_seconds() * 1_000_000_000,
            MIN_JULIAN_DAY - 1 <= r.date.julian() <= MAX_JULIAN_DAY + 1,
    {
        proof {
            assert(crate::date::year_start_jd(-9_999) == MIN_JULIAN_DAY);
            assert(crate::date::year_start_jd(10_000) == MAX_JULIAN_DAY + 1);
        }
        let off: i32 = offset.whole_seconds();
        self.shift_whole_seconds(off)
    }

    /// The signed span between two datetimes: `self` minus `rhs`.
    pub fn sub_datetime(self, rhs: Self) -> (r: Duration)
        requires
            self.wf(),
            rhs.wf(),
        ensures
            r.wf(),
            r.total_nanos() == self.epoch_nanos() - rhs.epoch_nanos(),
    {
        let jd1: i64 = self.date.to_julian_day() as i64;
        let jd2: i64 = rhs.date.to_julian_day() as i64;
        let day_secs1: i64 = self.time.hour as i64 * 3600 + self.time.minute as i64 * 60
            + self.time.second as i64;
        let day_secs2: i64 = rhs.time.hour as i64 * 3600 + rhs.time.minute as i64 * 60
            + rhs.time.second as i64;
        let mut secs: i64 = (jd1 - jd2) * 86_400 + (day_secs1 - day_secs2);
        let mut nanos: i64 = self.time.nanosecond as i64 - rhs.time.nanosecond as i64;
        if secs > 0 && nanos < 0 {
            secs = secs - 1;
            nanos = nanos + 1_000_000_000;
        } else if secs < 0 && nanos > 0 {
            secs = secs + 1;
            nanos = nanos - 1_000_000_000;
        }
        let r = Duration { seconds: secs, nanoseconds: nanos as i32 };
        proof {
            assert(r.total_nanos() == self.epoch_nanos() - rhs.epoch_nanos()) by (nonlinear_arith)
                requires
                    r.total_nanos() == r.seconds * 1_000_000_000 + r.nanoseconds && r.seconds
                        * 1_000_000_000 + r.nanoseconds == ((jd1 - jd2) * 86_400 + (day_secs1
                        - day_secs2)) * 1_000_000_000 + (self.time.nanosecond
                        - rhs.time.nanosecond) && self.epoch_nanos() == (jd1
                        - UNIX_EPOCH_JULIAN_DAY) * (NANOS_PER_DAY as int) + (day_secs1
                        * 1_000_000_000 + self.time.nanosecond) && rhs.epoch_nanos() == (jd2
                        - UNIX_EPOCH_JULIAN_DAY) * (NANOS_PER_DAY as int) + (day_secs2
                        * 1_000_000_000 + rhs.time.nanosecond) && NANOS_PER_DAY == 86_400
                        * 1_000_000_000,
            ;
        }
        r
    }
}

impl Date {
    /// Midnight on this date.
    pub fn midnight(self) -> (r: PrimitiveDateTime)
        ensures
            r == (PrimitiveDateTime {
                date: self,
                time: Time { hour: 0, minute: 0, second: 0, nanosecond: 0 },
            }),
    {
        PrimitiveDateTime { date: self, time: Time::midnight() }
    }

    /// This date at the given time of day.
    pub fn with_time(self, time: Time) -> (r: PrimitiveDateTime)
        ensures
            r == (PrimitiveDateTime { date: self, time }),
    {
        PrimitiveDateTime { date: self, time }
    }
}

/// How two datetimes order: by date first, then time of day.
pub open spec fn datetime_order(a: PrimitiveDateTime, b: PrimitiveDateTime) -> core::cmp::Ordering {
    match crate::date::date_order(a.date, b.date) {
        core::cmp::Ordering::Equal => crate::time::time_order(a.time, b.time),
        other => other,
    }
}

impl PartialOrd for PrimitiveDateTime {
    /// Datetimes order structurally: date first, then time.
    fn partial_cmp(&self, other: &Self) -> (r: Option<core::cmp::Ordering>) {
        match self.date.partial_cmp(&other.date) {
            Some(core::cmp::Ordering::Equal) => self.time.partial_cmp(&other.time),
            other_order => other_order,
        }
    }
}

impl vstd::std_specs::cmp::PartialOrdSpecImpl for PrimitiveDateTime {
    open spec fn obeys_partial_cmp_spec() -> bool {
        true
    }

    open spec fn partial_cmp_spec(&self, other: &Self) -> Option<core::cmp::Ordering> {
        Some(datetime_order(*self, *other))
    }
}

/// The structural ordering of datetimes agrees with the ordering of their
/// nanosecond counts since the epoch.
pub proof fn lemma_datetime_order_matches_epoch(a: PrimitiveDateTime, b: PrimitiveDateTime)
    requires
        a.wf(),
        b.wf(),
    ensures
        datetime_order(a, b) == core::cmp::Ordering::Less <==> a.epoch_nanos() < b.epoch_nanos(),
        datetime_order(a, b) == core::cmp::Ordering::Equal <==> a.epoch_nanos() == b.epoch_nanos(),
        datetime_order(a, b) == core::cmp::Ordering::Greater <==> a.epoch_nanos() > b.epoch_nanos(),
{
    crate::date::lemma_date_order_matches_julian(a.date, b.date);
    crate::time::lemma_time_order_matches_nanos(a.time, b.time);
    let npd = NANOS_PER_DAY as int;
    if a.date.julian() < b.date.julian() {
        assert(a.epoch_nanos() < b.epoch_nanos()) by (nonlinear_arith)
            requires
                a.epoch_nanos() == (a.date.julian() - UNIX_EPOCH_JULIAN_DAY) * npd
                    + a.time.nanos_of_day() && b.epoch_nanos() == (b.date.julian()
                    - UNIX_EPOCH_JULIAN_DAY) * npd + b.time.nanos_of_day() && a.date.julian()
                    < b.date.julian() && 0 <= a.time.nanos_of_day() < npd && 0
                    <= b.time.nanos_of_day() < npd,
        ;
    }
    if b.date.julian() < a.date.julian() {
        assert(b.epoch_nanos() < a.epoch_nanos()) by (nonlinear_arith)
            requires
                a.epoch_nanos() == (a.date.julian() - UNIX_EPOCH_JULIAN_DAY) * npd
                    + a.time.nanos_of_day() && b.epoch_nanos() == (b.date.julian()
                    - UNIX_EPOCH_JULIAN_DAY) * npd + b.time.nanos_of_day() && b.date.julian()
                    < a.date.julian() && 0 <= a.time.nanos_of_day() < npd && 0
                    <= b.time.nanos_of_day() < npd,
        ;
    }
}

/// A well-formed datetime's Julian day is recovered from its epoch
/// nanosecond count by floor division.
pub proof fn lemma_julian_from_epoch(p: PrimitiveDateTime)
    requires
        p.wf(),
    ensures
        p.date.julian() == UNIX_EPOCH_JULIAN_DAY + p.epoch_nanos() / (NANOS_PER_DAY as int),
{
    vstd::arithmetic::div_mod::lemma_fundamental_div_mod_converse(
        p.epoch_nanos(),
        NANOS_PER_DAY as int,
        p.date.julian() - UNIX_EPOCH_JULIAN_DAY,
        p.time.nanos_of_day(),
    );
}

/// A duration splits into its whole days plus its sub-day part.
proof fn lemma_shift_decomposition(d: Duration)
    requires
        d.wf(),
    ensures
        d.total_nanos() == (NANOS_PER_DAY as int) * crate::util::trunc_div_spec(
            d.seconds as int,
            86_400,
        ) + subday_nanos(d),
{
    let q = crate::util::trunc_div_spec(d.seconds as int, 86_400);
    let rem = crate::util::trunc_rem_spec(d.seconds as int, 86_400);
    crate::util::lemma_trunc_decompose(d.seconds as int, 86_400);
    assert(d.total_nanos() == (NANOS_PER_DAY as int) * q + subday_nanos(d)) by (nonlinear_arith)
        requires
            d.total_nanos() == d.seconds * 1_000_000_000 + d.nanoseconds && q * 86_400 + rem
                == d.seconds && subday_nanos(d) == rem * 1_000_000_000 + d.nanoseconds
                && NANOS_PER_DAY == 86_400 * 1_000_000_000,
    ;
}

} // verus!
