//! The clock time within a given date, with nanosecond precision.
//!
//! All minutes have exactly 60 seconds; leap seconds are not modelled.
//! Comparisons between two `Time`s assume they fall on the same calendar
//! day.

use vstd::prelude::*;
use vstd::string::StringSliceAdditionalSpecFns;

use crate::duration::Duration;
use crate::error::ComponentRange;
use crate::util::{trunc_rem_i64, trunc_rem_spec, DateAdjustment};

verus! {

/// The number of nanoseconds in one day.
pub const NANOS_PER_DAY: i64 = 86_400_000_000_000;

/// The clock time within a given date. Nanosecond precision.
#[derive(Clone, Copy, Debug, PartialEq, Eq, Hash, Structural)]
pub struct Time {
    /// Hour of the day, `0..24`.
    pub hour: u8,
    /// Minute of the hour, `0..60`.
    pub minute: u8,
    /// Second of the minute, `0..60`.
    pub second: u8,
    /// Nanosecond of the second, `0..1_000_000_000`.
    pub nanosecond: u32,
}

/// Whether `e` is the range error for component `name` with the given
/// bounds and offending value, with an unconditional range.
pub open spec fn is_range_err(
    e: ComponentRange,
    name: Seq<char>,
    minimum: i64,
    maximum: i64,
    value: i64,
) -> bool {
    &&& e.name@ == name
    &&& e.minimum == minimum
    &&& e.maximum == maximum
    &&& e.value == value
    &&& e.conditional_range == false
}

/// The numeric day carry a [`DateAdjustment`] stands for.
pub open spec fn adjustment_days(a: DateAdjustment) -> int {
    match a {
        DateAdjustment::Previous => -1,
        DateAdjustment::Same => 0,
        DateAdjustment::Next => 1,
    }
}

/// The sub-day part of a duration, in nanoseconds: what remains after
/// discarding the duration's whole days (rounded towards zero).
pub open spec fn subday_nanos(d: Duration) -> int {
    trunc_rem_spec(d.seconds as int, 86_400) * 1_000_000_000 + d.nanoseconds
}

impl Time {
    /// Well-formedness: every field lies within its clock range.
    pub open spec fn wf(self) -> bool {
        &&& self.hour < 24
        &&& self.minute < 60
        &&& self.second < 60
        &&& self.nanosecond < 1_000_000_000
    }

    /// The time as a count of nanoseconds since midnight.
    pub open spec fn nanos_of_day(self) -> int {
        ((self.hour * 3600 + self.minute * 60 + self.second) as int) * 1_000_000_000
            + self.nanosecond
    }

    /// Midnight.
    pub fn midnight() -> (r: Self)
        ensures
            r == (Time { hour: 0, minute: 0, second: 0, nanosecond: 0 }),
    {
        Time { hour: 0, minute: 0, second: 0, nanosecond: 0 }
    }

    /// Creates a `Time` from components already known to be in range.
    ///
    /// Callers must have established that every component lies within its
    /// clock range; this constructor performs no validation.
    pub fn __from_hms_nanos_unchecked(hour: u8, minute: u8, second: u8, nanosecond: u32) -> (r:
        Self)
        requires
            hour < 24,
            minute < 60,
            second < 60,
            nanosecond < 1_000_000_000,
        ensures
            r == (Time { hour, minute, second, nanosecond }),
    {
        Time { hour, minute, second, nanosecond }
    }

    /// Attempts to create a `Time` from the hour, minute, and second,
    /// rejecting the first component that is out of range.
    pub fn from_hms(hour: u8, minute: u8, second: u8) -> (r: Result<Self, ComponentRange>)
        ensures
            r is Ok <==> hour <= 23 && minute <= 59 && second <= 59,
            r matches Ok(t) ==> t == (Time { hour, minute, second, nanosecond: 0 }),
            hour > 23 ==> (r matches Err(e) && is_range_err(e, "hour"@, 0, 23, hour as i64)),
            hour <= 23 && minute > 59 ==> (r matches Err(e) && is_range_err(
                e,
                "minute"@,
                0,
                59,
                minute as i64,
            )),
            hour <= 23 && minute <= 59 && second > 59 ==> (r matches Err(e) && is_range_err(
                e,
                "second"@,
                0,
                59,
                second as i64,
            )),
    {
        if hour > 23 {
            return Err(
                ComponentRange {
                    name: "hour",
                    minimum: 0,
                    maximum: 23,
                    value: hour as i64,
                    conditional_range: false,
                },
            );
        }
        if minute > 59 {
            return Err(
                ComponentRange {
                    name: "minute",
                    minimum: 0,
                    maximum: 59,
                    value: minute as i64,
                    conditional_range: false,
                },
            );
        }
        if second > 59 {
            return Err(
                ComponentRange {
                    name: "second",
                    minimum: 0,
                    maximum: 59,
                    value: second as i64,
                    conditional_range: false,
                },
            );
        }
        Ok(Time { hour, minute, second, nanosecond: 0 })
    }

    /// Attempts to create a `Time` from the hour, minute, second, and
    /// millisecond, rejecting the first component that is out of range.
    pub fn from_hms_milli(hour: u8, minute: u8, second: u8, millisecond: u16) -> (r: Result<
        Self,
        ComponentRange,
    >)
        ensures
            r is Ok <==> hour <= 23 && minute <= 59 && second <= 59 && millisecond <= 999,
            r matches Ok(t) ==> t == (Time {
                hour,
                minute,
                second,
                nanosecond: (millisecond * 1_000_000) as u32,
            }),
            hour > 23 ==> (r matches Err(e) && is_range_err(e, "hour"@, 0, 23, hour as i64)),
            hour <= 23 && minute > 59 ==> (r matches Err(e) && is_range_err(
                e,
                "minute"@,
                0,
                59,
                minute as i64,
            )),
            hour <= 23 && minute <= 59 && second > 59 ==> (r matches Err(e) && is_range_err(
                e,
                "second"@,
                0,
                59,
                second as i64,
            )),
            hour <= 23 && minute <= 59 && second <= 59 && millisecond > 999 ==> (r matches Err(e)
                && is_range_err(e, "millisecond"@, 0, 999, millisecond as i64)),
    {
        match Self::from_hms(hour, minute, second) {
            Err(e) => Err(e),
            Ok(_) => {
                if millisecond > 999 {
                    Err(
                        ComponentRange {
                            name: "millisecond",
                            minimum: 0,
                            maximum: 999,
                            value: millisecond as i64,
                            conditional_range: false,
                        },
                    )
                } else {
                    Ok(
                        Time {
                            hour,
                            minute,
                            second,
                            nanosecond: millisecond as u32 * 1_000_000,
                        },
                    )
                }
            },
        }
    }

    /// Attempts to create a `Time` from the hour, minute, second, and
    /// microsecond, rejecting the first component that is out of range.
    pub fn from_hms_micro(hour: u8, minute: u8, second: u8, microsecond: u32) -> (r: Result<
        Self,
        ComponentRange,
    >)
        ensures
            r is Ok <==> hour <= 23 && minute <= 59 && second <= 59 && microsecond <= 999_999,
            r matches Ok(t) ==> t == (Time {
                hour,
                minute,
                second,
                nanosecond: (microsecond * 1_000) as u32,
            }),
            hour > 23 ==> (r matches Err(e) && is_range_err(e, "hour"@, 0, 23, hour as i64)),
            hour <= 23 && minute > 59 ==> (r matches Err(e) && is_range_err(
                e,
                "minute"@,
                0,
                59,
                minute as i64,
            )),
            hour <= 23 && minute <= 59 && second > 59 ==> (r matches Err(e) && is_range_err(
                e,
                "second"@,
                0,
                59,
                second as i64,
            )),
            hour <= 23 && minute <= 59 && second <= 59 && microsecond > 999_999 ==> (r matches Err(
                e,
            ) && is_range_err(e, "microsecond"@, 0, 999_999, microsecond as i64)),
    {
        match Self::from_hms(hour, minute, second) {
            Err(e) => Err(e),
            Ok(_) => {
                if microsecond > 999_999 {
                    Err(
                        ComponentRange {
                            name: "microsecond",
                            minimum: 0,
                            maximum: 999_999,
                            value: microsecond as i64,
                            conditional_range: false,
                        },
                    )
                } else {
                    Ok(Time { hour, minute, second, nanosecond: microsecond * 1_000 })
                }
            },
        }
    }

    /// Attempts to create a `Time` from the hour, minute, second, and
    /// nanosecond, rejecting the first component that is out of range.
    pub fn from_hms_nano(hour: u8, minute: u8, second: u8, nanosecond: u32) -> (r: Result<
        Self,
        ComponentRange,
    >)
        ensures
            r is Ok <==> hour <= 23 && minute <= 59 && second <= 59 && nanosecond <= 999_999_999,
            r matches Ok(t) ==> t == (Time { hour, minute, second, nanosecond }),
            hour > 23 ==> (r matches Err(e) && is_range_err(e, "hour"@, 0, 23, hour as i64)),
            hour <= 23 && minute > 59 ==> (r matches Err(e) && is_range_err(
                e,
                "minute"@,
                0,
                59,
                minute as i64,
            )),
            hour <= 23 && minute <= 59 && second > 59 ==> (r matches Err(e) && is_range_err(
                e,
                "second"@,
                0,
                59,
                second as i64,
            )),
            hour <= 23 && minute <= 59 && second <= 59 && nanosecond > 999_999_999 ==> (r matches Err(
                e,
            ) && is_range_err(e, "nanosecond"@, 0, 999_999_999, nanosecond as i64)),
    {
        match Self::from_hms(hour, minute, second) {
            Err(e) => Err(e),
            Ok(_) => {
                if nanosecond > 999_999_999 {
                    Err(
                        ComponentRange {
                            name: "nanosecond",
                            minimum: 0,
                            maximum: 999_999_999,
                            value: nanosecond as i64,
                            conditional_range: false,
                        },
                    )
                } else {
                    Ok(Time { hour, minute, second, nanosecond })
                }
            },
        }
    }

    /// The clock hour, minute, and second.
    pub fn as_hms(self) -> (r: (u8, u8, u8))
        ensures
            r == (self.hour, self.minute, self.second),
    {
        (self.hour, self.minute, self.second)
    }

    /// The clock hour, minute, second, and millisecond.
    pub fn as_hms_milli(self) -> (r: (u8, u8, u8, u16))
        requires
            self.wf(),
        ensures
            r == (self.hour, self.minute, self.second, (self.nanosecond / 1_000_000) as u16),
    {
        (self.hour, self.minute, self.second, (self.nanosecond / 1_000_000) as u16)
    }

    /// The clock hour, minute, second, and microsecond.
    pub fn as_hms_micro(self) -> (r: (u8, u8, u8, u32))
        ensures
            r == (self.hour, self.minute, self.second, self.nanosecond / 1_000),
    {
        (self.hour, self.minute, self.second, self.nanosecond / 1_000)
    }

    /// The clock hour, minute, second, and nanosecond.
    pub fn as_hms_nano(self) -> (r: (u8, u8, u8, u32))
        ensures
            r == (self.hour, self.minute, self.second, self.nanosecond),
    {
        (self.hour, self.minute, self.second, self.nanosecond)
    }

    /// The clock hour, in `0..24`.
    pub fn hour(self) -> (r: u8)
        ensures
            r == self.hour,
    {
        self.hour
    }

    /// The minute within the hour, in `0..60`.
    pub fn minute(self) -> (r: u8)
        ensures
            r == self.minute,
    {
        self.minute
    }

    /// The second within the minute, in `0..60`.
    pub fn second(self) -> (r: u8)
        ensures
            r == self.second,
    {
        self.second
    }

    /// The milliseconds within the second, in `0..1_000`.
    pub fn millisecond(self) -> (r: u16)
        requires
            self.wf(),
        ensures
            r == self.nanosecond / 1_000_000,
    {
        (self.nanosecond / 1_000_000) as u16
    }

    /// The microseconds within the second, in `0..1_000_000`.
    pub fn microsecond(self) -> (r: u32)
        ensures
            r == self.nanosecond / 1_000,
    {
        self.nanosecond / 1_000
    }

    /// The nanoseconds within the second, in `0..1_000_000_000`.
    pub fn nanosecond(self) -> (r: u32)
        ensures
            r == self.nanosecond,
    {
        self.nanosecond
    }

    /// Adds the sub-day part of `duration` to the time, wrapping around
    /// midnight; the first element of the result says whether the wrap
    /// crossed into the previous or the next day.
    pub fn adjusting_add(self, duration: Duration) -> (r: (DateAdjustment, Time))
        requires
            self.wf(),
            duration.wf(),
        ensures
            r.1.wf(),
            r.1.nanos_of_day() == (self.nanos_of_day() + subday_nanos(duration)) % (
            NANOS_PER_DAY as int),
            adjustment_days(r.0) == (self.nanos_of_day() + subday_nanos(duration)) / (
            NANOS_PER_DAY as int),
            r.1.nanosecond == (self.nanosecond + duration.nanoseconds) % 1_000_000_000,
    {
        let sub_secs: i64 = trunc_rem_i64(duration.seconds, 86_400);
        let mut nanos: i64 = self.nanosecond as i64 + duration.nanoseconds as i64;
        let mut carry: i64 = 0;
        if nanos < 0 {
            nanos = nanos + 1_000_000_000;
            carry = -1;
        } else if nanos >= 1_000_000_000 {
            nanos = nanos - 1_000_000_000;
            carry = 1;
        }
        let day_secs: i64 = self.hour as i64 * 3600 + self.minute as i64 * 60 + self.second as i64;
        let total: i64 = day_secs + sub_secs + carry;
        let adj: DateAdjustment;
        let tsecs: i64;
        if total < 0 {
            adj = DateAdjustment::Previous;
            tsecs = total + 86_400;
        } else if total >= 86_400 {
            adj = DateAdjustment::Next;
            tsecs = total - 86_400;
        } else {
            adj = DateAdjustment::Same;
            tsecs = total;
        }
        let t: u32 = tsecs as u32;
        let hour: u8 = (t / 3600) as u8;
        let minute: u8 = ((t % 3600) / 60) as u8;
        let second: u8 = (t % 60) as u8;
        proof {
            lemma_day_secs_decompose(t as int);
            let sum = self.nanos_of_day() + subday_nanos(duration);
            assert(sum == (adjustment_days(adj) * 86_400 + tsecs) * 1_000_000_000 + nanos);
            vstd::arithmetic::div_mod::lemma_fundamental_div_mod_converse(
                sum,
                NANOS_PER_DAY as int,
                adjustment_days(adj),
                tsecs * 1_000_000_000 + nanos,
            );
            vstd::arithmetic::div_mod::lemma_fundamental_div_mod_converse(
                self.nanosecond + duration.nanoseconds,
                1_000_000_000,
                carry as int,
                nanos as int,
            );
        }
        (adj, Time { hour, minute, second, nanosecond: nanos as u32 })
    }

    /// Adds an unsigned span given as whole seconds plus sub-second
    /// nanoseconds, wrapping around midnight; the first element of the
    /// result says whether the wrap crossed into the next day.
    pub fn adjusting_add_std(self, seconds: u64, subsec_nanos: u32) -> (r: (bool, Time))
        requires
            self.wf(),
            subsec_nanos < 1_000_000_000,
        ensures
            r.1.wf(),
            r.1.nanos_of_day() == (self.nanos_of_day() + (seconds as int % 86_400) * 1_000_000_000
                + subsec_nanos) % (NANOS_PER_DAY as int),
            r.0 == ((self.nanos_of_day() + (seconds as int % 86_400) * 1_000_000_000
                + subsec_nanos) >= NANOS_PER_DAY),
    {
        let sub_secs: i64 = (seconds % 86_400) as i64;
        let mut nanos: i64 = self.nanosecond as i64 + subsec_nanos as i64;
        let mut carry: i64 = 0;
        if nanos >= 1_000_000_000 {
            nanos = nanos - 1_000_000_000;
            carry = 1;
        }
        let day_secs: i64 = self.hour as i64 * 3600 + self.minute as i64 * 60 + self.second as i64;
        let total: i64 = day_secs + sub_secs + carry;
        let is_next_day: bool;
        let tsecs: i64;
        if total >= 86_400 {
            is_next_day = true;
            tsecs = total - 86_400;
        } else {
            is_next_day = false;
            tsecs = total;
        }
        let t: u32 = tsecs as u32;
        let hour: u8 = (t / 3600) as u8;
        let minute: u8 = ((t % 3600) / 60) as u8;
        let second: u8 = (t % 60) as u8;
        proof {
            lemma_day_secs_decompose(t as int);
            let sum = self.nanos_of_day() + (seconds as int % 86_400) * 1_000_000_000
                + subsec_nanos;
            let adj: int = if is_next_day {
                1
            } else {
                0
            };
            assert(sum == (adj * 86_400 + tsecs) * 1_000_000_000 + nanos);
            vstd::arithmetic::div_mod::lemma_fundamental_div_mod_converse(
                sum,
                NANOS_PER_DAY as int,
                adj,
                tsecs * 1_000_000_000 + nanos,
            );
        }
        (is_next_day, Time { hour, minute, second, nanosecond: nanos as u32 })
    }

    /// Subtracts an unsigned span given as whole seconds plus sub-second
    /// nanoseconds, wrapping around midnight; the first element of the
    /// result says whether the wrap crossed into the previous day.
    pub fn adjusting_sub_std(self, seconds: u64, subsec_nanos: u32) -> (r: (bool, Time))
        requires
            self.wf(),
            subsec_nanos < 1_000_000_000,
        ensures
            r.1.wf(),
            r.1.nanos_of_day() == (self.nanos_of_day() - ((seconds as int % 86_400) * 1_000_000_000
                + subsec_nanos)) % (NANOS_PER_DAY as int),
            r.0 == ((self.nanos_of_day() - ((seconds as int % 86_400) * 1_000_000_000
                + subsec_nanos)) < 0),
    {
        let sub_secs: i64 = (seconds % 86_400) as i64;
        let mut nanos: i64 = self.nanosecond as i64 - subsec_nanos as i64;
        let mut carry: i64 = 0;
        if nanos < 0 {
            nanos = nanos + 1_000_000_000;
            carry = -1;
        }
        let day_secs: i64 = self.hour as i64 * 3600 + self.minute as i64 * 60 + self.second as i64;
        let total: i64 = day_secs - sub_secs + carry;
        let is_previous_day: bool;
        let tsecs: i64;
        if total < 0 {
            is_previous_day = true;
            tsecs = total + 86_400;
        } else {
            is_previous_day = false;
            tsecs = total;
        }
        let t: u32 = tsecs as u32;
        let hour: u8 = (t / 3600) as u8;
        let minute: u8 = ((t % 3600) / 60) as u8;
        let second: u8 = (t % 60) as u8;
        proof {
            lemma_day_secs_decompose(t as int);
            let sum = self.nanos_of_day() - ((seconds as int % 86_400) * 1_000_000_000
                + subsec_nanos);
            let adj: int = if is_previous_day {
                -1
            } else {
                0
            };
            assert(sum == (adj * 86_400 + tsecs) * 1_000_000_000 + nanos);
            vstd::arithmetic::div_mod::lemma_fundamental_div_mod_converse(
                sum,
                NANOS_PER_DAY as int,
                adj,
                tsecs * 1_000_000_000 + nanos,
            );
        }
        (is_previous_day, Time { hour, minute, second, nanosecond: nanos as u32 })
    }

    /// Adds the sub-day part of `duration`, wrapping around midnight and
    /// discarding the day-adjustment signal.
    pub fn add_duration(self, duration: Duration) -> (r: Time)
        requires
            self.wf(),
            duration.wf(),
        ensures
            r.wf(),
            r.nanos_of_day() == (self.nanos_of_day() + duration.total_nanos()) % (
            NANOS_PER_DAY as int),
    {
        proof {
            lemma_subday_congruent(duration);
            vstd::arithmetic::div_mod::lemma_add_mod_noop(
                self.nanos_of_day(),
                subday_nanos(duration),
                NANOS_PER_DAY as int,
            );
            vstd::arithmetic::div_mod::lemma_add_mod_noop(
                self.nanos_of_day(),
                duration.total_nanos(),
                NANOS_PER_DAY as int,
            );
            vstd::arithmetic::div_mod::lemma_small_mod(
                self.nanos_of_day() as nat,
                NANOS_PER_DAY as nat,
            );
        }
        self.adjusting_add(duration).1
    }

    /// Subtracts the sub-day part of `duration`, wrapping around midnight
    /// and discarding the day-adjustment signal.
    pub fn sub_duration(self, duration: Duration) -> (r: Time)
        requires
            self.wf(),
            duration.wf(),
            duration.seconds > i64::MIN,
        ensures
            r.wf(),
            r.nanos_of_day() == (self.nanos_of_day() - duration.total_nanos()) % (
            NANOS_PER_DAY as int),
    {
        self.add_duration(duration.negated())
    }

    /// The signed span between two times assumed to fall on the same
    /// calendar day: `self` minus `rhs`.
    pub fn sub_time(self, rhs: Time) -> (r: Duration)
        requires
            self.wf(),
            rhs.wf(),
        ensures
            r.wf(),
            r.total_nanos() == self.nanos_of_day() - rhs.nanos_of_day(),
    {
        let secs: i64 = (self.hour as i64 * 3600 + self.minute as i64 * 60 + self.second as i64) - (
        rhs.hour as i64 * 3600 + rhs.minute as i64 * 60 + rhs.second as i64);
        let nanos: i64 = self.nanosecond as i64 - rhs.nanosecond as i64;
        let mut out_secs: i64 = secs;
        let mut out_nanos: i64 = nanos;
        if out_secs > 0 && out_nanos < 0 {
            out_secs = out_secs - 1;
            out_nanos = out_nanos + 1_000_000_000;
        } else if out_secs < 0 && out_nanos > 0 {
            out_secs = out_secs + 1;
            out_nanos = out_nanos - 1_000_000_000;
        }
        Duration { seconds: out_secs, nanoseconds: out_nanos as i32 }
    }
}

impl Time {
    /// Renders the time against a compiled format description, appending
    /// the bytes to `output` and returning how many were written. Fails
    /// exactly when the description references a component a bare time
    /// cannot supply (a date or an offset).
    pub fn format_into(
        self,
        output: &mut Vec<u8>,
        format: &Vec<crate::format_description::FormatItem>,
    ) -> (r: Result<usize, crate::error::Format>)
        requires
            self.wf(),
            crate::format_description::items_wf(format@),
        ensures
            r is Ok <==> crate::formatting::render_items_spec(
                format@,
                None,
                Some(self),
                None,
            ) is Some,
            r matches Ok(count) ==> final(output)@ == old(output)@
                + crate::formatting::render_items_spec(format@, None, Some(self), None).unwrap()
                && count == crate::formatting::render_items_spec(
                format@,
                None,
                Some(self),
                None,
            ).unwrap().len(),
            r matches Err(e) ==> e == crate::error::Format::InsufficientTypeInformation,
    {
        crate::formatting::format_items_into(output, format, None, Some(self), None)
    }

    /// Renders the time against a compiled format description, returning
    /// the bytes. Fails exactly when the description references a
    /// component a bare time cannot supply.
    pub fn format(self, format: &Vec<crate::format_description::FormatItem>) -> (r: Result<
        Vec<u8>,
        crate::error::Format,
    >)
        requires
            self.wf(),
            crate::format_description::items_wf(format@),
        ensures
            r is Ok <==> crate::formatting::render_items_spec(
                format@,
                None,
                Some(self),
                None,
            ) is Some,
            r matches Ok(bytes) ==> bytes@ == crate::formatting::render_items_spec(
                format@,
                None,
                Some(self),
                None,
            ).unwrap(),
            r matches Err(e) ==> e == crate::error::Format::InsufficientTypeInformation,
    {
        let mut out: Vec<u8> = Vec::new();
        match crate::formatting::format_items_into(&mut out, format, None, Some(self), None) {
            Ok(_) => Ok(out),
            Err(e) => Err(e),
        }
    }

    /// The default human-readable rendering of the time: the bare hour,
    /// zero-padded minute and second, and as many subsecond digits as the
    /// value needs.
    pub fn display_bytes(self) -> (r: Vec<u8>)
        requires
            self.wf(),
        ensures
            r@ == crate::util::dec_digits(self.hour as int) + ":".spec_bytes()
                + crate::formatting::padded_digits(
                crate::format_description::Padding::Zero,
                2,
                self.minute as int,
            ) + ":".spec_bytes() + crate::formatting::padded_digits(
                crate::format_description::Padding::Zero,
                2,
                self.second as int,
            ) + ".".spec_bytes() + crate::formatting::subsec_render(
                crate::format_description::SubsecondDigits::OneOrMore,
                self.nanosecond as int,
            ),
    {
        let mut out: Vec<u8> = Vec::new();
        crate::formatting::push_component(
            &mut out,
            crate::format_description::Component::Hour {
                padding: crate::format_description::Padding::Plain,
                is_12_hour_clock: false,
            },
            self,
        );
        crate::util::push_str_bytes(&mut out, ":");
        crate::formatting::push_component(
            &mut out,
            crate::format_description::Component::Minute {
                padding: crate::format_description::Padding::Zero,
            },
            self,
        );
        crate::util::push_str_bytes(&mut out, ":");
        crate::formatting::push_component(
            &mut out,
            crate::format_description::Component::Second {
                padding: crate::format_description::Padding::Zero,
            },
            self,
        );
        crate::util::push_str_bytes(&mut out, ".");
        crate::formatting::push_component(
            &mut out,
            crate::format_description::Component::Subsecond {
                digits: crate::format_description::SubsecondDigits::OneOrMore,
            },
            self,
        );
        proof {
            assert(out@ =~= crate::util::dec_digits(self.hour as int) + ":".spec_bytes()
                + crate::formatting::padded_digits(
                crate::format_description::Padding::Zero,
                2,
                self.minute as int,
            ) + ":".spec_bytes() + crate::formatting::padded_digits(
                crate::format_description::Padding::Zero,
                2,
                self.second as int,
            ) + ".".spec_bytes() + crate::formatting::subsec_render(
                crate::format_description::SubsecondDigits::OneOrMore,
                self.nanosecond as int,
            ));
        }
        out
    }

    /// Parses a time of day from the input against a compiled format
    /// description: the tokens must consume the whole input, and the
    /// accumulated components must resolve into a valid time.
    pub fn parse(input: &str, description: &Vec<crate::format_description::FormatItem>) -> (r:
        Result<Time, crate::error::Parse>)
        requires
            crate::format_description::items_wf(description@),
        ensures
            ({
                let spec_r = crate::parsing::parse_items_spec(
                    description@,
                    input.spec_bytes(),
                    0,
                    crate::parsing::Parsed::empty_spec(),
                );
                &&& (r matches Ok(t) ==> (spec_r matches Some(p) && p.1
                    == input.spec_bytes().len() && crate::parsing::resolved_time(p.0) == Some(t)
                    && t.wf()))
                &&& (spec_r is None ==> r is Err)
                &&& (spec_r matches Some(p) ==> {
                    &&& (p.1 < input.spec_bytes().len() ==> r == Err::<Time, crate::error::Parse>(
                        crate::error::Parse::UnexpectedTrailingCharacters,
                    ))
                    &&& (p.1 == input.spec_bytes().len() ==> (
                    crate::parsing::resolved_time(p.0) matches Some(t) ==> r == Ok::<
                        Time,
                        crate::error::Parse,
                    >(t)))
                })
            }),
    {
        let b: &[u8] = input.as_bytes();
        match crate::parsing::run_parser(b, description) {
            Err(e) => Err(e),
            Ok((acc, i)) => {
                if i < b.len() {
                    Err(crate::error::Parse::UnexpectedTrailingCharacters)
                } else {
                    crate::parsing::resolve_time(acc)
                }
            },
        }
    }
}

impl PartialOrd for Time {
    /// Times order lexicographically by their fields, assuming both fall
    /// on the same calendar day.
    fn partial_cmp(&self, other: &Self) -> (r: Option<core::cmp::Ordering>) {
        if self.hour != other.hour {
            if self.hour < other.hour {
                Some(core::cmp::Ordering::Less)
            } else {
                Some(core::cmp::Ordering::Greater)
            }
        } else if self.minute != other.minute {
            if self.minute < other.minute {
                Some(core::cmp::Ordering::Less)
            } else {
                Some(core::cmp::Ordering::Greater)
            }
        } else if self.second != other.second {
            if self.second < other.second {
                Some(core::cmp::Ordering::Less)
            } else {
                Some(core::cmp::Ordering::Greater)
            }
        } else if self.nanosecond != other.nanosecond {
            if self.nanosecond < other.nanosecond {
                Some(core::cmp::Ordering::Less)
            } else {
                Some(core::cmp::Ordering::Greater)
            }
        } else {
            Some(core::cmp::Ordering::Equal)
        }
    }
}

impl vstd::std_specs::cmp::PartialOrdSpecImpl for Time {
    open spec fn obeys_partial_cmp_spec() -> bool {
        true
    }

    open spec fn partial_cmp_spec(&self, other: &Self) -> Option<core::cmp::Ordering> {
        Some(time_order(*self, *other))
    }
}

/// How two times order: lexicographically by hour, minute, second, and
/// nanosecond.
pub open spec fn time_order(a: Time, b: Time) -> core::cmp::Ordering {
    if a.hour != b.hour {
        if a.hour < b.hour {
            core::cmp::Ordering::Less
        } else {
            core::cmp::Ordering::Greater
        }
    } else if a.minute != b.minute {
        if a.minute < b.minute {
            core::cmp::Ordering::Less
        } else {
            core::cmp::Ordering::Greater
        }
    } else if a.second != b.second {
        if a.second < b.second {
            core::cmp::Ordering::Less
        } else {
            core::cmp::Ordering::Greater
        }
    } else if a.nanosecond != b.nanosecond {
        if a.nanosecond < b.nanosecond {
            core::cmp::Ordering::Less
        } else {
            core::cmp::Ordering::Greater
        }
    } else {
        core::cmp::Ordering::Equal
    }
}

/// The lexicographic ordering of times agrees with the ordering of their
/// nanosecond counts since midnight.
pub proof fn lemma_time_order_matches_nanos(a: Time, b: Time)
    requires
        a.wf(),
        b.wf(),
    ensures
        time_order(a, b) == core::cmp::Ordering::Less <==> a.nanos_of_day() < b.nanos_of_day(),
        time_order(a, b) == core::cmp::Ordering::Equal <==> a.nanos_of_day() == b.nanos_of_day(),
        time_order(a, b) == core::cmp::Ordering::Greater <==> a.nanos_of_day() > b.nanos_of_day(),
{
}

/// Splitting a day-second count into hour, minute, and second fields
/// recomposes exactly.
pub proof fn lemma_day_secs_decompose(t: int)
    requires
        0 <= t < 86_400,
    ensures
        (t / 3600) * 3600 + ((t % 3600) / 60) * 60 + (t % 60) == t,
        t / 3600 < 24,
        (t % 3600) / 60 < 60,
        t % 60 < 60,
        0 <= t / 3600,
        0 <= (t % 3600) / 60,
        0 <= t % 60,
{
    vstd::arithmetic::div_mod::lemma_fundamental_div_mod(t, 3600);
    vstd::arithmetic::div_mod::lemma_mod_division_less_than_divisor(t, 3600);
    let h = t / 3600;
    let r1 = t % 3600;
    vstd::arithmetic::div_mod::lemma_fundamental_div_mod(r1, 60);
    vstd::arithmetic::div_mod::lemma_mod_division_less_than_divisor(r1, 60);
    let m = r1 / 60;
    let s = r1 % 60;
    assert(t == 60 * (60 * h + m) + s) by (nonlinear_arith)
        requires
            t == 3600 * h + r1 && r1 == 60 * m + s,
    ;
    vstd::arithmetic::div_mod::lemma_fundamental_div_mod_converse(t, 60, 60 * h + m, s);
    assert(h >= 0 && h < 24) by (nonlinear_arith)
        requires
            t == 3600 * h + r1 && 0 <= r1 < 3600 && 0 <= t < 86_400,
    ;
    assert(m >= 0 && m < 60) by (nonlinear_arith)
        requires
            r1 == 60 * m + s && 0 <= s < 60 && 0 <= r1 < 3600,
    ;
    assert((t / 3600) * 3600 + ((t % 3600) / 60) * 60 + (t % 60) == t) by (nonlinear_arith)
        requires
            t == 3600 * h + r1 && r1 == 60 * m + s && h == t / 3600 && m == (t % 3600) / 60 && s == t
                % 60,
    ;
}

/// The fields of a well-formed time are recovered from its nanosecond
/// count by division and remainder.
pub proof fn lemma_time_fields_from_nanos(t: Time)
    requires
        t.wf(),
    ensures
        t.hour == t.nanos_of_day() / 3_600_000_000_000,
        t.minute == (t.nanos_of_day() / 60_000_000_000) % 60,
        t.second == (t.nanos_of_day() / 1_000_000_000) % 60,
        t.nanosecond == t.nanos_of_day() % 1_000_000_000,
{
    let n = t.nanos_of_day();
    let h = t.hour as int;
    let m = t.minute as int;
    let s = t.second as int;
    let ns = t.nanosecond as int;
    vstd::arithmetic::div_mod::lemma_fundamental_div_mod_converse(
        n,
        3_600_000_000_000,
        h,
        m * 60_000_000_000 + s * 1_000_000_000 + ns,
    );
    vstd::arithmetic::div_mod::lemma_fundamental_div_mod_converse(
        n,
        60_000_000_000,
        h * 60 + m,
        s * 1_000_000_000 + ns,
    );
    vstd::arithmetic::div_mod::lemma_fundamental_div_mod_converse(h * 60 + m, 60, h, m);
    vstd::arithmetic::div_mod::lemma_fundamental_div_mod_converse(
        n,
        1_000_000_000,
        h * 3600 + m * 60 + s,
        ns,
    );
    vstd::arithmetic::div_mod::lemma_fundamental_div_mod_converse(
        h * 3600 + m * 60 + s,
        60,
        h * 60 + m,
        s,
    );
}

/// The sub-day part of a duration is congruent to the whole duration,
/// modulo one day.
pub proof fn lemma_subday_congruent(d: Duration)
    requires
        d.wf(),
    ensures
        subday_nanos(d) % (NANOS_PER_DAY as int) == d.total_nanos() % (NANOS_PER_DAY as int),
{
    let q = crate::util::trunc_div_spec(d.seconds as int, 86_400);
    let rem = trunc_rem_spec(d.seconds as int, 86_400);
    crate::util::lemma_trunc_decompose(d.seconds as int, 86_400);
    assert(d.total_nanos() == (NANOS_PER_DAY as int) * q + subday_nanos(d)) by (nonlinear_arith)
        requires
            d.total_nanos() == d.seconds * 1_000_000_000 + d.nanoseconds && q * 86_400 + rem
                == d.seconds && subday_nanos(d) == rem * 1_000_000_000 + d.nanoseconds
                && NANOS_PER_DAY == 86_400 * 1_000_000_000,
    ;
    vstd::arithmetic::div_mod::lemma_mod_multiples_vanish(q, subday_nanos(d), NANOS_PER_DAY as int);
}

/// Adding a duration to a time and then subtracting the same duration
/// restores the original time, and the two day-adjustment signals cancel:
/// the forward step's whole-day carry is the exact negative of the
/// backward step's.
pub proof fn lemma_add_then_sub_restores(t: Time, d: Duration)
    requires
        t.wf(),
        d.wf(),
    ensures
        ((t.nanos_of_day() + d.total_nanos()) % (NANOS_PER_DAY as int) - d.total_nanos()) % (
        NANOS_PER_DAY as int) == t.nanos_of_day(),
        (t.nanos_of_day() + subday_nanos(d)) / (NANOS_PER_DAY as int) + ((t.nanos_of_day()
            + subday_nanos(d)) % (NANOS_PER_DAY as int) - subday_nanos(d)) / (NANOS_PER_DAY as int)
            == 0,
{
    let day = NANOS_PER_DAY as int;
    let n = t.nanos_of_day();
    let s = d.total_nanos();
    let sub = subday_nanos(d);
    vstd::arithmetic::div_mod::lemma_fundamental_div_mod(n + s, day);
    let q1 = (n + s) / day;
    assert((n + s) % day - s == day * (-q1) + n) by (nonlinear_arith)
        requires
            n + s == day * q1 + ((n + s) % day),
    ;
    vstd::arithmetic::div_mod::lemma_mod_multiples_vanish(-q1, n, day);
    vstd::arithmetic::div_mod::lemma_small_mod(n as nat, day as nat);
    vstd::arithmetic::div_mod::lemma_fundamental_div_mod(n + sub, day);
    let q2 = (n + sub) / day;
    assert((n + sub) % day - sub == day * (-q2) + n) by (nonlinear_arith)
        requires
            n + sub == day * q2 + ((n + sub) % day),
    ;
    vstd::arithmetic::div_mod::lemma_mod_division_less_than_divisor(n + sub, day);
    vstd::arithmetic::div_mod::lemma_div_multiples_vanish_fancy(-q2, n, day);
}

} // verus!
