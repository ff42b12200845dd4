//! A fixed, signed offset from UTC, with second resolution.

use vstd::prelude::*;

use crate::error::ComponentRange;
use crate::time::is_range_err;

verus! {

/// A fixed offset from UTC: hours, minutes, and seconds, all carrying the
/// same sign, with total magnitude below 24 hours.
#[derive(Clone, Copy, Debug, PartialEq, Eq, Hash, Structural)]
pub struct UtcOffset {
    /// Whole hours of the offset, `-23..=23`.
    pub hours: i8,
    /// Minutes past the hour, `-59..=59`; sign agrees with `hours`.
    pub minutes: i8,
    /// Seconds past the minute, `-59..=59`; sign agrees with `hours`.
    pub seconds: i8,
}

impl UtcOffset {
    /// Well-formedness: every component is in range and all non-zero
    /// components share one sign.
    pub open spec fn wf(self) -> bool {
        &&& -23 <= self.hours <= 23
        &&& -59 <= self.minutes <= 59
        &&& -59 <= self.seconds <= 59
        &&& (self.hours >= 0 && self.minutes >= 0 && self.seconds >= 0) || (self.hours <= 0
            && self.minutes <= 0 && self.seconds <= 0)
    }

    /// The whole offset measured in seconds.
    pub open spec fn total_seconds(self) -> int {
        self.hours * 3600 + self.minutes * 60 + self.seconds
    }

    /// The offset of UTC itself: zero.
    pub fn utc() -> (r: Self)
        ensures
            r == (UtcOffset { hours: 0, minutes: 0, seconds: 0 }),
    {
        UtcOffset { hours: 0, minutes: 0, seconds: 0 }
    }

    /// Whether the offset is UTC: all components zero.
    pub fn is_utc(self) -> (r: bool)
        ensures
            r == (self == (UtcOffset { hours: 0, minutes: 0, seconds: 0 })),
    {
        self.hours == 0 && self.minutes == 0 && self.seconds == 0
    }

    /// Attempts to create an offset from hours, minutes, and seconds,
    /// rejecting the first component that is out of range. Components of
    /// mixed sign are normalised so that the result's components share the
    /// sign of the offset's total.
    pub fn from_hms(hours: i8, minutes: i8, seconds: i8) -> (r: Result<Self, ComponentRange>)
        ensures
            r is Ok <==> -23 <= hours <= 23 && -59 <= minutes <= 59 && -59 <= seconds <= 59,
            r matches Ok(o) ==> o.wf() && o.total_seconds() == hours * 3600 + minutes * 60
                + seconds,
            !(-23 <= hours <= 23) ==> (r matches Err(e) && is_range_err(
                e,
                "hours"@,
                -23i64,
                23i64,
                hours as i64,
            )),
            -23 <= hours <= 23 && !(-59 <= minutes <= 59) ==> (r matches Err(e) && is_range_err(
                e,
                "minutes"@,
                -59i64,
                59i64,
                minutes as i64,
            )),
            -23 <= hours <= 23 && -59 <= minutes <= 59 && !(-59 <= seconds <= 59) ==> (r matches Err(
                e,
            ) && is_range_err(e, "seconds"@, -59i64, 59i64, seconds as i64)),
    {
        if hours < -23 || hours > 23 {
            return Err(
                ComponentRange {
                    name: "hours",
                    minimum: -23,
                    maximum: 23,
                    value: hours as i64,
                    conditional_range: false,
                },
            );
        }
        if minutes < -59 || minutes > 59 {
            return Err(
                ComponentRange {
                    name: "minutes",
                    minimum: -59,
                    maximum: 59,
                    value: minutes as i64,
                    conditional_range: false,
                },
            );
        }
        if seconds < -59 || seconds > 59 {
            return Err(
                ComponentRange {
                    name: "seconds",
                    minimum: -59,
                    maximum: 59,
                    value: seconds as i64,
                    conditional_range: false,
                },
            );
        }
        let total: i32 = hours as i32 * 3600 + minutes as i32 * 60 + seconds as i32;
        Ok(Self::split_total(total))
    }

    /// Attempts to create an offset from a whole number of seconds,
    /// rejecting magnitudes of a full day or more.
    pub fn from_whole_seconds(seconds: i32) -> (r: Result<Self, ComponentRange>)
        ensures
            r is Ok <==> -86_399 <= seconds <= 86_399,
            r matches Ok(o) ==> o.wf() && o.total_seconds() == seconds,
            !(-86_399 <= seconds <= 86_399) ==> (r matches Err(e) && is_range_err(
                e,
                "seconds"@,
                -86_399i64,
                86_399i64,
                seconds as i64,
            )),
    {
        if seconds < -86_399 || seconds > 86_399 {
            return Err(
                ComponentRange {
                    name: "seconds",
                    minimum: -86_399,
                    maximum: 86_399,
                    value: seconds as i64,
                    conditional_range: false,
                },
            );
        }
        Ok(Self::split_total(seconds))
    }

    /// Splits a second count of magnitude below one day into the canonical
    /// (hours, minutes, seconds) triple.
    fn split_total(total: i32) -> (r: Self)
        requires
            -86_399 <= total <= 86_399,
        ensures
            r.wf(),
            r.total_seconds() == total,
    {
        if total >= 0 {
            let t: u32 = total as u32;
            proof {
                crate::time::lemma_day_secs_decompose(t as int);
            }
            UtcOffset {
                hours: (t / 3600) as i8,
                minutes: ((t % 3600) / 60) as i8,
                seconds: (t % 60) as i8,
            }
        } else {
            let t: u32 = (-total) as u32;
            proof {
                crate::time::lemma_day_secs_decompose(t as int);
            }
            UtcOffset {
                hours: -((t / 3600) as i8),
                minutes: -(((t % 3600) / 60) as i8),
                seconds: -((t % 60) as i8),
            }
        }
    }

    /// The whole hours of the offset.
    pub fn whole_hours(self) -> (r: i8)
        ensures
            r == self.hours,
    {
        self.hours
    }

    /// The whole offset measured in seconds.
    pub fn whole_seconds(self) -> (r: i32)
        requires
            self.wf(),
        ensures
            r == self.total_seconds(),
    {
        self.hours as i32 * 3600 + self.minutes as i32 * 60 + self.seconds as i32
    }

    /// The minutes past the hour; sign agrees with the offset.
    pub fn minutes_past_hour(self) -> (r: i8)
        ensures
            r == self.minutes,
    {
        self.minutes
    }

    /// The seconds past the minute; sign agrees with the offset.
    pub fn seconds_past_minute(self) -> (r: i8)
        ensures
            r == self.seconds,
    {
        self.seconds
    }

    /// The hours, minutes, and seconds of the offset.
    pub fn as_hms(self) -> (r: (i8, i8, i8))
        ensures
            r == (self.hours, self.minutes, self.seconds),
    {
        (self.hours, self.minutes, self.seconds)
    }
}

} // verus!
