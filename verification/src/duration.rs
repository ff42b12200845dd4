//! A signed span of time, stored as whole seconds plus a sub-second
//! nanosecond part that carries the same sign.

use vstd::prelude::*;

use crate::util::{trunc_div_i64, trunc_div_spec, trunc_rem_i64};

verus! {

/// The number of nanoseconds in one second.
pub const NANOS_PER_SECOND: i32 = 1_000_000_000;

/// A span of time with nanosecond precision, positive or negative.
///
/// The two fields always agree in sign (or one of them is zero), and the
/// nanosecond part has magnitude below one second; see [`Duration::wf`].
#[derive(Clone, Copy, Debug, PartialEq, Eq, Hash, Structural)]
pub struct Duration {
    /// Whole seconds; sign agrees with `nanoseconds`.
    pub seconds: i64,
    /// Sub-second part in nanoseconds, magnitude below one second.
    pub nanoseconds: i32,
}

impl Duration {
    /// Well-formedness: the nanosecond part is a strict sub-second amount
    /// and carries the same sign as the seconds part.
    pub open spec fn wf(self) -> bool {
        &&& -999_999_999 <= self.nanoseconds <= 999_999_999
        &&& self.seconds > 0 ==> self.nanoseconds >= 0
        &&& self.seconds < 0 ==> self.nanoseconds <= 0
    }

    /// The whole span measured in nanoseconds.
    pub open spec fn total_nanos(self) -> int {
        self.seconds * 1_000_000_000 + self.nanoseconds
    }

    /// Builds a duration from parts already known to be canonical.
    ///
    /// Callers must have established [`Duration::wf`] for the parts; this
    /// constructor performs no normalisation.
    pub fn new_unchecked(seconds: i64, nanoseconds: i32) -> (r: Self)
        requires
            (Duration { seconds, nanoseconds }).wf(),
        ensures
            r == (Duration { seconds, nanoseconds }),
    {
        Duration { seconds, nanoseconds }
    }

    /// Builds a duration from seconds and nanoseconds, normalising the two
    /// parts so their signs agree and the nanosecond part stays sub-second.
    pub fn new(seconds: i64, nanoseconds: i32) -> (r: Self)
        requires
            i64::MIN + 3 <= seconds <= i64::MAX - 3,
        ensures
            r.wf(),
            r.total_nanos() == seconds * 1_000_000_000 + nanoseconds,
    {
        let carry: i64 = trunc_div_i64(nanoseconds as i64, 1_000_000_000);
        let mut secs: i64 = seconds + carry;
        let mut nanos: i32 = trunc_rem_i64(nanoseconds as i64, 1_000_000_000) as i32;
        proof {
            vstd::arithmetic::div_mod::lemma_fundamental_div_mod(nanoseconds as int, 1_000_000_000);
            if nanoseconds >= 0 {
            } else {
                vstd::arithmetic::div_mod::lemma_fundamental_div_mod(
                    -(nanoseconds as int),
                    1_000_000_000,
                );
            }
            assert(carry * 1_000_000_000 + nanos == nanoseconds) by (nonlinear_arith)
                requires
                    carry == trunc_div_spec(nanoseconds as int, 1_000_000_000) && nanos
                        == crate::util::trunc_rem_spec(nanoseconds as int, 1_000_000_000)
                        && -1_000_000_000 < nanos < 1_000_000_000 && -3 <= carry <= 3 && (
                    nanoseconds as int) == 1_000_000_000 * (nanoseconds as int / 1_000_000_000) + (
                    nanoseconds as int % 1_000_000_000) && (-(nanoseconds as int))
                        == 1_000_000_000 * ((-(nanoseconds as int)) / 1_000_000_000) + ((-(
                    nanoseconds as int)) % 1_000_000_000),
            ;
        }
        if secs > 0 && nanos < 0 {
            secs = secs - 1;
            nanos = nanos + 1_000_000_000;
        } else if secs < 0 && nanos > 0 {
            secs = secs + 1;
            nanos = nanos - 1_000_000_000;
        }
        Duration { seconds: secs, nanoseconds: nanos }
    }

    /// A duration of the given number of whole weeks.
    pub fn weeks(weeks: i64) -> (r: Self)
        requires
            -15_250_284_452_471 <= weeks <= 15_250_284_452_471,
        ensures
            r.wf(),
            r.total_nanos() == weeks * 604_800 * 1_000_000_000,
    {
        Duration { seconds: weeks * 604_800, nanoseconds: 0 }
    }

    /// A duration of the given number of whole days.
    pub fn days(days: i64) -> (r: Self)
        requires
            -106_751_991_167_300 <= days <= 106_751_991_167_300,
        ensures
            r.wf(),
            r.total_nanos() == days * 86_400 * 1_000_000_000,
    {
        Duration { seconds: days * 86_400, nanoseconds: 0 }
    }

    /// A duration of the given number of whole hours.
    pub fn hours(hours: i64) -> (r: Self)
        requires
            -2_562_047_788_015_215 <= hours <= 2_562_047_788_015_215,
        ensures
            r.wf(),
            r.total_nanos() == hours * 3_600 * 1_000_000_000,
    {
        Duration { seconds: hours * 3_600, nanoseconds: 0 }
    }

    /// A duration of the given number of whole minutes.
    pub fn minutes(minutes: i64) -> (r: Self)
        requires
            -153_722_867_280_912_930 <= minutes <= 153_722_867_280_912_930,
        ensures
            r.wf(),
            r.total_nanos() == minutes * 60 * 1_000_000_000,
    {
        Duration { seconds: minutes * 60, nanoseconds: 0 }
    }

    /// A duration of the given number of whole seconds.
    pub fn seconds(seconds: i64) -> (r: Self)
        ensures
            r.wf(),
            r.total_nanos() == seconds * 1_000_000_000,
    {
        Duration { seconds, nanoseconds: 0 }
    }

    /// A duration of the given number of milliseconds.
    pub fn milliseconds(milliseconds: i64) -> (r: Self)
        ensures
            r.wf(),
            r.total_nanos() == milliseconds * 1_000_000,
    {
        let secs: i64 = trunc_div_i64(milliseconds, 1_000);
        let rem: i64 = trunc_rem_i64(milliseconds, 1_000);
        proof {
            crate::util::lemma_trunc_decompose(milliseconds as int, 1_000);
        }
        let r = Duration { seconds: secs, nanoseconds: (rem * 1_000_000) as i32 };
        proof {
            assert(r.total_nanos() == milliseconds * 1_000_000) by (nonlinear_arith)
                requires
                    milliseconds as int == secs * 1_000 + rem && r.seconds == secs
                        && r.nanoseconds == rem * 1_000_000,
            ;
        }
        r
    }

    /// A duration of the given number of microseconds.
    pub fn microseconds(microseconds: i64) -> (r: Self)
        ensures
            r.wf(),
            r.total_nanos() == microseconds * 1_000,
    {
        let secs: i64 = trunc_div_i64(microseconds, 1_000_000);
        let rem: i64 = trunc_rem_i64(microseconds, 1_000_000);
        proof {
            crate::util::lemma_trunc_decompose(microseconds as int, 1_000_000);
        }
        let r = Duration { seconds: secs, nanoseconds: (rem * 1_000) as i32 };
        proof {
            assert(r.total_nanos() == microseconds * 1_000) by (nonlinear_arith)
                requires
                    microseconds as int == secs * 1_000_000 + rem && r.seconds == secs
                        && r.nanoseconds == rem * 1_000,
            ;
        }
        r
    }

    /// A duration of the given number of nanoseconds.
    pub fn nanoseconds(nanoseconds: i64) -> (r: Self)
        ensures
            r.wf(),
            r.total_nanos() == nanoseconds,
    {
        let secs: i64 = trunc_div_i64(nanoseconds, 1_000_000_000);
        let rem: i64 = trunc_rem_i64(nanoseconds, 1_000_000_000);
        proof {
            crate::util::lemma_trunc_decompose(nanoseconds as int, 1_000_000_000);
        }
        Duration { seconds: secs, nanoseconds: rem as i32 }
    }

    /// The number of whole seconds in the duration, rounded towards zero.
    pub fn whole_seconds(self) -> (r: i64)
        ensures
            r == self.seconds,
    {
        self.seconds
    }

    /// The sub-second part of the duration, in nanoseconds; it carries the
    /// sign of the duration.
    pub fn subsec_nanoseconds(self) -> (r: i32)
        ensures
            r == self.nanoseconds,
    {
        self.nanoseconds
    }

    /// The number of whole minutes in the duration, rounded towards zero.
    pub fn whole_minutes(self) -> (r: i64)
        ensures
            r == trunc_div_spec(self.seconds as int, 60),
    {
        trunc_div_i64(self.seconds, 60)
    }

    /// The number of whole hours in the duration, rounded towards zero.
    pub fn whole_hours(self) -> (r: i64)
        ensures
            r == trunc_div_spec(self.seconds as int, 3_600),
    {
        trunc_div_i64(self.seconds, 3_600)
    }

    /// The number of whole days in the duration, rounded towards zero.
    pub fn whole_days(self) -> (r: i64)
        ensures
            r == trunc_div_spec(self.seconds as int, 86_400),
    {
        trunc_div_i64(self.seconds, 86_400)
    }

    /// The additive inverse of the duration.
    pub fn negated(self) -> (r: Self)
        requires
            self.wf(),
            self.seconds > i64::MIN,
        ensures
            r.wf(),
            r.total_nanos() == -self.total_nanos(),
    {
        Duration { seconds: -self.seconds, nanoseconds: -self.nanoseconds }
    }

    /// Whether the duration is exactly zero.
    pub fn is_zero(self) -> (r: bool)
        requires
            self.wf(),
        ensures
            r == (self.total_nanos() == 0),
    {
        self.seconds == 0 && self.nanoseconds == 0
    }

    /// Whether the duration is strictly positive.
    pub fn is_positive(self) -> (r: bool)
        requires
            self.wf(),
        ensures
            r == (self.total_nanos() > 0),
    {
        self.seconds > 0 || (self.seconds == 0 && self.nanoseconds > 0)
    }

    /// Whether the duration is strictly negative.
    pub fn is_negative(self) -> (r: bool)
        requires
            self.wf(),
        ensures
            r == (self.total_nanos() < 0),
    {
        self.seconds < 0 || (self.seconds == 0 && self.nanoseconds < 0)
    }
}

} // verus!
