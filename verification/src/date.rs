//! A date in the proleptic Gregorian calendar, stored as a year and a
//! day-of-year ordinal, with a Julian-day representation for O(1)
//! differencing.

use vstd::prelude::*;

use crate::error::ComponentRange;
use crate::time::is_range_err;
use crate::util::{
    days_in_year, days_in_year_spec, div_floor_i64, is_leap_year, is_leap_year_spec,
    rem_euclid_i64,
};
use crate::weekday::{weekday_from_index, weekday_index, Weekday};
use vstd::arithmetic::div_mod::{
    lemma_fundamental_div_mod, lemma_fundamental_div_mod_converse,
    lemma_mod_division_less_than_divisor,
};

verus! {

/// The smallest year a validated constructor accepts.
pub const MIN_YEAR: i32 = -9999;

/// The largest year a validated constructor accepts.
pub const MAX_YEAR: i32 = 9999;

/// The Julian day of the first representable date, `-9999-001`.
pub const MIN_JULIAN_DAY: i32 = -1_930_999;

/// The Julian day of the last representable date, `9999-365`.
pub const MAX_JULIAN_DAY: i32 = 5_373_484;

/// The Julian day of the date with the given year and day-of-year ordinal:
/// a day count from a fixed historical epoch, so that subtracting two
/// Julian days gives the number of calendar days between the dates.
pub open spec fn julian_day_spec(year: int, ordinal: int) -> int {
    let y = year - 1;
    365 * y + y / 4 - y / 100 + y / 400 + ordinal + 1_721_425
}

/// The Julian day of the first day of `year`.
pub open spec fn year_start_jd(year: int) -> int {
    julian_day_spec(year, 1)
}

/// Whether `p` is the (year, ordinal) pair of the date with Julian day
/// `jd`.
pub open spec fn is_date_parts(jd: int, p: (int, int)) -> bool {
    &&& 1 <= p.1 <= days_in_year_spec(p.0)
    &&& julian_day_spec(p.0, p.1) == jd
}

/// The (year, ordinal) pair of the date with Julian day `jd`; unique by
/// [`lemma_date_parts_unique`].
pub open spec fn jd_to_parts(jd: int) -> (int, int) {
    choose|p: (int, int)| is_date_parts(jd, p)
}

/// A date in the proleptic Gregorian calendar.
#[derive(Clone, Copy, Debug, PartialEq, Eq, Hash, Structural)]
pub struct Date {
    /// The calendar year.
    pub year: i32,
    /// The day of the year, `1..=365` or `1..=366` in leap years.
    pub ordinal: u16,
}

// region: lemmas about the Julian-day formula
/// How a Euclidean quotient changes when the dividend grows by one.
proof fn lemma_div_step(y: int, d: int)
    requires
        0 < d,
    ensures
        y / d - (y - 1) / d == if y % d == 0 {
            1int
        } else {
            0int
        },
{
    lemma_fundamental_div_mod(y - 1, d);
    lemma_mod_division_less_than_divisor(y - 1, d);
    let q = (y - 1) / d;
    let r = (y - 1) % d;
    if r == d - 1 {
        assert(y == (q + 1) * d + 0) by (nonlinear_arith)
            requires
                y - 1 == d * q + r && r == d - 1,
        ;
        lemma_fundamental_div_mod_converse(y, d, q + 1, 0);
    } else {
        assert(y == q * d + (r + 1)) by (nonlinear_arith)
            requires
                y - 1 == d * q + r,
        ;
        lemma_fundamental_div_mod_converse(y, d, q, r + 1);
    }
}

/// A year divisible by 400 is divisible by 100.
proof fn lemma_divisible_400_100(y: int)
    requires
        y % 400 == 0,
    ensures
        y % 100 == 0,
{
    lemma_fundamental_div_mod(y, 400);
    assert(y == (4 * (y / 400)) * 100 + 0) by (nonlinear_arith)
        requires
            y == 400 * (y / 400),
    ;
    lemma_fundamental_div_mod_converse(y, 100, 4 * (y / 400), 0);
}

/// A year divisible by 100 is divisible by 4.
proof fn lemma_divisible_100_4(y: int)
    requires
        y % 100 == 0,
    ensures
        y % 4 == 0,
{
    lemma_fundamental_div_mod(y, 100);
    assert(y == (25 * (y / 100)) * 4 + 0) by (nonlinear_arith)
        requires
            y == 100 * (y / 100),
    ;
    lemma_fundamental_div_mod_converse(y, 4, 25 * (y / 100), 0);
}

/// Consecutive years start exactly one year's worth of days apart.
pub proof fn lemma_year_start_succ(y: int)
    ensures
        year_start_jd(y + 1) == year_start_jd(y) + days_in_year_spec(y),
{
    lemma_div_step(y, 4);
    lemma_div_step(y, 100);
    lemma_div_step(y, 400);
    if y % 400 == 0 {
        lemma_divisible_400_100(y);
    }
    if y % 100 == 0 {
        lemma_divisible_100_4(y);
    }
}

/// Year starts are monotone in the year.
pub proof fn lemma_year_start_mono(y1: int, y2: int)
    requires
        y1 <= y2,
    ensures
        year_start_jd(y1) <= year_start_jd(y2),
    decreases y2 - y1,
{
    if y1 < y2 {
        lemma_year_start_mono(y1, y2 - 1);
        lemma_year_start_succ(y2 - 1);
    }
}

/// Year starts are strictly monotone in the year.
pub proof fn lemma_year_start_lt(y1: int, y2: int)
    requires
        y1 < y2,
    ensures
        year_start_jd(y1) < year_start_jd(y2),
{
    lemma_year_start_succ(y1);
    lemma_year_start_mono(y1 + 1, y2);
}

/// The Julian-day formula is injective on well-formed (year, ordinal)
/// pairs: a Julian day determines the date.
pub proof fn lemma_date_parts_unique(jd: int, p1: (int, int), p2: (int, int))
    requires
        is_date_parts(jd, p1),
        is_date_parts(jd, p2),
    ensures
        p1 == p2,
{
    if p1.0 < p2.0 {
        lemma_year_start_succ(p1.0);
        lemma_year_start_mono(p1.0 + 1, p2.0);
        assert(false);
    } else if p2.0 < p1.0 {
        lemma_year_start_succ(p2.0);
        lemma_year_start_mono(p2.0 + 1, p1.0);
        assert(false);
    }
}

/// Whatever pair satisfies [`is_date_parts`] is the value of
/// [`jd_to_parts`].
pub proof fn lemma_jd_to_parts_of(jd: int, p: (int, int))
    requires
        is_date_parts(jd, p),
    ensures
        jd_to_parts(jd) == p,
{
    let w = choose|q: (int, int)| is_date_parts(jd, q);
    lemma_date_parts_unique(jd, w, p);
}

/// Every Julian day in the supported window corresponds to some
/// well-formed (year, ordinal) pair.
proof fn lemma_date_parts_exist(jd: int)
    requires
        year_start_jd(-10_000) <= jd < year_start_jd(10_001),
    ensures
        is_date_parts(jd, jd_to_parts(jd)),
    decreases jd - year_start_jd(-10_000),
{
    if jd == year_start_jd(-10_000) {
        assert(is_date_parts(jd, (-10_000int, 1int)));
    } else {
        lemma_date_parts_exist(jd - 1);
        let p = jd_to_parts(jd - 1);
        if p.1 < days_in_year_spec(p.0) {
            assert(is_date_parts(jd, (p.0, p.1 + 1)));
        } else {
            lemma_year_start_succ(p.0);
            assert(is_date_parts(jd, (p.0 + 1, 1int)));
        }
    }
    let w = choose|q: (int, int)| is_date_parts(jd, q);
    assert(is_date_parts(jd, w));
}

/// The (year, ordinal) pair of a Julian day in the supported window is a
/// well-formed date carrying exactly that Julian day.
pub proof fn lemma_jd_to_parts_valid(jd: int)
    requires
        year_start_jd(-10_000) <= jd < year_start_jd(10_001),
    ensures
        is_date_parts(jd, jd_to_parts(jd)),
        -10_000 <= jd_to_parts(jd).0 <= 10_000,
{
    lemma_date_parts_exist(jd);
    let p = jd_to_parts(jd);
    if p.0 <= -10_001 {
        lemma_year_start_succ(p.0);
        lemma_year_start_mono(p.0 + 1, -10_000);
        assert(false);
    }
    if p.0 >= 10_001 {
        lemma_year_start_mono(10_001, p.0);
        assert(false);
    }
}

/// The Julian-day conversion is a bijection between well-formed
/// (year, ordinal) pairs and the Julian days they map to: converting a
/// date to its Julian day and back restores the date, and converting a
/// Julian day in the supported window to a date and back restores the day.
pub proof fn lemma_julian_roundtrip(year: int, ordinal: int, jd: int)
    requires
        1 <= ordinal <= days_in_year_spec(year),
        year_start_jd(-10_000) <= jd < year_start_jd(10_001),
    ensures
        jd_to_parts(julian_day_spec(year, ordinal)) == (year, ordinal),
        julian_day_spec(jd_to_parts(jd).0, jd_to_parts(jd).1) == jd,
{
    lemma_jd_to_parts_of(julian_day_spec(year, ordinal), (year, ordinal));
    lemma_date_parts_exist(jd);
}

/// How two dates order: lexicographically by year, then day-of-year.
pub open spec fn date_order(a: Date, b: Date) -> core::cmp::Ordering {
    if a.year != b.year {
        if a.year < b.year {
            core::cmp::Ordering::Less
        } else {
            core::cmp::Ordering::Greater
        }
    } else if a.ordinal != b.ordinal {
        if a.ordinal < b.ordinal {
            core::cmp::Ordering::Less
        } else {
            core::cmp::Ordering::Greater
        }
    } else {
        core::cmp::Ordering::Equal
    }
}

impl PartialOrd for Date {
    /// Dates order lexicographically by year, then day-of-year.
    fn partial_cmp(&self, other: &Self) -> (r: Option<core::cmp::Ordering>) {
        if self.year != other.year {
            if self.year < other.year {
                Some(core::cmp::Ordering::Less)
            } else {
                Some(core::cmp::Ordering::Greater)
            }
        } else if self.ordinal != other.ordinal {
            if self.ordinal < other.ordinal {
                Some(core::cmp::Ordering::Less)
            } else {
                Some(core::cmp::Ordering::Greater)
            }
        } else {
            Some(core::cmp::Ordering::Equal)
        }
    }
}

impl vstd::std_specs::cmp::PartialOrdSpecImpl for Date {
    open spec fn obeys_partial_cmp_spec() -> bool {
        true
    }

    open spec fn partial_cmp_spec(&self, other: &Self) -> Option<core::cmp::Ordering> {
        Some(date_order(*self, *other))
    }
}

/// The calendar ordering of dates agrees with the ordering of their Julian
/// days: the two representations order alike.
pub proof fn lemma_date_order_matches_julian(a: Date, b: Date)
    requires
        a.wf(),
        b.wf(),
    ensures
        date_order(a, b) == core::cmp::Ordering::Less <==> a.julian() < b.julian(),
        date_order(a, b) == core::cmp::Ordering::Equal <==> a.julian() == b.julian(),
        date_order(a, b) == core::cmp::Ordering::Greater <==> a.julian() > b.julian(),
{
    if a.year < b.year {
        lemma_year_start_succ(a.year as int);
        lemma_year_start_mono(a.year + 1, b.year as int);
    }
    if b.year < a.year {
        lemma_year_start_succ(b.year as int);
        lemma_year_start_mono(b.year + 1, a.year as int);
    }
}

/// A well-formed date whose Julian day lies within the representable range
/// has its year within the validated range.
pub proof fn lemma_in_bounds_from_julian(d: Date)
    requires
        d.wf(),
        MIN_JULIAN_DAY <= d.julian() <= MAX_JULIAN_DAY,
    ensures
        d.in_bounds(),
{
    assert(year_start_jd(-9_999) == MIN_JULIAN_DAY);
    assert(year_start_jd(10_000) == MAX_JULIAN_DAY + 1);
    if d.year <= -10_000 {
        lemma_year_start_succ(-10_000);
        assert(false);
    }
    if d.year >= 10_000 {
        assert(false);
    }
}

// endregion lemmas
/// The number of days of `year` that precede the first day of `month`.
pub open spec fn days_before_month_spec(year: int, month: int) -> int {
    let c: int = if is_leap_year_spec(year) {
        1
    } else {
        0
    };
    if month == 1 {
        0
    } else if month == 2 {
        31
    } else if month == 3 {
        59 + c
    } else if month == 4 {
        90 + c
    } else if month == 5 {
        120 + c
    } else if month == 6 {
        151 + c
    } else if month == 7 {
        181 + c
    } else if month == 8 {
        212 + c
    } else if month == 9 {
        243 + c
    } else if month == 10 {
        273 + c
    } else if month == 11 {
        304 + c
    } else {
        334 + c
    }
}

/// The number of days in `month` of `year`.
pub open spec fn days_in_month_spec(year: int, month: int) -> int {
    if month == 2 {
        if is_leap_year_spec(year) {
            29
        } else {
            28
        }
    } else if month == 4 || month == 6 || month == 9 || month == 11 {
        30
    } else {
        31
    }
}

/// The month that day-of-year `ordinal` of `year` falls in.
pub open spec fn month_of_ordinal_spec(year: int, ordinal: int) -> int {
    let c: int = if is_leap_year_spec(year) {
        1
    } else {
        0
    };
    if ordinal <= 31 {
        1
    } else if ordinal <= 59 + c {
        2
    } else if ordinal <= 90 + c {
        3
    } else if ordinal <= 120 + c {
        4
    } else if ordinal <= 151 + c {
        5
    } else if ordinal <= 181 + c {
        6
    } else if ordinal <= 212 + c {
        7
    } else if ordinal <= 243 + c {
        8
    } else if ordinal <= 273 + c {
        9
    } else if ordinal <= 304 + c {
        10
    } else if ordinal <= 334 + c {
        11
    } else {
        12
    }
}

/// The number of weeks in `year` under the ISO week-date scheme.
pub open spec fn weeks_in_year_spec(year: int) -> int {
    let jan1 = year_start_jd(year) % 7;
    if jan1 == 3 || (jan1 == 2 && is_leap_year_spec(year)) {
        53
    } else {
        52
    }
}

/// The ISO 8601 (year, week) pair of the date with the given year and
/// day-of-year ordinal.
pub open spec fn iso_week_parts(year: int, ordinal: int) -> (int, int) {
    let idx = julian_day_spec(year, ordinal) % 7;
    let w = (ordinal + 10 - (idx + 1)) / 7;
    if w == 0 {
        (year - 1, weeks_in_year_spec(year - 1))
    } else if w == 53 && weeks_in_year_spec(year) == 52 {
        (year + 1, 1)
    } else {
        (year, w)
    }
}

/// The month and day a day-of-year ordinal splits into are in range: the
/// month lies in `1..=12` and the day within the month's length.
pub proof fn lemma_calendar_parts(year: int, ordinal: int)
    requires
        1 <= ordinal <= days_in_year_spec(year),
    ensures
        1 <= month_of_ordinal_spec(year, ordinal) <= 12,
        1 <= ordinal - days_before_month_spec(year, month_of_ordinal_spec(year, ordinal)),
        ordinal - days_before_month_spec(year, month_of_ordinal_spec(year, ordinal))
            <= days_in_month_spec(year, month_of_ordinal_spec(year, ordinal)),
        days_in_month_spec(year, month_of_ordinal_spec(year, ordinal)) <= 31,
{
}

/// A month's days all fit within the year: the days before it plus its
/// length never exceed the year's length.
proof fn lemma_month_bounds(year: int, month: int)
    requires
        1 <= month <= 12,
    ensures
        days_before_month_spec(year, month) + days_in_month_spec(year, month)
            <= days_in_year_spec(year),
        month < 12 ==> days_before_month_spec(year, month) + days_in_month_spec(year, month)
            == days_before_month_spec(year, month + 1),
{
}

/// The number of days in `month` of `year`.
pub fn days_in_month(year: i32, month: u8) -> (r: u8)
    requires
        -100_000 <= year <= 100_000,
        1 <= month <= 12,
    ensures
        r == days_in_month_spec(year as int, month as int),
{
    if month == 2 {
        if is_leap_year(year) {
            29
        } else {
            28
        }
    } else if month == 4 || month == 6 || month == 9 || month == 11 {
        30
    } else {
        31
    }
}

/// The number of days of `year` that precede the first day of `month`.
pub fn days_before_month(year: i32, month: u8) -> (r: u16)
    requires
        -100_000 <= year <= 100_000,
        1 <= month <= 12,
    ensures
        r == days_before_month_spec(year as int, month as int),
{
    let c: u16 = if is_leap_year(year) {
        1
    } else {
        0
    };
    match month {
        1 => 0,
        2 => 31,
        3 => 59 + c,
        4 => 90 + c,
        5 => 120 + c,
        6 => 151 + c,
        7 => 181 + c,
        8 => 212 + c,
        9 => 243 + c,
        10 => 273 + c,
        11 => 304 + c,
        _ => 334 + c,
    }
}

/// The Julian day of the first day of `year`, computed on machine
/// integers.
pub fn year_start_jd_exec(year: i32) -> (r: i64)
    requires
        -12_000 <= year <= 12_000,
    ensures
        r == year_start_jd(year as int),
{
    let y: i64 = (year as i64) - 1;
    let a: i64 = div_floor_i64(y, 4);
    let b: i64 = div_floor_i64(y, 100);
    let c: i64 = div_floor_i64(y, 400);
    proof {
        lemma_fundamental_div_mod(y as int, 4);
        lemma_mod_division_less_than_divisor(y as int, 4);
        lemma_fundamental_div_mod(y as int, 100);
        lemma_mod_division_less_than_divisor(y as int, 100);
        lemma_fundamental_div_mod(y as int, 400);
        lemma_mod_division_less_than_divisor(y as int, 400);
    }
    365 * y + a - b + c + 1 + 1_721_425
}

impl Date {
    /// Well-formedness: the ordinal fits the year's length, and the year
    /// stays within one year of the validated range (internal arithmetic
    /// may step one day past it).
    pub open spec fn wf(self) -> bool {
        &&& -10_000 <= self.year <= 10_000
        &&& 1 <= self.ordinal <= days_in_year_spec(self.year as int)
    }

    /// Whether the date lies in the range validated constructors accept.
    pub open spec fn in_bounds(self) -> bool {
        -9_999 <= self.year <= 9_999
    }

    /// The date's Julian day, as a mathematical integer.
    pub open spec fn julian(self) -> int {
        julian_day_spec(self.year as int, self.ordinal as int)
    }

    /// Creates a `Date` from a year and day-of-year ordinal already known
    /// to be valid.
    ///
    /// Callers must have established that the ordinal fits the year; this
    /// constructor performs no validation.
    pub fn __from_ordinal_date_unchecked(year: i32, ordinal: u16) -> (d: Date)
        requires
            (Date { year, ordinal }).wf(),
        ensures
            d == (Date { year, ordinal }),
    {
        Date { year, ordinal }
    }

    /// Attempts to create a `Date` from a year and day-of-year ordinal,
    /// rejecting a year outside the supported range and an ordinal that
    /// does not fit the year.
    pub fn from_ordinal_date(year: i32, ordinal: u16) -> (r: Result<Date, ComponentRange>)
        ensures
            r is Ok <==> MIN_YEAR <= year <= MAX_YEAR && 1 <= ordinal <= days_in_year_spec(
                year as int,
            ),
            r matches Ok(d) ==> d == (Date { year, ordinal }) && d.wf() && d.in_bounds(),
            !(MIN_YEAR <= year <= MAX_YEAR) ==> (r matches Err(e) && is_range_err(
                e,
                "year"@,
                -9999i64,
                9999i64,
                year as i64,
            )),
            MIN_YEAR <= year <= MAX_YEAR && !(1 <= ordinal <= days_in_year_spec(year as int)) ==> (
            r matches Err(e) && e.name@ == "ordinal"@ && e.minimum == 1 && e.maximum
                == days_in_year_spec(year as int) && e.value == ordinal && e.conditional_range
                == true),
    {
        if year < MIN_YEAR || year > MAX_YEAR {
            return Err(
                ComponentRange {
                    name: "year",
                    minimum: -9999,
                    maximum: 9999,
                    value: year as i64,
                    conditional_range: false,
                },
            );
        }
        let days: u16 = days_in_year(year);
        if ordinal < 1 || ordinal > days {
            return Err(
                ComponentRange {
                    name: "ordinal",
                    minimum: 1,
                    maximum: days as i64,
                    value: ordinal as i64,
                    conditional_range: true,
                },
            );
        }
        Ok(Date { year, ordinal })
    }

    /// The year and day-of-year ordinal.
    pub fn to_ordinal_date(self) -> (r: (i32, u16))
        ensures
            r == (self.year, self.ordinal),
    {
        (self.year, self.ordinal)
    }

    /// The calendar year.
    pub fn year(self) -> (r: i32)
        ensures
            r == self.year,
    {
        self.year
    }

    /// The day of the year, in `1..=366`.
    pub fn ordinal(self) -> (r: u16)
        ensures
            r == self.ordinal,
    {
        self.ordinal
    }

    /// The date's Julian day.
    pub fn to_julian_day(self) -> (r: i32)
        requires
            self.wf(),
        ensures
            r == self.julian(),
    {
        let ys: i64 = year_start_jd_exec(self.year);
        (ys + self.ordinal as i64 - 1) as i32
    }

    /// The date with the given Julian day; the day must correspond to a
    /// date no more than one year outside the validated range.
    pub fn from_julian_day_unchecked(julian_day: i32) -> (d: Date)
        requires
            year_start_jd(-10_000) <= julian_day,
            julian_day < year_start_jd(10_001),
        ensures
            d.wf(),
            d.julian() == julian_day,
            (d.year as int, d.ordinal as int) == jd_to_parts(julian_day as int),
    {
        let jd: i64 = julian_day as i64;
        // Estimate the year from the average Gregorian year length of
        // 146097 / 400 days, then correct it by whole years.
        let est: i64 = div_floor_i64((jd - 1_721_425) * 400, 146_097) + 1;
        let mut year: i32 = if est < -10_000 {
            -10_000
        } else if est > 10_000 {
            10_000
        } else {
            est as i32
        };
        while year_start_jd_exec(year) > jd
            invariant
                -10_000 <= year <= 10_000,
                year_start_jd(-10_000) <= jd < year_start_jd(10_001),
            decreases year + 10_000,
        {
            proof {
                if year == -10_000 {
                    assert(false);
                }
            }
            year = year - 1;
        }
        while year_start_jd_exec(year + 1) <= jd
            invariant
                -10_000 <= year <= 10_000,
                year_start_jd(year as int) <= jd,
                jd < year_start_jd(10_001),
            decreases 10_000 - year,
        {
            proof {
                if year == 10_000 {
                    assert(false);
                }
            }
            year = year + 1;
        }
        let ys: i64 = year_start_jd_exec(year);
        let ordinal: u16 = (jd - ys + 1) as u16;
        proof {
            lemma_year_start_succ(year as int);
            lemma_jd_to_parts_of(jd as int, (year as int, ordinal as int));
        }
        Date { year, ordinal }
    }

    /// Attempts to create a `Date` from a Julian day, rejecting one outside
    /// the representable range.
    pub fn from_julian_day(julian_day: i32) -> (r: Result<Date, ComponentRange>)
        ensures
            r is Ok <==> MIN_JULIAN_DAY <= julian_day <= MAX_JULIAN_DAY,
            r matches Ok(d) ==> d.wf() && d.in_bounds() && d.julian() == julian_day,
            !(MIN_JULIAN_DAY <= julian_day <= MAX_JULIAN_DAY) ==> (r matches Err(e) && is_range_err(
                e,
                "julian_day"@,
                MIN_JULIAN_DAY as i64,
                MAX_JULIAN_DAY as i64,
                julian_day as i64,
            )),
    {
        if julian_day < MIN_JULIAN_DAY || julian_day > MAX_JULIAN_DAY {
            return Err(
                ComponentRange {
                    name: "julian_day",
                    minimum: MIN_JULIAN_DAY as i64,
                    maximum: MAX_JULIAN_DAY as i64,
                    value: julian_day as i64,
                    conditional_range: false,
                },
            );
        }
        proof {
            assert(year_start_jd(-10_000) <= julian_day as int);
            assert(julian_day < year_start_jd(10_001));
            assert(year_start_jd(-9_999) == MIN_JULIAN_DAY);
            assert(year_start_jd(10_000) == MAX_JULIAN_DAY + 1);
        }
        let d = Self::from_julian_day_unchecked(julian_day);
        proof {
            // The resulting year lies in the validated range because the
            // Julian day does.
            if d.year <= -10_000 {
                lemma_year_start_lt(d.year as int, -9_999);
                assert(false);
            }
            if d.year >= 10_000 {
                lemma_year_start_succ(d.year as int);
                lemma_year_start_mono(10_000, d.year as int);
                assert(false);
            }
        }
        Ok(d)
    }

    /// The date `days` days later (or earlier, for negative `days`),
    /// rejecting a result outside the representable range.
    pub fn add_days(self, days: i64) -> (r: Result<Date, ComponentRange>)
        requires
            self.wf(),
        ensures
            r is Ok <==> MIN_JULIAN_DAY <= self.julian() + days <= MAX_JULIAN_DAY,
            r matches Ok(d) ==> d.wf() && d.in_bounds() && d.julian() == self.julian() + days,
            !(MIN_JULIAN_DAY <= self.julian() + days <= MAX_JULIAN_DAY) ==> (r matches Err(e)
                && e.name@ == "julian_day"@),
    {
        let jd: i64 = self.to_julian_day() as i64;
        let shifted: i64 = if days >= -20_000_000 && days <= 20_000_000 {
            jd + days
        } else if days < 0 {
            // Far outside the representable range either way; clamp to a
            // sentinel that still reports the right error.
            MIN_JULIAN_DAY as i64 - 1
        } else {
            MAX_JULIAN_DAY as i64 + 1
        };
        if shifted < MIN_JULIAN_DAY as i64 || shifted > MAX_JULIAN_DAY as i64 {
            return Err(
                ComponentRange {
                    name: "julian_day",
                    minimum: MIN_JULIAN_DAY as i64,
                    maximum: MAX_JULIAN_DAY as i64,
                    value: shifted,
                    conditional_range: false,
                },
            );
        }
        proof {
            assert(year_start_jd(-9_999) == MIN_JULIAN_DAY);
            assert(year_start_jd(10_000) == MAX_JULIAN_DAY + 1);
            assert(year_start_jd(-10_000) <= MIN_JULIAN_DAY) by {
                lemma_year_start_lt(-10_000, -9_999);
            }
            assert(MAX_JULIAN_DAY < year_start_jd(10_001)) by {
                lemma_year_start_lt(10_000, 10_001);
            }
        }
        Ok(Self::from_julian_day_unchecked(shifted as i32))
    }

    /// The year, month, and day of the date.
    pub fn to_calendar_date(self) -> (r: (i32, u8, u8))
        requires
            self.wf(),
        ensures
            r.0 == self.year,
            r.1 == month_of_ordinal_spec(self.year as int, self.ordinal as int),
            r.2 == self.ordinal - days_before_month_spec(self.year as int, r.1 as int),
            1 <= r.1 <= 12,
            1 <= r.2 <= days_in_month_spec(self.year as int, r.1 as int),
    {
        let leap: bool = is_leap_year(self.year);
        let c: u16 = if leap {
            1
        } else {
            0
        };
        let o: u16 = self.ordinal;
        let month: u8 = if o <= 31 {
            1
        } else if o <= 59 + c {
            2
        } else if o <= 90 + c {
            3
        } else if o <= 120 + c {
            4
        } else if o <= 151 + c {
            5
        } else if o <= 181 + c {
            6
        } else if o <= 212 + c {
            7
        } else if o <= 243 + c {
            8
        } else if o <= 273 + c {
            9
        } else if o <= 304 + c {
            10
        } else if o <= 334 + c {
            11
        } else {
            12
        };
        let before: u16 = days_before_month(self.year, month);
        (self.year, month, (o - before) as u8)
    }

    /// The month of the year, in `1..=12`.
    pub fn month(self) -> (r: u8)
        requires
            self.wf(),
        ensures
            r == month_of_ordinal_spec(self.year as int, self.ordinal as int),
    {
        self.to_calendar_date().1
    }

    /// The day of the month, in `1..=31`.
    pub fn day(self) -> (r: u8)
        requires
            self.wf(),
        ensures
            r == self.ordinal - days_before_month_spec(
                self.year as int,
                month_of_ordinal_spec(self.year as int, self.ordinal as int),
            ),
    {
        self.to_calendar_date().2
    }

    /// Attempts to create a `Date` from a year, month, and day, rejecting
    /// components that are out of range; the valid range of the day depends
    /// on the month and on leap years.
    pub fn from_calendar_date(year: i32, month: u8, day: u8) -> (r: Result<Date, ComponentRange>)
        ensures
            r is Ok <==> MIN_YEAR <= year <= MAX_YEAR && 1 <= month <= 12 && 1 <= day
                <= days_in_month_spec(year as int, month as int),
            r matches Ok(d) ==> {
                &&& d.year == year
                &&& d.ordinal == days_before_month_spec(year as int, month as int) + day
                &&& d.wf()
                &&& d.in_bounds()
                &&& month_of_ordinal_spec(year as int, d.ordinal as int) == month
            },
            !(MIN_YEAR <= year <= MAX_YEAR) ==> (r matches Err(e) && is_range_err(
                e,
                "year"@,
                -9999i64,
                9999i64,
                year as i64,
            )),
            MIN_YEAR <= year <= MAX_YEAR && !(1 <= month <= 12) ==> (r matches Err(e)
                && is_range_err(e, "month"@, 1i64, 12i64, month as i64)),
            MIN_YEAR <= year <= MAX_YEAR && 1 <= month <= 12 && !(1 <= day <= days_in_month_spec(
                year as int,
                month as int,
            )) ==> (r matches Err(e) && e.name@ == "day"@ && e.minimum == 1 && e.maximum
                == days_in_month_spec(year as int, month as int) && e.value == day
                && e.conditional_range == true),
    {
        if year < MIN_YEAR || year > MAX_YEAR {
            return Err(
                ComponentRange {
                    name: "year",
                    minimum: -9999,
                    maximum: 9999,
                    value: year as i64,
                    conditional_range: false,
                },
            );
        }
        if month < 1 || month > 12 {
            return Err(
                ComponentRange {
                    name: "month",
                    minimum: 1,
                    maximum: 12,
                    value: month as i64,
                    conditional_range: false,
                },
            );
        }
        let dim: u8 = days_in_month(year, month);
        if day < 1 || day > dim {
            return Err(
                ComponentRange {
                    name: "day",
                    minimum: 1,
                    maximum: dim as i64,
                    value: day as i64,
                    conditional_range: true,
                },
            );
        }
        let ordinal: u16 = days_before_month(year, month) + day as u16;
        proof {
            lemma_month_bounds(year as int, month as int);
        }
        Ok(Date { year, ordinal })
    }

    /// The number of weeks in the date's year under the ISO week-date
    /// scheme: 53 when the year starts on a Thursday, or on a Wednesday in
    /// a leap year; 52 otherwise.
    pub fn weeks_in_year_of(year: i32) -> (r: u8)
        requires
            -11_000 <= year <= 11_000,
        ensures
            r == weeks_in_year_spec(year as int),
    {
        let jan1: i64 = rem_euclid_i64(year_start_jd_exec(year), 7);
        if jan1 == 3 || (jan1 == 2 && is_leap_year(year)) {
            53
        } else {
            52
        }
    }

    /// The ISO 8601 year, week number, and weekday of the date.
    pub fn to_iso_week_date(self) -> (r: (i32, u8, Weekday))
        requires
            self.wf(),
        ensures
            (r.0 as int, r.1 as int) == iso_week_parts(self.year as int, self.ordinal as int),
            weekday_index(r.2) == self.julian() % 7,
    {
        let weekday: Weekday = self.weekday();
        let jd: i64 = self.to_julian_day() as i64;
        let idx: i64 = rem_euclid_i64(jd, 7);
        let w: u16 = ((self.ordinal as u32 + 10 - (idx as u32 + 1)) / 7) as u16;
        if w == 0 {
            (self.year - 1, Self::weeks_in_year_of(self.year - 1), weekday)
        } else if w == 53 && Self::weeks_in_year_of(self.year) == 52 {
            (self.year + 1, 1, weekday)
        } else {
            (self.year, w as u8, weekday)
        }
    }

    /// The ISO 8601 week number of the date, in `1..=53`.
    pub fn iso_week(self) -> (r: u8)
        requires
            self.wf(),
        ensures
            r == iso_week_parts(self.year as int, self.ordinal as int).1,
    {
        self.to_iso_week_date().1
    }

    /// The week number, where week 1 begins on the first Sunday of the
    /// year; days before it fall in week 0.
    pub fn sunday_based_week(self) -> (r: u8)
        requires
            self.wf(),
        ensures
            r == (self.ordinal - (self.julian() % 7 + 1) % 7 + 6) / 7,
    {
        let jd: i64 = self.to_julian_day() as i64;
        let idx: i64 = rem_euclid_i64(jd, 7);
        let dfs: u32 = ((idx as u32) + 1) % 7;
        (((self.ordinal as u32) + 6 - dfs) / 7) as u8
    }

    /// The week number, where week 1 begins on the first Monday of the
    /// year; days before it fall in week 0.
    pub fn monday_based_week(self) -> (r: u8)
        requires
            self.wf(),
        ensures
            r == (self.ordinal - self.julian() % 7 + 6) / 7,
    {
        let jd: i64 = self.to_julian_day() as i64;
        let idx: i64 = rem_euclid_i64(jd, 7);
        (((self.ordinal as u32) + 6 - (idx as u32)) / 7) as u8
    }

    /// The day of the week the date falls on.
    pub fn weekday(self) -> (w: Weekday)
        requires
            self.wf(),
        ensures
            weekday_index(w) == self.julian() % 7,
    {
        let jd: i64 = self.to_julian_day() as i64;
        let idx: i64 = rem_euclid_i64(jd, 7);
        weekday_from_index(idx as u8)
    }
}

} // verus!
