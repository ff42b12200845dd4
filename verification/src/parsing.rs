//! Parsing input bytes against a compiled format description.
//!
//! The parser walks the token sequence in order: a literal token must
//! match the input exactly, and a component token consumes a bounded-width
//! field determined by its own modifiers, recording the decoded value in
//! an accumulator where later occurrences of the same component overwrite
//! earlier ones. No token looks ahead into later tokens.

use vstd::prelude::*;

use crate::format_description::{Component, FormatItem, Padding, SubsecondDigits};
use crate::formatting::pow10;

verus! {

/// Whether `b` is an ASCII decimal digit.
pub open spec fn is_digit(b: u8) -> bool {
    48 <= b <= 57
}

/// The number denoted by a run of decimal digits, most significant first.
pub open spec fn digits_value(s: Seq<u8>) -> int
    decreases s.len(),
{
    if s.len() == 0 {
        0
    } else {
        digits_value(s.drop_last()) * 10 + (s.last() - 48)
    }
}

/// Whether every byte of `s` is a decimal digit.
pub open spec fn all_digits(s: Seq<u8>) -> bool {
    forall|k: int| 0 <= k < s.len() ==> is_digit(#[trigger] s[k])
}

/// The end of the run of digits starting at `i`, capped at `max` digits.
pub open spec fn digit_run_end(input: Seq<u8>, i: int, max: int) -> int
    decreases max,
{
    if max <= 0 || i >= input.len() || !is_digit(input[i]) {
        i
    } else {
        digit_run_end(input, i + 1, max - 1)
    }
}

/// The end of the run of spaces starting at `i`, capped at `max` spaces.
pub open spec fn space_run_end(input: Seq<u8>, i: int, max: int) -> int
    decreases max,
{
    if max <= 0 || i >= input.len() || input[i] != 32 {
        i
    } else {
        space_run_end(input, i + 1, max - 1)
    }
}

/// The result of consuming a padded numeric field of width `w` at `i`:
/// the value and the index just past it, or `None` when the input does not
/// carry the digits the padding demands.
pub open spec fn parse_padded_spec(input: Seq<u8>, i: int, pad: Padding, w: int) -> Option<
    (int, int),
> {
    match pad {
        Padding::Zero => {
            if i + w <= input.len() && all_digits(input.subrange(i, i + w)) {
                Option::Some((digits_value(input.subrange(i, i + w)), i + w))
            } else {
                Option::None
            }
        },
        Padding::Space => {
            let sp = space_run_end(input, i, w - 1);
            let j = digit_run_end(input, sp, w - (sp - i));
            if j > sp {
                Option::Some((digits_value(input.subrange(sp, j)), j))
            } else {
                Option::None
            }
        },
        Padding::Plain => {
            let j = digit_run_end(input, i, w);
            if j > i {
                Option::Some((digits_value(input.subrange(i, j)), j))
            } else {
                Option::None
            }
        },
    }
}

/// The result of consuming an optional or mandatory sign at `i`: whether
/// the field is negative, and the index just past the sign.
pub open spec fn parse_sign_spec(input: Seq<u8>, i: int, mandatory: bool) -> Option<(bool, int)> {
    if i < input.len() && input[i] == 45 {
        Option::Some((true, i + 1))
    } else if i < input.len() && input[i] == 43 {
        Option::Some((false, i + 1))
    } else if mandatory {
        Option::None
    } else {
        Option::Some((false, i))
    }
}

/// The values decoded so far, keyed by component; a later occurrence of a
/// component overwrites an earlier one.
#[derive(Clone, Copy, Debug, PartialEq, Eq, Structural)]
pub struct Parsed {
    /// Calendar year, with its sign.
    pub year: Option<i32>,
    /// Month of the year.
    pub month: Option<u8>,
    /// Day of the month.
    pub day: Option<u8>,
    /// Day of the year.
    pub ordinal: Option<u16>,
    /// Clock hour on the 24-hour dial.
    pub hour_24: Option<u8>,
    /// Clock hour on the 12-hour dial.
    pub hour_12: Option<u8>,
    /// Minute of the hour.
    pub minute: Option<u8>,
    /// Second of the minute.
    pub second: Option<u8>,
    /// Nanosecond of the second.
    pub subsecond: Option<u32>,
    /// Whether an AM/PM marker named the afternoon.
    pub period_pm: Option<bool>,
    /// Magnitude of the whole hours of the offset.
    pub offset_hour: Option<u8>,
    /// Whether the offset is negative.
    pub offset_negative: Option<bool>,
    /// Magnitude of the minutes past the offset hour.
    pub offset_minute: Option<u8>,
    /// Magnitude of the seconds past the offset minute.
    pub offset_second: Option<u8>,
}

impl Parsed {
    /// An accumulator with nothing recorded.
    pub open spec fn empty_spec() -> Parsed {
        Parsed {
            year: Option::None,
            month: Option::None,
            day: Option::None,
            ordinal: Option::None,
            hour_24: Option::None,
            hour_12: Option::None,
            minute: Option::None,
            second: Option::None,
            subsecond: Option::None,
            period_pm: Option::None,
            offset_hour: Option::None,
            offset_negative: Option::None,
            offset_minute: Option::None,
            offset_second: Option::None,
        }
    }

    /// An accumulator with nothing recorded.
    pub fn empty() -> (r: Parsed)
        ensures
            r == Parsed::empty_spec(),
    {
        Parsed {
            year: Option::None,
            month: Option::None,
            day: Option::None,
            ordinal: Option::None,
            hour_24: Option::None,
            hour_12: Option::None,
            minute: Option::None,
            second: Option::None,
            subsecond: Option::None,
            period_pm: Option::None,
            offset_hour: Option::None,
            offset_negative: Option::None,
            offset_minute: Option::None,
            offset_second: Option::None,
        }
    }
}

/// The nanosecond count a subsecond field denotes: the digits are scaled
/// up to nine places.
pub open spec fn subsec_scale(value: int, len: int) -> int {
    value * pow10(9 - len)
}

/// The result of consuming one component at `i`: the updated accumulator
/// and the index just past the field, or `None` when the input does not
/// match.
pub open spec fn parse_component_spec(c: Component, input: Seq<u8>, i: int, acc: Parsed) -> Option<
    (Parsed, int),
> {
    match c {
        Component::Year { padding, sign_mandatory } => {
            match parse_sign_spec(input, i, sign_mandatory) {
                Option::Some((neg, i1)) => match parse_padded_spec(input, i1, padding, 4) {
                    Option::Some((v, i2)) => Option::Some(
                        (
                            Parsed {
                                year: Option::Some(
                                    (if neg {
                                        -v
                                    } else {
                                        v
                                    }) as i32,
                                ),
                                ..acc
                            },
                            i2,
                        ),
                    ),
                    Option::None => Option::None,
                },
                Option::None => Option::None,
            }
        },
        Component::Month { padding } => match parse_padded_spec(input, i, padding, 2) {
            Option::Some((v, j)) => Option::Some((Parsed { month: Option::Some(v as u8), ..acc }, j)),
            Option::None => Option::None,
        },
        Component::Day { padding } => match parse_padded_spec(input, i, padding, 2) {
            Option::Some((v, j)) => Option::Some((Parsed { day: Option::Some(v as u8), ..acc }, j)),
            Option::None => Option::None,
        },
        Component::Ordinal { padding } => match parse_padded_spec(input, i, padding, 3) {
            Option::Some((v, j)) => Option::Some(
                (Parsed { ordinal: Option::Some(v as u16), ..acc }, j),
            ),
            Option::None => Option::None,
        },
        Component::Hour { padding, is_12_hour_clock } => match parse_padded_spec(
            input,
            i,
            padding,
            2,
        ) {
            Option::Some((v, j)) => Option::Some(
                (
                    if is_12_hour_clock {
                        Parsed { hour_12: Option::Some(v as u8), ..acc }
                    } else {
                        Parsed { hour_24: Option::Some(v as u8), ..acc }
                    },
                    j,
                ),
            ),
            Option::None => Option::None,
        },
        Component::Minute { padding } => match parse_padded_spec(input, i, padding, 2) {
            Option::Some((v, j)) => Option::Some(
                (Parsed { minute: Option::Some(v as u8), ..acc }, j),
            ),
            Option::None => Option::None,
        },
        Component::Second { padding } => match parse_padded_spec(input, i, padding, 2) {
            Option::Some((v, j)) => Option::Some(
                (Parsed { second: Option::Some(v as u8), ..acc }, j),
            ),
            Option::None => Option::None,
        },
        Component::Subsecond { digits } => {
            match digits {
                SubsecondDigits::Fixed(k) => match parse_padded_spec(
                    input,
                    i,
                    Padding::Zero,
                    k as int,
                ) {
                    Option::Some((v, j)) => Option::Some(
                        (
                            Parsed {
                                subsecond: Option::Some(subsec_scale(v, k as int) as u32),
                                ..acc
                            },
                            j,
                        ),
                    ),
                    Option::None => Option::None,
                },
                SubsecondDigits::OneOrMore => {
                    let j = digit_run_end(input, i, 9);
                    if j > i {
                        Option::Some(
                            (
                                Parsed {
                                    subsecond: Option::Some(
                                        subsec_scale(
                                            digits_value(input.subrange(i, j)),
                                            j - i,
                                        ) as u32,
                                    ),
                                    ..acc
                                },
                                j,
                            ),
                        )
                    } else {
                        Option::None
                    }
                },
            }
        },
        Component::Period { uppercase } => {
            if i + 2 <= input.len() && (input[i] == 65 || input[i] == 97) && (input[i + 1] == 77
                || input[i + 1] == 109) {
                Option::Some((Parsed { period_pm: Option::Some(false), ..acc }, i + 2))
            } else if i + 2 <= input.len() && (input[i] == 80 || input[i] == 112) && (input[i + 1]
                == 77 || input[i + 1] == 109) {
                Option::Some((Parsed { period_pm: Option::Some(true), ..acc }, i + 2))
            } else {
                Option::None
            }
        },
        Component::OffsetHour { padding, sign_mandatory } => {
            match parse_sign_spec(input, i, sign_mandatory) {
                Option::Some((neg, i1)) => match parse_padded_spec(input, i1, padding, 2) {
                    Option::Some((v, i2)) => Option::Some(
                        (
                            Parsed {
                                offset_hour: Option::Some(v as u8),
                                offset_negative: Option::Some(neg),
                                ..acc
                            },
                            i2,
                        ),
                    ),
                    Option::None => Option::None,
                },
                Option::None => Option::None,
            }
        },
        Component::OffsetMinute { padding } => match parse_padded_spec(input, i, padding, 2) {
            Option::Some((v, j)) => Option::Some(
                (Parsed { offset_minute: Option::Some(v as u8), ..acc }, j),
            ),
            Option::None => Option::None,
        },
        Component::OffsetSecond { padding } => match parse_padded_spec(input, i, padding, 2) {
            Option::Some((v, j)) => Option::Some(
                (Parsed { offset_second: Option::Some(v as u8), ..acc }, j),
            ),
            Option::None => Option::None,
        },
    }
}

/// The result of consuming one token at `i`.
pub open spec fn parse_item_spec(item: FormatItem, input: Seq<u8>, i: int, acc: Parsed) -> Option<
    (Parsed, int),
> {
    match item {
        FormatItem::Literal(bytes) => {
            if i + bytes@.len() <= input.len() && input.subrange(i, i + bytes@.len()) == bytes@ {
                Option::Some((acc, i + bytes@.len()))
            } else {
                Option::None
            }
        },
        FormatItem::Component(c) => parse_component_spec(c, input, i, acc),
    }
}

/// The result of consuming a whole token sequence starting at `i`.
pub open spec fn parse_items_spec(
    items: Seq<FormatItem>,
    input: Seq<u8>,
    i: int,
    acc: Parsed,
) -> Option<(Parsed, int)>
    decreases items.len(),
{
    if items.len() == 0 {
        Option::Some((acc, i))
    } else {
        match parse_item_spec(items[0], input, i, acc) {
            Option::Some((acc2, i2)) => parse_items_spec(
                items.subrange(1, items.len() as int),
                input,
                i2,
                acc2,
            ),
            Option::None => Option::None,
        }
    }
}

/// Every digit run denotes a value below ten to its length.
pub proof fn lemma_digits_value_bound(s: Seq<u8>)
    requires
        all_digits(s),
    ensures
        0 <= digits_value(s) < pow10(s.len() as int),
    decreases s.len(),
{
    if s.len() == 0 {
    } else {
        assert(all_digits(s.drop_last())) by {
            assert(forall|k: int|
                0 <= k < s.len() - 1 ==> is_digit(#[trigger] s.drop_last()[k]) == is_digit(s[k]));
        }
        lemma_digits_value_bound(s.drop_last());
        assert(is_digit(s.last()));
        assert(digits_value(s) < pow10(s.len() as int)) by (nonlinear_arith)
            requires
                digits_value(s) == digits_value(s.drop_last()) * 10 + (s.last() - 48) && 0
                    <= digits_value(s.drop_last()) < pow10(s.len() - 1) && 48 <= s.last() <= 57
                    && pow10(s.len() as int) == 10 * pow10(s.len() - 1),
        ;
    }
}

/// Scans the digit run starting at `i`, capped at `max` digits.
fn scan_digits(b: &[u8], i: usize, max: usize) -> (j: usize)
    requires
        i <= b@.len(),
    ensures
        j == digit_run_end(b@, i as int, max as int),
        i <= j <= b@.len(),
        j - i <= max,
        all_digits(b@.subrange(i as int, j as int)),
    decreases max,
{
    if max == 0 || i == b.len() {
        proof {
            assert(b@.subrange(i as int, i as int) =~= Seq::<u8>::empty());
        }
        return i;
    }
    let c: u8 = b[i];
    if c < 48 || c > 57 {
        proof {
            assert(b@.subrange(i as int, i as int) =~= Seq::<u8>::empty());
        }
        return i;
    }
    let j = scan_digits(b, i + 1, max - 1);
    proof {
        let s = b@.subrange(i as int, j as int);
        assert(forall|k: int|
            i + 1 <= k < j ==> is_digit(#[trigger] b@[k]) == is_digit(
                b@.subrange(i + 1, j as int)[k - i - 1],
            ));
        assert(forall|k: int| 0 <= k < s.len() ==> s[k] == b@[i + k]);
    }
    j
}

/// Scans the space run starting at `i`, capped at `max` spaces.
fn scan_spaces(b: &[u8], i: usize, max: usize) -> (j: usize)
    requires
        i <= b@.len(),
    ensures
        j == space_run_end(b@, i as int, max as int),
        i <= j <= b@.len(),
        j - i <= max,
    decreases max,
{
    if max == 0 || i == b.len() {
        return i;
    }
    if b[i] != 32 {
        return i;
    }
    scan_spaces(b, i + 1, max - 1)
}

/// Reads the value of the digit run `i..j`.
fn digits_to_u32(b: &[u8], i: usize, j: usize) -> (v: u32)
    requires
        i <= j <= b@.len(),
        j - i <= 9,
        all_digits(b@.subrange(i as int, j as int)),
    ensures
        v == digits_value(b@.subrange(i as int, j as int)),
        v < 1_000_000_000,
{
    proof {
        reveal_with_fuel(pow10, 11);
    }
    let mut v: u32 = 0;
    let mut k: usize = i;
    while k < j
        invariant
            i <= k <= j <= b@.len(),
            j - i <= 9,
            all_digits(b@.subrange(i as int, j as int)),
            v == digits_value(b@.subrange(i as int, k as int)),
            v < pow10((k - i) as int),
            pow10(9) == 1_000_000_000,
        decreases j - k,
    {
        let d: u8 = b[k];
        proof {
            let s = b@.subrange(i as int, k + 1);
            assert(s.drop_last() =~= b@.subrange(i as int, k as int));
            assert(s.last() == b@[k as int]);
            assert(b@.subrange(i as int, j as int)[k - i] == b@[k as int]);
            assert(pow10((k + 1 - i) as int) == 10 * pow10((k - i) as int));
            assert(v * 10 + (d - 48) < pow10((k + 1 - i) as int)) by (nonlinear_arith)
                requires
                    v < pow10((k - i) as int) && 48 <= d <= 57 && pow10((k + 1 - i) as int) == 10
                        * pow10((k - i) as int),
            ;
            assert(pow10((k - i) as int) <= pow10(8)) by {
                lemma_pow10_increases((k - i) as int, 8);
            }
            assert(pow10(8) == 100_000_000);
        }
        v = v * 10 + (d - 48) as u32;
        k = k + 1;
    }
    proof {
        lemma_pow10_increases((j - i) as int, 9);
    }
    v
}

/// `pow10` is monotone.
proof fn lemma_pow10_increases(a: int, b: int)
    requires
        a <= b,
    ensures
        pow10(a) <= pow10(b),
    decreases b - a,
{
    if a < b {
        lemma_pow10_increases(a, b - 1);
        lemma_pow10_pos(b - 1);
    }
}

/// `pow10` is positive.
proof fn lemma_pow10_pos(k: int)
    ensures
        pow10(k) >= 1,
    decreases k,
{
    if k > 0 {
        lemma_pow10_pos(k - 1);
    }
}

/// Consumes a padded numeric field of width `w` at `i`, per
/// [`parse_padded_spec`].
fn parse_padded(b: &[u8], i: usize, pad: Padding, w: u8) -> (r: Option<(u32, usize)>)
    requires
        i <= b@.len(),
        1 <= w <= 9,
    ensures
        match r {
            Option::Some((v, j)) => parse_padded_spec(b@, i as int, pad, w as int)
                == Option::Some((v as int, j as int)) && i <= j <= b@.len() && v < 1_000_000_000
                && v < pow10(w as int),
            Option::None => parse_padded_spec(b@, i as int, pad, w as int) is None,
        },
{
    match pad {
        Padding::Zero => {
            let j = scan_digits(b, i, w as usize);
            if j - i == w as usize {
                let v = digits_to_u32(b, i, j);
                proof {
                    lemma_digits_value_bound(b@.subrange(i as int, j as int));
                }
                Some((v, j))
            } else {
                proof {
                    if i + w <= b@.len() && all_digits(b@.subrange(i as int, i + w)) {
                        lemma_digit_run_full(b@, i as int, w as int);
                        assert(false);
                    }
                }
                None
            }
        },
        Padding::Space => {
            let sp = scan_spaces(b, i, w as usize - 1);
            let j = scan_digits(b, sp, w as usize - (sp - i));
            if j > sp {
                let v = digits_to_u32(b, sp, j);
                proof {
                    lemma_digits_value_bound(b@.subrange(sp as int, j as int));
                    lemma_pow10_increases((j - sp) as int, w as int);
                }
                Some((v, j))
            } else {
                None
            }
        },
        Padding::Plain => {
            let j = scan_digits(b, i, w as usize);
            if j > i {
                let v = digits_to_u32(b, i, j);
                proof {
                    lemma_digits_value_bound(b@.subrange(i as int, j as int));
                    lemma_pow10_increases((j - i) as int, w as int);
                }
                Some((v, j))
            } else {
                None
            }
        },
    }
}

/// `pow10` splits over addition of exponents.
proof fn lemma_pow10_add(a: int, b: int)
    requires
        0 <= a,
        0 <= b,
    ensures
        pow10(a + b) == pow10(a) * pow10(b),
    decreases a,
{
    if a == 0 {
    } else {
        lemma_pow10_add(a - 1, b);
        assert(pow10(a + b) == pow10(a) * pow10(b)) by (nonlinear_arith)
            requires
                pow10(a + b) == 10 * pow10(a - 1 + b) && pow10(a - 1 + b) == pow10(a - 1) * pow10(b)
                    && pow10(a) == 10 * pow10(a - 1),
        ;
    }
}

/// Consumes an optional or mandatory sign at `i`, per [`parse_sign_spec`].
fn parse_sign(b: &[u8], i: usize, mandatory: bool) -> (r: Option<(bool, usize)>)
    requires
        i <= b@.len(),
    ensures
        match r {
            Option::Some((neg, j)) => parse_sign_spec(b@, i as int, mandatory) == Option::Some(
                (neg, j as int),
            ) && i <= j <= b@.len(),
            Option::None => parse_sign_spec(b@, i as int, mandatory) is None,
        },
{
    if i < b.len() && b[i] == 45 {
        Some((true, i + 1))
    } else if i < b.len() && b[i] == 43 {
        Some((false, i + 1))
    } else if mandatory {
        None
    } else {
        Some((false, i))
    }
}

/// Consumes one component at `i`, per [`parse_component_spec`].
#[verifier::rlimit(100)]
fn parse_component(b: &[u8], i: usize, c: Component, acc: Parsed) -> (r: Option<(Parsed, usize)>)
    requires
        i <= b@.len(),
        crate::format_description::component_wf(c),
    ensures
        match r {
            Option::Some((a2, j)) => parse_component_spec(c, b@, i as int, acc) == Option::Some(
                (a2, j as int),
            ) && i <= j <= b@.len(),
            Option::None => parse_component_spec(c, b@, i as int, acc) is None,
        },
{
    proof {
        reveal_with_fuel(pow10, 11);
    }
    match c {
        Component::Year { padding, sign_mandatory } => match parse_sign(b, i, sign_mandatory) {
            Option::Some((neg, i1)) => match parse_padded(b, i1, padding, 4) {
                Option::Some((v, i2)) => {
                    let year: i32 = if neg {
                        -(v as i32)
                    } else {
                        v as i32
                    };
                    Some((Parsed { year: Some(year), ..acc }, i2))
                },
                Option::None => None,
            },
            Option::None => None,
        },
        Component::Month { padding } => match parse_padded(b, i, padding, 2) {
            Option::Some((v, j)) => Some((Parsed { month: Some(v as u8), ..acc }, j)),
            Option::None => None,
        },
        Component::Day { padding } => match parse_padded(b, i, padding, 2) {
            Option::Some((v, j)) => Some((Parsed { day: Some(v as u8), ..acc }, j)),
            Option::None => None,
        },
        Component::Ordinal { padding } => match parse_padded(b, i, padding, 3) {
            Option::Some((v, j)) => Some((Parsed { ordinal: Some(v as u16), ..acc }, j)),
            Option::None => None,
        },
        Component::Hour { padding, is_12_hour_clock } => match parse_padded(b, i, padding, 2) {
            Option::Some((v, j)) => {
                if is_12_hour_clock {
                    Some((Parsed { hour_12: Some(v as u8), ..acc }, j))
                } else {
                    Some((Parsed { hour_24: Some(v as u8), ..acc }, j))
                }
            },
            Option::None => None,
        },
        Component::Minute { padding } => match parse_padded(b, i, padding, 2) {
            Option::Some((v, j)) => Some((Parsed { minute: Some(v as u8), ..acc }, j)),
            Option::None => None,
        },
        Component::Second { padding } => match parse_padded(b, i, padding, 2) {
            Option::Some((v, j)) => Some((Parsed { second: Some(v as u8), ..acc }, j)),
            Option::None => None,
        },
        Component::Subsecond { digits } => match digits {
            SubsecondDigits::Fixed(k) => match parse_padded(b, i, Padding::Zero, k) {
                Option::Some((v, j)) => {
                    let scale: u32 = crate::formatting::pow10_u32(9 - k);
                    proof {
                        lemma_pow10_add(k as int, 9 - k);
                        assert(v * scale < 1_000_000_000) by (nonlinear_arith)
                            requires
                                v < pow10(k as int) && scale == pow10(9 - k) && pow10(k as int)
                                    * pow10(9 - k) == pow10(9) && pow10(9) == 1_000_000_000 && scale
                                    >= 1,
                        ;
                    }
                    Some((Parsed { subsecond: Some(v * scale), ..acc }, j))
                },
                Option::None => None,
            },
            SubsecondDigits::OneOrMore => {
                let j = scan_digits(b, i, 9);
                if j > i {
                    let v = digits_to_u32(b, i, j);
                    let scale: u32 = crate::formatting::pow10_u32(9 - (j - i) as u8);
                    proof {
                        lemma_digits_value_bound(b@.subrange(i as int, j as int));
                        lemma_pow10_add((j - i) as int, 9 - (j - i));
                        assert(v * scale < 1_000_000_000) by (nonlinear_arith)
                            requires
                                v < pow10((j - i) as int) && scale == pow10(9 - (j - i)) && pow10(
                                    (j - i) as int,
                                ) * pow10(9 - (j - i)) == pow10(9) && pow10(9) == 1_000_000_000
                                    && scale >= 1,
                        ;
                    }
                    Some((Parsed { subsecond: Some(v * scale), ..acc }, j))
                } else {
                    None
                }
            },
        },
        Component::Period { uppercase } => {
            if b.len() - i >= 2 && (b[i] == 65 || b[i] == 97) && (b[i + 1] == 77 || b[i + 1]
                == 109) {
                Some((Parsed { period_pm: Some(false), ..acc }, i + 2))
            } else if b.len() - i >= 2 && (b[i] == 80 || b[i] == 112) && (b[i + 1] == 77 || b[i + 1]
                == 109) {
                Some((Parsed { period_pm: Some(true), ..acc }, i + 2))
            } else {
                None
            }
        },
        Component::OffsetHour { padding, sign_mandatory } => match parse_sign(
            b,
            i,
            sign_mandatory,
        ) {
            Option::Some((neg, i1)) => match parse_padded(b, i1, padding, 2) {
                Option::Some((v, i2)) => Some(
                    (
                        Parsed {
                            offset_hour: Some(v as u8),
                            offset_negative: Some(neg),
                            ..acc
                        },
                        i2,
                    ),
                ),
                Option::None => None,
            },
            Option::None => None,
        },
        Component::OffsetMinute { padding } => match parse_padded(b, i, padding, 2) {
            Option::Some((v, j)) => Some((Parsed { offset_minute: Some(v as u8), ..acc }, j)),
            Option::None => None,
        },
        Component::OffsetSecond { padding } => match parse_padded(b, i, padding, 2) {
            Option::Some((v, j)) => Some((Parsed { offset_second: Some(v as u8), ..acc }, j)),
            Option::None => None,
        },
    }
}

/// Matches a literal token at `i`: the input must carry exactly the
/// literal's bytes.
fn match_literal(b: &[u8], i: usize, lit: &Vec<u8>) -> (r: Option<usize>)
    requires
        i <= b@.len(),
    ensures
        match r {
            Option::Some(j) => j == i + lit@.len() && j <= b@.len() && b@.subrange(
                i as int,
                j as int,
            ) == lit@,
            Option::None => !(i + lit@.len() <= b@.len() && b@.subrange(
                i as int,
                i + lit@.len(),
            ) == lit@),
        },
{
    let m: usize = lit.len();
    let n: usize = b.len();
    if n - i < m {
        proof {
            assert(!(i + lit@.len() <= b@.len()));
        }
        return None;
    }
    let mut k: usize = 0;
    while k < m
        invariant
            k <= m,
            m == lit@.len(),
            n == b@.len(),
            i + m <= n,
            forall|t: int| 0 <= t < k ==> b@[i + t] == lit@[t],
        decreases m - k,
    {
        if b[i + k] != lit[k] {
            proof {
                assert(b@.subrange(i as int, i + lit@.len())[k as int] == b@[i + k]);
            }
            return None;
        }
        k = k + 1;
    }
    proof {
        assert(b@.subrange(i as int, i + lit@.len()) =~= lit@);
    }
    Some(i + m)
}

/// The name a component reports when its field cannot be read.
fn component_name(c: Component) -> (r: &'static str) {
    match c {
        Component::Year { .. } => "year",
        Component::Month { .. } => "month",
        Component::Day { .. } => "day",
        Component::Ordinal { .. } => "ordinal",
        Component::Hour { .. } => "hour",
        Component::Minute { .. } => "minute",
        Component::Second { .. } => "second",
        Component::Subsecond { .. } => "subsecond",
        Component::Period { .. } => "period",
        Component::OffsetHour { .. } => "offset_hour",
        Component::OffsetMinute { .. } => "offset_minute",
        Component::OffsetSecond { .. } => "offset_second",
    }
}

/// Walks the whole token sequence over the input, yielding the accumulator
/// and the index just past the last consumed byte.
pub fn run_parser(b: &[u8], items: &Vec<FormatItem>) -> (r: Result<
    (Parsed, usize),
    crate::error::Parse,
>)
    requires
        crate::format_description::items_wf(items@),
    ensures
        r matches Ok((acc, i)) ==> parse_items_spec(items@, b@, 0, Parsed::empty_spec())
            == Option::Some((acc, i as int)) && i <= b@.len(),
        r is Err <==> parse_items_spec(items@, b@, 0, Parsed::empty_spec()) is None,
        r matches Err(e) ==> (e == crate::error::Parse::InvalidLiteral || e matches crate::error::Parse::InvalidComponent(_)),
{
    let n: usize = items.len();
    let mut idx: usize = 0;
    let mut i: usize = 0;
    let mut acc: Parsed = Parsed::empty();
    proof {
        assert(items@.subrange(0, n as int) =~= items@);
    }
    while idx < n
        invariant
            idx <= n,
            n == items@.len(),
            i <= b@.len(),
            crate::format_description::items_wf(items@),
            parse_items_spec(items@, b@, 0, Parsed::empty_spec()) == parse_items_spec(
                items@.subrange(idx as int, n as int),
                b@,
                i as int,
                acc,
            ),
        decreases n - idx,
    {
        let ghost rest = items@.subrange(idx as int, n as int);
        proof {
            assert(rest[0] == items@[idx as int]);
            assert(rest.subrange(1, rest.len() as int) =~= items@.subrange(idx + 1, n as int));
        }
        let item = &items[idx];
        match item {
            FormatItem::Literal(bytes) => match match_literal(b, i, bytes) {
                Option::Some(j) => {
                    i = j;
                },
                Option::None => {
                    return Err(crate::error::Parse::InvalidLiteral);
                },
            },
            FormatItem::Component(c) => match parse_component(b, i, *c, acc) {
                Option::Some((a2, j)) => {
                    acc = a2;
                    i = j;
                },
                Option::None => {
                    return Err(crate::error::Parse::InvalidComponent(component_name(*c)));
                },
            },
        }
        idx = idx + 1;
    }
    proof {
        assert(items@.subrange(n as int, n as int) =~= Seq::<FormatItem>::empty());
    }
    Ok((acc, i))
}

/// The 24-hour clock value the accumulator implies: a 24-hour reading as
/// it stands, or a 12-hour reading combined with the AM/PM marker.
pub open spec fn eff_hour_24(acc: Parsed) -> Option<int> {
    match acc.hour_24 {
        Option::Some(h) => Option::Some(h as int),
        Option::None => match (acc.hour_12, acc.period_pm) {
            (Option::Some(h12), Option::Some(pm)) => Option::Some(
                if h12 == 12 {
                    if pm {
                        12int
                    } else {
                        0int
                    }
                } else if pm {
                    h12 + 12
                } else {
                    h12 as int
                },
            ),
            _ => Option::None,
        },
    }
}

/// The second the accumulator implies; absent fields default to zero.
pub open spec fn eff_second(acc: Parsed) -> int {
    match acc.second {
        Option::Some(s) => s as int,
        Option::None => 0,
    }
}

/// The nanosecond the accumulator implies; absent fields default to zero.
pub open spec fn eff_subsecond(acc: Parsed) -> int {
    match acc.subsecond {
        Option::Some(ns) => ns as int,
        Option::None => 0,
    }
}

/// The time of day the accumulator resolves to: an hour (on either clock)
/// and a minute are required, the rest defaults to zero, and every
/// component must be in range.
pub open spec fn resolved_time(acc: Parsed) -> Option<crate::time::Time> {
    match (eff_hour_24(acc), acc.minute) {
        (Option::Some(h), Option::Some(m)) => {
            let s = eff_second(acc);
            let ns = eff_subsecond(acc);
            if 0 <= h <= 23 && m <= 59 && s <= 59 && ns <= 999_999_999 {
                Option::Some(
                    crate::time::Time {
                        hour: h as u8,
                        minute: m,
                        second: s as u8,
                        nanosecond: ns as u32,
                    },
                )
            } else {
                Option::None
            }
        },
        _ => Option::None,
    }
}

/// The offset the accumulator resolves to, in whole seconds: the hour
/// field is required, minutes and seconds default to zero, and the sign
/// parsed with the hour applies to the whole offset.
pub open spec fn resolved_offset_secs(acc: Parsed) -> Option<int> {
    match acc.offset_hour {
        Option::Some(h) => {
            let neg = match acc.offset_negative {
                Option::Some(n) => n,
                Option::None => false,
            };
            let m = match acc.offset_minute {
                Option::Some(m) => m as int,
                Option::None => 0,
            };
            let s = match acc.offset_second {
                Option::Some(s) => s as int,
                Option::None => 0,
            };
            if h <= 23 && m <= 59 && s <= 59 {
                Option::Some(
                    if neg {
                        -(h * 3600 + m * 60 + s)
                    } else {
                        h * 3600 + m * 60 + s
                    },
                )
            } else {
                Option::None
            }
        },
        Option::None => Option::None,
    }
}

/// The date the accumulator resolves to: a year with a month and day, or a
/// year with a day-of-year ordinal; every component must be in range.
pub open spec fn resolved_date(acc: Parsed) -> Option<crate::date::Date> {
    match (acc.year, acc.month, acc.day) {
        (Option::Some(y), Option::Some(mo), Option::Some(d)) => {
            if crate::date::MIN_YEAR <= y <= crate::date::MAX_YEAR && 1 <= mo <= 12 && 1 <= d
                <= crate::date::days_in_month_spec(y as int, mo as int) {
                Option::Some(
                    crate::date::Date {
                        year: y,
                        ordinal: (crate::date::days_before_month_spec(y as int, mo as int)
                            + d) as u16,
                    },
                )
            } else {
                Option::None
            }
        },
        _ => match (acc.year, acc.ordinal) {
            (Option::Some(y), Option::Some(o)) => {
                if crate::date::MIN_YEAR <= y <= crate::date::MAX_YEAR && 1 <= o
                    <= crate::util::days_in_year_spec(y as int) {
                    Option::Some(crate::date::Date { year: y, ordinal: o })
                } else {
                    Option::None
                }
            },
            _ => Option::None,
        },
    }
}

/// Resolves the accumulator into a time of day, reporting a missing hour
/// or minute as insufficient information and an out-of-range component as
/// a range error.
pub fn resolve_time(acc: Parsed) -> (r: Result<crate::time::Time, crate::error::Parse>)
    ensures
        r is Ok <==> resolved_time(acc) is Some,
        r matches Ok(t) ==> resolved_time(acc) == Option::Some(t) && t.wf(),
        eff_hour_24(acc) is None || acc.minute is None ==> r == Err::<
            crate::time::Time,
            crate::error::Parse,
        >(crate::error::Parse::InsufficientInformation),
        r matches Err(e) ==> e == crate::error::Parse::InsufficientInformation || e matches crate::error::Parse::ComponentRange(
            _,
        ),
{
    let hour: u16 = match acc.hour_24 {
        Option::Some(h) => h as u16,
        Option::None => match (acc.hour_12, acc.period_pm) {
            (Option::Some(h12), Option::Some(pm)) => {
                if h12 == 12 {
                    if pm {
                        12
                    } else {
                        0
                    }
                } else if pm {
                    h12 as u16 + 12
                } else {
                    h12 as u16
                }
            },
            _ => {
                return Err(crate::error::Parse::InsufficientInformation);
            },
        },
    };
    let minute: u8 = match acc.minute {
        Option::Some(m) => m,
        Option::None => {
            return Err(crate::error::Parse::InsufficientInformation);
        },
    };
    if hour > 23 {
        return Err(
            crate::error::Parse::ComponentRange(
                crate::error::ComponentRange {
                    name: "hour",
                    minimum: 0,
                    maximum: 23,
                    value: hour as i64,
                    conditional_range: false,
                },
            ),
        );
    }
    let second: u8 = match acc.second {
        Option::Some(s) => s,
        Option::None => 0,
    };
    let subsecond: u32 = match acc.subsecond {
        Option::Some(ns) => ns,
        Option::None => 0,
    };
    match crate::time::Time::from_hms_nano(hour as u8, minute, second, subsecond) {
        Ok(t) => Ok(t),
        Err(e) => Err(crate::error::Parse::ComponentRange(e)),
    }
}

/// Resolves the accumulator into a UTC offset, reporting a missing hour
/// field as insufficient information and an out-of-range component as a
/// range error.
pub fn resolve_offset(acc: Parsed) -> (r: Result<
    crate::utc_offset::UtcOffset,
    crate::error::Parse,
>)
    ensures
        r is Ok <==> resolved_offset_secs(acc) is Some,
        r matches Ok(o) ==> o.wf() && resolved_offset_secs(acc) == Option::Some(
            o.total_seconds(),
        ),
        acc.offset_hour is None ==> r == Err::<
            crate::utc_offset::UtcOffset,
            crate::error::Parse,
        >(crate::error::Parse::InsufficientInformation),
        r matches Err(e) ==> e == crate::error::Parse::InsufficientInformation || e matches crate::error::Parse::ComponentRange(
            _,
        ),
{
    let h: u8 = match acc.offset_hour {
        Option::Some(h) => h,
        Option::None => {
            return Err(crate::error::Parse::InsufficientInformation);
        },
    };
    let neg: bool = match acc.offset_negative {
        Option::Some(n) => n,
        Option::None => false,
    };
    let m: u8 = match acc.offset_minute {
        Option::Some(m) => m,
        Option::None => 0,
    };
    let s: u8 = match acc.offset_second {
        Option::Some(s) => s,
        Option::None => 0,
    };
    if h > 23 {
        return Err(
            crate::error::Parse::ComponentRange(
                crate::error::ComponentRange {
                    name: "hours",
                    minimum: -23,
                    maximum: 23,
                    value: h as i64,
                    conditional_range: false,
                },
            ),
        );
    }
    if m > 59 {
        return Err(
            crate::error::Parse::ComponentRange(
                crate::error::ComponentRange {
                    name: "minutes",
                    minimum: -59,
                    maximum: 59,
                    value: m as i64,
                    conditional_range: false,
                },
            ),
        );
    }
    if s > 59 {
        return Err(
            crate::error::Parse::ComponentRange(
                crate::error::ComponentRange {
                    name: "seconds",
                    minimum: -59,
                    maximum: 59,
                    value: s as i64,
                    conditional_range: false,
                },
            ),
        );
    }
    if neg {
        Ok(
            crate::utc_offset::UtcOffset {
                hours: -(h as i8),
                minutes: -(m as i8),
                seconds: -(s as i8),
            },
        )
    } else {
        Ok(crate::utc_offset::UtcOffset { hours: h as i8, minutes: m as i8, seconds: s as i8 })
    }
}

/// Resolves the accumulator into a calendar date, preferring a
/// year-month-day reading over a year-ordinal one, reporting missing
/// components as insufficient information and out-of-range components as
/// range errors.
pub fn resolve_date(acc: Parsed) -> (r: Result<crate::date::Date, crate::error::Parse>)
    ensures
        r is Ok <==> resolved_date(acc) is Some,
        r matches Ok(d) ==> resolved_date(acc) == Option::Some(d) && d.wf() && d.in_bounds(),
        acc.year is None || (!(acc.month is Some && acc.day is Some) && acc.ordinal is None)
            ==> r == Err::<crate::date::Date, crate::error::Parse>(
            crate::error::Parse::InsufficientInformation,
        ),
        r matches Err(e) ==> e == crate::error::Parse::InsufficientInformation || e matches crate::error::Parse::ComponentRange(
            _,
        ),
{
    let year: i32 = match acc.year {
        Option::Some(y) => y,
        Option::None => {
            return Err(crate::error::Parse::InsufficientInformation);
        },
    };
    if let (Option::Some(month), Option::Some(day)) = (acc.month, acc.day) {
        match crate::date::Date::from_calendar_date(year, month, day) {
            Ok(d) => Ok(d),
            Err(e) => Err(crate::error::Parse::ComponentRange(e)),
        }
    } else if let Option::Some(ordinal) = acc.ordinal {
        match crate::date::Date::from_ordinal_date(year, ordinal) {
            Ok(d) => Ok(d),
            Err(e) => Err(crate::error::Parse::ComponentRange(e)),
        }
    } else {
        Err(crate::error::Parse::InsufficientInformation)
    }
}

// region: format/parse round trip
/// Every byte of a decimal rendering is a digit.
proof fn lemma_dec_digits_all(v: int)
    requires
        0 <= v,
    ensures
        all_digits(crate::util::dec_digits(v)),
        crate::util::dec_digits(v).len() >= 1,
    decreases v,
{
    vstd::arithmetic::div_mod::lemma_mod_division_less_than_divisor(v, 10);
    vstd::arithmetic::div_mod::lemma_fundamental_div_mod(v, 10);
    if v < 10 {
        assert(crate::util::dec_digits(v) =~= seq![(48 + v) as u8]);
    } else {
        vstd::arithmetic::div_mod::lemma_div_pos_is_pos(v, 10);
        lemma_dec_digits_all(v / 10);
        let prev = crate::util::dec_digits(v / 10);
        let whole = crate::util::dec_digits(v);
        assert(whole == prev.push((48 + v % 10) as u8));
        assert forall|k: int| 0 <= k < whole.len() implies is_digit(#[trigger] whole[k]) by {
            if k < prev.len() {
                assert(whole[k] == prev[k]);
            }
        }
    }
}

/// A run of zero bytes denotes the value zero.
proof fn lemma_zero_run_value(k: int)
    requires
        0 <= k,
    ensures
        digits_value(crate::formatting::byte_run(k, 48)) == 0,
        all_digits(crate::formatting::byte_run(k, 48)),
        crate::formatting::byte_run(k, 48).len() == k,
    decreases k,
{
    if k == 0 {
        assert(crate::formatting::byte_run(0, 48) =~= Seq::<u8>::empty());
    } else {
        lemma_zero_run_value(k - 1);
        let run = crate::formatting::byte_run(k, 48);
        assert(run.drop_last() =~= crate::formatting::byte_run(k - 1, 48));
        assert(run.last() == 48);
    }
}

/// Zeroes on the left of a digit run do not change its value.
proof fn lemma_leading_zeros_value(z: Seq<u8>, ds: Seq<u8>)
    requires
        all_digits(z),
        digits_value(z) == 0,
        forall|k: int| 0 <= k < z.len() ==> z[k] == 48,
    ensures
        digits_value(z + ds) == digits_value(ds),
    decreases ds.len(),
{
    if ds.len() == 0 {
        assert(z + ds =~= z);
    } else {
        assert((z + ds).drop_last() =~= z + ds.drop_last());
        assert((z + ds).last() == ds.last());
        lemma_leading_zeros_value(z, ds.drop_last());
    }
}

/// Reading back the decimal rendering of a value restores the value.
proof fn lemma_dec_digits_value(v: int)
    requires
        0 <= v,
    ensures
        digits_value(crate::util::dec_digits(v)) == v,
    decreases v,
{
    vstd::arithmetic::div_mod::lemma_mod_division_less_than_divisor(v, 10);
    vstd::arithmetic::div_mod::lemma_fundamental_div_mod(v, 10);
    if v < 10 {
        let s = crate::util::dec_digits(v);
        assert(s == seq![(48 + v) as u8]);
        assert(s.drop_last() =~= Seq::<u8>::empty());
        assert(digits_value(Seq::<u8>::empty()) == 0);
        assert(s.last() == (48 + v) as u8);
        assert(digits_value(s) == digits_value(s.drop_last()) * 10 + (s.last() - 48));
    } else {
        vstd::arithmetic::div_mod::lemma_div_pos_is_pos(v, 10);
        lemma_dec_digits_value(v / 10);
        let s = crate::util::dec_digits(v);
        assert(s.drop_last() =~= crate::util::dec_digits(v / 10));
        assert(s.last() == (48 + v % 10) as u8);
        assert(digits_value(s) == digits_value(s.drop_last()) * 10 + (s.last() - 48));
    }
}

/// A zero-padded rendering has exactly the requested width, consists of
/// digits alone, and reads back as the value it was rendered from: the
/// digit-level format/parse round trip.
pub proof fn lemma_padded_roundtrip(v: int, w: int)
    requires
        1 <= w,
        0 <= v < pow10(w),
    ensures
        crate::formatting::padded_digits(crate::format_description::Padding::Zero, w, v).len()
            == w,
        all_digits(crate::formatting::padded_digits(crate::format_description::Padding::Zero, w, v)),
        digits_value(
            crate::formatting::padded_digits(crate::format_description::Padding::Zero, w, v),
        ) == v,
{
    let ds = crate::util::dec_digits(v);
    let run = crate::formatting::byte_run(w - ds.len(), 48);
    lemma_dec_digits_all(v);
    lemma_dec_digits_value(v);
    crate::formatting::lemma_dec_digits_len_bound_pub(v, w);
    lemma_zero_run_value(w - ds.len());
    lemma_leading_zeros_value(run, ds);
    let whole = crate::formatting::padded_digits(crate::format_description::Padding::Zero, w, v);
    assert(whole == run + ds);
    assert forall|k: int| 0 <= k < whole.len() implies is_digit(#[trigger] whole[k]) by {
        if k < run.len() {
            assert(whole[k] == run[k]);
        } else {
            assert(whole[k] == ds[k - run.len()]);
        }
    }
}

/// Consuming a zero-padded field from an input that carries a zero-padded
/// rendering yields back the rendered value and stops just past it.
pub proof fn lemma_parse_padded_of_render(input: Seq<u8>, i: int, v: int, w: int)
    requires
        1 <= w,
        0 <= v < pow10(w),
        0 <= i,
        i + w <= input.len(),
        input.subrange(i, i + w) == crate::formatting::padded_digits(
            crate::format_description::Padding::Zero,
            w,
            v,
        ),
    ensures
        parse_padded_spec(input, i, crate::format_description::Padding::Zero, w)
            == Option::Some((v, i + w)),
{
    lemma_padded_roundtrip(v, w);
}

/// Whether a component reads back exactly what it renders for any
/// time-of-day: zero-padded fixed-width 24-hour components, with all nine
/// subsecond digits.
pub open spec fn lossless_time_component(c: Component) -> bool {
    match c {
        Component::Hour { padding, is_12_hour_clock } => padding == Padding::Zero
            && !is_12_hour_clock,
        Component::Minute { padding } => padding == Padding::Zero,
        Component::Second { padding } => padding == Padding::Zero,
        Component::Subsecond { digits } => digits == SubsecondDigits::Fixed(9u8),
        _ => false,
    }
}

/// Whether every token of a description is a literal or a lossless
/// time-of-day component.
pub open spec fn lossless_time_items(items: Seq<FormatItem>) -> bool {
    forall|k: int|
        0 <= k < items.len() ==> match #[trigger] items[k] {
            FormatItem::Literal(_) => true,
            FormatItem::Component(c) => lossless_time_component(c),
        }
}

/// Whether the description carries each time component at least once.
pub open spec fn has_hour_24(items: Seq<FormatItem>) -> bool {
    exists|k: int|
        0 <= k < items.len() && (#[trigger] items[k]) matches FormatItem::Component(
            Component::Hour { padding, is_12_hour_clock: false },
        )
}

pub open spec fn has_minute(items: Seq<FormatItem>) -> bool {
    exists|k: int|
        0 <= k < items.len() && (#[trigger] items[k]) matches FormatItem::Component(
            Component::Minute { padding },
        )
}

pub open spec fn has_second(items: Seq<FormatItem>) -> bool {
    exists|k: int|
        0 <= k < items.len() && (#[trigger] items[k]) matches FormatItem::Component(
            Component::Second { padding },
        )
}

pub open spec fn has_subsecond(items: Seq<FormatItem>) -> bool {
    exists|k: int|
        0 <= k < items.len() && (#[trigger] items[k]) matches FormatItem::Component(
            Component::Subsecond { digits },
        )
}

/// Whether a component reads back exactly what it renders for any
/// well-formed date, time, and offset: zero-padded fixed-width numeric
/// components on the 24-hour clock, with all nine subsecond digits. The
/// signed components may carry either sign policy.
pub open spec fn lossless_instant_component(c: Component) -> bool {
    match c {
        Component::Year { padding, sign_mandatory } => padding == Padding::Zero,
        Component::Month { padding } => padding == Padding::Zero,
        Component::Day { padding } => padding == Padding::Zero,
        Component::Hour { padding, is_12_hour_clock } => padding == Padding::Zero
            && !is_12_hour_clock,
        Component::Minute { padding } => padding == Padding::Zero,
        Component::Second { padding } => padding == Padding::Zero,
        Component::Subsecond { digits } => digits == SubsecondDigits::Fixed(9u8),
        Component::OffsetHour { padding, sign_mandatory } => padding == Padding::Zero,
        Component::OffsetMinute { padding } => padding == Padding::Zero,
        Component::OffsetSecond { padding } => padding == Padding::Zero,
        _ => false,
    }
}

/// Whether every token of a description is a literal or a lossless
/// component.
pub open spec fn lossless_instant_items(items: Seq<FormatItem>) -> bool {
    forall|k: int|
        0 <= k < items.len() ==> match #[trigger] items[k] {
            FormatItem::Literal(_) => true,
            FormatItem::Component(c) => lossless_instant_component(c),
        }
}

pub open spec fn has_year(items: Seq<FormatItem>) -> bool {
    exists|k: int|
        0 <= k < items.len() && (#[trigger] items[k]) matches FormatItem::Component(
            Component::Year { padding, sign_mandatory },
        )
}

pub open spec fn has_month(items: Seq<FormatItem>) -> bool {
    exists|k: int|
        0 <= k < items.len() && (#[trigger] items[k]) matches FormatItem::Component(
            Component::Month { padding },
        )
}

pub open spec fn has_day(items: Seq<FormatItem>) -> bool {
    exists|k: int|
        0 <= k < items.len() && (#[trigger] items[k]) matches FormatItem::Component(
            Component::Day { padding },
        )
}

pub open spec fn has_offset_hour(items: Seq<FormatItem>) -> bool {
    exists|k: int|
        0 <= k < items.len() && (#[trigger] items[k]) matches FormatItem::Component(
            Component::OffsetHour { padding, sign_mandatory },
        )
}

pub open spec fn has_offset_minute(items: Seq<FormatItem>) -> bool {
    exists|k: int|
        0 <= k < items.len() && (#[trigger] items[k]) matches FormatItem::Component(
            Component::OffsetMinute { padding },
        )
}

pub open spec fn has_offset_second(items: Seq<FormatItem>) -> bool {
    exists|k: int|
        0 <= k < items.len() && (#[trigger] items[k]) matches FormatItem::Component(
            Component::OffsetSecond { padding },
        )
}

/// The month number a date's month component renders.
pub open spec fn month_target(d: crate::date::Date) -> u8 {
    crate::date::month_of_ordinal_spec(d.year as int, d.ordinal as int) as u8
}

/// The day number a date's day component renders.
pub open spec fn day_target(d: crate::date::Date) -> u8 {
    (d.ordinal - crate::date::days_before_month_spec(
        d.year as int,
        crate::date::month_of_ordinal_spec(d.year as int, d.ordinal as int),
    )) as u8
}

/// The hour magnitude an offset's hour component renders.
pub open spec fn offset_hour_target(o: crate::utc_offset::UtcOffset) -> u8 {
    (if o.hours < 0 {
        -(o.hours as int)
    } else {
        o.hours as int
    }) as u8
}

/// The minute magnitude an offset's minute component renders.
pub open spec fn offset_minute_target(o: crate::utc_offset::UtcOffset) -> u8 {
    (if o.minutes < 0 {
        -(o.minutes as int)
    } else {
        o.minutes as int
    }) as u8
}

/// The second magnitude an offset's second component renders.
pub open spec fn offset_second_target(o: crate::utc_offset::UtcOffset) -> u8 {
    (if o.seconds < 0 {
        -(o.seconds as int)
    } else {
        o.seconds as int
    }) as u8
}

/// What one token of a lossless description records about the values it
/// renders.
spec fn absorb_item(
    item: FormatItem,
    d: Option<crate::date::Date>,
    t: Option<crate::time::Time>,
    o: Option<crate::utc_offset::UtcOffset>,
    acc: Parsed,
) -> Parsed {
    match item {
        FormatItem::Literal(_) => acc,
        FormatItem::Component(c) => match c {
            Component::Year { .. } => match d {
                Option::Some(dd) => Parsed { year: Option::Some(dd.year), ..acc },
                Option::None => acc,
            },
            Component::Month { .. } => match d {
                Option::Some(dd) => Parsed { month: Option::Some(month_target(dd)), ..acc },
                Option::None => acc,
            },
            Component::Day { .. } => match d {
                Option::Some(dd) => Parsed { day: Option::Some(day_target(dd)), ..acc },
                Option::None => acc,
            },
            Component::Hour { .. } => match t {
                Option::Some(tt) => Parsed { hour_24: Option::Some(tt.hour), ..acc },
                Option::None => acc,
            },
            Component::Minute { .. } => match t {
                Option::Some(tt) => Parsed { minute: Option::Some(tt.minute), ..acc },
                Option::None => acc,
            },
            Component::Second { .. } => match t {
                Option::Some(tt) => Parsed { second: Option::Some(tt.second), ..acc },
                Option::None => acc,
            },
            Component::Subsecond { .. } => match t {
                Option::Some(tt) => Parsed { subsecond: Option::Some(tt.nanosecond), ..acc },
                Option::None => acc,
            },
            Component::OffsetHour { .. } => match o {
                Option::Some(oo) => Parsed {
                    offset_hour: Option::Some(offset_hour_target(oo)),
                    offset_negative: Option::Some(oo.total_seconds() < 0),
                    ..acc
                },
                Option::None => acc,
            },
            Component::OffsetMinute { .. } => match o {
                Option::Some(oo) => Parsed {
                    offset_minute: Option::Some(offset_minute_target(oo)),
                    ..acc
                },
                Option::None => acc,
            },
            Component::OffsetSecond { .. } => match o {
                Option::Some(oo) => Parsed {
                    offset_second: Option::Some(offset_second_target(oo)),
                    ..acc
                },
                Option::None => acc,
            },
            _ => acc,
        },
    }
}

/// What a whole lossless description records about the values it renders.
spec fn absorb(
    items: Seq<FormatItem>,
    d: Option<crate::date::Date>,
    t: Option<crate::time::Time>,
    o: Option<crate::utc_offset::UtcOffset>,
    acc: Parsed,
) -> Parsed
    decreases items.len(),
{
    if items.len() == 0 {
        acc
    } else {
        absorb(
            items.subrange(1, items.len() as int),
            d,
            t,
            o,
            absorb_item(items[0], d, t, o, acc),
        )
    }
}

/// The fields a lossless description records: each component present in
/// the description takes the value it renders, everything else is left as
/// it was.
proof fn lemma_absorb_fields(
    items: Seq<FormatItem>,
    d: Option<crate::date::Date>,
    t: Option<crate::time::Time>,
    o: Option<crate::utc_offset::UtcOffset>,
    acc: Parsed,
)
    requires
        lossless_instant_items(items),
    ensures
        absorb(items, d, t, o, acc).year == if has_year(items) && d is Some {
            Option::Some(d.unwrap().year)
        } else {
            acc.year
        },
        absorb(items, d, t, o, acc).month == if has_month(items) && d is Some {
            Option::Some(month_target(d.unwrap()))
        } else {
            acc.month
        },
        absorb(items, d, t, o, acc).day == if has_day(items) && d is Some {
            Option::Some(day_target(d.unwrap()))
        } else {
            acc.day
        },
        absorb(items, d, t, o, acc).hour_24 == if has_hour_24(items) && t is Some {
            Option::Some(t.unwrap().hour)
        } else {
            acc.hour_24
        },
        absorb(items, d, t, o, acc).minute == if has_minute(items) && t is Some {
            Option::Some(t.unwrap().minute)
        } else {
            acc.minute
        },
        absorb(items, d, t, o, acc).second == if has_second(items) && t is Some {
            Option::Some(t.unwrap().second)
        } else {
            acc.second
        },
        absorb(items, d, t, o, acc).subsecond == if has_subsecond(items) && t is Some {
            Option::Some(t.unwrap().nanosecond)
        } else {
            acc.subsecond
        },
        absorb(items, d, t, o, acc).offset_hour == if has_offset_hour(items) && o is Some {
            Option::Some(offset_hour_target(o.unwrap()))
        } else {
            acc.offset_hour
        },
        absorb(items, d, t, o, acc).offset_negative == if has_offset_hour(items) && o is Some {
            Option::Some(o.unwrap().total_seconds() < 0)
        } else {
            acc.offset_negative
        },
        absorb(items, d, t, o, acc).offset_minute == if has_offset_minute(items) && o is Some {
            Option::Some(offset_minute_target(o.unwrap()))
        } else {
            acc.offset_minute
        },
        absorb(items, d, t, o, acc).offset_second == if has_offset_second(items) && o is Some {
            Option::Some(offset_second_target(o.unwrap()))
        } else {
            acc.offset_second
        },
        absorb(items, d, t, o, acc).hour_12 == acc.hour_12,
        absorb(items, d, t, o, acc).period_pm == acc.period_pm,
        absorb(items, d, t, o, acc).ordinal == acc.ordinal,
    decreases items.len(),
{
    if items.len() == 0 {
    } else {
        let rest = items.subrange(1, items.len() as int);
        assert(forall|k: int| 0 <= k < rest.len() ==> rest[k] == items[k + 1]);
        lemma_absorb_fields(rest, d, t, o, absorb_item(items[0], d, t, o, acc));
        assert(has_year(items) <==> (items[0] matches FormatItem::Component(
            Component::Year { padding, sign_mandatory },
        ) || has_year(rest))) by {
            if has_year(items) {
                let k = choose|k: int|
                    0 <= k < items.len() && (#[trigger] items[k]) matches FormatItem::Component(
                        Component::Year { padding, sign_mandatory },
                    );
                if k > 0 {
                    assert(rest[k - 1] == items[k]);
                }
            }
            if has_year(rest) {
                let k = choose|k: int|
                    0 <= k < rest.len() && (#[trigger] rest[k]) matches FormatItem::Component(
                        Component::Year { padding, sign_mandatory },
                    );
                assert(items[k + 1] == rest[k]);
            }
        }
        assert(has_month(items) <==> (items[0] matches FormatItem::Component(
            Component::Month { padding },
        ) || has_month(rest))) by {
            if has_month(items) {
                let k = choose|k: int|
                    0 <= k < items.len() && (#[trigger] items[k]) matches FormatItem::Component(
                        Component::Month { padding },
                    );
                if k > 0 {
                    assert(rest[k - 1] == items[k]);
                }
            }
            if has_month(rest) {
                let k = choose|k: int|
                    0 <= k < rest.len() && (#[trigger] rest[k]) matches FormatItem::Component(
                        Component::Month { padding },
                    );
                assert(items[k + 1] == rest[k]);
            }
        }
        assert(has_day(items) <==> (items[0] matches FormatItem::Component(
            Component::Day { padding },
        ) || has_day(rest))) by {
            if has_day(items) {
                let k = choose|k: int|
                    0 <= k < items.len() && (#[trigger] items[k]) matches FormatItem::Component(
                        Component::Day { padding },
                    );
                if k > 0 {
                    assert(rest[k - 1] == items[k]);
                }
            }
            if has_day(rest) {
                let k = choose|k: int|
                    0 <= k < rest.len() && (#[trigger] rest[k]) matches FormatItem::Component(
                        Component::Day { padding },
                    );
                assert(items[k + 1] == rest[k]);
            }
        }
        assert(has_hour_24(items) <==> (items[0] matches FormatItem::Component(
            Component::Hour { padding, is_12_hour_clock: false },
        ) || has_hour_24(rest))) by {
            if has_hour_24(items) {
                let k = choose|k: int|
                    0 <= k < items.len() && (#[trigger] items[k]) matches FormatItem::Component(
                        Component::Hour { padding, is_12_hour_clock: false },
                    );
                if k > 0 {
                    assert(rest[k - 1] == items[k]);
                }
            }
            if has_hour_24(rest) {
                let k = choose|k: int|
                    0 <= k < rest.len() && (#[trigger] rest[k]) matches FormatItem::Component(
                        Component::Hour { padding, is_12_hour_clock: false },
                    );
                assert(items[k + 1] == rest[k]);
            }
        }
        assert(has_minute(items) <==> (items[0] matches FormatItem::Component(
            Component::Minute { padding },
        ) || has_minute(rest))) by {
            if has_minute(items) {
                let k = choose|k: int|
                    0 <= k < items.len() && (#[trigger] items[k]) matches FormatItem::Component(
                        Component::Minute { padding },
                    );
                if k > 0 {
                    assert(rest[k - 1] == items[k]);
                }
            }
            if has_minute(rest) {
                let k = choose|k: int|
                    0 <= k < rest.len() && (#[trigger] rest[k]) matches FormatItem::Component(
                        Component::Minute { padding },
                    );
                assert(items[k + 1] == rest[k]);
            }
        }
        assert(has_second(items) <==> (items[0] matches FormatItem::Component(
            Component::Second { padding },
        ) || has_second(rest))) by {
            if has_second(items) {
                let k = choose|k: int|
                    0 <= k < items.len() && (#[trigger] items[k]) matches FormatItem::Component(
                        Component::Second { padding },
                    );
                if k > 0 {
                    assert(rest[k - 1] == items[k]);
                }
            }
            if has_second(rest) {
                let k = choose|k: int|
                    0 <= k < rest.len() && (#[trigger] rest[k]) matches FormatItem::Component(
                        Component::Second { padding },
                    );
                assert(items[k + 1] == rest[k]);
            }
        }
        assert(has_subsecond(items) <==> (items[0] matches FormatItem::Component(
            Component::Subsecond { digits },
        ) || has_subsecond(rest))) by {
            if has_subsecond(items) {
                let k = choose|k: int|
                    0 <= k < items.len() && (#[trigger] items[k]) matches FormatItem::Component(
                        Component::Subsecond { digits },
                    );
                if k > 0 {
                    assert(rest[k - 1] == items[k]);
                }
            }
            if has_subsecond(rest) {
                let k = choose|k: int|
                    0 <= k < rest.len() && (#[trigger] rest[k]) matches FormatItem::Component(
                        Component::Subsecond { digits },
                    );
                assert(items[k + 1] == rest[k]);
            }
        }
        assert(has_offset_hour(items) <==> (items[0] matches FormatItem::Component(
            Component::OffsetHour { padding, sign_mandatory },
        ) || has_offset_hour(rest))) by {
            if has_offset_hour(items) {
                let k = choose|k: int|
                    0 <= k < items.len() && (#[trigger] items[k]) matches FormatItem::Component(
                        Component::OffsetHour { padding, sign_mandatory },
                    );
                if k > 0 {
                    assert(rest[k - 1] == items[k]);
                }
            }
            if has_offset_hour(rest) {
                let k = choose|k: int|
                    0 <= k < rest.len() && (#[trigger] rest[k]) matches FormatItem::Component(
                        Component::OffsetHour { padding, sign_mandatory },
                    );
                assert(items[k + 1] == rest[k]);
            }
        }
        assert(has_offset_minute(items) <==> (items[0] matches FormatItem::Component(
            Component::OffsetMinute { padding },
        ) || has_offset_minute(rest))) by {
            if has_offset_minute(items) {
                let k = choose|k: int|
                    0 <= k < items.len() && (#[trigger] items[k]) matches FormatItem::Component(
                        Component::OffsetMinute { padding },
                    );
                if k > 0 {
                    assert(rest[k - 1] == items[k]);
                }
            }
            if has_offset_minute(rest) {
                let k = choose|k: int|
                    0 <= k < rest.len() && (#[trigger] rest[k]) matches FormatItem::Component(
                        Component::OffsetMinute { padding },
                    );
                assert(items[k + 1] == rest[k]);
            }
        }
        assert(has_offset_second(items) <==> (items[0] matches FormatItem::Component(
            Component::OffsetSecond { padding },
        ) || has_offset_second(rest))) by {
            if has_offset_second(items) {
                let k = choose|k: int|
                    0 <= k < items.len() && (#[trigger] items[k]) matches FormatItem::Component(
                        Component::OffsetSecond { padding },
                    );
                if k > 0 {
                    assert(rest[k - 1] == items[k]);
                }
            }
            if has_offset_second(rest) {
                let k = choose|k: int|
                    0 <= k < rest.len() && (#[trigger] rest[k]) matches FormatItem::Component(
                        Component::OffsetSecond { padding },
                    );
                assert(items[k + 1] == rest[k]);
            }
        }
    }
}

/// A lossless description renders whenever each kind of value it names is
/// at hand; in particular it always renders when all three are.
proof fn lemma_lossless_renders(
    items: Seq<FormatItem>,
    d: crate::date::Date,
    t: crate::time::Time,
    o: crate::utc_offset::UtcOffset,
)
    requires
        lossless_instant_items(items),
    ensures
        crate::formatting::render_items_spec(
            items,
            Option::Some(d),
            Option::Some(t),
            Option::Some(o),
        ) is Some,
    decreases items.len(),
{
    if items.len() > 0 {
        let rest = items.subrange(1, items.len() as int);
        assert(forall|k: int| 0 <= k < rest.len() ==> rest[k] == items[k + 1]);
        lemma_lossless_renders(rest, d, t, o);
    }
}

/// A lossless time-only description renders against any time of day.
proof fn lemma_lossless_time_renders(items: Seq<FormatItem>, t: crate::time::Time)
    requires
        lossless_time_items(items),
    ensures
        crate::formatting::render_items_spec(items, Option::None, Option::Some(t), Option::None) is Some,
    decreases items.len(),
{
    if items.len() > 0 {
        let rest = items.subrange(1, items.len() as int);
        assert(forall|k: int| 0 <= k < rest.len() ==> rest[k] == items[k + 1]);
        lemma_lossless_time_renders(rest, t);
    }
}

/// A signed zero-padded field parses its own rendering: the sign prefix
/// and the padded magnitude are consumed and read back exactly.
proof fn lemma_signed_field_roundtrip(
    input: Seq<u8>,
    i: int,
    negative: bool,
    mandatory: bool,
    mag: int,
    w: int,
)
    requires
        1 <= w,
        0 <= mag < pow10(w),
        0 <= i,
        ({
            let head = crate::formatting::sign_prefix(negative, mandatory)
                + crate::formatting::padded_digits(Padding::Zero, w, mag);
            i + head.len() <= input.len() && input.subrange(i, i + head.len()) == head
        }),
    ensures
        ({
            let sp = crate::formatting::sign_prefix(negative, mandatory);
            let head_len = sp.len() + w;
            &&& parse_sign_spec(input, i, mandatory) == Option::Some(
                (negative, i + sp.len() as int),
            )
            &&& parse_padded_spec(input, i + sp.len(), Padding::Zero, w) == Option::Some(
                (mag, i + head_len),
            )
            &&& crate::formatting::padded_digits(Padding::Zero, w, mag).len() == w
        }),
{
    let sp = crate::formatting::sign_prefix(negative, mandatory);
    let padded = crate::formatting::padded_digits(Padding::Zero, w, mag);
    let head = sp + padded;
    lemma_padded_roundtrip(mag, w);
    assert(input.subrange(i, i + head.len())[0] == input[i]);
    assert(input.subrange(i + sp.len(), i + sp.len() + w) =~= padded) by {
        assert(forall|k: int|
            0 <= k < w ==> input.subrange(i, i + head.len())[k + sp.len()] == #[trigger] input.subrange(
                i + sp.len(),
                i + sp.len() + w,
            )[k]);
    }
    if negative {
        assert(input[i] == 45);
    } else if mandatory {
        assert(input[i] == 43);
    } else {
        assert(input[i] == padded[0]);
        assert(is_digit(padded[0]));
    }
    lemma_parse_padded_of_render(input, i + sp.len(), mag, w);
}

/// A lossless component parses its own rendering: the rendered field is
/// consumed exactly and the rendered value is recorded.
#[verifier::rlimit(100)]
#[verifier::spinoff_prover]
proof fn lemma_component_roundtrip(
    c: Component,
    d: Option<crate::date::Date>,
    t: Option<crate::time::Time>,
    o: Option<crate::utc_offset::UtcOffset>,
    input: Seq<u8>,
    i: int,
    acc: Parsed,
)
    requires
        d matches Some(dd) ==> dd.wf() && dd.in_bounds(),
        t matches Some(tt) ==> tt.wf(),
        o matches Some(oo) ==> oo.wf(),
        lossless_instant_component(c),
        0 <= i,
        crate::formatting::render_component_spec(c, d, t, o) matches Some(head) && i + head.len()
            <= input.len() && input.subrange(i, i + head.len()) == head,
    ensures
        ({
            let head = crate::formatting::render_component_spec(c, d, t, o).unwrap();
            parse_component_spec(c, input, i, acc) == Option::Some(
                (absorb_item(FormatItem::Component(c), d, t, o, acc), i + head.len()),
            )
        }),
{
    let head = crate::formatting::render_component_spec(c, d, t, o).unwrap();
    reveal_with_fuel(pow10, 11);
    match c {
        Component::Year { padding, sign_mandatory } => {
            let dd = d.unwrap();
            let y = dd.year as int;
            lemma_signed_field_roundtrip(
                input,
                i,
                y < 0,
                sign_mandatory,
                if y < 0 {
                    -y
                } else {
                    y
                },
                4,
            );
            assert(parse_component_spec(c, input, i, acc) == Option::Some(
                (absorb_item(FormatItem::Component(c), d, t, o, acc), i + head.len()),
            ));
        },
        Component::Month { padding } => {
            lemma_padded_roundtrip(month_target(d.unwrap()) as int, 2);
            lemma_parse_padded_of_render(input, i, month_target(d.unwrap()) as int, 2);
            assert(parse_component_spec(c, input, i, acc) == Option::Some(
                (absorb_item(FormatItem::Component(c), d, t, o, acc), i + head.len()),
            ));
        },
        Component::Day { padding } => {
            let dd = d.unwrap();
            crate::date::lemma_calendar_parts(dd.year as int, dd.ordinal as int);
            lemma_padded_roundtrip(day_target(dd) as int, 2);
            lemma_parse_padded_of_render(input, i, day_target(dd) as int, 2);
            assert(parse_component_spec(c, input, i, acc) == Option::Some(
                (absorb_item(FormatItem::Component(c), d, t, o, acc), i + head.len()),
            ));
        },
        Component::Hour { padding, is_12_hour_clock } => {
            let tt = t.unwrap();
            assert(head == crate::formatting::padded_digits(Padding::Zero, 2, tt.hour as int));
            lemma_padded_roundtrip(tt.hour as int, 2);
            lemma_parse_padded_of_render(input, i, tt.hour as int, 2);
            assert(parse_component_spec(c, input, i, acc) == Option::Some(
                (absorb_item(FormatItem::Component(c), d, t, o, acc), i + head.len()),
            ));
        },
        Component::Minute { padding } => {
            lemma_padded_roundtrip(t.unwrap().minute as int, 2);
            lemma_parse_padded_of_render(input, i, t.unwrap().minute as int, 2);
            assert(parse_component_spec(c, input, i, acc) == Option::Some(
                (absorb_item(FormatItem::Component(c), d, t, o, acc), i + head.len()),
            ));
        },
        Component::Second { padding } => {
            lemma_padded_roundtrip(t.unwrap().second as int, 2);
            lemma_parse_padded_of_render(input, i, t.unwrap().second as int, 2);
            assert(parse_component_spec(c, input, i, acc) == Option::Some(
                (absorb_item(FormatItem::Component(c), d, t, o, acc), i + head.len()),
            ));
        },
        Component::Subsecond { digits } => {
            let tt = t.unwrap();
            assert(tt.nanosecond as int / pow10(0) == tt.nanosecond) by {
                vstd::arithmetic::div_mod::lemma_fundamental_div_mod_converse(
                    tt.nanosecond as int,
                    1,
                    tt.nanosecond as int,
                    0,
                );
            }
            lemma_padded_roundtrip(tt.nanosecond as int, 9);
            lemma_parse_padded_of_render(input, i, tt.nanosecond as int, 9);
            assert(subsec_scale(tt.nanosecond as int, 9) == tt.nanosecond);
            assert(parse_component_spec(c, input, i, acc) == Option::Some(
                (absorb_item(FormatItem::Component(c), d, t, o, acc), i + head.len()),
            ));
        },
        Component::OffsetHour { padding, sign_mandatory } => {
            let oo = o.unwrap();
            lemma_signed_field_roundtrip(
                input,
                i,
                oo.total_seconds() < 0,
                sign_mandatory,
                offset_hour_target(oo) as int,
                2,
            );
            assert(parse_component_spec(c, input, i, acc) == Option::Some(
                (absorb_item(FormatItem::Component(c), d, t, o, acc), i + head.len()),
            ));
        },
        Component::OffsetMinute { padding } => {
            lemma_padded_roundtrip(offset_minute_target(o.unwrap()) as int, 2);
            lemma_parse_padded_of_render(input, i, offset_minute_target(o.unwrap()) as int, 2);
            assert(parse_component_spec(c, input, i, acc) == Option::Some(
                (absorb_item(FormatItem::Component(c), d, t, o, acc), i + head.len()),
            ));
        },
        Component::OffsetSecond { padding } => {
            lemma_padded_roundtrip(offset_second_target(o.unwrap()) as int, 2);
            lemma_parse_padded_of_render(input, i, offset_second_target(o.unwrap()) as int, 2);
            assert(parse_component_spec(c, input, i, acc) == Option::Some(
                (absorb_item(FormatItem::Component(c), d, t, o, acc), i + head.len()),
            ));
        },
        _ => {
            assert(false);
        },
    }
}

/// Parsing an input that carries the rendering of a lossless description
/// consumes exactly the rendering and records exactly the rendered
/// component values.
#[verifier::rlimit(100)]
proof fn lemma_roundtrip_step(
    items: Seq<FormatItem>,
    d: Option<crate::date::Date>,
    t: Option<crate::time::Time>,
    o: Option<crate::utc_offset::UtcOffset>,
    input: Seq<u8>,
    i: int,
    acc: Parsed,
)
    requires
        d matches Some(dd) ==> dd.wf() && dd.in_bounds(),
        t matches Some(tt) ==> tt.wf(),
        o matches Some(oo) ==> oo.wf(),
        lossless_instant_items(items),
        0 <= i,
        crate::formatting::render_items_spec(items, d, t, o) matches Some(rendered) && i
            + rendered.len() <= input.len() && input.subrange(i, i + rendered.len()) == rendered,
    ensures
        ({
            let rendered = crate::formatting::render_items_spec(items, d, t, o).unwrap();
            parse_items_spec(items, input, i, acc) == Option::Some(
                (absorb(items, d, t, o, acc), i + rendered.len()),
            )
        }),
    decreases items.len(),
{
    let rendered = crate::formatting::render_items_spec(items, d, t, o).unwrap();
    if items.len() == 0 {
        assert(rendered =~= Seq::<u8>::empty());
    } else {
        let rest = items.subrange(1, items.len() as int);
        assert(forall|k: int| 0 <= k < rest.len() ==> rest[k] == items[k + 1]);
        let head_r = crate::formatting::render_item_spec(items[0], d, t, o).unwrap();
        let rest_r = crate::formatting::render_items_spec(rest, d, t, o).unwrap();
        assert(rendered == head_r + rest_r);
        assert(input.subrange(i, i + head_r.len()) =~= head_r) by {
            assert(forall|k: int|
                0 <= k < head_r.len() ==> input.subrange(i, i + rendered.len())[k] == #[trigger] input.subrange(
                    i,
                    i + head_r.len(),
                )[k]);
        }
        assert(input.subrange(i + head_r.len(), i + rendered.len()) =~= rest_r) by {
            assert(forall|k: int|
                0 <= k < rest_r.len() ==> input.subrange(i, i + rendered.len())[k + head_r.len()]
                    == #[trigger] input.subrange(i + head_r.len(), i + rendered.len())[k]);
        }
        match items[0] {
            FormatItem::Literal(bytes) => {
                assert(parse_item_spec(items[0], input, i, acc) == Option::Some(
                    (acc, i + bytes@.len()),
                ));
            },
            FormatItem::Component(c) => {
                lemma_component_roundtrip(c, d, t, o, input, i, acc);
            },
        }
        lemma_roundtrip_step(rest, d, t, o, input, i + head_r.len(), absorb_item(items[0], d, t, o, acc));
    }
}

/// Format/parse round trip for times of day: rendering a time against a
/// lossless description (zero-padded fixed-width 24-hour components, all
/// nine subsecond digits) and parsing the rendering back restores the
/// time exactly, consuming the whole rendering.
pub proof fn lemma_format_parse_roundtrip(items: Seq<FormatItem>, t: crate::time::Time)
    requires
        t.wf(),
        lossless_time_items(items),
        has_hour_24(items),
        has_minute(items),
        has_second(items),
        has_subsecond(items),
    ensures
        ({
            let rendered = crate::formatting::render_items_spec(
                items,
                Option::None,
                Option::Some(t),
                Option::None,
            );
            &&& rendered is Some
            &&& parse_items_spec(items, rendered.unwrap(), 0, Parsed::empty_spec())
                matches Some(p) && p.1 == rendered.unwrap().len() && resolved_time(p.0)
                == Option::Some(t)
        }),
{
    lemma_lossless_time_renders(items, t);
    let rendered = crate::formatting::render_items_spec(
        items,
        Option::None,
        Option::Some(t),
        Option::None,
    ).unwrap();
    assert(rendered.subrange(0, rendered.len() as int) =~= rendered);
    assert(lossless_instant_items(items)) by {
        assert(forall|k: int|
            0 <= k < items.len() ==> match #[trigger] items[k] {
                FormatItem::Literal(_) => true,
                FormatItem::Component(c) => lossless_instant_component(c),
            });
    }
    lemma_roundtrip_step(
        items,
        Option::None,
        Option::Some(t),
        Option::None,
        rendered,
        0,
        Parsed::empty_spec(),
    );
    lemma_absorb_fields(items, Option::None, Option::Some(t), Option::None, Parsed::empty_spec());
    let p = absorb(items, Option::None, Option::Some(t), Option::None, Parsed::empty_spec());
    assert(resolved_time(p) matches Some(t2) && t2 == t);
}

/// Format/parse round trip for offset datetimes: rendering a date, a
/// time, and an offset against a lossless description naming all their
/// components, then parsing the rendering back, consumes the whole
/// rendering and resolves to exactly the same date, time, and offset
/// total.
pub proof fn lemma_format_parse_roundtrip_instant(
    items: Seq<FormatItem>,
    d: crate::date::Date,
    t: crate::time::Time,
    o: crate::utc_offset::UtcOffset,
)
    requires
        d.wf(),
        d.in_bounds(),
        t.wf(),
        o.wf(),
        lossless_instant_items(items),
        has_year(items),
        has_month(items),
        has_day(items),
        has_hour_24(items),
        has_minute(items),
        has_second(items),
        has_subsecond(items),
        has_offset_hour(items),
        has_offset_minute(items),
        has_offset_second(items),
    ensures
        ({
            let rendered = crate::formatting::render_items_spec(
                items,
                Option::Some(d),
                Option::Some(t),
                Option::Some(o),
            );
            &&& rendered is Some
            &&& parse_items_spec(items, rendered.unwrap(), 0, Parsed::empty_spec())
                matches Some(p) && p.1 == rendered.unwrap().len() && resolved_date(p.0)
                == Option::Some(d) && resolved_time(p.0) == Option::Some(t) && resolved_offset_secs(
                p.0,
            ) == Option::Some(o.total_seconds())
        }),
{
    lemma_lossless_renders(items, d, t, o);
    let rendered = crate::formatting::render_items_spec(
        items,
        Option::Some(d),
        Option::Some(t),
        Option::Some(o),
    ).unwrap();
    assert(rendered.subrange(0, rendered.len() as int) =~= rendered);
    lemma_roundtrip_step(
        items,
        Option::Some(d),
        Option::Some(t),
        Option::Some(o),
        rendered,
        0,
        Parsed::empty_spec(),
    );
    lemma_absorb_fields(
        items,
        Option::Some(d),
        Option::Some(t),
        Option::Some(o),
        Parsed::empty_spec(),
    );
    let p = absorb(
        items,
        Option::Some(d),
        Option::Some(t),
        Option::Some(o),
        Parsed::empty_spec(),
    );
    crate::date::lemma_calendar_parts(d.year as int, d.ordinal as int);
    assert(resolved_date(p) matches Some(d2) && d2 == d);
    assert(resolved_time(p) matches Some(t2) && t2 == t);
    assert(resolved_offset_secs(p) == Option::Some(o.total_seconds()));
}

/// A full-width all-digit window is scanned to its end.
proof fn lemma_digit_run_full(input: Seq<u8>, i: int, w: int)
    requires
        0 <= i,
        0 <= w,
        i + w <= input.len(),
        all_digits(input.subrange(i, i + w)),
    ensures
        digit_run_end(input, i, w) == i + w,
    decreases w,
{
    if w > 0 {
        assert(is_digit(input[i])) by {
            assert(input.subrange(i, i + w)[0] == input[i]);
        }
        assert(all_digits(input.subrange(i + 1, i + 1 + (w - 1)))) by {
            assert(forall|k: int|
                0 <= k < w - 1 ==> #[trigger] input.subrange(i + 1, i + w)[k] == input.subrange(
                    i,
                    i + w,
                )[k + 1]);
        }
        lemma_digit_run_full(input, i + 1, w - 1);
    }
}

} // verus!
