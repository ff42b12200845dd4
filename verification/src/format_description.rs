//! The format-description language and its compiler.
//!
//! Text outside brackets is copied literally; `[[` escapes a literal `[`;
//! inside brackets a component name is followed by space-separated
//! `key:value` modifiers. Compilation is a pure function of the input text
//! and yields an immutable token sequence shared by formatting and parsing.

use vstd::prelude::*;

use crate::error::InvalidFormatDescription;
use vstd::string::StringSliceAdditionalSpecFns;

verus! {

/// How a numeric component is padded to its full width.
#[derive(Clone, Copy, Debug, PartialEq, Eq, Structural)]
pub enum Padding {
    /// Pad with leading zeroes.
    Zero,
    /// Pad with leading spaces.
    Space,
    /// Emit the bare digits without padding.
    Plain,
}

/// How many digits a subsecond component carries.
#[derive(Clone, Copy, Debug, PartialEq, Eq, Structural)]
pub enum SubsecondDigits {
    /// Exactly this many digits, `1..=9`.
    Fixed(u8),
    /// As many digits as needed, dropping trailing zero groups.
    OneOrMore,
}

/// A named component of a format description, with its modifiers.
#[derive(Clone, Copy, Debug, PartialEq, Eq, Structural)]
pub enum Component {
    /// Calendar year, four digits plus a sign.
    Year { padding: Padding, sign_mandatory: bool },
    /// Month of the year, two digits.
    Month { padding: Padding },
    /// Day of the month, two digits.
    Day { padding: Padding },
    /// Day of the year, three digits.
    Ordinal { padding: Padding },
    /// Clock hour, two digits, on a 24-hour or 12-hour clock.
    Hour { padding: Padding, is_12_hour_clock: bool },
    /// Minute of the hour, two digits.
    Minute { padding: Padding },
    /// Second of the minute, two digits.
    Second { padding: Padding },
    /// Fraction of the second.
    Subsecond { digits: SubsecondDigits },
    /// AM/PM marker.
    Period { uppercase: bool },
    /// Whole hours of a UTC offset, two digits plus a sign.
    OffsetHour { padding: Padding, sign_mandatory: bool },
    /// Minutes past the offset hour, two digits.
    OffsetMinute { padding: Padding },
    /// Seconds past the offset minute, two digits.
    OffsetSecond { padding: Padding },
}

/// One token of a compiled format description.
#[derive(Clone, Debug, PartialEq, Eq)]
pub enum FormatItem {
    /// Bytes copied to the output (and matched against the input) as they
    /// stand.
    Literal(Vec<u8>),
    /// A named component.
    Component(Component),
}

/// Whether a subsecond width is in its valid range.
pub open spec fn subsecond_digits_wf(d: SubsecondDigits) -> bool {
    match d {
        SubsecondDigits::Fixed(k) => 1 <= k <= 9,
        SubsecondDigits::OneOrMore => true,
    }
}

/// Whether a component's modifiers are in range.
pub open spec fn component_wf(c: Component) -> bool {
    match c {
        Component::Subsecond { digits } => subsecond_digits_wf(digits),
        _ => true,
    }
}

/// Whether an item is well-formed.
pub open spec fn item_wf(item: FormatItem) -> bool {
    match item {
        FormatItem::Literal(_) => true,
        FormatItem::Component(c) => component_wf(c),
    }
}

/// Whether every item of a description is well-formed.
pub open spec fn items_wf(items: Seq<FormatItem>) -> bool {
    forall|i: int| 0 <= i < items.len() ==> item_wf(#[trigger] items[i])
}

/// A compiled token as the specification sees it: literal bytes as a
/// sequence, or a component. [`FormatItem`] values abstract to this by
/// [`token_view`].
pub enum TokenView {
    /// Bytes copied verbatim.
    Literal(Seq<u8>),
    /// A named component.
    Component(Component),
}

/// The abstraction of one compiled token.
pub open spec fn token_view(item: FormatItem) -> TokenView {
    match item {
        FormatItem::Literal(bytes) => TokenView::Literal(bytes@),
        FormatItem::Component(c) => TokenView::Component(c),
    }
}

/// The abstraction of a compiled token sequence.
pub open spec fn tokens_view(items: Seq<FormatItem>) -> Seq<TokenView> {
    items.map_values(|item: FormatItem| token_view(item))
}

/// The first index at or after `i` holding `:`, `]`, or a space, or the
/// end of the text: where the word starting at `i` ends.
pub open spec fn word_end_spec(s: Seq<u8>, i: int) -> int
    decreases s.len() - i,
{
    if i < 0 || i >= s.len() || s[i] == 58 || s[i] == 93 || s[i] == 32 {
        i
    } else {
        word_end_spec(s, i + 1)
    }
}

/// A word's end lies between its start and the end of the text.
proof fn lemma_word_end_bounds(s: Seq<u8>, i: int)
    requires
        0 <= i <= s.len(),
    ensures
        i <= word_end_spec(s, i) <= s.len(),
    decreases s.len() - i,
{
    if !(i >= s.len() || s[i] == 58 || s[i] == 93 || s[i] == 32) {
        lemma_word_end_bounds(s, i + 1);
    }
}

/// The modifier state a bracket starts with: zero padding, automatic
/// sign, 24-hour clock, uppercase period, adaptive subsecond width, and
/// no key seen yet.
pub open spec fn initial_modifiers() -> Modifiers {
    Modifiers {
        padding: Padding::Zero,
        sign_mandatory: false,
        is_12_hour_clock: false,
        uppercase: true,
        digits: SubsecondDigits::OneOrMore,
        sign_at: Option::None,
        repr_at: Option::None,
        case_at: Option::None,
        digits_at: Option::None,
    }
}

/// The effect of one `key:value` pair on the modifier state, or the
/// error for an unknown key or value.
pub open spec fn apply_modifier_spec(
    s: Seq<u8>,
    key_start: int,
    key_end: int,
    val_start: int,
    val_end: int,
    m: Modifiers,
) -> Result<Modifiers, InvalidFormatDescription> {
    let key = s.subrange(key_start, key_end);
    let value = s.subrange(val_start, val_end);
    if key == "padding".spec_bytes() {
        if value == "zero".spec_bytes() {
            Ok(Modifiers { padding: Padding::Zero, ..m })
        } else if value == "space".spec_bytes() {
            Ok(Modifiers { padding: Padding::Space, ..m })
        } else if value == "none".spec_bytes() {
            Ok(Modifiers { padding: Padding::Plain, ..m })
        } else {
            Err(InvalidFormatDescription::InvalidModifier(key_start as usize))
        }
    } else if key == "sign".spec_bytes() {
        if value == "mandatory".spec_bytes() {
            Ok(Modifiers { sign_mandatory: true, sign_at: Option::Some(key_start as usize), ..m })
        } else if value == "automatic".spec_bytes() {
            Ok(Modifiers { sign_mandatory: false, sign_at: Option::Some(key_start as usize), ..m })
        } else {
            Err(InvalidFormatDescription::InvalidModifier(key_start as usize))
        }
    } else if key == "repr".spec_bytes() {
        if value == "24".spec_bytes() {
            Ok(
                Modifiers {
                    is_12_hour_clock: false,
                    repr_at: Option::Some(key_start as usize),
                    ..m
                },
            )
        } else if value == "12".spec_bytes() {
            Ok(
                Modifiers {
                    is_12_hour_clock: true,
                    repr_at: Option::Some(key_start as usize),
                    ..m
                },
            )
        } else {
            Err(InvalidFormatDescription::InvalidModifier(key_start as usize))
        }
    } else if key == "case".spec_bytes() {
        if value == "upper".spec_bytes() {
            Ok(Modifiers { uppercase: true, case_at: Option::Some(key_start as usize), ..m })
        } else if value == "lower".spec_bytes() {
            Ok(Modifiers { uppercase: false, case_at: Option::Some(key_start as usize), ..m })
        } else {
            Err(InvalidFormatDescription::InvalidModifier(key_start as usize))
        }
    } else if key == "digits".spec_bytes() {
        if value == "1+".spec_bytes() {
            Ok(
                Modifiers {
                    digits: SubsecondDigits::OneOrMore,
                    digits_at: Option::Some(key_start as usize),
                    ..m
                },
            )
        } else if val_end - val_start == 1 && 49 <= s[val_start] <= 57 {
            Ok(
                Modifiers {
                    digits: SubsecondDigits::Fixed((s[val_start] - 48) as u8),
                    digits_at: Option::Some(key_start as usize),
                    ..m
                },
            )
        } else {
            Err(InvalidFormatDescription::InvalidModifier(key_start as usize))
        }
    } else {
        Err(InvalidFormatDescription::InvalidModifier(key_start as usize))
    }
}

/// The modifier state after consuming the space-separated `key:value`
/// pairs from `j` up to the closing bracket, and the bracket's index; or
/// the error for a malformed pair or a bracket left unclosed.
pub open spec fn scan_modifiers_spec(s: Seq<u8>, open: int, j: int, m: Modifiers) -> Result<
    (Modifiers, int),
    InvalidFormatDescription,
>
    decreases s.len() - j,
    when 0 <= j <= s.len()
    via scan_modifiers_spec_decreases
{
    if j >= s.len() {
        Err(InvalidFormatDescription::UnclosedBracket(open as usize))
    } else if s[j] == 93 {
        Ok((m, j))
    } else if s[j] == 32 {
        scan_modifiers_spec(s, open, j + 1, m)
    } else if s[j] == 58 {
        Err(InvalidFormatDescription::InvalidModifier(j as usize))
    } else {
        let key_end = word_end_spec(s, j);
        if key_end >= s.len() || s[key_end] != 58 {
            Err(InvalidFormatDescription::InvalidModifier(j as usize))
        } else {
            let val_start = key_end + 1;
            let val_end = word_end_spec(s, val_start);
            match apply_modifier_spec(s, j, key_end, val_start, val_end, m) {
                Ok(m2) => scan_modifiers_spec(s, open, val_end, m2),
                Err(e) => Err(e),
            }
        }
    }
}

/// The component a bracket names, with its gathered modifiers applied, or
/// the error for an unknown name or a modifier whose key does not apply
/// to it.
pub open spec fn component_for_spec(
    s: Seq<u8>,
    name_start: int,
    name_end: int,
    m: Modifiers,
) -> Result<Component, InvalidFormatDescription> {
    let name = s.subrange(name_start, name_end);
    let signed = name == "year".spec_bytes() || name == "offset_hour".spec_bytes();
    if !signed && m.sign_at is Some {
        Err(InvalidFormatDescription::InvalidModifier(m.sign_at.unwrap()))
    } else if name != "hour".spec_bytes() && m.repr_at is Some {
        Err(InvalidFormatDescription::InvalidModifier(m.repr_at.unwrap()))
    } else if name != "period".spec_bytes() && m.case_at is Some {
        Err(InvalidFormatDescription::InvalidModifier(m.case_at.unwrap()))
    } else if name != "subsecond".spec_bytes() && m.digits_at is Some {
        Err(InvalidFormatDescription::InvalidModifier(m.digits_at.unwrap()))
    } else if name == "year".spec_bytes() {
        Ok(Component::Year { padding: m.padding, sign_mandatory: m.sign_mandatory })
    } else if name == "month".spec_bytes() {
        Ok(Component::Month { padding: m.padding })
    } else if name == "day".spec_bytes() {
        Ok(Component::Day { padding: m.padding })
    } else if name == "ordinal".spec_bytes() {
        Ok(Component::Ordinal { padding: m.padding })
    } else if name == "hour".spec_bytes() {
        Ok(Component::Hour { padding: m.padding, is_12_hour_clock: m.is_12_hour_clock })
    } else if name == "minute".spec_bytes() {
        Ok(Component::Minute { padding: m.padding })
    } else if name == "second".spec_bytes() {
        Ok(Component::Second { padding: m.padding })
    } else if name == "subsecond".spec_bytes() {
        Ok(Component::Subsecond { digits: m.digits })
    } else if name == "period".spec_bytes() {
        Ok(Component::Period { uppercase: m.uppercase })
    } else if name == "offset_hour".spec_bytes() {
        Ok(Component::OffsetHour { padding: m.padding, sign_mandatory: m.sign_mandatory })
    } else if name == "offset_minute".spec_bytes() {
        Ok(Component::OffsetMinute { padding: m.padding })
    } else if name == "offset_second".spec_bytes() {
        Ok(Component::OffsetSecond { padding: m.padding })
    } else {
        Err(InvalidFormatDescription::InvalidComponentName(name_start as usize))
    }
}

/// The pending literal bytes flushed onto the token sequence: appended as
/// one literal token when non-empty, dropped when empty.
pub open spec fn flush_literal(acc: Seq<TokenView>, lit: Seq<u8>) -> Seq<TokenView> {
    if lit.len() > 0 {
        acc.push(TokenView::Literal(lit))
    } else {
        acc
    }
}

/// What a component bracket opening at `i` compiles to: the component and
/// the index of its closing bracket, or the first error within the
/// bracket.
pub open spec fn bracket_spec(s: Seq<u8>, i: int) -> Result<
    (Component, int),
    InvalidFormatDescription,
> {
    if i + 1 >= s.len() {
        Err(InvalidFormatDescription::UnclosedBracket(i as usize))
    } else {
        let name_start = i + 1;
        let name_end = word_end_spec(s, name_start);
        if name_end == name_start {
            Err(InvalidFormatDescription::MissingComponentName(i as usize))
        } else {
            match scan_modifiers_spec(s, i, name_end, initial_modifiers()) {
                Ok((m, close)) => match component_for_spec(s, name_start, name_end, m) {
                    Ok(c) => Ok((c, close)),
                    Err(e) => Err(e),
                },
                Err(e) => Err(e),
            }
        }
    }
}

/// A successfully compiled bracket closes after it opens and before the
/// end of the text.
proof fn lemma_bracket_bounds(s: Seq<u8>, i: int)
    requires
        0 <= i < s.len(),
    ensures
        bracket_spec(s, i) matches Ok(p) ==> i < p.1 < s.len(),
{
    if i + 1 < s.len() {
        let name_start = i + 1;
        lemma_word_end_bounds(s, name_start);
        let name_end = word_end_spec(s, name_start);
        if name_end != name_start {
            lemma_scan_modifiers_bounds(s, i, name_end, initial_modifiers());
        }
    }
}

/// The tokens the text compiles to from position `i` onwards, given the
/// pending literal bytes and the tokens already compiled; or the first
/// compilation error. This is the meaning of the format-description
/// language: text outside brackets gathers into maximal literal runs,
/// `[[` escapes a literal `[`, and each bracket names a component with
/// space-separated `key:value` modifiers.
pub open spec fn compile_from_spec(
    s: Seq<u8>,
    i: int,
    lit: Seq<u8>,
    acc: Seq<TokenView>,
) -> Result<Seq<TokenView>, InvalidFormatDescription>
    decreases s.len() - i,
    when 0 <= i <= s.len()
    via compile_from_spec_decreases
{
    if i >= s.len() {
        Ok(flush_literal(acc, lit))
    } else if s[i] == 91 {
        if i + 1 < s.len() && s[i + 1] == 91 {
            compile_from_spec(s, i + 2, lit.push(91u8), acc)
        } else {
            match bracket_spec(s, i) {
                Ok((c, close)) => compile_from_spec(
                    s,
                    close + 1,
                    Seq::empty(),
                    flush_literal(acc, lit).push(TokenView::Component(c)),
                ),
                Err(e) => Err(e),
            }
        }
    } else {
        compile_from_spec(s, i + 1, lit.push(s[i]), acc)
    }
}

/// What a format text compiles to: the token sequence per the language's
/// grammar, or the first compilation error.
pub open spec fn compile_spec(s: Seq<u8>) -> Result<Seq<TokenView>, InvalidFormatDescription> {
    compile_from_spec(s, 0, Seq::empty(), Seq::empty())
}

/// A successful modifier scan stops on a closing bracket at or after
/// where it started.
proof fn lemma_scan_modifiers_bounds(s: Seq<u8>, open: int, j: int, m: Modifiers)
    requires
        0 <= j <= s.len(),
    ensures
        scan_modifiers_spec(s, open, j, m) matches Ok(p) ==> j <= p.1 < s.len() && s[p.1] == 93,
    decreases s.len() - j,
{
    if j >= s.len() || s[j] == 93 || s[j] == 58 {
    } else if s[j] == 32 {
        lemma_scan_modifiers_bounds(s, open, j + 1, m);
    } else {
        let key_end = word_end_spec(s, j);
        lemma_word_end_bounds(s, j);
        if key_end < s.len() && s[key_end] == 58 {
            let val_start = key_end + 1;
            let val_end = word_end_spec(s, val_start);
            lemma_word_end_bounds(s, val_start);
            match apply_modifier_spec(s, j, key_end, val_start, val_end, m) {
                Ok(m2) => {
                    lemma_scan_modifiers_bounds(s, open, val_end, m2);
                },
                Err(_) => {},
            }
        }
    }
}

#[via_fn]
proof fn scan_modifiers_spec_decreases(s: Seq<u8>, open: int, j: int, m: Modifiers) {
    if j < s.len() && s[j] != 93 && s[j] != 32 && s[j] != 58 {
        lemma_word_end_bounds(s, j);
        let key_end = word_end_spec(s, j);
        if key_end < s.len() && s[key_end] == 58 {
            lemma_word_end_bounds(s, key_end + 1);
        }
    }
}

#[via_fn]
proof fn compile_from_spec_decreases(s: Seq<u8>, i: int, lit: Seq<u8>, acc: Seq<TokenView>) {
    if i < s.len() && s[i] == 91 && !(i + 1 < s.len() && s[i + 1] == 91) {
        lemma_bracket_bounds(s, i);
    }
}

/// The next `:`, `]`, or space at or after `i`, or the end of the input.
fn scan_word_end(b: &[u8], i: usize) -> (r: usize)
    requires
        i <= b@.len(),
    ensures
        i <= r <= b@.len(),
        r == word_end_spec(b@, i as int),
        forall|k: int| i <= k < r ==> b@[k] != 58 && b@[k] != 93 && b@[k] != 32,
        r < b@.len() ==> b@[r as int] == 58 || b@[r as int] == 93 || b@[r as int] == 32,
{
    let n: usize = b.len();
    let mut j: usize = i;
    while j < n && b[j] != 58 && b[j] != 93 && b[j] != 32
        invariant
            i <= j <= n,
            n == b@.len(),
            word_end_spec(b@, i as int) == word_end_spec(b@, j as int),
            forall|k: int| i <= k < j ==> b@[k] != 58 && b@[k] != 93 && b@[k] != 32,
        decreases n - j,
    {
        j = j + 1;
    }
    j
}

/// Whether the bytes of `b` in `i..j` equal the bytes of the string `w`.
fn word_matches(b: &[u8], i: usize, j: usize, w: &str) -> (r: bool)
    requires
        i <= j <= b@.len(),
    ensures
        r == (b@.subrange(i as int, j as int) == w.spec_bytes()),
{
    let wb: &[u8] = w.as_bytes();
    let wn: usize = wb.len();
    if j - i != wn {
        proof {
            assert(b@.subrange(i as int, j as int).len() == j - i);
        }
        return false;
    }
    let mut k: usize = 0;
    while k < wn
        invariant
            k <= wn,
            wn == wb@.len(),
            i + wn <= b@.len(),
            j == i + wn,
            wb@ == w.spec_bytes(),
            forall|t: int| 0 <= t < k ==> b@[i + t] == wb@[t],
        decreases wn - k,
    {
        if b[i + k] != wb[k] {
            proof {
                assert(b@.subrange(i as int, j as int)[k as int] == b@[i + k]);
            }
            return false;
        }
        k = k + 1;
    }
    proof {
        assert(b@.subrange(i as int, j as int) =~= wb@);
    }
    true
}

/// The modifiers a component may carry, gathered while scanning a
/// bracket, each key with the position of its last occurrence.
pub struct Modifiers {
    /// Padding style for numeric components.
    pub padding: Padding,
    /// Whether a non-negative signed component must show a `+`.
    pub sign_mandatory: bool,
    /// Whether the hour reads on a 12-hour dial.
    pub is_12_hour_clock: bool,
    /// Whether the AM/PM marker is upper case.
    pub uppercase: bool,
    /// How many digits a subsecond component carries.
    pub digits: SubsecondDigits,
    /// Where a `sign` key last occurred, if one did.
    pub sign_at: Option<usize>,
    /// Where a `repr` key last occurred, if one did.
    pub repr_at: Option<usize>,
    /// Where a `case` key last occurred, if one did.
    pub case_at: Option<usize>,
    /// Where a `digits` key last occurred, if one did.
    pub digits_at: Option<usize>,
}

/// Parses one component bracket opening at `open`, yielding the
/// component and the index of its closing bracket, per [`bracket_spec`].
#[verifier::rlimit(100)]
fn parse_bracket(b: &[u8], open: usize) -> (r: Result<
    (Component, usize),
    InvalidFormatDescription,
>)
    requires
        open < b@.len(),
    ensures
        match r {
            Ok((c, close)) => bracket_spec(b@, open as int) == Ok::<
                (Component, int),
                InvalidFormatDescription,
            >((c, close as int)) && open < close < b@.len() && component_wf(c),
            Err(e) => bracket_spec(b@, open as int) == Err::<
                (Component, int),
                InvalidFormatDescription,
            >(e),
        },
{
    let n: usize = b.len();
    let name_start: usize = open + 1;
    if name_start >= n {
        return Err(InvalidFormatDescription::UnclosedBracket(open));
    }
    let name_end: usize = scan_word_end(b, name_start);
    if name_end == name_start {
        return Err(InvalidFormatDescription::MissingComponentName(open));
    }
    // Gather modifiers up to the closing bracket.
    let mut mods = Modifiers {
        padding: Padding::Zero,
        sign_mandatory: false,
        is_12_hour_clock: false,
        uppercase: true,
        digits: SubsecondDigits::OneOrMore,
        sign_at: None,
        repr_at: None,
        case_at: None,
        digits_at: None,
    };
    proof {
        assert(mods == initial_modifiers());
    }
    let mut j: usize = name_end;
    loop
        invariant
            name_end <= j <= n,
            n == b@.len(),
            open < n,
            name_start == open + 1,
            name_start < n,
            name_end != name_start,
            name_end as int == word_end_spec(b@, name_start as int),
            subsecond_digits_wf(mods.digits),
            scan_modifiers_spec(b@, open as int, name_end as int, initial_modifiers())
                == scan_modifiers_spec(b@, open as int, j as int, mods),
        ensures
            j < n && b@[j as int] == 93,
            subsecond_digits_wf(mods.digits),
            scan_modifiers_spec(b@, open as int, name_end as int, initial_modifiers()) == Ok::<
                (Modifiers, int),
                InvalidFormatDescription,
            >((mods, j as int)),
        decreases n - j,
    {
        if j >= n {
            proof {
                assert(scan_modifiers_spec(b@, open as int, j as int, mods) == Err::<
                    (Modifiers, int),
                    InvalidFormatDescription,
                >(InvalidFormatDescription::UnclosedBracket(open)));
                assert(bracket_spec(b@, open as int) == Err::<
                    (Component, int),
                    InvalidFormatDescription,
                >(InvalidFormatDescription::UnclosedBracket(open)));
            }
            return Err(InvalidFormatDescription::UnclosedBracket(open));
        }
        if b[j] == 93 {
            // ']'
            break ;
        }
        if b[j] == 32 {
            j = j + 1;
            continue ;
        }
        if b[j] == 58 {
            proof {
                assert(scan_modifiers_spec(b@, open as int, j as int, mods) == Err::<
                    (Modifiers, int),
                    InvalidFormatDescription,
                >(InvalidFormatDescription::InvalidModifier(j)));
                assert(bracket_spec(b@, open as int) == Err::<
                    (Component, int),
                    InvalidFormatDescription,
                >(InvalidFormatDescription::InvalidModifier(j)));
            }
            return Err(InvalidFormatDescription::InvalidModifier(j));
        }
        // A `key:value` pair.
        let ghost mods0 = mods;
        let ghost j0 = j as int;
        let key_start: usize = j;
        let key_end: usize = scan_word_end(b, key_start);
        if key_end >= n || b[key_end] != 58 {
            return Err(InvalidFormatDescription::InvalidModifier(key_start));
        }
        let val_start: usize = key_end + 1;
        let val_end: usize = scan_word_end(b, val_start);
        if word_matches(b, key_start, key_end, "padding") {
            if word_matches(b, val_start, val_end, "zero") {
                mods.padding = Padding::Zero;
            } else if word_matches(b, val_start, val_end, "space") {
                mods.padding = Padding::Space;
            } else if word_matches(b, val_start, val_end, "none") {
                mods.padding = Padding::Plain;
            } else {
                return Err(InvalidFormatDescription::InvalidModifier(key_start));
            }
        } else if word_matches(b, key_start, key_end, "sign") {
            if word_matches(b, val_start, val_end, "mandatory") {
                mods.sign_mandatory = true;
            } else if word_matches(b, val_start, val_end, "automatic") {
                mods.sign_mandatory = false;
            } else {
                return Err(InvalidFormatDescription::InvalidModifier(key_start));
            }
            mods.sign_at = Some(key_start);
        } else if word_matches(b, key_start, key_end, "repr") {
            if word_matches(b, val_start, val_end, "24") {
                mods.is_12_hour_clock = false;
            } else if word_matches(b, val_start, val_end, "12") {
                mods.is_12_hour_clock = true;
            } else {
                return Err(InvalidFormatDescription::InvalidModifier(key_start));
            }
            mods.repr_at = Some(key_start);
        } else if word_matches(b, key_start, key_end, "case") {
            if word_matches(b, val_start, val_end, "upper") {
                mods.uppercase = true;
            } else if word_matches(b, val_start, val_end, "lower") {
                mods.uppercase = false;
            } else {
                return Err(InvalidFormatDescription::InvalidModifier(key_start));
            }
            mods.case_at = Some(key_start);
        } else if word_matches(b, key_start, key_end, "digits") {
            if word_matches(b, val_start, val_end, "1+") {
                mods.digits = SubsecondDigits::OneOrMore;
            } else if val_end - val_start == 1 && b[val_start] >= 49 && b[val_start] <= 57 {
                mods.digits = SubsecondDigits::Fixed(b[val_start] - 48);
            } else {
                return Err(InvalidFormatDescription::InvalidModifier(key_start));
            }
            mods.digits_at = Some(key_start);
        } else {
            proof {
                assert(apply_modifier_spec(
                    b@,
                    j as int,
                    key_end as int,
                    val_start as int,
                    val_end as int,
                    mods,
                ) == Err::<Modifiers, InvalidFormatDescription>(
                    InvalidFormatDescription::InvalidModifier(key_start),
                ));
                assert(scan_modifiers_spec(b@, open as int, j as int, mods) == Err::<
                    (Modifiers, int),
                    InvalidFormatDescription,
                >(InvalidFormatDescription::InvalidModifier(key_start)));
                assert(bracket_spec(b@, open as int) == Err::<
                    (Component, int),
                    InvalidFormatDescription,
                >(InvalidFormatDescription::InvalidModifier(key_start)));
            }
            return Err(InvalidFormatDescription::InvalidModifier(key_start));
        }
        proof {
            assert(apply_modifier_spec(
                b@,
                j0,
                key_end as int,
                val_start as int,
                val_end as int,
                mods0,
            ) == Ok::<Modifiers, InvalidFormatDescription>(mods));
            assert(scan_modifiers_spec(b@, open as int, j0, mods0) == scan_modifiers_spec(
                b@,
                open as int,
                val_end as int,
                mods,
            ));
        }
        j = val_end;
    }
    // j points at the closing bracket. A modifier whose key does not
    // apply to the named component is rejected.
    let signed: bool = word_matches(b, name_start, name_end, "year") || word_matches(
        b,
        name_start,
        name_end,
        "offset_hour",
    );
    if !signed {
        if let Some(at) = mods.sign_at {
            return Err(InvalidFormatDescription::InvalidModifier(at));
        }
    }
    if !word_matches(b, name_start, name_end, "hour") {
        if let Some(at) = mods.repr_at {
            return Err(InvalidFormatDescription::InvalidModifier(at));
        }
    }
    if !word_matches(b, name_start, name_end, "period") {
        if let Some(at) = mods.case_at {
            return Err(InvalidFormatDescription::InvalidModifier(at));
        }
    }
    if !word_matches(b, name_start, name_end, "subsecond") {
        if let Some(at) = mods.digits_at {
            return Err(InvalidFormatDescription::InvalidModifier(at));
        }
    }
    let comp: Component = if word_matches(b, name_start, name_end, "year") {
        Component::Year { padding: mods.padding, sign_mandatory: mods.sign_mandatory }
    } else if word_matches(b, name_start, name_end, "month") {
        Component::Month { padding: mods.padding }
    } else if word_matches(b, name_start, name_end, "day") {
        Component::Day { padding: mods.padding }
    } else if word_matches(b, name_start, name_end, "ordinal") {
        Component::Ordinal { padding: mods.padding }
    } else if word_matches(b, name_start, name_end, "hour") {
        Component::Hour { padding: mods.padding, is_12_hour_clock: mods.is_12_hour_clock }
    } else if word_matches(b, name_start, name_end, "minute") {
        Component::Minute { padding: mods.padding }
    } else if word_matches(b, name_start, name_end, "second") {
        Component::Second { padding: mods.padding }
    } else if word_matches(b, name_start, name_end, "subsecond") {
        Component::Subsecond { digits: mods.digits }
    } else if word_matches(b, name_start, name_end, "period") {
        Component::Period { uppercase: mods.uppercase }
    } else if word_matches(b, name_start, name_end, "offset_hour") {
        Component::OffsetHour { padding: mods.padding, sign_mandatory: mods.sign_mandatory }
    } else if word_matches(b, name_start, name_end, "offset_minute") {
        Component::OffsetMinute { padding: mods.padding }
    } else if word_matches(b, name_start, name_end, "offset_second") {
        Component::OffsetSecond { padding: mods.padding }
    } else {
        return Err(InvalidFormatDescription::InvalidComponentName(name_start));
    };
    proof {
        assert(component_for_spec(b@, name_start as int, name_end as int, mods) == Ok::<
            Component,
            InvalidFormatDescription,
        >(comp));
    }
    Ok((comp, j))
}

/// Abstracting a token sequence commutes with appending a token.
proof fn lemma_tokens_view_push(items: Seq<FormatItem>, item: FormatItem)
    ensures
        tokens_view(items.push(item)) =~= tokens_view(items).push(token_view(item)),
{
}

/// Compiles a textual format description into a token sequence.
///
/// Text outside `[...]` is copied as literal bytes and `[[` escapes a
/// literal `[`. Compilation fails on an unknown component name, an unknown
/// or out-of-place modifier, a bracket left unclosed, or a bracket with no
/// name; the result and the error are exactly what [`compile_spec`] gives
/// for the input text.
pub fn parse(s: &str) -> (r: Result<Vec<FormatItem>, InvalidFormatDescription>)
    ensures
        r matches Ok(items) ==> compile_spec(s.spec_bytes()) == Ok::<
            Seq<TokenView>,
            InvalidFormatDescription,
        >(tokens_view(items@)) && items_wf(items@),
        r matches Err(e) ==> compile_spec(s.spec_bytes()) == Err::<
            Seq<TokenView>,
            InvalidFormatDescription,
        >(e),
{
    let b: &[u8] = s.as_bytes();
    let n: usize = b.len();
    let mut items: Vec<FormatItem> = Vec::new();
    let mut lit: Vec<u8> = Vec::new();
    let mut i: usize = 0;
    proof {
        assert(tokens_view(items@) =~= Seq::<TokenView>::empty());
    }
    while i < n
        invariant
            i <= n,
            n == b@.len(),
            b@ == s.spec_bytes(),
            items_wf(items@),
            compile_spec(s.spec_bytes()) == compile_from_spec(
                b@,
                i as int,
                lit@,
                tokens_view(items@),
            ),
        decreases n - i,
    {
        if b[i] == 91 {
            // '['
            if i + 1 < n && b[i + 1] == 91 {
                lit.push(91);
                i = i + 2;
            } else {
                match parse_bracket(b, i) {
                    Err(e) => {
                        return Err(e);
                    },
                    Ok((comp, close)) => {
                        let ghost i0 = i as int;
                        let ghost items0 = items@;
                        let ghost lit0 = lit@;
                        if lit.len() > 0 {
                            let ghost lit_item = FormatItem::Literal(lit);
                            items.push(FormatItem::Literal(lit));
                            lit = Vec::new();
                            proof {
                                lemma_tokens_view_push(items0, lit_item);
                                assert(tokens_view(items@) =~= flush_literal(
                                    tokens_view(items0),
                                    lit0,
                                ));
                            }
                        }
                        let ghost items1 = items@;
                        items.push(FormatItem::Component(comp));
                        proof {
                            lemma_tokens_view_push(items1, FormatItem::Component(comp));
                            assert(tokens_view(items@) =~= flush_literal(
                                tokens_view(items0),
                                lit0,
                            ).push(TokenView::Component(comp)));
                            assert(lit@ =~= Seq::<u8>::empty());
                            assert(compile_from_spec(b@, i0, lit0, tokens_view(items0))
                                == compile_from_spec(
                                b@,
                                close + 1,
                                Seq::empty(),
                                flush_literal(tokens_view(items0), lit0).push(
                                    TokenView::Component(comp),
                                ),
                            ));
                        }
                        i = close + 1;
                    },
                }
            }
        } else {
            let c: u8 = b[i];
            lit.push(c);
            i = i + 1;
        }
    }
    let ghost items0 = items@;
    let ghost lit0 = lit@;
    if lit.len() > 0 {
        let ghost lit_item = FormatItem::Literal(lit);
        items.push(FormatItem::Literal(lit));
        proof {
            lemma_tokens_view_push(items0, lit_item);
            assert(tokens_view(items@) =~= flush_literal(tokens_view(items0), lit0));
        }
    }
    proof {
        assert(tokens_view(items@) =~= flush_literal(tokens_view(items0), lit0));
    }
    Ok(items)
}

} // verus!
