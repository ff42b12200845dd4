//! Rendering temporal values against a compiled format description.

use vstd::prelude::*;

use crate::date::{days_before_month_spec, month_of_ordinal_spec, Date};
use crate::error::Format;
use crate::format_description::{Component, FormatItem, Padding, SubsecondDigits};
use crate::time::Time;
use crate::utc_offset::UtcOffset;
use crate::util::{dec_digits, push_decimal_u64};

verus! {

/// `count` copies of `byte` (none, for a non-positive count).
pub open spec fn byte_run(count: int, byte: u8) -> Seq<u8> {
    if count <= 0 {
        Seq::empty()
    } else {
        Seq::new(count as nat, |i: int| byte)
    }
}

/// The decimal digits of `v`, padded on the left to `width` in the given
/// style.
pub open spec fn padded_digits(pad: Padding, width: int, v: int) -> Seq<u8> {
    let ds = dec_digits(v);
    match pad {
        Padding::Zero => byte_run(width - ds.len(), 48) + ds,
        Padding::Space => byte_run(width - ds.len(), 32) + ds,
        Padding::Plain => ds,
    }
}

/// Ten to the power `k`.
pub open spec fn pow10(k: int) -> int
    decreases k,
{
    if k <= 0 {
        1
    } else {
        10 * pow10(k - 1)
    }
}

/// The sign bytes a signed component starts with: `-` when negative, `+`
/// when non-negative and a sign is demanded, nothing otherwise.
pub open spec fn sign_prefix(negative: bool, mandatory: bool) -> Seq<u8> {
    if negative {
        seq![45u8]
    } else if mandatory {
        seq![43u8]
    } else {
        Seq::empty()
    }
}

/// The rendering of a subsecond component for the given nanosecond count.
pub open spec fn subsec_render(digits: SubsecondDigits, ns: int) -> Seq<u8> {
    match digits {
        SubsecondDigits::Fixed(k) => padded_digits(Padding::Zero, k as int, ns / pow10(9 - k)),
        SubsecondDigits::OneOrMore => {
            if ns % 1_000_000 == 0 {
                padded_digits(Padding::Zero, 3, ns / 1_000_000)
            } else if ns % 1_000 == 0 {
                padded_digits(Padding::Zero, 6, ns / 1_000)
            } else {
                padded_digits(Padding::Zero, 9, ns)
            }
        },
    }
}

/// The clock hour on a 12-hour dial.
pub open spec fn hour_on_12_clock(hour: int) -> int {
    if hour == 0 {
        12
    } else if hour > 12 {
        hour - 12
    } else {
        hour
    }
}

/// The rendering of one component against the values at hand, or `None`
/// when the component needs a value that was not supplied.
pub open spec fn render_component_spec(
    c: Component,
    d: Option<Date>,
    t: Option<Time>,
    o: Option<UtcOffset>,
) -> Option<Seq<u8>> {
    match c {
        Component::Year { padding, sign_mandatory } => match d {
            Option::Some(d) => Option::Some(
                sign_prefix(d.year < 0, sign_mandatory) + padded_digits(
                    padding,
                    4,
                    if d.year < 0 {
                        -(d.year as int)
                    } else {
                        d.year as int
                    },
                ),
            ),
            Option::None => Option::None,
        },
        Component::Month { padding } => match d {
            Option::Some(d) => Option::Some(
                padded_digits(padding, 2, month_of_ordinal_spec(d.year as int, d.ordinal as int)),
            ),
            Option::None => Option::None,
        },
        Component::Day { padding } => match d {
            Option::Some(d) => Option::Some(
                padded_digits(
                    padding,
                    2,
                    d.ordinal - days_before_month_spec(
                        d.year as int,
                        month_of_ordinal_spec(d.year as int, d.ordinal as int),
                    ),
                ),
            ),
            Option::None => Option::None,
        },
        Component::Ordinal { padding } => match d {
            Option::Some(d) => Option::Some(padded_digits(padding, 3, d.ordinal as int)),
            Option::None => Option::None,
        },
        Component::Hour { padding, is_12_hour_clock } => match t {
            Option::Some(t) => Option::Some(
                padded_digits(
                    padding,
                    2,
                    if is_12_hour_clock {
                        hour_on_12_clock(t.hour as int)
                    } else {
                        t.hour as int
                    },
                ),
            ),
            Option::None => Option::None,
        },
        Component::Minute { padding } => match t {
            Option::Some(t) => Option::Some(padded_digits(padding, 2, t.minute as int)),
            Option::None => Option::None,
        },
        Component::Second { padding } => match t {
            Option::Some(t) => Option::Some(padded_digits(padding, 2, t.second as int)),
            Option::None => Option::None,
        },
        Component::Subsecond { digits } => match t {
            Option::Some(t) => Option::Some(subsec_render(digits, t.nanosecond as int)),
            Option::None => Option::None,
        },
        Component::Period { uppercase } => match t {
            Option::Some(t) => Option::Some(
                if t.hour < 12 {
                    if uppercase {
                        seq![65u8, 77u8]
                    } else {
                        seq![97u8, 109u8]
                    }
                } else {
                    if uppercase {
                        seq![80u8, 77u8]
                    } else {
                        seq![112u8, 109u8]
                    }
                },
            ),
            Option::None => Option::None,
        },
        Component::OffsetHour { padding, sign_mandatory } => match o {
            Option::Some(o) => Option::Some(
                sign_prefix(o.total_seconds() < 0, sign_mandatory) + padded_digits(
                    padding,
                    2,
                    if o.hours < 0 {
                        -(o.hours as int)
                    } else {
                        o.hours as int
                    },
                ),
            ),
            Option::None => Option::None,
        },
        Component::OffsetMinute { padding } => match o {
            Option::Some(o) => Option::Some(
                padded_digits(
                    padding,
                    2,
                    if o.minutes < 0 {
                        -(o.minutes as int)
                    } else {
                        o.minutes as int
                    },
                ),
            ),
            Option::None => Option::None,
        },
        Component::OffsetSecond { padding } => match o {
            Option::Some(o) => Option::Some(
                padded_digits(
                    padding,
                    2,
                    if o.seconds < 0 {
                        -(o.seconds as int)
                    } else {
                        o.seconds as int
                    },
                ),
            ),
            Option::None => Option::None,
        },
    }
}

/// The rendering of one token: a literal's own bytes, or the component's
/// rendering.
pub open spec fn render_item_spec(
    item: FormatItem,
    d: Option<Date>,
    t: Option<Time>,
    o: Option<UtcOffset>,
) -> Option<Seq<u8>> {
    match item {
        FormatItem::Literal(bytes) => Option::Some(bytes@),
        FormatItem::Component(c) => render_component_spec(c, d, t, o),
    }
}

/// The rendering of a whole token sequence: the concatenation of every
/// token's rendering, or `None` as soon as any component lacks its value.
pub open spec fn render_items_spec(
    items: Seq<FormatItem>,
    d: Option<Date>,
    t: Option<Time>,
    o: Option<UtcOffset>,
) -> Option<Seq<u8>>
    decreases items.len(),
{
    if items.len() == 0 {
        Option::Some(Seq::empty())
    } else {
        match render_item_spec(items[0], d, t, o) {
            Option::Some(h) => match render_items_spec(items.subrange(1, items.len() as int), d, t, o) {
                Option::Some(rest) => Option::Some(h + rest),
                Option::None => Option::None,
            },
            Option::None => Option::None,
        }
    }
}

/// Rendering a sequence split in two concatenates the two renderings, and
/// fails exactly when either half fails.
pub proof fn lemma_render_append(
    a: Seq<FormatItem>,
    b: Seq<FormatItem>,
    d: Option<Date>,
    t: Option<Time>,
    o: Option<UtcOffset>,
)
    ensures
        render_items_spec(a + b, d, t, o) == match (render_items_spec(a, d, t, o), render_items_spec(
            b,
            d,
            t,
            o,
        )) {
            (Option::Some(x), Option::Some(y)) => Option::Some::<Seq<u8>>(x + y),
            _ => Option::None::<Seq<u8>>,
        },
    decreases a.len(),
{
    if a.len() == 0 {
        assert(a + b =~= b);
        if render_items_spec(b, d, t, o) is Some {
            assert(render_items_spec(a, d, t, o) == Option::Some(Seq::<u8>::empty()));
            assert(Seq::<u8>::empty() + render_items_spec(b, d, t, o).unwrap()
                =~= render_items_spec(b, d, t, o).unwrap());
        }
    } else {
        let ab = a + b;
        assert(ab[0] == a[0]);
        assert(ab.subrange(1, ab.len() as int) =~= a.subrange(1, a.len() as int) + b);
        lemma_render_append(a.subrange(1, a.len() as int), b, d, t, o);
        match render_item_spec(a[0], d, t, o) {
            Option::Some(h) => {
                match (render_items_spec(a.subrange(1, a.len() as int), d, t, o),
                    render_items_spec(b, d, t, o)) {
                    (Option::Some(x), Option::Some(y)) => {
                        assert(h + (x + y) =~= (h + x) + y);
                    },
                    _ => {},
                }
            },
            Option::None => {},
        }
    }
}

/// The number of decimal digits in `v`.
fn dec_len_u32(v: u32) -> (r: usize)
    ensures
        r == dec_digits(v as int).len(),
        1 <= r <= 10,
{
    proof {
        reveal_with_fuel(pow10, 12);
        lemma_dec_digits_len_bound_pub(v as int, 10);
    }
    let mut x: u32 = v;
    let mut k: usize = 1;
    while x >= 10
        invariant
            dec_digits(v as int).len() == dec_digits(x as int).len() + k - 1,
            1 <= k <= 10,
            dec_digits(v as int).len() <= 10,
        decreases x,
    {
        x = x / 10;
        k = k + 1;
    }
    k
}

/// A value below ten to the `k` has at most `k` decimal digits.
pub proof fn lemma_dec_digits_len_bound_pub(v: int, k: int)
    requires
        0 <= v,
        1 <= k,
        v < pow10(k),
    ensures
        dec_digits(v).len() <= k,
    decreases k,
{
    if v < 10 {
    } else {
        vstd::arithmetic::div_mod::lemma_fundamental_div_mod(v, 10);
        assert(v / 10 < pow10(k - 1)) by (nonlinear_arith)
            requires
                v == 10 * (v / 10) + (v % 10) && 0 <= v % 10 && v < 10 * pow10(k - 1),
        ;
        vstd::arithmetic::div_mod::lemma_div_pos_is_pos(v, 10);
        lemma_dec_digits_len_bound_pub(v / 10, k - 1);
    }
}

/// Appends the decimal digits of `v`, padded on the left to `width` in the
/// given style.
fn push_padded(out: &mut Vec<u8>, v: u32, width: u8, pad: Padding)
    requires
        width <= 10,
    ensures
        final(out)@ == old(out)@ + padded_digits(pad, width as int, v as int),
{
    let len: usize = dec_len_u32(v);
    let fill: u8 = match pad {
        Padding::Zero => 48,
        Padding::Space => 32,
        Padding::Plain => 0,
    };
    if !matches!(pad, Padding::Plain) && len < width as usize {
        let count: usize = width as usize - len;
        let mut i: usize = 0;
        while i < count
            invariant
                i <= count,
                count == width - dec_digits(v as int).len(),
                fill == (if pad is Zero {
                    48u8
                } else {
                    32u8
                }),
                !(pad is Plain),
                out@ =~= old(out)@ + byte_run(count as int, fill).take(i as int),
            decreases count - i,
        {
            proof {
                assert(byte_run(count as int, fill).take(i + 1) =~= byte_run(
                    count as int,
                    fill,
                ).take(i as int).push(fill));
            }
            out.push(fill);
            i = i + 1;
        }
        proof {
            assert(byte_run(count as int, fill).take(count as int) =~= byte_run(
                count as int,
                fill,
            ));
        }
    }
    push_decimal_u64(out, v as u64);
    proof {
        if matches!(pad, Padding::Plain) {
            assert(out@ =~= old(out)@ + padded_digits(pad, width as int, v as int));
        } else if (width as int) <= dec_digits(v as int).len() {
            assert(byte_run(width - dec_digits(v as int).len(), fill) =~= Seq::<u8>::empty());
            assert(out@ =~= old(out)@ + padded_digits(pad, width as int, v as int));
        } else {
            assert(out@ =~= old(out)@ + padded_digits(pad, width as int, v as int));
        }
    }
}

/// Ten to the power `k`, on machine integers.
pub(crate) fn pow10_u32(k: u8) -> (r: u32)
    requires
        k <= 9,
    ensures
        r == pow10(k as int),
        r >= 1,
{
    proof {
        reveal_with_fuel(pow10, 11);
    }
    match k {
        0 => 1,
        1 => 10,
        2 => 100,
        3 => 1_000,
        4 => 10_000,
        5 => 100_000,
        6 => 1_000_000,
        7 => 10_000_000,
        8 => 100_000_000,
        _ => 1_000_000_000,
    }
}

/// Appends the rendering of one component, or reports that the component
/// needs a value that was not supplied, leaving the output untouched.
#[verifier::rlimit(80)]
fn render_component_into(
    out: &mut Vec<u8>,
    c: Component,
    d: Option<Date>,
    t: Option<Time>,
    o: Option<UtcOffset>,
) -> (ok: bool)
    requires
        crate::format_description::component_wf(c),
        match d {
            Option::Some(dd) => dd.wf(),
            Option::None => true,
        },
        match t {
            Option::Some(tt) => tt.wf(),
            Option::None => true,
        },
        match o {
            Option::Some(oo) => oo.wf(),
            Option::None => true,
        },
    ensures
        ok == (render_component_spec(c, d, t, o) is Some),
        ok ==> final(out)@ == old(out)@ + render_component_spec(c, d, t, o).unwrap(),
        !ok ==> final(out)@ == old(out)@,
{
    match c {
        Component::Year { padding, sign_mandatory } => match d {
            Option::Some(dd) => {
                if dd.year < 0 {
                    out.push(45);
                } else if sign_mandatory {
                    out.push(43);
                }
                let mag: u32 = if dd.year < 0 {
                    (-(dd.year as i64)) as u32
                } else {
                    dd.year as u32
                };
                push_padded(out, mag, 4, padding);
                proof {
                    assert(out@ =~= old(out)@ + render_component_spec(c, d, t, o).unwrap());
                }
                true
            },
            Option::None => false,
        },
        Component::Month { padding } => match d {
            Option::Some(dd) => {
                let month: u8 = dd.month();
                push_padded(out, month as u32, 2, padding);
                true
            },
            Option::None => false,
        },
        Component::Day { padding } => match d {
            Option::Some(dd) => {
                let day: u8 = dd.day();
                push_padded(out, day as u32, 2, padding);
                true
            },
            Option::None => false,
        },
        Component::Ordinal { padding } => match d {
            Option::Some(dd) => {
                push_padded(out, dd.ordinal() as u32, 3, padding);
                true
            },
            Option::None => false,
        },
        Component::Hour { padding, is_12_hour_clock } => match t {
            Option::Some(tt) => {
                let h: u8 = tt.hour();
                let shown: u8 = if is_12_hour_clock {
                    if h == 0 {
                        12
                    } else if h > 12 {
                        h - 12
                    } else {
                        h
                    }
                } else {
                    h
                };
                push_padded(out, shown as u32, 2, padding);
                true
            },
            Option::None => false,
        },
        Component::Minute { padding } => match t {
            Option::Some(tt) => {
                push_padded(out, tt.minute() as u32, 2, padding);
                true
            },
            Option::None => false,
        },
        Component::Second { padding } => match t {
            Option::Some(tt) => {
                push_padded(out, tt.second() as u32, 2, padding);
                true
            },
            Option::None => false,
        },
        Component::Subsecond { digits } => match t {
            Option::Some(tt) => {
                let ns: u32 = tt.nanosecond();
                match digits {
                    SubsecondDigits::Fixed(k) => {
                        let scale: u32 = pow10_u32(9 - k);
                        push_padded(out, ns / scale, k, Padding::Zero);
                    },
                    SubsecondDigits::OneOrMore => {
                        if ns % 1_000_000 == 0 {
                            push_padded(out, ns / 1_000_000, 3, Padding::Zero);
                        } else if ns % 1_000 == 0 {
                            push_padded(out, ns / 1_000, 6, Padding::Zero);
                        } else {
                            push_padded(out, ns, 9, Padding::Zero);
                        }
                    },
                }
                true
            },
            Option::None => false,
        },
        Component::Period { uppercase } => match t {
            Option::Some(tt) => {
                if tt.hour() < 12 {
                    if uppercase {
                        out.push(65);
                        out.push(77);
                    } else {
                        out.push(97);
                        out.push(109);
                    }
                } else {
                    if uppercase {
                        out.push(80);
                        out.push(77);
                    } else {
                        out.push(112);
                        out.push(109);
                    }
                }
                proof {
                    assert(out@ =~= old(out)@ + render_component_spec(c, d, t, o).unwrap());
                }
                true
            },
            Option::None => false,
        },
        Component::OffsetHour { padding, sign_mandatory } => match o {
            Option::Some(oo) => {
                let negative: bool = oo.whole_seconds() < 0;
                if negative {
                    out.push(45);
                } else if sign_mandatory {
                    out.push(43);
                }
                let mag: u32 = if oo.hours < 0 {
                    (-(oo.hours as i32)) as u32
                } else {
                    oo.hours as u32
                };
                push_padded(out, mag, 2, padding);
                proof {
                    assert(out@ =~= old(out)@ + render_component_spec(c, d, t, o).unwrap());
                }
                true
            },
            Option::None => false,
        },
        Component::OffsetMinute { padding } => match o {
            Option::Some(oo) => {
                let mag: u32 = if oo.minutes < 0 {
                    (-(oo.minutes as i32)) as u32
                } else {
                    oo.minutes as u32
                };
                push_padded(out, mag, 2, padding);
                true
            },
            Option::None => false,
        },
        Component::OffsetSecond { padding } => match o {
            Option::Some(oo) => {
                let mag: u32 = if oo.seconds < 0 {
                    (-(oo.seconds as i32)) as u32
                } else {
                    oo.seconds as u32
                };
                push_padded(out, mag, 2, padding);
                true
            },
            Option::None => false,
        },
    }
}

/// Appends the rendering of a component that needs only a time of day.
pub(crate) fn push_component(out: &mut Vec<u8>, c: Component, t: Time)
    requires
        t.wf(),
        crate::format_description::component_wf(c),
        render_component_spec(c, Option::None, Option::Some(t), Option::None) is Some,
    ensures
        final(out)@ == old(out)@ + render_component_spec(
            c,
            Option::None,
            Option::Some(t),
            Option::None,
        ).unwrap(),
{
    let _rendered = render_component_into(out, c, None, Some(t), None);
}

/// Renders a token sequence against the values at hand, appending the
/// output bytes to `out`. Fails with `InsufficientTypeInformation`, leaving
/// a partial rendering in `out`, exactly when some component needs a value
/// that was not supplied; on success the appended bytes are exactly the
/// sequence's rendering, and their count is returned.
pub fn format_items_into(
    out: &mut Vec<u8>,
    items: &Vec<FormatItem>,
    d: Option<Date>,
    t: Option<Time>,
    o: Option<UtcOffset>,
) -> (r: Result<usize, Format>)
    requires
        crate::format_description::items_wf(items@),
        match d {
            Option::Some(dd) => dd.wf(),
            Option::None => true,
        },
        match t {
            Option::Some(tt) => tt.wf(),
            Option::None => true,
        },
        match o {
            Option::Some(oo) => oo.wf(),
            Option::None => true,
        },
    ensures
        r is Ok <==> render_items_spec(items@, d, t, o) is Some,
        r matches Ok(count) ==> final(out)@ == old(out)@ + render_items_spec(
            items@,
            d,
            t,
            o,
        ).unwrap() && count == render_items_spec(items@, d, t, o).unwrap().len(),
        r matches Err(e) ==> e == Format::InsufficientTypeInformation,
{
    let n: usize = items.len();
    let start: usize = out.len();
    let mut idx: usize = 0;
    while idx < n
        invariant
            idx <= n,
            n == items@.len(),
            crate::format_description::items_wf(items@),
            match d {
                Option::Some(dd) => dd.wf(),
                Option::None => true,
            },
            match t {
                Option::Some(tt) => tt.wf(),
                Option::None => true,
            },
            match o {
                Option::Some(oo) => oo.wf(),
                Option::None => true,
            },
            start == old(out)@.len(),
            render_items_spec(items@.subrange(0, idx as int), d, t, o) matches Option::Some(p)
                && out@ == old(out)@ + p,
        decreases n - idx,
    {
        let ghost prefix = render_items_spec(items@.subrange(0, idx as int), d, t, o).unwrap();
        let item = &items[idx];
        let ghost single = seq![items@[idx as int]];
        proof {
            assert(items@.subrange(0, idx + 1) =~= items@.subrange(0, idx as int) + single);
            lemma_render_append(items@.subrange(0, idx as int), single, d, t, o);
            assert(single.subrange(1, 1) =~= Seq::<FormatItem>::empty());
        }
        match item {
            FormatItem::Literal(bytes) => {
                let m: usize = bytes.len();
                let mut k: usize = 0;
                while k < m
                    invariant
                        k <= m,
                        m == bytes@.len(),
                        out@ =~= old(out)@ + prefix + bytes@.take(k as int),
                    decreases m - k,
                {
                    let byte: u8 = bytes[k];
                    proof {
                        assert(bytes@.take(k + 1) =~= bytes@.take(k as int).push(bytes@[k as int]));
                    }
                    out.push(byte);
                    k = k + 1;
                }
                proof {
                    reveal_with_fuel(render_items_spec, 3);
                    assert(bytes@.take(m as int) =~= bytes@);
                    assert(render_item_spec(items@[idx as int], d, t, o) == Option::Some(bytes@));
                    assert(render_items_spec(single, d, t, o) == Option::Some(
                        bytes@ + Seq::<u8>::empty(),
                    ));
                    assert(bytes@ + Seq::<u8>::empty() =~= bytes@);
                    assert(out@ =~= old(out)@ + (prefix + bytes@));
                }
            },
            FormatItem::Component(c) => {
                let ok: bool = render_component_into(out, *c, d, t, o);
                if !ok {
                    proof {
                        lemma_render_none_propagates(items@, idx as int, d, t, o);
                    }
                    return Err(Format::InsufficientTypeInformation);
                }
                proof {
                    reveal_with_fuel(render_items_spec, 3);
                    let h = render_component_spec(*c, d, t, o).unwrap();
                    assert(render_items_spec(single, d, t, o) == Option::Some(
                        h + Seq::<u8>::empty(),
                    ));
                    assert(h + Seq::<u8>::empty() =~= h);
                    assert(out@ =~= old(out)@ + (prefix + h));
                }
            },
        }
        idx = idx + 1;
    }
    proof {
        assert(items@.subrange(0, n as int) =~= items@);
    }
    let written: usize = out.len() - start;
    Ok(written)
}

/// If one component of a sequence cannot be rendered, the whole sequence
/// cannot.
proof fn lemma_render_none_propagates(
    items: Seq<FormatItem>,
    idx: int,
    d: Option<Date>,
    t: Option<Time>,
    o: Option<UtcOffset>,
)
    requires
        0 <= idx < items.len(),
        render_item_spec(items[idx], d, t, o) is None,
    ensures
        render_items_spec(items, d, t, o) is None,
    decreases items.len(),
{
    if idx == 0 {
    } else {
        assert(items.subrange(1, items.len() as int)[idx - 1] == items[idx]);
        lemma_render_none_propagates(items.subrange(1, items.len() as int), idx - 1, d, t, o);
    }
}

} // verus!
