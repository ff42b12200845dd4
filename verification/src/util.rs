//! Calendar utilities shared by the value types: leap-year rules, month
//! lengths, and verified helpers for floor division and Euclidean remainders
//! on signed integers.

use vstd::prelude::*;
use vstd::string::StringSliceAdditionalSpecFns;
use vstd::arithmetic::div_mod::{
    lemma_fundamental_div_mod, lemma_fundamental_div_mod_converse, lemma_mod_multiples_vanish,
};

verus! {

/// Signal produced by clock arithmetic: whether the wrapped time-of-day
/// landed on the previous day, the same day, or the next day.
#[derive(Clone, Copy, Debug, PartialEq, Eq, Structural)]
pub enum DateAdjustment {
    /// The time wrapped backwards past midnight.
    Previous,
    /// The time stayed within the same day.
    Same,
    /// The time wrapped forwards past midnight.
    Next,
}

/// Whether `year` is a leap year in the proleptic Gregorian calendar.
pub open spec fn is_leap_year_spec(year: int) -> bool {
    year % 4 == 0 && (year % 100 != 0 || year % 400 == 0)
}

/// The number of days in `year`: 366 in a leap year, 365 otherwise.
pub open spec fn days_in_year_spec(year: int) -> int {
    if is_leap_year_spec(year) {
        366
    } else {
        365
    }
}

/// Whether `year` is a leap year in the proleptic Gregorian calendar.
pub fn is_leap_year(year: i32) -> (r: bool)
    requires
        -100_000 <= year <= 100_000,
    ensures
        r == is_leap_year_spec(year as int),
{
    // Shift by a multiple of 400 years so the computation stays unsigned;
    // the leap-year pattern repeats every 400 years.
    let y: u32 = (year + 400_000) as u32;
    proof {
        lemma_mod_multiples_vanish(100_000, year as int, 4);
        lemma_mod_multiples_vanish(4_000, year as int, 100);
        lemma_mod_multiples_vanish(1_000, year as int, 400);
    }
    y % 4 == 0 && (y % 100 != 0 || y % 400 == 0)
}

/// The number of days in `year`: 366 in a leap year, 365 otherwise.
pub fn days_in_year(year: i32) -> (r: u16)
    requires
        -100_000 <= year <= 100_000,
    ensures
        r == days_in_year_spec(year as int),
{
    if is_leap_year(year) {
        366
    } else {
        365
    }
}

/// Floor division of `a` by the positive divisor `b`; agrees with the
/// mathematical (Euclidean) quotient.
pub fn div_floor_i64(a: i64, b: i64) -> (q: i64)
    requires
        0 < b,
    ensures
        q == a as int / b as int,
{
    if a >= 0 {
        let q = (a as u64) / (b as u64);
        q as i64
    } else {
        // For a < 0 and b > 0: a / b == -((-a - 1) / b) - 1.
        let m = (-(a + 1)) as u64;
        let t = m / (b as u64);
        proof {
            let ai = a as int;
            let bi = b as int;
            let mi = m as int;
            lemma_fundamental_div_mod(mi, bi);
            let qq = mi / bi;
            let rr = mi % bi;
            assert(ai == (-qq - 1) * bi + (bi - rr - 1)) by (nonlinear_arith)
                requires
                    ai == -mi - 1 && mi == bi * qq + rr,
            ;
            lemma_fundamental_div_mod_converse(ai, bi, -qq - 1, bi - rr - 1);
        }
        -(t as i64) - 1
    }
}

/// Euclidean remainder of `a` modulo the positive divisor `b`; the result is
/// always in `0..b`.
pub fn rem_euclid_i64(a: i64, b: i64) -> (r: i64)
    requires
        0 < b,
    ensures
        r == a as int % b as int,
        0 <= r < b,
{
    if a >= 0 {
        let r = (a as u64) % (b as u64);
        r as i64
    } else {
        let m: u64 = ((-(a + 1)) as u64) + 1;
        let r0: u64 = m % (b as u64);
        proof {
            let mi = m as int;
            let bi = b as int;
            lemma_fundamental_div_mod(mi, bi);
            vstd::arithmetic::div_mod::lemma_mod_division_less_than_divisor(mi, bi);
            let qq = mi / bi;
            let rr = mi % bi;
            if rr == 0 {
                assert(-mi == (-qq) * bi + 0) by (nonlinear_arith)
                    requires
                        mi == bi * qq + rr && rr == 0,
                ;
                lemma_fundamental_div_mod_converse(-mi, bi, -qq, 0);
            } else {
                assert(-mi == (-qq - 1) * bi + (bi - rr)) by (nonlinear_arith)
                    requires
                        mi == bi * qq + rr,
                ;
                lemma_fundamental_div_mod_converse(-mi, bi, -qq - 1, bi - rr);
            }
        }
        if r0 == 0 {
            0
        } else {
            b - (r0 as i64)
        }
    }
}

/// Floor division of `a` by the positive divisor `b` on 128-bit values;
/// agrees with the mathematical (Euclidean) quotient.
pub fn div_floor_i128(a: i128, b: i128) -> (q: i128)
    requires
        0 < b,
    ensures
        q == a as int / b as int,
{
    if a >= 0 {
        let q = (a as u128) / (b as u128);
        q as i128
    } else {
        let m = (-(a + 1)) as u128;
        let t = m / (b as u128);
        proof {
            let ai = a as int;
            let bi = b as int;
            let mi = m as int;
            lemma_fundamental_div_mod(mi, bi);
            let qq = mi / bi;
            let rr = mi % bi;
            assert(ai == (-qq - 1) * bi + (bi - rr - 1)) by (nonlinear_arith)
                requires
                    ai == -mi - 1 && mi == bi * qq + rr,
            ;
            lemma_fundamental_div_mod_converse(ai, bi, -qq - 1, bi - rr - 1);
        }
        -(t as i128) - 1
    }
}

/// Euclidean remainder of `a` modulo the positive divisor `b` on 128-bit
/// values; the result is always in `0..b`.
pub fn rem_euclid_i128(a: i128, b: i128) -> (r: i128)
    requires
        0 < b,
    ensures
        r == a as int % b as int,
        0 <= r < b,
{
    if a >= 0 {
        let r = (a as u128) % (b as u128);
        proof {
            vstd::arithmetic::div_mod::lemma_mod_division_less_than_divisor(a as int, b as int);
            if a == 0 {
                vstd::arithmetic::div_mod::lemma_small_mod(0, b as nat);
            }
        }
        r as i128
    } else {
        let m: u128 = ((-(a + 1)) as u128) + 1;
        let r0: u128 = m % (b as u128);
        proof {
            let mi = m as int;
            let bi = b as int;
            lemma_fundamental_div_mod(mi, bi);
            vstd::arithmetic::div_mod::lemma_mod_division_less_than_divisor(mi, bi);
            let qq = mi / bi;
            let rr = mi % bi;
            if rr == 0 {
                assert(-mi == (-qq) * bi + 0) by (nonlinear_arith)
                    requires
                        mi == bi * qq + rr && rr == 0,
                ;
                lemma_fundamental_div_mod_converse(-mi, bi, -qq, 0);
            } else {
                assert(-mi == (-qq - 1) * bi + (bi - rr)) by (nonlinear_arith)
                    requires
                        mi == bi * qq + rr,
                ;
                lemma_fundamental_div_mod_converse(-mi, bi, -qq - 1, bi - rr);
            }
        }
        if r0 == 0 {
            0
        } else {
            b - (r0 as i128)
        }
    }
}

/// The quotient of truncating division of `a` by the positive divisor `b`,
/// rounded towards zero as `/` rounds on machine integers.
pub open spec fn trunc_div_spec(a: int, b: int) -> int {
    if a >= 0 {
        a / b
    } else {
        -((-a) / b)
    }
}

/// Truncating division of `a` by the positive divisor `b`, as `/` computes
/// it on machine integers.
pub fn trunc_div_i64(a: i64, b: i64) -> (q: i64)
    requires
        0 < b,
    ensures
        q == trunc_div_spec(a as int, b as int),
        a >= 0 ==> q >= 0,
        a <= 0 ==> q <= 0,
{
    if a >= 0 {
        let q = (a as u64) / (b as u64);
        proof {
            vstd::arithmetic::div_mod::lemma_div_pos_is_pos(a as int, b as int);
        }
        q as i64
    } else {
        let m: u64 = ((-(a + 1)) as u64) + 1;
        let t: u64 = m / (b as u64);
        proof {
            assert(m as int == -(a as int));
            vstd::arithmetic::div_mod::lemma_div_pos_is_pos(m as int, b as int);
            vstd::arithmetic::div_mod::lemma_div_nonincreasing(m as int, b as int);
        }
        if t >= 9_223_372_036_854_775_808u64 {
            i64::MIN
        } else {
            -(t as i64)
        }
    }
}

/// The remainder of truncating division of `a` by the positive divisor `b`:
/// it has the sign of `a` and magnitude below `b`.
pub open spec fn trunc_rem_spec(a: int, b: int) -> int {
    if a >= 0 {
        a % b
    } else {
        -((-a) % b)
    }
}

/// The decimal digits of `v`, most significant first, as ASCII bytes.
pub open spec fn dec_digits(v: int) -> Seq<u8>
    decreases v,
{
    if v < 10 {
        seq![(48 + v) as u8]
    } else {
        dec_digits(v / 10).push((48 + v % 10) as u8)
    }
}

/// The decimal rendering of the signed value `v`: a leading `-` for negative
/// values, then the digits of the magnitude.
pub open spec fn dec_int(v: int) -> Seq<u8> {
    if v < 0 {
        seq![45u8] + dec_digits(-v)
    } else {
        dec_digits(v)
    }
}

/// Appends the decimal digits of `v` to `out`.
pub fn push_decimal_u64(out: &mut Vec<u8>, v: u64)
    ensures
        final(out)@ == old(out)@ + dec_digits(v as int),
{
    if v == 0 {
        out.push(48);
        proof {
            assert(dec_digits(0) =~= seq![48u8]);
            assert(out@ =~= old(out)@ + dec_digits(0));
        }
        return ;
    }
    let mut tmp: Vec<u8> = Vec::new();
    let mut x: u64 = v;
    while x > 0
        invariant
            0 <= x <= v,
            dec_digits(v as int) =~= (if x > 0 {
                dec_digits(x as int)
            } else {
                Seq::<u8>::empty()
            }) + tmp@.reverse(),
        decreases x,
    {
        let d: u8 = (x % 10) as u8 + 48;
        let x2: u64 = x / 10;
        proof {
            let xi = x as int;
            if xi >= 10 {
                assert(dec_digits(xi) == dec_digits(xi / 10).push((48 + xi % 10) as u8));
            } else {
                vstd::arithmetic::div_mod::lemma_small_mod(xi as nat, 10);
                vstd::arithmetic::div_mod::lemma_basic_div(xi, 10);
                assert(dec_digits(xi) =~= seq![(48 + xi) as u8]);
            }
            assert(tmp@.push(d).reverse() =~= seq![d] + tmp@.reverse());
        }
        tmp.push(d);
        x = x2;
    }
    let n: usize = tmp.len();
    let mut i: usize = 0;
    while i < n
        invariant
            n == tmp@.len(),
            i <= n,
            dec_digits(v as int) =~= tmp@.reverse(),
            out@ =~= old(out)@ + tmp@.reverse().take(i as int),
        decreases n - i,
    {
        let b: u8 = tmp[n - 1 - i];
        proof {
            assert(tmp@.reverse()[i as int] == tmp@[n - 1 - i]);
            assert(tmp@.reverse().take(i + 1) =~= tmp@.reverse().take(i as int).push(
                tmp@.reverse()[i as int],
            ));
        }
        out.push(b);
        i = i + 1;
    }
    proof {
        assert(tmp@.reverse().take(n as int) =~= tmp@.reverse());
    }
}

/// Appends the decimal rendering of the signed value `v` to `out`, with a
/// leading `-` when `v` is negative.
pub fn push_decimal_i64(out: &mut Vec<u8>, v: i64)
    ensures
        final(out)@ == old(out)@ + dec_int(v as int),
{
    if v < 0 {
        out.push(45);
        let m: u64 = ((-(v + 1)) as u64) + 1;
        push_decimal_u64(out, m);
        proof {
            assert(out@ =~= old(out)@ + dec_int(v as int));
        }
    } else {
        push_decimal_u64(out, v as u64);
    }
}

/// Appends the UTF-8 bytes of `s` to `out`.
pub fn push_str_bytes(out: &mut Vec<u8>, s: &str)
    ensures
        final(out)@ == old(out)@ + s.spec_bytes(),
{
    let bs: &[u8] = s.as_bytes();
    let n: usize = bs.len();
    let mut i: usize = 0;
    while i < n
        invariant
            n == bs@.len(),
            i <= n,
            bs@ == s.spec_bytes(),
            out@ =~= old(out)@ + bs@.take(i as int),
        decreases n - i,
    {
        let b: u8 = bs[i];
        proof {
            assert(bs@.take(i + 1) =~= bs@.take(i as int).push(bs@[i as int]));
        }
        out.push(b);
        i = i + 1;
    }
    proof {
        assert(bs@.take(n as int) =~= bs@);
    }
}

/// Truncating remainder of `a` modulo the positive divisor `b`, as `%`
/// computes it on machine integers.
pub fn trunc_rem_i64(a: i64, b: i64) -> (r: i64)
    requires
        0 < b,
    ensures
        r == trunc_rem_spec(a as int, b as int),
        -b < r < b,
        a >= 0 ==> r >= 0,
        a <= 0 ==> r <= 0,
{
    if a >= 0 {
        let r = (a as u64) % (b as u64);
        proof {
            vstd::arithmetic::div_mod::lemma_mod_division_less_than_divisor(a as int, b as int);
            if a == 0 {
                vstd::arithmetic::div_mod::lemma_small_mod(0, b as nat);
            }
        }
        r as i64
    } else {
        let m = ((-(a + 1)) as u64) + 1;
        let r = m % (b as u64);
        proof {
            assert(m as int == -(a as int));
            vstd::arithmetic::div_mod::lemma_mod_division_less_than_divisor(m as int, b as int);
        }
        -(r as i64)
    }
}

/// Truncating division and remainder recompose the dividend.
pub proof fn lemma_trunc_decompose(a: int, b: int)
    requires
        0 < b,
    ensures
        trunc_div_spec(a, b) * b + trunc_rem_spec(a, b) == a,
{
    if a >= 0 {
        vstd::arithmetic::div_mod::lemma_fundamental_div_mod(a, b);
        assert(trunc_div_spec(a, b) * b + trunc_rem_spec(a, b) == a)
            by (nonlinear_arith)
            requires
                a >= 0 && trunc_div_spec(a, b) == a / b && trunc_rem_spec(a, b) == a
                    % b && a == b * (a / b) + (a % b),
        ;
    } else {
        vstd::arithmetic::div_mod::lemma_fundamental_div_mod(-a, b);
        assert(trunc_div_spec(a, b) * b + trunc_rem_spec(a, b) == a)
            by (nonlinear_arith)
            requires
                a < 0 && trunc_div_spec(a, b) == -((-a) / b) && trunc_rem_spec(a, b)
                    == -((-a) % b) && -a == b * ((-a) / b) + ((-a) % b),
        ;
    }
}

} // verus!
