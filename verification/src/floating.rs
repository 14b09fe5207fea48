//! Floating-point numbers, kept as the integers that their bits spell.
//!
//! A single-precision number has a sign bit, eight bits of exponent and twenty-three of fraction;
//! a double-precision number has a sign bit, eleven bits of exponent and fifty-two of fraction.

use vstd::arithmetic::logarithm::{lemma_log0, lemma_log_nonnegative, lemma_log_s, log};
use vstd::arithmetic::power2::{lemma2_to64, lemma2_to64_rest, lemma_pow2_adds, lemma_pow2_pos, lemma_pow2_unfold, pow2};
use vstd::prelude::*;

verus! {

pub open spec fn single_sign(bits: u32) -> int {
    bits as int / 0x8000_0000
}

pub open spec fn single_exponent(bits: u32) -> int {
    bits as int / 0x80_0000 % 0x100
}

pub open spec fn single_fraction(bits: u32) -> int {
    bits as int % 0x80_0000
}

pub open spec fn double_sign(bits: u64) -> int {
    bits as int / 0x8000_0000_0000_0000
}

pub open spec fn double_exponent(bits: u64) -> int {
    bits as int / 0x10_0000_0000_0000 % 0x800
}

pub open spec fn double_fraction(bits: u64) -> int {
    bits as int % 0x10_0000_0000_0000
}

/// The double whose sign, exponent and fraction bits are these.
pub open spec fn double_of(sign: int, exponent: int, fraction: int) -> u64 {
    (sign * 0x8000_0000_0000_0000 + exponent * 0x10_0000_0000_0000 + fraction) as u64
}

/// The double that stands for the same number as the single with these bits: an infinity for an
/// infinity, and for what is not a number, what is not a number, its fraction kept and made quiet.
pub open spec fn widened(bits: u32) -> u64 {
    let sign = single_sign(bits);
    let exponent = single_exponent(bits);
    let fraction = single_fraction(bits);
    if exponent == 0xff {
        let quiet = if 0 < fraction < 0x40_0000 {
            fraction + 0x40_0000
        } else {
            fraction
        };
        double_of(sign, 0x7ff, quiet * 0x2000_0000)
    } else if exponent > 0 {
        double_of(sign, exponent + 896, fraction * 0x2000_0000)
    } else if fraction == 0 {
        double_of(sign, 0, 0)
    } else {
        let top = log(2, fraction) as nat;
        double_of(sign, log(2, fraction) + 874, (fraction - pow2(top)) * pow2((52 - top) as nat))
    }
}

/// How far the finite single is from zero, in units of the least positive double.
pub open spec fn single_magnitude(bits: u32) -> int {
    if single_exponent(bits) == 0 {
        single_fraction(bits) * pow2(925)
    } else {
        (single_fraction(bits) + 0x80_0000) * pow2((single_exponent(bits) + 924) as nat)
    }
}

/// How far the finite double is from zero, in units of the least positive double.
pub open spec fn double_magnitude(bits: u64) -> int {
    if double_exponent(bits) == 0 {
        double_fraction(bits)
    } else {
        (double_fraction(bits) + 0x10_0000_0000_0000) * pow2((double_exponent(bits) - 1) as nat)
    }
}

/// The sign, the exponent and the fraction of a double are those that it is made of.
pub proof fn lemma_double_of(sign: int, exponent: int, fraction: int)
    requires
        0 <= sign <= 1,
        0 <= exponent < 0x800,
        0 <= fraction < 0x10_0000_0000_0000,
    ensures
        double_of(sign, exponent, fraction) == sign * 0x8000_0000_0000_0000 + exponent
            * 0x10_0000_0000_0000 + fraction,
        double_sign(double_of(sign, exponent, fraction)) == sign,
        double_exponent(double_of(sign, exponent, fraction)) == exponent,
        double_fraction(double_of(sign, exponent, fraction)) == fraction,
{
}

/// The place of the highest bit of `n`.
proof fn lemma_top_bit(n: int, top: nat)
    requires
        pow2(top) <= n < pow2(top + 1),
    ensures
        log(2, n) == top,
{
    lemma_pow2_pos(top);
    lemma_log_bounds(n);
    lemma_log_below(n, top + 1);
    let place = log(2, n) as nat;
    if place < top {
        lemma_pow2_adds(place + 1, (top - place - 1) as nat);
        lemma_pow2_pos((top - place - 1) as nat);
        let factor = pow2((top - place - 1) as nat) as int;
        assert(pow2(place + 1) * factor >= pow2(place + 1)) by (nonlinear_arith)
            requires
                factor >= 1,
        ;
    }
}

/// A number below `pow2(bound)` has its highest bit below the place `bound`.
proof fn lemma_log_below(n: int, bound: nat)
    requires
        1 <= n < pow2(bound),
    ensures
        log(2, n) < bound,
    decreases bound,
{
    lemma2_to64();
    if bound > 1 {
        lemma_pow2_unfold(bound);
        if n >= 2 {
            lemma_log_s(2, n);
            lemma_log_below(n / 2, (bound - 1) as nat);
        } else {
            lemma_log0(2, n);
        }
    } else {
        lemma_log0(2, n);
    }
}

/// The bits of the double that stands for the same number as the single with the given bits.
pub fn widen(bits: u32) -> (r: u64)
    ensures
        r == widened(bits),
{
    let sign: u64 = (bits / 0x8000_0000) as u64;
    let exponent: u64 = (bits / 0x80_0000 % 0x100) as u64;
    let fraction: u64 = (bits % 0x80_0000) as u64;
    let (wide_exponent, wide_fraction): (u64, u64) = if exponent == 0xff {
        let quiet: u64 = if 0 < fraction && fraction < 0x40_0000 {
            fraction + 0x40_0000
        } else {
            fraction
        };
        (0x7ff, quiet * 0x2000_0000)
    } else if exponent > 0 {
        (exponent + 896, fraction * 0x2000_0000)
    } else if fraction == 0 {
        (0, 0)
    } else {
        widen_subnormal(fraction)
    };
    proof {
        lemma_double_of(sign as int, wide_exponent as int, wide_fraction as int);
    }
    sign * 0x8000_0000_0000_0000 + wide_exponent * 0x10_0000_0000_0000 + wide_fraction
}

/// The exponent and the fraction of the double for a single below the normal ones.
fn widen_subnormal(fraction: u64) -> (r: (u64, u64))
    requires
        0 < fraction < 0x80_0000,
    ensures
        0 <= log(2, fraction as int) <= 22,
        r.0 == log(2, fraction as int) + 874,
        r.1 == (fraction - pow2(log(2, fraction as int) as nat)) * pow2(
            (52 - log(2, fraction as int)) as nat,
        ),
        r.0 < 0x800,
        r.1 < 0x10_0000_0000_0000,
{
    let mut top: u64 = 22;
    let mut unit: u64 = 0x40_0000;
    let mut scale: u64 = 0x4000_0000;
    proof {
        lemma2_to64();
    }
    while unit > fraction
        invariant
            0 < fraction < 0x80_0000,
            0 <= top <= 22,
            unit == pow2(top as nat),
            scale == pow2((52 - top) as nat),
            fraction < 2 * unit,
            unit * scale == 0x10_0000_0000_0000,
            scale <= 0x10_0000_0000_0000,
        decreases unit,
    {
        proof {
            lemma2_to64();
            assert(top > 0);
            lemma_pow2_unfold(top as nat);
            lemma_pow2_unfold((53 - top) as nat);
            assert(unit / 2 * 2 == unit);
            assert((unit / 2) * (scale * 2) == unit * scale) by (nonlinear_arith)
                requires
                    unit / 2 * 2 == unit,
            ;
            assert(scale * 2 <= 0x10_0000_0000_0000) by (nonlinear_arith)
                requires
                    (unit / 2) * (scale * 2) == 0x10_0000_0000_0000,
                    unit / 2 >= 1,
            ;
        }
        top = top - 1;
        unit = unit / 2;
        scale = scale * 2;
    }
    proof {
        lemma_pow2_unfold((top + 1) as nat);
        lemma_top_bit(fraction as int, top as nat);
        lemma_pow2_pos((52 - top) as nat);
        assert((fraction - unit) * scale < 0x10_0000_0000_0000) by (nonlinear_arith)
            requires
                unit <= fraction < 2 * unit,
                unit * scale == 0x10_0000_0000_0000,
                scale > 0,
        ;
        lemma2_to64();
    }
    (top + 874, (fraction - unit) * scale)
}

/// Widening keeps the sign of every single. A finite single becomes a finite double that is as far
/// from zero, an infinity stays one, and what is not a number stays so.
pub proof fn law_widening_keeps_the_number(bits: u32)
    ensures
        double_sign(widened(bits)) == single_sign(bits),
        single_exponent(bits) != 0xff ==> double_exponent(widened(bits)) != 0x7ff
            && double_magnitude(widened(bits)) == single_magnitude(bits),
        single_exponent(bits) == 0xff ==> double_exponent(widened(bits)) == 0x7ff && (
        double_fraction(widened(bits)) == 0 <==> single_fraction(bits) == 0),
{
    let sign = single_sign(bits);
    let exponent = single_exponent(bits);
    let fraction = single_fraction(bits);
    if exponent == 0xff {
        let quiet = if 0 < fraction < 0x40_0000 {
            fraction + 0x40_0000
        } else {
            fraction
        };
        lemma_double_of(sign, 0x7ff, quiet * 0x2000_0000);
    } else if exponent > 0 {
        lemma_double_of(sign, exponent + 896, fraction * 0x2000_0000);
        lemma2_to64();
        lemma_pow2_adds(29, (exponent + 895) as nat);
        let power = pow2((exponent + 895) as nat) as int;
        assert((fraction * 0x2000_0000 + 0x10_0000_0000_0000) * power == (fraction + 0x80_0000) * (
        0x2000_0000 * power)) by (nonlinear_arith);
    } else if fraction == 0 {
        lemma_double_of(sign, 0, 0);
    } else {
        lemma2_to64();
        lemma2_to64_rest();
        lemma_log_below(fraction, 23);
        lemma_log_nonnegative(2, fraction);
        let top = log(2, fraction) as nat;
        lemma_log_bounds(fraction);
        let unit = pow2(top) as int;
        let scale = pow2((52 - top) as nat) as int;
        let power = pow2((top + 873) as nat) as int;
        lemma_pow2_adds(top, (52 - top) as nat);
        lemma_pow2_adds((52 - top) as nat, top + 873);
        lemma_pow2_unfold(top + 1);
        lemma_pow2_pos((52 - top) as nat);
        assert(0 <= (fraction - unit) * scale < 0x10_0000_0000_0000) by (nonlinear_arith)
            requires
                unit <= fraction < 2 * unit,
                unit * scale == 0x10_0000_0000_0000,
                scale > 0,
        ;
        lemma_double_of(sign, log(2, fraction) + 874, (fraction - unit) * scale);
        assert(((fraction - unit) * scale + 0x10_0000_0000_0000) * power == fraction * (scale
            * power)) by (nonlinear_arith)
            requires
                unit * scale == 0x10_0000_0000_0000,
        ;
    }
}

/// A positive number lies between the power of two of its highest bit and the next one.
proof fn lemma_log_bounds(n: int)
    requires
        n >= 1,
    ensures
        log(2, n) >= 0,
        pow2(log(2, n) as nat) <= n < pow2((log(2, n) + 1) as nat),
    decreases n,
{
    lemma2_to64();
    if n < 2 {
        lemma_log0(2, n);
    } else {
        lemma_log_s(2, n);
        lemma_log_bounds(n / 2);
        lemma_pow2_unfold(log(2, n) as nat);
        lemma_pow2_unfold((log(2, n) + 1) as nat);
    }
}

} // verus!
