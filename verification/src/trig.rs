//! Fixed-point sine oscillator.
//!
//! A full turn of the oscillator is split into 65536 equal angle units, so an
//! angle fits in a `u16` and wraps exactly once per cycle. The sine magnitude
//! is a rational approximation (Bhaskara I's formula) evaluated exactly in
//! 64-bit integers, scaled so that the peak value is 32767.

use vstd::prelude::*;
use vstd::arithmetic::div_mod::{
    lemma_div_by_multiple, lemma_div_is_ordered, lemma_div_pos_is_pos,
    lemma_mod_division_less_than_divisor, lemma_mul_mod_noop_left, lemma_multiply_divide_lt,
};

verus! {

/// Sine magnitude over the first half turn, `u` in `[0, 32768)`: an exact
/// integer evaluation of Bhaskara I's rational approximation of
/// `32767 * sin(pi * u / 32768)`.
pub open spec fn half_sine(u: int) -> int {
    (32767 * 16 * u * (32768 - u)) / (5 * 32768 * 32768 - 4 * u * (32768 - u))
}

/// Signed sine over one full turn of 65536 angle units: the positive half
/// wave on `[0, 32768)`, its mirror image below zero on `[32768, 65536)`.
pub open spec fn signed_sine(a: int) -> int {
    if a < 32768 {
        half_sine(a)
    } else {
        -half_sine(a - 32768)
    }
}

/// Phase of frame `t` for a tone at `f` Hz sampled at `sr` Hz, reduced to one
/// turn and expressed in angle units: the fractional part of `t * f / sr`
/// turns, scaled by 65536 and rounded down.
pub open spec fn angle_at(t: nat, f: nat, sr: nat) -> int {
    ((((t * f) % sr) * 65536) / sr) as int
}

/// The product `4 * u * (32768 - u)` peaks at the midpoint of the half turn,
/// where it equals `32768 * 32768`.
proof fn lemma_product_bound(u: int)
    by (nonlinear_arith)
    requires
        0 <= u <= 32768,
    ensures
        0 <= 4 * u * (32768 - u) <= 32768 * 32768,
{
}

/// The half-wave magnitude never leaves `[0, 32767]`: the numerator of
/// `half_sine` is at most 32767 times its denominator.
pub proof fn lemma_half_sine_range(u: int)
    requires
        0 <= u < 32768,
    ensures
        0 <= half_sine(u) <= 32767,
{
    let num = 32767 * 16 * u * (32768 - u);
    let den = 5 * 32768 * 32768 - 4 * u * (32768 - u);
    assert(num >= 0 && den > 0 && num <= 32767 * den) by (nonlinear_arith)
        requires
            0 <= u < 32768,
            num == 32767 * 16 * u * (32768 - u),
            den == 5 * 32768 * 32768 - 4 * u * (32768 - u),
    {
        assert((32768 - 2 * u) * (32768 - 2 * u) >= 0);
    }
    lemma_div_pos_is_pos(num, den);
    lemma_div_is_ordered(num, 32767 * den, den);
    lemma_div_by_multiple(32767, den);
}

/// The signed sine never leaves `[-32767, 32767]`.
pub proof fn lemma_sine_range(a: int)
    requires
        0 <= a < 65536,
    ensures
        -32767 <= signed_sine(a) <= 32767,
{
    if a < 32768 {
        lemma_half_sine_range(a);
    } else {
        lemma_half_sine_range(a - 32768);
    }
}

/// A reduced phase always lands inside one turn.
pub proof fn lemma_angle_range(t: nat, f: nat, sr: nat)
    requires
        sr > 0,
    ensures
        0 <= angle_at(t, f, sr) < 65536,
{
    let r = (t * f) % sr;
    lemma_mod_division_less_than_divisor((t * f) as int, sr as int);
    assert(r * 65536 < sr * 65536) by (nonlinear_arith)
        requires
            r < sr,
    ;
    lemma_multiply_divide_lt((r * 65536) as int, sr as int, 65536);
    lemma_div_pos_is_pos((r * 65536) as int, sr as int);
}

/// Computes `half_sine(u)` exactly, in 64-bit arithmetic.
fn half_sine_fixed(u: u16) -> (s: u16)
    requires
        u < 32768,
    ensures
        s as int == half_sine(u as int),
        s <= 32767,
{
    proof {
        lemma_product_bound(u as int);
        lemma_half_sine_range(u as int);
    }
    let uu: u64 = u as u64;
    proof {
        assert((uu as int) * (32768 - uu as int) < 0x4000_0000) by (nonlinear_arith)
            requires
                0 <= uu < 32768,
        ;
    }
    let p: u64 = uu * (32768 - uu);
    let num: u64 = 32767 * 16 * p;
    let den: u64 = 5 * 32768 * 32768 - 4 * p;
    proof {
        assert(32767 * 16 * (p as int) == 32767 * 16 * (u as int) * (32768 - u as int))
            by (nonlinear_arith)
            requires
                p == (u as int) * (32768 - u as int),
        ;
        assert(4 * (p as int) == 4 * (u as int) * (32768 - u as int)) by (nonlinear_arith)
            requires
                p == (u as int) * (32768 - u as int),
        ;
    }
    let q: u64 = num / den;
    q as u16
}

/// Computes `signed_sine(a)` for an angle in units of 1/65536 turn.
pub fn sine_fixed(a: u16) -> (s: i16)
    ensures
        s as int == signed_sine(a as int),
        -32767 <= s as int <= 32767,
{
    if a < 32768 {
        let m = half_sine_fixed(a);
        m as i16
    } else {
        let m = half_sine_fixed(a - 32768);
        -(m as i16)
    }
}

/// Computes `angle_at(t, f, sr)` exactly: reducing `t` modulo `sr` first does
/// not change the phase, because `(t * f) mod sr == ((t mod sr) * f) mod sr`.
pub fn angle_fixed(t: usize, f: u32, sr: u32) -> (a: u16)
    requires
        sr > 0,
    ensures
        a as int == angle_at(t as nat, f as nat, sr as nat),
{
    let sr64: u64 = sr as u64;
    let tm: u64 = (t as u64) % sr64;
    proof {
        assert((tm as int) * (f as int) <= 0xffff_ffff * 0xffff_ffff) by (nonlinear_arith)
            requires
                0 <= tm <= 0xffff_ffff,
                0 <= f <= 0xffff_ffff,
        ;
    }
    let r: u64 = (tm * (f as u64)) % sr64;
    proof {
        lemma_mul_mod_noop_left(t as int, f as int, sr as int);
        lemma_mod_division_less_than_divisor((tm * (f as u64)) as int, sr as int);
        assert((r as int) * 65536 < (sr as int) * 65536) by (nonlinear_arith)
            requires
                r < sr,
        ;
        lemma_multiply_divide_lt((r as int) * 65536, sr as int, 65536);
        lemma_div_pos_is_pos((r as int) * 65536, sr as int);
    }
    let a64: u64 = r * 65536 / sr64;
    a64 as u16
}

} // verus!
