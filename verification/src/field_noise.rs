//! Deterministic integer-valued coherent noise.
//!
//! A field is addressed in fixed-point thousandths: the sample position
//! `(sx, sy)` stands for the point `(sx / 1000, sy / 1000)`. Each lattice
//! cell holds a pseudo-random value in `[-1000, 1000]` mixed from the seed
//! and the cell indices alone, and samples between lattice points are
//! smoothly interpolated, so the field is a pure function of
//! `(seed, sx, sy)`: the same arguments always reproduce the same sample.

use vstd::arithmetic::div_mod::{
    lemma_div_is_ordered,
    lemma_div_multiples_vanish,
    lemma_div_pos_is_pos,
};
use vstd::arithmetic::mul::lemma_mul_inequality;
use vstd::prelude::*;

verus! {

/// Largest sample position magnitude the field accepts; keeps every
/// intermediate product inside `i64`.
pub open spec fn sample_limit() -> int {
    0x8_0000_0000_0000
}

/// Pseudo-random lattice value in `[-1000, 1000]`, mixed from the seed and
/// the nonnegative cell indices by multiply-add rounds modulo 2^32.
pub open spec fn cell_value(seed: u64, qx: int, qy: int) -> int {
    let m = 0x1_0000_0000;
    let a = qx % m;
    let b = qy % m;
    let s = (seed as int) % m;
    let n0 = (a * 0x9E37_79B1 % m + b * 0x85EB_CA77 % m + s * 0xC2B2_AE35 % m) % m;
    let n1 = (n0 * 0x2722_0A95 % m + 0x9E37_79B1) % m;
    let n2 = (n1 * 0x1656_67B1 % m + 0x85EB_CA77) % m;
    n2 % 2001 - 1000
}

/// Smoothstep fade of a fractional offset `t` in `[0, 1000)`: the cubic
/// `t^2 (3 - 2t)` in fixed point, which eases interpolation weights in and
/// out at the lattice points.
pub open spec fn fade(t: int) -> int {
    t * t * (3000 - 2 * t) / 1_000_000
}

/// Linear interpolation from `a` to `b` by weight `u` in `[0, 1000]`,
/// phrased so the scaled difference is nonnegative in both branches.
pub open spec fn lerp(a: int, b: int, u: int) -> int {
    if b >= a {
        a + (b - a) * u / 1000
    } else {
        a - (a - b) * u / 1000
    }
}

/// The field's value at sample position `(sx, sy)`: the bilinear blend,
/// with faded weights, of the four lattice values around the position. The
/// position is shifted into the nonnegative range first so that the cell
/// index and the fractional offset come from floor division.
#[verifier::opaque]
pub open spec fn field_at(seed: u64, sx: int, sy: int) -> int {
    let tx = sx + 0x10_0000_0000_0000;
    let ty = sy + 0x10_0000_0000_0000;
    let qx = tx / 1000;
    let qy = ty / 1000;
    let fx = tx % 1000;
    let fy = ty % 1000;
    let h00 = cell_value(seed, qx, qy);
    let h10 = cell_value(seed, qx + 1, qy);
    let h01 = cell_value(seed, qx, qy + 1);
    let h11 = cell_value(seed, qx + 1, qy + 1);
    let ux = fade(fx);
    let uy = fade(fy);
    lerp(lerp(h00, h10, ux), lerp(h01, h11, ux), uy)
}

/// Computes one pseudo-random lattice value.
fn cell_value_exec(seed: u64, qx: i64, qy: i64) -> (h: i64)
    requires
        0 <= qx < 0x20_0000_0000_0000,
        0 <= qy < 0x20_0000_0000_0000,
    ensures
        h == cell_value(seed, qx as int, qy as int),
        -1000 <= h <= 1000,
{
    let m: u64 = 0x1_0000_0000;
    let a: u64 = (qx as u64) % m;
    let b: u64 = (qy as u64) % m;
    let s: u64 = seed % m;
    let n0: u64 = (a * 0x9E37_79B1 % m + b * 0x85EB_CA77 % m + s * 0xC2B2_AE35 % m) % m;
    let n1: u64 = (n0 * 0x2722_0A95 % m + 0x9E37_79B1) % m;
    let n2: u64 = (n1 * 0x1656_67B1 % m + 0x85EB_CA77) % m;
    (n2 % 2001) as i64 - 1000
}

/// Computes the smoothstep fade, proved to stay within `[0, 1000]`.
fn fade_exec(t: i64) -> (u: i64)
    requires
        0 <= t < 1000,
    ensures
        u == fade(t as int),
        0 <= u <= 1000,
{
    proof {
        let ti = t as int;
        assert(0 <= ti * ti <= 1_000_000) by (nonlinear_arith)
            requires
                0 <= ti < 1000,
        ;
        assert(0 <= ti * ti * (3000 - 2 * ti) <= 3_000_000_000) by (nonlinear_arith)
            requires
                0 <= ti < 1000,
        ;
    }
    let n: i64 = t * t * (3000 - 2 * t);
    proof {
        let ti = t as int;
        assert(1_000_000_000 - ti * ti * (3000 - 2 * ti) == (1000 - ti) * (1000 - ti) * (1000 + 2
            * ti)) by (nonlinear_arith);
        assert((1000 - ti) * (1000 - ti) * (1000 + 2 * ti) >= 0) by (nonlinear_arith)
            requires
                0 <= ti <= 1000,
        ;
        assert(ti * ti * (3000 - 2 * ti) >= 0) by (nonlinear_arith)
            requires
                0 <= ti <= 1000,
        ;
        lemma_div_pos_is_pos(n as int, 1_000_000);
        lemma_div_is_ordered(n as int, 1_000_000_000, 1_000_000);
        lemma_div_multiples_vanish(1000, 1_000_000);
    }
    n / 1_000_000
}

/// Interpolates between two samples, proved to stay between them.
fn lerp_exec(a: i64, b: i64, u: i64) -> (r: i64)
    requires
        -1000 <= a <= 1000,
        -1000 <= b <= 1000,
        0 <= u <= 1000,
    ensures
        r == lerp(a as int, b as int, u as int),
        -1000 <= r <= 1000,
{
    proof {
        let ai = a as int;
        let bi = b as int;
        let ui = u as int;
        if bi >= ai {
            let d = bi - ai;
            lemma_mul_inequality(ui, 1000, d);
            lemma_div_pos_is_pos(d * ui, 1000);
            lemma_div_is_ordered(d * ui, d * 1000, 1000);
            lemma_div_multiples_vanish(d, 1000);
            assert(d * ui == ui * d) by (nonlinear_arith);
        } else {
            let d = ai - bi;
            lemma_mul_inequality(ui, 1000, d);
            lemma_div_pos_is_pos(d * ui, 1000);
            lemma_div_is_ordered(d * ui, d * 1000, 1000);
            lemma_div_multiples_vanish(d, 1000);
            assert(d * ui == ui * d) by (nonlinear_arith);
        }
    }
    if b >= a {
        a + (b - a) * u / 1000
    } else {
        a - (a - b) * u / 1000
    }
}

/// Samples the field at `(sx, sy)`. The result equals `field_at` on the
/// same arguments — the field is deterministic — and lies in
/// `[-1000, 1000]`.
pub fn sample_field(seed: u64, sx: i64, sy: i64) -> (v: i64)
    requires
        -sample_limit() <= sx <= sample_limit(),
        -sample_limit() <= sy <= sample_limit(),
    ensures
        v == field_at(seed, sx as int, sy as int),
        -1000 <= v <= 1000,
{
    proof {
        reveal(field_at);
    }
    let tx: i64 = sx + 0x10_0000_0000_0000;
    let ty: i64 = sy + 0x10_0000_0000_0000;
    let qx: i64 = tx / 1000;
    let qy: i64 = ty / 1000;
    let fx: i64 = tx % 1000;
    let fy: i64 = ty % 1000;
    let h00 = cell_value_exec(seed, qx, qy);
    let h10 = cell_value_exec(seed, qx + 1, qy);
    let h01 = cell_value_exec(seed, qx, qy + 1);
    let h11 = cell_value_exec(seed, qx + 1, qy + 1);
    let ux = fade_exec(fx);
    let uy = fade_exec(fy);
    let a = lerp_exec(h00, h10, ux);
    let b = lerp_exec(h01, h11, ux);
    lerp_exec(a, b, uy)
}

} // verus!
