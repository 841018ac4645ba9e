//! Degree-based trigonometry on the fixed-point grid.
//!
//! The whole public surface of this library speaks degrees, never radians.
//! `sin_deg`/`cos_deg`/`tan_deg` return grid values (`SCALE` stands for 1.0)
//! computed from a rational half-turn approximation that is exact at every
//! multiple of 90 degrees, which is what the rotation identities rely on.

use vstd::prelude::*;
use vstd::arithmetic::div_mod::{
    lemma_fundamental_div_mod,
    lemma_fundamental_div_mod_converse_mod,
    lemma_mod_multiples_basic,
    lemma_mod_add_multiples_vanish,
    lemma_add_mod_noop,
    lemma_small_mod,
};
use crate::arith::{SCALE, abs_int, tdiv, tdiv_i128};

verus! {

/// Rational degree-sine on a half turn `0 <= x <= 180`:
/// `4 x (180 - x) SCALE / (40500 - x (180 - x))`.
pub open spec fn spec_sin_half_turn(x: int) -> int {
    let p = x * (180 - x);
    (4 * p * (SCALE as int)) / (40500 - p)
}

/// Degree-sine of any integer angle, by reduction to a half turn.
pub open spec fn spec_sin_deg(d: int) -> int {
    let m = d % 360;
    if m <= 180 {
        spec_sin_half_turn(m)
    } else {
        -spec_sin_half_turn(m - 180)
    }
}

/// Degree-cosine as the quarter-turn shift of the sine.
pub open spec fn spec_cos_deg(d: int) -> int {
    spec_sin_deg(d + 90)
}

/// Degree-tangent on the grid: `sin * SCALE / cos`, truncating.
pub open spec fn spec_tan_deg(d: int) -> int {
    tdiv(spec_sin_deg(d) * (SCALE as int), spec_cos_deg(d))
}

/// The half-turn sine stays on the grid: `0 <= sin <= SCALE`.
pub proof fn lemma_sin_half_turn_range(x: int)
    requires
        0 <= x <= 180,
    ensures
        0 <= spec_sin_half_turn(x) <= SCALE as int,
{
    assert(SCALE as int == 1000);
    let p = x * (180 - x);
    assert(0 <= p <= 8100) by (nonlinear_arith)
        requires
            0 <= x <= 180,
            p == x * (180 - x),
    ;
    assert((4 * p * (SCALE as int)) / (40500 - p) >= 0
        && (4 * p * (SCALE as int)) / (40500 - p) <= 1000) by (nonlinear_arith)
        requires
            0 <= p <= 8100,
            SCALE as int == 1000,
    ;
}

/// The degree-sine of any angle stays on the grid.
pub proof fn lemma_sin_deg_range(d: int)
    ensures
        -(SCALE as int) <= spec_sin_deg(d) <= SCALE as int,
{
    let m = d % 360;
    assert(0 <= m < 360);
    if m <= 180 {
        lemma_sin_half_turn_range(m);
    } else {
        lemma_sin_half_turn_range(m - 180);
    }
}

/// The degree-sine only depends on the angle modulo a full turn.
pub proof fn lemma_sin_deg_congruent(a: int, b: int)
    requires
        a % 360 == b % 360,
    ensures
        spec_sin_deg(a) == spec_sin_deg(b),
{
}

/// Exact values at the quadrant angles; the rotation identities need them.
pub proof fn lemma_trig_cardinal()
    ensures
        spec_sin_deg(0) == 0,
        spec_sin_deg(90) == SCALE as int,
        spec_sin_deg(180) == 0,
        spec_sin_deg(270) == -(SCALE as int),
        spec_cos_deg(0) == SCALE as int,
        spec_cos_deg(90) == 0,
        spec_cos_deg(180) == -(SCALE as int),
        spec_cos_deg(270) == 0,
        spec_cos_deg(360) == SCALE as int,
{
    let p0 = 0int * (180 - 0);
    assert(p0 == 0 && (4 * p0 * (SCALE as int)) / (40500 - p0) == 0) by (nonlinear_arith)
        requires
            p0 == 0 * (180 - 0),
            SCALE as int == 1000,
    ;
    let p90 = 90int * (180 - 90);
    assert(p90 == 8100 && (4 * p90 * (SCALE as int)) / (40500 - p90) == 1000) by (nonlinear_arith)
        requires
            p90 == 90 * (180 - 90),
            SCALE as int == 1000,
    ;
    let p180 = 180int * (180 - 180);
    assert(p180 == 0 && (4 * p180 * (SCALE as int)) / (40500 - p180) == 0) by (nonlinear_arith)
        requires
            p180 == 180 * (180 - 180),
            SCALE as int == 1000,
    ;
    assert(spec_sin_half_turn(0) == 0);
    assert(spec_sin_half_turn(90) == 1000);
    assert(spec_sin_half_turn(180) == 0);
    assert(0int % 360 == 0 && 90int % 360 == 90 && 180int % 360 == 180 && 270int % 360 == 270)
        by (nonlinear_arith);
    assert(360int % 360 == 0 && 450int % 360 == 90) by (nonlinear_arith);
}

/// The half-turn sine is strictly positive strictly inside the half turn.
proof fn lemma_sin_half_turn_pos(x: int)
    requires
        1 <= x <= 179,
    ensures
        spec_sin_half_turn(x) >= 1,
{
    let p = x * (180 - x);
    assert(179 <= p <= 8100) by (nonlinear_arith)
        requires
            1 <= x <= 179,
            p == x * (180 - x),
    ;
    assert((4 * p * (SCALE as int)) / (40500 - p) >= 1) by (nonlinear_arith)
        requires
            179 <= p <= 8100,
            SCALE as int == 1000,
    ;
}

/// Where the cosine vanishes the sine is exactly plus or minus `SCALE`, so
/// a rotation quaternion can never collapse to zero.
pub proof fn lemma_cos_zero_sin_unit(d: int)
    requires
        spec_cos_deg(d) == 0,
    ensures
        spec_sin_deg(d) == 1000 || spec_sin_deg(d) == -1000,
{
    lemma_trig_cardinal();
    let m2 = (d + 90) % 360;
    assert(0 <= m2 < 360);
    if m2 <= 180 {
        if 1 <= m2 && m2 <= 179 {
            lemma_sin_half_turn_pos(m2);
            assert(false);
        }
    } else {
        lemma_sin_half_turn_pos(m2 - 180);
        assert(false);
    }
    lemma_mod_add_multiples_vanish(d, 360);
    lemma_add_mod_noop(d + 90, 270, 360);
    lemma_small_mod(270nat, 360);
    lemma_small_mod(m2 as nat, 360);
    assert((d + 90) + 270 == d + 360);
    if m2 == 0 {
        assert((0int + 270) % 360 == 270) by (nonlinear_arith);
        lemma_small_mod(270nat, 360);
        lemma_sin_deg_congruent(d, 270);
    } else {
        assert((180int + 270) % 360 == 90) by (nonlinear_arith);
        lemma_small_mod(90nat, 360);
        lemma_sin_deg_congruent(d, 90);
    }
}

/// Reduces an angle to `[0, 360)` degrees.
pub fn mod360(d: i64) -> (m: i64)
    requires
        d > i64::MIN,
    ensures
        m as int == (d as int) % 360,
        0 <= m < 360,
{
    if d >= 0 {
        ((d as u64) % 360) as i64
    } else {
        let u: u64 = (-(d as i128)) as u64;
        let r: u64 = u % 360;
        proof {
            lemma_fundamental_div_mod(u as int, 360);
            let qq = u as int / 360;
            if r == 0 {
                assert(d as int == (-qq) * 360) by (nonlinear_arith)
                    requires
                        d as int == -(u as int),
                        u as int == 360 * qq + r as int,
                        r as int == 0,
                ;
                lemma_mod_multiples_basic(-qq, 360);
            } else {
                assert(d as int == 360 * (-qq - 1) + (360 - r as int)) by (nonlinear_arith)
                    requires
                        d as int == -(u as int),
                        u as int == 360 * qq + r as int,
                ;
                lemma_fundamental_div_mod_converse_mod(d as int, 360, -qq - 1, 360 - r as int);
            }
        }
        if r == 0 {
            0
        } else {
            360 - (r as i64)
        }
    }
}

/// Half-turn sine on `[0, 180]` degrees.
fn sin_half_turn(x: i64) -> (r: i64)
    requires
        0 <= x <= 180,
    ensures
        r as int == spec_sin_half_turn(x as int),
        0 <= r <= SCALE,
{
    proof {
        assert(0 <= (x as int) * (180 - x as int) <= 8100) by (nonlinear_arith)
            requires
                0 <= x as int <= 180,
        ;
        lemma_sin_half_turn_range(x as int);
    }
    let p: i64 = x * (180 - x);
    let num: u64 = (4 * p * SCALE) as u64;
    let den: u64 = (40500 - p) as u64;
    (num / den) as i64
}

/// Sine of an angle in degrees, as thousandths (`SCALE` stands for 1.0).
/// Exact at every multiple of 90 degrees.
pub fn sin_deg(d: i64) -> (r: i64)
    requires
        d > i64::MIN,
    ensures
        r as int == spec_sin_deg(d as int),
        -SCALE <= r <= SCALE,
{
    let m: i64 = mod360(d);
    if m <= 180 {
        sin_half_turn(m)
    } else {
        -sin_half_turn(m - 180)
    }
}

/// Cosine of an angle in degrees, as thousandths.
/// Exact at every multiple of 90 degrees.
pub fn cos_deg(d: i64) -> (r: i64)
    requires
        d > i64::MIN,
    ensures
        r as int == spec_cos_deg(d as int),
        -SCALE <= r <= SCALE,
{
    let m: i64 = mod360(d);
    proof {
        lemma_small_mod(m as nat, 360);
        lemma_small_mod(90, 360);
        lemma_add_mod_noop(d as int, 90, 360);
        lemma_add_mod_noop(m as int, 90, 360);
        lemma_sin_deg_congruent(m as int + 90, d as int + 90);
    }
    sin_deg(m + 90)
}

/// Tangent of an angle in degrees, as thousandths: `sin * SCALE / cos`,
/// truncating. The cosine must not vanish (90 or 270 degrees, where the
/// tangent has no value).
pub fn tan_deg(d: i64) -> (r: i64)
    requires
        d > i64::MIN,
        spec_cos_deg(d as int) != 0,
    ensures
        r as int == spec_tan_deg(d as int),
{
    let s: i64 = sin_deg(d);
    let c: i64 = cos_deg(d);
    let q: i128 = tdiv_i128((s as i128) * (SCALE as i128), c as i128);
    proof {
        crate::arith::lemma_tdiv_bound_any(s as int * SCALE as int, c as int);
        assert(abs_int(s as int * SCALE as int) <= 1000000) by (nonlinear_arith)
            requires
                -1000 <= s as int <= 1000,
                SCALE as int == 1000,
        ;
    }
    q as i64
}

} // verus!
