//! Shared exact arithmetic: the fixed-point grid constant, truncating
//! division, wide multiplication, and the integer floor square root.

use vstd::prelude::*;

verus! {

/// Number of grid units that stand for 1.0: every quaternion, vector and
/// force component is an integer count of thousandths.
pub const SCALE: i64 = 1000;

/// Absolute value of a mathematical integer.
pub open spec fn abs_int(a: int) -> int {
    if a >= 0 {
        a
    } else {
        -a
    }
}

/// Truncating division for a nonnegative-or-any numerator and positive
/// denominator, rounding toward zero as Rust's `/` does.
pub open spec fn tdiv_pos(a: int, b: int) -> int {
    if a >= 0 {
        a / b
    } else {
        -((-a) / b)
    }
}

/// Truncating (round-toward-zero) division; the semantics of every scaling
/// step in this library. Unspecified when `b == 0`.
pub open spec fn tdiv(a: int, b: int) -> int {
    if b < 0 {
        tdiv_pos(-a, -b)
    } else {
        tdiv_pos(a, b)
    }
}

/// Floor of the square root: the unique `r >= 0` with
/// `r * r <= n < (r + 1) * (r + 1)` (0 for negative arguments).
pub open spec fn sqrt_floor(n: int) -> int
    decreases n,
{
    if n <= 0 {
        0
    } else {
        let p = sqrt_floor(n - 1);
        if (p + 1) * (p + 1) <= n {
            p + 1
        } else {
            p
        }
    }
}

/// The floor square root is bracketed by consecutive squares.
pub proof fn lemma_sqrt_floor_bracket(n: int)
    requires
        n >= 0,
    ensures
        sqrt_floor(n) >= 0,
        sqrt_floor(n) * sqrt_floor(n) <= n,
        n < (sqrt_floor(n) + 1) * (sqrt_floor(n) + 1),
    decreases n,
{
    if n == 0 {
        assert(sqrt_floor(0) == 0);
    } else {
        lemma_sqrt_floor_bracket(n - 1);
        let p = sqrt_floor(n - 1);
        if (p + 1) * (p + 1) <= n {
            assert(n - 1 < (p + 1) * (p + 1));
            assert(n < (p + 2) * (p + 2)) by (nonlinear_arith)
                requires
                    p >= 0,
                    n <= (p + 1) * (p + 1),
            ;
        }
    }
}

/// Any bracketed candidate equals the floor square root.
pub proof fn lemma_sqrt_floor_unique(n: int, r: int)
    requires
        n >= 0,
        r >= 0,
        r * r <= n,
        n < (r + 1) * (r + 1),
    ensures
        r == sqrt_floor(n),
{
    lemma_sqrt_floor_bracket(n);
    let s = sqrt_floor(n);
    assert(r == s) by (nonlinear_arith)
        requires
            r >= 0,
            s >= 0,
            r * r <= n,
            n < (r + 1) * (r + 1),
            s * s <= n,
            n < (s + 1) * (s + 1),
    ;
}

/// Squares never shrink when the base grows (both nonnegative).
pub proof fn lemma_sqrt_floor_monotonic(a: int, b: int)
    requires
        0 <= a <= b,
    ensures
        sqrt_floor(a) <= sqrt_floor(b),
{
    lemma_sqrt_floor_bracket(a);
    lemma_sqrt_floor_bracket(b);
    let ra = sqrt_floor(a);
    let rb = sqrt_floor(b);
    assert(ra <= rb) by (nonlinear_arith)
        requires
            ra >= 0,
            rb >= 0,
            ra * ra <= a,
            a <= b,
            b < (rb + 1) * (rb + 1),
    ;
}

/// Exact product of two machine words on the wide intermediate type.
pub fn wide_mul(a: i64, b: i64) -> (p: i128)
    ensures
        p == a as int * b as int,
{
    proof {
        assert(-0x4000_0000_0000_0000_0000_0000_0000_0000 <= a as int * b as int
            <= 0x4000_0000_0000_0000_0000_0000_0000_0000) by (nonlinear_arith)
            requires
                -0x8000_0000_0000_0000 <= a as int <= 0x7FFF_FFFF_FFFF_FFFF,
                -0x8000_0000_0000_0000 <= b as int <= 0x7FFF_FFFF_FFFF_FFFF,
        ;
    }
    (a as i128) * (b as i128)
}

/// Magnitude of a machine word, widened so that `i64::MIN` is in range.
pub fn abs_u64(a: i64) -> (m: u64)
    ensures
        m == abs_int(a as int),
{
    if a >= 0 {
        a as u64
    } else {
        (-(a as i128)) as u64
    }
}

/// Truncating division on the wide intermediate type.
pub fn tdiv_i128(a: i128, b: i128) -> (q: i128)
    requires
        b != 0,
        a > i128::MIN,
        b > i128::MIN,
    ensures
        q == tdiv(a as int, b as int),
{
    let neg: bool = (a < 0) != (b < 0);
    let ua: u128 = if a >= 0 {
        a as u128
    } else {
        (-a) as u128
    };
    let ub: u128 = if b >= 0 {
        b as u128
    } else {
        (-b) as u128
    };
    let uq: u128 = ua / ub;
    proof {
        assert(ua as int / ub as int <= ua as int) by (nonlinear_arith)
            requires
                ua as int >= 0,
                ub as int >= 1,
        ;
    }
    if neg {
        -(uq as i128)
    } else {
        uq as i128
    }
}

/// Rounding (round-half-away-from-zero) division for a positive
/// denominator; `Force::new` uses it so that sub-grid components round to
/// the nearest grid point instead of collapsing toward zero.
pub open spec fn rdiv(a: int, b: int) -> int {
    if a >= 0 {
        (2 * a + b) / (2 * b)
    } else {
        -((2 * (-a) + b) / (2 * b))
    }
}

/// Rounding division on the wide intermediate type.
pub fn rdiv_i128(a: i128, b: i128) -> (q: i128)
    requires
        1 <= b <= 0x1000_0000_0000_0000_0000_0000_0000_0000,
        -0x1000_0000_0000_0000_0000_0000_0000_0000 <= a
            <= 0x1000_0000_0000_0000_0000_0000_0000_0000,
    ensures
        q == rdiv(a as int, b as int),
{
    let ua: u128 = if a >= 0 {
        a as u128
    } else {
        (-a) as u128
    };
    let num: u128 = 2 * ua + (b as u128);
    let den: u128 = 2 * (b as u128);
    let uq: u128 = num / den;
    proof {
        assert(num as int / den as int <= ua as int) by (nonlinear_arith)
            requires
                ua as int >= 0,
                b as int >= 1,
                num as int == 2 * (ua as int) + b as int,
                den as int == 2 * (b as int),
        ;
    }
    if a >= 0 {
        uq as i128
    } else {
        -(uq as i128)
    }
}

/// The rounded quotient is bounded by any bound on the true quotient:
/// `|a| <= k * b` gives `|rdiv(a, b)| <= k`.
pub proof fn lemma_rdiv_bound_by(a: int, b: int, k: int)
    requires
        b >= 1,
        k >= 0,
        -(k * b) <= a <= k * b,
    ensures
        -k <= rdiv(a, b) <= k,
{
    if a >= 0 {
        assert(0 <= (2 * a + b) / (2 * b) <= k) by (nonlinear_arith)
            requires
                b >= 1,
                k >= 0,
                0 <= a <= k * b,
        ;
    } else {
        assert(0 <= (2 * (-a) + b) / (2 * b) <= k) by (nonlinear_arith)
            requires
                b >= 1,
                k >= 0,
                0 <= -a <= k * b,
        ;
    }
}

/// A numerator of at least half the denominator rounds up to one.
pub proof fn lemma_rdiv_ge_one(a: int, b: int)
    requires
        b >= 1,
        2 * a >= b,
    ensures
        rdiv(a, b) >= 1,
{
    assert(a >= 0 && (2 * a + b) / (2 * b) >= 1) by (nonlinear_arith)
        requires
            b >= 1,
            2 * a >= b,
    ;
}

/// Truncating division is odd in its numerator.
pub proof fn lemma_tdiv_neg(a: int, b: int)
    requires
        b >= 1,
    ensures
        tdiv(-a, b) == -tdiv(a, b),
{
    if a == 0 {
        vstd::arithmetic::div_mod::lemma_div_of0(b);
    }
}

/// The floor bracketing of a nonnegative truncated quotient.
pub proof fn lemma_tdiv_rem(a: int, b: int)
    requires
        a >= 0,
        b >= 1,
    ensures
        tdiv(a, b) >= 0,
        tdiv(a, b) * b <= a < tdiv(a, b) * b + b,
{
    vstd::arithmetic::div_mod::lemma_fundamental_div_mod(a, b);
    vstd::arithmetic::div_mod::lemma_mod_division_less_than_divisor(a, b);
    lemma_tdiv_bound(a, b);
    assert(b * (a / b) == (a / b) * b) by (nonlinear_arith);
}

/// Floor square root on the wide unsigned intermediate, by binary search.
pub fn isqrt_u128(n: u128) -> (r: u64)
    ensures
        r as int == sqrt_floor(n as int),
{
    let mut lo: u128 = 0;
    let mut hi: u128 = 0x1_0000_0000_0000_0000;
    proof {
        assert((0x1_0000_0000_0000_0000int) * (0x1_0000_0000_0000_0000int)
            == 0x1_0000_0000_0000_0000_0000_0000_0000_0000int) by (nonlinear_arith);
    }
    while lo + 1 < hi
        invariant
            0 <= lo < hi <= 0x1_0000_0000_0000_0000,
            lo * lo <= n as int,
            (n as int) < hi * hi,
        decreases hi - lo,
    {
        let mid: u128 = lo + (hi - lo) / 2;
        assert(lo < mid < hi);
        proof {
            assert(mid * mid <= (0xFFFF_FFFF_FFFF_FFFFint) * (0xFFFF_FFFF_FFFF_FFFFint))
                by (nonlinear_arith)
                requires
                    0 <= mid as int <= 0xFFFF_FFFF_FFFF_FFFF,
            ;
            assert((0xFFFF_FFFF_FFFF_FFFFint) * (0xFFFF_FFFF_FFFF_FFFFint)
                < 0x1_0000_0000_0000_0000_0000_0000_0000_0000int) by (nonlinear_arith);
        }
        let sq: u128 = mid * mid;
        if sq <= n {
            lo = mid;
        } else {
            hi = mid;
        }
    }
    proof {
        lemma_sqrt_floor_unique(n as int, lo as int);
    }
    lo as u64
}

/// Truncated quotients never exceed the numerator in magnitude.
pub proof fn lemma_tdiv_bound(a: int, b: int)
    requires
        b >= 1,
    ensures
        abs_int(tdiv(a, b)) <= abs_int(a),
        a >= 0 ==> 0 <= tdiv(a, b) <= a,
        a < 0 ==> a <= tdiv(a, b) <= 0,
{
    if a >= 0 {
        assert(0 <= a / b <= a) by (nonlinear_arith)
            requires
                a >= 0,
                b >= 1,
        ;
    } else {
        assert(0 <= (-a) / b <= -a) by (nonlinear_arith)
            requires
                -a >= 0,
                b >= 1,
        ;
    }
}

/// The magnitude bound holds for either sign of the denominator.
pub proof fn lemma_tdiv_bound_any(a: int, b: int)
    requires
        b != 0,
    ensures
        abs_int(tdiv(a, b)) <= abs_int(a),
{
    if b >= 1 {
        lemma_tdiv_bound(a, b);
    } else {
        lemma_tdiv_bound(-a, -b);
    }
}

/// Exactly divisible numerators divide without loss.
pub proof fn lemma_tdiv_exact(k: int, b: int)
    requires
        b >= 1,
    ensures
        tdiv(k * b, b) == k,
{
    if k >= 0 {
        assert((k * b) / b == k && k * b >= 0) by (nonlinear_arith)
            requires
                k >= 0,
                b >= 1,
        ;
    } else {
        assert((-(k * b)) / b == -k && k * b < 0) by (nonlinear_arith)
            requires
                k < 0,
                b >= 1,
        ;
    }
}

/// A quotient is at least `k` exactly when the numerator reaches `k * b`.
pub proof fn lemma_tdiv_lower_bound(a: int, b: int, k: int)
    requires
        b >= 1,
        k >= 0,
        a >= k * b,
    ensures
        tdiv(a, b) >= k,
{
    assert(a >= 0) by (nonlinear_arith)
        requires
            b >= 1,
            k >= 0,
            a >= k * b,
    ;
    assert(a / b >= k) by (nonlinear_arith)
        requires
            b >= 1,
            a >= k * b,
    ;
}

/// Scaling a value bounded by the denominator keeps the scale bound:
/// `|c| <= b` gives `|c * s / b| <= s`.
pub proof fn lemma_tdiv_scale_bound(c: int, s: int, b: int)
    requires
        b >= 1,
        s >= 0,
        abs_int(c) <= b,
    ensures
        abs_int(tdiv(c * s, b)) <= s,
{
    if c >= 0 {
        assert((c * s) / b <= s && c * s >= 0) by (nonlinear_arith)
            requires
                0 <= c <= b,
                s >= 0,
                b >= 1,
        ;
    } else {
        assert(((-c) * s) / b <= s && -(c * s) == (-c) * s && c * s <= 0) by (nonlinear_arith)
            requires
                0 <= -c <= b,
                s >= 0,
                b >= 1,
        ;
    }
}

} // verus!
