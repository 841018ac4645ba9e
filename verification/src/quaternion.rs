//! Quaternion algebra on the fixed-point grid, and unit quaternions for
//! rotations.
//!
//! `Quaternion` carries four grid components `(r, i, j, k)`; `i` is x, `j` is
//! y, `k` is z. A pure vector has `r == 0`. `UnitQuaternion` components live
//! on the `SCALE` grid (so `SCALE` stands for 1.0) and encode a rotation as a
//! half-angle/axis pair; every constructor renormalizes.

use vstd::prelude::*;
use crate::arith::{
    SCALE, abs_int, tdiv, sqrt_floor, tdiv_i128, wide_mul, abs_u64,
    lemma_sqrt_floor_bracket, lemma_sqrt_floor_unique, lemma_tdiv_bound_any,
    lemma_tdiv_exact, lemma_tdiv_scale_bound, lemma_tdiv_rem,
};
use crate::trig::{spec_sin_deg, spec_cos_deg, sin_deg, cos_deg};
use crate::error::GeomError;

verus! {

/// Largest component magnitude the wide intermediates of a product admit.
pub const COMPONENT_LIMIT: i64 = 4_000_000_000_000_000_000;

/// Largest vector component magnitude a rotation sandwich admits.
pub const VEC_LIMIT: i64 = 500_000_000_000;

/// Largest component magnitude that normalization's scaled intermediates
/// admit.
pub const NORM_LIMIT: i64 = 4_000_000_000_000_000;

/// The mathematical model: a quaternion with unbounded integer components.
pub struct Quat {
    pub r: int,
    pub i: int,
    pub j: int,
    pub k: int,
}

/// Component-wise sum.
pub open spec fn qadd(a: Quat, b: Quat) -> Quat {
    Quat { r: a.r + b.r, i: a.i + b.i, j: a.j + b.j, k: a.k + b.k }
}

/// Hamilton product; the sign pattern encodes the right-handed convention
/// `i*j == k`, `j*k == i`, `k*i == j`.
pub open spec fn qmul(a: Quat, b: Quat) -> Quat {
    Quat {
        r: a.r * b.r - a.i * b.i - a.j * b.j - a.k * b.k,
        i: a.r * b.i + a.i * b.r + a.j * b.k - a.k * b.j,
        j: a.r * b.j - a.i * b.k + a.j * b.r + a.k * b.i,
        k: a.r * b.k + a.i * b.j - a.j * b.i + a.k * b.r,
    }
}

/// Conjugate: the imaginary part negated.
pub open spec fn qconj(a: Quat) -> Quat {
    Quat { r: a.r, i: -a.i, j: -a.j, k: -a.k }
}

/// Squared Euclidean norm.
pub open spec fn qnsq(a: Quat) -> int {
    a.r * a.r + a.i * a.i + a.j * a.j + a.k * a.k
}

/// Every component within `[-l, l]`.
pub open spec fn quat_bounded(a: Quat, l: int) -> bool {
    &&& -l <= a.r <= l
    &&& -l <= a.i <= l
    &&& -l <= a.j <= l
    &&& -l <= a.k <= l
}

/// Every component within the machine word.
pub open spec fn quat_fits_i64(a: Quat) -> bool {
    quat_bounded(a, i64::MAX as int) && a.r >= i64::MIN && a.i >= i64::MIN && a.j >= i64::MIN
        && a.k >= i64::MIN
}

/// Rescaling to unit length on the grid, at `SCALE` precision: the length is
/// taken as the floor square root of the squared norm scaled by `SCALE^2`
/// (so `len` carries the norm in thousandths), and each component becomes
/// `c * SCALE^2 / len` (truncating). The result's squared norm provably
/// stays within 1% of `SCALE^2` whatever the input's scale.
pub open spec fn normalize_spec(q: Quat) -> Quat {
    let len = sqrt_floor(qnsq(q) * 1000000);
    Quat {
        r: tdiv(q.r * 1000000, len),
        i: tdiv(q.i * 1000000, len),
        j: tdiv(q.j * 1000000, len),
        k: tdiv(q.k * 1000000, len),
    }
}

/// The sandwich product `q * v * invert(q)` brought back to the grid of `v`:
/// the renormalized conjugate carries one `SCALE`, `q` itself the other, so
/// each component is divided by `SCALE * SCALE` (truncating).
pub open spec fn rotate_spec(v: Quat, q: Quat) -> Quat {
    let inv = normalize_spec(qconj(q));
    let sw = qmul(q, qmul(v, inv));
    let s2 = (SCALE as int) * (SCALE as int);
    Quat { r: tdiv(sw.r, s2), i: tdiv(sw.i, s2), j: tdiv(sw.j, s2), k: tdiv(sw.k, s2) }
}

/// The rotation quaternion for a turn of `degrees` about `(x, y, z)`:
/// half-angle encoding `(cos(d/2), sin(d/2) * axis)`, the axis normalized to
/// the grid first.
pub open spec fn rotation_spec(x: int, y: int, z: int, degrees: int) -> Quat {
    let a = normalize_spec(Quat { r: 0, i: x, j: y, k: z });
    let half = tdiv(degrees, 2);
    let c = spec_cos_deg(half);
    let s = spec_sin_deg(half);
    normalize_spec(
        Quat {
            r: c,
            i: tdiv(a.i * s, SCALE as int),
            j: tdiv(a.j * s, SCALE as int),
            k: tdiv(a.k * s, SCALE as int),
        },
    )
}

/// The basic type for 3D vectors and (scaled) rotations; a value type whose
/// equality is component-wise.
#[derive(Clone, Copy, Debug, PartialEq, Eq, Structural)]
pub struct Quaternion {
    pub r: i64,
    pub i: i64,
    pub j: i64,
    pub k: i64,
}

impl View for Quaternion {
    type V = Quat;

    open spec fn view(&self) -> Quat {
        Quat { r: self.r as int, i: self.i as int, j: self.j as int, k: self.k as int }
    }
}

impl Quaternion {
    /// A quaternion of the sort that represents a 3D vector: pure imaginary.
    pub fn new_vector(x: i64, y: i64, z: i64) -> (q: Quaternion)
        ensures
            q@ == (Quat { r: 0, i: x as int, j: y as int, k: z as int }),
    {
        Quaternion { r: 0, i: x, j: y, k: z }
    }

    /// Component-wise sum of two quaternions.
    pub fn add(&self, other: &Quaternion) -> (q: Quaternion)
        requires
            quat_fits_i64(qadd(self@, other@)),
        ensures
            q@ == qadd(self@, other@),
    {
        Quaternion {
            r: self.r + other.r,
            i: self.i + other.i,
            j: self.j + other.j,
            k: self.k + other.k,
        }
    }

    /// Hamilton product. Exact: both factors stay within `COMPONENT_LIMIT`
    /// and the true product must fit the machine word.
    pub fn mult(&self, other: &Quaternion) -> (q: Quaternion)
        requires
            quat_bounded(self@, COMPONENT_LIMIT as int),
            quat_bounded(other@, COMPONENT_LIMIT as int),
            quat_fits_i64(qmul(self@, other@)),
        ensures
            q@ == qmul(self@, other@),
    {
        let p_rr = wide_mul(self.r, other.r);
        let p_ii = wide_mul(self.i, other.i);
        let p_jj = wide_mul(self.j, other.j);
        let p_kk = wide_mul(self.k, other.k);
        let p_ri = wide_mul(self.r, other.i);
        let p_ir = wide_mul(self.i, other.r);
        let p_jk = wide_mul(self.j, other.k);
        let p_kj = wide_mul(self.k, other.j);
        let p_rj = wide_mul(self.r, other.j);
        let p_ik = wide_mul(self.i, other.k);
        let p_jr = wide_mul(self.j, other.r);
        let p_ki = wide_mul(self.k, other.i);
        let p_rk = wide_mul(self.r, other.k);
        let p_ij = wide_mul(self.i, other.j);
        let p_ji = wide_mul(self.j, other.i);
        let p_kr = wide_mul(self.k, other.r);
        proof {
            assert((COMPONENT_LIMIT as int) * (COMPONENT_LIMIT as int)
                == 16_000_000_000_000_000_000_000_000_000_000_000_000int) by (nonlinear_arith)
                requires
                    COMPONENT_LIMIT as int == 4_000_000_000_000_000_000,
            ;
            lemma_quat_prod_bounds(self@, other@, COMPONENT_LIMIT as int, COMPONENT_LIMIT as int);
        }
        let wr: i128 = p_rr - p_ii - p_jj - p_kk;
        let wi: i128 = p_ri + p_ir + p_jk - p_kj;
        let wj: i128 = p_rj - p_ik + p_jr + p_ki;
        let wk: i128 = p_rk + p_ij - p_ji + p_kr;
        Quaternion { r: wr as i64, i: wi as i64, j: wj as i64, k: wk as i64 }
    }

    /// The conjugate quaternion `(r, -i, -j, -k)`. For a unit quaternion this
    /// is the true inverse; for others it is only the conjugate.
    pub fn invert(&self) -> (q: Quaternion)
        requires
            self@.i > i64::MIN,
            self@.j > i64::MIN,
            self@.k > i64::MIN,
        ensures
            q@ == qconj(self@),
    {
        Quaternion { r: self.r, i: -self.i, j: -self.j, k: -self.k }
    }

    /// Rotates `self` (a vector quaternion) by the given unit rotation:
    /// the sandwich product `rotation * self * invert(rotation)`, brought
    /// back to the grid of `self`.
    pub fn rotate(&self, rotation: &UnitQuaternion) -> (q: Quaternion)
        requires
            rotation.wf(),
            quat_bounded(self@, VEC_LIMIT as int),
        ensures
            q@ == rotate_spec(self@, rotation@),
    {
        let inv = rotation.invert();
        let inv_q = inv.as_quaternion();
        proof {
            lemma_qmul_bound(self@, inv_q@, VEC_LIMIT as int, SCALE as int);
            assert(4 * ((VEC_LIMIT as int) * (SCALE as int)) == 2_000_000_000_000_000int)
                by (nonlinear_arith)
                requires
                    VEC_LIMIT as int == 500_000_000_000,
                    SCALE as int == 1000,
            ;
        }
        let m1 = self.mult(&inv_q);
        let rot_q = rotation.as_quaternion();
        proof {
            lemma_qmul_bound(rot_q@, m1@, SCALE as int, 2_000_000_000_000_000int);
            assert(4 * ((SCALE as int) * 2_000_000_000_000_000int) == 8_000_000_000_000_000_000int)
                by (nonlinear_arith)
                requires
                    SCALE as int == 1000,
            ;
        }
        let sw = rot_q.mult(&m1);
        proof {
            assert((SCALE as int) * (SCALE as int) == 1_000_000int) by (nonlinear_arith)
                requires
                    SCALE as int == 1000,
            ;
            lemma_tdiv_bound_any(sw@.r, 1_000_000int);
            lemma_tdiv_bound_any(sw@.i, 1_000_000int);
            lemma_tdiv_bound_any(sw@.j, 1_000_000int);
            lemma_tdiv_bound_any(sw@.k, 1_000_000int);
        }
        let s2: i128 = 1_000_000;
        Quaternion {
            r: tdiv_i128(sw.r as i128, s2) as i64,
            i: tdiv_i128(sw.i as i128, s2) as i64,
            j: tdiv_i128(sw.j as i128, s2) as i64,
            k: tdiv_i128(sw.k as i128, s2) as i64,
        }
    }

    /// Floor of the Euclidean norm `sqrt(r^2 + i^2 + j^2 + k^2)`.
    pub fn length(&self) -> (l: i64)
        requires
            quat_bounded(self@, COMPONENT_LIMIT as int),
        ensures
            l == sqrt_floor(qnsq(self@)),
            l >= 0,
    {
        let nsq = nsq_u128(self);
        let root = crate::arith::isqrt_u128(nsq);
        proof {
            lemma_abs_square(self@.r, COMPONENT_LIMIT as int);
            lemma_abs_square(self@.i, COMPONENT_LIMIT as int);
            lemma_abs_square(self@.j, COMPONENT_LIMIT as int);
            lemma_abs_square(self@.k, COMPONENT_LIMIT as int);
            assert((COMPONENT_LIMIT as int) * (COMPONENT_LIMIT as int)
                == 16_000_000_000_000_000_000_000_000_000_000_000_000int) by (nonlinear_arith)
                requires
                    COMPONENT_LIMIT as int == 4_000_000_000_000_000_000,
            ;
            lemma_sqrt_floor_bracket(nsq as int);
            let s = sqrt_floor(nsq as int);
            assert(s <= 8_000_000_000_000_000_000) by (nonlinear_arith)
                requires
                    s >= 0,
                    s * s <= nsq as int,
                    nsq as int <= 64_000_000_000_000_000_000_000_000_000_000_000_000int,
            ;
        }
        root as i64
    }
}

/// Squared norm on the wide unsigned intermediate.
pub(crate) fn nsq_u128(q: &Quaternion) -> (n: u128)
    requires
        quat_bounded(q@, COMPONENT_LIMIT as int),
    ensures
        n as int == qnsq(q@),
{
    let ar = abs_u64(q.r);
    let ai = abs_u64(q.i);
    let aj = abs_u64(q.j);
    let ak = abs_u64(q.k);
    proof {
        lemma_abs_square(q@.r, COMPONENT_LIMIT as int);
        lemma_abs_square(q@.i, COMPONENT_LIMIT as int);
        lemma_abs_square(q@.j, COMPONENT_LIMIT as int);
        lemma_abs_square(q@.k, COMPONENT_LIMIT as int);
        assert((COMPONENT_LIMIT as int) * (COMPONENT_LIMIT as int)
            == 16_000_000_000_000_000_000_000_000_000_000_000_000int) by (nonlinear_arith)
            requires
                COMPONENT_LIMIT as int == 4_000_000_000_000_000_000,
        ;
    }
    (ar as u128) * (ar as u128) + (ai as u128) * (ai as u128) + (aj as u128) * (aj as u128) + (
    ak as u128) * (ak as u128)
}

/// The magnitude's square is the value's square, and stays bounded.
pub(crate) proof fn lemma_abs_square(c: int, l: int)
    requires
        -l <= c <= l,
        l >= 0,
    ensures
        abs_int(c) * abs_int(c) == c * c,
        0 <= c * c <= l * l,
{
    assert(abs_int(c) * abs_int(c) == c * c && 0 <= c * c <= l * l) by (nonlinear_arith)
        requires
            -l <= c <= l,
            l >= 0,
            abs_int(c) == if c >= 0 {
                c
            } else {
                -c
            },
    ;
}

/// All sixteen pairwise component products stay within `la * lb`.
proof fn lemma_quat_prod_bounds(a: Quat, b: Quat, la: int, lb: int)
    requires
        quat_bounded(a, la),
        quat_bounded(b, lb),
        la >= 0,
        lb >= 0,
    ensures
        forall|x: int, y: int|
            -la <= x <= la && -lb <= y <= lb ==> #[trigger] (x * y) >= -(la * lb) && x * y <= la
                * lb,
{
    assert forall|x: int, y: int| -la <= x <= la && -lb <= y <= lb implies #[trigger] (x * y) >= -(
    la * lb) && x * y <= la * lb by {
        assert(x * y >= -(la * lb) && x * y <= la * lb) by (nonlinear_arith)
            requires
                -la <= x <= la,
                -lb <= y <= lb,
                la >= 0,
                lb >= 0,
        ;
    }
}

/// A Hamilton product of bounded factors is bounded by `4 * la * lb`.
pub proof fn lemma_qmul_bound(a: Quat, b: Quat, la: int, lb: int)
    requires
        quat_bounded(a, la),
        quat_bounded(b, lb),
        la >= 0,
        lb >= 0,
    ensures
        quat_bounded(qmul(a, b), 4 * (la * lb)),
{
    lemma_quat_prod_bounds(a, b, la, lb);
}

/// The squared norm dominates each component's square.
proof fn lemma_sq_le_nsq(q: Quat)
    ensures
        q.r * q.r <= qnsq(q),
        q.i * q.i <= qnsq(q),
        q.j * q.j <= qnsq(q),
        q.k * q.k <= qnsq(q),
        qnsq(q) >= 0,
{
    assert(q.r * q.r >= 0 && q.i * q.i >= 0 && q.j * q.j >= 0 && q.k * q.k >= 0)
        by (nonlinear_arith);
}

/// The squared norm is zero exactly on the zero quaternion.
pub proof fn lemma_nsq_zero(q: Quat)
    ensures
        qnsq(q) >= 0,
        qnsq(q) == 0 <==> (q.r == 0 && q.i == 0 && q.j == 0 && q.k == 0),
{
    assert(q.r * q.r + q.i * q.i + q.j * q.j + q.k * q.k >= 0 && (q.r * q.r + q.i * q.i + q.j
        * q.j + q.k * q.k == 0 <==> (q.r == 0 && q.i == 0 && q.j == 0 && q.k == 0)))
        by (nonlinear_arith);
}

/// Conjugation preserves the squared norm.
pub proof fn lemma_conj_nsq(q: Quat)
    ensures
        qnsq(qconj(q)) == qnsq(q),
{
    assert((-q.i) * (-q.i) == q.i * q.i && (-q.j) * (-q.j) == q.j * q.j && (-q.k) * (-q.k) == q.k
        * q.k) by (nonlinear_arith);
}

/// Component facts for `SCALE`-precision normalization: with
/// `len = sqrt_floor(qnsq * SCALE^2)` and `t = tdiv(c * SCALE^2, len)`,
/// `t` stays on the grid and `t * len` sits within `len` of `c * SCALE^2`.
proof fn lemma_norm_comp(c: int, n: int, len: int)
    requires
        c * c <= n,
        len >= 1000,
        len * len <= n * 1000000,
        n * 1000000 < (len + 1) * (len + 1),
    ensures
        -1000 <= tdiv(c * 1000000, len) <= 1000,
        1000 * abs_int(c) <= len,
        (tdiv(c * 1000000, len) * len) * (tdiv(c * 1000000, len) * len) <= (c * 1000000) * (c
            * 1000000),
        (tdiv(c * 1000000, len) * len) * (tdiv(c * 1000000, len) * len) >= (c * 1000000) * (c
            * 1000000) - 2 * len * (abs_int(c) * 1000000),
{
    let u = abs_int(c);
    assert(u * u == c * c) by (nonlinear_arith)
        requires
            u == c || u == -c,
    ;
    assert(1000 * u <= len) by (nonlinear_arith)
        requires
            u >= 0,
            u * u <= n,
            len >= 0,
            n * 1000000 < (len + 1) * (len + 1),
    ;
    let t = tdiv(c * 1000000, len);
    let tu = tdiv(u * 1000000, len);
    if c >= 0 {
        assert(c * 1000000 == u * 1000000);
    } else {
        assert(c * 1000000 == -(u * 1000000)) by (nonlinear_arith)
            requires
                c == -u,
        ;
        crate::arith::lemma_tdiv_neg(u * 1000000, len);
    }
    lemma_tdiv_rem(u * 1000000, len);
    assert(tu <= 1000) by (nonlinear_arith)
        requires
            tu >= 0,
            tu * len <= u * 1000000,
            1000 * u <= len,
            len >= 1,
            u >= 0,
    ;
    assert((tu * len) * (tu * len) <= (u * 1000000) * (u * 1000000) && (tu * len) * (tu * len) >= (
    u * 1000000) * (u * 1000000) - 2 * len * (u * 1000000)) by (nonlinear_arith)
        requires
            tu >= 0,
            len >= 1,
            u >= 0,
            tu * len <= u * 1000000,
            u * 1000000 < tu * len + len,
    ;
    assert((t * len) * (t * len) == (tu * len) * (tu * len) && (c * 1000000) * (c * 1000000) == (u
        * 1000000) * (u * 1000000)) by (nonlinear_arith)
        requires
            t == tu || t == -tu,
            c == u || c == -u,
    ;
}

/// Normalizing a nonzero quaternion lands on the unit grid: the squared norm
/// of the result is within one percent of `SCALE^2`, whatever the input's
/// scale.
pub proof fn lemma_normalize_wf(q: Quat)
    requires
        qnsq(q) >= 1,
    ensures
        quat_bounded(normalize_spec(q), SCALE as int),
        992_000 <= qnsq(normalize_spec(q)) <= 1_002_000,
        sqrt_floor(qnsq(q) * 1000000) >= 1000,
{
    let n = qnsq(q);
    assert(n * 1000000 >= 1000000) by (nonlinear_arith)
        requires
            n >= 1,
    ;
    lemma_sqrt_floor_bracket(n * 1000000);
    assert((1000int) * 1000 == 1000000 && (1001int) * 1001 == 1002001) by (nonlinear_arith);
    lemma_sqrt_floor_unique(1000000, 1000);
    crate::arith::lemma_sqrt_floor_monotonic(1000000, n * 1000000);
    let len = sqrt_floor(n * 1000000);
    lemma_sq_le_nsq(q);
    lemma_norm_comp(q.r, n, len);
    lemma_norm_comp(q.i, n, len);
    lemma_norm_comp(q.j, n, len);
    lemma_norm_comp(q.k, n, len);
    let nq = normalize_spec(q);
    let v = qnsq(nq);
    assert(v * (len * len) == (nq.r * nq.r) * (len * len) + (nq.i * nq.i) * (len * len) + (nq.j
        * nq.j) * (len * len) + (nq.k * nq.k) * (len * len)) by (nonlinear_arith)
        requires
            v == nq.r * nq.r + nq.i * nq.i + nq.j * nq.j + nq.k * nq.k,
    ;
    assert((nq.r * nq.r) * (len * len) == (nq.r * len) * (nq.r * len)) by (nonlinear_arith);
    assert((nq.i * nq.i) * (len * len) == (nq.i * len) * (nq.i * len)) by (nonlinear_arith);
    assert((nq.j * nq.j) * (len * len) == (nq.j * len) * (nq.j * len)) by (nonlinear_arith);
    assert((nq.k * nq.k) * (len * len) == (nq.k * len) * (nq.k * len)) by (nonlinear_arith);
    assert((q.r * 1000000) * (q.r * 1000000) + (q.i * 1000000) * (q.i * 1000000) + (q.j * 1000000)
        * (q.j * 1000000) + (q.k * 1000000) * (q.k * 1000000) == n * 1000000000000)
        by (nonlinear_arith)
        requires
            n == q.r * q.r + q.i * q.i + q.j * q.j + q.k * q.k,
    ;
    assert(n * 1000000000000 == (n * 1000000) * 1000000) by (nonlinear_arith);
    assert(2 * len * (abs_int(q.r) * 1000000) <= 2000 * (len * len)) by (nonlinear_arith)
        requires
            1000 * abs_int(q.r) <= len,
            abs_int(q.r) >= 0,
            len >= 1,
    ;
    assert(2 * len * (abs_int(q.i) * 1000000) <= 2000 * (len * len)) by (nonlinear_arith)
        requires
            1000 * abs_int(q.i) <= len,
            abs_int(q.i) >= 0,
            len >= 1,
    ;
    assert(2 * len * (abs_int(q.j) * 1000000) <= 2000 * (len * len)) by (nonlinear_arith)
        requires
            1000 * abs_int(q.j) <= len,
            abs_int(q.j) >= 0,
            len >= 1,
    ;
    assert(2 * len * (abs_int(q.k) * 1000000) <= 2000 * (len * len)) by (nonlinear_arith)
        requires
            1000 * abs_int(q.k) <= len,
            abs_int(q.k) >= 0,
            len >= 1,
    ;
    assert(2000000 * len <= 2000 * (len * len)) by (nonlinear_arith)
        requires
            len >= 1000,
    ;
    assert((n * 1000000) * 1000000 <= (len * len) * 1000000 + 2000 * (len * len))
        by (nonlinear_arith)
        requires
            n * 1000000 < (len + 1) * (len + 1),
            len >= 1000,
    ;
    assert(v <= 1002000) by (nonlinear_arith)
        requires
            v * (len * len) <= (len * len) * 1000000 + 2000 * (len * len),
            len >= 1000,
    ;
    assert((n * 1000000) * 1000000 >= (len * len) * 1000000) by (nonlinear_arith)
        requires
            len * len <= n * 1000000,
    ;
    assert(v >= 992000) by (nonlinear_arith)
        requires
            v * (len * len) >= (len * len) * 1000000 - 8000 * (len * len),
            len >= 1000,
    ;
    assert(v >= 992000 ==> (-1000 <= nq.r <= 1000 && -1000 <= nq.i <= 1000 && -1000 <= nq.j <= 1000
        && -1000 <= nq.k <= 1000) ==> quat_bounded(nq, 1000));
}

/// A quaternion held at unit length on the grid (`SCALE` stands for 1.0),
/// representing a rotation as a half-angle/axis pair. Constructed only
/// through normalizing factories and never mutated in place.
#[derive(Clone, Copy, Debug, PartialEq, Eq, Structural)]
pub struct UnitQuaternion {
    q: Quaternion,
}

impl View for UnitQuaternion {
    type V = Quat;

    closed spec fn view(&self) -> Quat {
        self.q@
    }
}

impl UnitQuaternion {
    /// Well-formed: nonzero, with every component on the unit grid.
    pub open spec fn wf(&self) -> bool {
        992_000 <= qnsq(self@) <= 1_002_000 && quat_bounded(self@, SCALE as int)
    }

    /// The underlying quaternion, as a value copy.
    pub fn as_quaternion(&self) -> (q: Quaternion)
        ensures
            q@ == self@,
    {
        self.q
    }

    /// Scales an arbitrary quaternion down to the unit grid; the caller rules
    /// out the zero quaternion, which has no direction.
    fn new_from_existing(exist: &Quaternion) -> (u: UnitQuaternion)
        requires
            qnsq(exist@) >= 1,
            quat_bounded(exist@, NORM_LIMIT as int),
        ensures
            u@ == normalize_spec(exist@),
            u.wf(),
    {
        proof {
            lemma_normalize_wf(exist@);
            lemma_abs_square(exist@.r, NORM_LIMIT as int);
            lemma_abs_square(exist@.i, NORM_LIMIT as int);
            lemma_abs_square(exist@.j, NORM_LIMIT as int);
            lemma_abs_square(exist@.k, NORM_LIMIT as int);
            assert((NORM_LIMIT as int) * (NORM_LIMIT as int)
                == 16_000_000_000_000_000_000_000_000_000_000int) by (nonlinear_arith)
                requires
                    NORM_LIMIT as int == 4_000_000_000_000_000,
            ;
        }
        let nsq = nsq_u128(exist);
        let len = crate::arith::isqrt_u128(nsq * 1_000_000);
        let li = len as i128;
        UnitQuaternion {
            q: Quaternion {
                r: tdiv_i128(wide_mul(exist.r, 1_000_000), li) as i64,
                i: tdiv_i128(wide_mul(exist.i, 1_000_000), li) as i64,
                j: tdiv_i128(wide_mul(exist.j, 1_000_000), li) as i64,
                k: tdiv_i128(wide_mul(exist.k, 1_000_000), li) as i64,
            },
        }
    }

    /// Normalizing constructor from raw components; the zero quaternion is
    /// the one domain error.
    fn new(r: i64, i: i64, j: i64, k: i64) -> (res: Result<UnitQuaternion, GeomError>)
        requires
            quat_bounded(
                Quat { r: r as int, i: i as int, j: j as int, k: k as int },
                NORM_LIMIT as int,
            ),
        ensures
            res is Ok <==> qnsq(Quat { r: r as int, i: i as int, j: j as int, k: k as int }) >= 1,
            res matches Ok(u) ==> u@ == normalize_spec(
                Quat { r: r as int, i: i as int, j: j as int, k: k as int },
            ) && u.wf(),
            res matches Err(e) ==> e == GeomError::ZeroLength,
    {
        proof {
            lemma_nsq_zero(Quat { r: r as int, i: i as int, j: j as int, k: k as int });
        }
        if r == 0 && i == 0 && j == 0 && k == 0 {
            Err(GeomError::ZeroLength)
        } else {
            Ok(Self::new_from_existing(&Quaternion { r, i, j, k }))
        }
    }

    /// The rotation by `degrees` (right-hand rule) about the axis `(x, y, z)`;
    /// the axis need not be pre-normalized, but must not be zero. Degrees,
    /// not radians, at this boundary; half the angle lands in the encoding.
    pub fn new_rotation(x: i64, y: i64, z: i64, degrees: i64) -> (res: Result<
        UnitQuaternion,
        GeomError,
    >)
        requires
            quat_bounded(Quat { r: 0, i: x as int, j: y as int, k: z as int }, NORM_LIMIT as int),
            degrees > i64::MIN,
        ensures
            res is Ok <==> (x != 0 || y != 0 || z != 0),
            res matches Ok(u) ==> u@ == rotation_spec(
                x as int,
                y as int,
                z as int,
                degrees as int,
            ) && u.wf(),
            res matches Err(e) ==> e == GeomError::ZeroLength,
    {
        proof {
            lemma_nsq_zero(Quat { r: 0, i: x as int, j: y as int, k: z as int });
        }
        let axis = match Self::new(0, x, y, z) {
            Ok(a) => a,
            Err(e) => {
                return Err(e);
            },
        };
        let half = half_degrees(degrees);
        let c = cos_deg(half);
        let s = sin_deg(half);
        let aq = axis.as_quaternion();
        proof {
            lemma_tdiv_scale_bound_signed(aq@.i, s as int, SCALE as int);
            lemma_tdiv_scale_bound_signed(aq@.j, s as int, SCALE as int);
            lemma_tdiv_scale_bound_signed(aq@.k, s as int, SCALE as int);
        }
        let rq = Quaternion {
            r: c,
            i: tdiv_i128(wide_mul(aq.i, s), SCALE as i128) as i64,
            j: tdiv_i128(wide_mul(aq.j, s), SCALE as i128) as i64,
            k: tdiv_i128(wide_mul(aq.k, s), SCALE as i128) as i64,
        };
        proof {
            lemma_sq_le_nsq(rq@);
            if c != 0 {
                assert(rq@.r * rq@.r >= 1) by (nonlinear_arith)
                    requires
                        rq@.r != 0,
                ;
            } else {
                crate::trig::lemma_cos_zero_sin_unit(half as int);
                lemma_normalize_wf(Quat { r: 0, i: x as int, j: y as int, k: z as int });
                lemma_tdiv_of_zero(
                    sqrt_floor(qnsq(Quat { r: 0, i: x as int, j: y as int, k: z as int }) * 1000000),
                );
                assert(0int * 1000000 == 0) by (nonlinear_arith);
                lemma_scale_by_unit_sin(aq@.i, s as int);
                lemma_scale_by_unit_sin(aq@.j, s as int);
                lemma_scale_by_unit_sin(aq@.k, s as int);
                assert(rq@.r * rq@.r + rq@.i * rq@.i + rq@.j * rq@.j + rq@.k * rq@.k == aq@.r
                    * aq@.r + aq@.i * aq@.i + aq@.j * aq@.j + aq@.k * aq@.k) by (nonlinear_arith)
                    requires
                        rq@.r == aq@.r,
                        rq@.i == aq@.i || rq@.i == -aq@.i,
                        rq@.j == aq@.j || rq@.j == -aq@.j,
                        rq@.k == aq@.k || rq@.k == -aq@.k,
                ;
            }
        }
        Ok(Self::new_from_existing(&rq))
    }

    /// The inverse rotation: conjugate, then renormalize (defensively; a true
    /// unit conjugate is already unit length, renormalization only guards
    /// grid drift).
    pub fn invert(&self) -> (res: UnitQuaternion)
        requires
            self.wf(),
        ensures
            res@ == normalize_spec(qconj(self@)),
            res.wf(),
    {
        proof {
            lemma_conj_nsq(self@);
        }
        let cj = self.q.invert();
        Self::new_from_existing(&cj)
    }

    /// Composes two rotations by quaternion multiplication, then
    /// renormalizes: the result applies `self` first, then `rotation`
    /// (right-to-left, as the sandwich product composes). Mathematically the
    /// norm is multiplicative, so the product of two unit quaternions never
    /// vanishes; the error branch guards the one case this module does not
    /// prove.
    pub fn rotate(&self, rotation: &UnitQuaternion) -> (res: Result<UnitQuaternion, GeomError>)
        requires
            self.wf(),
            rotation.wf(),
        ensures
            res is Ok <==> qnsq(qmul(rotation@, self@)) >= 1,
            res matches Ok(u) ==> u@ == normalize_spec(qmul(rotation@, self@)) && u.wf(),
            res matches Err(e) ==> e == GeomError::ZeroLength,
    {
        proof {
            lemma_qmul_bound(rotation@, self@, SCALE as int, SCALE as int);
            assert(4 * ((SCALE as int) * (SCALE as int)) == 4_000_000int) by (nonlinear_arith)
                requires
                    SCALE as int == 1000,
            ;
        }
        let rot_q = rotation.as_quaternion();
        let prod = rot_q.mult(&self.q);
        proof {
            lemma_nsq_zero(prod@);
        }
        if prod.r == 0 && prod.i == 0 && prod.j == 0 && prod.k == 0 {
            Err(GeomError::ZeroLength)
        } else {
            Ok(Self::new_from_existing(&prod))
        }
    }
}

/// Half of an angle in degrees, truncating toward zero as the grid does.
fn half_degrees(d: i64) -> (h: i64)
    requires
        d > i64::MIN,
    ensures
        h as int == tdiv(d as int, 2),
        h > i64::MIN,
{
    if d >= 0 {
        ((d as u64) / 2) as i64
    } else {
        let u: u64 = (-(d as i128)) as u64;
        -((u / 2) as i64)
    }
}

/// Zero divides to zero.
proof fn lemma_tdiv_of_zero(b: int)
    requires
        b >= 1,
    ensures
        tdiv(0, b) == 0,
{
    lemma_tdiv_exact(0, b);
    assert(0int * b == 0) by (nonlinear_arith);
}

/// Scaling by a sine of exactly plus or minus `SCALE` is exact.
proof fn lemma_scale_by_unit_sin(a: int, s: int)
    requires
        s == 1000 || s == -1000,
    ensures
        tdiv(a * s, 1000) == if s == 1000 {
            a
        } else {
            -a
        },
{
    if s == 1000 {
        assert(a * s == a * 1000);
        lemma_tdiv_exact(a, 1000);
    } else {
        assert(a * s == (-a) * 1000) by (nonlinear_arith)
            requires
                s == -1000,
        ;
        lemma_tdiv_exact(-a, 1000);
    }
}

/// The scale bound holds for either sign of the scaling factor.
proof fn lemma_tdiv_scale_bound_signed(c: int, s: int, b: int)
    requires
        b >= 1,
        -b <= c <= b,
    ensures
        abs_int(tdiv(c * s, b)) <= abs_int(s),
{
    if s >= 0 {
        lemma_tdiv_scale_bound(c, s, b);
    } else {
        lemma_tdiv_scale_bound(c, -s, b);
        assert(c * s == -(c * (-s))) by (nonlinear_arith);
        assert(tdiv(c * s, b) == -tdiv(c * (-s), b));
    }
}

/// Quaternion addition is commutative.
pub proof fn lemma_add_commutative(a: Quat, b: Quat)
    ensures
        qadd(a, b) == qadd(b, a),
{
}

/// Quaternion addition is associative.
pub proof fn lemma_add_associative(a: Quat, b: Quat, c: Quat)
    ensures
        qadd(qadd(a, b), c) == qadd(a, qadd(b, c)),
{
}

/// The Hamilton product commutes exactly when the imaginary parts are
/// parallel (their cross product vanishes); in particular it does not
/// commute in general.
pub proof fn lemma_mul_commutative_iff(a: Quat, b: Quat)
    ensures
        qmul(a, b) == qmul(b, a) <==> (a.j * b.k == a.k * b.j && a.k * b.i == a.i * b.k && a.i
            * b.j == a.j * b.i),
{
    assert(a.r * b.r - a.i * b.i - a.j * b.j - a.k * b.k == b.r * a.r - b.i * a.i - b.j * a.j - b.k
        * a.k && (a.r * b.i + a.i * b.r + a.j * b.k - a.k * b.j == b.r * a.i + b.i * a.r + b.j
        * a.k - b.k * a.j <==> a.j * b.k == a.k * b.j) && (a.r * b.j - a.i * b.k + a.j * b.r + a.k
        * b.i == b.r * a.j - b.i * a.k + b.j * a.r + b.k * a.i <==> a.k * b.i == a.i * b.k) && (a.r
        * b.k + a.i * b.j - a.j * b.i + a.k * b.r == b.r * a.k + b.i * a.j - b.j * a.i + b.k * a.r
        <==> a.i * b.j == a.j * b.i)) by (nonlinear_arith);
}

/// A real-only factor commutes with everything.
pub proof fn lemma_mul_real_commutes(a: Quat, b: Quat)
    requires
        a.i == 0,
        a.j == 0,
        a.k == 0,
    ensures
        qmul(a, b) == qmul(b, a),
{
    lemma_mul_commutative_iff(a, b);
    assert(a.j * b.k == a.k * b.j && a.k * b.i == a.i * b.k && a.i * b.j == a.j * b.i)
        by (nonlinear_arith)
        requires
            a.i == 0,
            a.j == 0,
            a.k == 0,
    ;
}

/// Normalizing `(c, 0, 0, 0)` with `c` of magnitude `SCALE` changes nothing.
proof fn lemma_axis_normalize_unit(c: int)
    requires
        c == 1000 || c == -1000,
    ensures
        normalize_spec(Quat { r: c, i: 0, j: 0, k: 0 }) == (Quat { r: c, i: 0, j: 0, k: 0 }),
{
    let q = Quat { r: c, i: 0, j: 0, k: 0 };
    assert(qnsq(q) == 1000000) by (nonlinear_arith)
        requires
            c == 1000 || c == -1000,
            qnsq(q) == c * c + 0 * 0 + 0 * 0 + 0 * 0,
    ;
    assert((1000000int) * 1000000 == 1000000000000int && (1000001int) * 1000001
        > 1000000000000int) by (nonlinear_arith);
    lemma_sqrt_floor_unique(1000000000000, 1000000);
    lemma_tdiv_exact(c, 1000000);
    lemma_tdiv_of_zero(1000000);
    assert(0int * 1000000 == 0) by (nonlinear_arith);
}

/// A zero-degree turn builds the identity rotation, whatever the axis.
pub proof fn lemma_zero_turn_is_identity(x: int, y: int, z: int)
    ensures
        rotation_spec(x, y, z, 0) == (Quat { r: 1000, i: 0, j: 0, k: 0 }),
{
    lemma_tdiv_of_zero(2);
    crate::trig::lemma_trig_cardinal();
    let a = normalize_spec(Quat { r: 0, i: x, j: y, k: z });
    assert(a.i * 0 == 0 && a.j * 0 == 0 && a.k * 0 == 0) by (nonlinear_arith);
    lemma_tdiv_of_zero(1000);
    lemma_axis_normalize_unit(1000);
}

/// A full turn builds the antipodal identity rotation, whatever the axis.
pub proof fn lemma_full_turn_is_identity(x: int, y: int, z: int)
    ensures
        rotation_spec(x, y, z, 360) == (Quat { r: -1000, i: 0, j: 0, k: 0 }),
{
    assert(180int * 2 == 360) by (nonlinear_arith);
    lemma_tdiv_exact(180, 2);
    crate::trig::lemma_trig_cardinal();
    let a = normalize_spec(Quat { r: 0, i: x, j: y, k: z });
    assert(a.i * 0 == 0 && a.j * 0 == 0 && a.k * 0 == 0) by (nonlinear_arith);
    lemma_tdiv_of_zero(1000);
    lemma_axis_normalize_unit(-1000);
}

/// Rotating by the identity rotation (or its antipode, the full turn)
/// returns every vector unchanged, exactly.
pub proof fn lemma_rotate_identity(v: Quat, c: int)
    requires
        c == 1000 || c == -1000,
    ensures
        rotate_spec(v, Quat { r: c, i: 0, j: 0, k: 0 }) == v,
{
    let q = Quat { r: c, i: 0, j: 0, k: 0 };
    assert(qconj(q) == q);
    lemma_axis_normalize_unit(c);
    let inv = normalize_spec(qconj(q));
    let m1 = qmul(v, inv);
    assert(m1.r == v.r * c && m1.i == v.i * c && m1.j == v.j * c && m1.k == v.k * c)
        by (nonlinear_arith)
        requires
            m1.r == v.r * c - v.i * 0 - v.j * 0 - v.k * 0,
            m1.i == v.r * 0 + v.i * c + v.j * 0 - v.k * 0,
            m1.j == v.r * 0 - v.i * 0 + v.j * c + v.k * 0,
            m1.k == v.r * 0 + v.i * 0 - v.j * 0 + v.k * c,
    ;
    let sw = qmul(q, m1);
    assert(sw.r == v.r * 1000000 && sw.i == v.i * 1000000 && sw.j == v.j * 1000000 && sw.k == v.k
        * 1000000) by (nonlinear_arith)
        requires
            c == 1000 || c == -1000,
            sw.r == c * m1.r - 0 * m1.i - 0 * m1.j - 0 * m1.k,
            sw.i == c * m1.i + 0 * m1.r + 0 * m1.k - 0 * m1.j,
            sw.j == c * m1.j - 0 * m1.k + 0 * m1.r + 0 * m1.i,
            sw.k == c * m1.k + 0 * m1.j - 0 * m1.i + 0 * m1.r,
            m1.r == v.r * c,
            m1.i == v.i * c,
            m1.j == v.j * c,
            m1.k == v.k * c,
    ;
    assert((SCALE as int) * (SCALE as int) == 1000000) by (nonlinear_arith)
        requires
            SCALE as int == 1000,
    ;
    lemma_tdiv_exact(v.r, 1000000);
    lemma_tdiv_exact(v.i, 1000000);
    lemma_tdiv_exact(v.j, 1000000);
    lemma_tdiv_exact(v.k, 1000000);
}

/// Conjugation preserves the length: the law behind `invert`.
pub proof fn lemma_invert_preserves_length(q: Quat)
    ensures
        sqrt_floor(qnsq(qconj(q))) == sqrt_floor(qnsq(q)),
{
    lemma_conj_nsq(q);
}

} // verus!
