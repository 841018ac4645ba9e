//! Forces: vectors whose length is the force's magnitude.

use vstd::prelude::*;
use crate::arith::{
    abs_int, rdiv, sqrt_floor, rdiv_i128, wide_mul, lemma_rdiv_bound_by, lemma_rdiv_ge_one,
    lemma_sqrt_floor_bracket, lemma_sqrt_floor_unique, lemma_sqrt_floor_monotonic,
};
use crate::vector::{V3, Vector3, v3_bounded, spherical_spec};
use crate::quaternion::{Quaternion, nsq_u128, lemma_abs_square, VEC_LIMIT, COMPONENT_LIMIT};

verus! {

/// Squared Euclidean norm of a vector.
pub open spec fn v3_nsq(a: V3) -> int {
    a.x * a.x + a.y * a.y + a.z * a.z
}

/// What `Force::new` builds: the direction `(x, y, z)` rescaled to `mag` at
/// `SCALE` precision (the length is the floor square root of the squared
/// direction norm scaled by `SCALE^2`, and each component rounds to the
/// nearest grid point); a zero direction or zero magnitude collapses to the
/// exact zero force.
pub open spec fn force_new_spec(x: int, y: int, z: int, mag: int) -> V3 {
    let len = sqrt_floor((x * x + y * y + z * z) * 1000000);
    if len == 0 || mag == 0 {
        V3 { x: 0, y: 0, z: 0 }
    } else {
        V3 {
            x: rdiv(x * mag * 1000, len),
            y: rdiv(y * mag * 1000, len),
            z: rdiv(z * mag * 1000, len),
        }
    }
}

/// A force: the wrapped vector's length is the magnitude, its direction the
/// line of action. Immutable value type.
#[derive(Clone, Copy, Debug, PartialEq, Eq, Structural)]
pub struct Force {
    v: Vector3,
}

impl View for Force {
    type V = V3;

    closed spec fn view(&self) -> V3 {
        self.v@
    }
}

impl Force {
    /// The wrapped vector is pure imaginary inside.
    pub closed spec fn wf(&self) -> bool {
        self.v.wf()
    }

    /// A force pointing from the origin toward `(x, y, z)` with magnitude
    /// `mag`, independent of the length of `(x, y, z)`; zero direction or
    /// zero magnitude gives the exact zero force, and any other input gives
    /// a nonzero force.
    pub fn new(x: i64, y: i64, z: i64, mag: i64) -> (f: Force)
        requires
            -VEC_LIMIT <= x <= VEC_LIMIT,
            -VEC_LIMIT <= y <= VEC_LIMIT,
            -VEC_LIMIT <= z <= VEC_LIMIT,
            -VEC_LIMIT <= mag <= VEC_LIMIT,
        ensures
            f@ == force_new_spec(x as int, y as int, z as int, mag as int),
            f.wf(),
            v3_bounded(f@, abs_int(mag as int)),
            ((x != 0 || y != 0 || z != 0) && mag != 0) ==> v3_nsq(f@) >= 1,
    {
        let q = Quaternion::new_vector(x, y, z);
        proof {
            assert(0int * 0int == 0) by (nonlinear_arith);
            lemma_abs_square(x as int, VEC_LIMIT as int);
            lemma_abs_square(y as int, VEC_LIMIT as int);
            lemma_abs_square(z as int, VEC_LIMIT as int);
            assert((VEC_LIMIT as int) * (VEC_LIMIT as int)
                == 250_000_000_000_000_000_000_000int) by (nonlinear_arith)
                requires
                    VEC_LIMIT as int == 500_000_000_000,
            ;
        }
        let ns = nsq_u128(&q);
        let len64 = crate::arith::isqrt_u128(ns * 1_000_000);
        proof {
            if x != 0 || y != 0 || z != 0 {
                assert((x as int) * (x as int) + (y as int) * (y as int) + (z as int) * (z as int)
                    >= 1) by (nonlinear_arith)
                    requires
                        x as int != 0 || y as int != 0 || z as int != 0,
                ;
                assert((ns as int) * 1000000 >= 1000000) by (nonlinear_arith)
                    requires
                        ns as int >= 1,
                ;
                assert((1000int) * 1000 == 1000000 && (1001int) * 1001 == 1002001)
                    by (nonlinear_arith);
                lemma_sqrt_floor_unique(1000000, 1000);
                lemma_sqrt_floor_monotonic(1000000, (ns as int) * 1000000);
            }
        }
        if len64 == 0 || mag == 0 {
            Force { v: Vector3::new(0, 0, 0) }
        } else {
            let ghost n: int = ns as int;
            proof {
                lemma_sqrt_floor_bracket(n * 1000000);
                assert((x as int) * (x as int) <= n && (y as int) * (y as int) <= n && (z as int)
                    * (z as int) <= n) by (nonlinear_arith)
                    requires
                        n == (x as int) * (x as int) + (y as int) * (y as int) + (z as int) * (
                        z as int),
                ;
                assert(-250_000_000_000_000_000_000_000int <= (x as int) * (mag as int)
                    <= 250_000_000_000_000_000_000_000int && -250_000_000_000_000_000_000_000int
                    <= (y as int) * (mag as int) <= 250_000_000_000_000_000_000_000int
                    && -250_000_000_000_000_000_000_000int <= (z as int) * (mag as int)
                    <= 250_000_000_000_000_000_000_000int) by (nonlinear_arith)
                    requires
                        -500_000_000_000 <= x as int <= 500_000_000_000,
                        -500_000_000_000 <= y as int <= 500_000_000_000,
                        -500_000_000_000 <= z as int <= 500_000_000_000,
                        -500_000_000_000 <= mag as int <= 500_000_000_000,
                ;
                lemma_dir_comp_small(x as int, n, len64 as int);
                lemma_dir_comp_small(y as int, n, len64 as int);
                lemma_dir_comp_small(z as int, n, len64 as int);
                lemma_force_comp_bound(x as int, mag as int, len64 as int);
                lemma_force_comp_bound(y as int, mag as int, len64 as int);
                lemma_force_comp_bound(z as int, mag as int, len64 as int);
                assert(4 * ((x as int) * (x as int)) >= n || 4 * ((y as int) * (y as int)) >= n
                    || 4 * ((z as int) * (z as int)) >= n) by (nonlinear_arith)
                    requires
                        n == (x as int) * (x as int) + (y as int) * (y as int) + (z as int) * (
                        z as int),
                ;
                if 4 * ((x as int) * (x as int)) >= n {
                    lemma_force_comp_unit(x as int, mag as int, n, len64 as int);
                } else if 4 * ((y as int) * (y as int)) >= n {
                    lemma_force_comp_unit(y as int, mag as int, n, len64 as int);
                } else {
                    lemma_force_comp_unit(z as int, mag as int, n, len64 as int);
                }
            }
            let li = len64 as i128;
            let f = Force {
                v: Vector3::new(
                    rdiv_i128(wide_mul(x, mag) * 1000, li) as i64,
                    rdiv_i128(wide_mul(y, mag) * 1000, li) as i64,
                    rdiv_i128(wide_mul(z, mag) * 1000, li) as i64,
                ),
            };
            proof {
                lemma_v3_sq_le_nsq(f@);
            }
            f
        }
    }

    /// A force built by the spherical convention (`phi` off +x, `theta` off
    /// +z, degrees); the magnitude is exact, no rescale happens.
    pub fn new_spherical(mag: i64, phi: i64, theta: i64) -> (f: Force)
        requires
            -VEC_LIMIT <= mag <= VEC_LIMIT,
            phi > i64::MIN,
            theta > i64::MIN,
        ensures
            f@ == spherical_spec(mag as int, phi as int, theta as int),
            f.wf(),
    {
        Force { v: Vector3::new_spherical(mag, phi, theta) }
    }

    /// The magnitude: the floor of the wrapped vector's Euclidean length,
    /// recomputed from the components on every call.
    pub fn mag(&self) -> (m: i64)
        requires
            v3_bounded(self@, COMPONENT_LIMIT as int),
            self.wf(),
        ensures
            m == sqrt_floor(v3_nsq(self@)),
            m >= 0,
    {
        let q = self.v.as_quaternion();
        proof {
            assert(0int * 0int == 0) by (nonlinear_arith);
        }
        q.length()
    }

    /// A force taken directly from Cartesian components, no rescale.
    pub(crate) fn new_direct(x: i64, y: i64, z: i64) -> (f: Force)
        ensures
            f@ == (V3 { x: x as int, y: y as int, z: z as int }),
            f.wf(),
    {
        Force { v: Vector3::new(x, y, z) }
    }

    /// The x component.
    pub fn x(&self) -> (r: i64)
        ensures
            r as int == self@.x,
    {
        self.v.x()
    }

    /// The y component.
    pub fn y(&self) -> (r: i64)
        ensures
            r as int == self@.y,
    {
        self.v.y()
    }

    /// The z component.
    pub fn z(&self) -> (r: i64)
        ensures
            r as int == self@.z,
    {
        self.v.z()
    }
}

/// The squared norm of a vector dominates each component square.
proof fn lemma_v3_sq_le_nsq(a: V3)
    ensures
        v3_nsq(a) >= a.x * a.x,
        v3_nsq(a) >= a.y * a.y,
        v3_nsq(a) >= a.z * a.z,
{
    assert(a.x * a.x >= 0 && a.y * a.y >= 0 && a.z * a.z >= 0) by (nonlinear_arith);
}

/// A direction component is small next to the scaled length.
proof fn lemma_dir_comp_small(c: int, n: int, len: int)
    requires
        c * c <= n,
        len >= 0,
        n * 1000000 < (len + 1) * (len + 1),
    ensures
        1000 * abs_int(c) <= len,
{
    let u = abs_int(c);
    assert(1000 * u <= len) by (nonlinear_arith)
        requires
            u >= 0,
            u == c || u == -c,
            c * c <= n,
            len >= 0,
            n * 1000000 < (len + 1) * (len + 1),
    ;
}

/// A rescaled component never exceeds the requested magnitude.
proof fn lemma_force_comp_bound(c: int, mag: int, len: int)
    requires
        len >= 1,
        1000 * abs_int(c) <= len,
    ensures
        -abs_int(mag) <= rdiv(c * mag * 1000, len) <= abs_int(mag),
{
    let u = abs_int(c);
    let um = abs_int(mag);
    assert(-(um * len) <= c * mag * 1000 <= um * len) by (nonlinear_arith)
        requires
            u == c || u == -c,
            um == mag || um == -mag,
            u >= 0,
            um >= 0,
            1000 * u <= len,
    ;
    lemma_rdiv_bound_by(c * mag * 1000, len, um);
}

/// A dominant direction component still carries at least one grid unit
/// after the rescale, for any nonzero magnitude.
proof fn lemma_force_comp_unit(c: int, mag: int, n: int, len: int)
    requires
        4 * (c * c) >= n,
        n >= 1,
        mag != 0,
        len >= 1,
        len * len <= n * 1000000,
    ensures
        rdiv(c * mag * 1000, len) * rdiv(c * mag * 1000, len) >= 1,
{
    let u = abs_int(c);
    let um = abs_int(mag);
    let a = c * mag * 1000;
    let ua = abs_int(a);
    assert(ua == u * um * 1000) by (nonlinear_arith)
        requires
            u == c || u == -c,
            um == mag || um == -mag,
            um >= 1,
            u >= 0,
            ua >= 0,
            a == c * mag * 1000,
            ua == a || ua == -a,
    ;
    assert(2000 * u >= len) by (nonlinear_arith)
        requires
            u >= 0,
            len >= 1,
            u == c || u == -c,
            4 * (c * c) >= n,
            len * len <= n * 1000000,
    ;
    assert(2 * ua >= len) by (nonlinear_arith)
        requires
            ua == u * um * 1000,
            um >= 1,
            u >= 0,
            2000 * u >= len,
    ;
    lemma_rdiv_ge_one(ua, len);
    if a < 0 {
        assert(rdiv(a, len) == -rdiv(ua, len));
    }
    let t = rdiv(a, len);
    assert(t * t >= 1) by (nonlinear_arith)
        requires
            t >= 1 || t <= -1,
    ;
}

} // verus!
