//! 3D vectors on the grid, expressed as pure-imaginary quaternions.

use vstd::prelude::*;
use crate::arith::{SCALE, abs_int, tdiv, tdiv_i128, wide_mul, lemma_tdiv_bound_any};
use crate::trig::{spec_sin_deg, spec_cos_deg, sin_deg, cos_deg};
use crate::quaternion::{Quat, Quaternion, VEC_LIMIT};

verus! {

/// Spec model of a 3D vector.
pub struct V3 {
    pub x: int,
    pub y: int,
    pub z: int,
}

/// Component-wise sum.
pub open spec fn v3_add(a: V3, b: V3) -> V3 {
    V3 { x: a.x + b.x, y: a.y + b.y, z: a.z + b.z }
}

/// Every component within `[-l, l]`.
pub open spec fn v3_bounded(a: V3, l: int) -> bool {
    -l <= a.x <= l && -l <= a.y <= l && -l <= a.z <= l
}

/// The spherical construction (physics convention): `phi` from the +x axis,
/// `theta` from the +z axis, in degrees; trig factors are grid-scaled, so
/// two of them divide by `SCALE * SCALE` and one by `SCALE`.
pub open spec fn spherical_spec(m: int, phi: int, theta: int) -> V3 {
    let st = spec_sin_deg(theta);
    let ct = spec_cos_deg(theta);
    let sp = spec_sin_deg(phi);
    let cp = spec_cos_deg(phi);
    V3 {
        x: tdiv(m * st * cp, 1_000_000),
        y: tdiv(m * st * sp, 1_000_000),
        z: tdiv(m * ct, 1000),
    }
}

/// A 3D Cartesian vector `(x, y, z)`, internally a pure quaternion
/// (`r == 0`). Immutable value type; every operation returns a new instance.
#[derive(Clone, Copy, Debug, PartialEq, Eq, Structural)]
pub struct Vector3 {
    q: Quaternion,
}

impl View for Vector3 {
    type V = V3;

    closed spec fn view(&self) -> V3 {
        V3 { x: self.q@.i, y: self.q@.j, z: self.q@.k }
    }
}

impl Vector3 {
    /// Pure imaginary inside: the quaternion's real part is zero.
    pub closed spec fn wf(&self) -> bool {
        self.q@.r == 0
    }

    /// Direct Cartesian construction.
    pub fn new(x: i64, y: i64, z: i64) -> (v: Vector3)
        ensures
            v@ == (V3 { x: x as int, y: y as int, z: z as int }),
            v.wf(),
    {
        Vector3 { q: Quaternion::new_vector(x, y, z) }
    }

    /// Spherical construction: `phi` off the +x axis, `theta` off the +z
    /// axis, both in degrees.
    pub fn new_spherical(mag: i64, phi: i64, theta: i64) -> (v: Vector3)
        requires
            -VEC_LIMIT <= mag <= VEC_LIMIT,
            phi > i64::MIN,
            theta > i64::MIN,
        ensures
            v@ == spherical_spec(mag as int, phi as int, theta as int),
            v.wf(),
    {
        let st = sin_deg(theta);
        let ct = cos_deg(theta);
        let sp = sin_deg(phi);
        let cp = cos_deg(phi);
        proof {
            lemma_spherical_mul_bounds(mag as int, st as int, ct as int, sp as int, cp as int);
            lemma_tdiv_bound_any(mag as int * st as int * cp as int, 1_000_000);
            lemma_tdiv_bound_any(mag as int * st as int * sp as int, 1_000_000);
            lemma_tdiv_bound_any(mag as int * ct as int, 1000);
        }
        let mst: i128 = wide_mul(mag, st);
        let x: i64 = tdiv_i128(mst * (cp as i128), 1_000_000) as i64;
        let y: i64 = tdiv_i128(mst * (sp as i128), 1_000_000) as i64;
        let z: i64 = tdiv_i128(wide_mul(mag, ct), 1000) as i64;
        Vector3::new(x, y, z)
    }

    /// The x component.
    pub fn x(&self) -> (r: i64)
        ensures
            r as int == self@.x,
    {
        self.q.i
    }

    /// The y component.
    pub fn y(&self) -> (r: i64)
        ensures
            r as int == self@.y,
    {
        self.q.j
    }

    /// The z component.
    pub fn z(&self) -> (r: i64)
        ensures
            r as int == self@.z,
    {
        self.q.k
    }

    /// Adds two vectors component by component.
    pub fn add(&self, other: &Vector3) -> (v: Vector3)
        requires
            i64::MIN <= self@.x + other@.x <= i64::MAX,
            i64::MIN <= self@.y + other@.y <= i64::MAX,
            i64::MIN <= self@.z + other@.z <= i64::MAX,
        ensures
            v@ == v3_add(self@, other@),
            v.wf(),
    {
        Vector3::new(self.q.i + other.q.i, self.q.j + other.q.j, self.q.k + other.q.k)
    }

    /// Scales every component by `scale_factor`, which may be negative or
    /// zero.
    pub fn scale(&self, scale_factor: i64) -> (v: Vector3)
        requires
            i64::MIN <= self@.x * scale_factor <= i64::MAX,
            i64::MIN <= self@.y * scale_factor <= i64::MAX,
            i64::MIN <= self@.z * scale_factor <= i64::MAX,
        ensures
            v@ == (V3 {
                x: self@.x * scale_factor,
                y: self@.y * scale_factor,
                z: self@.z * scale_factor,
            }),
            v.wf(),
    {
        Vector3::new(
            wide_mul(self.q.i, scale_factor) as i64,
            wide_mul(self.q.j, scale_factor) as i64,
            wide_mul(self.q.k, scale_factor) as i64,
        )
    }

    /// The underlying pure quaternion, as a value copy.
    pub fn as_quaternion(&self) -> (q: Quaternion)
        ensures
            q@.i == self@.x,
            q@.j == self@.y,
            q@.k == self@.z,
            self.wf() ==> q@.r == 0,
    {
        self.q
    }
}

/// The spherical products stay within the wide intermediates and within
/// `|mag| * SCALE * SCALE`.
proof fn lemma_spherical_mul_bounds(m: int, st: int, ct: int, sp: int, cp: int) by (nonlinear_arith)
    requires
        -500_000_000_000 <= m <= 500_000_000_000,
        -1000 <= st <= 1000,
        -1000 <= ct <= 1000,
        -1000 <= sp <= 1000,
        -1000 <= cp <= 1000,
    ensures
        -500_000_000_000_000 <= m * st <= 500_000_000_000_000,
        -500_000_000_000_000_000 <= m * st * cp <= 500_000_000_000_000_000,
        -500_000_000_000_000_000 <= m * st * sp <= 500_000_000_000_000_000,
        -500_000_000_000_000 <= m * ct <= 500_000_000_000_000,
{
}

} // verus!
