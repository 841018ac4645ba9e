//! Free bodies: a position and an ordered list of applied forces, with the
//! static-equilibrium solve that computes the one balancing force.

use vstd::prelude::*;
use crate::vector::{V3, Vector3, v3_add};
use crate::force::Force;
use crate::error::GeomError;

verus! {

/// Sum of a sequence of force vectors, left to right.
pub open spec fn sum_forces(s: Seq<V3>) -> V3
    decreases s.len(),
{
    if s.len() == 0 {
        V3 { x: 0, y: 0, z: 0 }
    } else {
        v3_add(sum_forces(s.drop_last()), s.last())
    }
}

/// The views of a list of forces, in insertion order.
pub open spec fn views_of(v: Seq<Force>) -> Seq<V3> {
    v.map_values(|f: Force| f@)
}

/// A free body under a set of applied forces; `solve` computes the one
/// additional force that brings the net force to zero. The `solved` flag
/// says whether the cached balancing force reflects the current list:
/// `add_force` clears it, `solve` restores it.
pub struct FreeBody {
    pos: Vector3,
    forces: Vec<Force>,
    solved_force: Force,
    solved: bool,
}

impl FreeBody {
    /// The position, for spatial context; the balance does not use it.
    pub closed spec fn pos_spec(&self) -> V3 {
        self.pos@
    }

    /// The applied forces, as vectors, in insertion order.
    pub closed spec fn forces_spec(&self) -> Seq<V3> {
        views_of(self.forces@)
    }

    /// Whether the cached balancing force is current.
    pub closed spec fn solved_spec(&self) -> bool {
        self.solved
    }

    /// The cached balancing force.
    pub closed spec fn solved_force_spec(&self) -> V3 {
        self.solved_force@
    }

    /// The cached balancing force is a well-formed force value; every
    /// constructor establishes this and every method preserves it.
    pub closed spec fn wf(&self) -> bool {
        self.solved_force.wf()
    }

    /// A body at `pos` with no forces applied; vacuously solved, the zero
    /// force balances nothing.
    pub fn new(pos: Vector3) -> (b: FreeBody)
        ensures
            b.pos_spec() == pos@,
            b.forces_spec() =~= Seq::<V3>::empty(),
            b.solved_spec(),
            b.solved_force_spec() == (V3 { x: 0, y: 0, z: 0 }),
            b.wf(),
    {
        FreeBody {
            pos,
            forces: Vec::new(),
            solved_force: Force::new_direct(0, 0, 0),
            solved: true,
        }
    }

    /// Appends a force and invalidates the cached solution.
    pub fn add_force(&mut self, new: Force)
        ensures
            final(self).forces_spec() =~= old(self).forces_spec().push(new@),
            !final(self).solved_spec(),
            final(self).pos_spec() == old(self).pos_spec(),
            final(self).solved_force_spec() == old(self).solved_force_spec(),
            final(self).wf() == old(self).wf(),
    {
        self.forces.push(new);
        self.solved = false;
    }

    /// Whether the cached balancing force reflects the current force list.
    pub fn solved(&self) -> (s: bool)
        ensures
            s == self.solved_spec(),
    {
        self.solved
    }

    /// The cached balancing force; reading it while unsolved would hand back
    /// stale physics, so that is a usage error instead.
    pub fn solved_force(&self) -> (r: Result<Force, GeomError>)
        ensures
            r is Ok <==> self.solved_spec(),
            r matches Ok(f) ==> f@ == self.solved_force_spec(),
            r matches Ok(f) ==> (self.wf() ==> f.wf()),
            r matches Err(e) ==> e == GeomError::NotSolved,
    {
        if self.solved {
            Ok(self.solved_force)
        } else {
            Err(GeomError::NotSolved)
        }
    }

    /// Sums the applied forces component-wise and negates the sum: the one
    /// force that would bring the net force on the body to zero.
    pub fn solve(&mut self)
        requires
            -(i64::MAX as int) <= sum_forces(old(self).forces_spec()).x <= i64::MAX as int,
            -(i64::MAX as int) <= sum_forces(old(self).forces_spec()).y <= i64::MAX as int,
            -(i64::MAX as int) <= sum_forces(old(self).forces_spec()).z <= i64::MAX as int,
        ensures
            final(self).solved_spec(),
            final(self).solved_force_spec() == (V3 {
                x: -sum_forces(old(self).forces_spec()).x,
                y: -sum_forces(old(self).forces_spec()).y,
                z: -sum_forces(old(self).forces_spec()).z,
            }),
            final(self).forces_spec() =~= old(self).forces_spec(),
            final(self).pos_spec() == old(self).pos_spec(),
            final(self).wf(),
    {
        let n: usize = self.forces.len();
        let mut xs: i128 = 0;
        let mut ys: i128 = 0;
        let mut zs: i128 = 0;
        let mut idx: usize = 0;
        proof {
            assert(0int * 9223372036854775808int == 0) by (nonlinear_arith);
        }
        while idx < n
            invariant
                idx <= n,
                n == self.forces.len(),
                self.forces == old(self).forces,
                self.pos == old(self).pos,
                self.solved_force == old(self).solved_force,
                xs == sum_forces(views_of(self.forces@.take(idx as int))).x,
                ys == sum_forces(views_of(self.forces@.take(idx as int))).y,
                zs == sum_forces(views_of(self.forces@.take(idx as int))).z,
                -((idx as int) * 9223372036854775808int) <= xs <= (idx as int)
                    * 9223372036854775808int,
                -((idx as int) * 9223372036854775808int) <= ys <= (idx as int)
                    * 9223372036854775808int,
                -((idx as int) * 9223372036854775808int) <= zs <= (idx as int)
                    * 9223372036854775808int,
            decreases n - idx,
        {
            let f = self.forces[idx];
            proof {
                assert(self.forces@.take(idx as int + 1).drop_last() =~= self.forces@.take(
                    idx as int,
                ));
                assert(views_of(self.forces@.take(idx as int + 1)).drop_last() =~= views_of(
                    self.forces@.take(idx as int),
                ));
                assert((idx as int + 1) * 9223372036854775808int == (idx as int)
                    * 9223372036854775808int + 9223372036854775808int) by (nonlinear_arith);
                assert((18446744073709551615int) * 9223372036854775808int
                    < 170141183460469231731687303715884105727int) by (nonlinear_arith);
                assert((idx as int + 1) * 9223372036854775808int <= (18446744073709551615int)
                    * 9223372036854775808int) by (nonlinear_arith)
                    requires
                        0 <= idx as int + 1 <= 18446744073709551615int,
                ;
            }
            xs = xs + (f.x() as i128);
            ys = ys + (f.y() as i128);
            zs = zs + (f.z() as i128);
            idx = idx + 1;
        }
        proof {
            assert(self.forces@.take(n as int) =~= self.forces@);
            assert(views_of(self.forces@.take(n as int)) =~= views_of(self.forces@));
        }
        let fx: i64 = (-xs) as i64;
        let fy: i64 = (-ys) as i64;
        let fz: i64 = (-zs) as i64;
        self.solved_force = Force::new_direct(fx, fy, fz);
        self.solved = true;
    }
}

} // verus!
