//! The library's error taxonomy: the one fallible arithmetic operation
//! (normalizing a zero-length quaternion) and the stale-read guard on a
//! free body's cached balancing force.

use vstd::prelude::*;

verus! {

/// Everything that can go wrong in this library.
#[derive(Clone, Copy, Debug, PartialEq, Eq, Structural)]
pub enum GeomError {
    /// A zero quaternion or zero axis has no direction to normalize.
    ZeroLength,
    /// The cached balancing force does not reflect the current force list;
    /// call `solve` before reading it.
    NotSolved,
}

} // verus!
