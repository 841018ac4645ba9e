//! Exact fixed-point geometry for 3D statics: quaternion algebra, rotation of
//! vectors by unit quaternions, and a static-equilibrium solver for free bodies.
//!
//! All components live on an integer grid of thousandths (`SCALE` grid units
//! stand for 1.0), so every operation has an exact integer contract: products
//! are exact, and each scaling step is a truncating division stated as such.

pub mod arith;
pub mod error;
pub mod trig;
pub mod quaternion;
pub mod vector;
pub mod force;
pub mod freebody;
