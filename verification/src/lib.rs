//! Verified core of a shared 2D particle simulation.
//!
//! The world is modelled in fixed-point milli-units: one world unit is 1000
//! model units, so the 1200 x 600 world spans [0, 1_200_000] x [0, 600_000].
//! All kinematic arithmetic is integer arithmetic that saturates at the i64
//! range; every public operation carries a contract that pins down the result.

pub mod control;
pub mod num;
pub mod physics;
pub mod scene;
pub mod session;
