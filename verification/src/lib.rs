//! A particle sandbox library: an entity-component store with
//! positional-schema filtering, and a fixed-point physics engine with
//! swept collision detection, damped velocity exchange, and overlap
//! separation.
//!
//! All world coordinates, velocities and radii are fixed-point numbers:
//! an `i64` counts thousandths of a world unit (see [`fixed::SCALE`]).

pub mod boot;
pub mod bundles;
pub mod ecs;
pub mod fixed;
pub mod laws;

pub use fixed::SCALE;
