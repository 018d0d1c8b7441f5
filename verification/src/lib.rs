//! An incremental surfel-based surface mapper with verified fixed-point
//! arithmetic: rigid transforms held as exact integer quaternions, a surfel
//! arena with generation-tagged handles, a rasterized index map for
//! projective association, point-to-plane pose registration, and a
//! confidence-weighted fusion controller. Every scalar is an integer count
//! of 1/SCALE units, so each contract states the computed value exactly.

pub mod fixed;
pub mod vec3;
pub mod transform;
pub mod surfel;
pub mod camera;
pub mod indexmap;
pub mod fusion;
pub mod dataset;
pub mod sphere;
pub mod icp;
pub mod frame;
pub mod spatial;
pub mod pipeline;
