//! Physics core of a 2D particle sandbox: circular bodies under gravity,
//! drag and wall reflection, a uniform-grid broad phase, a narrow-phase
//! circle resolver with a random-jitter fallback for coincident centers,
//! and spring / rigid-length constraints with rope and soft-body builders.
//! All quantities are saturating fixed-point numbers in thousandths of a
//! unit, and every contract pins the arithmetic exactly.

pub mod body;
pub mod collision;
pub mod config;
pub mod constraint;
pub mod fixed;
pub mod grid;
pub mod integrate;
pub mod sim;
pub mod trig;
pub mod vec2;
