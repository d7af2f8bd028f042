//! A triangular creature that wanders at random inside a fixed window.
//!
//! All of it is integer arithmetic with a stated rounding direction. Angles
//! and unit vectors count [`fixed::UNIT`] steps to the radian and to the unit
//! length; positions count [`life::PIXEL`] steps to the pixel. The corners of
//! the creature are held by distance and angle, so that a turn changes no
//! distance.

pub mod fixed;
pub mod turn;
pub mod chance;
pub mod life;
pub mod theorems;
