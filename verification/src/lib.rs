//! Verified humanoid arm inverse kinematics.
//!
//! The library repositions a four-joint arm chain (shoulder, upper arm,
//! lower arm, hand) so that the hand reaches a tracked target point while
//! keeping the bone segment lengths fixed.  All geometry is carried out in
//! fixed-point arithmetic: a coordinate of `1_000_000` stands for one unit
//! of world space, so every computation is exact integer arithmetic with a
//! stated rounding rule, and every result is pinned down by its contract.

pub mod authority;
pub mod chain;
pub mod fixed;
pub mod frame;
pub mod pole;
pub mod quat;
pub mod skeleton;
pub mod solver;
pub mod synth;
pub mod vec3;
