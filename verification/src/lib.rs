//! Deterministic color-palette generation for generative-art sketches.
//!
//! All quantities are fixed-point integers in micro-units: the constant
//! [`fixed::UNIT`] stands for the real value `1.0`, hue angles are carried in
//! micro-degrees, and angles of a full rotation ("turns") in micro-turns.
//! Working over integers keeps every formula exact and lets each function
//! carry a complete functional contract.

use vstd::prelude::*;

pub mod colors;
pub mod fixed;
pub mod pacing;
pub mod poline;
pub mod random_source;
pub mod trig;

verus! {

} // verus!
