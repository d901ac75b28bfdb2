//! Fixed-point 2D steering library for a small arcade-style game.
//!
//! All quantities are integers scaled by `fx::ONE` (one unit is split
//! into `ONE` steps): positions and distances are in milli-units, angles
//! in milli-degrees, time in milli-seconds, and direction vectors are
//! unit vectors whose components are scaled by `ONE`.  Working over
//! integers keeps every controller a pure, exactly specified function
//! of its inputs.
//!
//! The library provides three per-tick controllers:
//! - player movement, in two control schemes (direct four-directional
//!   translation and tank-style rotate-then-advance);
//! - seek-rotate, which turns a seeker toward the player at a bounded
//!   angular rate without overshooting;
//! - seek-approach, which moves a seeker toward the player at a speed
//!   scaled by a difficulty multiplier.
//!
//! Every position a controller returns is clamped into a rectangular
//! bound centered at the origin.

pub mod fx;
pub mod vec2;
pub mod rot;
pub mod input;
pub mod player;
pub mod seeker;
pub mod laws;
