//! Screencast post-processing: a time-indexed zoom/pan planner, a cursor
//! smoother, click ripples, a motion estimator and a frame compositor, all in
//! fixed-point arithmetic.
//!
//! Units used throughout the library:
//! - time is in microseconds (`i64`);
//! - event-space positions are in thousandths of a screen point, canvas
//!   positions in thousandths of a pixel (`i64`);
//! - fractions (progress, easing, opacity, zoom) are in millionths, so
//!   `UNIT` stands for 1.0.
use vstd::prelude::*;

pub mod capture;
pub mod click_highlight;
pub mod cursor;
pub mod effects;
pub mod events;
pub mod fixed;
pub mod frame;
pub mod metadata;
pub mod motion_blur;
pub mod pipeline;
pub mod zoom;
