//! Exact, overflow-checked arithmetic on time durations and points in time.
//!
//! The core multiplies and divides a duration by a 64-bit scalar without
//! losing precision, using 128-bit-wide intermediates that are built from
//! 64-bit operations only.
pub mod duration;
pub mod system_time;
pub mod wide;

pub use duration::{Duration, DurationExt};
pub use system_time::SystemTimeExt;
