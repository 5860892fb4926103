//! Core of a personal speed-run timing tool.
//!
//! The library has two halves:
//!
//! * a split-timing engine: [`stopwatch::Stopwatch`] tracks the elapsed time
//!   of an overall run across pauses, and [`stopwatch::StopSplit`] tracks one
//!   named sub-segment against snapshots of that elapsed time; and
//! * a binary persistence format: [`splits_file::RunData`] models a run
//!   definition (name, ordered split names, attempt history) and converts it
//!   to and from a fixed little-endian byte layout, rejecting malformed or
//!   truncated input without panicking.
//!
//! Durations are carried by [`interval::Interval`], a plain
//! seconds-plus-nanoseconds value; the monotonic clock behind the stopwatch
//! is reached only through the declarations in [`clock`].

pub mod clock;
pub mod codec;
pub mod interval;
pub mod splits_file;
pub mod stopwatch;
pub mod timestamp;
