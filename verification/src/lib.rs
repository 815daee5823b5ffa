//! Statistics engine for a personal sleep/wake log.
//!
//! The log is an ordered sequence of timestamped transition events that
//! alternate between "woke up" and "fell asleep"; the polarity of an event
//! is derived from its position and the polarity chosen at initialization.
//! From the log the library derives spans (the intervals between consecutive
//! events), ranks them by duration or by normalized time of day, computes
//! rounded average durations, and expands each event into an uncertainty
//! window for display.

pub mod average;
pub mod laws;
pub mod log;
pub mod rank;
pub mod spans;
pub mod stats;
pub mod text;
pub mod timestamp;
pub mod window;
