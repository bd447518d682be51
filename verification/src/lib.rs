//! Core engine for wearable posture-telemetry reporting.
//!
//! The library breaks a stream of time-stamped sensor records into
//! meaningful temporal windows (contiguous activity periods and calendar
//! days) and turns per-sample measurements into distribution statistics:
//! an n-dimensional histogram over derived features such as the sliding
//! window movement score and the posture aggregate.
//!
//! Timestamps are integer milliseconds since the Unix epoch; calendar
//! arithmetic is done in a fixed reference calendar of 86 400 000 ms days.
//! Measurement values are carried as fixed-point integers; the scale is
//! chosen by the caller and never matters to the algorithms here.

pub mod cache;
pub mod daily;
pub mod features;
pub mod feedback;
pub mod histogram;
pub mod logs;
pub mod misc;
pub mod schema;
pub mod stats;
pub mod text;
pub mod time_index;
pub mod timespan;
pub mod versions;

use vstd::prelude::*;

verus! {

/// Milliseconds in one calendar day of the fixed reference calendar.
pub const MS_PER_DAY: i64 = 86_400_000;

/// Errors surfaced by the temporal-segmentation engine.
///
/// `InvalidRange` is returned when a span is constructed with
/// `begin > end`; `InsufficientData` when activity segmentation is asked
/// to work on fewer than two samples.
#[derive(Debug, Clone, Copy, PartialEq, Eq, Structural)]
pub enum CoreError {
    InvalidRange,
    InsufficientData,
}

} // verus!
