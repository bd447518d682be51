//! The three kinds of telemetry output a recording directory holds.

use vstd::prelude::*;

verus! {

/// Kind of telemetry table: per-sample scores, raw sensor readings, or
/// device logs.
#[derive(Debug, Clone, Copy, PartialEq, Eq, Structural)]
#[allow(non_camel_case_types)]
pub enum OutputType {
    points,
    raw,
    logs,
}

impl OutputType {
    /// Name of the subdirectory a recording of this kind is stored in.
    pub fn subdir(&self) -> (r: String)
        ensures
            *self is points ==> r@ == "points"@,
            *self is raw ==> r@ == "raw"@,
            *self is logs ==> r@ == "logs"@,
    {
        match self {
            OutputType::points => String::from_str("points"),
            OutputType::raw => String::from_str("raw"),
            OutputType::logs => String::from_str("logs"),
        }
    }
}

} // verus!
