//! The self-reported daily activity of a user, one timestamped entry
//! per report file. Reading the report files is the embedding
//! program's concern; the parsing of a report line lives here.

use crate::timespan::TimedData;
use vstd::prelude::*;

verus! {

/// What the user reported doing that day.
#[derive(Debug, Clone, Copy, PartialEq, Eq, Structural)]
pub enum DailyActivity {
    Office,
    Homeoffice,
    Travel,
    Other,
    NA,
    Freetime,
    PhysicalWork,
}

/// Error of the daily-activity parsing.
#[derive(Debug, Clone, Copy, PartialEq, Eq, Structural)]
pub struct ParsingDailyActivityError;

/// The activity a report line denotes; every unknown line is `Other`.
pub open spec fn spec_parse_daily_activity(s: Seq<char>) -> DailyActivity {
    if s == "office"@ {
        DailyActivity::Office
    } else if s == "homeOffice"@ {
        DailyActivity::Homeoffice
    } else if s == "physicalWork"@ {
        DailyActivity::PhysicalWork
    } else if s == "freetime"@ {
        DailyActivity::Freetime
    } else if s == "travel"@ {
        DailyActivity::Travel
    } else if s == "na"@ {
        DailyActivity::NA
    } else {
        DailyActivity::Other
    }
}

impl DailyActivity {
    /// Parses one report line. Unknown lines fall back to `Other`, so
    /// the parse never fails.
    pub fn from_str(s: &str) -> (r: Result<DailyActivity, ParsingDailyActivityError>)
        ensures
            r == Ok::<DailyActivity, ParsingDailyActivityError>(spec_parse_daily_activity(s@)),
    {
        if crate::text::str_eq(s, "office") {
            Ok(DailyActivity::Office)
        } else if crate::text::str_eq(s, "homeOffice") {
            Ok(DailyActivity::Homeoffice)
        } else if crate::text::str_eq(s, "physicalWork") {
            Ok(DailyActivity::PhysicalWork)
        } else if crate::text::str_eq(s, "freetime") {
            Ok(DailyActivity::Freetime)
        } else if crate::text::str_eq(s, "travel") {
            Ok(DailyActivity::Travel)
        } else if crate::text::str_eq(s, "na") {
            Ok(DailyActivity::NA)
        } else {
            Ok(DailyActivity::Other)
        }
    }
}

/// The collected daily-activity reports of one user, each paired with
/// the report's timestamp.
#[derive(Debug, Clone)]
pub struct DailyActivities(pub Vec<TimedData<DailyActivity>>);

impl DailyActivities {
    /// Wraps the collected reports.
    pub fn new(entries: Vec<TimedData<DailyActivity>>) -> (r: DailyActivities)
        ensures
            r.0@ == entries@,
    {
        DailyActivities(entries)
    }

    /// Number of reports.
    pub fn len(&self) -> (r: usize)
        ensures
            r == self.0@.len(),
    {
        self.0.len()
    }
}

} // verus!
