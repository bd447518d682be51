//! Small classification helpers for raw telemetry files, and the
//! timestamp format the device logs use.

use crate::schema::OutputType;
use vstd::prelude::*;

verus! {

/// The epoch milliseconds a log timestamp string denotes, in the
/// format the device writes (date and time separated by `_`-mangled
/// colons, fractional seconds ignored); `None` when the string does not
/// parse. The result depends on the string alone.
pub uninterp spec fn dart_time_of(s: Seq<char>) -> Option<i64>;

/// Relies on `chrono::NaiveDateTime::parse_from_str` (and its
/// `timestamp_millis`): parses the log timestamp format after undoing
/// the device's `_`-for-`:` mangling and dropping fractional seconds.
/// The result depends on the characters alone.
#[verifier::external_body]
pub fn parse_dart_timestring(s: &str) -> (r: Option<i64>)
    ensures
        r == dart_time_of(s@),
{
    let head = s.split_once('.').unwrap_or((s, s)).0.replace('_', ":");
    match chrono::NaiveDateTime::parse_from_str(head.as_str(), "%Y-%m-%d %H:%M:%S") {
        Ok(t) => Some(t.and_utc().timestamp_millis()),
        Err(_) => None,
    }
}

/// How many two-sided bend sensors a table with `num_of_fields` columns
/// carries: seven columns are fixed bookkeeping, the rest come in
/// left/right pairs.
pub fn get_num_of_sensors(num_of_fields: usize) -> (r: usize)
    ensures
        num_of_fields >= 7 ==> r == (num_of_fields - 7) / 2,
        num_of_fields < 7 ==> r == 0,
{
    if num_of_fields >= 7 {
        (num_of_fields - 7) / 2
    } else {
        0
    }
}

/// The telemetry kind a file's field count reveals: five fields are a
/// score table, ten or more a raw table, anything else a log.
pub fn infer_file_type(num_of_fields: usize) -> (r: OutputType)
    ensures
        num_of_fields == 5 ==> r == OutputType::points,
        num_of_fields >= 10 ==> r == OutputType::raw,
        num_of_fields != 5 && num_of_fields < 10 ==> r == OutputType::logs,
{
    if num_of_fields == 5 {
        OutputType::points
    } else if num_of_fields >= 10 {
        OutputType::raw
    } else {
        OutputType::logs
    }
}

} // verus!
