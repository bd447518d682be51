//! Device-log lines: their format, their parsing, and the pattern
//! search over a log. Reading log files off disk is the embedding
//! program's concern; a `Logs` value holds the lines themselves.

use crate::misc::dart_time_of;
use crate::text::spec_join;
use crate::text::spec_split;
use crate::text::spec_trim;
use crate::text::strings_view;
use vstd::prelude::*;

verus! {

broadcast use vstd::seq_lib::group_filter_ensures;

/// The log levels the device app writes.
#[derive(Debug, Clone, Copy, PartialEq, Eq, Structural)]
pub enum LogLevel {
    OFF,
    SHOUT,
    SEVERE,
    WARNING,
    INFO,
    CONFIG,
    FINE,
    FINER,
    FINEST,
}

/// Length class of a logged exercise.
#[derive(Debug, Clone, Copy, PartialEq, Eq, Structural)]
pub enum ExerciseLength {
    S,
    M,
    L,
    XL,
}

/// Foreground/background state change of the app.
#[derive(Debug, Clone, Copy, PartialEq, Eq, Structural)]
pub enum FGBGMode {
    Foreground,
    Background,
    Switch,
}

/// The notable events a log can be searched for.
#[derive(Debug, Clone, Copy, PartialEq, Eq, Structural)]
pub enum LogEvents {
    Vibration,
    ConnectionLoss,
    Exercise(ExerciseLength),
    FBGB(FGBGMode),
    VibrationLevelChange,
}

impl LogEvents {
    /// The search pattern that finds this event in a log.
    pub fn query(&self) -> (r: &'static str)
        ensures
            *self is Vibration ==> r@ == "VibrationTrigger, INFO, vibration:"@,
            *self is ConnectionLoss ==> r@ == "disconnected from"@,
            *self is Exercise ==> r@ == "saturation added: [1-9]"@,
            *self is FBGB ==> r@ == "FBGB"@,
            *self is VibrationLevelChange ==> r@ == "put: HiveKey.vibrationTriggerLevel"@,
    {
        match self {
            LogEvents::Vibration => "VibrationTrigger, INFO, vibration:",
            LogEvents::ConnectionLoss => "disconnected from",
            LogEvents::Exercise(_) => "saturation added: [1-9]",
            LogEvents::FBGB(_) => "FBGB",
            LogEvents::VibrationLevelChange => "put: HiveKey.vibrationTriggerLevel",
        }
    }
}

/// Error of the log-line parsing.
#[derive(Debug, Clone, Copy, PartialEq, Eq, Structural)]
pub struct ParseLogEntryError;

/// One parsed log line.
#[derive(Debug, Clone, PartialEq)]
pub struct LogEntry {
    pub timestamp: i64,
    pub logger: String,
    pub log_level: LogLevel,
    pub message: String,
}

/// The level a (trimmed) level field denotes. The device writes
/// `SEVER` for the severe level.
pub open spec fn spec_parse_log_level(s: Seq<char>) -> Option<LogLevel> {
    let t = spec_trim(s);
    if t == "OFF"@ {
        Some(LogLevel::OFF)
    } else if t == "SHOUT"@ {
        Some(LogLevel::SHOUT)
    } else if t == "SEVER"@ {
        Some(LogLevel::SEVERE)
    } else if t == "WARNING"@ {
        Some(LogLevel::WARNING)
    } else if t == "INFO"@ {
        Some(LogLevel::INFO)
    } else if t == "CONFIG"@ {
        Some(LogLevel::CONFIG)
    } else if t == "FINE"@ {
        Some(LogLevel::FINE)
    } else if t == "FINER"@ {
        Some(LogLevel::FINER)
    } else if t == "FINEST"@ {
        Some(LogLevel::FINEST)
    } else {
        None
    }
}

impl LogLevel {
    /// Parses the (whitespace-tolerant) level field of a log line.
    pub fn from_str(s: &str) -> (r: Result<LogLevel, ParseLogEntryError>)
        ensures
            match spec_parse_log_level(s@) {
                Some(l) => r == Ok::<LogLevel, ParseLogEntryError>(l),
                None => r == Err::<LogLevel, ParseLogEntryError>(ParseLogEntryError),
            },
    {
        let t = crate::text::trim_str(s);
        let ts = t.as_str();
        if crate::text::str_eq(ts, "OFF") {
            Ok(LogLevel::OFF)
        } else if crate::text::str_eq(ts, "SHOUT") {
            Ok(LogLevel::SHOUT)
        } else if crate::text::str_eq(ts, "SEVER") {
            Ok(LogLevel::SEVERE)
        } else if crate::text::str_eq(ts, "WARNING") {
            Ok(LogLevel::WARNING)
        } else if crate::text::str_eq(ts, "INFO") {
            Ok(LogLevel::INFO)
        } else if crate::text::str_eq(ts, "CONFIG") {
            Ok(LogLevel::CONFIG)
        } else if crate::text::str_eq(ts, "FINE") {
            Ok(LogLevel::FINE)
        } else if crate::text::str_eq(ts, "FINER") {
            Ok(LogLevel::FINER)
        } else if crate::text::str_eq(ts, "FINEST") {
            Ok(LogLevel::FINEST)
        } else {
            Err(ParseLogEntryError)
        }
    }
}

/// The comma-separated fields of a log line.
pub open spec fn spec_log_parts(s: Seq<char>) -> Seq<Seq<char>> {
    spec_split(s, ',')
}

/// Whether a log line parses: at least four fields, a well-formed
/// timestamp, a known level.
pub open spec fn log_line_parses(s: Seq<char>) -> bool {
    let parts = spec_log_parts(s);
    &&& parts.len() >= 4
    &&& dart_time_of(parts[0]) is Some
    &&& spec_parse_log_level(parts[2]) is Some
}

/// What a parsed entry holds of its line: the timestamp field's epoch
/// milliseconds, the trimmed logger field, the level, and the
/// remaining fields re-joined with `", "` and trimmed.
pub open spec fn log_entry_matches(e: LogEntry, s: Seq<char>) -> bool {
    let parts = spec_log_parts(s);
    &&& log_line_parses(s)
    &&& e.timestamp == dart_time_of(parts[0])->Some_0
    &&& e.log_level == spec_parse_log_level(parts[2])->Some_0
    &&& e.logger@ == spec_trim(parts[1])
    &&& e.message@ == spec_trim(spec_join(parts.skip(3), ", "@))
}

impl LogEntry {
    /// Parses one log line of the form
    /// `timestamp, logger, level, message...`.
    pub fn from_str(s: &str) -> (r: Result<LogEntry, ParseLogEntryError>)
        ensures
            !log_line_parses(s@) ==> r == Err::<LogEntry, ParseLogEntryError>(
                ParseLogEntryError,
            ),
            log_line_parses(s@) ==> (r matches Ok(e) && log_entry_matches(e, s@)),
    {
        let parts = crate::text::split_char(s, ',');
        if parts.len() < 4 {
            return Err(ParseLogEntryError);
        }
        let timestamp = match crate::misc::parse_dart_timestring(parts[0].as_str()) {
            Some(t) => t,
            None => {
                return Err(ParseLogEntryError);
            },
        };
        let log_level = match LogLevel::from_str(parts[2].as_str()) {
            Ok(l) => l,
            Err(e) => {
                return Err(e);
            },
        };
        let logger = crate::text::trim_str(parts[1].as_str());
        let joined = crate::text::join_from(&parts, 3, ", ");
        let message = crate::text::trim_str(joined.as_str());
        proof {
            assert(strings_view(parts@).skip(3) =~= spec_log_parts(s@).skip(3));
        }
        Ok(LogEntry { timestamp, logger, log_level, message })
    }
}

/// Whether the regular expression `pattern` matches anywhere in
/// `text`. The result depends on the pattern and the text alone.
pub uninterp spec fn regex_match(pattern: Seq<char>, text: Seq<char>) -> bool;

#[verifier::external_type_specification]
#[verifier::external_body]
pub struct ExRegex(regex::Regex);

/// A compiled search pattern, kept beside its pattern text. The fields
/// are private: only `new` builds a `Matcher`, so the compiled program
/// always belongs to the stored pattern.
#[derive(Debug)]
pub struct Matcher {
    pattern: String,
    re: regex::Regex,
}

impl Matcher {
    /// The pattern this matcher was compiled from.
    pub closed spec fn pattern_spec(&self) -> Seq<char> {
        self.pattern@
    }

    /// Relies on `regex::Regex::new`: compiles the pattern, `None` when
    /// the pattern is rejected.
    #[verifier::external_body]
    pub fn new(pattern: &str) -> (r: Option<Matcher>)
        ensures
            r matches Some(m) ==> m.pattern_spec() == pattern@,
    {
        match regex::Regex::new(pattern) {
            Ok(re) => Some(Matcher { pattern: pattern.to_string(), re }),
            Err(_) => None,
        }
    }

    /// Relies on `regex::Regex::is_match`: whether the compiled pattern
    /// matches anywhere in `text`; a function of the pattern and the
    /// text alone.
    #[verifier::external_body]
    pub fn is_match(&self, text: &str) -> (r: bool)
        ensures
            r == regex_match(self.pattern_spec(), text@),
    {
        self.re.is_match(text)
    }
}

/// The lines of a matching-and-parsing search: the lines the pattern
/// matches and that parse as log entries, in file order.
pub open spec fn matching_lines(lines: Seq<Seq<char>>, pattern: Seq<char>) -> Seq<Seq<char>> {
    lines.filter(|l: Seq<char>| regex_match(pattern, l) && log_line_parses(l))
}

/// The lines of a device log, in file order.
#[derive(Debug, Clone)]
pub struct Logs(pub Vec<String>);

impl Logs {
    /// Wraps the collected log lines.
    pub fn new(lines: Vec<String>) -> (r: Logs)
        ensures
            r.0@ == lines@,
    {
        Logs(lines)
    }

    /// Number of lines held.
    pub fn len(&self) -> (r: usize)
        ensures
            r == self.0@.len(),
    {
        self.0.len()
    }

    /// Every entry whose line the pattern matches and that parses, in
    /// file order; matching lines that do not parse are skipped.
    pub fn filter(&self, m: &Matcher) -> (r: Vec<LogEntry>)
        ensures
            r@.len() == matching_lines(strings_view(self.0@), m.pattern_spec()).len(),
            forall|k: int|
                0 <= k < r@.len() ==> log_entry_matches(
                    #[trigger] r@[k],
                    matching_lines(strings_view(self.0@), m.pattern_spec())[k],
                ),
    {
        let ghost lv = strings_view(self.0@);
        let ghost pred = |l: Seq<char>|
            regex_match(m.pattern_spec(), l) && log_line_parses(l);
        let mut out: Vec<LogEntry> = Vec::new();
        let mut i: usize = 0;
        proof {
            assert(lv.take(0).filter(pred) =~= Seq::<Seq<char>>::empty()) by {
                reveal(Seq::filter);
            }
        }
        while i < self.0.len()
            invariant
                i <= self.0@.len(),
                lv == strings_view(self.0@),
                pred == (|l: Seq<char>|
                    regex_match(m.pattern_spec(), l) && log_line_parses(l)),
                out@.len() == lv.take(i as int).filter(pred).len(),
                forall|k: int|
                    0 <= k < out@.len() ==> log_entry_matches(
                        #[trigger] out@[k],
                        lv.take(i as int).filter(pred)[k],
                    ),
            decreases self.0@.len() - i,
        {
            let line = &self.0[i];
            proof {
                lv.lemma_take_succ_push(i as int);
                assert(lv[i as int] == line@);
                let taken = lv.take(i as int);
                assert(lv.take(i + 1).filter(pred) == if pred(line@) {
                    taken.filter(pred).push(line@)
                } else {
                    taken.filter(pred)
                }) by {
                    reveal(Seq::filter);
                    assert(lv.take(i + 1).drop_last() =~= taken);
                    assert(lv.take(i + 1).last() == line@);
                }
            }
            if m.is_match(line.as_str()) {
                match LogEntry::from_str(line.as_str()) {
                    Ok(e) => {
                        out.push(e);
                    },
                    Err(_) => {},
                }
            }
            i = i + 1;
        }
        proof {
            assert(lv.take(lv.len() as int) =~= lv);
            assert(matching_lines(lv, m.pattern_spec()) == lv.filter(pred));
        }
        out
    }

    /// The first entry whose line the pattern matches and that parses;
    /// `None` when no line qualifies.
    pub fn find(&self, m: &Matcher) -> (r: Option<LogEntry>)
        ensures
            (r is None) <==> matching_lines(strings_view(self.0@), m.pattern_spec()).len()
                == 0,
            r matches Some(e) ==> log_entry_matches(
                e,
                matching_lines(strings_view(self.0@), m.pattern_spec())[0],
            ),
    {
        let ghost lv = strings_view(self.0@);
        let ghost pred = |l: Seq<char>|
            regex_match(m.pattern_spec(), l) && log_line_parses(l);
        let mut i: usize = 0;
        proof {
            assert(lv.take(0).filter(pred) =~= Seq::<Seq<char>>::empty()) by {
                reveal(Seq::filter);
            }
        }
        while i < self.0.len()
            invariant
                i <= self.0@.len(),
                lv == strings_view(self.0@),
                pred == (|l: Seq<char>|
                    regex_match(m.pattern_spec(), l) && log_line_parses(l)),
                lv.take(i as int).filter(pred).len() == 0,
            decreases self.0@.len() - i,
        {
            let line = &self.0[i];
            proof {
                lv.lemma_take_succ_push(i as int);
                assert(lv[i as int] == line@);
                let taken = lv.take(i as int);
                assert(lv.take(i + 1).filter(pred) == if pred(line@) {
                    taken.filter(pred).push(line@)
                } else {
                    taken.filter(pred)
                }) by {
                    reveal(Seq::filter);
                    assert(lv.take(i + 1).drop_last() =~= taken);
                    assert(lv.take(i + 1).last() == line@);
                }
            }
            if m.is_match(line.as_str()) {
                match LogEntry::from_str(line.as_str()) {
                    Ok(e) => {
                        proof {
                            assert(lv =~= lv.take(i + 1) + lv.skip(i + 1));
                            assert(lv.filter(pred) == lv.take(i + 1).filter(pred) + lv.skip(
                                i + 1,
                            ).filter(pred)) by {
                                Seq::filter_distributes_over_add(
                                    lv.take(i + 1),
                                    lv.skip(i + 1),
                                    pred,
                                );
                            }
                            assert(lv.filter(pred)[0] == line@);
                        }
                        return Some(e);
                    },
                    Err(_) => {},
                }
            }
            i = i + 1;
        }
        proof {
            assert(lv.take(lv.len() as int) =~= lv);
        }
        None
    }
}

} // verus!
