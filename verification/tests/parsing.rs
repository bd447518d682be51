use posture_core::daily::DailyActivities;
use posture_core::daily::DailyActivity;
use posture_core::feedback::FeedbackCsv;
use posture_core::feedback::FeedbackType;
use posture_core::logs::LogEntry;
use posture_core::logs::LogEvents;
use posture_core::logs::LogLevel;
use posture_core::logs::Logs;
use posture_core::logs::Matcher;
use posture_core::logs::ParseLogEntryError;
use posture_core::misc::get_num_of_sensors;
use posture_core::misc::infer_file_type;
use posture_core::misc::parse_dart_timestring;
use posture_core::schema::OutputType;
use posture_core::timespan::TimedData;
use posture_core::versions::AppVersion;
use posture_core::versions::ParseAppVersionError;

#[test]
fn num_of_sensors_from_field_count() {
    assert_eq!(get_num_of_sensors(43), 18);
    assert_eq!(get_num_of_sensors(7), 0);
    assert_eq!(get_num_of_sensors(9), 1);
    assert_eq!(get_num_of_sensors(3), 0);
}

#[test]
fn file_type_from_field_count() {
    assert_eq!(infer_file_type(5), OutputType::points);
    assert_eq!(infer_file_type(10), OutputType::raw);
    assert_eq!(infer_file_type(43), OutputType::raw);
    assert_eq!(infer_file_type(4), OutputType::logs);
    assert_eq!(infer_file_type(6), OutputType::logs);
}

#[test]
fn output_type_subdirs() {
    assert_eq!(OutputType::points.subdir(), "points");
    assert_eq!(OutputType::raw.subdir(), "raw");
    assert_eq!(OutputType::logs.subdir(), "logs");
}

#[test]
fn feedback_matchers() {
    assert_eq!(FeedbackType::Rectify.matcher(), "rectify_");
    assert_eq!(FeedbackType::Backpain.matcher(), "backpain_");
}

#[test]
fn feedback_header_columns() {
    let header = FeedbackCsv::get_header();
    assert!(header.starts_with("shirtComfort, sensorIsMoving"));
    assert!(header.ends_with("standingDesk, sittingStandingSwitch"));
    assert_eq!(header.split(", ").count(), 41);
}

#[test]
fn daily_activity_parsing() {
    assert_eq!(DailyActivity::from_str("office"), Ok(DailyActivity::Office));
    assert_eq!(DailyActivity::from_str("homeOffice"), Ok(DailyActivity::Homeoffice));
    assert_eq!(DailyActivity::from_str("physicalWork"), Ok(DailyActivity::PhysicalWork));
    assert_eq!(DailyActivity::from_str("freetime"), Ok(DailyActivity::Freetime));
    assert_eq!(DailyActivity::from_str("travel"), Ok(DailyActivity::Travel));
    assert_eq!(DailyActivity::from_str("na"), Ok(DailyActivity::NA));
    assert_eq!(DailyActivity::from_str("couch"), Ok(DailyActivity::Other));
}

#[test]
fn daily_activities_holds_reports() {
    let d = DailyActivities::new(vec![TimedData { time: 1000, data: DailyActivity::Office }]);
    assert_eq!(d.len(), 1);
    assert_eq!(d.0[0].data, DailyActivity::Office);
}

#[test]
fn app_version_parses_four_parts() {
    assert_eq!(
        AppVersion::from_str("1.2.3-4"),
        Ok(AppVersion { major: 1, minor: 2, patch: 3, build: 4 })
    );
    assert_eq!(
        AppVersion::from_str("0.10.255-0"),
        Ok(AppVersion { major: 0, minor: 10, patch: 255, build: 0 })
    );
}

#[test]
fn app_version_rejects_malformed() {
    assert_eq!(AppVersion::from_str("1.2"), Err(ParseAppVersionError));
    assert_eq!(AppVersion::from_str("1.2.3"), Err(ParseAppVersionError));
    assert_eq!(AppVersion::from_str("a.b.c-d"), Err(ParseAppVersionError));
    assert_eq!(AppVersion::from_str("1.2.3-456"), Err(ParseAppVersionError));
    assert_eq!(AppVersion::from_str(""), Err(ParseAppVersionError));
}

#[test]
fn log_level_parsing_tolerates_whitespace() {
    assert_eq!(LogLevel::from_str(" INFO "), Ok(LogLevel::INFO));
    assert_eq!(LogLevel::from_str("WARNING"), Ok(LogLevel::WARNING));
    // The device writes SEVER for the severe level; the full word is
    // not a recognized field.
    assert_eq!(LogLevel::from_str("SEVER"), Ok(LogLevel::SEVERE));
    assert_eq!(LogLevel::from_str("SEVERE"), Err(ParseLogEntryError));
    assert_eq!(LogLevel::from_str("chatty"), Err(ParseLogEntryError));
}

#[test]
fn dart_timestring_parsing() {
    // 2023-01-01 00:00:10 UTC, fractional part ignored.
    assert_eq!(parse_dart_timestring("2023-01-01 00:00:10.123"), Some(1_672_531_210_000));
    assert_eq!(parse_dart_timestring("2023-01-01 00_00_10"), Some(1_672_531_210_000));
    assert_eq!(parse_dart_timestring("yesterday"), None);
}

#[test]
fn log_entry_parsing() {
    let e = LogEntry::from_str("2023-01-01 00:00:10.5,MyLogger,INFO,hello").unwrap();
    assert_eq!(e.timestamp, 1_672_531_210_000);
    assert_eq!(e.logger, "MyLogger");
    assert_eq!(e.log_level, LogLevel::INFO);
    assert_eq!(e.message, "hello");
}

#[test]
fn log_entry_rejoins_commas_in_message() {
    let e = LogEntry::from_str("2023-01-01 00:00:10,L,FINE,a,b").unwrap();
    assert_eq!(e.message, "a, b");
}

#[test]
fn log_entry_rejects_short_or_broken_lines() {
    assert!(LogEntry::from_str("a,b,c").is_err());
    assert!(LogEntry::from_str("not a time,L,INFO,msg").is_err());
    assert!(LogEntry::from_str("2023-01-01 00:00:10,L,LOUD,msg").is_err());
}

#[test]
fn logs_filter_matching_parsing_lines() {
    let logs = Logs::new(vec![
        String::from("2023-01-01 00:00:10,A,INFO,vibration: 3"),
        String::from("2023-01-01 00:00:11,B,FINE,quiet"),
        String::from("garbage with vibration: 9"),
        String::from("2023-01-01 00:00:12,C,INFO,vibration: 5"),
    ]);
    let m = Matcher::new("vibration: [0-9]").unwrap();
    let hits = logs.filter(&m);
    assert_eq!(hits.len(), 2);
    assert_eq!(hits[0].logger, "A");
    assert_eq!(hits[1].logger, "C");
}

#[test]
fn logs_find_first_match() {
    let logs = Logs::new(vec![
        String::from("2023-01-01 00:00:10,A,FINE,x"),
        String::from("2023-01-01 00:00:11,B,INFO,target here"),
        String::from("2023-01-01 00:00:12,C,INFO,target again"),
    ]);
    let m = Matcher::new("target").unwrap();
    let hit = logs.find(&m).unwrap();
    assert_eq!(hit.logger, "B");
    assert!(logs.find(&Matcher::new("absent").unwrap()).is_none());
    assert_eq!(logs.len(), 3);
}

#[test]
fn matcher_rejects_bad_pattern() {
    assert!(Matcher::new("(").is_none());
}

#[test]
fn log_event_queries_compile() {
    let events = [
        LogEvents::Vibration,
        LogEvents::ConnectionLoss,
        LogEvents::VibrationLevelChange,
    ];
    for e in events.iter() {
        assert!(Matcher::new(e.query()).is_some());
    }
    assert_eq!(LogEvents::ConnectionLoss.query(), "disconnected from");
}
