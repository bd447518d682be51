use posture_core::timespan::Timespan;
use posture_core::time_index::TimeIndex;
use posture_core::time_index::VALIDITY_BEGIN;
use posture_core::CoreError;

#[test]
fn timespan_new_ordered() {
    let ts = Timespan::new(10, 20).unwrap();
    assert_eq!(ts.begin, 10);
    assert_eq!(ts.end, 20);
}

#[test]
fn timespan_new_rejects_unordered() {
    assert_eq!(Timespan::new(20, 10), Err(CoreError::InvalidRange));
}

#[test]
fn timespan_is_inside_closed_ends() {
    let ts = Timespan::new(10, 20).unwrap();
    assert!(ts.is_inside(10));
    assert!(ts.is_inside(15));
    assert!(ts.is_inside(20));
    assert!(!ts.is_inside(9));
    assert!(!ts.is_inside(21));
}

#[test]
fn timespan_clamp_truncates_both_ends() {
    let ts = Timespan::new(0, 100).unwrap();
    let c = ts.clamp(10, 50);
    assert_eq!(c.begin, 10);
    assert_eq!(c.end, 50);
}

#[test]
fn to_day_covers_second_granularity_day() {
    let d = Timespan::to_day(19_358);
    assert_eq!(d.begin, VALIDITY_BEGIN);
    assert_eq!(d.end, VALIDITY_BEGIN + 86_399_000);
}

#[test]
fn days_single_day_span() {
    let ts = Timespan::new(VALIDITY_BEGIN + 100, VALIDITY_BEGIN + 200).unwrap();
    let days = ts.days();
    assert_eq!(days.len(), 1);
    assert_eq!(days[0].0, 19_358);
}

#[test]
fn days_crossing_midnight() {
    let ts = Timespan::new(VALIDITY_BEGIN + 100, VALIDITY_BEGIN + 86_400_000 + 100).unwrap();
    let days = ts.days();
    assert_eq!(days.len(), 2);
    assert_eq!(days[0].0, 19_358);
    assert_eq!(days[1].0, 19_359);
    assert_eq!(days[0].1.end, VALIDITY_BEGIN + 86_399_000);
    assert_eq!(days[1].1.begin, VALIDITY_BEGIN + 86_400_000);
}

#[test]
fn days_negative_timestamps() {
    let ts = Timespan::new(-100, 100).unwrap();
    let days = ts.days();
    assert_eq!(days.len(), 2);
    assert_eq!(days[0].0, -1);
    assert_eq!(days[1].0, 0);
}

#[test]
fn segment_two_blocks() {
    let ti = TimeIndex::new(vec![0, 1000, 2000, 50000, 51000]);
    let blocks = ti.segment_activity(5000).unwrap();
    assert_eq!(blocks.len(), 2);
    assert_eq!(blocks[0], Timespan::new(0, 2000).unwrap());
    assert_eq!(blocks[1], Timespan::new(50000, 51000).unwrap());
}

#[test]
fn segment_sorts_unsorted_input() {
    let ti = TimeIndex::new(vec![2000, 0, 51000, 1000, 50000]);
    let blocks = ti.segment_activity(5000).unwrap();
    assert_eq!(blocks.len(), 2);
    assert_eq!(blocks[0], Timespan::new(0, 2000).unwrap());
    assert_eq!(blocks[1], Timespan::new(50000, 51000).unwrap());
}

#[test]
fn segment_single_block_when_no_gap() {
    let ti = TimeIndex::new(vec![0, 1000, 2000]);
    let blocks = ti.segment_activity(5000).unwrap();
    assert_eq!(blocks.len(), 1);
    assert_eq!(blocks[0], Timespan::new(0, 2000).unwrap());
}

#[test]
fn segment_duplicate_timestamps_allowed() {
    let ti = TimeIndex::new(vec![0, 0, 10_000, 10_000]);
    let blocks = ti.segment_activity(5000).unwrap();
    assert_eq!(blocks.len(), 2);
    assert_eq!(blocks[0], Timespan::new(0, 0).unwrap());
    assert_eq!(blocks[1], Timespan::new(10_000, 10_000).unwrap());
}

#[test]
fn segment_block_count_is_one_plus_gaps() {
    let ti = TimeIndex::new(vec![0, 10_000, 20_000, 20_500, 40_000]);
    let blocks = ti.segment_activity(5000).unwrap();
    // gaps above 5000 ms: 0->10000, 10000->20000, 20500->40000
    assert_eq!(blocks.len(), 1 + 3);
}

#[test]
fn segment_insufficient_data() {
    assert_eq!(
        TimeIndex::new(vec![]).segment_activity(5000),
        Err(CoreError::InsufficientData)
    );
    assert_eq!(
        TimeIndex::new(vec![42]).segment_activity(5000),
        Err(CoreError::InsufficientData)
    );
}

#[test]
fn timespan_clamps_into_validity_window() {
    let ti = TimeIndex::new(vec![1_000, VALIDITY_BEGIN + 5_000]);
    let sp = ti.timespan().unwrap();
    assert_eq!(sp.begin, VALIDITY_BEGIN);
    assert_eq!(sp.end, VALIDITY_BEGIN + 5_000);
}

#[test]
fn timespan_of_empty_source_is_none() {
    assert!(TimeIndex::new(vec![]).timespan().is_none());
}

#[test]
fn between_keeps_rows_inside() {
    let ti = TimeIndex::new(vec![0, 10, 20, 30, 40]);
    let sub = ti.between(&Timespan::new(10, 30).unwrap());
    assert_eq!(sub.times, vec![10, 20, 30]);
}

#[test]
fn mask_marks_rows_inside() {
    let ti = TimeIndex::new(vec![0, 10, 20, 30, 40]);
    let mask = ti.mask(&Timespan::new(10, 30).unwrap());
    assert_eq!(mask, vec![false, true, true, true, false]);
}

#[test]
fn get_days_partitions_and_filters() {
    let d0 = VALIDITY_BEGIN;
    let d1 = VALIDITY_BEGIN + 86_400_000;
    let ti = TimeIndex::new(vec![d0 + 1000, d0 + 2000, d0 + 3000, d1 + 1000]);
    let all = ti.get_days(None);
    assert_eq!(all.len(), 2);
    assert_eq!(all[0].time, 19_358);
    assert_eq!(all[0].data.times.len(), 3);
    assert_eq!(all[1].time, 19_359);
    assert_eq!(all[1].data.times.len(), 1);

    let filtered = ti.get_days(Some(2));
    assert_eq!(filtered.len(), 1);
    assert_eq!(filtered[0].time, 19_358);
}

#[test]
fn get_days_of_empty_source() {
    assert_eq!(TimeIndex::new(vec![]).get_days(None).len(), 0);
}

#[test]
fn day_selects_one_calendar_day() {
    let d0 = VALIDITY_BEGIN;
    let ti = TimeIndex::new(vec![d0 - 1, d0 + 500, d0 + 86_398_999, d0 + 86_400_000]);
    let sub = ti.day(19_358);
    assert_eq!(sub.times, vec![d0 + 500, d0 + 86_398_999]);
}

#[test]
fn split_into_time_chunks_per_block() {
    let ti = TimeIndex::new(vec![0, 1000, 2000, 50000, 51000]);
    let chunks = ti.split_into_time_chunks(5000).unwrap();
    assert_eq!(chunks.len(), 2);
    assert_eq!(chunks[0].times, vec![0, 1000, 2000]);
    assert_eq!(chunks[1].times, vec![50000, 51000]);
}

#[test]
fn split_into_time_chunks_insufficient_data() {
    assert!(TimeIndex::new(vec![7]).split_into_time_chunks(5000).is_err());
}
