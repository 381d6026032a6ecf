use aquatrack::lap::{LapStat, TOP_MAX};

const SEC: u64 = 1_000_000;

#[test]
fn fresh_record_is_invalid() {
    let s = LapStat::invalid();
    assert!(!s.is_valid());
    let started = LapStat::from(5 * SEC);
    assert!(!started.is_valid());
}

#[test]
fn update_then_valid_and_duration() {
    let mut s = LapStat::from(2 * SEC);
    s.update(5 * SEC);
    assert!(s.is_valid());
    assert_eq!(s.lap_duration(), 3 * SEC);
}

#[test]
fn inverted_order_is_invalid() {
    let mut s = LapStat::from(9 * SEC);
    s.update(5 * SEC);
    assert!(!s.is_valid());
}

#[test]
fn gate_only_lap_completes_on_second_gate_crossing() {
    // One configured checkpoint: just the start/finish gate.
    let mut s = LapStat::invalid();
    assert!(!s.completed_lap(0, 1, 10 * SEC));
    assert!(s.completed_lap(0, 1, 20 * SEC));
}

#[test]
fn lap_with_intermediate_checkpoint_completes_in_order() {
    let mut s = LapStat::invalid();
    assert!(!s.completed_lap(0, 2, 10 * SEC));
    assert!(!s.completed_lap(1, 2, 15 * SEC));
    assert!(s.completed_lap(0, 2, 20 * SEC));
}

#[test]
fn skipped_checkpoint_blocks_completion() {
    let mut s = LapStat::invalid();
    assert!(!s.completed_lap(0, 2, 10 * SEC));
    assert!(!s.completed_lap(0, 2, 20 * SEC));
}

#[test]
fn checkpoint_timestamp_overwrites_within_lap() {
    let mut s = LapStat::from(0);
    assert!(!s.completed_lap(1, 3, 4 * SEC));
    assert!(!s.completed_lap(1, 3, 6 * SEC));
    assert_eq!(s.checkpoint_duration(1), Some(6 * SEC));
}

#[test]
fn checkpoint_duration_cases() {
    let s = LapStat::invalid();
    assert_eq!(s.checkpoint_duration(1), None);
    let mut t = LapStat::from(2 * SEC);
    assert_eq!(t.checkpoint_duration(1), None);
    assert!(!t.completed_lap(1, 2, 5 * SEC));
    assert_eq!(t.checkpoint_duration(1), Some(3 * SEC));
}

#[test]
fn duplicate_matches_original() {
    let mut s = LapStat::from(SEC);
    s.update(4 * SEC);
    let d = s.duplicate();
    assert!(d.is_valid());
    assert_eq!(d.lap_duration(), 3 * SEC);
}

#[test]
fn sentinel_is_largest_timestamp() {
    assert_eq!(TOP_MAX, u64::MAX);
}
