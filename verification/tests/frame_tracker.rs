use quic_vid::frame_tracker::FrameTracker;
use std::time::Duration;

fn ms(value: u64) -> u128 {
    Duration::from_millis(value).as_nanos()
}

#[test]
fn tracks_in_order_frames() {
    let mut tracker = FrameTracker::default();

    tracker.record(0, ms(0));
    tracker.record(1, ms(20));
    tracker.record(2, ms(40));

    let summary = tracker.summary();

    assert_eq!(summary.received, 3);
    assert_eq!(summary.unique, 3);
    assert_eq!(summary.missing_within_observed_range, 0);
    assert_eq!(summary.out_of_order, 0);
    assert_eq!(summary.duplicates, 0);
}

#[test]
fn detects_missing_frame() {
    let mut tracker = FrameTracker::default();

    tracker.record(0, ms(0));
    tracker.record(1, ms(20));
    tracker.record(3, ms(40));

    assert_eq!(tracker.summary().missing_within_observed_range, 1);
}

#[test]
fn detects_out_of_order_frame() {
    let mut tracker = FrameTracker::default();

    tracker.record(0, ms(0));
    tracker.record(2, ms(20));
    tracker.record(1, ms(40));

    let summary = tracker.summary();

    assert_eq!(summary.out_of_order, 1);
    assert_eq!(summary.missing_within_observed_range, 0);
}

#[test]
fn detects_duplicate_frame() {
    let mut tracker = FrameTracker::default();

    tracker.record(0, ms(0));
    tracker.record(1, ms(20));
    tracker.record(1, ms(30));
    tracker.record(2, ms(40));

    let summary = tracker.summary();

    assert_eq!(summary.received, 4);
    assert_eq!(summary.unique, 3);
    assert_eq!(summary.duplicates, 1);
}

#[test]
fn tracks_largest_receive_gap() {
    let mut tracker = FrameTracker::default();

    tracker.record(0, ms(0));
    tracker.record(1, ms(20));
    tracker.record(2, ms(75));

    assert_eq!(tracker.summary().largest_receive_gap, ms(55));
}

#[test]
fn new_tracker_reports_nothing_received() {
    let tracker = FrameTracker::new();

    let summary = tracker.summary();

    assert_eq!(summary.received, 0);
    assert_eq!(summary.unique, 0);
    assert_eq!(summary.missing_within_observed_range, 0);
    assert_eq!(summary.largest_receive_gap, 0);
    assert!(tracker.has_received_all_expected(0));
    assert!(!tracker.has_received_all_expected(1));
}

#[test]
fn clock_going_backwards_counts_as_no_gap() {
    let mut tracker = FrameTracker::new();

    tracker.record(0, ms(100));
    tracker.record(1, ms(40));

    assert_eq!(tracker.summary().largest_receive_gap, 0);
}

#[test]
fn missing_from_expected_counts_never_received_ids() {
    let mut tracker = FrameTracker::new();

    tracker.record(0, ms(0));
    tracker.record(2, ms(20));
    tracker.record(7, ms(40));

    assert_eq!(tracker.missing_from_expected(5), 3);
    assert_eq!(tracker.missing_from_expected(8), 5);
    assert!(!tracker.has_received_all_expected(3));
    assert!(tracker.has_received_all_expected(1));
}

#[test]
fn missing_plus_unique_spans_the_observed_range() {
    let mut tracker = FrameTracker::new();

    for frame_id in [9u64, 1, 4, 4, 0] {
        tracker.record(frame_id, ms(frame_id * 10));
    }

    let summary = tracker.summary();

    assert_eq!(summary.unique + summary.missing_within_observed_range, 10);
    assert_eq!(summary.out_of_order, 3);
    assert_eq!(summary.duplicates, 1);
}

#[test]
fn only_frames_after_the_first_can_be_out_of_order() {
    let mut tracker = FrameTracker::new();

    tracker.record(5, ms(0));
    tracker.record(4, ms(1));
    tracker.record(3, ms(2));
    tracker.record(3, ms(3));

    let summary = tracker.summary();

    assert_eq!(summary.unique, 3);
    assert_eq!(summary.out_of_order, 2);
    assert_eq!(summary.received, summary.unique + summary.duplicates);
}
