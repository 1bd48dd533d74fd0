use quic_vid::media_run::{MediaRun, MediaRunError};
use std::time::Duration;

const STARTED_AT: u128 = 7_000_000_000;

fn ms(value: u64) -> u128 {
    Duration::from_millis(value).as_nanos()
}

fn secs(value: u64) -> u128 {
    Duration::from_secs(value).as_nanos()
}

#[test]
fn creates_distinct_media_run_identity() {
    let first = MediaRun::new(30, secs(8), STARTED_AT).unwrap();
    let second = MediaRun::new(30, secs(8), STARTED_AT).unwrap();

    assert_ne!(first.id(), second.id());
}

#[test]
fn calculates_total_frames_for_bounded_run() {
    let run = MediaRun::new(30, secs(8), STARTED_AT).unwrap();

    assert_eq!(run.total_frames(), 240);
}

#[test]
fn frame_id_is_derived_from_media_run_start() {
    let started_at = STARTED_AT;
    let run = MediaRun::new_at([0; 16], 10, secs(5), started_at).unwrap();

    assert_eq!(run.current_frame_id(started_at), 0);
    assert_eq!(run.current_frame_id(started_at + ms(99)), 0);
    assert_eq!(run.current_frame_id(started_at + ms(100)), 1);
    assert_eq!(run.current_frame_id(started_at + ms(1_250)), 12);
}

#[test]
fn timeline_advances_across_simulated_transport_gap() {
    let started_at = STARTED_AT;
    let run = MediaRun::new_at([0; 16], 10, secs(10), started_at).unwrap();

    let before_gap = run.current_frame_id(started_at + ms(8400));
    let after_gap = run.current_frame_id(started_at + ms(10200));

    assert_eq!(before_gap, 84);
    assert_eq!(after_gap, 102);
    assert!(after_gap > before_gap);
}

#[test]
fn completion_depends_on_media_run_timeline() {
    let started_at = STARTED_AT;
    let run = MediaRun::new_at([0; 16], 10, secs(2), started_at).unwrap();

    assert!(!run.is_complete(started_at + ms(1_999)));
    assert!(run.is_complete(started_at + secs(2)));
}

#[test]
fn rejects_invalid_configuration() {
    assert!(MediaRun::new(0, secs(1), STARTED_AT).is_err());
    assert!(MediaRun::new(10, 0, STARTED_AT).is_err());
}

#[test]
fn each_run_configuration_error_is_reported() {
    assert_eq!(MediaRun::new_at([1; 16], 0, secs(1), 0).unwrap_err(), MediaRunError::ZeroFps);
    assert_eq!(MediaRun::new_at([1; 16], 10, 0, 0).unwrap_err(), MediaRunError::ZeroDuration);
    assert_eq!(
        MediaRun::new_at([1; 16], 10, ms(99), 0).unwrap_err(),
        MediaRunError::ShorterThanOneFrame
    );
    assert_eq!(
        MediaRun::new_at([1; 16], u32::MAX, secs(u64::MAX), 0).unwrap_err(),
        MediaRunError::FrameCountOverflow
    );
}

#[test]
fn subsecond_rest_adds_whole_frames_only() {
    let run = MediaRun::new_at([2; 16], 30, ms(2_550), 0).unwrap();

    assert_eq!(run.total_frames(), 76);
    assert_eq!(run.fps(), 30);
    assert_eq!(run.duration(), ms(2_550));
    assert_eq!(run.id(), [2; 16]);
}

#[test]
fn time_before_the_start_counts_as_the_start() {
    let run = MediaRun::new_at([0; 16], 10, secs(1), STARTED_AT).unwrap();

    assert_eq!(run.elapsed(STARTED_AT - 5), 0);
    assert_eq!(run.current_frame_id(0), 0);
    assert!(!run.is_complete(0));
    assert_eq!(run.elapsed(STARTED_AT + ms(30)), ms(30));
}

#[test]
fn timeline_saturates_at_the_largest_frame_id() {
    let run = MediaRun::new_at([0; 16], u32::MAX, secs(1), 0).unwrap();

    assert_eq!(run.current_frame_id(u128::MAX), u64::MAX);
}
