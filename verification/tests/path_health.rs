use quic_vid::path_health::{PathHealthEvent, PathHealthMonitor};
use std::time::Duration;

const SUSPECT_AFTER: u128 = 200_000_000;
const CHALLENGE_AFTER: u128 = 300_000_000;
const START: u128 = 5_000_000_000;

fn ms(value: u64) -> u128 {
    Duration::from_millis(value).as_nanos()
}

fn monitor(now: u128) -> PathHealthMonitor {
    PathHealthMonitor::new(SUSPECT_AFTER, CHALLENGE_AFTER, now, 10)
}

#[test]
fn starts_without_emitting_an_event() {
    let now = START;
    let mut monitor = monitor(now);

    let event = monitor.observe(now, 10);

    assert_eq!(event, PathHealthEvent::NoEvent);
}

#[test]
fn progress_resets_progress_timer() {
    let start = START;
    let mut monitor = monitor(start);

    let event = monitor.observe(start + ms(150), 11);

    assert_eq!(event, PathHealthEvent::NoEvent);

    let event = monitor.observe(start + ms(300), 11);

    assert_eq!(event, PathHealthEvent::NoEvent);
}

#[test]
fn no_progress_before_threshold_stays_healthy() {
    let start = START;
    let mut monitor = monitor(start);

    let event = monitor.observe(start + ms(199), 10);

    assert_eq!(event, PathHealthEvent::NoEvent);
}

#[test]
fn no_progress_reaching_threshold_becomes_suspect() {
    let start = START;
    let mut monitor = monitor(start);

    let event = monitor.observe(start + SUSPECT_AFTER, 10);

    assert_eq!(event, PathHealthEvent::BecameSuspect);
}

#[test]
fn suspect_event_is_only_emitted_once() {
    let start = START;
    let mut monitor = monitor(start);

    assert_eq!(monitor.observe(start + SUSPECT_AFTER, 10), PathHealthEvent::BecameSuspect);

    assert_eq!(
        monitor.observe(start + SUSPECT_AFTER + ms(50), 10,),
        PathHealthEvent::NoEvent
    );
}

#[test]
fn progress_while_suspect_reports_recovery() {
    let start = START;
    let mut monitor = monitor(start);

    assert_eq!(monitor.observe(start + SUSPECT_AFTER, 10), PathHealthEvent::BecameSuspect);

    assert_eq!(
        monitor.observe(start + SUSPECT_AFTER + ms(100), 11,),
        PathHealthEvent::Recovered
    );
}

#[test]
fn persistent_no_progress_requests_challenge() {
    let start = START;
    let mut monitor = monitor(start);

    let suspect_at = start + SUSPECT_AFTER;

    assert_eq!(monitor.observe(suspect_at, 10), PathHealthEvent::BecameSuspect);

    assert_eq!(
        monitor.observe(suspect_at + CHALLENGE_AFTER, 10,),
        PathHealthEvent::ChallengeRequested
    );
}

#[test]
fn challenge_is_not_requested_before_challenge_threshold() {
    let start = START;
    let mut monitor = monitor(start);

    let suspect_at = start + SUSPECT_AFTER;

    assert_eq!(monitor.observe(suspect_at, 10), PathHealthEvent::BecameSuspect);

    assert_eq!(
        monitor.observe(suspect_at + CHALLENGE_AFTER - ms(1), 10,),
        PathHealthEvent::NoEvent
    );
}

#[test]
fn challenge_event_is_only_emitted_once() {
    let start = START;
    let mut monitor = monitor(start);

    let suspect_at = start + SUSPECT_AFTER;

    assert_eq!(monitor.observe(suspect_at, 10), PathHealthEvent::BecameSuspect);

    assert_eq!(
        monitor.observe(suspect_at + CHALLENGE_AFTER, 10,),
        PathHealthEvent::ChallengeRequested
    );

    assert_eq!(
        monitor.observe(suspect_at + CHALLENGE_AFTER + ms(50), 10,),
        PathHealthEvent::NoEvent
    );
}

#[test]
fn recovery_allows_future_suspicion() {
    let start = START;
    let mut monitor = monitor(start);

    assert_eq!(monitor.observe(start + SUSPECT_AFTER, 10), PathHealthEvent::BecameSuspect);

    let recovered_at = start + SUSPECT_AFTER + ms(100);

    assert_eq!(monitor.observe(recovered_at, 11), PathHealthEvent::Recovered);

    assert_eq!(
        monitor.observe(recovered_at + SUSPECT_AFTER, 11,),
        PathHealthEvent::BecameSuspect
    );
}

#[test]
fn clock_going_backwards_never_triggers_suspicion() {
    let mut monitor = monitor(START);

    assert_eq!(monitor.observe(START - ms(1000), 10), PathHealthEvent::NoEvent);
    assert_eq!(monitor.observe(0, 10), PathHealthEvent::NoEvent);
}

#[test]
fn counter_going_backwards_is_not_progress() {
    let mut monitor = monitor(START);

    assert_eq!(monitor.observe(START + SUSPECT_AFTER, 9), PathHealthEvent::BecameSuspect);
    assert_eq!(monitor.observe(START + SUSPECT_AFTER + ms(1), 10), PathHealthEvent::NoEvent);
    assert_eq!(monitor.observe(START + SUSPECT_AFTER + ms(2), 12), PathHealthEvent::Recovered);
}

#[test]
fn zero_thresholds_report_each_stage_on_the_next_observation() {
    let mut monitor = PathHealthMonitor::new(0, 0, START, 3);

    assert_eq!(monitor.observe(START, 3), PathHealthEvent::BecameSuspect);
    assert_eq!(monitor.observe(START, 3), PathHealthEvent::ChallengeRequested);
    assert_eq!(monitor.observe(START, 3), PathHealthEvent::NoEvent);
}

#[test]
fn reports_follow_the_history_of_calls() {
    let mut monitor = PathHealthMonitor::new(50, 70, 0, 5);

    assert_eq!(monitor.observe(100, 5), PathHealthEvent::BecameSuspect);
    assert_eq!(monitor.observe(150, 4), PathHealthEvent::NoEvent);
    assert_eq!(monitor.observe(170, 5), PathHealthEvent::ChallengeRequested);
    assert_eq!(monitor.observe(400, 5), PathHealthEvent::NoEvent);
    assert_eq!(monitor.observe(401, 6), PathHealthEvent::Recovered);
    assert_eq!(monitor.observe(440, 6), PathHealthEvent::NoEvent);
    assert_eq!(monitor.observe(451, 6), PathHealthEvent::BecameSuspect);
}
