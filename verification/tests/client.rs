use quic_vid::client::{
    frame_datagrams, handle_path_health_event, max_payload_size, next_frame_step,
    preview_stream_frames, validate_jpeg_quality, validate_migration_config,
    validate_run_settings, ClientRecovery, ConfigError, FrameStep, PathHealthAction,
    RecoveryStrategy, SessionError,
};
use quic_vid::media::{MediaDatagram, MediaError, MEDIA_HEADER_SIZE};
use quic_vid::media_run::MediaRun;
use quic_vid::migration::{
    InvalidTransition, MigrationController, MigrationReason, MigrationState, MigrationTransition,
};
use quic_vid::path_health::PathHealthEvent;
use std::time::Duration;

const SUSPECT_AFTER_MS: u64 = 250;
const CHALLENGE_AFTER_MS: u64 = 250;

fn ms(value: u64) -> u128 {
    Duration::from_millis(value).as_nanos()
}

fn move_to_suspect(migration: &mut MigrationController) -> PathHealthAction {
    handle_path_health_event(PathHealthEvent::BecameSuspect, RecoveryStrategy::Migrate, migration)
        .unwrap()
        .0
}

fn move_to_challenging(migration: &mut MigrationController) -> PathHealthAction {
    move_to_suspect(migration);

    handle_path_health_event(
        PathHealthEvent::ChallengeRequested,
        RecoveryStrategy::Migrate,
        migration,
    )
    .unwrap()
    .0
}

#[test]
fn rebind_requires_rebind_time() {
    let result = validate_migration_config(
        true,
        false,
        false,
        RecoveryStrategy::Migrate,
        SUSPECT_AFTER_MS,
        CHALLENGE_AFTER_MS,
    );

    assert!(result.is_err());
}

#[test]
fn rebind_time_requires_rebind_address() {
    let result = validate_migration_config(
        false,
        true,
        false,
        RecoveryStrategy::Migrate,
        SUSPECT_AFTER_MS,
        CHALLENGE_AFTER_MS,
    );

    assert!(result.is_err());
}

#[test]
fn automatic_migration_rejects_zero_suspect_threshold() {
    let result = validate_migration_config(
        false,
        false,
        true,
        RecoveryStrategy::Migrate,
        0,
        CHALLENGE_AFTER_MS,
    );

    assert!(result.is_err());
}

#[test]
fn automatic_migration_rejects_zero_challenge_threshold() {
    let result = validate_migration_config(
        false,
        false,
        true,
        RecoveryStrategy::Migrate,
        SUSPECT_AFTER_MS,
        0,
    );

    assert!(result.is_err());
}

#[test]
fn automatic_and_timed_migration_are_mutually_exclusive() {
    let result = validate_migration_config(
        true,
        true,
        true,
        RecoveryStrategy::Migrate,
        SUSPECT_AFTER_MS,
        CHALLENGE_AFTER_MS,
    );

    assert!(result.is_err());
}

#[test]
fn automatic_migration_without_fallback_address_is_valid() {
    let result = validate_migration_config(
        false,
        false,
        true,
        RecoveryStrategy::Migrate,
        SUSPECT_AFTER_MS,
        CHALLENGE_AFTER_MS,
    );

    assert!(result.is_ok());
}

#[test]
fn controlled_timed_migration_remains_valid() {
    let result = validate_migration_config(
        true,
        true,
        false,
        RecoveryStrategy::Migrate,
        SUSPECT_AFTER_MS,
        CHALLENGE_AFTER_MS,
    );

    assert!(result.is_ok());
}

#[test]
fn reconnect_strategy_requires_automatic_path_health() {
    let result = validate_migration_config(
        false,
        false,
        false,
        RecoveryStrategy::Reconnect,
        SUSPECT_AFTER_MS,
        CHALLENGE_AFTER_MS,
    );

    assert!(result.is_err());
}

#[test]
fn reconnect_strategy_with_automatic_path_health_is_valid() {
    let result = validate_migration_config(
        false,
        false,
        true,
        RecoveryStrategy::Reconnect,
        SUSPECT_AFTER_MS,
        CHALLENGE_AFTER_MS,
    );

    assert!(result.is_ok());
}

#[test]
fn no_path_health_event_produces_no_action() {
    let mut migration = MigrationController::new();

    let (action, transition) =
        handle_path_health_event(PathHealthEvent::NoEvent, RecoveryStrategy::Migrate, &mut migration)
            .unwrap();

    assert_eq!(action, PathHealthAction::NoAction);
    assert_eq!(transition, None);
    assert_eq!(migration.state(), MigrationState::Healthy);
}

#[test]
fn suspect_event_moves_controller_to_suspect_without_discovery() {
    let mut migration = MigrationController::new();

    let action = move_to_suspect(&mut migration);

    assert_eq!(action, PathHealthAction::NoAction);
    assert_eq!(migration.state(), MigrationState::Suspect);
}

#[test]
fn recovery_from_suspect_returns_controller_to_healthy() {
    let mut migration = MigrationController::new();

    move_to_suspect(&mut migration);

    let (action, _) =
        handle_path_health_event(PathHealthEvent::Recovered, RecoveryStrategy::Migrate, &mut migration)
            .unwrap();

    assert_eq!(action, PathHealthAction::NoAction);
    assert_eq!(migration.state(), MigrationState::Healthy);
}

#[test]
fn persistent_degradation_requests_alternative_discovery() {
    let mut migration = MigrationController::new();

    let action = move_to_challenging(&mut migration);

    assert_eq!(action, PathHealthAction::RecoverUsing(RecoveryStrategy::Migrate));
    assert_eq!(migration.state(), MigrationState::Challenging);
}

#[test]
fn persistent_degradation_routes_to_reconnect_strategy() {
    let mut migration = MigrationController::new();

    handle_path_health_event(
        PathHealthEvent::BecameSuspect,
        RecoveryStrategy::Reconnect,
        &mut migration,
    )
    .unwrap();

    let (action, _) = handle_path_health_event(
        PathHealthEvent::ChallengeRequested,
        RecoveryStrategy::Reconnect,
        &mut migration,
    )
    .unwrap();

    assert_eq!(action, PathHealthAction::RecoverUsing(RecoveryStrategy::Reconnect));
    assert_eq!(migration.state(), MigrationState::Challenging);
}

#[test]
fn recovery_after_rebind_confirms_automatic_migration() {
    let mut migration = MigrationController::new();

    move_to_challenging(&mut migration);

    migration
        .transition(MigrationState::Migrating, MigrationReason::AlternatePathReady)
        .unwrap();

    let (action, transition) =
        handle_path_health_event(PathHealthEvent::Recovered, RecoveryStrategy::Migrate, &mut migration)
            .unwrap();

    assert_eq!(action, PathHealthAction::NoAction);
    assert_eq!(migration.state(), MigrationState::Healthy);
    assert_eq!(transition.unwrap().reason, MigrationReason::MigrationCompleted);
}

#[test]
fn recovery_event_while_healthy_is_ignored() {
    let mut migration = MigrationController::new();

    let (action, transition) =
        handle_path_health_event(PathHealthEvent::Recovered, RecoveryStrategy::Migrate, &mut migration)
            .unwrap();

    assert_eq!(action, PathHealthAction::NoAction);
    assert_eq!(transition, None);
    assert_eq!(migration.state(), MigrationState::Healthy);
}

#[test]
fn recovery_while_challenging_returns_controller_to_healthy() {
    let mut migration = MigrationController::new();

    move_to_challenging(&mut migration);

    let (action, transition) =
        handle_path_health_event(PathHealthEvent::Recovered, RecoveryStrategy::Migrate, &mut migration)
            .unwrap();

    assert_eq!(action, PathHealthAction::NoAction);
    assert_eq!(migration.state(), MigrationState::Healthy);
    assert_eq!(transition.unwrap().reason, MigrationReason::AckProgressRecovered);
}

#[test]
fn recovery_after_automatic_rebind_completes_migration() {
    let mut migration = MigrationController::new();

    move_to_challenging(&mut migration);

    migration
        .transition(MigrationState::Migrating, MigrationReason::AlternatePathReady)
        .unwrap();

    let (action, _) =
        handle_path_health_event(PathHealthEvent::Recovered, RecoveryStrategy::Migrate, &mut migration)
            .unwrap();

    assert_eq!(action, PathHealthAction::NoAction);
    assert_eq!(migration.state(), MigrationState::Healthy);
}

#[test]
fn challenge_without_suspicion_is_an_invalid_transition() {
    let mut migration = MigrationController::new();

    let result = handle_path_health_event(
        PathHealthEvent::ChallengeRequested,
        RecoveryStrategy::Migrate,
        &mut migration,
    );

    assert_eq!(
        result,
        Err(InvalidTransition { from: MigrationState::Healthy, to: MigrationState::Challenging })
    );
    assert_eq!(migration.state(), MigrationState::Healthy);
}

#[test]
fn each_configuration_error_is_reported() {
    let m = RecoveryStrategy::Migrate;
    assert_eq!(validate_migration_config(true, false, false, m, 1, 1), Err(ConfigError::RebindRequiresRebindTime));
    assert_eq!(validate_migration_config(false, true, false, m, 1, 1), Err(ConfigError::RebindTimeRequiresRebind));
    assert_eq!(
        validate_migration_config(false, false, false, RecoveryStrategy::Reconnect, 1, 1),
        Err(ConfigError::ReconnectRequiresAutoMigrate)
    );
    assert_eq!(validate_migration_config(false, false, true, m, 0, 1), Err(ConfigError::ZeroSuspectThreshold));
    assert_eq!(validate_migration_config(false, false, true, m, 1, 0), Err(ConfigError::ZeroChallengeThreshold));
    assert_eq!(
        validate_migration_config(true, true, true, m, 1, 1),
        Err(ConfigError::AutoMigrateWithTimedMigration)
    );
    assert_eq!(validate_migration_config(false, false, false, m, 0, 0), Ok(()));

    assert_eq!(validate_run_settings(0, 5), Err(ConfigError::ZeroFps));
    assert_eq!(validate_run_settings(30, 0), Err(ConfigError::ZeroDuration));
    assert_eq!(validate_run_settings(30, 5), Ok(()));

    assert_eq!(validate_jpeg_quality(0), Err(ConfigError::JpegQualityOutOfRange));
    assert_eq!(validate_jpeg_quality(101), Err(ConfigError::JpegQualityOutOfRange));
    assert_eq!(validate_jpeg_quality(1), Ok(()));
    assert_eq!(validate_jpeg_quality(100), Ok(()));

    assert_eq!(preview_stream_frames(30, 8, 80), Ok(240));
    assert_eq!(preview_stream_frames(30, 8, 0), Err(ConfigError::JpegQualityOutOfRange));
    assert_eq!(preview_stream_frames(u32::MAX, u64::MAX, 80), Err(ConfigError::FrameCountOverflow));
}

#[test]
fn payload_size_leaves_room_for_the_media_header() {
    assert_eq!(max_payload_size(None), Err(SessionError::DatagramsUnsupported));
    assert_eq!(max_payload_size(Some(MEDIA_HEADER_SIZE - 1)), Err(SessionError::DatagramTooSmall));
    assert_eq!(max_payload_size(Some(MEDIA_HEADER_SIZE)), Ok(0));
    assert_eq!(max_payload_size(Some(1288)), Ok(1251));
}

#[test]
fn recovery_strategy_names() {
    assert_eq!(RecoveryStrategy::Migrate.as_str(), "migrate");
    assert_eq!(RecoveryStrategy::Reconnect.as_str(), "reconnect");
}

#[test]
fn frame_schedule_sends_each_timeline_frame_once() {
    let run = MediaRun::new_at([0; 16], 10, Duration::from_secs(1).as_nanos(), 0).unwrap();

    assert_eq!(next_frame_step(&run, None, 0), FrameStep::Send(0));
    assert_eq!(next_frame_step(&run, Some(0), ms(50)), FrameStep::Wait);
    assert_eq!(next_frame_step(&run, Some(0), ms(100)), FrameStep::Send(1));
    assert_eq!(next_frame_step(&run, Some(8), ms(999)), FrameStep::Send(9));
    assert_eq!(next_frame_step(&run, Some(9), ms(1000)), FrameStep::Finished);
}

#[test]
fn frame_datagrams_decode_to_the_fragmented_frame() {
    let session_id = [3u8; 16];
    let frame: Vec<u8> = (0..2600u32).map(|value| (value % 256) as u8).collect();

    let datagrams = frame_datagrams(session_id, 12, 34, &frame, 1251).unwrap();

    assert_eq!(datagrams.len(), 3);
    let mut joined = Vec::new();
    for (index, bytes) in datagrams.iter().enumerate() {
        let media = MediaDatagram::decode(bytes).unwrap();
        assert_eq!(media.session_id, session_id);
        assert_eq!(media.frame_id, 12);
        assert_eq!(media.sent_at_ms, 34);
        assert_eq!(media.chunk_index as usize, index);
        assert_eq!(media.chunk_count, 3);
        joined.extend_from_slice(&media.payload);
    }
    assert_eq!(joined, frame);

    assert_eq!(frame_datagrams(session_id, 0, 0, &[], 1251), Err(MediaError::EmptyFrame));
    assert_eq!(frame_datagrams(session_id, 0, 0, &[1], 0), Err(MediaError::ZeroChunkPayload));
}

#[test]
fn automatic_migration_waits_for_resumed_progress() {
    let start = ms(1_000);
    let mut recovery =
        ClientRecovery::new([1; 16], [2; 16], true, RecoveryStrategy::Migrate, 250, 500, start, 10);

    assert_eq!(recovery.state(), MigrationState::Healthy);

    let report = recovery.check_health(start + ms(100), 10).unwrap();
    assert_eq!(report.event, PathHealthEvent::NoEvent);

    let report = recovery.check_health(start + ms(250), 10).unwrap();
    assert_eq!(report.event, PathHealthEvent::BecameSuspect);
    assert_eq!(report.recover_using, None);
    assert_eq!(recovery.state(), MigrationState::Suspect);

    let report = recovery.check_health(start + ms(750), 10).unwrap();
    assert_eq!(report.event, PathHealthEvent::ChallengeRequested);
    assert_eq!(report.recover_using, Some(RecoveryStrategy::Migrate));
    assert_eq!(recovery.state(), MigrationState::Challenging);

    assert_eq!(
        recovery.automatic_rebind_succeeded(),
        Ok(MigrationTransition {
            from: MigrationState::Challenging,
            to: MigrationState::Migrating,
            reason: MigrationReason::AlternatePathReady,
        })
    );
    assert!(recovery.automatic_migration_pending());

    let report = recovery.check_health(start + ms(800), 11).unwrap();
    assert_eq!(report.event, PathHealthEvent::Recovered);
    assert!(report.migration_confirmed);
    assert!(!recovery.automatic_migration_pending());
    assert_eq!(recovery.state(), MigrationState::Healthy);
}

#[test]
fn reconnect_restarts_detection_from_the_new_connection() {
    let start = ms(0);
    let mut recovery =
        ClientRecovery::new([1; 16], [2; 16], true, RecoveryStrategy::Reconnect, 100, 100, start, 5);

    recovery.check_health(start + ms(100), 5).unwrap();
    let report = recovery.check_health(start + ms(200), 5).unwrap();
    assert_eq!(report.recover_using, Some(RecoveryStrategy::Reconnect));

    recovery.reconnected([3; 16], start + ms(300), 0);
    assert_eq!(recovery.state(), MigrationState::Healthy);
    assert!(!recovery.automatic_migration_pending());

    let report = recovery.check_health(start + ms(350), 0).unwrap();
    assert_eq!(report.event, PathHealthEvent::NoEvent);
    let report = recovery.check_health(start + ms(400), 0).unwrap();
    assert_eq!(report.event, PathHealthEvent::BecameSuspect);
}

#[test]
fn timed_migration_runs_once() {
    let mut recovery =
        ClientRecovery::new([1; 16], [2; 16], false, RecoveryStrategy::Migrate, 250, 250, 0, 0);

    let report = recovery.check_health(ms(10_000), 0).unwrap();
    assert_eq!(report.event, PathHealthEvent::NoEvent);

    assert!(!recovery.timed_migration_due(true, ms(999), ms(1_000)));
    assert!(!recovery.timed_migration_due(false, ms(2_000), ms(1_000)));
    assert!(recovery.timed_migration_due(true, ms(1_000), ms(1_000)));

    let (first, second, third) = recovery.begin_timed_migration().unwrap();
    assert_eq!(first.reason, MigrationReason::ControlledTrigger);
    assert_eq!(second.reason, MigrationReason::ConditionPersisted);
    assert_eq!(third.to, MigrationState::Migrating);

    let done = recovery.complete_timed_migration().unwrap();
    assert_eq!(done.reason, MigrationReason::MigrationCompleted);
    assert_eq!(recovery.state(), MigrationState::Healthy);
    assert!(!recovery.timed_migration_due(true, ms(5_000), ms(1_000)));
    assert!(recovery.complete_timed_migration().is_err());
}

#[test]
fn timed_migration_reports_each_step() {
    let mut recovery = ClientRecovery::new([1; 16], [2; 16], false, RecoveryStrategy::Migrate, 250, 250, 0, 0);

    assert_eq!(
        recovery.begin_timed_migration(),
        Ok((
            MigrationTransition {
                from: MigrationState::Healthy,
                to: MigrationState::Suspect,
                reason: MigrationReason::ControlledTrigger,
            },
            MigrationTransition {
                from: MigrationState::Suspect,
                to: MigrationState::Challenging,
                reason: MigrationReason::ConditionPersisted,
            },
            MigrationTransition {
                from: MigrationState::Challenging,
                to: MigrationState::Migrating,
                reason: MigrationReason::AlternatePathReady,
            },
        ))
    );
    assert_eq!(
        recovery.begin_timed_migration(),
        Err(InvalidTransition { from: MigrationState::Migrating, to: MigrationState::Suspect })
    );
}

#[test]
fn sent_frame_ids_strictly_increase_below_the_frame_count() {
    let run = MediaRun::new_at([0; 16], 30, Duration::from_secs(2).as_nanos(), 0).unwrap();
    let mut last = None;
    let mut sent = Vec::new();

    for step in 0..4_000u64 {
        match next_frame_step(&run, last, ms(step)) {
            FrameStep::Send(frame_id) => {
                sent.push(frame_id);
                last = Some(frame_id);
            }
            FrameStep::Wait => {}
            FrameStep::Finished => break,
        }
    }

    assert_eq!(sent, (0..60).collect::<Vec<u64>>());
}

#[test]
fn migration_keeps_the_session_and_reconnect_replaces_it() {
    let run = [7u8; 16];
    let first = [8u8; 16];
    let second = [9u8; 16];
    let mut recovery = ClientRecovery::new(run, first, true, RecoveryStrategy::Migrate, 10, 10, 0, 0);

    assert_eq!(recovery.hello_message(), quic_vid::control::hello(run, first));

    recovery.check_health(ms(10), 0).unwrap();
    recovery.check_health(ms(20), 0).unwrap();
    recovery.automatic_rebind_succeeded().unwrap();
    assert_eq!((recovery.media_run_id(), recovery.session_id()), (run, first));

    recovery.reconnected(second, ms(30), 0);
    assert_eq!((recovery.media_run_id(), recovery.session_id()), (run, second));
    assert_eq!(recovery.hello_message(), quic_vid::control::hello(run, second));
    assert_eq!(recovery.done_message(60), quic_vid::control::done(run, second, 60));
}
