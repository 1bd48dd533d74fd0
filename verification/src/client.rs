//! Decisions of the sending client: configuration checks, the reaction of
//! the migration state machine to path-health events, recovery bookkeeping
//! and the frame schedule. The client's I/O (QUIC endpoint, path discovery,
//! rebinding, reconnecting, sending) stays with the caller, which feeds the
//! outcomes back in.

use crate::media::{
    chunk_count_result, chunk_payload, div_ceil, fragment_frame, MediaError, MEDIA_HEADER_SIZE,
};
use crate::media_run::{elapsed_since, frame_at, MediaRun};
use crate::migration::{
    valid_transition, InvalidTransition, MigrationController, MigrationReason, MigrationState,
    MigrationTransition,
};
use crate::path_health::{monitor_wf, observed, MonitorModel, PathHealthEvent, PathHealthMonitor};
use vstd::prelude::*;

verus! {

/// How the client recovers from a persistently degraded path.
#[derive(Debug, Clone, Copy, PartialEq, Eq, Structural)]
pub enum RecoveryStrategy {
    /// Rebind the existing endpoint and keep connection and session.
    Migrate,
    /// Open a replacement connection and session for the same media run.
    Reconnect,
}

impl RecoveryStrategy {
    /// The strategy's name as it appears in logs and on the command line.
    pub fn as_str(self) -> (r: &'static str)
        ensures
            r@ == match self {
                RecoveryStrategy::Migrate => "migrate"@,
                RecoveryStrategy::Reconnect => "reconnect"@,
            },
    {
        match self {
            RecoveryStrategy::Migrate => "migrate",
            RecoveryStrategy::Reconnect => "reconnect",
        }
    }
}

/// What the client must do after a path-health event.
#[derive(Debug, Clone, Copy, PartialEq, Eq, Structural)]
pub enum PathHealthAction {
    /// Nothing beyond the state change.
    NoAction,
    /// Look for an alternative path and recover with this strategy.
    RecoverUsing(RecoveryStrategy),
}

/// Why a client configuration is refused.
#[derive(Debug, Clone, Copy, PartialEq, Eq, Structural)]
pub enum ConfigError {
    ZeroFps,
    ZeroDuration,
    RebindRequiresRebindTime,
    RebindTimeRequiresRebind,
    ReconnectRequiresAutoMigrate,
    ZeroSuspectThreshold,
    ZeroChallengeThreshold,
    AutoMigrateWithTimedMigration,
    JpegQualityOutOfRange,
    FrameCountOverflow,
}

/// Why a transport session cannot carry media.
#[derive(Debug, Clone, Copy, PartialEq, Eq, Structural)]
pub enum SessionError {
    /// The peer does not support QUIC DATAGRAMs.
    DatagramsUnsupported,
    /// The largest DATAGRAM cannot hold the media header.
    DatagramTooSmall,
}

/// The error that the migration settings produce, if any. `has_rebind` and
/// `has_rebind_after` say whether a rebind address and a rebind time were
/// given.
pub open spec fn migration_config_error(
    has_rebind: bool,
    has_rebind_after: bool,
    auto_migrate: bool,
    recovery_strategy: RecoveryStrategy,
    suspect_after_ms: u64,
    challenge_after_ms: u64,
) -> Option<ConfigError> {
    if has_rebind && !has_rebind_after {
        Some(ConfigError::RebindRequiresRebindTime)
    } else if !has_rebind && has_rebind_after {
        Some(ConfigError::RebindTimeRequiresRebind)
    } else if recovery_strategy == RecoveryStrategy::Reconnect && !auto_migrate {
        Some(ConfigError::ReconnectRequiresAutoMigrate)
    } else if auto_migrate && suspect_after_ms == 0 {
        Some(ConfigError::ZeroSuspectThreshold)
    } else if auto_migrate && challenge_after_ms == 0 {
        Some(ConfigError::ZeroChallengeThreshold)
    } else if auto_migrate && (has_rebind || has_rebind_after) {
        Some(ConfigError::AutoMigrateWithTimedMigration)
    } else {
        None
    }
}

/// Checks the migration settings: a timed rebind needs both an address and
/// a time, reconnect needs automatic path health, automatic path health needs
/// nonzero thresholds and excludes a timed rebind.
pub fn validate_migration_config(
    has_rebind: bool,
    has_rebind_after: bool,
    auto_migrate: bool,
    recovery_strategy: RecoveryStrategy,
    suspect_after_ms: u64,
    challenge_after_ms: u64,
) -> (r: Result<(), ConfigError>)
    ensures
        match migration_config_error(
            has_rebind,
            has_rebind_after,
            auto_migrate,
            recovery_strategy,
            suspect_after_ms,
            challenge_after_ms,
        ) {
            Some(e) => r == Err::<(), ConfigError>(e),
            None => r is Ok,
        },
{
    if has_rebind && !has_rebind_after {
        return Err(ConfigError::RebindRequiresRebindTime);
    }
    if !has_rebind && has_rebind_after {
        return Err(ConfigError::RebindTimeRequiresRebind);
    }
    if recovery_strategy == RecoveryStrategy::Reconnect && !auto_migrate {
        return Err(ConfigError::ReconnectRequiresAutoMigrate);
    }
    if auto_migrate {
        if suspect_after_ms == 0 {
            return Err(ConfigError::ZeroSuspectThreshold);
        }
        if challenge_after_ms == 0 {
            return Err(ConfigError::ZeroChallengeThreshold);
        }
        if has_rebind || has_rebind_after {
            return Err(ConfigError::AutoMigrateWithTimedMigration);
        }
    }
    Ok(())
}

/// Checks that the run has a frame rate and a duration.
pub fn validate_run_settings(fps: u32, duration_seconds: u64) -> (r: Result<(), ConfigError>)
    ensures
        fps == 0 ==> r == Err::<(), ConfigError>(ConfigError::ZeroFps),
        fps != 0 && duration_seconds == 0 ==> r == Err::<(), ConfigError>(ConfigError::ZeroDuration),
        fps != 0 && duration_seconds != 0 ==> r is Ok,
{
    if fps == 0 {
        return Err(ConfigError::ZeroFps);
    }
    if duration_seconds == 0 {
        return Err(ConfigError::ZeroDuration);
    }
    Ok(())
}

/// Checks that a JPEG quality lies between 1 and 100.
pub fn validate_jpeg_quality(quality: u8) -> (r: Result<(), ConfigError>)
    ensures
        1 <= quality <= 100 ==> r is Ok,
        !(1 <= quality <= 100) ==> r == Err::<(), ConfigError>(ConfigError::JpegQualityOutOfRange),
{
    if quality < 1 || quality > 100 {
        return Err(ConfigError::JpegQualityOutOfRange);
    }
    Ok(())
}

/// The number of frames of a generated preview stream: `fps` frames per
/// second for `duration_seconds`, after checking the settings in the order
/// frame rate, duration, quality, frame count.
pub fn preview_stream_frames(fps: u32, duration_seconds: u64, quality: u8) -> (r: Result<
    u64,
    ConfigError,
>)
    ensures
        fps == 0 ==> r == Err::<u64, ConfigError>(ConfigError::ZeroFps),
        fps != 0 && duration_seconds == 0 ==> r == Err::<u64, ConfigError>(
            ConfigError::ZeroDuration,
        ),
        fps != 0 && duration_seconds != 0 && !(1 <= quality <= 100) ==> r == Err::<
            u64,
            ConfigError,
        >(ConfigError::JpegQualityOutOfRange),
        fps != 0 && duration_seconds != 0 && 1 <= quality <= 100 ==> {
            &&& fps * duration_seconds > u64::MAX ==> r == Err::<u64, ConfigError>(
                ConfigError::FrameCountOverflow,
            )
            &&& fps * duration_seconds <= u64::MAX ==> r == Ok::<u64, ConfigError>(
                (fps * duration_seconds) as u64,
            )
        },
{
    validate_run_settings(fps, duration_seconds)?;
    validate_jpeg_quality(quality)?;
    match (fps as u64).checked_mul(duration_seconds) {
        Some(total) => Ok(total),
        None => Err(ConfigError::FrameCountOverflow),
    }
}

/// The largest media payload per DATAGRAM: the largest DATAGRAM the
/// connection accepts minus the media header.
pub fn max_payload_size(max_datagram_size: Option<usize>) -> (r: Result<usize, SessionError>)
    ensures
        match max_datagram_size {
            None => r == Err::<usize, SessionError>(SessionError::DatagramsUnsupported),
            Some(n) => if n >= MEDIA_HEADER_SIZE {
                r == Ok::<usize, SessionError>((n - MEDIA_HEADER_SIZE) as usize)
            } else {
                r == Err::<usize, SessionError>(SessionError::DatagramTooSmall)
            },
        },
{
    match max_datagram_size {
        None => Err(SessionError::DatagramsUnsupported),
        Some(n) => if n >= MEDIA_HEADER_SIZE {
            Ok(n - MEDIA_HEADER_SIZE)
        } else {
            Err(SessionError::DatagramTooSmall)
        },
    }
}

/// The state change a path-health event asks for in state `st`, if any.
pub open spec fn health_target(event: PathHealthEvent, st: MigrationState) -> Option<
    (MigrationState, MigrationReason),
> {
    match event {
        PathHealthEvent::NoEvent => None,
        PathHealthEvent::BecameSuspect => Some(
            (MigrationState::Suspect, MigrationReason::AckProgressTimeout),
        ),
        PathHealthEvent::Recovered => match st {
            MigrationState::Healthy => None,
            MigrationState::Migrating => Some(
                (MigrationState::Healthy, MigrationReason::MigrationCompleted),
            ),
            _ => Some((MigrationState::Healthy, MigrationReason::AckProgressRecovered)),
        },
        PathHealthEvent::ChallengeRequested => Some(
            (MigrationState::Challenging, MigrationReason::PathDegradationPersisted),
        ),
    }
}

/// The action that follows a path-health event once its state change is
/// taken.
pub open spec fn health_action(event: PathHealthEvent, strategy: RecoveryStrategy) -> PathHealthAction {
    if event == PathHealthEvent::ChallengeRequested {
        PathHealthAction::RecoverUsing(strategy)
    } else {
        PathHealthAction::NoAction
    }
}

/// Applies a path-health event to the migration state machine: suspicion
/// moves to `Suspect`, a challenge request to `Challenging` and asks for
/// recovery with `recovery_strategy`, recovery returns to `Healthy` (and is
/// ignored when already healthy).
pub fn handle_path_health_event(
    event: PathHealthEvent,
    recovery_strategy: RecoveryStrategy,
    migration: &mut MigrationController,
) -> (r: Result<(PathHealthAction, Option<MigrationTransition>), InvalidTransition>)
    ensures
        match health_target(event, old(migration).spec_state()) {
            None => r == Ok::<(PathHealthAction, Option<MigrationTransition>), InvalidTransition>(
                (health_action(event, recovery_strategy), None),
            ) && final(migration).spec_state() == old(migration).spec_state(),
            Some((next, reason)) => if valid_transition(old(migration).spec_state(), next) {
                &&& r == Ok::<(PathHealthAction, Option<MigrationTransition>), InvalidTransition>(
                    (
                        health_action(event, recovery_strategy),
                        Some(
                            MigrationTransition {
                                from: old(migration).spec_state(),
                                to: next,
                                reason,
                            },
                        ),
                    ),
                )
                &&& final(migration).spec_state() == next
            } else {
                &&& r == Err::<(PathHealthAction, Option<MigrationTransition>), InvalidTransition>(
                    InvalidTransition { from: old(migration).spec_state(), to: next },
                )
                &&& final(migration).spec_state() == old(migration).spec_state()
            },
        },
{
    match event {
        PathHealthEvent::NoEvent => Ok((PathHealthAction::NoAction, None)),
        PathHealthEvent::BecameSuspect => {
            let t = migration.transition(
                MigrationState::Suspect,
                MigrationReason::AckProgressTimeout,
            )?;
            Ok((PathHealthAction::NoAction, Some(t)))
        },
        PathHealthEvent::Recovered => {
            let reason = match migration.state() {
                MigrationState::Migrating => MigrationReason::MigrationCompleted,
                MigrationState::Suspect | MigrationState::Challenging => {
                    MigrationReason::AckProgressRecovered
                },
                MigrationState::Healthy => {
                    return Ok((PathHealthAction::NoAction, None));
                },
            };
            let t = migration.transition(MigrationState::Healthy, reason)?;
            Ok((PathHealthAction::NoAction, Some(t)))
        },
        PathHealthEvent::ChallengeRequested => {
            let t = migration.transition(
                MigrationState::Challenging,
                MigrationReason::PathDegradationPersisted,
            )?;
            Ok((PathHealthAction::RecoverUsing(recovery_strategy), Some(t)))
        },
    }
}

/// The detector and the state machine agree: a path that is not suspect is
/// `Healthy`; a suspect path without a challenge is `Suspect`; a challenged
/// path is `Challenging` or, once rebound, `Migrating`.
pub open spec fn detector_agrees(m: MonitorModel, st: MigrationState) -> bool {
    &&& monitor_wf(m)
    &&& m.suspect_since is None ==> st == MigrationState::Healthy
    &&& m.suspect_since is Some && !m.challenge_requested ==> st == MigrationState::Suspect
    &&& m.challenge_requested ==> st == MigrationState::Challenging || st
        == MigrationState::Migrating
}

/// The state after applying the event's state change, if it is allowed.
pub open spec fn after_event(event: PathHealthEvent, st: MigrationState) -> MigrationState {
    match health_target(event, st) {
        None => st,
        Some((next, _)) => if valid_transition(st, next) {
            next
        } else {
            st
        },
    }
}

/// Feeding the detector's events to the state machine never asks for a
/// forbidden transition, and keeps the two in agreement.
pub proof fn lemma_detector_events_are_valid_transitions(
    m: MonitorModel,
    st: MigrationState,
    now: u128,
    progress: u64,
)
    requires
        detector_agrees(m, st),
    ensures
        ({
            let (m2, event) = observed(m, now, progress);
            &&& health_target(event, st) matches Some((next, _)) ==> valid_transition(st, next)
            &&& detector_agrees(m2, after_event(event, st))
        }),
{
}

/// Rebinding after a challenge keeps the detector and the state machine in
/// agreement.
pub proof fn lemma_rebind_keeps_agreement(m: MonitorModel, st: MigrationState)
    requires
        detector_agrees(m, st),
        st == MigrationState::Challenging,
    ensures
        valid_transition(st, MigrationState::Migrating),
        detector_agrees(m, MigrationState::Migrating),
{
}

} // verus!

verus! {

/// The next step of the frame schedule.
#[derive(Debug, Clone, Copy, PartialEq, Eq, Structural)]
pub enum FrameStep {
    /// The run is over.
    Finished,
    /// The current frame was already sent; wait for the next.
    Wait,
    /// Send the frame with this id.
    Send(u64),
}

/// The frame schedule at `now`: the run ends once its duration has elapsed
/// or the timeline reaches its frame count; otherwise the current timeline
/// frame is sent unless it was the last one sent.
pub open spec fn frame_step(run: MediaRun, last_frame_id: Option<u64>, now: u128) -> FrameStep {
    let e = elapsed_since(run.spec_started_at(), now);
    let f = frame_at(run.spec_fps() as nat, e);
    if e >= run.spec_duration() || f >= run.spec_total_frames() {
        FrameStep::Finished
    } else if last_frame_id == Some(f as u64) {
        FrameStep::Wait
    } else {
        FrameStep::Send(f as u64)
    }
}

/// The next step of the frame schedule of `run` at `now`.
pub fn next_frame_step(run: &MediaRun, last_frame_id: Option<u64>, now: u128) -> (r: FrameStep)
    ensures
        r == frame_step(*run, last_frame_id, now),
        r matches FrameStep::Send(f) ==> f == frame_at(
            run.spec_fps() as nat,
            elapsed_since(run.spec_started_at(), now),
        ),
{
    let frame_id = run.current_frame_id(now);
    if run.is_complete(now) || frame_id >= run.total_frames() {
        return FrameStep::Finished;
    }
    match last_frame_id {
        Some(last) => if last == frame_id {
            FrameStep::Wait
        } else {
            FrameStep::Send(frame_id)
        },
        None => FrameStep::Send(frame_id),
    }
}

/// The datagram of chunk `i` of `n` of a frame, carrying `payload`.
pub open spec fn chunk_datagram(
    session_id: Seq<u8>,
    frame_id: u64,
    sent_at_ms: u64,
    i: nat,
    n: nat,
    payload: Seq<u8>,
) -> Seq<u8> {
    seq![crate::media::MEDIA_DATAGRAM_TYPE] + session_id + crate::be::be_bytes(frame_id as nat, 8)
        + crate::be::be_bytes(sent_at_ms as nat, 8) + crate::be::be_bytes(i, 2)
        + crate::be::be_bytes(n, 2) + payload
}

/// The encoded datagrams that carry `frame`, cut into payloads of at most
/// `max_payload_size` bytes, in chunk order.
pub fn frame_datagrams(
    session_id: [u8; 16],
    frame_id: u64,
    sent_at_ms: u64,
    frame: &[u8],
    max_payload_size: usize,
) -> (r: Result<Vec<Vec<u8>>, MediaError>)
    ensures
        match chunk_count_result(frame@.len(), max_payload_size as nat) {
            Err(e) => r == Err::<Vec<Vec<u8>>, MediaError>(e),
            Ok(n) => r matches Ok(datagrams) && {
                &&& datagrams.len() == n
                &&& n == div_ceil(frame@.len(), max_payload_size as nat)
                &&& forall|i: int|
                    0 <= i < datagrams.len() ==> (#[trigger] datagrams@[i])@ == chunk_datagram(
                        session_id@,
                        frame_id,
                        sent_at_ms,
                        i as nat,
                        n as nat,
                        chunk_payload(frame@, max_payload_size as nat, i as nat),
                    )
            },
        },
{
    let chunks = fragment_frame(session_id, frame_id, sent_at_ms, frame, max_payload_size)?;
    let ghost n = chunks.len();
    let mut datagrams: Vec<Vec<u8>> = Vec::new();
    let mut i: usize = 0;
    while i < chunks.len()
        invariant
            i <= chunks.len(),
            n == chunks.len(),
            datagrams.len() == i,
            crate::media::is_fragmentation(
                chunks@,
                session_id@,
                frame_id,
                sent_at_ms,
                frame@,
                max_payload_size as nat,
            ),
            forall|k: int|
                0 <= k < i ==> (#[trigger] datagrams@[k])@ == chunk_datagram(
                    session_id@,
                    frame_id,
                    sent_at_ms,
                    k as nat,
                    n as nat,
                    chunk_payload(frame@, max_payload_size as nat, k as nat),
                ),
        decreases chunks.len() - i,
    {
        let bytes = match chunks[i].encode() {
            Ok(b) => b,
            Err(e) => {
                return Err(e);
            },
        };
        assert(bytes@ =~= chunk_datagram(
            session_id@,
            frame_id,
            sent_at_ms,
            i as nat,
            n as nat,
            chunk_payload(frame@, max_payload_size as nat, i as nat),
        ));
        datagrams.push(bytes);
        i = i + 1;
    }
    Ok(datagrams)
}

/// Each datagram that `frame_datagrams` makes decodes without error and
/// gives back the frame's session, id and timestamp, its index and count,
/// and its payload: a receiver sees exactly the chunks the sender cut.
pub proof fn lemma_frame_datagram_decodes(
    session_id: Seq<u8>,
    frame_id: u64,
    sent_at_ms: u64,
    i: nat,
    n: nat,
    payload: Seq<u8>,
)
    requires
        session_id.len() == 16,
        i < n <= u16::MAX,
    ensures
        crate::media::decode_error(chunk_datagram(session_id, frame_id, sent_at_ms, i, n, payload))
            is None,
        crate::media::decoded_fields(chunk_datagram(session_id, frame_id, sent_at_ms, i, n, payload))
            == (session_id, frame_id as nat, sent_at_ms as nat, i, n, payload),
{
    let e = chunk_datagram(session_id, frame_id, sent_at_ms, i, n, payload);
    crate::be::lemma_pow256_8();
    crate::be::lemma_be_bytes_len(frame_id as nat, 8);
    crate::be::lemma_be_bytes_len(sent_at_ms as nat, 8);
    crate::be::lemma_be_bytes_len(i, 2);
    crate::be::lemma_be_bytes_len(n, 2);
    crate::be::lemma_be_value_of_bytes(frame_id as nat, 8);
    crate::be::lemma_be_value_of_bytes(sent_at_ms as nat, 8);
    crate::be::lemma_be_value_of_bytes(i, 2);
    crate::be::lemma_be_value_of_bytes(n, 2);
    assert(e.subrange(1, 17) =~= session_id);
    assert(e.subrange(17, 25) =~= crate::be::be_bytes(frame_id as nat, 8));
    assert(e.subrange(25, 33) =~= crate::be::be_bytes(sent_at_ms as nat, 8));
    assert(e.subrange(33, 35) =~= crate::be::be_bytes(i, 2));
    assert(e.subrange(35, 37) =~= crate::be::be_bytes(n, 2));
    assert(e.subrange(37, e.len() as int) =~= payload);
}

/// The schedule follows the run's timeline: it ends once the duration has
/// elapsed or the timeline reaches the frame count; otherwise it sends the
/// timeline's current frame, whatever was sent before, and waits only while
/// that frame is the last one sent. Frames passed over during a stall are
/// skipped, never sent late.
pub proof fn lemma_schedule_sends_current_frame(run: MediaRun, last: Option<u64>, now: u128)
    ensures
        ({
            let e = elapsed_since(run.spec_started_at(), now);
            let current = e * run.spec_fps() / (crate::media_run::NANOS_PER_SEC as int);
            let over = e >= run.spec_duration() || current >= run.spec_total_frames();
            &&& (frame_step(run, last, now) == FrameStep::Finished) == over
            &&& !over && last == Some(current as u64) ==> frame_step(run, last, now)
                == FrameStep::Wait
            &&& !over && last != Some(current as u64) ==> frame_step(run, last, now)
                == FrameStep::Send(current as u64)
        }),
{
    let e = elapsed_since(run.spec_started_at(), now);
    let current = e * run.spec_fps() / (crate::media_run::NANOS_PER_SEC as int);
    if current <= u64::MAX {
        assert(frame_at(run.spec_fps() as nat, e) == current);
    } else {
        assert(frame_at(run.spec_fps() as nat, e) == u64::MAX);
        assert(run.spec_total_frames() <= u64::MAX);
    }
}

/// The frames a client sends never restart: on a clock that does not go
/// backwards, a frame sent at `now` after frame `last` was the timeline's
/// frame at the earlier time `sent_at` has a larger id, and every frame sent
/// is below the run's frame count. Migration and reconnect do not touch the
/// run, so this holds across them.
pub proof fn lemma_sent_frames_increase(
    run: MediaRun,
    last: Option<u64>,
    sent_at: u128,
    now: u128,
    f: u64,
)
    requires
        sent_at <= now,
        last matches Some(l) ==> l == frame_at(
            run.spec_fps() as nat,
            elapsed_since(run.spec_started_at(), sent_at),
        ),
        frame_step(run, last, now) == FrameStep::Send(f),
    ensures
        f < run.spec_total_frames(),
        last matches Some(l) ==> l < f,
{
    crate::media_run::lemma_timeline_monotone(
        run.spec_fps() as nat,
        run.spec_started_at(),
        sent_at,
        now,
    );
}

/// What a path-health check found and decided.
#[derive(Debug, Clone, Copy, PartialEq, Eq, Structural)]
pub struct HealthReport {
    /// The detector's event.
    pub event: PathHealthEvent,
    /// The state change it caused, if any.
    pub transition: Option<MigrationTransition>,
    /// A pending automatic migration was confirmed by resumed progress.
    pub migration_confirmed: bool,
    /// Look for an alternative path and recover with this strategy.
    pub recover_using: Option<RecoveryStrategy>,
}

/// The client's recovery bookkeeping: the path-health detector (when
/// automatic recovery is on), the migration state machine and whether an
/// automatic migration waits for confirmation.
#[derive(Debug)]
pub struct ClientRecovery {
    media_run_id: [u8; 16],
    session_id: [u8; 16],
    strategy: RecoveryStrategy,
    suspect_after: u128,
    challenge_after: u128,
    monitor: Option<PathHealthMonitor>,
    migration: MigrationController,
    automatic_migration_pending: bool,
    rebound: bool,
}

/// Nanoseconds in `ms` milliseconds.
pub open spec fn millis(ms: u64) -> u128 {
    (ms * 1_000_000) as u128
}

impl ClientRecovery {
    pub closed spec fn spec_monitor(&self) -> Option<MonitorModel> {
        match self.monitor {
            Some(m) => Some(m@),
            None => None,
        }
    }

    /// The media run the client sends.
    pub closed spec fn spec_media_run_id(&self) -> Seq<u8> {
        self.media_run_id@
    }

    /// The session the client currently sends in.
    pub closed spec fn spec_session_id(&self) -> Seq<u8> {
        self.session_id@
    }

    pub closed spec fn spec_state(&self) -> MigrationState {
        self.migration.spec_state()
    }

    pub closed spec fn spec_pending(&self) -> bool {
        self.automatic_migration_pending
    }

    pub closed spec fn spec_rebound(&self) -> bool {
        self.rebound
    }

    pub closed spec fn spec_strategy(&self) -> RecoveryStrategy {
        self.strategy
    }

    pub closed spec fn spec_thresholds(&self) -> (u128, u128) {
        (self.suspect_after, self.challenge_after)
    }

    /// The detector, when present, agrees with the state machine.
    pub open spec fn agrees(&self) -> bool {
        match self.spec_monitor() {
            Some(m) => detector_agrees(m, self.spec_state()),
            None => true,
        }
    }

    /// Recovery bookkeeping for a fresh connection of session `session_id`
    /// of media run `media_run_id`: `Healthy`, nothing pending, and a
    /// detector (thresholds in milliseconds) only when `auto_migrate` is set.
    pub fn new(
        media_run_id: [u8; 16],
        session_id: [u8; 16],
        auto_migrate: bool,
        strategy: RecoveryStrategy,
        suspect_after_ms: u64,
        challenge_after_ms: u64,
        now: u128,
        initial_ack_count: u64,
    ) -> (r: ClientRecovery)
        ensures
            r.spec_media_run_id() == media_run_id@,
            r.spec_session_id() == session_id@,
            r.spec_state() == MigrationState::Healthy,
            !r.spec_pending(),
            !r.spec_rebound(),
            r.spec_strategy() == strategy,
            r.spec_thresholds() == (millis(suspect_after_ms), millis(challenge_after_ms)),
            auto_migrate ==> r.spec_monitor() == Some(
                MonitorModel {
                    suspect_after: millis(suspect_after_ms),
                    challenge_after: millis(challenge_after_ms),
                    last_progress_at: now,
                    last_progress_value: initial_ack_count,
                    suspect_since: None,
                    challenge_requested: false,
                },
            ),
            !auto_migrate ==> r.spec_monitor() is None,
            r.agrees(),
    {
        let suspect_after = suspect_after_ms as u128 * 1_000_000;
        let challenge_after = challenge_after_ms as u128 * 1_000_000;
        let monitor = if auto_migrate {
            Some(PathHealthMonitor::new(suspect_after, challenge_after, now, initial_ack_count))
        } else {
            None
        };
        ClientRecovery {
            media_run_id,
            session_id,
            strategy,
            suspect_after,
            challenge_after,
            monitor,
            migration: MigrationController::new(),
            automatic_migration_pending: false,
            rebound: false,
        }
    }

    /// The media run's identity.
    pub fn media_run_id(&self) -> (r: [u8; 16])
        ensures
            r@ == self.spec_media_run_id(),
    {
        self.media_run_id
    }

    /// The current session's identity.
    pub fn session_id(&self) -> (r: [u8; 16])
        ensures
            r@ == self.spec_session_id(),
    {
        self.session_id
    }

    /// The HELLO of the current session.
    pub fn hello_message(&self) -> (r: String)
        ensures
            r@ == crate::control::hello_text(self.spec_media_run_id(), self.spec_session_id()),
    {
        crate::control::hello(self.media_run_id, self.session_id)
    }

    /// The DONE of the current session, announcing `final_frame_exclusive`.
    pub fn done_message(&self, final_frame_exclusive: u64) -> (r: String)
        ensures
            r@ == crate::control::done_text(
                self.spec_media_run_id(),
                self.spec_session_id(),
                final_frame_exclusive,
            ),
    {
        crate::control::done(self.media_run_id, self.session_id, final_frame_exclusive)
    }

    /// The migration state.
    pub fn state(&self) -> (r: MigrationState)
        ensures
            r == self.spec_state(),
    {
        self.migration.state()
    }

    /// Whether an automatic migration waits for confirmation.
    pub fn automatic_migration_pending(&self) -> (r: bool)
        ensures
            r == self.spec_pending(),
    {
        self.automatic_migration_pending
    }

    /// Observes the ACK counter at `now` and applies the detector's event to
    /// the state machine. Recovery while `Migrating` confirms the pending
    /// migration; a challenge asks for recovery unless a migration is
    /// already pending.
    pub fn check_health(&mut self, now: u128, ack_count: u64) -> (r: Result<
        HealthReport,
        InvalidTransition,
    >)
        ensures
            final(self).spec_media_run_id() == old(self).spec_media_run_id(),
            final(self).spec_session_id() == old(self).spec_session_id(),
            final(self).spec_strategy() == old(self).spec_strategy(),
            final(self).spec_thresholds() == old(self).spec_thresholds(),
            final(self).spec_rebound() == old(self).spec_rebound(),
            match old(self).spec_monitor() {
                None => r == Ok::<HealthReport, InvalidTransition>(
                    HealthReport {
                        event: PathHealthEvent::NoEvent,
                        transition: None,
                        migration_confirmed: false,
                        recover_using: None,
                    },
                ) && final(self).spec_monitor() is None && final(self).spec_state() == old(self).spec_state() && final(self).spec_pending() == old(self).spec_pending(),
                Some(m) => {
                    let (m2, event) = observed(m, now, ack_count);
                    let st = old(self).spec_state();
                    &&& final(self).spec_monitor() == Some(m2)
                    &&& match health_target(event, st) {
                        Some((next, _)) if !valid_transition(st, next) => {
                            &&& r == Err::<HealthReport, InvalidTransition>(
                                InvalidTransition { from: st, to: next },
                            )
                            &&& final(self).spec_state() == st
                        },
                        _ => {
                            let confirmed = event == PathHealthEvent::Recovered && st
                                == MigrationState::Migrating;
                            let pending = old(self).spec_pending() && !confirmed;
                            &&& final(self).spec_state() == after_event(event, st)
                            &&& final(self).spec_pending() == pending
                            &&& r matches Ok(report) && report.event == event
                                && report.migration_confirmed == confirmed && report.recover_using
                                == (if !pending && event == PathHealthEvent::ChallengeRequested {
                                Some(old(self).spec_strategy())
                            } else {
                                None
                            }) && report.transition == (match health_target(event, st) {
                                Some((next, reason)) => Some(
                                    MigrationTransition { from: st, to: next, reason },
                                ),
                                None => None,
                            })
                        },
                    }
                },
            },
            old(self).agrees() ==> r is Ok && final(self).agrees(),
    {
        let ghost st = self.migration.spec_state();
        let event = match &mut self.monitor {
            None => {
                return Ok(
                    HealthReport {
                        event: PathHealthEvent::NoEvent,
                        transition: None,
                        migration_confirmed: false,
                        recover_using: None,
                    },
                );
            },
            Some(monitor) => monitor.observe(now, ack_count),
        };
        proof {
            if old(self).agrees() {
                lemma_detector_events_are_valid_transitions(
                    old(self).spec_monitor()->0,
                    st,
                    now,
                    ack_count,
                );
            }
        }
        let state_before = self.migration.state();
        let (action, transition) = handle_path_health_event(
            event,
            self.strategy,
            &mut self.migration,
        )?;
        let confirmed = event == PathHealthEvent::Recovered && state_before
            == MigrationState::Migrating;
        if confirmed {
            self.automatic_migration_pending = false;
        }
        let recover_using = if !self.automatic_migration_pending {
            match action {
                PathHealthAction::RecoverUsing(strategy) => Some(strategy),
                PathHealthAction::NoAction => None,
            }
        } else {
            None
        };
        Ok(HealthReport { event, transition, migration_confirmed: confirmed, recover_using })
    }

    /// Records a successful automatic rebind: the state machine moves to
    /// `Migrating` and the migration waits for resumed progress.
    pub fn automatic_rebind_succeeded(&mut self) -> (r: Result<
        MigrationTransition,
        InvalidTransition,
    >)
        ensures
            final(self).spec_monitor() == old(self).spec_monitor(),
            final(self).spec_media_run_id() == old(self).spec_media_run_id(),
            final(self).spec_session_id() == old(self).spec_session_id(),
            final(self).spec_strategy() == old(self).spec_strategy(),
            final(self).spec_thresholds() == old(self).spec_thresholds(),
            final(self).spec_rebound() == old(self).spec_rebound(),
            valid_transition(old(self).spec_state(), MigrationState::Migrating) ==> {
                &&& r == Ok::<MigrationTransition, InvalidTransition>(
                    MigrationTransition {
                        from: old(self).spec_state(),
                        to: MigrationState::Migrating,
                        reason: MigrationReason::AlternatePathReady,
                    },
                )
                &&& final(self).spec_state() == MigrationState::Migrating
                &&& final(self).spec_pending()
            },
            !valid_transition(old(self).spec_state(), MigrationState::Migrating) ==> {
                &&& r == Err::<MigrationTransition, InvalidTransition>(
                    InvalidTransition { from: old(self).spec_state(), to: MigrationState::Migrating },
                )
                &&& final(self).spec_state() == old(self).spec_state()
                &&& final(self).spec_pending() == old(self).spec_pending()
            },
            old(self).agrees() && old(self).spec_state() == MigrationState::Challenging ==> final(self).agrees(),
    {
        let t = self.migration.transition(
            MigrationState::Migrating,
            MigrationReason::AlternatePathReady,
        )?;
        self.automatic_migration_pending = true;
        Ok(t)
    }

    /// Records a completed reconnect in the new session `session_id`: the
    /// media run stays the same, the detector restarts from the new
    /// connection's ACK count, the state machine restarts `Healthy`, and no
    /// migration is pending.
    pub fn reconnected(&mut self, session_id: [u8; 16], now: u128, ack_count: u64)
        ensures
            final(self).spec_media_run_id() == old(self).spec_media_run_id(),
            final(self).spec_session_id() == session_id@,
            final(self).spec_strategy() == old(self).spec_strategy(),
            final(self).spec_thresholds() == old(self).spec_thresholds(),
            final(self).spec_rebound() == old(self).spec_rebound(),
            final(self).spec_state() == MigrationState::Healthy,
            !final(self).spec_pending(),
            old(self).spec_monitor() is Some ==> final(self).spec_monitor() == Some(
                MonitorModel {
                    suspect_after: old(self).spec_thresholds().0,
                    challenge_after: old(self).spec_thresholds().1,
                    last_progress_at: now,
                    last_progress_value: ack_count,
                    suspect_since: None,
                    challenge_requested: false,
                },
            ),
            old(self).spec_monitor() is None ==> final(self).spec_monitor() is None,
            final(self).agrees(),
    {
        if self.monitor.is_some() {
            self.monitor = Some(
                PathHealthMonitor::new(self.suspect_after, self.challenge_after, now, ack_count),
            );
        }
        self.migration = MigrationController::new();
        self.automatic_migration_pending = false;
        self.session_id = session_id;
    }

    /// Whether the timed migration is due: one is configured, it has not
    /// happened yet, and `elapsed` reached `rebind_after`.
    pub fn timed_migration_due(&self, configured: bool, elapsed: u128, rebind_after: u128) -> (r:
        bool)
        ensures
            r == (configured && !self.spec_rebound() && elapsed >= rebind_after),
    {
        configured && !self.rebound && elapsed >= rebind_after
    }

    /// Starts the timed migration: `Suspect`, `Challenging`, then
    /// `Migrating`, each step refused unless allowed.
    pub fn begin_timed_migration(&mut self) -> (r: Result<
        (MigrationTransition, MigrationTransition, MigrationTransition),
        InvalidTransition,
    >)
        ensures
            final(self).spec_monitor() == old(self).spec_monitor(),
            final(self).spec_pending() == old(self).spec_pending(),
            final(self).spec_rebound() == old(self).spec_rebound(),
            final(self).spec_media_run_id() == old(self).spec_media_run_id(),
            final(self).spec_session_id() == old(self).spec_session_id(),
            final(self).spec_strategy() == old(self).spec_strategy(),
            final(self).spec_thresholds() == old(self).spec_thresholds(),
            old(self).spec_state() == MigrationState::Healthy ==> r == Ok::<
                (MigrationTransition, MigrationTransition, MigrationTransition),
                InvalidTransition,
            >(
                (
                    MigrationTransition {
                        from: MigrationState::Healthy,
                        to: MigrationState::Suspect,
                        reason: MigrationReason::ControlledTrigger,
                    },
                    MigrationTransition {
                        from: MigrationState::Suspect,
                        to: MigrationState::Challenging,
                        reason: MigrationReason::ConditionPersisted,
                    },
                    MigrationTransition {
                        from: MigrationState::Challenging,
                        to: MigrationState::Migrating,
                        reason: MigrationReason::AlternatePathReady,
                    },
                ),
            ) && final(self).spec_state() == MigrationState::Migrating,
            old(self).spec_state() != MigrationState::Healthy ==> r == Err::<
                (MigrationTransition, MigrationTransition, MigrationTransition),
                InvalidTransition,
            >(InvalidTransition { from: old(self).spec_state(), to: MigrationState::Suspect })
                && final(self).spec_state() == old(self).spec_state(),
    {
        let t1 = self.migration.transition(
            MigrationState::Suspect,
            MigrationReason::ControlledTrigger,
        )?;
        let t2 = self.migration.transition(
            MigrationState::Challenging,
            MigrationReason::ConditionPersisted,
        )?;
        let t3 = self.migration.transition(
            MigrationState::Migrating,
            MigrationReason::AlternatePathReady,
        )?;
        Ok((t1, t2, t3))
    }

    /// Completes the timed migration after the rebind: back to `Healthy`, and
    /// no further timed migration.
    pub fn complete_timed_migration(&mut self) -> (r: Result<
        MigrationTransition,
        InvalidTransition,
    >)
        ensures
            final(self).spec_monitor() == old(self).spec_monitor(),
            final(self).spec_pending() == old(self).spec_pending(),
            final(self).spec_media_run_id() == old(self).spec_media_run_id(),
            final(self).spec_session_id() == old(self).spec_session_id(),
            final(self).spec_strategy() == old(self).spec_strategy(),
            final(self).spec_thresholds() == old(self).spec_thresholds(),
            old(self).spec_state() != MigrationState::Healthy ==> {
                &&& r == Ok::<MigrationTransition, InvalidTransition>(
                    MigrationTransition {
                        from: old(self).spec_state(),
                        to: MigrationState::Healthy,
                        reason: MigrationReason::MigrationCompleted,
                    },
                )
                &&& final(self).spec_state() == MigrationState::Healthy
                &&& final(self).spec_rebound()
            },
            old(self).spec_state() == MigrationState::Healthy ==> {
                &&& r == Err::<MigrationTransition, InvalidTransition>(
                    InvalidTransition { from: MigrationState::Healthy, to: MigrationState::Healthy },
                )
                &&& final(self).spec_state() == MigrationState::Healthy
                &&& final(self).spec_rebound() == old(self).spec_rebound()
            },
    {
        let t = self.migration.transition(
            MigrationState::Healthy,
            MigrationReason::MigrationCompleted,
        )?;
        self.rebound = true;
        Ok(t)
    }
}

} // verus!
