//! A media run: one logical call with a fixed frame rate and duration, and
//! a global frame timeline that does not restart when the transport does.
//!
//! Times and durations are nanoseconds on a monotonic clock.

use crate::ids::uuid_new_v4;
use vstd::prelude::*;

verus! {

/// Nanoseconds per second.
pub const NANOS_PER_SEC: u128 = 1_000_000_000;

/// Why a media run could not be created.
#[derive(Debug, Clone, Copy, PartialEq, Eq, Structural)]
pub enum MediaRunError {
    /// The frame rate is zero.
    ZeroFps,
    /// The duration is zero.
    ZeroDuration,
    /// The number of frames does not fit in a `u64`.
    FrameCountOverflow,
    /// The duration is shorter than one frame interval.
    ShorterThanOneFrame,
}

/// One logical media run.
#[derive(Debug, Clone)]
pub struct MediaRun {
    id: [u8; 16],
    started_at: u128,
    fps: u32,
    duration: u128,
    total_frames: u64,
}

/// Number of whole frame intervals in `duration` at `fps` frames per
/// second: whole seconds times `fps`, plus the whole frames in the
/// sub-second rest.
pub open spec fn frames_in(fps: nat, duration: nat) -> nat {
    fps * (duration / NANOS_PER_SEC as nat) + (duration % NANOS_PER_SEC as nat) * fps
        / NANOS_PER_SEC as nat
}

/// The error that creating a run with these settings reports, if any.
pub open spec fn run_config_error(fps: u32, duration: u128) -> Option<MediaRunError> {
    if fps == 0 {
        Some(MediaRunError::ZeroFps)
    } else if duration == 0 {
        Some(MediaRunError::ZeroDuration)
    } else if frames_in(fps as nat, duration as nat) > u64::MAX {
        Some(MediaRunError::FrameCountOverflow)
    } else if frames_in(fps as nat, duration as nat) == 0 {
        Some(MediaRunError::ShorterThanOneFrame)
    } else {
        None
    }
}

/// Time elapsed since `started_at`, zero before it.
pub open spec fn elapsed_since(started_at: u128, now: u128) -> nat {
    if now >= started_at {
        (now - started_at) as nat
    } else {
        0
    }
}

/// The timeline position at `elapsed` nanoseconds into a run at `fps`,
/// capped at `u64::MAX`.
pub open spec fn frame_at(fps: nat, elapsed: nat) -> nat {
    let f = elapsed * fps / NANOS_PER_SEC as nat;
    if f > u64::MAX {
        u64::MAX as nat
    } else {
        f
    }
}

impl MediaRun {
    pub closed spec fn spec_id(&self) -> Seq<u8> {
        self.id@
    }

    pub closed spec fn spec_started_at(&self) -> u128 {
        self.started_at
    }

    pub closed spec fn spec_fps(&self) -> u32 {
        self.fps
    }

    pub closed spec fn spec_duration(&self) -> u128 {
        self.duration
    }

    pub closed spec fn spec_total_frames(&self) -> u64 {
        self.total_frames
    }

    /// The run's settings are valid and its frame count is derived from them.
    pub open spec fn wf(&self) -> bool {
        &&& run_config_error(self.spec_fps(), self.spec_duration()) is None
        &&& self.spec_total_frames() == frames_in(
            self.spec_fps() as nat,
            self.spec_duration() as nat,
        )
    }

    /// A run with identity `id`, started at `started_at`, at `fps` frames per
    /// second for `duration` nanoseconds.
    pub fn new_at(id: [u8; 16], fps: u32, duration: u128, started_at: u128) -> (r: Result<
        MediaRun,
        MediaRunError,
    >)
        ensures
            match run_config_error(fps, duration) {
                Some(e) => r == Err::<MediaRun, MediaRunError>(e),
                None => r matches Ok(run) && run.wf() && run.spec_id() == id@
                    && run.spec_fps() == fps && run.spec_duration() == duration
                    && run.spec_started_at() == started_at,
            },
    {
        if fps == 0 {
            return Err(MediaRunError::ZeroFps);
        }
        if duration == 0 {
            return Err(MediaRunError::ZeroDuration);
        }
        let whole_seconds = duration / NANOS_PER_SEC;
        let subsec = duration % NANOS_PER_SEC;
        let f = fps as u128;
        assert(subsec * f <= 1_000_000_000u128 * 0xffff_ffffu128) by (nonlinear_arith)
            requires
                subsec < 1_000_000_000,
                f <= 0xffff_ffff,
        ;
        let subsecond_frames = subsec * f / NANOS_PER_SEC;
        if whole_seconds > u64::MAX as u128 {
            assert(f * whole_seconds >= whole_seconds) by (nonlinear_arith)
                requires
                    f >= 1,
            ;
            return Err(MediaRunError::FrameCountOverflow);
        }
        assert(f * whole_seconds <= 0xffff_ffffu128 * 0xffff_ffff_ffff_ffffu128) by (nonlinear_arith)
            requires
                f <= 0xffff_ffff,
                whole_seconds <= 0xffff_ffff_ffff_ffff,
        ;
        let total = f * whole_seconds + subsecond_frames;
        if total > u64::MAX as u128 {
            return Err(MediaRunError::FrameCountOverflow);
        }
        if total == 0 {
            return Err(MediaRunError::ShorterThanOneFrame);
        }
        Ok(MediaRun { id, started_at, fps, duration, total_frames: total as u64 })
    }

    /// A run with a fresh random identity, started at `started_at`.
    pub fn new(fps: u32, duration: u128, started_at: u128) -> (r: Result<MediaRun, MediaRunError>)
        ensures
            match run_config_error(fps, duration) {
                Some(e) => r == Err::<MediaRun, MediaRunError>(e),
                None => r matches Ok(run) && run.wf() && run.spec_fps() == fps
                    && run.spec_duration() == duration && run.spec_started_at() == started_at,
            },
    {
        Self::new_at(uuid_new_v4(), fps, duration, started_at)
    }

    /// The run's identity.
    pub fn id(&self) -> (r: [u8; 16])
        ensures
            r@ == self.spec_id(),
    {
        self.id
    }

    /// Frames per second.
    pub fn fps(&self) -> (r: u32)
        ensures
            r == self.spec_fps(),
    {
        self.fps
    }

    /// The run's duration in nanoseconds.
    pub fn duration(&self) -> (r: u128)
        ensures
            r == self.spec_duration(),
    {
        self.duration
    }

    /// The number of frames in the run.
    pub fn total_frames(&self) -> (r: u64)
        ensures
            r == self.spec_total_frames(),
    {
        self.total_frames
    }

    /// Time since the run started, zero before it.
    pub fn elapsed(&self, now: u128) -> (r: u128)
        ensures
            r == elapsed_since(self.spec_started_at(), now),
    {
        now.saturating_sub(self.started_at)
    }

    /// The position on the run's frame timeline at `now`.
    pub fn current_frame_id(&self, now: u128) -> (r: u64)
        ensures
            r == frame_at(self.spec_fps() as nat, elapsed_since(self.spec_started_at(), now)),
    {
        let elapsed = self.elapsed(now);
        let f = self.fps as u128;
        match elapsed.checked_mul(f) {
            Some(product) => {
                let frame = product / NANOS_PER_SEC;
                if frame > u64::MAX as u128 {
                    u64::MAX
                } else {
                    frame as u64
                }
            },
            None => {
                assert(elapsed * f / 1_000_000_000 > u64::MAX) by (nonlinear_arith)
                    requires
                        elapsed * f > u128::MAX,
                ;
                u64::MAX
            },
        }
    }

    /// Whether the run's duration has elapsed at `now`.
    pub fn is_complete(&self, now: u128) -> (r: bool)
        ensures
            r == (elapsed_since(self.spec_started_at(), now) >= self.spec_duration()),
    {
        self.elapsed(now) >= self.duration
    }
}

/// The frame timeline never goes backwards: a later time gives a frame id
/// at least as large.
pub proof fn lemma_timeline_monotone(fps: nat, started_at: u128, now1: u128, now2: u128)
    requires
        now1 <= now2,
    ensures
        frame_at(fps, elapsed_since(started_at, now1)) <= frame_at(
            fps,
            elapsed_since(started_at, now2),
        ),
{
    let e1 = elapsed_since(started_at, now1);
    let e2 = elapsed_since(started_at, now2);
    assert(e1 * fps / 1_000_000_000 <= e2 * fps / 1_000_000_000) by (nonlinear_arith)
        requires
            e1 <= e2,
    ;
}

/// A run of whole seconds has `fps` frames per second.
pub proof fn lemma_whole_seconds_frames(fps: nat, seconds: nat)
    ensures
        frames_in(fps, seconds * NANOS_PER_SEC as nat) == fps * seconds,
{
    let d = seconds * 1_000_000_000;
    vstd::arithmetic::div_mod::lemma_fundamental_div_mod_converse(
        d as int,
        1_000_000_000,
        seconds as int,
        0,
    );
}

} // verus!
