//! Path-health detection from acknowledgement progress.
//!
//! The monitor watches a counter that grows while the path delivers (the
//! number of ACK frames received). Without progress for `suspect_after` it
//! reports the path suspect; if the path stays suspect for `challenge_after`
//! it asks for a path challenge; progress while suspect reports recovery.
//! Times are nanoseconds on a monotonic clock.

use vstd::prelude::*;

verus! {

/// What one observation of the progress counter reports.
#[derive(Debug, Clone, Copy, PartialEq, Eq, Structural)]
pub enum PathHealthEvent {
    /// Nothing changed.
    NoEvent,
    BecameSuspect,
    Recovered,
    ChallengeRequested,
}

/// Watches a progress counter and reports suspicion, recovery and the need
/// for a path challenge.
#[derive(Debug)]
pub struct PathHealthMonitor {
    suspect_after: u128,
    challenge_after: u128,
    last_progress_at: u128,
    last_progress_value: u64,
    suspect_since: Option<u128>,
    challenge_requested: bool,
}

/// The monitor's thresholds and state.
pub struct MonitorModel {
    pub suspect_after: u128,
    pub challenge_after: u128,
    pub last_progress_at: u128,
    pub last_progress_value: u64,
    pub suspect_since: Option<u128>,
    pub challenge_requested: bool,
}

impl View for PathHealthMonitor {
    type V = MonitorModel;

    closed spec fn view(&self) -> MonitorModel {
        MonitorModel {
            suspect_after: self.suspect_after,
            challenge_after: self.challenge_after,
            last_progress_at: self.last_progress_at,
            last_progress_value: self.last_progress_value,
            suspect_since: self.suspect_since,
            challenge_requested: self.challenge_requested,
        }
    }
}

/// Time elapsed from `earlier` to `now`; zero if `now` is not later.
pub open spec fn since(now: u128, earlier: u128) -> u128 {
    if now >= earlier {
        (now - earlier) as u128
    } else {
        0
    }
}

/// The monitor's state and report after observing `progress` at `now`.
pub open spec fn observed(m: MonitorModel, now: u128, progress: u64) -> (MonitorModel, PathHealthEvent) {
    if progress > m.last_progress_value {
        let m2 = MonitorModel {
            last_progress_value: progress,
            last_progress_at: now,
            suspect_since: None,
            ..m
        };
        if m.suspect_since is Some {
            (MonitorModel { challenge_requested: false, ..m2 }, PathHealthEvent::Recovered)
        } else {
            (m2, PathHealthEvent::NoEvent)
        }
    } else {
        match m.suspect_since {
            None => if since(now, m.last_progress_at) >= m.suspect_after {
                (MonitorModel { suspect_since: Some(now), ..m }, PathHealthEvent::BecameSuspect)
            } else {
                (m, PathHealthEvent::NoEvent)
            },
            Some(s) => if !m.challenge_requested && since(now, s) >= m.challenge_after {
                (MonitorModel { challenge_requested: true, ..m }, PathHealthEvent::ChallengeRequested)
            } else {
                (m, PathHealthEvent::NoEvent)
            },
        }
    }
}

/// A challenge is only ever requested while the path is suspect.
pub open spec fn monitor_wf(m: MonitorModel) -> bool {
    m.challenge_requested ==> m.suspect_since is Some
}

impl PathHealthMonitor {
    /// A monitor that saw `initial_progress_value` at `now` and is not
    /// suspicious.
    pub fn new(suspect_after: u128, challenge_after: u128, now: u128, initial_progress_value: u64) -> (r:
        PathHealthMonitor)
        ensures
            r@ == (MonitorModel {
                suspect_after,
                challenge_after,
                last_progress_at: now,
                last_progress_value: initial_progress_value,
                suspect_since: None,
                challenge_requested: false,
            }),
    {
        PathHealthMonitor {
            suspect_after,
            challenge_after,
            last_progress_at: now,
            last_progress_value: initial_progress_value,
            suspect_since: None,
            challenge_requested: false,
        }
    }

    fn elapsed_since(now: u128, earlier: u128) -> (r: u128)
        ensures
            r == since(now, earlier),
    {
        now.saturating_sub(earlier)
    }

    /// Observes the progress counter at `now`.
    pub fn observe(&mut self, now: u128, progress_value: u64) -> (r: PathHealthEvent)
        ensures
            (final(self)@, r) == observed(old(self)@, now, progress_value),
    {
        if progress_value > self.last_progress_value {
            self.last_progress_value = progress_value;
            self.last_progress_at = now;
            if self.suspect_since.is_some() {
                self.suspect_since = None;
                self.challenge_requested = false;
                return PathHealthEvent::Recovered;
            }
            return PathHealthEvent::NoEvent;
        }
        match self.suspect_since {
            None => {
                if Self::elapsed_since(now, self.last_progress_at) >= self.suspect_after {
                    self.suspect_since = Some(now);
                    return PathHealthEvent::BecameSuspect;
                }
                PathHealthEvent::NoEvent
            },
            Some(suspect_since) => {
                if !self.challenge_requested && Self::elapsed_since(now, suspect_since)
                    >= self.challenge_after {
                    self.challenge_requested = true;
                    return PathHealthEvent::ChallengeRequested;
                }
                PathHealthEvent::NoEvent
            },
        }
    }
}

/// Observation keeps the monitor consistent: a challenge is requested only
/// while suspect.
pub proof fn lemma_observe_keeps_wf(m: MonitorModel, now: u128, progress: u64)
    requires
        monitor_wf(m),
    ensures
        monitor_wf(observed(m, now, progress).0),
{
}

/// Suspicion is reported once per suspect period: a suspect monitor never
/// reports `BecameSuspect` again before it recovers.
pub proof fn lemma_suspect_reported_once(m: MonitorModel, now: u128, progress: u64)
    requires
        m.suspect_since is Some,
    ensures
        observed(m, now, progress).1 != PathHealthEvent::BecameSuspect,
{
}

/// A challenge is requested at most once per suspect period, and only after
/// the path became suspect.
pub proof fn lemma_challenge_requested_once(m: MonitorModel, now: u128, progress: u64)
    requires
        monitor_wf(m),
    ensures
        observed(m, now, progress).1 == PathHealthEvent::ChallengeRequested ==> m.suspect_since
            is Some && !m.challenge_requested,
        m.challenge_requested ==> observed(m, now, progress).1
            != PathHealthEvent::ChallengeRequested,
{
}

/// Recovery is reported exactly when progress resumes on a suspect path,
/// and it clears both suspicion and the challenge.
pub proof fn lemma_recovery_clears_suspicion(m: MonitorModel, now: u128, progress: u64)
    ensures
        (observed(m, now, progress).1 == PathHealthEvent::Recovered) <==> (progress
            > m.last_progress_value && m.suspect_since is Some),
        progress > m.last_progress_value && m.suspect_since is Some ==> observed(
            m,
            now,
            progress,
        ).0.suspect_since is None && !observed(m, now, progress).0.challenge_requested,
{
}

/// The monitor after observing each `(now, progress)` of `calls` in order.
pub open spec fn observed_all(m: MonitorModel, calls: Seq<(u128, u64)>) -> MonitorModel
    decreases calls.len(),
{
    if calls.len() == 0 {
        m
    } else {
        observed(observed_all(m, calls.drop_last()), calls.last().0, calls.last().1).0
    }
}

/// What the last of `calls` reported.
pub open spec fn last_event(m: MonitorModel, calls: Seq<(u128, u64)>) -> PathHealthEvent
    recommends
        calls.len() > 0,
{
    observed(observed_all(m, calls.drop_last()), calls.last().0, calls.last().1).1
}

/// The largest progress value among `initial` and those of `calls`.
pub open spec fn best_progress(initial: u64, calls: Seq<(u128, u64)>) -> u64
    decreases calls.len(),
{
    if calls.len() == 0 {
        initial
    } else {
        let before = best_progress(initial, calls.drop_last());
        if calls.last().1 > before {
            calls.last().1
        } else {
            before
        }
    }
}

/// The last call of `calls` raised the progress value above every earlier
/// one.
pub open spec fn last_raised(initial: u64, calls: Seq<(u128, u64)>) -> bool
    recommends
        calls.len() > 0,
{
    calls.last().1 > best_progress(initial, calls.drop_last())
}

/// The time of the last call that raised the progress value, or `start`.
pub open spec fn last_raise_time(start: u128, initial: u64, calls: Seq<(u128, u64)>) -> u128
    decreases calls.len(),
{
    if calls.len() == 0 {
        start
    } else if last_raised(initial, calls) {
        calls.last().0
    } else {
        last_raise_time(start, initial, calls.drop_last())
    }
}

/// The time of the call, after the last raise, that reported
/// `BecameSuspect`, if there is one.
pub open spec fn suspect_time(m: MonitorModel, calls: Seq<(u128, u64)>) -> Option<u128>
    decreases calls.len(),
{
    if calls.len() == 0 {
        None
    } else if last_raised(m.last_progress_value, calls) {
        None
    } else if last_event(m, calls) == PathHealthEvent::BecameSuspect {
        Some(calls.last().0)
    } else {
        suspect_time(m, calls.drop_last())
    }
}

/// A call after the last raise reported `ChallengeRequested`.
pub open spec fn challenged(m: MonitorModel, calls: Seq<(u128, u64)>) -> bool
    decreases calls.len(),
{
    if calls.len() == 0 {
        false
    } else if last_raised(m.last_progress_value, calls) {
        false
    } else if last_event(m, calls) == PathHealthEvent::ChallengeRequested {
        true
    } else {
        challenged(m, calls.drop_last())
    }
}

proof fn lemma_history_state(m: MonitorModel, calls: Seq<(u128, u64)>)
    requires
        m.suspect_since is None,
        !m.challenge_requested,
    ensures
        ({
            let h = observed_all(m, calls);
            &&& monitor_wf(h)
            &&& h.suspect_after == m.suspect_after
            &&& h.challenge_after == m.challenge_after
            &&& h.last_progress_value == best_progress(m.last_progress_value, calls)
            &&& h.last_progress_at == last_raise_time(
                m.last_progress_at,
                m.last_progress_value,
                calls,
            )
            &&& h.suspect_since == suspect_time(m, calls)
            &&& h.challenge_requested == challenged(m, calls)
        }),
    decreases calls.len(),
{
    if calls.len() > 0 {
        lemma_history_state(m, calls.drop_last());
    }
}

/// What a monitor reports depends only on the calls made since it was
/// created: progress above every value seen so far reports `Recovered` when
/// a call since the last such rise reported `BecameSuspect`, and nothing
/// otherwise; without such progress, a monitor not yet suspect since the
/// last rise reports `BecameSuspect` once `suspect_after` has passed since
/// that rise, and a suspect one reports `ChallengeRequested` once
/// `challenge_after` has passed since it became suspect, unless a call since
/// then already did.
pub proof fn lemma_observe_over_history(
    suspect_after: u128,
    challenge_after: u128,
    start: u128,
    initial: u64,
    calls: Seq<(u128, u64)>,
    now: u128,
    progress: u64,
)
    ensures
        ({
            let m0 = MonitorModel {
                suspect_after,
                challenge_after,
                last_progress_at: start,
                last_progress_value: initial,
                suspect_since: None,
                challenge_requested: false,
            };
            let event = observed(observed_all(m0, calls), now, progress).1;
            let tp = last_raise_time(start, initial, calls);
            if progress > best_progress(initial, calls) {
                event == if suspect_time(m0, calls) is Some {
                    PathHealthEvent::Recovered
                } else {
                    PathHealthEvent::NoEvent
                }
            } else {
                match suspect_time(m0, calls) {
                    None => event == if since(now, tp) >= suspect_after {
                        PathHealthEvent::BecameSuspect
                    } else {
                        PathHealthEvent::NoEvent
                    },
                    Some(ts) => event == if !challenged(m0, calls) && since(now, ts)
                        >= challenge_after {
                        PathHealthEvent::ChallengeRequested
                    } else {
                        PathHealthEvent::NoEvent
                    },
                }
            }
        }),
{
    let m0 = MonitorModel {
        suspect_after,
        challenge_after,
        last_progress_at: start,
        last_progress_value: initial,
        suspect_since: None,
        challenge_requested: false,
    };
    lemma_history_state(m0, calls);
}

} // verus!
