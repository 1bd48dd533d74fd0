//! Receiver statistics over the frame ids of validated frames.
//!
//! Times are nanoseconds on the receiver's monotonic clock.

use std::collections::HashSet;
use vstd::prelude::*;

verus! {

broadcast use vstd::std_specs::hash::group_hash_axioms;

/// Counts received, unique, out-of-order and duplicate frames and tracks the
/// largest gap between consecutive receptions.
#[derive(Debug)]
pub struct FrameTracker {
    received: u64,
    seen: HashSet<u64>,
    highest_frame_id: Option<u64>,
    out_of_order: u64,
    duplicates: u64,
    last_received_at: Option<u128>,
    largest_receive_gap: u128,
}

/// The tracker's counters and the set of frame ids seen so far.
pub struct TrackerModel {
    pub received: u64,
    pub seen: Set<u64>,
    pub highest_frame_id: Option<u64>,
    pub out_of_order: u64,
    pub duplicates: u64,
    pub last_received_at: Option<u128>,
    pub largest_receive_gap: u128,
}

/// A snapshot of the tracker's statistics.
#[derive(Debug, Clone, Copy, PartialEq, Eq, Structural)]
pub struct FrameSummary {
    pub received: u64,
    pub unique: u64,
    pub missing_within_observed_range: u64,
    pub out_of_order: u64,
    pub duplicates: u64,
    /// Largest gap between two consecutive receptions, in nanoseconds.
    pub largest_receive_gap: u128,
}

impl View for FrameTracker {
    type V = TrackerModel;

    closed spec fn view(&self) -> TrackerModel {
        TrackerModel {
            received: self.received,
            seen: self.seen@,
            highest_frame_id: self.highest_frame_id,
            out_of_order: self.out_of_order,
            duplicates: self.duplicates,
            last_received_at: self.last_received_at,
            largest_receive_gap: self.largest_receive_gap,
        }
    }
}

/// The tracker state before any frame is recorded.
pub open spec fn empty_tracker() -> TrackerModel {
    TrackerModel {
        received: 0,
        seen: Set::empty(),
        highest_frame_id: None,
        out_of_order: 0,
        duplicates: 0,
        last_received_at: None,
        largest_receive_gap: 0,
    }
}

/// Consistency of the counters: every reception is either a first sighting
/// or a duplicate, the highest id is the largest id seen, and out-of-order
/// frames are first sightings other than the first frame seen.
pub open spec fn tracker_wf(t: TrackerModel) -> bool {
    &&& t.seen.finite()
    &&& t.received == t.seen.len() + t.duplicates
    &&& t.seen.len() > 0 ==> t.out_of_order + 1 <= t.seen.len()
    &&& t.seen.len() == 0 ==> t.out_of_order == 0
    &&& (t.highest_frame_id is None <==> t.seen.len() == 0)
    &&& (t.highest_frame_id is None <==> t.last_received_at is None)
    &&& t.highest_frame_id matches Some(h) ==> t.seen.contains(h) && forall|f: u64|
        #[trigger] t.seen.contains(f) ==> f <= h
}

/// The gap between two receptions, zero when the clock went backwards.
pub open spec fn gap(previous: u128, now: u128) -> u128 {
    if now >= previous {
        (now - previous) as u128
    } else {
        0
    }
}

/// The tracker after recording frame `frame_id` received at `at`.
pub open spec fn recorded(t: TrackerModel, frame_id: u64, at: u128) -> TrackerModel {
    let largest = match t.last_received_at {
        Some(prev) => if gap(prev, at) > t.largest_receive_gap {
            gap(prev, at)
        } else {
            t.largest_receive_gap
        },
        None => t.largest_receive_gap,
    };
    let base = TrackerModel {
        received: (t.received + 1) as u64,
        last_received_at: Some(at),
        largest_receive_gap: largest,
        ..t
    };
    if t.seen.contains(frame_id) {
        TrackerModel { duplicates: (t.duplicates + 1) as u64, ..base }
    } else {
        let seen = t.seen.insert(frame_id);
        match t.highest_frame_id {
            Some(h) if frame_id < h => TrackerModel {
                seen,
                out_of_order: (t.out_of_order + 1) as u64,
                ..base
            },
            _ => TrackerModel { seen, highest_frame_id: Some(frame_id), ..base },
        }
    }
}

/// Recording keeps the counters consistent.
pub proof fn lemma_recorded_keeps_wf(t: TrackerModel, frame_id: u64, at: u128)
    requires
        tracker_wf(t),
        t.received < u64::MAX,
    ensures
        tracker_wf(recorded(t, frame_id, at)),
{
    let r = recorded(t, frame_id, at);
    if !t.seen.contains(frame_id) {
        assert(r.seen.len() == t.seen.len() + 1);
        match t.highest_frame_id {
            Some(h) => {
                assert(t.seen.contains(h));
                if frame_id < h {
                    assert(t.seen.len() > 0);
                } else {
                    assert forall|f: u64| #[trigger] r.seen.contains(f) implies f <= frame_id by {
                        if f != frame_id {
                            assert(t.seen.contains(f));
                        }
                    }
                }
            },
            None => {
                assert forall|f: u64| #[trigger] r.seen.contains(f) implies f <= frame_id by {
                    if f != frame_id {
                        assert(t.seen.contains(f));
                        assert(t.seen.len() == 0);
                    }
                }
            },
        }
    }
}

/// The tracker after recording `ids[k]` at `times[k]`, in order.
pub open spec fn recorded_all(t: TrackerModel, ids: Seq<u64>, times: Seq<u128>) -> TrackerModel
    decreases ids.len(),
{
    if ids.len() == 0 || times.len() == 0 {
        t
    } else {
        recorded(
            recorded_all(t, ids.drop_last(), times.drop_last()),
            ids.last(),
            times.last(),
        )
    }
}

/// After any sequence of recordings from a new tracker, the number received
/// is the number of recordings, the ids seen are exactly the ids recorded,
/// every reception is either a first sighting or a duplicate, and at most
/// all but the first distinct frame arrived out of order.
pub proof fn lemma_record_history(ids: Seq<u64>, times: Seq<u128>)
    requires
        ids.len() == times.len(),
        ids.len() <= u64::MAX,
    ensures
        ({
            let t = recorded_all(empty_tracker(), ids, times);
            &&& tracker_wf(t)
            &&& t.received == ids.len()
            &&& forall|f: u64| t.seen.contains(f) <==> ids.contains(f)
            &&& t.received == t.seen.len() + t.duplicates
            &&& t.seen.len() > 0 ==> t.out_of_order + 1 <= t.seen.len()
        }),
    decreases ids.len(),
{
    let t = recorded_all(empty_tracker(), ids, times);
    if ids.len() == 0 {
        assert(empty_tracker().seen =~= Set::<u64>::empty());
        assert forall|f: u64| t.seen.contains(f) <==> ids.contains(f) by {
            if ids.contains(f) {
                let k = choose|k: int| 0 <= k < ids.len() && ids[k] == f;
            }
        }
    } else {
        let prefix = ids.drop_last();
        lemma_record_history(prefix, times.drop_last());
        let p = recorded_all(empty_tracker(), prefix, times.drop_last());
        lemma_recorded_keeps_wf(p, ids.last(), times.last());
        assert forall|f: u64| t.seen.contains(f) <==> ids.contains(f) by {
            if ids.contains(f) {
                let k = choose|k: int| 0 <= k < ids.len() && ids[k] == f;
                if k < ids.len() - 1 {
                    assert(prefix[k] == f);
                    assert(prefix.contains(f));
                }
            }
            if prefix.contains(f) {
                let k = choose|k: int| 0 <= k < prefix.len() && prefix[k] == f;
                assert(ids[k] == f);
            }
            if f == ids.last() {
                assert(ids[ids.len() - 1] == f);
            }
        }
    }
}

/// The largest gap between two consecutive times of `times`, zero for fewer
/// than two.
pub open spec fn largest_gap(times: Seq<u128>) -> u128
    decreases times.len(),
{
    if times.len() < 2 {
        0
    } else {
        let before = largest_gap(times.drop_last());
        let last = gap(times[times.len() - 2], times.last());
        if last > before {
            last
        } else {
            before
        }
    }
}

/// Every reception counts for timing, duplicates included: after any
/// sequence of recordings from a new tracker, the last reception time is
/// the time of the last recording, and the largest receive gap is the
/// largest gap between consecutive recordings.
pub proof fn lemma_record_timing(ids: Seq<u64>, times: Seq<u128>)
    requires
        ids.len() == times.len(),
    ensures
        ({
            let t = recorded_all(empty_tracker(), ids, times);
            &&& times.len() == 0 ==> t.last_received_at is None
            &&& times.len() > 0 ==> t.last_received_at == Some(times.last())
            &&& t.largest_receive_gap == largest_gap(times)
        }),
    decreases ids.len(),
{
    if ids.len() > 0 {
        let pi = ids.drop_last();
        let pt = times.drop_last();
        lemma_record_timing(pi, pt);
        if pt.len() > 0 {
            assert(pt.last() == times[times.len() - 2]);
        }
    }
}

/// Frames below the highest id that never arrived.
pub open spec fn missing_in_range(t: TrackerModel) -> int {
    match t.highest_frame_id {
        None => 0,
        Some(h) => if h + 1 >= t.seen.len() {
            h + 1 - t.seen.len()
        } else {
            0
        },
    }
}

/// The frame ids below `expected` that were never received.
pub open spec fn missing_ids(t: TrackerModel, expected: nat) -> Set<u64> {
    Set::new(|f: u64| f < expected && !t.seen.contains(f))
}

/// The ids below `n` missing from `seen` grow by `n` itself when `n` is
/// missing.
proof fn lemma_missing_ids_step(t: TrackerModel, n: u64)
    requires
        missing_ids(t, n as nat).finite(),
    ensures
        missing_ids(t, (n + 1) as nat).finite(),
        missing_ids(t, (n + 1) as nat).len() == missing_ids(t, n as nat).len() + if t.seen.contains(n) {
            0int
        } else {
            1int
        },
{
    if t.seen.contains(n) {
        assert(missing_ids(t, (n + 1) as nat) =~= missing_ids(t, n as nat));
    } else {
        assert(missing_ids(t, (n + 1) as nat) =~= missing_ids(t, n as nat).insert(n));
    }
}

impl FrameTracker {
    /// The tracker's counters are consistent.
    #[verifier::type_invariant]
    spec fn wf(&self) -> bool {
        tracker_wf(self@)
    }


    /// A tracker that has recorded nothing.
    pub fn new() -> (r: FrameTracker)
        ensures
            r@ == empty_tracker(),
    {
        let r = FrameTracker {
            received: 0,
            seen: HashSet::new(),
            highest_frame_id: None,
            out_of_order: 0,
            duplicates: 0,
            last_received_at: None,
            largest_receive_gap: 0,
        };
        assert(r@.seen =~= Set::<u64>::empty());
        r
    }

    /// Records the reception of frame `frame_id` at time `received_at`.
    pub fn record(&mut self, frame_id: u64, received_at: u128)
        requires
            old(self)@.received < u64::MAX,
        ensures
            final(self)@ == recorded(old(self)@, frame_id, received_at),
            tracker_wf(final(self)@),
            final(self)@.received == old(self)@.received + 1,
            final(self)@.last_received_at == Some(received_at),
            final(self)@.largest_receive_gap == match old(self)@.last_received_at {
                Some(previous) => if gap(previous, received_at) > old(
                    self,
                )@.largest_receive_gap {
                    gap(previous, received_at)
                } else {
                    old(self)@.largest_receive_gap
                },
                None => old(self)@.largest_receive_gap,
            },
    {
        proof {
            use_type_invariant(&*self);
            lemma_recorded_keeps_wf(self@, frame_id, received_at);
        }
        let ghost t = self@;
        let mut current = FrameTracker::new();
        std::mem::swap(&mut current, self);
        let FrameTracker {
            received,
            mut seen,
            mut highest_frame_id,
            mut out_of_order,
            mut duplicates,
            last_received_at,
            mut largest_receive_gap,
        } = current;
        if let Some(previous) = last_received_at {
            let gap = received_at.saturating_sub(previous);
            if gap > largest_receive_gap {
                largest_receive_gap = gap;
            }
        }
        if !seen.insert(frame_id) {
            duplicates = duplicates + 1;
            assert(seen@ =~= t.seen);
        } else {
            match highest_frame_id {
                None => {
                    highest_frame_id = Some(frame_id);
                },
                Some(highest) => {
                    if frame_id < highest {
                        out_of_order = out_of_order + 1;
                    } else {
                        highest_frame_id = Some(frame_id);
                    }
                },
            }
        }
        *self = FrameTracker {
            received: received + 1,
            seen,
            highest_frame_id,
            out_of_order,
            duplicates,
            last_received_at: Some(received_at),
            largest_receive_gap,
        };
    }

    /// Frames between 0 and the highest id received that never arrived.
    pub fn missing_within_observed_range(&self) -> (r: u64)
        ensures
            r == missing_in_range(self@),
    {
        proof {
            use_type_invariant(self);
        }
        match self.highest_frame_id {
            None => 0,
            Some(highest) => {
                let unique = self.seen.len() as u128;
                let top = highest as u128 + 1;
                if top >= unique {
                    (top - unique) as u64
                } else {
                    0
                }
            },
        }
    }

    /// Number of frame ids in `0..expected` that were never received.
    pub fn missing_from_expected(&self, expected: u64) -> (r: u64)
        ensures
            missing_ids(self@, expected as nat).finite(),
            r == missing_ids(self@, expected as nat).len(),
    {
        let mut missing: u64 = 0;
        let mut next: u64 = 0;
        proof {
            assert(missing_ids(self@, 0) =~= Set::<u64>::empty());
        }
        while next < expected
            invariant
                next <= expected,
                missing <= next,
                missing_ids(self@, next as nat).finite(),
                missing == missing_ids(self@, next as nat).len(),
            decreases expected - next,
        {
            proof {
                lemma_missing_ids_step(self@, next);
            }
            if !self.seen.contains(&next) {
                missing = missing + 1;
            }
            next = next + 1;
        }
        missing
    }

    /// Every frame id in `0..expected` was received.
    pub fn has_received_all_expected(&self, expected: u64) -> (r: bool)
        ensures
            r == (missing_ids(self@, expected as nat).len() == 0),
            r == forall|f: u64| f < expected ==> #[trigger] self@.seen.contains(f),
    {
        let missing = self.missing_from_expected(expected);
        proof {
            if missing == 0 {
                assert forall|f: u64| f < expected implies #[trigger] self@.seen.contains(f) by {
                    if !self@.seen.contains(f) {
                        assert(missing_ids(self@, expected as nat).contains(f));
                    }
                }
            } else {
                let f = missing_ids(self@, expected as nat).choose();
                assert(missing_ids(self@, expected as nat).contains(f));
            }
        }
        missing == 0
    }

    /// The current statistics.
    pub fn summary(&self) -> (r: FrameSummary)
        ensures
            tracker_wf(self@),
            r.received == self@.received,
            r.unique == self@.seen.len(),
            r.missing_within_observed_range == missing_in_range(self@),
            r.out_of_order == self@.out_of_order,
            r.duplicates == self@.duplicates,
            r.largest_receive_gap == self@.largest_receive_gap,
    {
        proof {
            use_type_invariant(self);
        }
        FrameSummary {
            received: self.received,
            unique: self.seen.len() as u64,
            missing_within_observed_range: self.missing_within_observed_range(),
            out_of_order: self.out_of_order,
            duplicates: self.duplicates,
            largest_receive_gap: self.largest_receive_gap,
        }
    }
}

impl Default for FrameTracker {
    fn default() -> (r: FrameTracker)
        ensures
            r@ == empty_tracker(),
    {
        FrameTracker::new()
    }
}

} // verus!
