//! Receiver-side reassembly of frames from their chunks.

use crate::ids::{append_bytes, same_id};
use crate::media::{
    concat_payloads, is_fragmentation, lemma_fragments_reconstruct_frame, MediaDatagram,
};
use std::collections::HashMap;
use vstd::prelude::*;

verus! {

broadcast use vstd::std_specs::hash::group_hash_axioms;

/// Why a chunk could not be added to a frame, or a frame not reassembled.
#[derive(Debug, Clone, Copy, PartialEq, Eq, Structural)]
pub enum AssemblyError {
    /// The chunk belongs to another session.
    SessionMismatch,
    /// The chunk belongs to another frame.
    FrameMismatch,
    /// The chunk carries another send timestamp.
    TimestampMismatch,
    /// The chunk announces another chunk count.
    ChunkCountMismatch,
    /// The chunk index is outside the frame's chunks.
    ChunkIndexOutOfRange,
    /// Some chunk of the frame has not arrived.
    Incomplete,
}

/// A frame whose chunks are being collected.
#[derive(Debug)]
pub struct PartialFrame {
    session_id: [u8; 16],
    frame_id: u64,
    sent_at_ms: u64,
    chunk_count: u16,
    chunks: Vec<Option<Vec<u8>>>,
}

/// The abstract state of a partial frame: its metadata and, per chunk
/// slot, the payload received for it, if any.
pub struct PartialFrameModel {
    pub session_id: Seq<u8>,
    pub frame_id: u64,
    pub sent_at_ms: u64,
    pub chunk_count: u16,
    pub chunks: Seq<Option<Seq<u8>>>,
}

pub open spec fn slot_view(c: Option<Vec<u8>>) -> Option<Seq<u8>> {
    match c {
        Some(v) => Some(v@),
        None => None,
    }
}

impl View for PartialFrame {
    type V = PartialFrameModel;

    closed spec fn view(&self) -> PartialFrameModel {
        PartialFrameModel {
            session_id: self.session_id@,
            frame_id: self.frame_id,
            sent_at_ms: self.sent_at_ms,
            chunk_count: self.chunk_count,
            chunks: self.chunks@.map_values(|c: Option<Vec<u8>>| slot_view(c)),
        }
    }
}

/// The partial frame opened by the first chunk `media` of a frame: its
/// metadata and `chunk_count` empty slots.
pub open spec fn fresh_frame(media: MediaDatagram) -> PartialFrameModel {
    PartialFrameModel {
        session_id: media.session_id@,
        frame_id: media.frame_id,
        sent_at_ms: media.sent_at_ms,
        chunk_count: media.chunk_count,
        chunks: Seq::new(media.chunk_count as nat, |i: int| None),
    }
}

/// The error that adding `media` to `p` reports, if any; checks run in the
/// order session, frame, timestamp, chunk count, index.
pub open spec fn insert_error(p: PartialFrameModel, media: MediaDatagram) -> Option<AssemblyError> {
    if media.session_id@ != p.session_id {
        Some(AssemblyError::SessionMismatch)
    } else if media.frame_id != p.frame_id {
        Some(AssemblyError::FrameMismatch)
    } else if media.sent_at_ms != p.sent_at_ms {
        Some(AssemblyError::TimestampMismatch)
    } else if media.chunk_count != p.chunk_count {
        Some(AssemblyError::ChunkCountMismatch)
    } else if media.chunk_index >= p.chunks.len() {
        Some(AssemblyError::ChunkIndexOutOfRange)
    } else {
        None
    }
}

/// `p` after accepting `media`: an empty slot takes the payload; a filled
/// slot keeps the payload that arrived first.
pub open spec fn inserted(p: PartialFrameModel, media: MediaDatagram) -> PartialFrameModel {
    let i = media.chunk_index as int;
    if p.chunks[i] is None {
        PartialFrameModel { chunks: p.chunks.update(i, Some(media.payload@)), ..p }
    } else {
        p
    }
}

/// Every chunk slot of `p` is filled.
pub open spec fn frame_complete(p: PartialFrameModel) -> bool {
    forall|i: int| 0 <= i < p.chunks.len() ==> (#[trigger] p.chunks[i]) is Some
}

/// The payloads of the filled slots, in index order.
pub open spec fn joined(chunks: Seq<Option<Seq<u8>>>) -> Seq<u8>
    decreases chunks.len(),
{
    if chunks.len() == 0 {
        Seq::empty()
    } else {
        joined(chunks.drop_last()) + match chunks.last() {
            Some(b) => b,
            None => Seq::empty(),
        }
    }
}

/// The partial frame has one slot per announced chunk.
pub open spec fn frame_wf(p: PartialFrameModel) -> bool {
    p.chunks.len() == p.chunk_count
}

/// `p` holds, in each filled slot, the payload of the chunk of `chunks` with
/// that index, and carries the metadata of those chunks.
pub open spec fn consistent_with(p: PartialFrameModel, chunks: Seq<MediaDatagram>) -> bool {
    &&& chunks.len() > 0
    &&& p.session_id == chunks[0].session_id@
    &&& p.frame_id == chunks[0].frame_id
    &&& p.sent_at_ms == chunks[0].sent_at_ms
    &&& p.chunk_count == chunks[0].chunk_count
    &&& p.chunks.len() == chunks.len()
    &&& forall|i: int|
        0 <= i < chunks.len() ==> (#[trigger] p.chunks[i]) is None || p.chunks[i] == Some(
            chunks[i].payload@,
        )
}

/// Accepting a chunk keeps every payload already received and the frame's
/// metadata, fills the chunk's own slot with its payload when that slot was
/// empty, and touches no other slot: a duplicate leaves the frame as it was.
pub proof fn lemma_insert_keeps_received(p: PartialFrameModel, media: MediaDatagram)
    requires
        insert_error(p, media) is None,
    ensures
        ({
            let q = inserted(p, media);
            let i = media.chunk_index as int;
            &&& q.session_id == p.session_id && q.frame_id == p.frame_id
            &&& q.sent_at_ms == p.sent_at_ms && q.chunk_count == p.chunk_count
            &&& q.chunks.len() == p.chunks.len()
            &&& forall|k: int| 0 <= k < p.chunks.len() && k != i ==> q.chunks[k] == p.chunks[k]
            &&& p.chunks[i] is Some ==> q == p
            &&& p.chunks[i] is None ==> q.chunks[i] == Some(media.payload@)
        }),
{
}

/// The frame opened by any chunk of a fragmented frame is consistent with
/// the fragmentation.
pub proof fn lemma_fresh_frame_consistent(
    chunks: Seq<MediaDatagram>,
    session_id: Seq<u8>,
    frame_id: u64,
    sent_at_ms: u64,
    frame: Seq<u8>,
    m: nat,
    j: int,
)
    requires
        is_fragmentation(chunks, session_id, frame_id, sent_at_ms, frame, m),
        0 <= j < chunks.len(),
    ensures
        consistent_with(fresh_frame(chunks[j]), chunks),
{
    assert(chunks[0].chunk_count == chunks.len());
}

/// Any chunk of a fragmented frame, delivered in any order and any number of
/// times, is accepted by a partial frame consistent with the fragmentation;
/// the frame stays consistent and the chunk's slot is filled.
pub proof fn lemma_insert_keeps_consistent(
    p: PartialFrameModel,
    chunks: Seq<MediaDatagram>,
    session_id: Seq<u8>,
    frame_id: u64,
    sent_at_ms: u64,
    frame: Seq<u8>,
    m: nat,
    j: int,
)
    requires
        is_fragmentation(chunks, session_id, frame_id, sent_at_ms, frame, m),
        consistent_with(p, chunks),
        0 <= j < chunks.len(),
    ensures
        insert_error(p, chunks[j]) is None,
        consistent_with(inserted(p, chunks[j]), chunks),
        inserted(p, chunks[j]).chunks[j] is Some,
{
    assert(chunks[0].chunk_count == chunks.len());
}

proof fn lemma_joined_filled(slots: Seq<Option<Seq<u8>>>, chunks: Seq<MediaDatagram>)
    requires
        slots.len() == chunks.len(),
        forall|i: int| 0 <= i < chunks.len() ==> slots[i] == Some(#[trigger] chunks[i].payload@),
    ensures
        joined(slots) == concat_payloads(chunks),
    decreases chunks.len(),
{
    if chunks.len() > 0 {
        let s2 = slots.drop_last();
        let c2 = chunks.drop_last();
        assert forall|i: int| 0 <= i < c2.len() implies s2[i] == Some(#[trigger] c2[i].payload@) by {
            assert(slots[i] == Some(chunks[i].payload@));
        }
        lemma_joined_filled(s2, c2);
        assert(slots.last() == Some(chunks.last().payload@));
    }
}

/// A complete partial frame consistent with the fragmentation of `frame`
/// reassembles to exactly `frame`.
pub proof fn lemma_complete_frame_is_original(
    p: PartialFrameModel,
    chunks: Seq<MediaDatagram>,
    session_id: Seq<u8>,
    frame_id: u64,
    sent_at_ms: u64,
    frame: Seq<u8>,
    m: nat,
)
    requires
        m > 0,
        frame.len() > 0,
        is_fragmentation(chunks, session_id, frame_id, sent_at_ms, frame, m),
        consistent_with(p, chunks),
        frame_complete(p),
    ensures
        joined(p.chunks) == frame,
{
    assert forall|i: int| 0 <= i < chunks.len() implies p.chunks[i] == Some(
        #[trigger] chunks[i].payload@,
    ) by {
        assert(p.chunks[i] is Some);
    }
    lemma_joined_filled(p.chunks, chunks);
    lemma_fragments_reconstruct_frame(chunks, session_id, frame_id, sent_at_ms, frame, m);
}

impl PartialFrame {
    /// Opens a partial frame with the metadata of `media` and no chunk yet.
    pub fn new(media: &MediaDatagram) -> (r: PartialFrame)
        ensures
            r@ == fresh_frame(*media),
    {
        let n = media.chunk_count as usize;
        let mut chunks: Vec<Option<Vec<u8>>> = Vec::new();
        let mut i: usize = 0;
        while i < n
            invariant
                i <= n,
                n == media.chunk_count,
                chunks@.len() == i,
                forall|j: int| 0 <= j < i ==> (#[trigger] chunks@[j]) is None,
            decreases n - i,
        {
            chunks.push(None);
            i = i + 1;
        }
        let r = PartialFrame {
            session_id: media.session_id,
            frame_id: media.frame_id,
            sent_at_ms: media.sent_at_ms,
            chunk_count: media.chunk_count,
            chunks,
        };
        assert(r@.chunks =~= fresh_frame(*media).chunks);
        r
    }

    fn validate_metadata(&self, media: &MediaDatagram) -> (r: Result<(), AssemblyError>)
        ensures
            match insert_error(self@, *media) {
                Some(AssemblyError::ChunkIndexOutOfRange) | None => r is Ok,
                Some(e) => r == Err::<(), AssemblyError>(e),
            },
    {
        if !same_id(&media.session_id, &self.session_id) {
            return Err(AssemblyError::SessionMismatch);
        }
        if media.frame_id != self.frame_id {
            return Err(AssemblyError::FrameMismatch);
        }
        if media.sent_at_ms != self.sent_at_ms {
            return Err(AssemblyError::TimestampMismatch);
        }
        if media.chunk_count != self.chunk_count {
            return Err(AssemblyError::ChunkCountMismatch);
        }
        Ok(())
    }

    /// Adds a chunk of this frame. A chunk whose slot is already filled is
    /// accepted and ignored.
    pub fn insert(&mut self, media: MediaDatagram) -> (r: Result<(), AssemblyError>)
        ensures
            match insert_error(old(self)@, media) {
                Some(e) => r == Err::<(), AssemblyError>(e) && final(self)@ == old(self)@,
                None => r is Ok && final(self)@ == inserted(old(self)@, media),
            },
            final(self)@.chunks.len() == old(self)@.chunks.len(),
            forall|k: int|
                0 <= k < old(self)@.chunks.len() && (old(self)@.chunks[k] is Some || k
                    != media.chunk_index) ==> #[trigger] final(self)@.chunks[k] == old(
                    self,
                )@.chunks[k],
            r is Ok ==> final(self)@.chunks[media.chunk_index as int] is Some,
    {
        self.validate_metadata(&media)?;
        let index = media.chunk_index as usize;
        if index >= self.chunks.len() {
            return Err(AssemblyError::ChunkIndexOutOfRange);
        }
        if self.chunks[index].is_none() {
            let ghost before = self@;
            self.chunks.set(index, Some(media.payload));
            assert(self@.chunks =~= inserted(before, media).chunks);
        }
        Ok(())
    }

    /// Whether every chunk of the frame has arrived.
    pub fn is_complete(&self) -> (r: bool)
        ensures
            r == frame_complete(self@),
    {
        let n = self.chunks.len();
        let mut i: usize = 0;
        while i < n
            invariant
                n == self.chunks@.len(),
                i <= n,
                forall|j: int| 0 <= j < i ==> (#[trigger] self@.chunks[j]) is Some,
            decreases n - i,
        {
            if self.chunks[i].is_none() {
                assert(self@.chunks[i as int] is None);
                return false;
            }
            i = i + 1;
        }
        true
    }

    /// The frame bytes: every chunk payload in index order.
    pub fn reassemble(&self) -> (r: Result<Vec<u8>, AssemblyError>)
        ensures
            frame_complete(self@) ==> (r matches Ok(bytes) && bytes@ == joined(self@.chunks)),
            !frame_complete(self@) ==> r == Err::<Vec<u8>, AssemblyError>(AssemblyError::Incomplete),
    {
        if !self.is_complete() {
            return Err(AssemblyError::Incomplete);
        }
        let n = self.chunks.len();
        let mut frame: Vec<u8> = Vec::new();
        let mut i: usize = 0;
        while i < n
            invariant
                n == self.chunks@.len(),
                i <= n,
                frame_complete(self@),
                frame@ == joined(self@.chunks.take(i as int)),
            decreases n - i,
        {
            assert(self@.chunks.take(i + 1).drop_last() =~= self@.chunks.take(i as int));
            assert(self@.chunks[i as int] is Some);
            match &self.chunks[i] {
                Some(bytes) => {
                    append_bytes(&mut frame, bytes.as_slice());
                },
                None => {},
            }
            i = i + 1;
        }
        assert(self@.chunks.take(n as int) =~= self@.chunks);
        Ok(frame)
    }

    /// The session the frame belongs to.
    pub fn session_id(&self) -> (r: [u8; 16])
        ensures
            r@ == self@.session_id,
    {
        self.session_id
    }
}

/// A reassembled frame.
#[derive(Debug, PartialEq, Eq)]
pub struct CompletedFrame {
    pub session_id: [u8; 16],
    pub frame_id: u64,
    pub sent_at_ms: u64,
    pub bytes: Vec<u8>,
}

/// Reassembles frames whose chunks may arrive interleaved, out of order or
/// duplicated.
#[derive(Debug)]
pub struct FrameAssembler {
    frames: HashMap<u64, PartialFrame>,
}

/// What pushing a chunk into the assembler does.
pub enum PushModel {
    /// The chunk was rejected; the frame's entry is kept (opened if new).
    Rejected(AssemblyError, PartialFrameModel),
    /// The frame is still incomplete with this new state.
    Pending(PartialFrameModel),
    /// The frame completed with this state and leaves the assembler.
    Completed(PartialFrameModel),
}

/// The effect of pushing `media` when the frame's entry is `current`.
pub open spec fn push_model(current: Option<PartialFrameModel>, media: MediaDatagram) -> PushModel {
    let p = match current {
        Some(p) => p,
        None => fresh_frame(media),
    };
    match insert_error(p, media) {
        Some(e) => PushModel::Rejected(e, p),
        None => {
            let q = inserted(p, media);
            if frame_complete(q) {
                PushModel::Completed(q)
            } else {
                PushModel::Pending(q)
            }
        },
    }
}

impl FrameAssembler {
    /// The partial frames held, by frame id.
    pub closed spec fn frames(&self) -> Map<u64, PartialFrameModel> {
        self.frames@.map_values(|p: PartialFrame| p@)
    }

    /// Every held frame is stored under its own id and has one slot per
    /// announced chunk.
    #[verifier::type_invariant]
    spec fn wf(&self) -> bool {
        forall|k: u64|
            #![trigger self.frames().dom().contains(k)]
            self.frames().dom().contains(k) ==> self.frames()[k].frame_id == k && frame_wf(
                self.frames()[k],
            )
    }

    /// An assembler holding no frame.
    pub fn new() -> (r: FrameAssembler)
        ensures
            r.frames() == Map::<u64, PartialFrameModel>::empty(),
    {
        let r = FrameAssembler { frames: HashMap::new() };
        assert(r.frames() =~= Map::<u64, PartialFrameModel>::empty());
        r
    }

    /// Adds one chunk. Returns the frame once its last missing chunk arrives;
    /// the completed frame then leaves the assembler.
    pub fn push(&mut self, media: MediaDatagram) -> (r: Result<Option<CompletedFrame>, AssemblyError>)
        ensures
            ({
                let k = media.frame_id;
                let current = if old(self).frames().dom().contains(k) {
                    Some(old(self).frames()[k])
                } else {
                    None
                };
                match push_model(current, media) {
                    PushModel::Rejected(e, p) => r == Err::<Option<CompletedFrame>, AssemblyError>(
                        e,
                    ) && final(self).frames() == old(self).frames().insert(k, p),
                    PushModel::Pending(q) => r matches Ok(None) && final(self).frames() == old(
                        self,
                    ).frames().insert(k, q),
                    PushModel::Completed(q) => r matches Ok(Some(f)) && f.session_id@
                        == q.session_id && f.frame_id == q.frame_id && f.sent_at_ms
                        == q.sent_at_ms && f.bytes@ == joined(q.chunks) && final(self).frames()
                        == old(self).frames().remove(k),
                }
            }),
    {
        proof {
            use_type_invariant(&*self);
        }
        let frame_id = media.frame_id;
        let mut frames: HashMap<u64, PartialFrame> = HashMap::new();
        std::mem::swap(&mut frames, &mut self.frames);
        let ghost old_frames = frames@;
        let mut partial = match frames.remove(&frame_id) {
            Some(p) => p,
            None => PartialFrame::new(&media),
        };
        let ghost p0 = partial@;
        assert(frames@ == old_frames.remove(frame_id));
        assert(p0.frame_id == frame_id && frame_wf(p0)) by {
            if old(self).frames().dom().contains(frame_id) {
                assert(old_frames.dom().contains(frame_id));
            }
        }
        match partial.insert(media) {
            Ok(()) => {},
            Err(e) => {
                frames.insert(frame_id, partial);
                assert(frames@.map_values(|p: PartialFrame| p@) =~= old(self).frames().insert(
                    frame_id,
                    p0,
                ));
                self.frames = frames;
                assert(self.frames() =~= old(self).frames().insert(frame_id, p0));
                return Err(e);
            },
        }
        if !partial.is_complete() {
            let ghost q = partial@;
            frames.insert(frame_id, partial);
            assert(frames@.map_values(|p: PartialFrame| p@) =~= old(self).frames().insert(
                frame_id,
                q,
            ));
            self.frames = frames;
            assert(self.frames() =~= old(self).frames().insert(frame_id, q));
            return Ok(None);
        }
        assert(frames@.map_values(|p: PartialFrame| p@) =~= old(self).frames().remove(frame_id));
        self.frames = frames;
        assert(self.frames() =~= old(self).frames().remove(frame_id));
        let bytes = match partial.reassemble() {
            Ok(b) => b,
            Err(e) => {
                return Err(e);
            },
        };
        Ok(
            Some(
                CompletedFrame {
                    session_id: partial.session_id,
                    frame_id: partial.frame_id,
                    sent_at_ms: partial.sent_at_ms,
                    bytes,
                },
            ),
        )
    }

    /// Number of frames still waiting for chunks.
    pub fn incomplete_frame_count(&self) -> (r: usize)
        ensures
            r == self.frames().dom().len(),
    {
        assert(self.frames().dom() =~= self.frames@.dom());
        self.frames.len()
    }
}

impl Default for FrameAssembler {
    fn default() -> (r: FrameAssembler)
        ensures
            r.frames() == Map::<u64, PartialFrameModel>::empty(),
    {
        FrameAssembler::new()
    }
}

} // verus!
