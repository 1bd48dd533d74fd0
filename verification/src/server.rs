//! Decisions of the receiving server for one transport session: the HELLO
//! handshake, each media datagram, and the closing DONE. The server's I/O
//! (QUIC streams, datagram reception, preview publishing, logging) stays
//! with the caller.

use crate::control::{
    acknowledgement, done_acknowledgement, done_fields, hello_fields, identity_line, parse_done,
    parse_hello, uuid_parsed, word_done_ok, word_ok, ControlError,
};
use crate::frame_assembler::{
    joined, push_model, AssemblyError, CompletedFrame, FrameAssembler, PartialFrameModel, PushModel,
};
use crate::frame_tracker::{empty_tracker, missing_ids, missing_in_range, recorded, FrameSummary, FrameTracker, TrackerModel};
use crate::ids::same_id;
use crate::jpeg::{decode_jpeg_rgb8, jpeg_rgb8};
use crate::media::{decode_error, decoded_fields, MediaDatagram, MediaError};
use crate::test_pattern::{TEST_FRAME_HEIGHT, TEST_FRAME_WIDTH};
use crate::text::tokens;
use vstd::prelude::*;

verus! {

/// Why a reassembled frame is not a valid test frame.
#[derive(Debug, Clone, Copy, PartialEq, Eq, Structural)]
pub enum JpegFrameError {
    /// The bytes are not a JPEG the decoder accepts.
    InvalidJpeg,
    /// The JPEG does not have the test pattern's dimensions.
    UnexpectedDimensions(u32, u32),
}

/// The outcome of checking a frame: its dimensions, or why it is refused.
pub open spec fn jpeg_frame_check(bytes: Seq<u8>) -> Result<(u32, u32), JpegFrameError> {
    match jpeg_rgb8(bytes) {
        None => Err(JpegFrameError::InvalidJpeg),
        Some((w, h, _)) => if w == TEST_FRAME_WIDTH && h == TEST_FRAME_HEIGHT {
            Ok((w, h))
        } else {
            Err(JpegFrameError::UnexpectedDimensions(w, h))
        },
    }
}

/// Checks that `bytes` are a JPEG with the test pattern's dimensions.
pub fn validate_jpeg_frame(bytes: &[u8]) -> (r: Result<(u32, u32), JpegFrameError>)
    ensures
        r == jpeg_frame_check(bytes@),
{
    let decoded = match decode_jpeg_rgb8(bytes) {
        Ok(d) => d,
        Err(_) => {
            return Err(JpegFrameError::InvalidJpeg);
        },
    };
    if decoded.width != TEST_FRAME_WIDTH || decoded.height != TEST_FRAME_HEIGHT {
        return Err(JpegFrameError::UnexpectedDimensions(decoded.width, decoded.height));
    }
    Ok((decoded.width, decoded.height))
}

/// Why a DONE was refused.
#[derive(Debug, Clone, Copy, PartialEq, Eq, Structural)]
pub enum DoneError {
    /// The message is not a valid DONE.
    Malformed(ControlError),
    /// The DONE names another session.
    SessionMismatch,
}

/// What happened to one received datagram.
#[derive(Debug)]
pub enum DatagramOutcome {
    /// The datagram is not a valid media datagram.
    Invalid(MediaError),
    /// The datagram belongs to another session (its frame id is given).
    SessionMismatch(u64),
    /// The chunk was stored; its frame is still incomplete.
    Pending,
    /// The chunk was refused by its frame.
    ReassemblyFailed(AssemblyError),
    /// The chunk completed a frame that is not a valid test frame.
    FrameInvalid(CompletedFrame, JpegFrameError),
    /// The chunk completed a valid frame of these dimensions, which was
    /// recorded.
    Reassembled(CompletedFrame, u32, u32),
}

/// The receiving side of one transport session.
#[derive(Debug)]
pub struct ServerSession {
    media_run_id: [u8; 16],
    session_id: [u8; 16],
    assembler: FrameAssembler,
    tracker: FrameTracker,
}

impl ServerSession {
    pub closed spec fn spec_media_run_id(&self) -> Seq<u8> {
        self.media_run_id@
    }

    pub closed spec fn spec_session_id(&self) -> Seq<u8> {
        self.session_id@
    }

    pub closed spec fn spec_frames(&self) -> Map<u64, PartialFrameModel> {
        self.assembler.frames()
    }

    pub closed spec fn spec_tracker(&self) -> TrackerModel {
        self.tracker@
    }

    /// Accepts a HELLO: the session of its identities, with nothing received
    /// yet, and the acknowledgement to send back.
    pub fn accept_hello(request: &str) -> (r: Result<(ServerSession, String), ControlError>)
        ensures
            match hello_fields(tokens(request@)) {
                Err(e) => r == Err::<(ServerSession, String), ControlError>(e),
                Ok((x, y)) => match (uuid_parsed(x), uuid_parsed(y)) {
                    (None, _) => r == Err::<(ServerSession, String), ControlError>(
                        ControlError::InvalidMediaRunId,
                    ),
                    (Some(_), None) => r == Err::<(ServerSession, String), ControlError>(
                        ControlError::InvalidSessionId,
                    ),
                    (Some(a), Some(b)) => r matches Ok((s, ack)) && s.spec_media_run_id() == a
                        && s.spec_session_id() == b && s.spec_frames().dom().len() == 0
                        && s.spec_tracker() == empty_tracker() && ack@ == identity_line(word_ok(), a, b)
                        + seq!['\n'],
                },
            },
    {
        let hello = parse_hello(request)?;
        let ack = acknowledgement(hello.media_run_id, hello.session_id);
        let session = ServerSession {
            media_run_id: hello.media_run_id,
            session_id: hello.session_id,
            assembler: FrameAssembler::new(),
            tracker: FrameTracker::new(),
        };
        Ok((session, ack))
    }

    /// The session's identity.
    pub fn session_id(&self) -> (r: [u8; 16])
        ensures
            r@ == self.spec_session_id(),
    {
        self.session_id
    }

    /// The media run's identity.
    pub fn media_run_id(&self) -> (r: [u8; 16])
        ensures
            r@ == self.spec_media_run_id(),
    {
        self.media_run_id
    }

    /// Handles one received datagram: decodes it, drops it if it belongs to
    /// another session, adds it to its frame, and when the frame completes
    /// checks it is a valid test frame and records it at `received_at`.
    pub fn on_datagram(&mut self, bytes: &[u8], received_at: u128) -> (r: DatagramOutcome)
        requires
            old(self).spec_tracker().received < u64::MAX,
        ensures
            final(self).spec_session_id() == old(self).spec_session_id(),
            final(self).spec_media_run_id() == old(self).spec_media_run_id(),
            match decode_error(bytes@) {
                Some(e) => {
                    &&& r matches DatagramOutcome::Invalid(e2) && e2 == e
                    &&& final(self).spec_frames() == old(self).spec_frames()
                    &&& final(self).spec_tracker() == old(self).spec_tracker()
                },
                None => {
                    let f = decoded_fields(bytes@);
                    if f.0 != old(self).spec_session_id() {
                        &&& r matches DatagramOutcome::SessionMismatch(id) && id == f.1
                        &&& final(self).spec_frames() == old(self).spec_frames()
                        &&& final(self).spec_tracker() == old(self).spec_tracker()
                    } else {
                        datagram_accepted(*old(self), *final(self), f, received_at, r)
                    }
                },
            },
    {
        let media = match MediaDatagram::decode(bytes) {
            Ok(m) => m,
            Err(e) => {
                return DatagramOutcome::Invalid(e);
            },
        };
        if !same_id(&media.session_id, &self.session_id) {
            return DatagramOutcome::SessionMismatch(media.frame_id);
        }
        let ghost m = media;
        assert(carries_fields(m, decoded_fields(bytes@)));
        match self.assembler.push(media) {
            Err(e) => DatagramOutcome::ReassemblyFailed(e),
            Ok(None) => DatagramOutcome::Pending,
            Ok(Some(frame)) => {
                match validate_jpeg_frame(frame.bytes.as_slice()) {
                    Err(e) => DatagramOutcome::FrameInvalid(frame, e),
                    Ok((width, height)) => {
                        self.tracker.record(frame.frame_id, received_at);
                        DatagramOutcome::Reassembled(frame, width, height)
                    },
                }
            },
        }
    }

    /// Accepts the DONE of this session: the number of frames the run sent.
    pub fn on_done(&self, request: &str) -> (r: Result<u64, DoneError>)
        ensures
            match done_fields(tokens(request@)) {
                Err(e) => r == Err::<u64, DoneError>(DoneError::Malformed(e)),
                Ok((x, y, z)) => match (uuid_parsed(x), uuid_parsed(y), crate::text::parse_decimal(z)) {
                    (None, _, _) => r == Err::<u64, DoneError>(
                        DoneError::Malformed(ControlError::InvalidMediaRunId),
                    ),
                    (Some(_), None, _) => r == Err::<u64, DoneError>(
                        DoneError::Malformed(ControlError::InvalidSessionId),
                    ),
                    (Some(_), Some(b), Some(n)) if n <= u64::MAX => if b == self.spec_session_id() {
                        r == Ok::<u64, DoneError>(n as u64)
                    } else {
                        r == Err::<u64, DoneError>(DoneError::SessionMismatch)
                    },
                    _ => r == Err::<u64, DoneError>(
                        DoneError::Malformed(ControlError::InvalidFinalFrame),
                    ),
                },
            },
    {
        let done = match parse_done(request) {
            Ok(d) => d,
            Err(e) => {
                return Err(DoneError::Malformed(e));
            },
        };
        if !same_id(&done.session_id, &self.session_id) {
            return Err(DoneError::SessionMismatch);
        }
        Ok(done.final_frame_exclusive)
    }

    /// The acknowledgement of the DONE: `DONE_OK <media_run_id> <session_id>`.
    pub fn done_response(&self) -> (r: String)
        ensures
            r@ == identity_line(word_done_ok(), self.spec_media_run_id(), self.spec_session_id())
                + seq!['\n'],
    {
        done_acknowledgement(self.media_run_id, self.session_id)
    }

    /// The receive statistics.
    pub fn summary(&self) -> (r: FrameSummary)
        ensures
            r.received == self.spec_tracker().received,
            r.unique == self.spec_tracker().seen.len(),
            r.out_of_order == self.spec_tracker().out_of_order,
            r.duplicates == self.spec_tracker().duplicates,
            r.largest_receive_gap == self.spec_tracker().largest_receive_gap,
            r.missing_within_observed_range == missing_in_range(self.spec_tracker()),
    {
        self.tracker.summary()
    }

    /// Number of frame ids in `0..expected` whose frame was never recorded.
    pub fn missing_from_expected(&self, expected: u64) -> (r: u64)
        ensures
            r == missing_ids(self.spec_tracker(), expected as nat).len(),
    {
        self.tracker.missing_from_expected(expected)
    }

    /// Every frame id in `0..expected` was recorded.
    pub fn has_received_all_expected(&self, expected: u64) -> (r: bool)
        ensures
            r == forall|f: u64| f < expected ==> #[trigger] self.spec_tracker().seen.contains(f),
    {
        self.tracker.has_received_all_expected(expected)
    }

    /// Number of frames still waiting for chunks.
    pub fn incomplete_frame_count(&self) -> (r: usize)
        ensures
            r == self.spec_frames().dom().len(),
    {
        self.assembler.incomplete_frame_count()
    }
}

/// `m` is the chunk whose decoded fields are `f`.
pub open spec fn carries_fields(m: MediaDatagram, f: (Seq<u8>, nat, nat, nat, nat, Seq<u8>)) -> bool {
    &&& m.session_id@ == f.0
    &&& m.frame_id == f.1
    &&& m.sent_at_ms == f.2
    &&& m.chunk_index == f.3
    &&& m.chunk_count == f.4
    &&& m.payload@ == f.5
}

/// The effect of a datagram of this session whose decoded fields are `f`:
/// the chunk goes to its frame; a frame it completes is recorded when it is
/// a valid test frame.
pub open spec fn datagram_accepted(
    old_s: ServerSession,
    new_s: ServerSession,
    f: (Seq<u8>, nat, nat, nat, nat, Seq<u8>),
    received_at: u128,
    r: DatagramOutcome,
) -> bool {
    exists|m: MediaDatagram| #[trigger]
        carries_fields(m, f) && chunk_accepted(old_s, new_s, m, received_at, r)
}

/// The effect of the chunk `m` of this session.
pub open spec fn chunk_accepted(
    old_s: ServerSession,
    new_s: ServerSession,
    m: MediaDatagram,
    received_at: u128,
    r: DatagramOutcome,
) -> bool {
    let k = m.frame_id;
    let current = if old_s.spec_frames().dom().contains(k) {
        Some(old_s.spec_frames()[k])
    } else {
        None
    };
    match push_model(current, m) {
        PushModel::Rejected(e, p) => {
            &&& r matches DatagramOutcome::ReassemblyFailed(e2) && e2 == e
            &&& new_s.spec_frames() == old_s.spec_frames().insert(k, p)
            &&& new_s.spec_tracker() == old_s.spec_tracker()
        },
        PushModel::Pending(q) => {
            &&& r matches DatagramOutcome::Pending
            &&& new_s.spec_frames() == old_s.spec_frames().insert(k, q)
            &&& new_s.spec_tracker() == old_s.spec_tracker()
        },
        PushModel::Completed(q) => {
            &&& new_s.spec_frames() == old_s.spec_frames().remove(k)
            &&& match jpeg_frame_check(joined(q.chunks)) {
                Err(e) => r matches DatagramOutcome::FrameInvalid(frame, e2) && e2 == e
                    && frame.session_id@ == q.session_id && frame.frame_id == q.frame_id
                    && frame.sent_at_ms == q.sent_at_ms && frame.bytes@ == joined(q.chunks)
                    && new_s.spec_tracker() == old_s.spec_tracker(),
                Ok((w, h)) => r matches DatagramOutcome::Reassembled(frame, w2, h2) && w2 == w
                    && h2 == h && frame.session_id@ == q.session_id && frame.frame_id == q.frame_id
                    && frame.sent_at_ms == q.sent_at_ms && frame.bytes@ == joined(q.chunks)
                    && new_s.spec_tracker() == recorded(old_s.spec_tracker(), q.frame_id, received_at),
            }
        },
    }
}

} // verus!
