//! Media datagrams: the wire format of one frame chunk and the fragmentation
//! of a frame into chunks.
//!
//! Wire format (big endian):
//! `type:u8 | session_id:[u8;16] | frame_id:u64 | sent_at_ms:u64 |
//! chunk_index:u16 | chunk_count:u16 | payload`.

use crate::be::{
    append_be, be_bytes, be_value, lemma_be_bytes_len, lemma_be_bytes_of_value,
    lemma_be_value_bound, lemma_be_value_of_bytes, lemma_pow256_8, read_be,
};
use crate::ids::{append_bytes, uuid_from_slice};
use vstd::prelude::*;

verus! {

/// Type byte that opens every media datagram.
pub const MEDIA_DATAGRAM_TYPE: u8 = 0x01;

/// Size of the fixed media datagram header in bytes.
pub const MEDIA_HEADER_SIZE: usize = 37;

/// Largest number of chunks one frame may be split into.
pub const MAX_CHUNK_COUNT: usize = 65535;

/// Why a frame could not be fragmented or a datagram encoded or decoded.
#[derive(Debug, Clone, Copy, PartialEq, Eq, Structural)]
pub enum MediaError {
    /// The maximum chunk payload is zero.
    ZeroChunkPayload,
    /// The frame has no bytes.
    EmptyFrame,
    /// The frame needs more than `u16::MAX` chunks.
    TooManyChunks,
    /// The datagram says the frame has zero chunks.
    ZeroChunkCount,
    /// The chunk index is not below the chunk count.
    ChunkIndexOutOfRange,
    /// The datagram is shorter than the header.
    TooShort,
    /// The first byte is not the media datagram type.
    UnexpectedType,
}

/// One chunk of a media frame.
#[derive(Debug, Clone, PartialEq, Eq)]
pub struct MediaDatagram {
    pub session_id: [u8; 16],
    pub frame_id: u64,
    pub sent_at_ms: u64,
    pub chunk_index: u16,
    pub chunk_count: u16,
    pub payload: Vec<u8>,
}

/// `ceil(n / m)`.
pub open spec fn div_ceil(n: nat, m: nat) -> nat {
    ((n + m - 1) as nat) / m
}

/// The payload of chunk `i` when `frame` is cut into pieces of `m` bytes.
pub open spec fn chunk_payload(frame: Seq<u8>, m: nat, i: nat) -> Seq<u8> {
    let start = (i * m) as int;
    let end = if (i + 1) * m <= frame.len() {
        ((i + 1) * m) as int
    } else {
        frame.len() as int
    };
    frame.subrange(start, end)
}

/// The outcome of counting the chunks of a frame of `n` bytes with at most
/// `m` payload bytes per chunk.
pub open spec fn chunk_count_result(n: nat, m: nat) -> Result<u16, MediaError> {
    if m == 0 {
        Err(MediaError::ZeroChunkPayload)
    } else if n == 0 {
        Err(MediaError::EmptyFrame)
    } else if div_ceil(n, m) > MAX_CHUNK_COUNT {
        Err(MediaError::TooManyChunks)
    } else {
        Ok(div_ceil(n, m) as u16)
    }
}

/// `chunks` is `frame` cut into pieces of `m` bytes, each labelled with the
/// frame's metadata, its index and the total count.
pub open spec fn is_fragmentation(
    chunks: Seq<MediaDatagram>,
    session_id: Seq<u8>,
    frame_id: u64,
    sent_at_ms: u64,
    frame: Seq<u8>,
    m: nat,
) -> bool {
    &&& chunks.len() == div_ceil(frame.len(), m)
    &&& forall|i: int|
        0 <= i < chunks.len() ==> {
            &&& (#[trigger] chunks[i]).session_id@ == session_id
            &&& chunks[i].frame_id == frame_id
            &&& chunks[i].sent_at_ms == sent_at_ms
            &&& chunks[i].chunk_index == i
            &&& chunks[i].chunk_count == chunks.len()
            &&& chunks[i].payload@ == chunk_payload(frame, m, i as nat)
        }
}

/// The payloads of `chunks`, one after another.
pub open spec fn concat_payloads(chunks: Seq<MediaDatagram>) -> Seq<u8>
    decreases chunks.len(),
{
    if chunks.len() == 0 {
        Seq::empty()
    } else {
        concat_payloads(chunks.drop_last()) + chunks.last().payload@
    }
}

/// The bytes that encode a datagram.
pub open spec fn encoding(d: MediaDatagram) -> Seq<u8> {
    seq![MEDIA_DATAGRAM_TYPE] + d.session_id@ + be_bytes(d.frame_id as nat, 8) + be_bytes(
        d.sent_at_ms as nat,
        8,
    ) + be_bytes(d.chunk_index as nat, 2) + be_bytes(d.chunk_count as nat, 2) + d.payload@
}

/// The chunk index and count are consistent.
pub open spec fn well_indexed(chunk_index: u16, chunk_count: u16) -> bool {
    chunk_count > 0 && chunk_index < chunk_count
}

/// The error that encoding reports, if any.
pub open spec fn index_error(chunk_index: u16, chunk_count: u16) -> Option<MediaError> {
    if chunk_count == 0 {
        Some(MediaError::ZeroChunkCount)
    } else if chunk_index >= chunk_count {
        Some(MediaError::ChunkIndexOutOfRange)
    } else {
        None
    }
}

/// The datagram that `bytes` decode to, field by field: session, frame,
/// timestamp, index, count and payload.
pub open spec fn decoded_fields(bytes: Seq<u8>) -> (Seq<u8>, nat, nat, nat, nat, Seq<u8>) {
    (
        bytes.subrange(1, 17),
        be_value(bytes.subrange(17, 25)),
        be_value(bytes.subrange(25, 33)),
        be_value(bytes.subrange(33, 35)),
        be_value(bytes.subrange(35, 37)),
        bytes.subrange(37, bytes.len() as int),
    )
}

/// The error that decoding `bytes` reports, if any.
pub open spec fn decode_error(bytes: Seq<u8>) -> Option<MediaError> {
    if bytes.len() < MEDIA_HEADER_SIZE {
        Some(MediaError::TooShort)
    } else if bytes[0] != MEDIA_DATAGRAM_TYPE {
        Some(MediaError::UnexpectedType)
    } else {
        let f = decoded_fields(bytes);
        if f.4 == 0 {
            Some(MediaError::ZeroChunkCount)
        } else if f.3 >= f.4 {
            Some(MediaError::ChunkIndexOutOfRange)
        } else {
            None
        }
    }
}

proof fn lemma_div_ceil(n: nat, m: nat)
    requires
        m > 0,
        n > 0,
    ensures
        div_ceil(n, m) == (n - 1) as nat / m + 1,
        div_ceil(n, m) >= 1,
        (div_ceil(n, m) - 1) * m < n,
        n <= div_ceil(n, m) * m,
{
    let q = (n - 1) as nat / m;
    let r = (n - 1) as nat % m;
    vstd::arithmetic::div_mod::lemma_fundamental_div_mod((n - 1) as int, m as int);
    assert((n + m - 1) as int == (q + 1) * m + r) by (nonlinear_arith)
        requires
            (n - 1) as int == m * q + r,
    ;
    vstd::arithmetic::div_mod::lemma_fundamental_div_mod_converse(
        (n + m - 1) as int,
        m as int,
        (q + 1) as int,
        r as int,
    );
    assert(q * m <= n - 1) by (nonlinear_arith)
        requires
            (n - 1) as int == m * q + r,
            r >= 0,
    ;
    assert(n <= (q + 1) * m) by (nonlinear_arith)
        requires
            (n - 1) as int == m * q + r,
            r < m,
    ;
}

/// Number of chunks needed for a frame of `frame_size` bytes with at most
/// `max_chunk_payload` payload bytes per chunk.
pub fn required_chunk_count(frame_size: usize, max_chunk_payload: usize) -> (r: Result<
    u16,
    MediaError,
>)
    ensures
        r == chunk_count_result(frame_size as nat, max_chunk_payload as nat),
{
    if max_chunk_payload == 0 {
        return Err(MediaError::ZeroChunkPayload);
    }
    if frame_size == 0 {
        return Err(MediaError::EmptyFrame);
    }
    proof {
        lemma_div_ceil(frame_size as nat, max_chunk_payload as nat);
    }
    let chunk_count = (frame_size - 1) / max_chunk_payload + 1;
    if chunk_count > MAX_CHUNK_COUNT {
        return Err(MediaError::TooManyChunks);
    }
    Ok(chunk_count as u16)
}

/// Splits `frame` into chunks of at most `max_chunk_payload` bytes, each
/// carrying the frame's session, id and timestamp.
pub fn fragment_frame(
    session_id: [u8; 16],
    frame_id: u64,
    sent_at_ms: u64,
    frame: &[u8],
    max_chunk_payload: usize,
) -> (r: Result<Vec<MediaDatagram>, MediaError>)
    ensures
        match chunk_count_result(frame@.len(), max_chunk_payload as nat) {
            Err(e) => r == Err::<Vec<MediaDatagram>, MediaError>(e),
            Ok(_) => r matches Ok(chunks) && is_fragmentation(
                chunks@,
                session_id@,
                frame_id,
                sent_at_ms,
                frame@,
                max_chunk_payload as nat,
            ),
        },
{
    let chunk_count = match required_chunk_count(frame.len(), max_chunk_payload) {
        Ok(c) => c,
        Err(e) => {
            return Err(e);
        },
    };
    let n = frame.len();
    let m = max_chunk_payload;
    proof {
        lemma_div_ceil(n as nat, m as nat);
    }
    let mut chunks: Vec<MediaDatagram> = Vec::new();
    let mut index: u16 = 0;
    while index < chunk_count
        invariant
            n == frame@.len(),
            m > 0,
            n > 0,
            chunk_count as nat == div_ceil(n as nat, m as nat),
            (chunk_count - 1) * m < n,
            index <= chunk_count,
            chunks@.len() == index,
            forall|i: int|
                0 <= i < index ==> {
                    &&& (#[trigger] chunks@[i]).session_id@ == session_id@
                    &&& chunks@[i].frame_id == frame_id
                    &&& chunks@[i].sent_at_ms == sent_at_ms
                    &&& chunks@[i].chunk_index == i
                    &&& chunks@[i].chunk_count == chunk_count
                    &&& chunks@[i].payload@ == chunk_payload(frame@, m as nat, i as nat)
                },
        decreases chunk_count - index,
    {
        assert(index * m <= (chunk_count - 1) * m) by (nonlinear_arith)
            requires
                index < chunk_count,
        ;
        let start = index as usize * m;
        let end = if n - start > m {
            start + m
        } else {
            n
        };
        assert((index + 1) * m == index * m + m) by (nonlinear_arith);
        let payload = vstd::slice::slice_to_vec(vstd::slice::slice_subrange(frame, start, end));
        chunks.push(
            MediaDatagram {
                session_id,
                frame_id,
                sent_at_ms,
                chunk_index: index,
                chunk_count,
                payload,
            },
        );
        index = index + 1;
    }
    Ok(chunks)
}

/// Concatenating the first `k` chunks of a fragmentation gives the first
/// `min(k * m, len)` bytes of the frame.
proof fn lemma_concat_prefix(
    chunks: Seq<MediaDatagram>,
    session_id: Seq<u8>,
    frame_id: u64,
    sent_at_ms: u64,
    frame: Seq<u8>,
    m: nat,
    k: nat,
)
    requires
        m > 0,
        frame.len() > 0,
        is_fragmentation(chunks, session_id, frame_id, sent_at_ms, frame, m),
        k <= chunks.len(),
    ensures
        concat_payloads(chunks.take(k as int)) == frame.subrange(
            0,
            if k * m <= frame.len() {
                (k * m) as int
            } else {
                frame.len() as int
            },
        ),
    decreases k,
{
    lemma_div_ceil(frame.len(), m);
    if k == 0 {
        assert(chunks.take(0) =~= Seq::<MediaDatagram>::empty());
        assert(k * m == 0) by (nonlinear_arith)
            requires
                k == 0,
        ;
        assert(frame.subrange(0, 0) =~= Seq::<u8>::empty());
    } else {
        lemma_concat_prefix(chunks, session_id, frame_id, sent_at_ms, frame, m, (k - 1) as nat);
        let prefix = chunks.take(k as int);
        assert(prefix.drop_last() =~= chunks.take(k - 1));
        assert(prefix.last() == chunks[k - 1]);
        assert((k - 1) * m < frame.len()) by (nonlinear_arith)
            requires
                k <= div_ceil(frame.len(), m),
                (div_ceil(frame.len(), m) - 1) * m < frame.len(),
                k >= 1,
        ;
        assert(k * m == (k - 1) * m + m) by (nonlinear_arith);
        let lo = ((k - 1) * m) as int;
        let hi = if k * m <= frame.len() {
            (k * m) as int
        } else {
            frame.len() as int
        };
        assert(chunks[k - 1].payload@ == chunk_payload(frame, m, (k - 1) as nat));
        assert(chunk_payload(frame, m, (k - 1) as nat) == frame.subrange(lo, hi));
        assert(concat_payloads(prefix) == concat_payloads(prefix.drop_last())
            + prefix.last().payload@);
        assert(concat_payloads(chunks.take(k - 1)) == frame.subrange(0, lo));
        assert(frame.subrange(0, hi) =~= frame.subrange(0, lo) + frame.subrange(lo, hi));
        assert(concat_payloads(chunks.take(k as int)) == frame.subrange(0, hi));
    }
}

/// Fragmenting a frame and joining the chunk payloads in index order gives
/// back the frame.
pub proof fn lemma_fragments_reconstruct_frame(
    chunks: Seq<MediaDatagram>,
    session_id: Seq<u8>,
    frame_id: u64,
    sent_at_ms: u64,
    frame: Seq<u8>,
    m: nat,
)
    requires
        m > 0,
        frame.len() > 0,
        is_fragmentation(chunks, session_id, frame_id, sent_at_ms, frame, m),
    ensures
        concat_payloads(chunks) == frame,
{
    lemma_div_ceil(frame.len(), m);
    lemma_concat_prefix(chunks, session_id, frame_id, sent_at_ms, frame, m, chunks.len());
    assert(chunks.take(chunks.len() as int) =~= chunks);
    assert(frame.subrange(0, frame.len() as int) =~= frame);
}

/// Decoding the encoding of a well-indexed datagram succeeds and gives back
/// every field of the datagram.
pub proof fn lemma_decode_inverts_encode(d: MediaDatagram)
    requires
        well_indexed(d.chunk_index, d.chunk_count),
    ensures
        decode_error(encoding(d)) is None,
        decoded_fields(encoding(d)) == (
            d.session_id@,
            d.frame_id as nat,
            d.sent_at_ms as nat,
            d.chunk_index as nat,
            d.chunk_count as nat,
            d.payload@,
        ),
{
    let e = encoding(d);
    lemma_pow256_8();
    lemma_be_bytes_len(d.frame_id as nat, 8);
    lemma_be_bytes_len(d.sent_at_ms as nat, 8);
    lemma_be_bytes_len(d.chunk_index as nat, 2);
    lemma_be_bytes_len(d.chunk_count as nat, 2);
    lemma_be_value_of_bytes(d.frame_id as nat, 8);
    lemma_be_value_of_bytes(d.sent_at_ms as nat, 8);
    lemma_be_value_of_bytes(d.chunk_index as nat, 2);
    lemma_be_value_of_bytes(d.chunk_count as nat, 2);
    assert(e.subrange(1, 17) =~= d.session_id@);
    assert(e.subrange(17, 25) =~= be_bytes(d.frame_id as nat, 8));
    assert(e.subrange(25, 33) =~= be_bytes(d.sent_at_ms as nat, 8));
    assert(e.subrange(33, 35) =~= be_bytes(d.chunk_index as nat, 2));
    assert(e.subrange(35, 37) =~= be_bytes(d.chunk_count as nat, 2));
    assert(e.subrange(37, e.len() as int) =~= d.payload@);
}

/// A datagram that decodes without error is re-encoded to exactly the bytes
/// it was decoded from: every datagram has a single encoding.
pub proof fn lemma_encode_inverts_decode(bytes: Seq<u8>, d: MediaDatagram)
    requires
        decode_error(bytes) is None,
        decoded_fields(bytes) == (
            d.session_id@,
            d.frame_id as nat,
            d.sent_at_ms as nat,
            d.chunk_index as nat,
            d.chunk_count as nat,
            d.payload@,
        ),
    ensures
        well_indexed(d.chunk_index, d.chunk_count),
        encoding(d) == bytes,
{
    lemma_be_bytes_of_value(bytes.subrange(17, 25));
    lemma_be_bytes_of_value(bytes.subrange(25, 33));
    lemma_be_bytes_of_value(bytes.subrange(33, 35));
    lemma_be_bytes_of_value(bytes.subrange(35, 37));
    assert(encoding(d) =~= bytes);
}

impl MediaDatagram {
    /// Encodes the datagram; the chunk index must be below a nonzero count.
    pub fn encode(&self) -> (r: Result<Vec<u8>, MediaError>)
        ensures
            match index_error(self.chunk_index, self.chunk_count) {
                Some(e) => r == Err::<Vec<u8>, MediaError>(e),
                None => r matches Ok(bytes) && bytes@ == encoding(*self),
            },
    {
        if self.chunk_count == 0 {
            return Err(MediaError::ZeroChunkCount);
        }
        if self.chunk_index >= self.chunk_count {
            return Err(MediaError::ChunkIndexOutOfRange);
        }
        let mut bytes: Vec<u8> = Vec::new();
        bytes.push(MEDIA_DATAGRAM_TYPE);
        append_bytes(&mut bytes, self.session_id.as_slice());
        append_be(&mut bytes, self.frame_id, 8);
        append_be(&mut bytes, self.sent_at_ms, 8);
        append_be(&mut bytes, self.chunk_index as u64, 2);
        append_be(&mut bytes, self.chunk_count as u64, 2);
        append_bytes(&mut bytes, self.payload.as_slice());
        assert(bytes@ =~= encoding(*self));
        Ok(bytes)
    }

    /// Decodes a datagram, checking its length, type byte and chunk indices.
    pub fn decode(bytes: &[u8]) -> (r: Result<MediaDatagram, MediaError>)
        ensures
            match decode_error(bytes@) {
                Some(e) => r == Err::<MediaDatagram, MediaError>(e),
                None => r matches Ok(d) && {
                    let f = decoded_fields(bytes@);
                    &&& d.session_id@ == f.0
                    &&& d.frame_id == f.1
                    &&& d.sent_at_ms == f.2
                    &&& d.chunk_index == f.3
                    &&& d.chunk_count == f.4
                    &&& d.payload@ == f.5
                },
            },
    {
        if bytes.len() < MEDIA_HEADER_SIZE {
            return Err(MediaError::TooShort);
        }
        if bytes[0] != MEDIA_DATAGRAM_TYPE {
            return Err(MediaError::UnexpectedType);
        }
        let session_id = match uuid_from_slice(vstd::slice::slice_subrange(bytes, 1, 17)) {
            Ok(id) => id,
            Err(_) => {
                return Err(MediaError::TooShort);
            },
        };
        let frame_id = read_be(bytes, 17, 8);
        let sent_at_ms = read_be(bytes, 25, 8);
        let chunk_index = read_be(bytes, 33, 2);
        let chunk_count = read_be(bytes, 35, 2);
        proof {
            lemma_pow256_8();
            lemma_be_value_bound(bytes@.subrange(33, 35));
            lemma_be_value_bound(bytes@.subrange(35, 37));
        }
        if chunk_count == 0 {
            return Err(MediaError::ZeroChunkCount);
        }
        if chunk_index >= chunk_count {
            return Err(MediaError::ChunkIndexOutOfRange);
        }
        let payload = vstd::slice::slice_to_vec(
            vstd::slice::slice_subrange(bytes, MEDIA_HEADER_SIZE, bytes.len()),
        );
        Ok(
            MediaDatagram {
                session_id,
                frame_id,
                sent_at_ms,
                chunk_index: chunk_index as u16,
                chunk_count: chunk_count as u16,
                payload,
            },
        )
    }
}

} // verus!
