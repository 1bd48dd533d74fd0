use quic_vid::media::{
    fragment_frame, required_chunk_count, MediaDatagram, MediaError, MEDIA_DATAGRAM_TYPE,
    MEDIA_HEADER_SIZE,
};
use uuid::Uuid;

fn new_id() -> [u8; 16] {
    Uuid::new_v4().into_bytes()
}

#[test]
fn round_trip_preserves_media_datagram() {
    let datagram = MediaDatagram {
        session_id: new_id(),
        frame_id: 42,
        sent_at_ms: 123_456_789,
        chunk_index: 2,
        chunk_count: 5,
        payload: vec![1, 2, 3, 4],
    };

    let encoded = datagram.encode().unwrap();
    let decoded = MediaDatagram::decode(&encoded).unwrap();

    assert_eq!(decoded, datagram);
}

#[test]
fn decode_rejects_short_datagram() {
    let bytes = vec![0; MEDIA_HEADER_SIZE - 1];

    assert!(MediaDatagram::decode(&bytes).is_err());
}

#[test]
fn decode_rejects_wrong_type() {
    let datagram = MediaDatagram {
        session_id: new_id(),
        frame_id: 1,
        sent_at_ms: 1000,
        chunk_index: 0,
        chunk_count: 1,
        payload: vec![],
    };

    let mut encoded = datagram.encode().unwrap();
    encoded[0] = 0xff;

    assert!(MediaDatagram::decode(&encoded).is_err());
}

#[test]
fn encode_rejects_zero_chunk_count() {
    let datagram = MediaDatagram {
        session_id: new_id(),
        frame_id: 1,
        sent_at_ms: 1000,
        chunk_index: 0,
        chunk_count: 0,
        payload: vec![],
    };

    assert!(datagram.encode().is_err());
}

#[test]
fn encode_rejects_out_of_range_chunk_index() {
    let datagram = MediaDatagram {
        session_id: new_id(),
        frame_id: 1,
        sent_at_ms: 1000,
        chunk_index: 2,
        chunk_count: 2,
        payload: vec![],
    };

    assert!(datagram.encode().is_err());
}

#[test]
fn single_chunk_fake_frame_is_valid() {
    let datagram = MediaDatagram {
        session_id: new_id(),
        frame_id: 0,
        sent_at_ms: 0,
        chunk_index: 0,
        chunk_count: 1,
        payload: vec![0x42; 256],
    };

    let decoded = MediaDatagram::decode(&datagram.encode().unwrap()).unwrap();

    assert_eq!(decoded.chunk_index, 0);
    assert_eq!(decoded.chunk_count, 1);
    assert_eq!(decoded.payload.len(), 256);
}

#[test]
fn one_byte_frame_requires_one_chunk() {
    assert_eq!(required_chunk_count(1, 1251).unwrap(), 1);
}

#[test]
fn frame_at_payload_limit_requires_one_chunk() {
    assert_eq!(required_chunk_count(1251, 1251).unwrap(), 1);
}

#[test]
fn frame_over_payload_limit_requires_two_chunks() {
    assert_eq!(required_chunk_count(1252, 1251).unwrap(), 2);
}

#[test]
fn exact_two_chunk_frame_requires_two_chunks() {
    assert_eq!(required_chunk_count(2502, 1251).unwrap(), 2);
}

#[test]
fn frame_over_two_chunk_boundary_requires_three_chunks() {
    assert_eq!(required_chunk_count(2503, 1251).unwrap(), 3);
}

#[test]
fn measured_jpeg_requires_twelve_chunks() {
    assert_eq!(required_chunk_count(13_839, 1251).unwrap(), 12);
}

#[test]
fn zero_chunk_payload_is_rejected() {
    assert!(required_chunk_count(100, 0).is_err());
}

#[test]
fn empty_frame_is_rejected() {
    assert!(required_chunk_count(0, 1251).is_err());
}

#[test]
fn chunk_count_larger_than_u16_is_rejected() {
    let frame_size = usize::from(u16::MAX) + 1;

    assert!(required_chunk_count(frame_size, 1).is_err());
}

#[test]
fn fragment_small_frame_into_single_chunk() {
    let session_id = new_id();
    let frame = vec![1, 2, 3, 4];

    let chunks = fragment_frame(session_id, 42, 123_456, &frame, 1251).unwrap();

    assert_eq!(chunks.len(), 1);

    let chunk = &chunks[0];

    assert_eq!(chunk.session_id, session_id);
    assert_eq!(chunk.frame_id, 42);
    assert_eq!(chunk.sent_at_ms, 123_456);
    assert_eq!(chunk.chunk_index, 0);
    assert_eq!(chunk.chunk_count, 1);
    assert_eq!(chunk.payload, frame);
}

#[test]
fn fragment_frame_over_limit_into_two_chunks() {
    let frame = vec![0xaa; 1252];

    let chunks = fragment_frame(new_id(), 1, 1000, &frame, 1251).unwrap();

    assert_eq!(chunks.len(), 2);

    assert_eq!(chunks[0].chunk_index, 0);
    assert_eq!(chunks[0].chunk_count, 2);
    assert_eq!(chunks[0].payload.len(), 1251);

    assert_eq!(chunks[1].chunk_index, 1);
    assert_eq!(chunks[1].chunk_count, 2);
    assert_eq!(chunks[1].payload.len(), 1);
}

#[test]
fn fragment_exact_multiple_has_full_final_chunk() {
    let frame = vec![0xbb; 2502];

    let chunks = fragment_frame(new_id(), 2, 2000, &frame, 1251).unwrap();

    assert_eq!(chunks.len(), 2);
    assert_eq!(chunks[0].payload.len(), 1251);
    assert_eq!(chunks[1].payload.len(), 1251);
}

#[test]
fn fragmented_chunks_preserve_frame_metadata() {
    let session_id = new_id();

    let chunks = fragment_frame(session_id, 42, 987_654, &vec![0xcc; 3000], 1000).unwrap();

    assert_eq!(chunks.len(), 3);

    for (index, chunk) in chunks.iter().enumerate() {
        assert_eq!(chunk.session_id, session_id);
        assert_eq!(chunk.frame_id, 42);
        assert_eq!(chunk.sent_at_ms, 987_654);
        assert_eq!(chunk.chunk_index, index as u16);
        assert_eq!(chunk.chunk_count, 3);
    }
}

#[test]
fn fragmented_payloads_reconstruct_original_frame() {
    let frame: Vec<u8> = (0..10_000).map(|value| (value % 256) as u8).collect();

    let chunks = fragment_frame(new_id(), 42, 123_456, &frame, 1251).unwrap();

    let reconstructed: Vec<u8> = chunks
        .iter()
        .flat_map(|chunk| chunk.payload.iter().copied())
        .collect();

    assert_eq!(reconstructed, frame);
}

#[test]
fn measured_jpeg_fragments_into_twelve_chunks() {
    let frame = vec![0xdd; 13_839];

    let chunks = fragment_frame(new_id(), 0, 0, &frame, 1251).unwrap();

    assert_eq!(chunks.len(), 12);
    assert_eq!(chunks.last().unwrap().payload.len(), 78);
}

#[test]
fn fragment_frame_rejects_empty_frame() {
    assert!(fragment_frame(new_id(), 0, 0, &[], 1251,).is_err());
}

#[test]
fn fragment_frame_rejects_zero_payload_limit() {
    assert!(fragment_frame(new_id(), 0, 0, &[1, 2, 3], 0,).is_err());
}

#[test]
fn each_error_variant_of_chunk_counting_is_reported() {
    assert_eq!(required_chunk_count(100, 0), Err(MediaError::ZeroChunkPayload));
    assert_eq!(required_chunk_count(0, 1251), Err(MediaError::EmptyFrame));
    assert_eq!(required_chunk_count(65_536, 1), Err(MediaError::TooManyChunks));
    assert_eq!(required_chunk_count(65_535, 1), Ok(65_535));
}

#[test]
fn encoding_has_the_documented_layout() {
    let session_id = [7u8; 16];
    let datagram = MediaDatagram {
        session_id,
        frame_id: 0x0102_0304_0506_0708,
        sent_at_ms: 0x1112_1314_1516_1718,
        chunk_index: 0x0102,
        chunk_count: 0x0a0b,
        payload: vec![0xee, 0xff],
    };

    let encoded = datagram.encode().unwrap();

    let mut expected = vec![MEDIA_DATAGRAM_TYPE];
    expected.extend_from_slice(&session_id);
    expected.extend_from_slice(&[1, 2, 3, 4, 5, 6, 7, 8]);
    expected.extend_from_slice(&[0x11, 0x12, 0x13, 0x14, 0x15, 0x16, 0x17, 0x18]);
    expected.extend_from_slice(&[0x01, 0x02, 0x0a, 0x0b, 0xee, 0xff]);

    assert_eq!(encoded.len(), MEDIA_HEADER_SIZE + 2);
    assert_eq!(encoded, expected);
}

#[test]
fn decode_reports_each_error_variant() {
    let datagram = MediaDatagram {
        session_id: new_id(),
        frame_id: 5,
        sent_at_ms: 6,
        chunk_index: 0,
        chunk_count: 1,
        payload: vec![9],
    };
    let encoded = datagram.encode().unwrap();

    assert_eq!(
        MediaDatagram::decode(&encoded[..MEDIA_HEADER_SIZE - 1]),
        Err(MediaError::TooShort)
    );

    let mut wrong_type = encoded.clone();
    wrong_type[0] = 0x02;
    assert_eq!(MediaDatagram::decode(&wrong_type), Err(MediaError::UnexpectedType));

    let mut zero_count = encoded.clone();
    zero_count[35] = 0;
    zero_count[36] = 0;
    assert_eq!(MediaDatagram::decode(&zero_count), Err(MediaError::ZeroChunkCount));

    let mut bad_index = encoded.clone();
    bad_index[34] = 1;
    assert_eq!(MediaDatagram::decode(&bad_index), Err(MediaError::ChunkIndexOutOfRange));
}

#[test]
fn header_only_datagram_decodes_with_empty_payload() {
    let datagram = MediaDatagram {
        session_id: new_id(),
        frame_id: 3,
        sent_at_ms: 4,
        chunk_index: 1,
        chunk_count: 2,
        payload: vec![],
    };

    let encoded = datagram.encode().unwrap();
    assert_eq!(encoded.len(), MEDIA_HEADER_SIZE);

    let decoded = MediaDatagram::decode(&encoded).unwrap();
    assert_eq!(decoded, datagram);
    assert_eq!(decoded.encode().unwrap(), encoded);
}
