use quic_vid::mouse::{decode_position, encode_position, terminal_cell, MousePosition};

#[test]
fn packets_accumulate_relative_movement() {
    let mut position = MousePosition::origin();

    position.apply_packet([0x08, 5, 3]);
    assert_eq!(position, MousePosition { x: 5, y: -3 });

    position.apply_packet([0x08, 0xff, 0xfe]);
    assert_eq!(position, MousePosition { x: 4, y: -1 });
}

#[test]
fn position_is_clamped_to_the_limit() {
    let mut position = MousePosition::origin();

    for _ in 0..20 {
        position.apply_packet([0, 127, 0x80]);
    }

    assert_eq!(position, MousePosition { x: 1000, y: 1000 });

    for _ in 0..20 {
        position.apply_packet([0, 0x80, 127]);
    }

    assert_eq!(position, MousePosition { x: -1000, y: -1000 });
}

#[test]
fn positions_travel_as_big_endian_i32_pairs() {
    let encoded = encode_position(MousePosition { x: 1, y: -2 });

    assert_eq!(encoded, vec![0, 0, 0, 1, 0xff, 0xff, 0xff, 0xfe]);

    let mut expected = (-1000i32).to_be_bytes().to_vec();
    expected.extend_from_slice(&i32::MAX.to_be_bytes());
    assert_eq!(encode_position(MousePosition { x: -1000, y: i32::MAX }), expected);
}

#[test]
fn decoding_inverts_encoding() {
    for (x, y) in [(0, 0), (1000, -1000), (i32::MIN, i32::MAX), (-1, 1)] {
        let position = MousePosition { x, y };
        assert_eq!(decode_position(&encode_position(position)), Some(position));
    }
}

#[test]
fn short_packets_are_ignored() {
    assert_eq!(decode_position(&[0; 7]), None);

    let mut long = encode_position(MousePosition { x: 7, y: 9 });
    long.push(0xaa);
    assert_eq!(decode_position(&long), Some(MousePosition { x: 7, y: 9 }));
}

#[test]
fn terminal_cell_divides_toward_zero() {
    assert_eq!(terminal_cell(MousePosition { x: 0, y: 0 }), (40, 12));
    assert_eq!(terminal_cell(MousePosition { x: -5, y: -9 }), (39, 11));
    assert_eq!(terminal_cell(MousePosition { x: 7, y: 17 }), (41, 14));
    assert_eq!(
        terminal_cell(MousePosition { x: i32::MIN, y: i32::MAX }),
        (i32::MIN / 4 + 40, i32::MAX / 8 + 12)
    );
}
