//! Mouse telemetry over QUIC DATAGRAMs: relative PS/2 mouse packets are
//! accumulated into a position clamped to `[-1000, 1000]` on both axes,
//! sent as two big-endian two's-complement `i32`s, and mapped by the receiver
//! to a cell of a text terminal.

use crate::be::{append_be, be_bytes, be_value, lemma_be_value_bound, read_be};
use vstd::prelude::*;

verus! {

/// Largest absolute coordinate of a tracked position.
pub const MOUSE_LIMIT: i32 = 1000;

/// Bytes of an encoded position.
pub const POSITION_PACKET_SIZE: usize = 8;

/// The signed value of a byte read as an `i8`.
pub open spec fn signed_byte(b: u8) -> int {
    if b < 128 {
        b as int
    } else {
        b - 256
    }
}

/// `v` limited to `[-MOUSE_LIMIT, MOUSE_LIMIT]`.
pub open spec fn clamp_coordinate(v: int) -> int {
    if v < -MOUSE_LIMIT {
        -MOUSE_LIMIT as int
    } else if v > MOUSE_LIMIT {
        MOUSE_LIMIT as int
    } else {
        v
    }
}

/// The 32-bit two's-complement pattern of `v`.
pub open spec fn twos_complement(v: i32) -> nat {
    if v >= 0 {
        v as nat
    } else {
        (v + 0x1_0000_0000) as nat
    }
}

/// The signed value of a 32-bit two's-complement pattern.
pub open spec fn from_twos_complement(u: nat) -> int {
    if u < 0x8000_0000 {
        u as int
    } else {
        u - 0x1_0000_0000
    }
}

/// The eight bytes that carry the position `(x, y)`.
pub open spec fn position_bytes(x: i32, y: i32) -> Seq<u8> {
    be_bytes(twos_complement(x), 4) + be_bytes(twos_complement(y), 4)
}

/// Integer division rounding toward zero, as Rust's `/` on signed integers.
pub open spec fn div_toward_zero(a: int, b: int) -> int {
    if a >= 0 {
        a / b
    } else {
        -((-a) / b)
    }
}

/// A pointer position accumulated from relative movements.
#[derive(Debug, Clone, Copy, PartialEq, Eq, Structural)]
pub struct MousePosition {
    pub x: i32,
    pub y: i32,
}

/// Both coordinates lie in `[-MOUSE_LIMIT, MOUSE_LIMIT]`.
pub open spec fn position_in_range(p: MousePosition) -> bool {
    -MOUSE_LIMIT <= p.x <= MOUSE_LIMIT && -MOUSE_LIMIT <= p.y <= MOUSE_LIMIT
}

/// The position after the PS/2 packet `packet`: byte 1 is the relative X
/// movement, byte 2 the relative Y movement (upwards positive, so it is
/// subtracted), both as `i8`; each coordinate is then clamped.
pub open spec fn moved(p: MousePosition, packet: Seq<u8>) -> MousePosition {
    MousePosition {
        x: clamp_coordinate(p.x + signed_byte(packet[1])) as i32,
        y: clamp_coordinate(p.y - signed_byte(packet[2])) as i32,
    }
}

impl MousePosition {
    /// The starting position, at the origin.
    pub fn origin() -> (r: MousePosition)
        ensures
            r == (MousePosition { x: 0, y: 0 }),
            position_in_range(r),
    {
        MousePosition { x: 0, y: 0 }
    }

    /// Applies one three-byte PS/2 mouse packet.
    pub fn apply_packet(&mut self, packet: [u8; 3])
        requires
            position_in_range(*old(self)),
        ensures
            *final(self) == moved(*old(self), packet@),
            position_in_range(*final(self)),
    {
        let dx: i32 = if packet[1] < 128 {
            packet[1] as i32
        } else {
            packet[1] as i32 - 256
        };
        let dy: i32 = if packet[2] < 128 {
            packet[2] as i32
        } else {
            packet[2] as i32 - 256
        };
        self.x = clamp(self.x + dx);
        self.y = clamp(self.y - dy);
    }
}

/// `v` limited to `[-MOUSE_LIMIT, MOUSE_LIMIT]`.
fn clamp(v: i32) -> (r: i32)
    ensures
        r == clamp_coordinate(v as int),
{
    if v < -MOUSE_LIMIT {
        -MOUSE_LIMIT
    } else if v > MOUSE_LIMIT {
        MOUSE_LIMIT
    } else {
        v
    }
}

/// The two's-complement pattern of `v`.
fn to_twos_complement(v: i32) -> (r: u32)
    ensures
        r == twos_complement(v),
{
    if v >= 0 {
        v as u32
    } else {
        let shifted: i32 = v + 2147483647 + 1;
        (shifted as u32) + 2147483648u32
    }
}

/// The signed value of the pattern `u`.
fn of_twos_complement(u: u64) -> (r: i32)
    requires
        u < 0x1_0000_0000,
    ensures
        r == from_twos_complement(u as nat),
{
    if u < 0x8000_0000 {
        u as i32
    } else {
        let low: i32 = (u - 0x8000_0000) as i32;
        low - 2147483647 - 1
    }
}

/// Encodes a position as `x` then `y`, each a big-endian `i32`.
pub fn encode_position(position: MousePosition) -> (r: Vec<u8>)
    ensures
        r@ == position_bytes(position.x, position.y),
{
    let mut out: Vec<u8> = Vec::new();
    append_be(&mut out, to_twos_complement(position.x) as u64, 4);
    append_be(&mut out, to_twos_complement(position.y) as u64, 4);
    assert(out@ =~= position_bytes(position.x, position.y));
    out
}

/// Decodes the first eight bytes of a packet as a position; `None` when the
/// packet is shorter.
pub fn decode_position(bytes: &[u8]) -> (r: Option<MousePosition>)
    ensures
        bytes@.len() < 8 ==> r is None,
        bytes@.len() >= 8 ==> r == Some(
            MousePosition {
                x: from_twos_complement(be_value(bytes@.subrange(0, 4))) as i32,
                y: from_twos_complement(be_value(bytes@.subrange(4, 8))) as i32,
            },
        ),
{
    if bytes.len() < POSITION_PACKET_SIZE {
        return None;
    }
    let x = read_be(bytes, 0, 4);
    let y = read_be(bytes, 4, 4);
    proof {
        lemma_be_value_bound(bytes@.subrange(0, 4));
        lemma_be_value_bound(bytes@.subrange(4, 8));
        crate::be::lemma_pow256_8();
    }
    Some(MousePosition { x: of_twos_complement(x), y: of_twos_complement(y) })
}

/// Decoding the encoding of a position gives the position back.
pub proof fn lemma_decode_inverts_encode_position(x: i32, y: i32)
    ensures
        ({
            let b = position_bytes(x, y);
            &&& b.len() == 8
            &&& from_twos_complement(be_value(b.subrange(0, 4))) == x
            &&& from_twos_complement(be_value(b.subrange(4, 8))) == y
        }),
{
    let b = position_bytes(x, y);
    crate::be::lemma_pow256_8();
    crate::be::lemma_be_bytes_len(twos_complement(x), 4);
    crate::be::lemma_be_bytes_len(twos_complement(y), 4);
    crate::be::lemma_be_value_of_bytes(twos_complement(x), 4);
    crate::be::lemma_be_value_of_bytes(twos_complement(y), 4);
    assert(b.subrange(0, 4) =~= be_bytes(twos_complement(x), 4));
    assert(b.subrange(4, 8) =~= be_bytes(twos_complement(y), 4));
}

/// The terminal cell, as `(column, row)`, that shows a position: a quarter
/// of `x` right of column 40 and an eighth of `y` below row 12, both
/// divisions rounding toward zero.
pub fn terminal_cell(position: MousePosition) -> (r: (i32, i32))
    ensures
        r.0 == div_toward_zero(position.x as int, 4) + 40,
        r.1 == div_toward_zero(position.y as int, 8) + 12,
{
    let x = position.x as i64;
    let y = position.y as i64;
    let qx: i64 = if x >= 0 {
        x / 4
    } else {
        -((-x) / 4)
    };
    let qy: i64 = if y >= 0 {
        y / 8
    } else {
        -((-y) / 8)
    };
    ((qx + 40) as i32, (qy + 12) as i32)
}

} // verus!
