//! The generated test pattern: a gradient background whose blue channel
//! shifts with the frame id, the frame id (modulo one million) in six
//! seven-segment digits, and a marker that moves with the frame id.
//!
//! A frame is an RGB buffer of `TEST_FRAME_WIDTH * TEST_FRAME_HEIGHT` pixels,
//! three bytes per pixel, row by row. Byte `j` belongs to pixel `j / 3`,
//! which stands at column `(j / 3) % TEST_FRAME_WIDTH` and row
//! `(j / 3) / TEST_FRAME_WIDTH`.


use crate::jpeg::{encode_jpeg_rgb8, jpeg_encoding};
use vstd::prelude::*;

verus! {

/// Width of a generated test frame in pixels.
pub const TEST_FRAME_WIDTH: u32 = 640;

/// Height of a generated test frame in pixels.
pub const TEST_FRAME_HEIGHT: u32 = 360;

/// JPEG quality used when none is given.
pub const DEFAULT_JPEG_QUALITY: u8 = 80;

/// Number of bytes of a test frame.
pub const TEST_FRAME_BYTES: usize = 691200;

/// Side of one segment's thickness, in pixels.
pub const DIGIT_SCALE: u32 = 6;

/// Row of the top of the digits.
pub const DIGITS_TOP: u32 = 120;

/// Row of the top of the progress marker.
pub const MARKER_TOP: u32 = 315;

/// Side of the square progress marker.
pub const MARKER_SIZE: u32 = 24;

/// An axis-aligned rectangle of pixels.
#[derive(Debug, Clone, Copy, PartialEq, Eq, Structural)]
pub struct Rect {
    pub x: u32,
    pub y: u32,
    pub width: u32,
    pub height: u32,
}

/// A generated RGB frame.
#[derive(Debug)]
pub struct RgbFrame {
    pub width: u32,
    pub height: u32,
    pub pixels: Vec<u8>,
}

impl RgbFrame {
    /// `(width, height)`.
    pub fn dimensions(&self) -> (r: (u32, u32))
        ensures
            r == (self.width, self.height),
    {
        (self.width, self.height)
    }

    /// The RGB bytes, row by row.
    pub fn as_raw(&self) -> (r: &[u8])
        ensures
            r@ == self.pixels@,
    {
        self.pixels.as_slice()
    }
}

/// Column of the pixel of byte `j`.
pub open spec fn pixel_x(j: int) -> int {
    (j / 3) % (TEST_FRAME_WIDTH as int)
}

/// Row of the pixel of byte `j`.
pub open spec fn pixel_y(j: int) -> int {
    (j / 3) / (TEST_FRAME_WIDTH as int)
}

/// The pixel at column `px` and row `py` lies in `r`.
pub open spec fn in_rect(r: Rect, px: int, py: int) -> bool {
    r.x <= px < r.x + r.width && r.y <= py < r.y + r.height
}

/// Some rectangle of `rects` holds the pixel at `(px, py)`.
pub open spec fn covered(rects: Seq<Rect>, px: int, py: int) -> bool
    decreases rects.len(),
{
    if rects.len() == 0 {
        false
    } else {
        covered(rects.drop_last(), px, py) || in_rect(rects.last(), px, py)
    }
}

/// Byte `j` of the background of frame `frame_id`: red grows left to right,
/// green top to bottom, and blue is red shifted by the frame id modulo 256.
pub open spec fn background_byte(frame_id: u64, j: int) -> u8 {
    let red = pixel_x(j) * 255 / (TEST_FRAME_WIDTH as int);
    let green = pixel_y(j) * 255 / (TEST_FRAME_HEIGHT as int);
    if j % 3 == 0 {
        red as u8
    } else if j % 3 == 1 {
        green as u8
    } else {
        ((red + frame_id % 256) % 256) as u8
    }
}

/// Which of the seven segments light up for `digit`: top, upper left, upper
/// right, middle, lower left, lower right, bottom.
pub open spec fn segment_table(digit: nat) -> Seq<bool> {
    if digit == 0 {
        seq![true, true, true, false, true, true, true]
    } else if digit == 1 {
        seq![false, false, true, false, false, true, false]
    } else if digit == 2 {
        seq![true, false, true, true, true, false, true]
    } else if digit == 3 {
        seq![true, false, true, true, false, true, true]
    } else if digit == 4 {
        seq![false, true, true, true, false, true, false]
    } else if digit == 5 {
        seq![true, true, false, true, false, true, true]
    } else if digit == 6 {
        seq![true, true, false, true, true, true, true]
    } else if digit == 7 {
        seq![true, false, true, false, false, true, false]
    } else if digit == 8 {
        seq![true, true, true, true, true, true, true]
    } else {
        seq![true, true, true, true, false, true, true]
    }
}

/// The rectangle of segment `segment` of a digit whose top-left corner is
/// `(x, y)`, with strokes `scale` pixels thick.
pub open spec fn segment_rect(x: u32, y: u32, scale: u32, segment: nat) -> Rect {
    if segment == 0 {
        Rect { x: (x + scale) as u32, y, width: (3 * scale) as u32, height: scale }
    } else if segment == 1 {
        Rect { x, y: (y + scale) as u32, width: scale, height: (3 * scale) as u32 }
    } else if segment == 2 {
        Rect {
            x: (x + 4 * scale) as u32,
            y: (y + scale) as u32,
            width: scale,
            height: (3 * scale) as u32,
        }
    } else if segment == 3 {
        Rect {
            x: (x + scale) as u32,
            y: (y + 4 * scale) as u32,
            width: (3 * scale) as u32,
            height: scale,
        }
    } else if segment == 4 {
        Rect { x, y: (y + 5 * scale) as u32, width: scale, height: (3 * scale) as u32 }
    } else if segment == 5 {
        Rect {
            x: (x + 4 * scale) as u32,
            y: (y + 5 * scale) as u32,
            width: scale,
            height: (3 * scale) as u32,
        }
    } else {
        Rect {
            x: (x + scale) as u32,
            y: (y + 8 * scale) as u32,
            width: (3 * scale) as u32,
            height: scale,
        }
    }
}

/// The lit segments among the first `n` of `digit`, in segment order.
pub open spec fn digit_rects(digit: nat, x: u32, y: u32, scale: u32, n: nat) -> Seq<Rect>
    decreases n,
{
    if n == 0 {
        Seq::empty()
    } else {
        let before = digit_rects(digit, x, y, scale, (n - 1) as nat);
        if segment_table(digit)[n - 1] {
            before.push(segment_rect(x, y, scale, (n - 1) as nat))
        } else {
            before
        }
    }
}

/// The place value of digit `i` of a six-digit number, counted from the left.
pub open spec fn place_value(i: nat) -> nat {
    if i == 0 {
        100000
    } else if i == 1 {
        10000
    } else if i == 2 {
        1000
    } else if i == 3 {
        100
    } else if i == 4 {
        10
    } else {
        1
    }
}

/// Digit `i`, from the left, of `value` written with six digits.
pub open spec fn digit_at(value: nat, i: nat) -> nat {
    (value / place_value(i)) % 10
}

/// Column of the left edge of digit `i`: six digits of five strokes with two
/// strokes between them, centred.
pub open spec fn digit_left(i: nat) -> u32 {
    (200 + 42 * i) as u32
}

/// The lit segments of the first `n` digits of `value`.
pub open spec fn number_rects(value: nat, n: nat) -> Seq<Rect>
    decreases n,
{
    if n == 0 {
        Seq::empty()
    } else {
        number_rects(value, (n - 1) as nat) + digit_rects(
            digit_at(value, (n - 1) as nat),
            digit_left((n - 1) as nat),
            DIGITS_TOP,
            DIGIT_SCALE,
            7,
        )
    }
}

/// The progress marker, which advances seven columns per frame and wraps.
pub open spec fn marker_rect(frame_id: u64) -> Rect {
    Rect {
        x: ((frame_id * 7) % ((TEST_FRAME_WIDTH - MARKER_SIZE) as int)) as u32,
        y: MARKER_TOP,
        width: MARKER_SIZE,
        height: MARKER_SIZE,
    }
}

/// Everything drawn in white over the background, in drawing order.
pub open spec fn pattern_rects(frame_id: u64) -> Seq<Rect> {
    number_rects((frame_id % 1000000) as nat, 6).push(marker_rect(frame_id))
}

/// Byte `j` of the test frame of `frame_id`.
pub open spec fn pattern_byte(frame_id: u64, j: int) -> u8 {
    if covered(pattern_rects(frame_id), pixel_x(j), pixel_y(j)) {
        255
    } else {
        background_byte(frame_id, j)
    }
}

/// The buffer is a test frame's background with `rects` drawn in white.
pub open spec fn painted(pixels: Seq<u8>, frame_id: u64, rects: Seq<Rect>) -> bool {
    &&& pixels.len() == TEST_FRAME_BYTES
    &&& forall|j: int|
        0 <= j < pixels.len() ==> #[trigger] pixels[j] == if covered(
            rects,
            pixel_x(j),
            pixel_y(j),
        ) {
            255u8
        } else {
            background_byte(frame_id, j)
        }
}

proof fn lemma_covered_push(rects: Seq<Rect>, r: Rect, px: int, py: int)
    ensures
        covered(rects.push(r), px, py) == (covered(rects, px, py) || in_rect(r, px, py)),
{
    assert(rects.push(r).drop_last() =~= rects);
}

proof fn lemma_byte_of_pixel(j: int, k: int, px: int, py: int)
    requires
        0 <= j,
        0 <= px < TEST_FRAME_WIDTH,
        0 <= py,
        k == py * (TEST_FRAME_WIDTH as int) + px,
    ensures
        (j / 3 == k) == (pixel_x(j) == px && pixel_y(j) == py),
{
    assert((j / 3 == k) == ((j / 3) % 640 == px && (j / 3) / 640 == py)) by (nonlinear_arith)
        requires
            0 <= j,
            0 <= px < 640,
            0 <= py,
            k == py * 640 + px,
    ;
}

/// The background of frame `frame_id`.
fn draw_background(frame_id: u64) -> (r: Vec<u8>)
    ensures
        painted(r@, frame_id, Seq::empty()),
{
    let phase: u64 = frame_id % 256;
    let mut pixels: Vec<u8> = Vec::new();
    let mut k: usize = 0;
    while k < TEST_FRAME_BYTES / 3
        invariant
            k <= TEST_FRAME_BYTES / 3,
            pixels.len() == 3 * k,
            phase == frame_id % 256,
            forall|j: int|
                0 <= j < pixels.len() ==> #[trigger] pixels@[j] == background_byte(frame_id, j),
        decreases TEST_FRAME_BYTES / 3 - k,
    {
        let x: u32 = (k % 640) as u32;
        let y: u32 = (k / 640) as u32;
        let red: u32 = (x * 255) / TEST_FRAME_WIDTH;
        let green: u32 = (y * 255) / TEST_FRAME_HEIGHT;
        let blue: u64 = (red as u64 + phase) % 256;
        assert((3 * k) / 3 == k && (3 * k) % 3 == 0);
        assert((3 * k + 1) / 3 == k && (3 * k + 1) % 3 == 1);
        assert((3 * k + 2) / 3 == k && (3 * k + 2) % 3 == 2);
        pixels.push(red as u8);
        pixels.push(green as u8);
        pixels.push(blue as u8);
        k = k + 1;
    }
    pixels
}

/// Paints `rect`, clipped to the frame, in `color`.
fn draw_rect(pixels: &mut Vec<u8>, rect: Rect, color: [u8; 3])
    requires
        old(pixels).len() == TEST_FRAME_BYTES,
        rect.x + rect.width <= u32::MAX,
        rect.y + rect.height <= u32::MAX,
    ensures
        final(pixels).len() == TEST_FRAME_BYTES,
        forall|j: int|
            0 <= j < TEST_FRAME_BYTES ==> #[trigger] final(pixels)@[j] == if in_rect(
                rect,
                pixel_x(j),
                pixel_y(j),
            ) {
                color@[j % 3]
            } else {
                old(pixels)@[j]
            },
{
    let max_x: u32 = if rect.x + rect.width < TEST_FRAME_WIDTH {
        rect.x + rect.width
    } else {
        TEST_FRAME_WIDTH
    };
    let max_y: u32 = if rect.y + rect.height < TEST_FRAME_HEIGHT {
        rect.y + rect.height
    } else {
        TEST_FRAME_HEIGHT
    };
    let ghost start = pixels@;
    let mut py: u32 = rect.y;
    while py < max_y
        invariant
            rect.y <= py,
            py <= max_y || py == rect.y,
            max_y <= TEST_FRAME_HEIGHT,
            max_x <= TEST_FRAME_WIDTH,
            max_x == if rect.x + rect.width < TEST_FRAME_WIDTH { rect.x + rect.width } else { TEST_FRAME_WIDTH as int },
            max_y == if rect.y + rect.height < TEST_FRAME_HEIGHT { rect.y + rect.height } else { TEST_FRAME_HEIGHT as int },
            pixels.len() == TEST_FRAME_BYTES,
            start.len() == TEST_FRAME_BYTES,
            forall|j: int|
                0 <= j < TEST_FRAME_BYTES ==> #[trigger] pixels@[j] == if rect.x <= pixel_x(j)
                    < max_x && rect.y <= pixel_y(j) < py {
                    color@[j % 3]
                } else {
                    start[j]
                },
        decreases max_y - py,
    {
        let mut px: u32 = rect.x;
        while px < max_x
            invariant
                rect.y <= py < max_y,
                rect.x <= px,
                px <= max_x || px == rect.x,
                max_x == if rect.x + rect.width < TEST_FRAME_WIDTH { rect.x + rect.width } else { TEST_FRAME_WIDTH as int },
                max_y == if rect.y + rect.height < TEST_FRAME_HEIGHT { rect.y + rect.height } else { TEST_FRAME_HEIGHT as int },
                max_y <= TEST_FRAME_HEIGHT,
                max_x <= TEST_FRAME_WIDTH,
                pixels.len() == TEST_FRAME_BYTES,
                start.len() == TEST_FRAME_BYTES,
                forall|j: int|
                    0 <= j < TEST_FRAME_BYTES ==> #[trigger] pixels@[j] == if (rect.x <= pixel_x(j)
                        < max_x && rect.y <= pixel_y(j) < py) || (pixel_y(j) == py && rect.x
                        <= pixel_x(j) < px) {
                        color@[j % 3]
                    } else {
                        start[j]
                    },
            decreases max_x - px,
        {
            let k: usize = (py as usize) * 640 + (px as usize);
            let base: usize = 3 * k;
            let ghost before = pixels@;
            pixels.set(base, color[0]);
            pixels.set(base + 1, color[1]);
            pixels.set(base + 2, color[2]);
            assert forall|j: int| 0 <= j < TEST_FRAME_BYTES implies #[trigger] pixels@[j] == if (
            rect.x <= pixel_x(j) < max_x && rect.y <= pixel_y(j) < py) || (pixel_y(j) == py
                && rect.x <= pixel_x(j) < px + 1) {
                color@[j % 3]
            } else {
                start[j]
            } by {
                lemma_byte_of_pixel(j, k as int, px as int, py as int);
                if j / 3 == k {
                    assert(j == base || j == base + 1 || j == base + 2);
                } else {
                    assert(j != base && j != base + 1 && j != base + 2);
                    assert(pixels@[j] == before[j]);
                }
            }
            px = px + 1;
        }
        py = py + 1;
    }
    assert forall|j: int| 0 <= j < TEST_FRAME_BYTES implies #[trigger] pixels@[j] == if in_rect(
        rect,
        pixel_x(j),
        pixel_y(j),
    ) {
        color@[j % 3]
    } else {
        start[j]
    } by {
        assert(j / 3 < 230400);
        assert(0 <= pixel_x(j) < TEST_FRAME_WIDTH);
        assert(0 <= pixel_y(j) < TEST_FRAME_HEIGHT);
    }
}

proof fn lemma_paint_step(
    before: Seq<u8>,
    after: Seq<u8>,
    frame_id: u64,
    rects: Seq<Rect>,
    r: Rect,
)
    requires
        painted(before, frame_id, rects),
        after.len() == TEST_FRAME_BYTES,
        forall|j: int|
            0 <= j < TEST_FRAME_BYTES ==> #[trigger] after[j] == if in_rect(
                r,
                pixel_x(j),
                pixel_y(j),
            ) {
                255u8
            } else {
                before[j]
            },
    ensures
        painted(after, frame_id, rects.push(r)),
{
    assert forall|j: int| 0 <= j < after.len() implies #[trigger] after[j] == if covered(
        rects.push(r),
        pixel_x(j),
        pixel_y(j),
    ) {
        255u8
    } else {
        background_byte(frame_id, j)
    } by {
        lemma_covered_push(rects, r, pixel_x(j), pixel_y(j));
        assert(before[j] == before[j]);
    }
}

/// Which segments of `digit` light up, in the order of `segment_table`.
fn digit_segments(digit: u64) -> (r: [bool; 7])
    requires
        digit < 10,
    ensures
        r@ == segment_table(digit as nat),
{
    let r = if digit == 0 {
        [true, true, true, false, true, true, true]
    } else if digit == 1 {
        [false, false, true, false, false, true, false]
    } else if digit == 2 {
        [true, false, true, true, true, false, true]
    } else if digit == 3 {
        [true, false, true, true, false, true, true]
    } else if digit == 4 {
        [false, true, true, true, false, true, false]
    } else if digit == 5 {
        [true, true, false, true, false, true, true]
    } else if digit == 6 {
        [true, true, false, true, true, true, true]
    } else if digit == 7 {
        [true, false, true, false, false, true, false]
    } else if digit == 8 {
        [true, true, true, true, true, true, true]
    } else {
        [true, true, true, true, false, true, true]
    };
    assert(r@ =~= segment_table(digit as nat));
    r
}

/// The rectangle of segment `segment` of a digit at `(x, y)`.
fn segment_rect_at(x: u32, y: u32, scale: u32, segment: usize) -> (r: Rect)
    requires
        x + 5 * scale <= u32::MAX,
        y + 9 * scale <= u32::MAX,
    ensures
        r == segment_rect(x, y, scale, segment as nat),
        r.x + r.width <= u32::MAX,
        r.y + r.height <= u32::MAX,
{
    if segment == 0 {
        Rect { x: x + scale, y, width: 3 * scale, height: scale }
    } else if segment == 1 {
        Rect { x, y: y + scale, width: scale, height: 3 * scale }
    } else if segment == 2 {
        Rect { x: x + 4 * scale, y: y + scale, width: scale, height: 3 * scale }
    } else if segment == 3 {
        Rect { x: x + scale, y: y + 4 * scale, width: 3 * scale, height: scale }
    } else if segment == 4 {
        Rect { x, y: y + 5 * scale, width: scale, height: 3 * scale }
    } else if segment == 5 {
        Rect { x: x + 4 * scale, y: y + 5 * scale, width: scale, height: 3 * scale }
    } else {
        Rect { x: x + scale, y: y + 8 * scale, width: 3 * scale, height: scale }
    }
}

/// The test frame of `frame_id`, byte for byte.
pub open spec fn pattern_bytes(frame_id: u64) -> Seq<u8> {
    Seq::new(TEST_FRAME_BYTES as nat, |j: int| pattern_byte(frame_id, j))
}

/// Draws the test frame of `frame_id`: the background, the frame id modulo
/// one million in six digits, and the progress marker.
pub fn generate_test_pattern(frame_id: u64) -> (r: RgbFrame)
    requires
        frame_id * 7 <= u64::MAX,
    ensures
        r.width == TEST_FRAME_WIDTH,
        r.height == TEST_FRAME_HEIGHT,
        r.pixels@ == pattern_bytes(frame_id),
{
    let mut pixels = draw_background(frame_id);
    let white: [u8; 3] = [255, 255, 255];
    assert(white@ =~= seq![255u8, 255u8, 255u8]);
    let value: u64 = frame_id % 1000000;
    let scale: u32 = DIGIT_SCALE;
    let digit_width: u32 = 5 * scale;
    let spacing: u32 = 2 * scale;
    let total_width: u32 = 6 * digit_width + 5 * spacing;
    let start_x: u32 = (TEST_FRAME_WIDTH - total_width) / 2;
    let mut divisor: u64 = 100000;
    let mut i: u32 = 0;
    while i < 6
        invariant
            i <= 6,
            i < 6 ==> divisor == place_value(i as nat),
            value == frame_id % 1000000,
            scale == 6,
            digit_width == 30,
            spacing == 12,
            start_x == 200,
            white@ == seq![255u8, 255u8, 255u8],
            painted(pixels@, frame_id, number_rects(value as nat, i as nat)),
        decreases 6 - i,
    {
        let digit: u64 = (value / divisor) % 10;
        assert(i * (digit_width + spacing) == 42 * i) by (nonlinear_arith)
            requires
                digit_width + spacing == 42,
        ;
        let x: u32 = start_x + i * (digit_width + spacing);
        let segments = digit_segments(digit);
        let ghost done = number_rects(value as nat, i as nat);
        assert(digit == digit_at(value as nat, i as nat));
        assert(x == digit_left(i as nat));
        let mut s: usize = 0;
        while s < 7
            invariant
                s <= 7,
                digit < 10,
                x == digit_left(i as nat),
                x <= 410,
                scale == 6,
                segments@ == segment_table(digit as nat),
                white@ == seq![255u8, 255u8, 255u8],
                painted(pixels@, frame_id, done + digit_rects(digit as nat, x, DIGITS_TOP, scale, s as nat)),
            decreases 7 - s,
        {
            let ghost drawn = done + digit_rects(digit as nat, x, DIGITS_TOP, scale, s as nat);
            if segments[s] {
                let rect = segment_rect_at(x, DIGITS_TOP, scale, s);
                let ghost before = pixels@;
                draw_rect(&mut pixels, rect, white);
                proof {
                    assert forall|j: int| 0 <= j < TEST_FRAME_BYTES implies #[trigger] pixels@[j]
                        == if in_rect(rect, pixel_x(j), pixel_y(j)) {
                        255u8
                    } else {
                        before[j]
                    } by {
                        assert(0 <= j % 3 < 3);
                    }
                    lemma_paint_step(before, pixels@, frame_id, drawn, rect);
                    assert(drawn.push(rect) =~= done + digit_rects(
                        digit as nat,
                        x,
                        DIGITS_TOP,
                        scale,
                        (s + 1) as nat,
                    ));
                }
            } else {
                assert(drawn =~= done + digit_rects(
                    digit as nat,
                    x,
                    DIGITS_TOP,
                    scale,
                    (s + 1) as nat,
                ));
            }
            s = s + 1;
        }
        divisor = divisor / 10;
        i = i + 1;
    }
    let marker_width: u32 = MARKER_SIZE;
    let usable_width: u32 = TEST_FRAME_WIDTH - marker_width;
    let marker_x: u32 = ((frame_id * 7) % (usable_width as u64)) as u32;
    let marker = Rect { x: marker_x, y: MARKER_TOP, width: marker_width, height: MARKER_SIZE };
    assert(marker == marker_rect(frame_id));
    let ghost before = pixels@;
    draw_rect(&mut pixels, marker, white);
    proof {
        assert forall|j: int| 0 <= j < TEST_FRAME_BYTES implies #[trigger] pixels@[j] == if in_rect(
            marker,
            pixel_x(j),
            pixel_y(j),
        ) {
            255u8
        } else {
            before[j]
        } by {
            assert(0 <= j % 3 < 3);
        }
        lemma_paint_step(before, pixels@, frame_id, number_rects(value as nat, 6), marker);
        assert(pixels@ =~= pattern_bytes(frame_id));
    }
    RgbFrame { width: TEST_FRAME_WIDTH, height: TEST_FRAME_HEIGHT, pixels }
}

/// Why a test frame could not be encoded.
#[derive(Debug, Clone, Copy, PartialEq, Eq, Structural)]
pub enum JpegEncodeError {
    /// The encoder refused the image.
    Encoder,
}

/// The test frame of `frame_id` as a JPEG of quality `quality`.
pub fn generate_jpeg_frame(frame_id: u64, quality: u8) -> (r: Result<Vec<u8>, JpegEncodeError>)
    requires
        frame_id * 7 <= u64::MAX,
    ensures
        r matches Ok(b) && b@ == jpeg_encoding(
            pattern_bytes(frame_id),
            TEST_FRAME_WIDTH,
            TEST_FRAME_HEIGHT,
            quality,
        ),
{
    let frame = generate_test_pattern(frame_id);
    match encode_jpeg_rgb8(frame.as_raw(), frame.width, frame.height, quality) {
        Ok(bytes) => Ok(bytes),
        Err(_) => Err(JpegEncodeError::Encoder),
    }
}

proof fn lemma_not_covered_above(rects: Seq<Rect>, px: int, py: int)
    requires
        forall|k: int| 0 <= k < rects.len() ==> py < (#[trigger] rects[k]).y,
    ensures
        !covered(rects, px, py),
    decreases rects.len(),
{
    if rects.len() > 0 {
        lemma_not_covered_above(rects.drop_last(), px, py);
        assert(py < rects[rects.len() - 1].y);
    }
}

proof fn lemma_digit_rects_below(digit: nat, x: u32, n: nat)
    requires
        x <= 410,
        n <= 7,
    ensures
        forall|k: int|
            0 <= k < digit_rects(digit, x, DIGITS_TOP, DIGIT_SCALE, n).len() ==> DIGITS_TOP <= (
            #[trigger] digit_rects(digit, x, DIGITS_TOP, DIGIT_SCALE, n)[k]).y,
    decreases n,
{
    if n > 0 {
        let m = (n - 1) as nat;
        lemma_digit_rects_below(digit, x, m);
        let before = digit_rects(digit, x, DIGITS_TOP, DIGIT_SCALE, m);
        let r = segment_rect(x, DIGITS_TOP, DIGIT_SCALE, m);
        assert(DIGITS_TOP <= r.y);
        if segment_table(digit)[m as int] {
            assert forall|k: int| 0 <= k < before.push(r).len() implies DIGITS_TOP <= (
            #[trigger] before.push(r)[k]).y by {
                if k < before.len() {
                    assert(before.push(r)[k] == before[k]);
                }
            }
        }
    }
}

proof fn lemma_number_rects_below(value: nat, n: nat)
    requires
        n <= 6,
    ensures
        forall|k: int|
            0 <= k < number_rects(value, n).len() ==> DIGITS_TOP <= (#[trigger] number_rects(
                value,
                n,
            )[k]).y,
    decreases n,
{
    if n > 0 {
        let m = (n - 1) as nat;
        lemma_number_rects_below(value, m);
        lemma_digit_rects_below(digit_at(value, m), digit_left(m), 7);
        let a = number_rects(value, m);
        let b = digit_rects(digit_at(value, m), digit_left(m), DIGITS_TOP, DIGIT_SCALE, 7);
        assert forall|k: int| 0 <= k < (a + b).len() implies DIGITS_TOP <= (#[trigger] (a
            + b)[k]).y by {
            if k < a.len() {
                assert((a + b)[k] == a[k]);
            } else {
                assert((a + b)[k] == b[k - a.len()]);
            }
        }
    }
}

/// The top-left pixel of every test frame shows the background, whose blue
/// channel is the frame id modulo 256 there: frames whose ids differ modulo
/// 256 differ.
pub proof fn lemma_frames_differ(a: u64, b: u64)
    requires
        a % 256 != b % 256,
    ensures
        pattern_bytes(a) != pattern_bytes(b),
        pattern_bytes(a)[2] == a % 256,
{
    assert forall|f: u64| #[trigger] pattern_byte(f, 2) == f % 256 by {
        let rects = pattern_rects(f);
        let digits = number_rects((f % 1000000) as nat, 6);
        lemma_number_rects_below((f % 1000000) as nat, 6);
        assert forall|k: int| 0 <= k < rects.len() implies 0 < (#[trigger] rects[k]).y by {
            if k < digits.len() {
                assert(rects[k] == digits[k]);
            }
        }
        lemma_not_covered_above(rects, 0, 0);
        assert(pixel_x(2) == 0 && pixel_y(2) == 0);
    }
    assert(pattern_bytes(a)[2] == pattern_byte(a, 2));
    assert(pattern_bytes(b)[2] == pattern_byte(b, 2));
}

/// The seven-segment glyphs, segments numbered top (0), upper left (1),
/// upper right (2), middle (3), lower left (4), lower right (5), bottom (6):
/// 0 lights all but the middle; 1 the two right segments; 2 top, upper
/// right, middle, lower left and bottom; 3 top, upper right, middle, lower
/// right and bottom; 4 upper left, upper right, middle and lower right; 5
/// top, upper left, middle, lower right and bottom; 6 all but upper right; 7
/// top and the two right segments; 8 all seven; 9 all but lower left. Each
/// digit has its own glyph.
pub proof fn lemma_seven_segment_glyphs()
    ensures
        segment_table(0) =~= seq![true, true, true, false, true, true, true],
        segment_table(1) =~= seq![false, false, true, false, false, true, false],
        segment_table(2) =~= seq![true, false, true, true, true, false, true],
        segment_table(3) =~= seq![true, false, true, true, false, true, true],
        segment_table(4) =~= seq![false, true, true, true, false, true, false],
        segment_table(5) =~= seq![true, true, false, true, false, true, true],
        segment_table(6) =~= seq![true, true, false, true, true, true, true],
        segment_table(7) =~= seq![true, false, true, false, false, true, false],
        segment_table(8) =~= seq![true, true, true, true, true, true, true],
        segment_table(9) =~= seq![true, true, true, true, false, true, true],
        forall|a: nat, b: nat| a < 10 && b < 10 && a != b ==> segment_table(a) != segment_table(b),
{
    assert forall|a: nat, b: nat| a < 10 && b < 10 && a != b implies segment_table(a)
        != segment_table(b) by {
        if segment_table(a) == segment_table(b) {
            assert(segment_table(a)[0] == segment_table(b)[0]);
            assert(segment_table(a)[1] == segment_table(b)[1]);
            assert(segment_table(a)[2] == segment_table(b)[2]);
            assert(segment_table(a)[3] == segment_table(b)[3]);
            assert(segment_table(a)[4] == segment_table(b)[4]);
            assert(segment_table(a)[5] == segment_table(b)[5]);
            assert(segment_table(a)[6] == segment_table(b)[6]);
        }
    }
}

} // verus!

