//! Receiver preview frames: decoded JPEG pixels packed as `0x00RRGGBB`.

use crate::jpeg::{decode_jpeg_rgb8, jpeg_rgb8};
use vstd::prelude::*;

verus! {

/// A frame ready for display.
#[derive(Debug, Clone, PartialEq, Eq)]
pub struct PreviewFrame {
    pub frame_id: u64,
    pub width: usize,
    pub height: usize,
    pub pixels: Vec<u32>,
}

/// Why a preview frame could not be built or shown.
#[derive(Debug, Clone, Copy, PartialEq, Eq, Structural)]
pub enum PreviewError {
    /// The bytes are not a JPEG the decoder accepts.
    InvalidJpeg,
    /// `width * height` does not fit in a `usize`.
    DimensionsOverflow,
    /// The pixel buffer does not hold `width * height` pixels.
    BufferSizeMismatch,
}

/// One pixel as `0x00RRGGBB`.
pub open spec fn pack_rgb(r: u8, g: u8, b: u8) -> u32 {
    (r as nat * 65536 + g as nat * 256 + b as nat) as u32
}

/// The packed pixels of the first `n` RGB triples of `rgb`.
pub open spec fn packed_pixels(rgb: Seq<u8>, n: nat) -> Seq<u32> {
    Seq::new(n, |i: int| pack_rgb(rgb[3 * i], rgb[3 * i + 1], rgb[3 * i + 2]))
}

/// The error that validating a preview frame reports, if any.
pub open spec fn preview_frame_error(width: usize, height: usize, pixels: nat) -> Option<PreviewError> {
    if width * height > usize::MAX {
        Some(PreviewError::DimensionsOverflow)
    } else if pixels != width * height {
        Some(PreviewError::BufferSizeMismatch)
    } else {
        None
    }
}

/// Checks that the pixel buffer holds exactly `width * height` pixels.
pub fn validate_preview_frame(frame: &PreviewFrame) -> (r: Result<(), PreviewError>)
    ensures
        match preview_frame_error(frame.width, frame.height, frame.pixels@.len()) {
            Some(e) => r == Err::<(), PreviewError>(e),
            None => r is Ok,
        },
{
    let expected_pixels = match frame.width.checked_mul(frame.height) {
        Some(n) => n,
        None => {
            return Err(PreviewError::DimensionsOverflow);
        },
    };
    if frame.pixels.len() != expected_pixels {
        return Err(PreviewError::BufferSizeMismatch);
    }
    Ok(())
}

/// Decodes a JPEG into a preview frame with its pixels packed in row order.
pub fn preview_frame_from_jpeg(frame_id: u64, jpeg: &[u8]) -> (r: Result<PreviewFrame, PreviewError>)
    ensures
        match jpeg_rgb8(jpeg@) {
            None => r == Err::<PreviewFrame, PreviewError>(PreviewError::InvalidJpeg),
            Some((w, h, rgb)) => r matches Ok(f) && f.frame_id == frame_id && f.width == w
                && f.height == h && f.pixels@ == packed_pixels(rgb, (w * h) as nat),
        },
{
    let decoded = match decode_jpeg_rgb8(jpeg) {
        Ok(d) => d,
        Err(_) => {
            return Err(PreviewError::InvalidJpeg);
        },
    };
    let width = decoded.width as usize;
    let height = decoded.height as usize;
    let len = decoded.rgb.len();
    assert(decoded.width * decoded.height <= decoded.rgb@.len()) by (nonlinear_arith)
        requires
            decoded.rgb@.len() >= 3 * decoded.width * decoded.height,
    ;
    assert(3 * (decoded.width * decoded.height) == 3 * decoded.width * decoded.height) by (nonlinear_arith);
    let n = width * height;
    let mut pixels: Vec<u32> = Vec::new();
    let mut i: usize = 0;
    while i < n
        invariant
            n == decoded.width * decoded.height,
            len == decoded.rgb@.len(),
            len >= 3 * n,
            i <= n,
            pixels@ =~= packed_pixels(decoded.rgb@, i as nat),
        decreases n - i,
    {
        assert(3 * i + 2 < 3 * n) by (nonlinear_arith)
            requires
                i < n,
        ;
        let k = 3 * i;
        let red = decoded.rgb[k] as u32;
        let green = decoded.rgb[k + 1] as u32;
        let blue = decoded.rgb[k + 2] as u32;
        pixels.push(red * 65536 + green * 256 + blue);
        i = i + 1;
    }
    Ok(PreviewFrame { frame_id, width, height, pixels })
}

} // verus!
