//! JPEG decoding and encoding through the `image` crate.

use vstd::prelude::*;

verus! {

#[verifier::external_type_specification]
#[verifier::external_body]
pub struct ExImageError(image::ImageError);

/// A decoded image as 8-bit RGB samples, row by row.
pub struct DecodedRgb {
    pub width: u32,
    pub height: u32,
    pub rgb: Vec<u8>,
}

/// What decoding `jpeg` as a JPEG gives: width, height and RGB samples, or
/// `None` when the bytes are not a JPEG the decoder accepts.
pub uninterp spec fn jpeg_rgb8(jpeg: Seq<u8>) -> Option<(u32, u32, Seq<u8>)>;

/// `image::load_from_memory_with_format(jpeg, ImageFormat::Jpeg)` followed by
/// `to_rgb8`, `width`, `height` and `into_raw`: the result is named
/// `jpeg_rgb8`. An RGB image buffer holds at least three samples per pixel,
/// which every constructor of `ImageBuffer` checks.
#[verifier::external_body]
pub(crate) fn decode_jpeg_rgb8(jpeg: &[u8]) -> (r: Result<DecodedRgb, image::ImageError>)
    ensures
        r matches Ok(d) ==> jpeg_rgb8(jpeg@) == Some((d.width, d.height, d.rgb@)),
        r matches Ok(d) ==> d.rgb@.len() >= 3 * d.width * d.height,
        r is Err ==> jpeg_rgb8(jpeg@) is None,
{
    let image = image::load_from_memory_with_format(jpeg, image::ImageFormat::Jpeg)?;
    let rgb = image.to_rgb8();
    Ok(DecodedRgb { width: rgb.width(), height: rgb.height(), rgb: rgb.into_raw() })
}

/// The JPEG that the `image` crate's baseline encoder writes for the RGB
/// samples `rgb` of a `width` by `height` image at quality `quality`.
pub uninterp spec fn jpeg_encoding(rgb: Seq<u8>, width: u32, height: u32, quality: u8) -> Seq<u8>;

/// `image::codecs::jpeg::JpegEncoder::new_with_quality(&mut out, quality)`
/// then `encode(rgb, width, height, ExtendedColorType::Rgb8)` into a `Vec`:
/// the bytes written are named `jpeg_encoding`. The encoder panics unless
/// `rgb` holds exactly three samples per pixel, refuses a side of zero or
/// above 65535, and cannot fail otherwise, since writing to a `Vec` does not
/// fail.
#[verifier::external_body]
pub(crate) fn encode_jpeg_rgb8(rgb: &[u8], width: u32, height: u32, quality: u8) -> (r: Result<
    Vec<u8>,
    image::ImageError,
>)
    requires
        rgb@.len() == 3 * width * height,
    ensures
        r is Ok <==> (1 <= width <= 65535 && 1 <= height <= 65535),
        r matches Ok(b) ==> b@ == jpeg_encoding(rgb@, width, height, quality),
{
    let mut out = Vec::new();
    image::codecs::jpeg::JpegEncoder::new_with_quality(&mut out, quality).encode(
        rgb,
        width,
        height,
        image::ExtendedColorType::Rgb8,
    )?;
    Ok(out)
}

} // verus!
