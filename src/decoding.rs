//! Decoding a tile's image file and scaling it to the tile's size, through
//! the `image` crate.

use vstd::prelude::*;

verus! {

#[verifier::external_type_specification]
#[verifier::external_body]
pub struct ExImageError(image::ImageError);

/// Whether `bytes` hold an image file that the decoder reads.
pub uninterp spec fn decodes(bytes: Seq<u8>) -> bool;

/// The error of a tile whose image file could not be decoded.
#[derive(Debug, Clone, Copy, PartialEq, Eq)]
pub struct ImageLoadError;

/// The raw RGB image, `width × height` pixels of three bytes each, that
/// the image file held in `bytes` decodes and scales to.
pub uninterp spec fn scaled_rgb(bytes: Seq<u8>, width: u32, height: u32) -> Seq<u8>;

/// Relies on `image::load_from_memory`, then `DynamicImage::resize_exact`
/// with the triangle filter and `DynamicImage::to_rgb8`. The decoder guesses
/// the format from the bytes, so whether it succeeds, and the image it
/// yields, depend on the bytes alone; the scaled image has exactly
/// `width × height` pixels, and its raw buffer holds three bytes for each.
/// `ImageBuffer::new` panics where the length of a buffer overflows `usize`;
/// the bound keeps every buffer of the result's size, up to four channels,
/// in range.
#[verifier::external_body]
pub(crate) fn decode_scaled(bytes: &[u8], width: u32, height: u32) -> (r: Result<
    Vec<u8>,
    image::ImageError,
>)
    requires
        width * height * 4 <= usize::MAX,
    ensures
        r.is_ok() == decodes(bytes@),
        r matches Ok(v) ==> v@ == scaled_rgb(bytes@, width, height) && v@.len() == width * height
            * 3,
{
    match image::load_from_memory(bytes) {
        Ok(img) => Ok(
            img.resize_exact(width, height, image::imageops::FilterType::Triangle).to_rgb8().into_raw(),
        ),
        Err(e) => Err(e),
    }
}

/// Decodes the image file held in `bytes` and scales it to `width × height`
/// pixels of three bytes (red, green, blue) each.
pub fn load_rgb(bytes: &[u8], width: u32, height: u32) -> (r: Result<Vec<u8>, ImageLoadError>)
    requires
        width * height * 4 <= usize::MAX,
    ensures
        r.is_ok() == decodes(bytes@),
        r matches Ok(raw) ==> raw@ == scaled_rgb(bytes@, width, height) && raw@.len() == width
            * height * 3,
{
    match decode_scaled(bytes, width, height) {
        Ok(raw) => Ok(raw),
        Err(_) => Err(ImageLoadError),
    }
}

} // verus!
