//! Decoding of encoded pictures (PNG, JPEG and the like) into RGBA samples.

use crate::raster::{Raster, RgbaImage};
use vstd::prelude::*;

verus! {

/// Makes `image::ImageError`, the error of the decoder, known as a type
/// whose inside is not looked at.
#[verifier::external_type_specification]
#[verifier::external_body]
pub struct ExImageError(image::ImageError);

/// What the decoder makes of a byte string: the RGBA picture that it holds,
/// or `None` where the bytes are no picture that the decoder can read.
pub uninterp spec fn decoded_picture(bytes: Seq<u8>) -> Option<Raster>;

/// Calls `image::guess_format`, then `image::load_from_memory_with_format`
/// with the format found, and converts the picture with
/// `DynamicImage::to_rgba8`. Trusted: the result is a function of the bytes
/// alone (the format is told from the first bytes by a fixed table, and the
/// decoder of that format is the crate's own), a decoded picture has exactly
/// four samples per pixel, and bytes that cannot be read are reported as an
/// error.
#[verifier::external_body]
pub(crate) fn decode_rgba(bytes: &[u8]) -> (r: Result<RgbaImage, image::ImageError>)
    ensures
        match r {
            Ok(picture) => decoded_picture(bytes@) == Some(picture@) && picture@.well_formed(4),
            Err(_) => decoded_picture(bytes@) is None,
        },
{
    let format = image::guess_format(bytes)?;
    let rgba = image::load_from_memory_with_format(bytes, format)?.to_rgba8();
    Ok(RgbaImage { width: rgba.width(), height: rgba.height(), data: rgba.into_raw() })
}

/// Decodes a picture, or says that the bytes hold none.
pub fn decode(bytes: &[u8]) -> (r: Option<RgbaImage>)
    ensures
        r is Some <==> decoded_picture(bytes@) is Some,
        r is Some ==> r->0@ == decoded_picture(bytes@)->0,
{
    match decode_rgba(bytes) {
        Ok(picture) => Some(picture),
        Err(_) => None,
    }
}

} // verus!
