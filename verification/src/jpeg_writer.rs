//! Encodes a decoded image as a JPEG, with the same archival EXIF payload
//! `exif.rs` builds for PNG embedded as a JPEG APP1 `Exif` segment. Uses
//! the `jpeg-encoder` crate: pure Rust, no C toolchain needed.

use vstd::prelude::*;

use crate::error::{is_jpeg_encode, is_too_large_for_jpeg, FpxError, Result};
use crate::parse::DecodedImage;
use crate::png_writer::{opt_slice_view, opt_vec_view};

verus! {

/// Matches common photo-viewer defaults: visually close to the source for
/// a photo that's already been through one lossy JPEG generation in-camera,
/// without the size cost of a near-100 setting.
pub const QUALITY: u8 = 90;

/// The JPEG file `jpeg_encoder::Encoder` writes for an 8-bit RGB image of
/// the given size, pixels, `Exif` payload and quality, or nothing when it
/// refuses them.
pub uninterp spec fn jpeg_encoding(
    width: u16,
    height: u16,
    rgb: Seq<u8>,
    exif: Option<Seq<u8>>,
    quality: u8,
) -> Option<Seq<u8>>;

/// Encodes 8-bit RGB pixels as a JPEG with `jpeg_encoder::Encoder::new`,
/// `add_exif_metadata` and `encode`, into memory. The file written is a
/// function of the arguments (`jpeg_encoding`); it starts with the SOI
/// marker. A zero-sized image, fewer pixel bytes than `width * height` RGB
/// triples, or an EXIF payload too large for an APP1 segment are refused.
/// The encoder sizes the image in `usize` arithmetic, so its byte count
/// must fit.
#[verifier::external_body]
fn encode_jpeg(width: u16, height: u16, rgb: &[u8], exif: Option<&[u8]>, quality: u8) -> (r:
    core::result::Result<Vec<u8>, jpeg_encoder::EncodingError>)
    requires
        width * height * 3 <= usize::MAX,
    ensures
        r is Ok <==> jpeg_encoding(width, height, rgb@, opt_slice_view(exif), quality) is Some,
        r matches Ok(bytes) ==> jpeg_encoding(width, height, rgb@, opt_slice_view(exif), quality)
            == Some(bytes@),
        width == 0 || height == 0 ==> r is Err,
        rgb@.len() < width * height * 3 ==> r is Err,
        exif matches Some(e) && e@.len() + 6 > 65533 ==> r is Err,
        r matches Ok(bytes) ==> bytes@.len() >= 2 && bytes@[0] == 0xFF && bytes@[1] == 0xD8,
{
    let mut out = Vec::new();
    let mut encoder = jpeg_encoder::Encoder::new(&mut out, quality);
    if let Some(e) = exif {
        encoder.add_exif_metadata(e)?;
    }
    encoder.encode(rgb, width, height, jpeg_encoder::ColorType::Rgb)?;
    Ok(out)
}

/// Encodes `image` as a JPEG at quality 90, with its EXIF payload, if any,
/// as an APP1 `Exif` segment. A JPEG is at most 65535 pixels wide and tall.
pub fn write(image: &DecodedImage) -> (r: Result<Vec<u8>>)
    requires
        image.width * image.height * 3 <= usize::MAX,
    ensures
        image.width > 0xFFFF || image.height > 0xFFFF ==> is_too_large_for_jpeg(
            r,
            image.width,
            image.height,
        ),
        image.width <= 0xFFFF && image.height <= 0xFFFF ==> {
            let encoded = jpeg_encoding(
                image.width as u16,
                image.height as u16,
                image.rgb@,
                opt_vec_view(image.exif),
                QUALITY,
            );
            &&& r matches Ok(bytes) ==> encoded == Some(bytes@)
            &&& encoded is None <==> is_jpeg_encode(r)
            &&& r is Err ==> is_jpeg_encode(r)
            &&& image.width == 0 || image.height == 0 ==> is_jpeg_encode(r)
        },
        r matches Ok(bytes) ==> bytes@.len() >= 2 && bytes@[0] == 0xFF && bytes@[1] == 0xD8,
{
    if image.width > 0xFFFF || image.height > 0xFFFF {
        return Err(FpxError::ImageTooLargeForJpeg { width: image.width, height: image.height });
    }
    let exif = match &image.exif {
        Some(e) => Some(e.as_slice()),
        None => None,
    };
    assert(opt_slice_view(exif) == opt_vec_view(image.exif));
    match encode_jpeg(image.width as u16, image.height as u16, image.rgb.as_slice(), exif, QUALITY) {
        Ok(bytes) => Ok(bytes),
        Err(e) => Err(FpxError::JpegEncode(e)),
    }
}

} // verus!
