//! Encodes a decoded image as a lossless PNG, with an optional `eXIf`
//! chunk carrying archival metadata. Uses the `png` crate: a pure-Rust
//! encoder with first-class `eXIf` chunk support.

use std::borrow::Cow;
use vstd::prelude::*;

use crate::error::{is_png_encode, FpxError, Result};
use crate::parse::DecodedImage;

verus! {

/// The eight bytes every PNG file starts with.
pub open spec fn png_signature() -> Seq<u8> {
    seq![137u8, 80u8, 78u8, 71u8, 13u8, 10u8, 26u8, 10u8]
}

/// The PNG file `png::Encoder` writes for an 8-bit RGB image of the given
/// size, pixels and `eXIf` payload, or nothing when it refuses them.
pub uninterp spec fn png_encoding(width: u32, height: u32, rgb: Seq<u8>, exif: Option<Seq<u8>>) -> Option<
    Seq<u8>,
>;

/// The bytes of an optional slice.
pub open spec fn opt_slice_view(s: Option<&[u8]>) -> Option<Seq<u8>> {
    match s {
        Some(s) => Some(s@),
        None => None,
    }
}

/// The bytes of an optional buffer.
pub open spec fn opt_vec_view(v: Option<Vec<u8>>) -> Option<Seq<u8>> {
    match v {
        Some(v) => Some(v@),
        None => None,
    }
}

/// Encodes 8-bit RGB pixels as a PNG with `png::Encoder` (from an
/// `Info::with_size` carrying the `eXIf` payload), `write_header`,
/// `write_image_data` and `finish`, into memory. The file written is a
/// function of the arguments (`png_encoding`); it starts with the PNG
/// signature. A zero-sized image, or pixels that are not `width * height`
/// RGB triples, are refused. The encoder sizes rows and the image in
/// `usize` arithmetic, so their byte counts must fit.
#[verifier::external_body]
fn encode_png(width: u32, height: u32, rgb: &[u8], exif: Option<&[u8]>) -> (r: core::result::Result<
    Vec<u8>,
    png::EncodingError,
>)
    requires
        width * 3 < usize::MAX,
        width * height * 3 <= usize::MAX,
    ensures
        r is Ok <==> png_encoding(width, height, rgb@, opt_slice_view(exif)) is Some,
        r matches Ok(bytes) ==> png_encoding(width, height, rgb@, opt_slice_view(exif)) == Some(
            bytes@,
        ),
        width == 0 || height == 0 ==> r is Err,
        rgb@.len() != width * height * 3 ==> r is Err,
        r matches Ok(bytes) ==> bytes@.len() >= 8 && bytes@.take(8) == png_signature(),
{
    let mut out = Vec::new();
    let mut info = png::Info::with_size(width, height);
    info.color_type = png::ColorType::Rgb;
    info.bit_depth = png::BitDepth::Eight;
    info.exif_metadata = exif.map(Cow::Borrowed);
    let mut writer = png::Encoder::with_info(&mut out, info)?.write_header()?;
    writer.write_image_data(rgb)?;
    writer.finish()?;
    Ok(out)
}

/// Encodes `image` as a PNG, with its EXIF payload, if any, as an `eXIf`
/// chunk.
pub fn write(image: &DecodedImage) -> (r: Result<Vec<u8>>)
    requires
        image.width * 3 < usize::MAX,
        image.width * image.height * 3 <= usize::MAX,
    ensures
        ({
            let encoded = png_encoding(image.width, image.height, image.rgb@, opt_vec_view(image.exif));
            &&& r matches Ok(bytes) ==> encoded == Some(bytes@)
            &&& encoded is None <==> is_png_encode(r)
            &&& r is Err ==> is_png_encode(r)
        }),
        r matches Ok(bytes) ==> bytes@.len() >= 8 && bytes@.take(8) == png_signature(),
        image.width == 0 || image.height == 0 ==> is_png_encode(r),
        image.rgb@.len() != image.width * image.height * 3 ==> is_png_encode(r),
{
    let exif = match &image.exif {
        Some(e) => Some(e.as_slice()),
        None => None,
    };
    assert(opt_slice_view(exif) == opt_vec_view(image.exif));
    match encode_png(image.width, image.height, image.rgb.as_slice(), exif) {
        Ok(bytes) => Ok(bytes),
        Err(e) => Err(FpxError::PngEncode(e)),
    }
}

} // verus!
