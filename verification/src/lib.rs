//! Conversion of FlashPix (`.fpx`) images into browser-ready PNG or JPEG
//! files, with the camera model and capture date kept as EXIF metadata.

use vstd::prelude::*;

pub mod error;
pub mod fpx_ids;
pub mod le;
pub mod text;
pub mod propset;
pub mod subimage_header;
pub mod tile_decode;
pub mod png_writer;
pub mod jpeg_writer;
pub mod parse;
pub mod exif;
pub mod exif_read;
pub mod filetime;
pub mod cfbf;

use crate::cfbf::{cfb_open_result, cfb_opens, walk_is_tree};
use crate::error::Result;
use crate::parse::{decode_outcome, DecodedImage};
use crate::png_writer::opt_vec_view;

verus! {

/// Output image encoding a caller can request.
#[derive(Debug, Clone, Copy, PartialEq, Eq, Structural)]
pub enum OutputFormat {
    Png,
    Jpeg,
}

impl Default for OutputFormat {
    /// PNG: lossless, the format the converter exists to produce.
    fn default() -> (r: OutputFormat)
        ensures
            r == OutputFormat::Png,
    {
        OutputFormat::Png
    }
}

/// The file `image` encodes to in `format`, or nothing when the encoder
/// refuses it (a JPEG is at most 65535 pixels wide and tall).
pub open spec fn encoded_as(format: OutputFormat, image: DecodedImage) -> Option<Seq<u8>> {
    match format {
        OutputFormat::Png => png_writer::png_encoding(
            image.width,
            image.height,
            image.rgb@,
            opt_vec_view(image.exif),
        ),
        OutputFormat::Jpeg => if image.width <= 0xFFFF && image.height <= 0xFFFF {
            jpeg_writer::jpeg_encoding(
                image.width as u16,
                image.height as u16,
                image.rgb@,
                opt_vec_view(image.exif),
                jpeg_writer::QUALITY,
            )
        } else {
            None
        },
    }
}

/// `r` is the encoder refusing the image: PNG encoding failed, the image
/// is too large for JPEG, or JPEG encoding failed.
pub open spec fn is_encode_failure(r: Result<Vec<u8>>) -> bool {
    ||| error::is_png_encode(r)
    ||| r matches Err(error::FpxError::ImageTooLargeForJpeg { .. })
    ||| error::is_jpeg_encode(r)
}

/// `r` is what converting gives after decoding gave `d`: the decoding
/// error, or the image encoded as `format`, or the encoder's refusal.
pub open spec fn converted(d: Result<DecodedImage>, format: OutputFormat, r: Result<Vec<u8>>) -> bool {
    match d {
        Err(e) => r == Err::<Vec<u8>, error::FpxError>(e),
        Ok(image) => match encoded_as(format, image) {
            Some(bytes) => r matches Ok(v) && v@ == bytes,
            None => is_encode_failure(r),
        },
    }
}

/// Runs the whole parse-then-convert pipeline: given a `.fpx` file's raw
/// bytes, returns the converted image, encoded as `format`. Both ways of
/// running the converter (file paths, or stdin to stdout) go through this
/// same entry point.
pub fn convert(input: &[u8], format: OutputFormat) -> (r: Result<Vec<u8>>)
    ensures
        !cfb_opens(input@) <==> parse::is_not_compound_file(r),
        cfb_open_result(input@) matches Some(c) ==> {
            &&& walk_is_tree(c.0)
            &&& exists|d: Result<DecodedImage>| #[trigger] decode_outcome(c.0, c.2, c.1, d) && converted(d, format, r)
        },
{
    let image = match parse::parse_and_decode(input) {
        Ok(image) => image,
        Err(e) => {
            return Err(e);
        },
    };
    assert(image.width * 3 <= image.width * image.height * 3) by (nonlinear_arith)
        requires
            image.height >= 1,
    ;
    match format {
        OutputFormat::Png => png_writer::write(&image),
        OutputFormat::Jpeg => jpeg_writer::write(&image),
    }
}

} // verus!
