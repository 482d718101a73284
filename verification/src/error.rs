//! Errors of the conversion pipeline. Every variant names what went wrong
//! and, where relevant, which stream it came from.

use vstd::prelude::*;

verus! {

/// `std::io::Error`, carried through unchanged as the cause of a failed
/// container or stream read.
#[verifier::external_type_specification]
#[verifier::external_body]
pub struct ExIoError(std::io::Error);

/// `jpeg_decoder::Error`, carried through unchanged as the cause of a
/// failed tile decode.
#[verifier::external_type_specification]
#[verifier::external_body]
pub struct ExJpegDecodeError(jpeg_decoder::Error);

/// `png::EncodingError`, carried through unchanged as the cause of a failed
/// PNG encode.
#[verifier::external_type_specification]
#[verifier::external_body]
pub struct ExPngEncodingError(png::EncodingError);

/// `jpeg_encoder::EncodingError`, carried through unchanged as the cause of
/// a failed JPEG encode.
#[verifier::external_type_specification]
#[verifier::external_body]
pub struct ExJpegEncodingError(jpeg_encoder::EncodingError);

/// Pixel layout of a decoded JPEG tile.
#[derive(Debug, Clone, Copy, PartialEq, Eq, Structural)]
pub enum PixelFormat {
    /// Luminance (grayscale), 8 bits.
    L8,
    /// Luminance (grayscale), 16 bits.
    L16,
    /// RGB, 8 bits per channel.
    RGB24,
    /// CMYK, 8 bits per channel.
    CMYK32,
}

/// Errors surfaced to the caller.
#[allow(inconsistent_fields)]
#[derive(Debug)]
pub enum FpxError {
    /// The input file could not be read.
    OpenInput { path: String, source: std::io::Error },
    /// The input is not a Compound File Binary container.
    NotCompoundFile(std::io::Error),
    /// The container holds no `Image Contents` stream.
    NotFlashPix,
    /// A stream or storage, or a well-formed value, the format requires is missing.
    MissingEntry(String),
    /// A stream or storage could not be read.
    StreamRead { name: String, source: std::io::Error },
    /// A stream is shorter than a structure it must hold.
    Truncated { stream: String, needed: u64, found: usize },
    /// A property has another type than the one expected.
    WrongPropertyType { stream: String, property: u32, expected: &'static str, found: u32 },
    /// A required property is missing from a property set.
    MissingProperty { stream: String, property: u32, name: &'static str },
    /// The FlashPix object holds no `Resolution NNNN` storage.
    NoResolutions,
    /// The image is too large for its pixel buffer to be addressed.
    ImageTooLarge { width: u32, height: u32 },
    /// A tile uses a compression other than JPEG.
    UnsupportedCompression { stream: String, found: u32 },
    /// A tile's JPEG data failed to decode.
    TileDecode { stream: String, index: usize, source: jpeg_decoder::Error },
    /// A tile decoded to a pixel format other than RGB.
    UnexpectedPixelFormat { stream: String, index: usize, found: PixelFormat },
    /// A tile decoded to fewer pixels than its place in the image needs.
    TileTooSmall { stream: String, index: usize, needed: u128, found: usize },
    /// The image is wider or taller than a JPEG can be (65535 pixels).
    ImageTooLargeForJpeg { width: u32, height: u32 },
    /// PNG encoding failed.
    PngEncode(png::EncodingError),
    /// JPEG encoding failed.
    JpegEncode(jpeg_encoder::EncodingError),
    /// Writing the output failed.
    Io(std::io::Error),
}

/// Result of the conversion pipeline's steps.
pub type Result<T> = core::result::Result<T, FpxError>;

} // verus!

verus! {

/// `r` is an `ImageTooLarge` error.
pub open spec fn is_image_too_large<T>(r: Result<T>) -> bool {
    r matches Err(FpxError::ImageTooLarge { .. })
}

/// `r` is a `Truncated` error for `stream`, needing `needed` bytes where
/// `found` were present.
pub open spec fn is_truncated<T>(r: Result<T>, stream: Seq<char>, needed: int, found: int) -> bool {
    match r {
        Err(FpxError::Truncated { stream: s, needed: n, found: f }) => s@ == stream && n == needed
            && f == found,
        _ => false,
    }
}

/// `r` is a `MissingEntry` error with message `msg`.
pub open spec fn is_missing_entry<T>(r: Result<T>, msg: Seq<char>) -> bool {
    match r {
        Err(FpxError::MissingEntry(m)) => m@ == msg,
        _ => false,
    }
}

/// `r` is a `MissingProperty` error for `property` of `stream`.
pub open spec fn is_missing_property<T>(
    r: Result<T>,
    stream: Seq<char>,
    property: u32,
    name: Seq<char>,
) -> bool {
    match r {
        Err(FpxError::MissingProperty { stream: s, property: p, name: n }) => s@ == stream && p
            == property && n@ == name,
        _ => false,
    }
}

/// `r` is a `WrongPropertyType` error for `property` of `stream`.
pub open spec fn is_wrong_property_type<T>(
    r: Result<T>,
    stream: Seq<char>,
    property: u32,
    expected: Seq<char>,
    found: u32,
) -> bool {
    match r {
        Err(FpxError::WrongPropertyType { stream: s, property: p, expected: e, found: f }) => s@
            == stream && p == property && e@ == expected && f == found,
        _ => false,
    }
}

/// `r` is an `UnsupportedCompression` error for `stream`.
pub open spec fn is_unsupported_compression<T>(r: Result<T>, stream: Seq<char>, found: u32) -> bool {
    match r {
        Err(FpxError::UnsupportedCompression { stream: s, found: f }) => s@ == stream && f == found,
        _ => false,
    }
}

/// `r` is a `PngEncode` error.
pub open spec fn is_png_encode<T>(r: Result<T>) -> bool {
    r matches Err(FpxError::PngEncode(_))
}

/// `r` is a `JpegEncode` error.
pub open spec fn is_jpeg_encode<T>(r: Result<T>) -> bool {
    r matches Err(FpxError::JpegEncode(_))
}

/// `r` is an `ImageTooLargeForJpeg` error for a `width` x `height` image.
pub open spec fn is_too_large_for_jpeg<T>(r: Result<T>, width: u32, height: u32) -> bool {
    match r {
        Err(FpxError::ImageTooLargeForJpeg { width: w, height: h }) => w == width && h == height,
        _ => false,
    }
}

/// A `Truncated` error for `stream`.
pub fn truncated(stream: &str, needed: u64, found: usize) -> (e: FpxError)
    ensures
        is_truncated::<()>(Err(e), stream@, needed as int, found as int),
{
    FpxError::Truncated { stream: String::from_str(stream), needed, found }
}

} // verus!
