use std::io::Cursor;

use fpx_convert::cfbf::{is_resolution_storage_name, matches_visible_name, path_to_text, strip_fpx_prefix};
use fpx_convert::error::FpxError;
use fpx_convert::exif::build;
use fpx_convert::filetime::format_exif_datetime;
use fpx_convert::fpx_ids::pid_jpeg_tables;
use fpx_convert::le::{push_range, push_u16_le, push_u32_le, read_u16_le, read_u32_le};
use fpx_convert::parse::DecodedImage;
use fpx_convert::text::{decimal_len, push_decimal, push_zero_padded};
use fpx_convert::error::PixelFormat;
use fpx_convert::tile_decode::{place_decoded, place_tile};
use fpx_convert::{jpeg_writer, png_writer};

#[test]
fn jpeg_tables_property_ids() {
    assert_eq!(pid_jpeg_tables(0), 0x0300_0001);
    assert_eq!(pid_jpeg_tables(1), 0x0301_0001);
    assert_eq!(pid_jpeg_tables(0xFF), 0x03FF_0001);
}

#[test]
fn exif_model_fitting_inline() {
    let bytes = build(Some("abc"), None).unwrap();
    let expected: Vec<u8> = vec![
        b'I', b'I', 42, 0, 8, 0, 0, 0, // TIFF header
        1, 0, // one entry
        0x10, 0x01, 2, 0, 4, 0, 0, 0, b'a', b'b', b'c', 0, // Model, ASCII, 4, inline
        0, 0, 0, 0, // no next IFD
    ];
    assert_eq!(bytes, expected);
}

#[test]
fn exif_model_in_overflow_area_is_padded() {
    let bytes = build(Some("abcd"), None).unwrap();
    let expected: Vec<u8> = vec![
        b'I', b'I', 42, 0, 8, 0, 0, 0, //
        1, 0, //
        0x10, 0x01, 2, 0, 5, 0, 0, 0, 26, 0, 0, 0, // value at offset 26
        0, 0, 0, 0, //
        b'a', b'b', b'c', b'd', 0, 0, // value, padded to even length
    ];
    assert_eq!(bytes, expected);
}

#[test]
fn exif_date_only_links_the_exif_ifd() {
    let bytes = build(None, Some("1997:12:25 15:29:39")).unwrap();
    let mut expected: Vec<u8> = vec![
        b'I', b'I', 42, 0, 8, 0, 0, 0, //
        1, 0, //
        0x69, 0x87, 4, 0, 1, 0, 0, 0, 26, 0, 0, 0, // ExifIFD pointer -> 26
        0, 0, 0, 0, //
        1, 0, // Exif IFD at 26
        0x03, 0x90, 2, 0, 20, 0, 0, 0, 44, 0, 0, 0, // DateTimeOriginal at 44
        0, 0, 0, 0, //
    ];
    expected.extend_from_slice(b"1997:12:25 15:29:39\0");
    assert_eq!(bytes, expected);
}

#[test]
fn exif_model_and_date_pointer_follows_the_overflow_area() {
    let bytes = build(Some("DC210 Zoom (V01.02)"), Some("1997:12:25 15:29:39")).unwrap();
    // IFD0: 2 + 2 * 12 + 4 = 30 bytes at 8, then the 20-byte model value.
    let pointer = u32::from_le_bytes(bytes[8 + 2 + 12 + 8..8 + 2 + 12 + 12].try_into().unwrap());
    assert_eq!(pointer, 8 + 30 + 20);
    assert_eq!(u16::from_le_bytes([bytes[58], bytes[59]]), 1);
    assert_eq!(u16::from_le_bytes([bytes[60], bytes[61]]), 0x9003);
    assert_eq!(bytes.len(), 58 + 18 + 20);
}

#[test]
fn filetime_epoch_and_boundaries() {
    // 1970-01-01 00:00:00 UTC
    assert_eq!(
        format_exif_datetime(116_444_736_000_000_000).as_deref(),
        Some("1970:01:01 00:00:00")
    );
    // one second before the epoch
    assert_eq!(
        format_exif_datetime(116_444_735_990_000_000).as_deref(),
        Some("1969:12:31 23:59:59")
    );
    // the first tick of 1601
    assert_eq!(format_exif_datetime(1).as_deref(), Some("1601:01:01 00:00:00"));
    // 1900-03-01 12:00:00 UTC (1900 is not a leap year)
    let secs: u64 = 9_440_625_600;
    assert_eq!(
        format_exif_datetime(secs * 10_000_000).as_deref(),
        Some("1900:03:01 12:00:00")
    );
    // 2000-02-29 12:34:56 UTC (leap day)
    let secs: u64 = 951_827_696;
    assert_eq!(
        format_exif_datetime((secs + 11_644_473_600) * 10_000_000 + 9_999_999).as_deref(),
        Some("2000:02:29 12:34:56")
    );
    // 2100-03-01 00:00:00 UTC (2100 is not a leap year)
    let secs: u64 = 4_107_542_400;
    assert_eq!(
        format_exif_datetime((secs + 11_644_473_600) * 10_000_000).as_deref(),
        Some("2100:03:01 00:00:00")
    );
    // the largest FILETIME still formats, with a five-digit year
    assert_eq!(
        format_exif_datetime(u64::MAX).as_deref(),
        Some("60056:05:28 05:36:10")
    );
}

#[test]
fn visible_names_and_resolution_names() {
    assert!(matches_visible_name("Image Contents", "Image Contents"));
    assert!(matches_visible_name("\u{5}Image Contents", "Image Contents"));
    assert!(!matches_visible_name("XImage Contents", "Image Contents"));
    assert!(!matches_visible_name("\u{5}\u{5}Image Contents", "Image Contents"));
    assert!(is_resolution_storage_name("Resolution 0005"));
    assert!(!is_resolution_storage_name("Resolution 5"));
    assert!(!is_resolution_storage_name("Resolution 00a5"));
    assert!(!is_resolution_storage_name("Resolution 00005"));
}

#[test]
fn path_text_joins_names() {
    assert_eq!(path_to_text(&[]), "/");
    let p = vec!["Data Object Store 000001".to_string(), "Resolution 0000".to_string()];
    assert_eq!(path_to_text(&p), "/Data Object Store 000001/Resolution 0000");
}

#[test]
fn fpx_prefix_is_stripped() {
    let mut data = vec![7u8; 28];
    data.extend_from_slice(&[1, 2, 3]);
    assert_eq!(strip_fpx_prefix("s", &data).unwrap(), &[1, 2, 3][..]);
    match strip_fpx_prefix("s", &data[..27]).unwrap_err() {
        FpxError::Truncated { stream, needed, found } => {
            assert_eq!((stream.as_str(), needed, found), ("s", 28, 27));
        }
        other => panic!("unexpected error {other:?}"),
    }
}

#[test]
fn little_endian_round_trip() {
    let mut out = Vec::new();
    push_u16_le(&mut out, 0xBEEF);
    push_u32_le(&mut out, 0x1234_5678);
    assert_eq!(out, vec![0xEF, 0xBE, 0x78, 0x56, 0x34, 0x12]);
    assert_eq!(read_u16_le(&out, 0), Some(0xBEEF));
    assert_eq!(read_u32_le(&out, 2), Some(0x1234_5678));
    assert_eq!(read_u32_le(&out, 3), None);
    assert_eq!(read_u16_le(&out, 7), None);
    let mut tail = vec![9];
    push_range(&mut tail, &out, 1, 3);
    assert_eq!(tail, vec![9, 0xBE, 0x78]);
}

#[test]
fn decimal_text() {
    let mut s = String::from("n=");
    push_decimal(&mut s, 0);
    push_decimal(&mut s, 1234);
    assert_eq!(s, "n=01234");
    assert_eq!(decimal_len(0), 1);
    assert_eq!(decimal_len(99_999), 5);
    let mut t = String::new();
    push_zero_padded(&mut t, 7, 3);
    push_zero_padded(&mut t, 12345, 2);
    assert_eq!(t, "00712345");
}

#[test]
fn tiles_are_placed_row_major_and_cropped() {
    // a 3x3 image of 2x2 tiles: tile 3 covers only pixel (2, 2)
    let mut full = vec![0u8; 3 * 3 * 3];
    let tile: Vec<u8> = (1..=12).collect();
    place_tile(&mut full, 3, 3, 2, 2, 0, &tile);
    place_tile(&mut full, 3, 3, 2, 2, 3, &[100, 101, 102]);
    assert_eq!(&full[0..6], &[1, 2, 3, 4, 5, 6]);
    assert_eq!(&full[6..9], &[0, 0, 0]);
    assert_eq!(&full[9..15], &[7, 8, 9, 10, 11, 12]);
    assert_eq!(&full[24..27], &[100, 101, 102]);
    // tile 1 (top right) keeps only its first column
    place_tile(&mut full, 3, 3, 2, 2, 1, &[20, 21, 22, 23, 24, 25, 26, 27, 28]);
    assert_eq!(&full[6..9], &[20, 21, 22]);
    assert_eq!(&full[15..18], &[26, 27, 28]);
}

fn image(width: u32, height: u32, exif: Option<Vec<u8>>) -> DecodedImage {
    let rgb = (0..width * height * 3).map(|i| (i * 7 % 251) as u8).collect();
    DecodedImage { width, height, rgb, exif }
}

#[test]
fn png_is_lossless_and_carries_exif() {
    let exif = build(Some("cam"), None);
    let img = image(5, 3, exif.clone());
    let bytes = png_writer::write(&img).unwrap();
    assert_ne!(bytes, img.rgb);
    let decoder = png::Decoder::new(Cursor::new(&bytes));
    let mut reader = decoder.read_info().unwrap();
    let mut buf = vec![0; reader.output_buffer_size().unwrap()];
    let info = reader.next_frame(&mut buf).unwrap();
    assert_eq!((info.width, info.height), (5, 3));
    assert_eq!(&buf[..info.buffer_size()], &img.rgb[..]);
    assert_eq!(reader.info().exif_metadata.as_ref().map(|e| e.to_vec()), exif);
}

#[test]
fn png_refuses_zero_size_and_wrong_pixel_count() {
    assert!(matches!(
        png_writer::write(&image(0, 3, None)).unwrap_err(),
        FpxError::PngEncode(_)
    ));
    let mut img = image(4, 4, None);
    img.rgb.pop();
    assert!(matches!(png_writer::write(&img).unwrap_err(), FpxError::PngEncode(_)));
}

#[test]
fn jpeg_refuses_oversized_and_zero_size_images() {
    let wide = DecodedImage { width: 65_536, height: 1, rgb: Vec::new(), exif: None };
    match jpeg_writer::write(&wide).unwrap_err() {
        FpxError::ImageTooLargeForJpeg { width, height } => assert_eq!((width, height), (65_536, 1)),
        other => panic!("unexpected error {other:?}"),
    }
    assert!(matches!(
        jpeg_writer::write(&image(3, 0, None)).unwrap_err(),
        FpxError::JpegEncode(_)
    ));
    let big_exif = DecodedImage { exif: Some(vec![0; 70_000]), ..image(2, 2, None) };
    assert!(matches!(jpeg_writer::write(&big_exif).unwrap_err(), FpxError::JpegEncode(_)));
}

#[test]
fn jpeg_output_decodes_to_the_image_size() {
    let img = image(9, 7, build(None, Some("2001:01:01 00:00:00")));
    let bytes = jpeg_writer::write(&img).unwrap();
    assert!(bytes.windows(6).any(|w| w == b"Exif\0\0"));
    let mut decoder = jpeg_decoder::Decoder::new(Cursor::new(&bytes));
    let pixels = decoder.decode().unwrap();
    let info = decoder.info().unwrap();
    assert_eq!((info.width, info.height), (9, 7));
    assert_eq!(pixels.len(), 9 * 7 * 3);
}

#[test]
fn decoded_tiles_are_checked_before_placing() {
    let mut full = vec![0u8; 2 * 2 * 3];
    match place_decoded("s", &mut full, 2, 2, 2, 2, 0, &[1; 12], PixelFormat::L8).unwrap_err() {
        FpxError::UnexpectedPixelFormat { stream, index, found } => {
            assert_eq!((stream.as_str(), index, found), ("s", 0, PixelFormat::L8));
        }
        other => panic!("unexpected error {other:?}"),
    }
    match place_decoded("s", &mut full, 2, 2, 2, 2, 0, &[1; 11], PixelFormat::RGB24).unwrap_err() {
        FpxError::TileTooSmall { needed, found, .. } => assert_eq!((needed, found), (12, 11)),
        other => panic!("unexpected error {other:?}"),
    }
    assert_eq!(full, vec![0u8; 12]);
    let pixels: Vec<u8> = (1..=12).collect();
    place_decoded("s", &mut full, 2, 2, 2, 2, 0, &pixels, PixelFormat::RGB24).unwrap();
    assert_eq!(full, pixels);
}

#[test]
fn debug_text_counts_pixel_bytes() {
    let image = DecodedImage { width: 2, height: 1, rgb: vec![9u8; 6], exif: None };
    assert_eq!(image.debug_text(), "DecodedImage { width: 2, height: 1, rgb: <6 bytes>, exif: None }");
    let image = DecodedImage { width: 1, height: 1, rgb: vec![0u8, 1, 2], exif: Some(vec![73, 73, 42]) };
    assert_eq!(
        image.debug_text(),
        "DecodedImage { width: 1, height: 1, rgb: <3 bytes>, exif: Some([73, 73, 42]) }"
    );
    assert_eq!(image.debug_text(), format!("{:?}", image).replace("rgb: [0, 1, 2]", "rgb: <3 bytes>"));
    let image = DecodedImage { width: 0, height: 0, rgb: Vec::new(), exif: Some(Vec::new()) };
    assert_eq!(image.debug_text(), "DecodedImage { width: 0, height: 0, rgb: <0 bytes>, exif: Some([]) }");
}
