use std::io::{Cursor, Write};

use fpx_convert::error::FpxError;
use fpx_convert::fpx_ids::{pid_jpeg_tables, PID_CAMERA_MODEL, PID_CAPTURE_DATE};
use fpx_convert::propset::{VT_BLOB, VT_FILETIME, VT_LPWSTR};
use fpx_convert::subimage_header::{SubimageHeader, TileEntry, COMPRESS_TYPE_JPEG};
use fpx_convert::{convert, OutputFormat};

const ROOT: &str = "/Data Object Store 000001";
const SAMPLE_FILETIME: u64 = 0x01BD_1149_E9DB_7380;

fn property_set(properties: &[(u32, Vec<u8>)]) -> Vec<u8> {
    let mut buf = Vec::new();
    buf.extend_from_slice(&0xFFFEu16.to_le_bytes());
    buf.extend_from_slice(&0u16.to_le_bytes());
    buf.extend_from_slice(&0u32.to_le_bytes());
    buf.extend_from_slice(&[0u8; 16]);
    buf.extend_from_slice(&1u32.to_le_bytes());
    buf.extend_from_slice(&[0u8; 16]);
    buf.extend_from_slice(&48u32.to_le_bytes());
    let table_len = properties.len() as u32 * 8;
    let mut relative_offset = 8 + table_len;
    let mut table = Vec::new();
    let mut values = Vec::new();
    for (id, value) in properties {
        table.extend_from_slice(&id.to_le_bytes());
        table.extend_from_slice(&relative_offset.to_le_bytes());
        values.extend_from_slice(value);
        relative_offset += value.len() as u32;
    }
    buf.extend_from_slice(&(8 + table_len + values.len() as u32).to_le_bytes());
    buf.extend_from_slice(&(properties.len() as u32).to_le_bytes());
    buf.extend_from_slice(&table);
    buf.extend_from_slice(&values);
    buf
}

fn vt_lpwstr(s: &str) -> Vec<u8> {
    let mut units: Vec<u16> = s.encode_utf16().collect();
    units.push(0);
    let mut v = Vec::new();
    v.extend_from_slice(&VT_LPWSTR.to_le_bytes());
    v.extend_from_slice(&(units.len() as u32).to_le_bytes());
    for u in units {
        v.extend_from_slice(&u.to_le_bytes());
    }
    v
}

fn vt_filetime(ticks: u64) -> Vec<u8> {
    let mut v = Vec::new();
    v.extend_from_slice(&VT_FILETIME.to_le_bytes());
    v.extend_from_slice(&(ticks as u32).to_le_bytes());
    v.extend_from_slice(&((ticks >> 32) as u32).to_le_bytes());
    v
}

fn vt_blob(bytes: &[u8]) -> Vec<u8> {
    let mut v = Vec::new();
    v.extend_from_slice(&VT_BLOB.to_le_bytes());
    v.extend_from_slice(&(bytes.len() as u32).to_le_bytes());
    v.extend_from_slice(bytes);
    v
}

/// A solid-colour RGB JPEG.
fn solid_jpeg(w: u16, h: u16, rgb: [u8; 3]) -> Vec<u8> {
    let pixels: Vec<u8> = (0..w as usize * h as usize).flat_map(|_| rgb).collect();
    let mut out = Vec::new();
    let encoder = jpeg_encoder::Encoder::new(&mut out, 100);
    encoder
        .encode(&pixels, w, h, jpeg_encoder::ColorType::Rgb)
        .unwrap();
    out
}

/// Splits a JPEG into a tables-only stream (`SOI DQT.. DHT.. EOI`) and a
/// headerless stream (`SOI` + the other segments + the scan + `EOI`).
fn split_tables(jpeg: &[u8]) -> (Vec<u8>, Vec<u8>) {
    assert_eq!(&jpeg[0..2], &[0xFF, 0xD8]);
    let mut tables = vec![0xFF, 0xD8];
    let mut rest = vec![0xFF, 0xD8];
    let mut pos = 2;
    loop {
        assert_eq!(jpeg[pos], 0xFF);
        let marker = jpeg[pos + 1];
        if marker == 0xDA {
            rest.extend_from_slice(&jpeg[pos..]);
            break;
        }
        let len = u16::from_be_bytes([jpeg[pos + 2], jpeg[pos + 3]]) as usize;
        let segment = &jpeg[pos..pos + 2 + len];
        if marker == 0xDB || marker == 0xC4 {
            tables.extend_from_slice(segment);
        } else {
            rest.extend_from_slice(segment);
        }
        pos += 2 + len;
    }
    tables.extend_from_slice(&[0xFF, 0xD9]);
    (tables, rest)
}

/// A `Subimage 0000 Header` stream's content: fixed header, then 16-byte
/// tile entries `(offset, size, compression, subtype)`.
fn header(width: u32, height: u32, tile: u32, tiles: &[(u32, u32, u32, u32)]) -> Vec<u8> {
    let mut buf = Vec::new();
    for v in [36, width, height, tiles.len() as u32, tile, tile, 3, 36, 16] {
        buf.extend_from_slice(&v.to_le_bytes());
    }
    for &(offset, size, kind, subtype) in tiles {
        for v in [offset, size, kind, subtype] {
            buf.extend_from_slice(&v.to_le_bytes());
        }
    }
    buf
}

/// The tile table and data of a set of tile streams laid end to end.
fn layout(streams: &[(Vec<u8>, u32)]) -> (Vec<(u32, u32, u32, u32)>, Vec<u8>) {
    let mut entries = Vec::new();
    let mut data = Vec::new();
    for (bytes, subtype) in streams {
        entries.push((data.len() as u32, bytes.len() as u32, COMPRESS_TYPE_JPEG, *subtype));
        data.extend_from_slice(bytes);
    }
    (entries, data)
}

fn prefixed(content: &[u8]) -> Vec<u8> {
    let mut v = vec![0u8; 28];
    v.extend_from_slice(content);
    v
}

struct Resolution {
    name: &'static str,
    header: Vec<u8>,
    data: Vec<u8>,
}

fn fpx_file(
    resolutions: &[Resolution],
    image_contents: Vec<u8>,
    image_info: Option<Vec<u8>>,
) -> Vec<u8> {
    let mut cf = cfb::CompoundFile::create(Cursor::new(Vec::new())).unwrap();
    cf.create_storage(ROOT).unwrap();
    cf.create_stream(format!("{ROOT}/\u{5}Image Contents"))
        .unwrap()
        .write_all(&image_contents)
        .unwrap();
    if let Some(info) = image_info {
        cf.create_stream(format!("{ROOT}/\u{5}Image Info"))
            .unwrap()
            .write_all(&info)
            .unwrap();
    }
    for r in resolutions {
        cf.create_storage(format!("{ROOT}/{}", r.name)).unwrap();
        cf.create_stream(format!("{ROOT}/{}/Subimage 0000 Header", r.name))
            .unwrap()
            .write_all(&r.header)
            .unwrap();
        cf.create_stream(format!("{ROOT}/{}/Subimage 0000 Data", r.name))
            .unwrap()
            .write_all(&r.data)
            .unwrap();
    }
    cf.flush().unwrap();
    cf.into_inner().into_inner()
}

fn sample_info() -> Vec<u8> {
    property_set(&[
        (PID_CAMERA_MODEL, vt_lpwstr("DC210 Zoom (V01.02)")),
        (PID_CAPTURE_DATE, vt_filetime(SAMPLE_FILETIME)),
    ])
}

/// A 100x80 image of four 64x64 tiles: red, green / blue, white.
fn four_tile_file(image_info: Option<Vec<u8>>) -> Vec<u8> {
    let tiles: Vec<(Vec<u8>, u32)> = [[255, 0, 0], [0, 255, 0], [0, 0, 255], [255, 255, 255]]
        .iter()
        .map(|&c| (solid_jpeg(64, 64, c), 0u32))
        .collect();
    let (entries, data) = layout(&tiles);
    fpx_file(
        &[Resolution {
            name: "Resolution 0000",
            header: prefixed(&header(100, 80, 64, &entries)),
            data: prefixed(&data),
        }],
        property_set(&[]),
        image_info,
    )
}

fn decode_png(bytes: &[u8]) -> (u32, u32, Vec<u8>, Option<Vec<u8>>) {
    let decoder = png::Decoder::new(Cursor::new(bytes));
    let mut reader = decoder.read_info().unwrap();
    let mut buf = vec![0; reader.output_buffer_size().unwrap()];
    let info = reader.next_frame(&mut buf).unwrap();
    buf.truncate(info.buffer_size());
    let exif = reader.info().exif_metadata.as_ref().map(|e| e.to_vec());
    (info.width, info.height, buf, exif)
}

fn pixel(rgb: &[u8], width: u32, x: u32, y: u32) -> [u8; 3] {
    let p = ((y * width + x) * 3) as usize;
    [rgb[p], rgb[p + 1], rgb[p + 2]]
}

fn close(a: [u8; 3], b: [u8; 3]) -> bool {
    a.iter().zip(b.iter()).all(|(x, y)| x.abs_diff(*y) <= 6)
}

fn contains(haystack: &[u8], needle: &[u8]) -> bool {
    haystack.windows(needle.len()).any(|w| w == needle)
}

#[test]
fn four_tiles_are_assembled_and_cropped_into_a_png() {
    let png_bytes = convert(&four_tile_file(Some(sample_info())), OutputFormat::Png).unwrap();
    assert_eq!(&png_bytes[0..8], &[137, 80, 78, 71, 13, 10, 26, 10]);
    let (w, h, rgb, exif) = decode_png(&png_bytes);
    assert_eq!((w, h), (100, 80));
    assert_eq!(rgb.len(), 100 * 80 * 3);
    assert!(close(pixel(&rgb, w, 0, 0), [255, 0, 0]));
    assert!(close(pixel(&rgb, w, 63, 63), [255, 0, 0]));
    assert!(close(pixel(&rgb, w, 64, 0), [0, 255, 0]));
    assert!(close(pixel(&rgb, w, 99, 63), [0, 255, 0]));
    assert!(close(pixel(&rgb, w, 0, 64), [0, 0, 255]));
    assert!(close(pixel(&rgb, w, 63, 79), [0, 0, 255]));
    assert!(close(pixel(&rgb, w, 64, 64), [255, 255, 255]));
    assert!(close(pixel(&rgb, w, 99, 79), [255, 255, 255]));
    let exif = exif.expect("metadata kept as an eXIf chunk");
    assert_eq!(
        Some(exif.clone()),
        fpx_convert::exif::build(Some("DC210 Zoom (V01.02)"), Some("1997:12:25 15:29:39"))
    );
    assert!(contains(&exif, b"DC210 Zoom (V01.02)\0"));
    assert!(contains(&exif, b"1997:12:25 15:29:39\0"));
}

#[test]
fn parse_and_decode_gives_the_decoded_image() {
    let image = fpx_convert::parse::parse_and_decode(&four_tile_file(Some(sample_info()))).unwrap();
    assert_eq!((image.width, image.height), (100, 80));
    assert_eq!(image.rgb.len(), 100 * 80 * 3);
    assert!(close(pixel(&image.rgb, 100, 70, 70), [255, 255, 255]));
    assert_eq!(
        image.exif,
        fpx_convert::exif::build(Some("DC210 Zoom (V01.02)"), Some("1997:12:25 15:29:39"))
    );
}

#[test]
fn missing_image_info_gives_no_exif() {
    let png_bytes = convert(&four_tile_file(None), OutputFormat::Png).unwrap();
    let (w, h, _, exif) = decode_png(&png_bytes);
    assert_eq!((w, h), (100, 80));
    assert_eq!(exif, None);
}

#[test]
fn unreadable_image_info_does_not_fail_the_conversion() {
    let png_bytes = convert(&four_tile_file(Some(vec![1, 2, 3])), OutputFormat::Png).unwrap();
    let (_, _, _, exif) = decode_png(&png_bytes);
    assert_eq!(exif, None);
}

#[test]
fn model_without_date_keeps_only_the_model() {
    let info = property_set(&[(PID_CAMERA_MODEL, vt_lpwstr("DC210 Zoom (V01.02)"))]);
    let image = fpx_convert::parse::parse_and_decode(&four_tile_file(Some(info))).unwrap();
    assert_eq!(image.exif, fpx_convert::exif::build(Some("DC210 Zoom (V01.02)"), None));
}

#[test]
fn unset_capture_date_is_left_out() {
    let info = property_set(&[
        (PID_CAMERA_MODEL, vt_lpwstr("M")),
        (PID_CAPTURE_DATE, vt_filetime(0)),
    ]);
    let image = fpx_convert::parse::parse_and_decode(&four_tile_file(Some(info))).unwrap();
    assert_eq!(image.exif, fpx_convert::exif::build(Some("M"), None));
}

#[test]
fn shared_table_group_is_spliced_into_each_tile() {
    let (tables, tile) = split_tables(&solid_jpeg(32, 32, [10, 200, 30]));
    let (entries, data) = layout(&[(tile, 0x0100_0000)]);
    let file = fpx_file(
        &[Resolution {
            name: "Resolution 0005",
            header: prefixed(&header(32, 32, 32, &entries)),
            data: prefixed(&data),
        }],
        property_set(&[(pid_jpeg_tables(1), vt_blob(&tables))]),
        None,
    );
    let (w, h, rgb, _) = decode_png(&convert(&file, OutputFormat::Png).unwrap());
    assert_eq!((w, h), (32, 32));
    assert!(close(pixel(&rgb, w, 0, 0), [10, 200, 30]));
    assert!(close(pixel(&rgb, w, 31, 31), [10, 200, 30]));
}

#[test]
fn largest_resolution_is_chosen_whatever_its_name() {
    let (small_entries, small_data) = layout(&[(solid_jpeg(16, 16, [255, 0, 0]), 0)]);
    let (big_entries, big_data) = layout(&[(solid_jpeg(48, 40, [0, 0, 255]), 0)]);
    let file = fpx_file(
        &[
            Resolution {
                name: "Resolution 0009",
                header: prefixed(&header(16, 16, 64, &small_entries)),
                data: prefixed(&small_data),
            },
            Resolution {
                name: "Resolution 0001",
                header: prefixed(&header(40, 30, 64, &big_entries)),
                data: prefixed(&big_data),
            },
        ],
        property_set(&[]),
        None,
    );
    let image = fpx_convert::parse::parse_and_decode(&file).unwrap();
    assert_eq!((image.width, image.height), (40, 30));
    assert!(close(pixel(&image.rgb, 40, 39, 29), [0, 0, 255]));
}

#[test]
fn jpeg_output_decodes_and_carries_exif() {
    let jpeg = convert(&four_tile_file(Some(sample_info())), OutputFormat::Jpeg).unwrap();
    assert_eq!(&jpeg[0..2], &[0xFF, 0xD8]);
    assert!(contains(&jpeg, b"Exif\0\0II"));
    assert!(contains(&jpeg, b"DC210 Zoom (V01.02)\0"));
    let mut decoder = jpeg_decoder::Decoder::new(Cursor::new(&jpeg));
    let pixels = decoder.decode().unwrap();
    let info = decoder.info().unwrap();
    assert_eq!((info.width, info.height), (100, 80));
    assert!(close(pixel(&pixels, 100, 10, 10), [255, 0, 0]));
    assert!(close(pixel(&pixels, 100, 90, 70), [255, 255, 255]));
}

#[test]
fn default_output_format_is_png() {
    assert_eq!(OutputFormat::default(), OutputFormat::Png);
}

#[test]
fn missing_table_group_property_is_reported() {
    let (tables, tile) = split_tables(&solid_jpeg(16, 16, [1, 2, 3]));
    let (entries, data) = layout(&[(tile, 0x0200_0000)]);
    let file = fpx_file(
        &[Resolution {
            name: "Resolution 0000",
            header: prefixed(&header(16, 16, 16, &entries)),
            data: prefixed(&data),
        }],
        property_set(&[(pid_jpeg_tables(1), vt_blob(&tables))]),
        None,
    );
    match convert(&file, OutputFormat::Png).unwrap_err() {
        FpxError::MissingProperty { stream, property, name } => {
            assert_eq!(stream, "Image Contents");
            assert_eq!(property, 0x0302_0001);
            assert_eq!(name, "JPEGTables");
        }
        other => panic!("unexpected error {other:?}"),
    }
}

#[test]
fn unsupported_compression_is_reported() {
    let entries = [(0u32, 4u32, 1u32, 0u32)];
    let file = fpx_file(
        &[Resolution {
            name: "Resolution 0000",
            header: prefixed(&header(8, 8, 8, &entries)),
            data: prefixed(&[0, 0, 0, 0]),
        }],
        property_set(&[]),
        None,
    );
    match convert(&file, OutputFormat::Png).unwrap_err() {
        FpxError::UnsupportedCompression { stream, found } => {
            assert_eq!(stream, "/Data Object Store 000001/Resolution 0000/Subimage 0000 Data");
            assert_eq!(found, 1);
        }
        other => panic!("unexpected error {other:?}"),
    }
}

#[test]
fn tile_past_the_end_of_the_data_is_truncated() {
    let entries = [(2u32, 10u32, COMPRESS_TYPE_JPEG, 0u32)];
    let file = fpx_file(
        &[Resolution {
            name: "Resolution 0000",
            header: prefixed(&header(8, 8, 8, &entries)),
            data: prefixed(&[0; 5]),
        }],
        property_set(&[]),
        None,
    );
    match convert(&file, OutputFormat::Png).unwrap_err() {
        FpxError::Truncated { needed, found, .. } => {
            assert_eq!(needed, 12);
            assert_eq!(found, 5);
        }
        other => panic!("unexpected error {other:?}"),
    }
}

#[test]
fn short_header_stream_is_truncated() {
    let file = fpx_file(
        &[Resolution {
            name: "Resolution 0000",
            header: vec![0; 10],
            data: prefixed(&[]),
        }],
        property_set(&[]),
        None,
    );
    match convert(&file, OutputFormat::Png).unwrap_err() {
        FpxError::Truncated { stream, needed, found } => {
            assert_eq!(stream, "/Data Object Store 000001/Resolution 0000/Subimage 0000 Header");
            assert_eq!(needed, 28);
            assert_eq!(found, 10);
        }
        other => panic!("unexpected error {other:?}"),
    }
}

#[test]
fn corrupt_tile_is_a_decode_error() {
    let entries = [(0u32, 6u32, COMPRESS_TYPE_JPEG, 0u32)];
    let file = fpx_file(
        &[Resolution {
            name: "Resolution 0000",
            header: prefixed(&header(8, 8, 8, &entries)),
            data: prefixed(&[0xFF, 0xD8, 0x12, 0x34, 0xFF, 0xD9]),
        }],
        property_set(&[]),
        None,
    );
    match convert(&file, OutputFormat::Png).unwrap_err() {
        FpxError::TileDecode { index, .. } => assert_eq!(index, 0),
        other => panic!("unexpected error {other:?}"),
    }
}

#[test]
fn grayscale_tile_is_an_unexpected_pixel_format() {
    let pixels = vec![128u8; 8 * 8];
    let mut gray = Vec::new();
    jpeg_encoder::Encoder::new(&mut gray, 90)
        .encode(&pixels, 8, 8, jpeg_encoder::ColorType::Luma)
        .unwrap();
    let (entries, data) = layout(&[(gray, 0)]);
    let file = fpx_file(
        &[Resolution {
            name: "Resolution 0000",
            header: prefixed(&header(8, 8, 8, &entries)),
            data: prefixed(&data),
        }],
        property_set(&[]),
        None,
    );
    match convert(&file, OutputFormat::Png).unwrap_err() {
        FpxError::UnexpectedPixelFormat { index, found, .. } => {
            assert_eq!(index, 0);
            assert_eq!(found, fpx_convert::error::PixelFormat::L8);
        }
        other => panic!("unexpected error {other:?}"),
    }
}

#[test]
fn tile_smaller_than_its_cell_is_reported() {
    let (entries, data) = layout(&[(solid_jpeg(16, 16, [9, 9, 9]), 0)]);
    let file = fpx_file(
        &[Resolution {
            name: "Resolution 0000",
            header: prefixed(&header(64, 64, 64, &entries)),
            data: prefixed(&data),
        }],
        property_set(&[]),
        None,
    );
    match convert(&file, OutputFormat::Png).unwrap_err() {
        FpxError::TileTooSmall { index, needed, found, .. } => {
            assert_eq!(index, 0);
            assert_eq!(needed, 64 * 64 * 3);
            assert_eq!(found, 16 * 16 * 3);
        }
        other => panic!("unexpected error {other:?}"),
    }
}

#[test]
fn image_too_wide_for_jpeg_is_refused_but_converts_to_png() {
    let file = fpx_file(
        &[Resolution {
            name: "Resolution 0000",
            header: prefixed(&header(70_000, 1, 64, &[])),
            data: prefixed(&[]),
        }],
        property_set(&[]),
        None,
    );
    match convert(&file, OutputFormat::Jpeg).unwrap_err() {
        FpxError::ImageTooLargeForJpeg { width, height } => {
            assert_eq!((width, height), (70_000, 1));
        }
        other => panic!("unexpected error {other:?}"),
    }
    let (w, h, rgb, _) = decode_png(&convert(&file, OutputFormat::Png).unwrap());
    assert_eq!((w, h), (70_000, 1));
    assert!(rgb.iter().all(|&b| b == 0));
}

#[test]
fn image_too_large_to_hold_is_refused() {
    let file = fpx_file(
        &[Resolution {
            name: "Resolution 0000",
            header: prefixed(&header(u32::MAX, u32::MAX, 64, &[])),
            data: prefixed(&[]),
        }],
        property_set(&[]),
        None,
    );
    match fpx_convert::parse::parse_and_decode(&file).unwrap_err() {
        FpxError::ImageTooLarge { width, height } => {
            assert_eq!((width, height), (u32::MAX, u32::MAX));
        }
        other => panic!("unexpected error {other:?}"),
    }
}

#[test]
fn tile_naming_a_missing_table_group_is_reported() {
    let header = SubimageHeader {
        width: 8,
        height: 8,
        tile_width: 8,
        tile_height: 8,
        tiles: vec![TileEntry {
            offset: 0,
            size: 4,
            compress_type: COMPRESS_TYPE_JPEG,
            compress_subtype: 0x0300_0000,
        }],
    };
    let tables = std::collections::HashMap::new();
    match fpx_convert::tile_decode::decode_resolution("data", &[0; 4], &header, &tables).unwrap_err() {
        FpxError::MissingEntry(msg) => assert_eq!(
            msg,
            "tile 0 in 'data' references JPEG-tables group 3, which is missing from 'Image Contents'"
        ),
        other => panic!("unexpected error {other:?}"),
    }
}
