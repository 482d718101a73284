use fpx_convert::error::FpxError;
use fpx_convert::subimage_header::{parse, COMPRESS_TYPE_JPEG};

/// Builds a Subimage Header stream's content (prefix already stripped)
/// for a single-tile image.
fn single_tile_header(width: u32, height: u32, tile_size: u32) -> Vec<u8> {
    let mut buf = Vec::new();
    buf.extend_from_slice(&36u32.to_le_bytes()); // length_info
    buf.extend_from_slice(&width.to_le_bytes());
    buf.extend_from_slice(&height.to_le_bytes());
    buf.extend_from_slice(&1u32.to_le_bytes()); // tile_count
    buf.extend_from_slice(&tile_size.to_le_bytes()); // tile_width
    buf.extend_from_slice(&tile_size.to_le_bytes()); // tile_height
    buf.extend_from_slice(&3u32.to_le_bytes()); // channel_count
    buf.extend_from_slice(&36u32.to_le_bytes()); // table_offset
    buf.extend_from_slice(&16u32.to_le_bytes()); // entry_size
    assert_eq!(buf.len(), 36);
    buf.extend_from_slice(&0u32.to_le_bytes()); // tile offset
    buf.extend_from_slice(&100u32.to_le_bytes()); // tile size
    buf.extend_from_slice(&COMPRESS_TYPE_JPEG.to_le_bytes());
    buf.extend_from_slice(&0x0101_2200u32.to_le_bytes()); // subtype, table index 1
    buf
}

#[test]
fn parses_dimensions_and_tile_table() {
    let content = single_tile_header(100, 80, 64);
    let header = parse("test", &content).unwrap();
    assert_eq!(header.width, 100);
    assert_eq!(header.height, 80);
    assert_eq!(header.tile_width, 64);
    assert_eq!(header.tile_height, 64);
    assert_eq!(header.tiles.len(), 1);
    assert_eq!(header.tiles[0].offset, 0);
    assert_eq!(header.tiles[0].size, 100);
    assert_eq!(header.tiles[0].compress_type, COMPRESS_TYPE_JPEG);
    assert_eq!(header.tiles[0].jpeg_tables_index(), 1);
}

#[test]
fn self_contained_tile_has_table_index_zero() {
    let mut content = single_tile_header(64, 64, 64);
    let last = content.len() - 4;
    content[last..].copy_from_slice(&0u32.to_le_bytes());
    let header = parse("test", &content).unwrap();
    assert_eq!(header.tiles[0].jpeg_tables_index(), 0);
}

#[test]
fn truncated_header_is_rejected() {
    let err = parse("test", &[0u8; 10]).unwrap_err();
    assert!(matches!(err, FpxError::Truncated { .. }));
}

#[test]
fn truncated_tile_table_is_rejected() {
    let mut content = single_tile_header(100, 80, 64);
    content.truncate(40); // fixed header intact, tile entry cut short
    let err = parse("test", &content).unwrap_err();
    assert!(matches!(err, FpxError::Truncated { .. }));
}

#[test]
fn zero_sized_image_is_rejected() {
    let content = single_tile_header(0, 80, 64);
    let err = parse("test", &content).unwrap_err();
    assert!(matches!(err, FpxError::MissingEntry(_)));
}

#[test]
fn zero_sized_image_message_names_the_stream() {
    let content = single_tile_header(100, 0, 64);
    match parse("Subimage 0000 Header", &content).unwrap_err() {
        FpxError::MissingEntry(msg) => {
            assert_eq!(msg, "'Subimage 0000 Header' reports a zero-sized image")
        }
        other => panic!("unexpected error {other:?}"),
    }
}

#[test]
fn zero_sized_tile_is_rejected() {
    let content = single_tile_header(100, 80, 0);
    match parse("test", &content).unwrap_err() {
        FpxError::MissingEntry(msg) => assert_eq!(msg, "'test' reports a zero-sized tile"),
        other => panic!("unexpected error {other:?}"),
    }
}

#[test]
fn small_entry_size_is_rejected() {
    let mut content = single_tile_header(100, 80, 64);
    content[32..36].copy_from_slice(&12u32.to_le_bytes());
    match parse("test", &content).unwrap_err() {
        FpxError::MissingEntry(msg) => assert_eq!(
            msg,
            "'test' has an unexpectedly small tile-table entry size (12 bytes)"
        ),
        other => panic!("unexpected error {other:?}"),
    }
}

#[test]
fn truncated_tile_table_reports_sizes() {
    let mut content = single_tile_header(100, 80, 64);
    content.truncate(40);
    match parse("test", &content).unwrap_err() {
        FpxError::Truncated { stream, needed, found } => {
            assert_eq!(stream, "test");
            assert_eq!(needed, 52);
            assert_eq!(found, 40);
        }
        other => panic!("unexpected error {other:?}"),
    }
}

#[test]
fn wide_entries_are_stepped_over() {
    // two tiles, 20-byte entries
    let mut buf = Vec::new();
    for v in [36u32, 130, 70, 2, 64, 64, 3, 36, 20] {
        buf.extend_from_slice(&v.to_le_bytes());
    }
    for (off, size, sub) in [(0u32, 10u32, 0u32), (10, 20, 0x0300_0000)] {
        for v in [off, size, COMPRESS_TYPE_JPEG, sub, 0xDEAD_BEEF] {
            buf.extend_from_slice(&v.to_le_bytes());
        }
    }
    let header = parse("test", &buf).unwrap();
    assert_eq!(header.tiles.len(), 2);
    assert_eq!(header.tiles[1].offset, 10);
    assert_eq!(header.tiles[1].size, 20);
    assert_eq!(header.tiles[1].jpeg_tables_index(), 3);
}
