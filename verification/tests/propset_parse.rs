use fpx_convert::error::FpxError;
use fpx_convert::propset::{PropertySet, VT_BLOB, VT_FILETIME, VT_LPWSTR};

/// Builds a property-set stream, in the layout `PropertySet::parse`
/// expects, holding the given properties.
struct Builder {
    properties: Vec<(u32, Vec<u8>)>,
}

impl Builder {
    fn new() -> Self {
        Self {
            properties: Vec::new(),
        }
    }

    fn add(mut self, id: u32, value: Vec<u8>) -> Self {
        self.properties.push((id, value));
        self
    }

    fn build(self) -> Vec<u8> {
        let mut buf = Vec::new();
        buf.extend_from_slice(&0xFFFEu16.to_le_bytes());
        buf.extend_from_slice(&0u16.to_le_bytes());
        buf.extend_from_slice(&0u32.to_le_bytes());
        buf.extend_from_slice(&[0u8; 16]);
        buf.extend_from_slice(&1u32.to_le_bytes());
        buf.extend_from_slice(&[0u8; 16]);
        const SECTION_OFFSET: u32 = 48;
        buf.extend_from_slice(&SECTION_OFFSET.to_le_bytes());
        assert_eq!(buf.len(), SECTION_OFFSET as usize);

        let table_start = 8u32; // relative to section start: size(4) + count(4)
        let table_len = self.properties.len() as u32 * 8;
        let mut relative_offset = table_start + table_len;
        let mut table = Vec::new();
        let mut values = Vec::new();
        for (id, value) in &self.properties {
            table.extend_from_slice(&id.to_le_bytes());
            table.extend_from_slice(&relative_offset.to_le_bytes());
            values.extend_from_slice(value);
            relative_offset += value.len() as u32;
        }

        buf.extend_from_slice(&(table_start + table_len + values.len() as u32).to_le_bytes());
        buf.extend_from_slice(&(self.properties.len() as u32).to_le_bytes());
        buf.extend_from_slice(&table);
        buf.extend_from_slice(&values);
        buf
    }
}

fn vt_lpwstr(s: &str) -> Vec<u8> {
    let mut units: Vec<u16> = s.encode_utf16().collect();
    units.push(0);
    let mut v = Vec::new();
    v.extend_from_slice(&VT_LPWSTR.to_le_bytes());
    v.extend_from_slice(&(units.len() as u32).to_le_bytes());
    for u in units {
        v.extend_from_slice(&u.to_le_bytes());
    }
    v
}

fn vt_filetime(ticks: u64) -> Vec<u8> {
    let mut v = Vec::new();
    v.extend_from_slice(&VT_FILETIME.to_le_bytes());
    v.extend_from_slice(&(ticks as u32).to_le_bytes());
    v.extend_from_slice(&((ticks >> 32) as u32).to_le_bytes());
    v
}

fn vt_blob(bytes: &[u8]) -> Vec<u8> {
    let mut v = Vec::new();
    v.extend_from_slice(&VT_BLOB.to_le_bytes());
    v.extend_from_slice(&(bytes.len() as u32).to_le_bytes());
    v.extend_from_slice(bytes);
    v
}

#[test]
fn reads_lpwstr_filetime_and_blob() {
    let stream = Builder::new()
        .add(0x2400_0001, vt_lpwstr("DC210 Zoom (V01.02)"))
        .add(0x2500_0000, vt_filetime(0x01BD_1149_E9DB_7380))
        .add(0x0301_0001, vt_blob(&[0xFF, 0xD8, 0xFF, 0xDB, 1, 2, 3]))
        .build();
    let ps = PropertySet::parse("test", &stream).unwrap();
    assert_eq!(
        ps.get_lpwstr(0x2400_0001, "Model").unwrap(),
        "DC210 Zoom (V01.02)"
    );
    assert_eq!(
        ps.get_filetime(0x2500_0000, "CaptureDate").unwrap(),
        0x01BD_1149_E9DB_7380
    );
    assert_eq!(
        ps.get_blob(0x0301_0001, "JPEGTables").unwrap(),
        &[0xFF, 0xD8, 0xFF, 0xDB, 1, 2, 3][..]
    );
}

#[test]
fn missing_property_is_a_clear_error() {
    let stream = Builder::new().build();
    let ps = PropertySet::parse("test", &stream).unwrap();
    let err = ps.get_lpwstr(0x2400_0001, "Model").unwrap_err();
    assert!(matches!(err, FpxError::MissingProperty { .. }));
}

#[test]
fn wrong_type_is_a_clear_error() {
    let stream = Builder::new().add(0x2400_0001, vt_filetime(0)).build();
    let ps = PropertySet::parse("test", &stream).unwrap();
    let err = ps.get_lpwstr(0x2400_0001, "Model").unwrap_err();
    assert!(matches!(err, FpxError::WrongPropertyType { .. }));
}

#[test]
fn truncated_stream_is_rejected() {
    let err = PropertySet::parse("test", &[0xFE, 0xFF, 0, 0]).unwrap_err();
    assert!(matches!(err, FpxError::Truncated { .. }));
}

#[test]
fn bad_byte_order_mark_is_rejected() {
    let mut bad = Builder::new().build();
    bad[0] = 0;
    bad[1] = 0;
    let err = PropertySet::parse("test", &bad).unwrap_err();
    assert!(matches!(err, FpxError::MissingEntry(_)));
}

#[test]
fn missing_property_names_stream_and_property() {
    let stream = Builder::new().build();
    let ps = PropertySet::parse("Image Info", &stream).unwrap();
    match ps.get_blob(0x0301_0002, "JPEGTables").unwrap_err() {
        FpxError::MissingProperty { stream, property, name } => {
            assert_eq!(stream, "Image Info");
            assert_eq!(property, 0x0301_0002);
            assert_eq!(name, "JPEGTables");
        }
        other => panic!("unexpected error {other:?}"),
    }
}

#[test]
fn wrong_type_reports_expected_and_found() {
    let stream = Builder::new().add(0x2500_0000, vt_blob(&[1, 2])).build();
    let ps = PropertySet::parse("test", &stream).unwrap();
    match ps.get_filetime(0x2500_0000, "CaptureDate").unwrap_err() {
        FpxError::WrongPropertyType { stream, property, expected, found } => {
            assert_eq!(stream, "test");
            assert_eq!(property, 0x2500_0000);
            assert_eq!(expected, "VT_FILETIME");
            assert_eq!(found, VT_BLOB);
        }
        other => panic!("unexpected error {other:?}"),
    }
}

#[test]
fn truncated_stream_reports_sizes() {
    match PropertySet::parse("test", &[0xFE, 0xFF, 0, 0]).unwrap_err() {
        FpxError::Truncated { stream, needed, found } => {
            assert_eq!(stream, "test");
            assert_eq!(needed, 28);
            assert_eq!(found, 4);
        }
        other => panic!("unexpected error {other:?}"),
    }
}

#[test]
fn no_sections_is_rejected() {
    let mut stream = Builder::new().build();
    stream[24..28].copy_from_slice(&0u32.to_le_bytes());
    match PropertySet::parse("test", &stream).unwrap_err() {
        FpxError::MissingEntry(msg) => assert_eq!(msg, "'test' has no property sections"),
        other => panic!("unexpected error {other:?}"),
    }
}

#[test]
fn property_table_running_past_the_end_is_rejected() {
    let mut stream = Builder::new().add(0x2400_0001, vt_lpwstr("x")).build();
    // claim 1000 properties
    stream[52..56].copy_from_slice(&1000u32.to_le_bytes());
    match PropertySet::parse("test", &stream).unwrap_err() {
        FpxError::Truncated { needed, found, .. } => {
            assert_eq!(needed, 48 + 8 + 8000);
            assert_eq!(found, stream.len());
        }
        other => panic!("unexpected error {other:?}"),
    }
}

#[test]
fn lpwstr_trailing_nuls_are_trimmed_and_bad_units_replaced() {
    let mut v = Vec::new();
    v.extend_from_slice(&VT_LPWSTR.to_le_bytes());
    v.extend_from_slice(&4u32.to_le_bytes());
    for u in [0x0041u16, 0xD800, 0, 0] {
        v.extend_from_slice(&u.to_le_bytes());
    }
    let stream = Builder::new().add(7, v).build();
    let ps = PropertySet::parse("test", &stream).unwrap();
    assert_eq!(ps.get_lpwstr(7, "Name").unwrap(), "A\u{FFFD}");
}

#[test]
fn blob_running_past_the_end_is_truncated() {
    let mut v = Vec::new();
    v.extend_from_slice(&VT_BLOB.to_le_bytes());
    v.extend_from_slice(&100u32.to_le_bytes());
    v.extend_from_slice(&[1, 2, 3]);
    let stream = Builder::new().add(5, v).build();
    let ps = PropertySet::parse("test", &stream).unwrap();
    match ps.get_blob(5, "JPEGTables").unwrap_err() {
        FpxError::Truncated { needed, found, .. } => {
            assert_eq!(found, stream.len());
            assert_eq!(needed, (stream.len() - 3 + 100) as u64);
        }
        other => panic!("unexpected error {other:?}"),
    }
}

#[test]
fn dictionary_entry_is_skipped() {
    let stream = Builder::new()
        .add(0, vt_blob(&[9]))
        .add(3, vt_blob(&[4, 5]))
        .build();
    let ps = PropertySet::parse("test", &stream).unwrap();
    assert!(matches!(
        ps.get_blob(0, "Dictionary").unwrap_err(),
        FpxError::MissingProperty { .. }
    ));
    assert_eq!(ps.get_blob(3, "Blob").unwrap(), &[4, 5][..]);
}

#[test]
fn later_record_for_an_id_wins() {
    let stream = Builder::new()
        .add(9, vt_blob(&[1]))
        .add(9, vt_blob(&[2, 3]))
        .build();
    let ps = PropertySet::parse("test", &stream).unwrap();
    assert_eq!(ps.get_blob(9, "Blob").unwrap(), &[2, 3][..]);
}
