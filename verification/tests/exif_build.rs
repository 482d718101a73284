use fpx_convert::exif::build;

#[test]
fn none_when_nothing_to_write() {
    assert!(build(None, None).is_none());
}

#[test]
fn model_only_has_valid_tiff_header_and_contains_the_string() {
    let bytes = build(Some("DC210 Zoom (V01.02)"), None).unwrap();
    assert_eq!(&bytes[0..2], b"II");
    assert_eq!(u16::from_le_bytes([bytes[2], bytes[3]]), 42);
    assert!(bytes.windows(20).any(|w| w == b"DC210 Zoom (V01.02)\0"));
}

#[test]
fn model_and_date_both_present() {
    let bytes = build(Some("DC210 Zoom (V01.02)"), Some("1997:12:25 15:29:39")).unwrap();
    // IFD0 offset (bytes 4..8) should be 8.
    assert_eq!(u32::from_le_bytes(bytes[4..8].try_into().unwrap()), 8);
    // IFD0 entry count.
    let entry_count = u16::from_le_bytes(bytes[8..10].try_into().unwrap());
    assert_eq!(entry_count, 2);
}

fn u16_at(b: &[u8], at: usize) -> u16 {
    u16::from_le_bytes([b[at], b[at + 1]])
}

fn u32_at(b: &[u8], at: usize) -> u32 {
    u32::from_le_bytes([b[at], b[at + 1], b[at + 2], b[at + 3]])
}

/// The ASCII value of entry `i` of the IFD at `ifd`, as a TIFF reader finds it.
fn ascii_value(b: &[u8], ifd: usize, i: usize) -> (u16, Vec<u8>) {
    let e = ifd + 2 + 12 * i;
    assert_eq!(u16_at(b, e + 2), 2);
    let count = u32_at(b, e + 4) as usize;
    let start = if count <= 4 { e + 8 } else { u32_at(b, e + 8) as usize };
    (u16_at(b, e), b[start..start + count].to_vec())
}

#[test]
fn model_and_date_read_back_through_the_ifds() {
    for (model, date) in [
        (Some("DC210 Zoom (V01.02)"), Some("1997:12:25 15:29:39")),
        (Some("abc"), Some("1997:12:25 15:29:39")),
        (None, Some("1997:12:25 15:29:39")),
        (Some("M"), None),
    ] {
        let bytes = build(model, date).unwrap();
        assert_eq!(&bytes[0..4], b"II\x2A\x00");
        assert_eq!(u32_at(&bytes, 4), 8);
        let k = model.is_some() as usize;
        let n0 = u16_at(&bytes, 8) as usize;
        assert_eq!(n0, k + date.is_some() as usize);
        assert_eq!(u32_at(&bytes, 8 + 2 + 12 * n0), 0);
        if let Some(m) = model {
            let (tag, value) = ascii_value(&bytes, 8, 0);
            assert_eq!(tag, 0x0110);
            assert_eq!(value, [m.as_bytes(), b"\0"].concat());
        }
        if let Some(d) = date {
            let e = 8 + 2 + 12 * k;
            assert_eq!(u16_at(&bytes, e), 0x8769);
            let sub = u32_at(&bytes, e + 8) as usize;
            assert_eq!(u16_at(&bytes, sub), 1);
            assert_eq!(u32_at(&bytes, sub + 2 + 12), 0);
            let (tag, value) = ascii_value(&bytes, sub, 0);
            assert_eq!(tag, 0x9003);
            assert_eq!(value, [d.as_bytes(), b"\0"].concat());
        }
    }
}
