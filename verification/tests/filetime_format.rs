use fpx_convert::filetime::format_exif_datetime;

#[test]
fn known_sample_file_timestamp() {
    // 1997-12-25 15:29:39 UTC.
    let filetime: u64 = 0x01BD_1149_E9DB_7380;
    assert_eq!(
        format_exif_datetime(filetime).as_deref(),
        Some("1997:12:25 15:29:39")
    );
}

#[test]
fn unset_filetime_is_none() {
    assert_eq!(format_exif_datetime(0), None);
}
