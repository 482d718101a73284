//! FlashPix property IDs read by the converter. Only the properties this
//! tool looks up are named here.

use vstd::prelude::*;

verus! {

/// The property that holds the shared JPEG tables of table group `index`.
pub open spec fn spec_pid_jpeg_tables(compress_index: u8) -> u32 {
    (0x0300_0001u32 | ((compress_index as u32) << 16u32)) as u32
}

/// `Image Contents` property: shared JPEG quantization/Huffman tables for
/// the table group `compress_index` (a tile records which group it uses in
/// the top byte of its `compressionSubtype` field). VT_BLOB.
pub fn pid_jpeg_tables(compress_index: u8) -> (pid: u32)
    ensures
        pid == spec_pid_jpeg_tables(compress_index),
        pid == 0x0300_0001 + (compress_index as int) * 0x1_0000,
{
    let pid = 0x0300_0001u32 | ((compress_index as u32) << 16u32);
    assert(pid == 0x0300_0001 + (compress_index as int) * 0x1_0000) by (bit_vector)
        requires pid == 0x0300_0001u32 | ((compress_index as u32) << 16u32);
    pid
}

/// `Image Info` property: camera model, e.g. "DC210 Zoom (V01.02)". VT_LPWSTR.
pub const PID_CAMERA_MODEL: u32 = 0x2400_0001;

/// `Image Info` property: when the photo was captured. VT_FILETIME.
pub const PID_CAPTURE_DATE: u32 = 0x2500_0000;

} // verus!
