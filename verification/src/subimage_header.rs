//! Parser for a resolution's `Subimage 0000 Header` stream: the sub-image's
//! pixel dimensions, tile size, and per-tile table (offset/length/
//! compression into the matching `Subimage 0000 Data` stream).
//!
//! Layout, after the 28-byte FPX stream prefix (see `cfbf::strip_fpx_prefix`):
//!
//! ```text
//! offset  0: u32 length_of_this_fixed_header (always 36)
//! offset  4: u32 real_width
//! offset  8: u32 real_height
//! offset 12: u32 tile_count
//! offset 16: u32 tile_width
//! offset 20: u32 tile_height
//! offset 24: u32 channel_count
//! offset 28: u32 tile_table_offset   -- from the same base as above
//! offset 32: u32 tile_entry_size     -- bytes per tile-table entry (16)
//! at tile_table_offset: tile_count * TileEntry, tile_entry_size bytes each:
//!             u32 offset          -- into Subimage Data stream content
//!             u32 size            -- compressed byte length
//!             u32 compress_type
//!             u32 compress_subtype -- top byte is the shared JPEG-tables index
//! ```
//!
//! Tiles are stored in row-major order over a `ceil(width/tile_width) x
//! ceil(height/tile_height)` grid; edge tiles are encoded at the full tile
//! size and cropped to the real image bounds after decoding.

use vstd::prelude::*;

use crate::error::{is_missing_entry, is_truncated, truncated, FpxError, Result};
use crate::le::{read_u32_le, spec_u32_le};
use crate::text::{decimal, push_decimal};

verus! {

/// Length of the fixed part of the header.
pub const FIXED_HEADER_LEN: u64 = 36;

/// JPEG tile compression (libfpx normalizes all JPEG variants to this value).
pub const COMPRESS_TYPE_JPEG: u32 = 2;

/// One row of the tile table.
#[derive(Debug, Clone, Copy)]
pub struct TileEntry {
    pub offset: usize,
    pub size: usize,
    pub compress_type: u32,
    pub compress_subtype: u32,
}

/// The shared JPEG-tables group a tile with this compression subtype uses:
/// the subtype's top byte.
pub open spec fn spec_tables_index(compress_subtype: u32) -> u8 {
    (compress_subtype / 0x100_0000) as u8
}

impl TileEntry {
    /// The shared JPEG-tables group this tile's compressed bytes were
    /// encoded against (0 means the tile is self-contained and carries its
    /// own quantization/Huffman tables).
    pub fn jpeg_tables_index(&self) -> (index: u8)
        ensures
            index == spec_tables_index(self.compress_subtype),
    {
        (self.compress_subtype / 0x100_0000) as u8
    }
}

/// The parsed header of one resolution.
#[derive(Debug)]
pub struct SubimageHeader {
    pub width: u32,
    pub height: u32,
    pub tile_width: u32,
    pub tile_height: u32,
    pub tiles: Vec<TileEntry>,
}

/// The tile-table row stored at `base`.
pub open spec fn spec_tile_entry(c: Seq<u8>, base: int) -> TileEntry {
    TileEntry {
        offset: spec_u32_le(c, base) as usize,
        size: spec_u32_le(c, base + 4) as usize,
        compress_type: spec_u32_le(c, base + 8),
        compress_subtype: spec_u32_le(c, base + 12),
    }
}

/// Offset of the `i`th tile-table row.
pub open spec fn spec_row_base(c: Seq<u8>, i: int) -> int {
    spec_u32_le(c, 28) + i * spec_u32_le(c, 32)
}

/// `'stream' reports a zero-sized image`
pub open spec fn zero_image_message(stream: Seq<char>) -> Seq<char> {
    seq!['\''] + stream + "' reports a zero-sized image"@
}

/// `'stream' reports a zero-sized tile`
pub open spec fn zero_tile_message(stream: Seq<char>) -> Seq<char> {
    seq!['\''] + stream + "' reports a zero-sized tile"@
}

/// `'stream' has an unexpectedly small tile-table entry size (N bytes)`
pub open spec fn small_entry_message(stream: Seq<char>, size: u32) -> Seq<char> {
    seq!['\''] + stream + "' has an unexpectedly small tile-table entry size ("@ + decimal(
        size as nat,
    ) + " bytes)"@
}

/// `c` holds a well-formed header: every check of `parse` passes.
pub open spec fn is_valid_header(c: Seq<u8>) -> bool {
    let count = spec_u32_le(c, 12) as int;
    &&& c.len() >= 36
    &&& spec_u32_le(c, 4) != 0 && spec_u32_le(c, 8) != 0
    &&& spec_u32_le(c, 16) != 0 && spec_u32_le(c, 20) != 0
    &&& spec_u32_le(c, 32) >= 16
    &&& forall|k: int| 0 <= k < count ==> #[trigger] spec_row_base(c, k) + 16 <= c.len()
}

/// Pixel area of the image a well-formed header describes.
pub open spec fn header_area(c: Seq<u8>) -> int {
    spec_u32_le(c, 4) * spec_u32_le(c, 8)
}

/// `r` is the error parsing the header content `c` fails with: each check
/// in the order the format is read, the first that fails decides.
pub open spec fn header_failure<T>(r: Result<T>, stream: Seq<char>, c: Seq<u8>) -> bool {
    let count = spec_u32_le(c, 12) as int;
    let entry_size = spec_u32_le(c, 32);
    if c.len() < 36 {
        is_truncated(r, stream, 36, c.len() as int)
    } else if spec_u32_le(c, 4) == 0 || spec_u32_le(c, 8) == 0 {
        is_missing_entry(r, zero_image_message(stream))
    } else if spec_u32_le(c, 16) == 0 || spec_u32_le(c, 20) == 0 {
        is_missing_entry(r, zero_tile_message(stream))
    } else if entry_size < 16 {
        is_missing_entry(r, small_entry_message(stream, entry_size))
    } else {
        exists|k: int|
            {
                &&& 0 <= k < count
                &&& #[trigger] spec_row_base(c, k) + 16 > c.len()
                &&& forall|j: int| 0 <= j < k ==> #[trigger] spec_row_base(c, j) + 16 <= c.len()
                &&& is_truncated(r, stream, spec_row_base(c, k) + 16, c.len() as int)
            }
    }
}

/// `h` is the header that the well-formed content `c` describes.
pub open spec fn header_of(h: SubimageHeader, c: Seq<u8>) -> bool {
    let count = spec_u32_le(c, 12) as int;
    &&& h.width == spec_u32_le(c, 4)
    &&& h.height == spec_u32_le(c, 8)
    &&& h.tile_width == spec_u32_le(c, 16)
    &&& h.tile_height == spec_u32_le(c, 20)
    &&& h.tiles@.len() == count
    &&& forall|i: int|
        0 <= i < count ==> #[trigger] h.tiles@[i] == spec_tile_entry(c, spec_row_base(c, i))
}

/// The outcome of parsing the header stream content `c`.
pub open spec fn header_outcome(r: Result<SubimageHeader>, stream: Seq<char>, c: Seq<u8>) -> bool {
    if is_valid_header(c) {
        r matches Ok(h) && header_of(h, c)
    } else {
        header_failure(r, stream, c)
    }
}

fn u32le(stream: &str, data: &[u8], offset: u64) -> (r: Result<u32>)
    requires
        offset + 4 <= u64::MAX,
    ensures
        offset + 4 <= data@.len() ==> r == Ok::<u32, FpxError>(spec_u32_le(data@, offset as int)),
        offset + 4 > data@.len() ==> is_truncated(r, stream@, offset + 4, data@.len() as int),
{
    if offset <= data.len() as u64 {
        if let Some(v) = read_u32_le(data, offset as usize) {
            return Ok(v);
        }
    }
    Err(truncated(stream, offset + 4, data.len()))
}

fn named_message(stream_name: &str, tail: &str) -> (msg: String)
    ensures
        msg@ == seq!['\''] + stream_name@ + tail@,
{
    proof {
        reveal_strlit("'");
    }
    let mut msg = String::from_str("'");
    msg.append(stream_name);
    msg.append(tail);
    msg
}

/// Parses a Subimage Header stream's content (with the 28-byte FPX prefix
/// already stripped).
pub fn parse(stream_name: &str, content: &[u8]) -> (r: Result<SubimageHeader>)
    ensures
        header_outcome(r, stream_name@, content@),
{
    let len = content.len() as u64;
    if len < FIXED_HEADER_LEN {
        return Err(truncated(stream_name, FIXED_HEADER_LEN, content.len()));
    }

    let width = u32le(stream_name, content, 4)?;
    let height = u32le(stream_name, content, 8)?;
    let tile_count = u32le(stream_name, content, 12)? as u64;
    let tile_width = u32le(stream_name, content, 16)?;
    let tile_height = u32le(stream_name, content, 20)?;
    let table_offset = u32le(stream_name, content, 28)? as u64;
    let entry_size = u32le(stream_name, content, 32)? as u64;

    if width == 0 || height == 0 {
        let msg = named_message(stream_name, "' reports a zero-sized image");
        return Err(FpxError::MissingEntry(msg));
    }
    if tile_width == 0 || tile_height == 0 {
        let msg = named_message(stream_name, "' reports a zero-sized tile");
        return Err(FpxError::MissingEntry(msg));
    }
    if entry_size < 16 {
        let mut msg = named_message(
            stream_name,
            "' has an unexpectedly small tile-table entry size (",
        );
        push_decimal(&mut msg, entry_size);
        msg.append(" bytes)");
        assert(msg@ =~= small_entry_message(stream_name@, entry_size as u32));
        return Err(FpxError::MissingEntry(msg));
    }

    let mut tiles: Vec<TileEntry> = Vec::new();
    let mut i: u64 = 0;
    while i < tile_count
        invariant
            len == content@.len(),
            len >= 36,
            tile_count == spec_u32_le(content@, 12),
            table_offset == spec_u32_le(content@, 28),
            entry_size == spec_u32_le(content@, 32),
            entry_size >= 16,
            spec_u32_le(content@, 4) != 0 && spec_u32_le(content@, 8) != 0,
            spec_u32_le(content@, 16) != 0 && spec_u32_le(content@, 20) != 0,
            i <= tile_count,
            tiles@.len() == i,
            forall|j: int| 0 <= j < i ==> #[trigger] spec_row_base(content@, j) + 16 <= len,
            forall|j: int|
                0 <= j < i ==> #[trigger] tiles@[j] == spec_tile_entry(
                    content@,
                    spec_row_base(content@, j),
                ),
        decreases tile_count - i,
    {
        assert(i * entry_size <= 0xFFFF_FFFF * 0xFFFF_FFFF) by (nonlinear_arith)
            requires
                i < 0x1_0000_0000,
                entry_size < 0x1_0000_0000,
        ;
        let base = table_offset + i * entry_size;
        let needed_end = base + 16;
        assert(base == spec_row_base(content@, i as int));
        if len < needed_end {
            assert(spec_row_base(content@, i as int) + 16 > content@.len());
            return Err(truncated(stream_name, needed_end, content.len()));
        }
        let offset = u32le(stream_name, content, base)? as usize;
        let size = u32le(stream_name, content, base + 4)? as usize;
        let compress_type = u32le(stream_name, content, base + 8)?;
        let compress_subtype = u32le(stream_name, content, base + 12)?;
        tiles.push(TileEntry { offset, size, compress_type, compress_subtype });
        i = i + 1;
    }

    proof {
        assert(!exists|k: int|
            0 <= k < tile_count && #[trigger] spec_row_base(content@, k) + 16 > content@.len());
    }
    Ok(SubimageHeader { width, height, tile_width, tile_height, tiles })
}

} // verus!
