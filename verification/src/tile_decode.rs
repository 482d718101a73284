//! Decodes a resolution's tiles into one full RGB pixel buffer.
//!
//! Tiles are JPEG-compressed but, when they share a table group, don't
//! carry their own quantization/Huffman tables. What's on disk for such a
//! tile is a second, headerless JPEG stream: `SOI SOF SOS <entropy-coded
//! data> EOI` with no `DQT`/`DHT` segments. This module splices the shared
//! tables-only stream and the tile's stream into one ordinary JPEG before
//! decoding: `SOI` + shared `DQT`/`DHT` segments + the tile's own
//! `SOF`/`SOS`/entropy-coded data/`EOI`.

use std::collections::HashMap;
use vstd::prelude::*;

use crate::error::{is_missing_entry, is_truncated, truncated, FpxError, PixelFormat, Result};
use crate::subimage_header::{spec_tables_index, SubimageHeader, TileEntry, COMPRESS_TYPE_JPEG};
use crate::le::push_range;
use crate::text::{decimal, push_decimal};

verus! {

broadcast use vstd::std_specs::hash::group_hash_axioms;

// ---------------------------------------------------------------------
// Where each tile goes
// ---------------------------------------------------------------------

/// Tiles per row of the tile grid: `ceil(w / tw)`.
pub open spec fn tiles_per_row(w: int, tw: int) -> int {
    (w + tw - 1) / tw
}

/// Grid column of tile `k`.
pub open spec fn tile_col(k: int, w: int, tw: int) -> int {
    k % tiles_per_row(w, tw)
}

/// Grid row of tile `k`.
pub open spec fn tile_row(k: int, w: int, tw: int) -> int {
    k / tiles_per_row(w, tw)
}

/// Width of tile `k`'s visible part: the tile width, cut at the image's
/// right edge.
pub open spec fn crop_width(k: int, w: int, tw: int) -> int {
    let x0 = tile_col(k, w, tw) * tw;
    if tw <= w - x0 {
        tw
    } else {
        w - x0
    }
}

/// Height of tile `k`'s visible part: the tile height, cut at the image's
/// bottom edge (0 for a tile below the image).
pub open spec fn crop_height(k: int, w: int, h: int, tw: int, th: int) -> int {
    let y0 = tile_row(k, w, tw) * th;
    if y0 >= h {
        0
    } else if th <= h - y0 {
        th
    } else {
        h - y0
    }
}

/// How many bytes of a decoded tile `k` the placement reads.
pub open spec fn needed_pixels(k: int, w: int, h: int, tw: int, th: int) -> int {
    let ch = crop_height(k, w, h, tw, th);
    if ch == 0 {
        0
    } else {
        ((ch - 1) * tw + crop_width(k, w, tw)) * 3
    }
}

/// Byte `p` of a `w`-pixel-wide RGB image after the block of `cw` x `ch`
/// pixels with top-left corner (`x0`, `y0`) was copied in from `px`, an
/// image `tw` pixels wide: inside the block the copied pixel, elsewhere the
/// old byte.
pub open spec fn block_value(
    old: Seq<u8>,
    p: int,
    w: int,
    tw: int,
    x0: int,
    y0: int,
    cw: int,
    ch: int,
    px: Seq<u8>,
) -> u8 {
    let q = p / 3;
    let y = q / w;
    let x = q % w;
    let c = p % 3;
    if y0 <= y < y0 + ch && x0 <= x < x0 + cw {
        px[((y - y0) * tw + (x - x0)) * 3 + c]
    } else {
        old[p]
    }
}

/// Byte `p` of an RGB image `w` pixels wide after tile `k` (decoded to
/// `px`, `tw` x `th` pixels) was copied into `old`: inside the tile's
/// visible part the tile's pixel, elsewhere the old byte.
pub open spec fn placed_value(
    old: Seq<u8>,
    p: int,
    w: int,
    h: int,
    tw: int,
    th: int,
    k: int,
    px: Seq<u8>,
) -> u8 {
    block_value(
        old,
        p,
        w,
        tw,
        tile_col(k, w, tw) * tw,
        tile_row(k, w, tw) * th,
        crop_width(k, w, tw),
        crop_height(k, w, h, tw, th),
        px,
    )
}

/// Byte `p` of the image assembled from the decoded tiles `px`: pixel
/// (x, y) comes from the tile in grid cell (x / tw, y / th), at its offset
/// within that tile; a pixel whose tile is missing is black.
pub open spec fn assembled_value(p: int, w: int, tw: int, th: int, px: Seq<Seq<u8>>) -> u8 {
    let q = p / 3;
    let y = q / w;
    let x = q % w;
    let c = p % 3;
    let col = x / tw;
    let row = y / th;
    let i = row * tiles_per_row(w, tw) + col;
    if i < px.len() {
        px[i][((y - row * th) * tw + (x - col * tw)) * 3 + c]
    } else {
        0
    }
}

/// The `w` x `h` RGB image assembled from the decoded tiles `px`.
pub open spec fn assembled(w: int, h: int, tw: int, th: int, px: Seq<Seq<u8>>) -> Seq<u8> {
    Seq::new((w * h * 3) as nat, |p: int| assembled_value(p, w, tw, th, px))
}

/// Position facts of byte `p` of a `w`-pixel-wide RGB image: it is channel
/// `p % 3` of pixel (`(p / 3) % w`, `(p / 3) / w`).
proof fn lemma_pixel_position(p: int, w: int, y: int, x: int, c: int)
    requires
        w > 0,
        0 <= x < w,
        0 <= c < 3,
        y >= 0,
        p == (y * w + x) * 3 + c,
    ensures
        p / 3 / w == y,
        p / 3 % w == x,
        p % 3 == c,
        p / 3 == y * w + x,
{
    vstd::arithmetic::div_mod::lemma_fundamental_div_mod_converse(p, 3, y * w + x, c);
    vstd::arithmetic::div_mod::lemma_fundamental_div_mod_converse(p / 3, w, y, x);
}

/// Decomposes byte `p` of a `w`-pixel-wide RGB image into its pixel row,
/// column and channel.
proof fn lemma_pixel_decompose(p: int, w: int)
    requires
        w > 0,
        p >= 0,
    ensures
        0 <= p / 3 % w < w,
        0 <= p % 3 < 3,
        p / 3 / w >= 0,
        p == (p / 3 / w * w + p / 3 % w) * 3 + p % 3,
{
    vstd::arithmetic::div_mod::lemma_fundamental_div_mod(p, 3);
    vstd::arithmetic::div_mod::lemma_fundamental_div_mod(p / 3, w);
    assert(p / 3 >= 0) by {
        vstd::arithmetic::div_mod::lemma_div_pos_is_pos(p, 3);
    }
    assert(p / 3 / w >= 0) by {
        vstd::arithmetic::div_mod::lemma_div_pos_is_pos(p / 3, w);
    }
    vstd::arithmetic::div_mod::lemma_mod_bound(p, 3);
    vstd::arithmetic::div_mod::lemma_mod_bound(p / 3, w);
    assert(w * (p / 3 / w) == p / 3 / w * w) by (nonlinear_arith);
}

/// Geometry of tile `k`: its column lies inside the grid, so its left
/// edge is inside the image.
proof fn lemma_tile_geometry(k: int, w: int, tw: int)
    requires
        w > 0,
        tw > 0,
        k >= 0,
    ensures
        tiles_per_row(w, tw) >= 1,
        0 <= tile_col(k, w, tw) < tiles_per_row(w, tw),
        tile_row(k, w, tw) >= 0,
        k == tile_row(k, w, tw) * tiles_per_row(w, tw) + tile_col(k, w, tw),
        0 <= tile_col(k, w, tw) * tw < w,
        1 <= crop_width(k, w, tw) <= tw,
        tile_col(k, w, tw) * tw + crop_width(k, w, tw) <= w,
{
    let tpr = tiles_per_row(w, tw);
    let col = tile_col(k, w, tw);
    assert(tpr >= 1) by {
        vstd::arithmetic::div_mod::lemma_div_basics(w + tw - 1);
        vstd::arithmetic::div_mod::lemma_div_is_ordered(tw, w + tw - 1, tw);
        vstd::arithmetic::div_mod::lemma_div_by_self(tw);
    }
    vstd::arithmetic::div_mod::lemma_mod_bound(k, tpr);
    vstd::arithmetic::div_mod::lemma_fundamental_div_mod(k, tpr);
    vstd::arithmetic::div_mod::lemma_div_pos_is_pos(k, tpr);
    assert(tpr * (k / tpr) == k / tpr * tpr) by (nonlinear_arith);
    // tpr * tw < w + tw, so col * tw <= (tpr - 1) * tw < w
    vstd::arithmetic::div_mod::lemma_fundamental_div_mod(w + tw - 1, tw);
    vstd::arithmetic::div_mod::lemma_mod_bound(w + tw - 1, tw);
    assert(tpr * tw <= w + tw - 1) by (nonlinear_arith)
        requires
            w + tw - 1 == tw * tpr + (w + tw - 1) % tw,
            (w + tw - 1) % tw >= 0,
    ;
    assert(col * tw <= (tpr - 1) * tw) by (nonlinear_arith)
        requires
            col <= tpr - 1,
            tw > 0,
    ;
    assert(col * tw >= 0) by (nonlinear_arith)
        requires
            col >= 0,
            tw > 0,
    ;
    assert((tpr - 1) * tw == tpr * tw - tw) by (nonlinear_arith);
}

/// A byte lies in tile `k`'s visible part exactly when its pixel's grid
/// cell is tile `k`'s cell.
proof fn lemma_cell_of_pixel(k: int, w: int, h: int, tw: int, th: int, y: int, x: int)
    requires
        w > 0,
        h > 0,
        tw > 0,
        th > 0,
        k >= 0,
        0 <= y < h,
        0 <= x < w,
    ensures
        ({
            let x0 = tile_col(k, w, tw) * tw;
            let y0 = tile_row(k, w, tw) * th;
            (y0 <= y < y0 + crop_height(k, w, h, tw, th) && x0 <= x < x0 + crop_width(k, w, tw))
                <==> (y / th) * tiles_per_row(w, tw) + x / tw == k
        }),
        (y / th) * tiles_per_row(w, tw) + x / tw >= 0,
        0 <= x / tw < tiles_per_row(w, tw),
        y / th >= 0,
        (y / th) * tiles_per_row(w, tw) + x / tw == k ==> y / th == tile_row(k, w, tw) && x / tw
            == tile_col(k, w, tw),
{
    lemma_tile_geometry(k, w, tw);
    let tpr = tiles_per_row(w, tw);
    let col = tile_col(k, w, tw);
    let row = tile_row(k, w, tw);
    let x0 = col * tw;
    let y0 = row * th;
    vstd::arithmetic::div_mod::lemma_div_pos_is_pos(x, tw);
    vstd::arithmetic::div_mod::lemma_div_pos_is_pos(y, th);
    // x / tw < tpr: x < w <= tpr * tw
    vstd::arithmetic::div_mod::lemma_fundamental_div_mod(w + tw - 1, tw);
    vstd::arithmetic::div_mod::lemma_mod_bound(w + tw - 1, tw);
    assert(w <= tpr * tw) by (nonlinear_arith)
        requires
            w + tw - 1 == tw * tpr + (w + tw - 1) % tw,
            (w + tw - 1) % tw < tw,
    ;
    vstd::arithmetic::div_mod::lemma_fundamental_div_mod(x, tw);
    vstd::arithmetic::div_mod::lemma_mod_bound(x, tw);
    assert(x / tw < tpr) by (nonlinear_arith)
        requires
            x == tw * (x / tw) + x % tw,
            x % tw >= 0,
            x < w,
            w <= tpr * tw,
            tw > 0,
    ;
    assert((y / th) * tpr + x / tw >= 0) by (nonlinear_arith)
        requires
            y / th >= 0,
            x / tw >= 0,
            tpr >= 1,
    ;
    if y0 <= y < y0 + crop_height(k, w, h, tw, th) && x0 <= x < x0 + crop_width(k, w, tw) {
        vstd::arithmetic::div_mod::lemma_fundamental_div_mod_converse(y, th, row, y - y0);
        vstd::arithmetic::div_mod::lemma_fundamental_div_mod_converse(x, tw, col, x - x0);
    }
    if (y / th) * tpr + x / tw == k {
        vstd::arithmetic::div_mod::lemma_fundamental_div_mod_converse(k, tpr, y / th, x / tw);
        vstd::arithmetic::div_mod::lemma_fundamental_div_mod(y, th);
        vstd::arithmetic::div_mod::lemma_mod_bound(y, th);
        vstd::arithmetic::div_mod::lemma_fundamental_div_mod(x, tw);
        vstd::arithmetic::div_mod::lemma_mod_bound(x, tw);
        assert(th * (y / th) == y0) by (nonlinear_arith)
            requires
                y / th == row,
                y0 == row * th,
        ;
        assert(tw * (x / tw) == x0) by (nonlinear_arith)
            requires
                x / tw == col,
                x0 == col * tw,
        ;
    }
}

/// Copies the visible part of tile `index`, decoded to `pixels` (`tile_width`
/// x `tile_height` RGB pixels, row-major), into its place in `full`, the
/// `width` x `height` RGB image. Tiles lie row-major on a grid of
/// `ceil(width / tile_width)` columns; a tile reaching past the image's
/// right or bottom edge is cropped.
pub fn place_tile(
    full: &mut Vec<u8>,
    width: u32,
    height: u32,
    tile_width: u32,
    tile_height: u32,
    index: usize,
    pixels: &[u8],
)
    requires
        width > 0,
        height > 0,
        tile_width > 0,
        tile_height > 0,
        index < 0x1_0000_0000,
        old(full)@.len() == width * height * 3,
        pixels@.len() >= needed_pixels(
            index as int,
            width as int,
            height as int,
            tile_width as int,
            tile_height as int,
        ),
    ensures
        final(full)@ == Seq::new(
            old(full)@.len(),
            |p: int|
                placed_value(
                    old(full)@,
                    p,
                    width as int,
                    height as int,
                    tile_width as int,
                    tile_height as int,
                    index as int,
                    pixels@,
                ),
        ),
{
    let ghost (w, h, tw, th, k) = (
        width as int,
        height as int,
        tile_width as int,
        tile_height as int,
        index as int,
    );
    let ghost old_full = full@;
    proof {
        lemma_tile_geometry(k, w, tw);
    }
    let tiles_per_row: u64 = (width as u64 + tile_width as u64 - 1) / tile_width as u64;
    let col: u64 = index as u64 % tiles_per_row;
    let row: u64 = index as u64 / tiles_per_row;
    assert(col * tile_width < width);
    let x0: u64 = col * tile_width as u64;
    assert(row <= index) by {
        vstd::arithmetic::div_mod::lemma_div_is_ordered_by_denominator(k, 1, tiles_per_row as int);
    }
    assert(row * tile_height < 0x1_0000_0000 * 0x1_0000_0000) by (nonlinear_arith)
        requires
            row < 0x1_0000_0000,
            tile_height < 0x1_0000_0000,
    ;
    let y0: u64 = row * tile_height as u64;
    let crop_w: u64 = if (tile_width as u64) <= width as u64 - x0 {
        tile_width as u64
    } else {
        width as u64 - x0
    };
    let crop_h: u64 = if y0 >= height as u64 {
        0
    } else if (tile_height as u64) <= height as u64 - y0 {
        tile_height as u64
    } else {
        height as u64 - y0
    };
    assert(crop_w == crop_width(k, w, tw));
    assert(crop_h == crop_height(k, w, h, tw, th));
    let ghost len = old_full.len();
    let full_len = full.len();
    let pixels_len = pixels.len();
    assert(crop_h > 0 ==> y0 + crop_h <= height);

    let mut ty: u64 = 0;
    while ty < crop_h
        invariant
            full@.len() == len == full_len,
            pixels_len == pixels@.len(),
            len == w * h * 3,
            w > 0 && h > 0 && tw > 0 && th > 0,
            width == w && height == h && tile_width == tw && tile_height == th,
            x0 + crop_w <= w,
            crop_h > 0 ==> y0 + crop_h <= h,
            1 <= crop_w <= tw,
            ty <= crop_h,
            crop_h > 0 ==> pixels@.len() >= ((crop_h - 1) * tw + crop_w) * 3,
            forall|p: int|
                0 <= p < len ==> #[trigger] full@[p] == block_value(
                    old_full,
                    p,
                    w,
                    tw,
                    x0 as int,
                    y0 as int,
                    crop_w as int,
                    ty as int,
                    pixels@,
                ),
        decreases crop_h - ty,
    {
        assert((y0 + ty) * width + x0 < h * w) by (nonlinear_arith)
            requires
                y0 + ty < h,
                x0 < w,
                width == w,
        ;
        assert(h * w * 3 == w * h * 3) by (nonlinear_arith);
        let dst: usize = (((y0 + ty) * width as u64 + x0) * 3) as usize;
        assert(ty * tile_width * 3 + crop_w * 3 <= ((crop_h - 1) * tw + crop_w) * 3)
            by (nonlinear_arith)
            requires
                ty <= crop_h - 1,
                tile_width == tw,
                tw > 0,
        ;
        assert(ty * tile_width <= ty * tile_width * 3) by (nonlinear_arith)
            requires ty >= 0, tile_width >= 0;
        let src: usize = (ty * tile_width as u64 * 3) as usize;
        let row_len: usize = (crop_w * 3) as usize;
        assert(dst + row_len <= len) by (nonlinear_arith)
            requires
                dst == ((y0 + ty) * w + x0) * 3,
                row_len == crop_w * 3,
                x0 + crop_w <= w,
                y0 + ty + 1 <= h,
                len == w * h * 3,
                w > 0,
        ;
        let ghost before = full@;
        let mut j: usize = 0;
        while j < row_len
            invariant
                full@.len() == len == full_len,
                pixels_len == pixels@.len(),
                dst + row_len <= len,
                src + row_len <= pixels@.len(),
                j <= row_len,
                forall|p: int|
                    0 <= p < len ==> #[trigger] full@[p] == if dst <= p < dst + j {
                        pixels@[src + p - dst]
                    } else {
                        before[p]
                    },
            decreases row_len - j,
        {
            full.set(dst + j, pixels[src + j]);
            j = j + 1;
        }
        proof {
            assert forall|p: int| 0 <= p < len implies #[trigger] full@[p] == block_value(
                old_full,
                p,
                w,
                tw,
                x0 as int,
                y0 as int,
                crop_w as int,
                ty + 1,
                pixels@,
            ) by {
                lemma_row_step(
                    old_full,
                    p,
                    w,
                    tw,
                    x0 as int,
                    y0 as int,
                    crop_w as int,
                    ty as int,
                    pixels@,
                    dst as int,
                    src as int,
                );
                assert(before[p] == block_value(
                    old_full,
                    p,
                    w,
                    tw,
                    x0 as int,
                    y0 as int,
                    crop_w as int,
                    ty as int,
                    pixels@,
                ));
            }
        }
        ty = ty + 1;
    }
    assert(full@ =~= Seq::new(
        old_full.len(),
        |p: int| placed_value(old_full, p, w, h, tw, th, k, pixels@),
    ));
}

/// Copying row `ty` of the block (bytes `dst .. dst + 3 * cw` of the image,
/// taken from bytes `src ..` of `px`) extends a block of `ty` rows to one of
/// `ty + 1` rows.
proof fn lemma_row_step(
    old: Seq<u8>,
    p: int,
    w: int,
    tw: int,
    x0: int,
    y0: int,
    cw: int,
    ty: int,
    px: Seq<u8>,
    dst: int,
    src: int,
)
    requires
        w > 0,
        tw > 0,
        p >= 0,
        x0 >= 0,
        y0 >= 0,
        ty >= 0,
        1 <= cw <= tw,
        x0 + cw <= w,
        dst == ((y0 + ty) * w + x0) * 3,
        src == ty * tw * 3,
    ensures
        dst <= p < dst + cw * 3 ==> block_value(old, p, w, tw, x0, y0, cw, ty + 1, px)
            == px[src + p - dst],
        !(dst <= p < dst + cw * 3) ==> block_value(old, p, w, tw, x0, y0, cw, ty + 1, px)
            == block_value(old, p, w, tw, x0, y0, cw, ty, px),
{
    if dst <= p < dst + cw * 3 {
        let off = p - dst;
        vstd::arithmetic::div_mod::lemma_fundamental_div_mod(off, 3);
        vstd::arithmetic::div_mod::lemma_mod_bound(off, 3);
        vstd::arithmetic::div_mod::lemma_div_pos_is_pos(off, 3);
        assert(off / 3 < cw) by (nonlinear_arith)
            requires
                off == 3 * (off / 3) + off % 3,
                off % 3 >= 0,
                off < cw * 3,
        ;
        let x = x0 + off / 3;
        lemma_pixel_position(p, w, y0 + ty, x, off % 3);
        assert(((y0 + ty - y0) * tw + (x - x0)) * 3 + off % 3 == src + p - dst) by (nonlinear_arith)
            requires
                off == 3 * (off / 3) + off % 3,
                x == x0 + off / 3,
                src == ty * tw * 3,
                off == p - dst,
        ;
    } else {
        lemma_pixel_decompose(p, w);
        let y = p / 3 / w;
        let x = p / 3 % w;
        if y == y0 + ty && x0 <= x < x0 + cw {
            assert(dst <= p < dst + cw * 3) by (nonlinear_arith)
                requires
                    p == (y * w + x) * 3 + p % 3,
                    0 <= p % 3 < 3,
                    y == y0 + ty,
                    x0 <= x < x0 + cw,
                    dst == ((y0 + ty) * w + x0) * 3,
            ;
        }
    }
}

/// Placing tile `k = px.len()` into the image assembled from tiles
/// `0 .. k` gives the image assembled from tiles `0 ..= k`.
proof fn lemma_place_extends(w: int, h: int, tw: int, th: int, px: Seq<Seq<u8>>, t: Seq<u8>)
    requires
        w > 0,
        h > 0,
        tw > 0,
        th > 0,
    ensures
        Seq::new(
            (w * h * 3) as nat,
            |p: int| placed_value(assembled(w, h, tw, th, px), p, w, h, tw, th, px.len() as int, t),
        ) =~= assembled(w, h, tw, th, px.push(t)),
{
    let k = px.len() as int;
    let old = assembled(w, h, tw, th, px);
    assert forall|p: int| 0 <= p < w * h * 3 implies placed_value(old, p, w, h, tw, th, k, t)
        == #[trigger] assembled_value(p, w, tw, th, px.push(t)) by {
        lemma_pixel_decompose(p, w);
        let y = p / 3 / w;
        let x = p / 3 % w;
        assert(y < h) by (nonlinear_arith)
            requires
                p == (y * w + x) * 3 + p % 3,
                0 <= p % 3,
                0 <= x,
                p < w * h * 3,
                w > 0,
        ;
        lemma_cell_of_pixel(k, w, h, tw, th, y, x);
    }
}

/// The JPEG stream made of a tables-only stream (`SOI DQT.. DHT.. EOI`)
/// and a headerless tile stream (`SOI SOF SOS <data> EOI`): `SOI`, the
/// tables without their own `SOI`/`EOI`, then the tile without its `SOI`.
pub open spec fn spliced(tables: Seq<u8>, tile: Seq<u8>) -> Seq<u8> {
    seq![0xFFu8, 0xD8u8] + (if tables.len() > 4 {
        tables.subrange(2, tables.len() - 2)
    } else {
        Seq::empty()
    }) + tile.subrange(2, tile.len() as int)
}

/// Splices a shared JPEG tables-only stream (`SOI DQT.. DHT.. EOI`) with a
/// tile's headerless JPEG stream (`SOI SOF SOS <data> EOI`) into one
/// ordinary JPEG (`SOI DQT.. DHT.. SOF SOS <data> EOI`).
fn splice_jpeg(tables: &[u8], tile: &[u8]) -> (out: Vec<u8>)
    requires
        tile@.len() >= 2,
    ensures
        out@ == spliced(tables@, tile@),
{
    let mut out: Vec<u8> = Vec::new();
    out.push(0xFF);
    out.push(0xD8);
    if tables.len() > 4 {
        push_range(&mut out, tables, 2, tables.len() - 2);
    }
    push_range(&mut out, tile, 2, tile.len());
    assert(out@ =~= spliced(tables@, tile@));
    out
}

/// The bytes of each table group.
pub open spec fn table_bytes(m: Map<u8, Vec<u8>>) -> Map<u8, Seq<u8>> {
    m.map_values(|v: Vec<u8>| v@)
}

/// The tile can be handed to the decoder: it is JPEG-compressed, its bytes
/// lie inside the data stream, and any shared table group it names is
/// present (with the tile long enough to drop its own `SOI`).
pub open spec fn tile_ready(data: Seq<u8>, tables: Map<u8, Seq<u8>>, t: TileEntry) -> bool {
    let k = spec_tables_index(t.compress_subtype);
    &&& t.compress_type == COMPRESS_TYPE_JPEG
    &&& t.offset + t.size <= data.len()
    &&& k != 0 ==> tables.contains_key(k) && t.size >= 2
}

/// The JPEG stream handed to the decoder for a ready tile: its own bytes,
/// or, for a tile sharing table group `k`, those bytes spliced with the
/// group's tables.
pub open spec fn tile_jpeg(data: Seq<u8>, tables: Map<u8, Seq<u8>>, t: TileEntry) -> Seq<u8> {
    let k = spec_tables_index(t.compress_subtype);
    let own = data.subrange(t.offset as int, t.offset + t.size);
    if k == 0 {
        own
    } else {
        spliced(tables[k], own)
    }
}

/// `tile N in 'stream' references JPEG-tables group K, which is missing from 'Image Contents'`
pub open spec fn missing_group_message(index: int, stream: Seq<char>, group: u8) -> Seq<char> {
    "tile "@ + decimal(index as nat) + " in '"@ + stream
        + "' references JPEG-tables group "@ + decimal(group as nat)
        + ", which is missing from 'Image Contents'"@
}

/// The error a tile that is not ready fails with: unsupported compression,
/// bytes cut off, a missing table group, or a tile too short to splice.
pub open spec fn tile_failure<T>(
    r: Result<T>,
    stream: Seq<char>,
    index: int,
    data: Seq<u8>,
    tables: Map<u8, Seq<u8>>,
    t: TileEntry,
) -> bool {
    let k = spec_tables_index(t.compress_subtype);
    if t.compress_type != COMPRESS_TYPE_JPEG {
        crate::error::is_unsupported_compression(r, stream, t.compress_type)
    } else if t.offset + t.size > data.len() {
        is_truncated(r, stream, t.offset + t.size, data.len() as int)
    } else if k != 0 && !tables.contains_key(k) {
        is_missing_entry(r, missing_group_message(index, stream, k))
    } else {
        is_truncated(r, stream, 2, t.size as int)
    }
}

/// Picks the JPEG stream to decode for tile `index`.
fn tile_jpeg_bytes(
    stream_name: &str,
    index: usize,
    data: &[u8],
    tile: &TileEntry,
    jpeg_tables: &HashMap<u8, Vec<u8>>,
) -> (r: Result<Vec<u8>>)
    requires
        tile.offset + tile.size <= u64::MAX,
    ensures
        tile_ready(data@, table_bytes(jpeg_tables@), *tile) ==> (r matches Ok(b) && b@ == tile_jpeg(
            data@,
            table_bytes(jpeg_tables@),
            *tile,
        )),
        !tile_ready(data@, table_bytes(jpeg_tables@), *tile) ==> tile_failure(
            r,
            stream_name@,
            index as int,
            data@,
            table_bytes(jpeg_tables@),
            *tile,
        ),
{
    if tile.compress_type != COMPRESS_TYPE_JPEG {
        return Err(
            FpxError::UnsupportedCompression {
                stream: String::from_str(stream_name),
                found: tile.compress_type,
            },
        );
    }
    let tile_end = tile.offset as u64 + tile.size as u64;
    if tile_end > data.len() as u64 {
        return Err(truncated(stream_name, tile_end, data.len()));
    }
    let table_index = tile.jpeg_tables_index();
    let mut own: Vec<u8> = Vec::new();
    push_range(&mut own, data, tile.offset, tile.offset + tile.size);
    assert(own@ =~= data@.subrange(tile.offset as int, tile.offset + tile.size));
    if table_index == 0 {
        return Ok(own);
    }
    match jpeg_tables.get(&table_index) {
        None => {
            let mut msg = String::from_str("tile ");
            push_decimal(&mut msg, index as u64);
            msg.append(" in '");
            msg.append(stream_name);
            msg.append("' references JPEG-tables group ");
            push_decimal(&mut msg, table_index as u64);
            msg.append(", which is missing from 'Image Contents'");
            assert(msg@ =~= missing_group_message(index as int, stream_name@, table_index));
            Err(FpxError::MissingEntry(msg))
        },
        Some(tables) => {
            if own.len() < 2 {
                return Err(truncated(stream_name, 2, own.len()));
            }
            Ok(splice_jpeg(tables.as_slice(), own.as_slice()))
        },
    }
}

/// The decoded pixels and pixel format of a JPEG stream, or the decoder's error.
pub type DecodeResult = core::result::Result<(Vec<u8>, Option<PixelFormat>), jpeg_decoder::Error>;

/// What `jpeg_decoder::Decoder::decode` makes of the JPEG stream `data`:
/// nothing when it refuses the stream, else the pixel format it decodes
/// to, the number of pixel bytes it returns, and the set of pixel buffers
/// it may return. All three follow from the stream alone; the buffer
/// itself is named only as one of that set, since the decoder picks SIMD
/// routines at run time, which may round differently.
pub uninterp spec fn jpeg_decode_shape(data: Seq<u8>) -> Option<(PixelFormat, nat, Set<Seq<u8>>)>;

/// Decodes one JPEG stream with `jpeg_decoder::Decoder::decode` and reports
/// the pixel format from `Decoder::info`. Whether it decodes, the pixel
/// format, the number of pixel bytes and the set of buffers it may return
/// are a function of the stream (`jpeg_decode_shape`); the buffer returned
/// is one of that set. `info` is always present after a successful decode.
#[verifier::external_body]
fn decode_jpeg(data: &[u8]) -> (r: DecodeResult)
    ensures
        r is Ok <==> jpeg_decode_shape(data@) is Some,
        r matches Ok((pixels, format)) ==> format matches Some(f) && jpeg_decode_shape(data@) matches Some(
            (g, n, outs),
        ) && g == f && n == pixels@.len() && outs.contains(pixels@),
{
    let mut decoder = jpeg_decoder::Decoder::new(std::io::Cursor::new(data));
    let pixels = decoder.decode()?;
    let format = match decoder.info() {
        Some(info) => Some(
            match info.pixel_format {
                jpeg_decoder::PixelFormat::L8 => PixelFormat::L8,
                jpeg_decoder::PixelFormat::L16 => PixelFormat::L16,
                jpeg_decoder::PixelFormat::RGB24 => PixelFormat::RGB24,
                jpeg_decoder::PixelFormat::CMYK32 => PixelFormat::CMYK32,
            },
        ),
        None => None,
    };
    Ok((pixels, format))
}

/// `r` is what placing tile `index`, decoded to `found` pixel bytes in
/// `format`, fails with: a format other than RGB, or fewer bytes than its
/// place in the image needs.
pub open spec fn placement_failure<T>(
    r: Result<T>,
    stream: Seq<char>,
    index: int,
    format: PixelFormat,
    needed: int,
    found: int,
) -> bool {
    if format != PixelFormat::RGB24 {
        match r {
            Err(FpxError::UnexpectedPixelFormat { stream: s, index: i, found: f }) => s@ == stream
                && i == index && f == format,
            _ => false,
        }
    } else {
        match r {
            Err(FpxError::TileTooSmall { stream: s, index: i, needed: n, found: f }) => s@ == stream
                && i == index && n == needed && f == found,
            _ => false,
        }
    }
}

/// Places tile `index`, as the decoder returned it (`pixels` in `format`),
/// into `full`: it must be RGB and hold the bytes its place needs.
pub fn place_decoded(
    stream_name: &str,
    full: &mut Vec<u8>,
    width: u32,
    height: u32,
    tile_width: u32,
    tile_height: u32,
    index: usize,
    pixels: &[u8],
    format: PixelFormat,
) -> (r: Result<()>)
    requires
        width > 0,
        height > 0,
        tile_width > 0,
        tile_height > 0,
        index < 0x1_0000_0000,
        old(full)@.len() == width * height * 3,
        width * height * 3 <= usize::MAX,
    ensures
        ({
            let (w, h, tw, th) = (width as int, height as int, tile_width as int, tile_height as int);
            let needed = needed_pixels(index as int, w, h, tw, th);
            &&& r is Ok <==> format == PixelFormat::RGB24 && pixels@.len() >= needed
            &&& r is Ok ==> final(full)@ == Seq::new(
                old(full)@.len(),
                |p: int| placed_value(old(full)@, p, w, h, tw, th, index as int, pixels@),
            )
            &&& r is Err ==> final(full)@ == old(full)@ && placement_failure(
                r,
                stream_name@,
                index as int,
                format,
                needed,
                pixels@.len() as int,
            )
        }),
{
    if format != PixelFormat::RGB24 {
        return Err(
            FpxError::UnexpectedPixelFormat {
                stream: String::from_str(stream_name),
                index,
                found: format,
            },
        );
    }
    let needed = placement_need(width, height, tile_width, tile_height, index);
    if (pixels.len() as u128) < needed {
        return Err(
            FpxError::TileTooSmall {
                stream: String::from_str(stream_name),
                index,
                needed,
                found: pixels.len(),
            },
        );
    }
    place_tile(full, width, height, tile_width, tile_height, index, pixels);
    Ok(())
}

/// What the decoder makes of a ready tile's JPEG stream: the pixel format
/// and the number of pixel bytes.
pub open spec fn tile_shape(data: Seq<u8>, tables: Map<u8, Seq<u8>>, t: TileEntry) -> Option<
    (PixelFormat, nat),
> {
    match jpeg_decode_shape(tile_jpeg(data, tables, t)) {
        Some((f, n, _)) => Some((f, n)),
        None => None,
    }
}

/// `px` is a pixel buffer the decoder may return for a tile's JPEG stream.
pub open spec fn is_tile_decoding(data: Seq<u8>, tables: Map<u8, Seq<u8>>, t: TileEntry, px: Seq<u8>) -> bool {
    jpeg_decode_shape(tile_jpeg(data, tables, t)) matches Some((_, _, outs)) && outs.contains(px)
}

/// Tile `k` decodes and can be placed: it is ready, the decoder accepts
/// its stream, and returns RGB pixels covering its place in the image.
pub open spec fn tile_decodes(
    data: Seq<u8>,
    tables: Map<u8, Seq<u8>>,
    t: TileEntry,
    k: int,
    w: int,
    h: int,
    tw: int,
    th: int,
) -> bool {
    &&& tile_ready(data, tables, t)
    &&& tile_shape(data, tables, t) matches Some((f, n))
    &&& f == PixelFormat::RGB24
    &&& n >= needed_pixels(k, w, h, tw, th)
}

/// `r` is the error tile `k` fails with: the tile is not ready, the
/// decoder refuses its stream, or what it returns cannot be placed.
pub open spec fn decode_failure<T>(
    r: Result<T>,
    stream: Seq<char>,
    data: Seq<u8>,
    tables: Map<u8, Seq<u8>>,
    t: TileEntry,
    k: int,
    w: int,
    h: int,
    tw: int,
    th: int,
) -> bool {
    if !tile_ready(data, tables, t) {
        tile_failure(r, stream, k, data, tables, t)
    } else {
        match tile_shape(data, tables, t) {
            None => match r {
                Err(FpxError::TileDecode { stream: s, index: i, .. }) => s@ == stream && i == k,
                _ => false,
            },
            Some((f, n)) => placement_failure(r, stream, k, f, needed_pixels(k, w, h, tw, th), n as int),
        }
    }
}

/// What decoding the tiles `tiles` of a `w` x `h` image of `tw` x `th`
/// tiles gives: it succeeds exactly when every tile decodes and can be
/// placed, and then holds each tile's decoded pixels in its place; else it
/// fails with the error of the first tile that does not.
pub open spec fn resolution_outcome(
    r: Result<Vec<u8>>,
    stream: Seq<char>,
    data: Seq<u8>,
    tables: Map<u8, Seq<u8>>,
    tiles: Seq<TileEntry>,
    w: int,
    h: int,
    tw: int,
    th: int,
) -> bool {
    &&& r is Ok <==> forall|i: int|
        0 <= i < tiles.len() ==> #[trigger] tile_decodes(data, tables, tiles[i], i, w, h, tw, th)
    &&& r matches Ok(rgb) ==> exists|px: Seq<Seq<u8>>|
        {
            &&& px.len() == tiles.len()
            &&& forall|i: int|
                0 <= i < tiles.len() ==> tile_shape(data, tables, tiles[i]) == Some(
                    (PixelFormat::RGB24, #[trigger] px[i].len()),
                )
            &&& forall|i: int| 0 <= i < tiles.len() ==> #[trigger] is_tile_decoding(data, tables, tiles[i], px[i])
            &&& rgb@ == assembled(w, h, tw, th, px)
        }
    &&& r is Err ==> exists|k: int| #[trigger] first_failing_tile(r, stream, data, tables, tiles, k, w, h, tw, th)
}

/// Tile `k` is the first tile that does not decode and place, and `r` is
/// its error.
pub open spec fn first_failing_tile<T>(
    r: Result<T>,
    stream: Seq<char>,
    data: Seq<u8>,
    tables: Map<u8, Seq<u8>>,
    tiles: Seq<TileEntry>,
    k: int,
    w: int,
    h: int,
    tw: int,
    th: int,
) -> bool {
    &&& 0 <= k < tiles.len()
    &&& forall|j: int| 0 <= j < k ==> #[trigger] tile_decodes(data, tables, tiles[j], j, w, h, tw, th)
    &&& !tile_decodes(data, tables, tiles[k], k, w, h, tw, th)
    &&& decode_failure(r, stream, data, tables, tiles[k], k, w, h, tw, th)
}

/// Decodes every tile in `header` and assembles them into one
/// `width * height * 3` RGB byte buffer. `subimage_data` is the matching
/// `Subimage 0000 Data` stream's content (28-byte FPX prefix already
/// stripped). `jpeg_tables` maps each shared-tables group index (as found
/// in a tile's `compressionSubtype`) to that group's tables-only JPEG blob.
/// Tile `i` is decoded from `tile_jpeg` of its entry: its own bytes, spliced
/// with its table group when it shares one.
pub fn decode_resolution(
    stream_name: &str,
    subimage_data: &[u8],
    header: &SubimageHeader,
    jpeg_tables: &HashMap<u8, Vec<u8>>,
) -> (r: Result<Vec<u8>>)
    requires
        header.width > 0,
        header.height > 0,
        header.tile_width > 0,
        header.tile_height > 0,
        header.tiles@.len() <= 0x1_0000_0000,
        header.width * header.height * 3 <= usize::MAX,
        forall|i: int|
            0 <= i < header.tiles@.len() ==> #[trigger] header.tiles@[i].offset
                + header.tiles@[i].size <= u64::MAX,
    ensures
        resolution_outcome(
            r,
            stream_name@,
            subimage_data@,
            table_bytes(jpeg_tables@),
            header.tiles@,
            header.width as int,
            header.height as int,
            header.tile_width as int,
            header.tile_height as int,
        ),
{
    let ghost (w, h, tw, th) = (
        header.width as int,
        header.height as int,
        header.tile_width as int,
        header.tile_height as int,
    );
    let ghost data = subimage_data@;
    let ghost tables = table_bytes(jpeg_tables@);
    let len: usize = (header.width as u64 * header.height as u64 * 3) as usize;
    let mut full: Vec<u8> = Vec::new();
    let mut z: usize = 0;
    while z < len
        invariant
            z <= len,
            full@ == Seq::new(z as nat, |p: int| 0u8),
        decreases len - z,
    {
        full.push(0);
        z = z + 1;
        assert(full@ =~= Seq::new(z as nat, |p: int| 0u8));
    }
    let ghost mut px: Seq<Seq<u8>> = Seq::empty();
    assert(full@ =~= assembled(w, h, tw, th, px));

    let mut index: usize = 0;
    while index < header.tiles.len()
        invariant
            w == header.width && h == header.height && tw == header.tile_width && th
                == header.tile_height,
            w > 0 && h > 0 && tw > 0 && th > 0,
            w * h * 3 <= usize::MAX,
            data == subimage_data@,
            tables == table_bytes(jpeg_tables@),
            header.tiles@.len() <= 0x1_0000_0000,
            forall|i: int|
                0 <= i < header.tiles@.len() ==> #[trigger] header.tiles@[i].offset
                    + header.tiles@[i].size <= u64::MAX,
            len == w * h * 3,
            full@.len() == len,
            index <= header.tiles@.len(),
            px.len() == index,
            full@ == assembled(w, h, tw, th, px),
            forall|i: int|
                0 <= i < index ==> #[trigger] tile_decodes(
                    data,
                    tables,
                    header.tiles@[i],
                    i,
                    w,
                    h,
                    tw,
                    th,
                ),
            forall|i: int|
                0 <= i < index ==> tile_shape(data, tables, header.tiles@[i]) == Some(
                    (PixelFormat::RGB24, #[trigger] px[i].len()),
                ),
            forall|i: int|
                0 <= i < index ==> #[trigger] is_tile_decoding(data, tables, header.tiles@[i], px[i]),
        decreases header.tiles@.len() - index,
    {
        let tile = &header.tiles[index];
        let ghost k = index as int;
        let jpeg = match tile_jpeg_bytes(stream_name, index, subimage_data, tile, jpeg_tables) {
            Ok(bytes) => bytes,
            Err(e) => {
                assert(!tile_ready(data, tables, header.tiles@[k]));
                assert(!tile_decodes(data, tables, header.tiles@[k], k, w, h, tw, th));
                let r: Result<Vec<u8>> = Err(e);
                assert(decode_failure(r, stream_name@, data, tables, header.tiles@[k], k, w, h, tw, th));
                assert(first_failing_tile(r, stream_name@, data, tables, header.tiles@, k, w, h, tw, th));
                return r;
            },
        };
        assert(tile_ready(data, tables, header.tiles@[k]));
        assert(jpeg@ == tile_jpeg(data, tables, header.tiles@[k]));
        let (pixels, format) = match decode_jpeg(jpeg.as_slice()) {
            Ok(decoded) => decoded,
            Err(source) => {
                assert(!tile_decodes(data, tables, header.tiles@[k], k, w, h, tw, th));
                let r: Result<Vec<u8>> = Err(
                    FpxError::TileDecode { stream: String::from_str(stream_name), index, source },
                );
                assert(decode_failure(r, stream_name@, data, tables, header.tiles@[k], k, w, h, tw, th));
                assert(first_failing_tile(r, stream_name@, data, tables, header.tiles@, k, w, h, tw, th));
                return r;
            },
        };
        let format = match format {
            Some(f) => f,
            None => PixelFormat::L8,
        };
        let ghost before = full@;
        match place_decoded(
            stream_name,
            &mut full,
            header.width,
            header.height,
            header.tile_width,
            header.tile_height,
            index,
            pixels.as_slice(),
            format,
        ) {
            Ok(()) => {},
            Err(e) => {
                assert(!tile_decodes(data, tables, header.tiles@[k], k, w, h, tw, th));
                let r: Result<Vec<u8>> = Err(e);
                assert(first_failing_tile(r, stream_name@, data, tables, header.tiles@, k, w, h, tw, th));
                return r;
            },
        }
        proof {
            lemma_place_extends(w, h, tw, th, px, pixels@);
            px = px.push(pixels@);
        }
        index = index + 1;
    }
    Ok(full)
}

/// How many bytes of a decoded tile `index` its placement reads.
fn placement_need(width: u32, height: u32, tile_width: u32, tile_height: u32, index: usize) -> (n:
    u128)
    requires
        width > 0,
        height > 0,
        tile_width > 0,
        tile_height > 0,
        index < 0x1_0000_0000,
        width * height * 3 <= usize::MAX,
    ensures
        n == needed_pixels(
            index as int,
            width as int,
            height as int,
            tile_width as int,
            tile_height as int,
        ),
{
    let ghost (w, h, tw, th, k) = (
        width as int,
        height as int,
        tile_width as int,
        tile_height as int,
        index as int,
    );
    proof {
        lemma_tile_geometry(k, w, tw);
    }
    let tiles_per_row: u64 = (width as u64 + tile_width as u64 - 1) / tile_width as u64;
    let col: u64 = index as u64 % tiles_per_row;
    let row: u64 = index as u64 / tiles_per_row;
    let x0: u64 = col * tile_width as u64;
    assert(row <= index) by {
        vstd::arithmetic::div_mod::lemma_div_is_ordered_by_denominator(k, 1, tiles_per_row as int);
    }
    assert(row * tile_height < 0x1_0000_0000 * 0x1_0000_0000) by (nonlinear_arith)
        requires
            row < 0x1_0000_0000,
            tile_height < 0x1_0000_0000,
    ;
    let y0: u64 = row * tile_height as u64;
    let crop_w: u64 = if (tile_width as u64) <= width as u64 - x0 {
        tile_width as u64
    } else {
        width as u64 - x0
    };
    if y0 >= height as u64 {
        return 0;
    }
    let crop_h: u64 = if (tile_height as u64) <= height as u64 - y0 {
        tile_height as u64
    } else {
        height as u64 - y0
    };
    assert((crop_h - 1) * tile_width <= 0x1_0000_0000 * 0x1_0000_0000) by (nonlinear_arith)
        requires
            1 <= crop_h < 0x1_0000_0000,
            tile_width < 0x1_0000_0000,
    ;
    ((crop_h as u128 - 1) * tile_width as u128 + crop_w as u128) * 3
}

/// Channel `c` of pixel (`x`, `y`) of a `w`-pixel-wide RGB image.
pub open spec fn rgb_at(img: Seq<u8>, w: int, x: int, y: int, c: int) -> u8 {
    img[(y * w + x) * 3 + c]
}

/// A decoded resolution is its tiles' decoded pixels, each copied to its
/// place: for some buffers the decoder may return for the tiles' streams,
/// channel `c` of pixel (`x`, `y`) is channel `c` of pixel
/// (`x % tw`, `y % th`) of the buffer of the tile in grid cell
/// (`x / tw`, `y / th`), or 0 where the table has no such tile.
pub proof fn lemma_resolution_pixels(
    rgb: Vec<u8>,
    stream: Seq<char>,
    data: Seq<u8>,
    tables: Map<u8, Seq<u8>>,
    tiles: Seq<TileEntry>,
    w: int,
    h: int,
    tw: int,
    th: int,
)
    requires
        w > 0,
        h > 0,
        tw > 0,
        th > 0,
        resolution_outcome(Ok(rgb), stream, data, tables, tiles, w, h, tw, th),
    ensures
        rgb@.len() == w * h * 3,
        exists|px: Seq<Seq<u8>>|
            {
                &&& px.len() == tiles.len()
                &&& forall|i: int|
                    0 <= i < tiles.len() ==> #[trigger] is_tile_decoding(data, tables, tiles[i], px[i])
                &&& forall|x: int, y: int, c: int|
                    0 <= x < w && 0 <= y < h && 0 <= c < 3 ==> {
                        let i = (y / th) * ((w + tw - 1) / tw) + x / tw;
                        #[trigger] rgb_at(rgb@, w, x, y, c) == if i < tiles.len() {
                            px[i][((y % th) * tw + x % tw) * 3 + c]
                        } else {
                            0
                        }
                    }
            },
{
    let px = choose|px: Seq<Seq<u8>>|
        {
            &&& px.len() == tiles.len()
            &&& forall|i: int|
                0 <= i < tiles.len() ==> tile_shape(data, tables, tiles[i]) == Some(
                    (PixelFormat::RGB24, #[trigger] px[i].len()),
                )
            &&& forall|i: int| 0 <= i < tiles.len() ==> #[trigger] is_tile_decoding(data, tables, tiles[i], px[i])
            &&& rgb@ == assembled(w, h, tw, th, px)
        };
    assert forall|x: int, y: int, c: int| 0 <= x < w && 0 <= y < h && 0 <= c < 3 implies {
        let i = (y / th) * ((w + tw - 1) / tw) + x / tw;
        #[trigger] rgb_at(rgb@, w, x, y, c) == if i < tiles.len() {
            px[i][((y % th) * tw + x % tw) * 3 + c]
        } else {
            0
        }
    } by {
        let p = (y * w + x) * 3 + c;
        lemma_pixel_position(p, w, y, x, c);
        assert(p < w * h * 3) by (nonlinear_arith)
            requires
                p == (y * w + x) * 3 + c,
                0 <= x < w,
                0 <= y < h,
                0 <= c < 3,
        ;
        assert(0 <= p) by (nonlinear_arith)
            requires
                p == (y * w + x) * 3 + c,
                0 <= x,
                0 <= y,
                0 <= c,
                w > 0,
        ;
        vstd::arithmetic::div_mod::lemma_fundamental_div_mod(x, tw);
        vstd::arithmetic::div_mod::lemma_fundamental_div_mod(y, th);
        assert(rgb@[p] == assembled_value(p, w, tw, th, px));
    }
}

} // verus!
