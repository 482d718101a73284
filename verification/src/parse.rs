//! Orchestrates the parse stage end to end: open the CFBF container, find
//! the FlashPix object inside it, pick the best available resolution,
//! decode its tiles, and collect archival metadata, producing one RGB
//! pixel buffer plus an optional EXIF payload, ready for the convert stage.

use std::collections::HashMap;
use vstd::prelude::*;

use crate::cfbf::{
    children, clone_path, container_listings, container_streams, first_named, lemma_path_view_push, container_walk, find_object_root, find_stream,
    is_image_contents, is_named_child_stream, is_no_resolutions, is_not_flashpix,
    is_resolution_child, is_stream_read, list_resolution_storages, open_container, path_text,
    path_to_text, path_view, read_stream_full, strip_fpx_prefix, Container,
};
use crate::error::{is_image_too_large, is_truncated, FpxError, PixelFormat, Result};
use crate::le::spec_u32_le;
use crate::exif;
use crate::exif_read::{read_entry_count, read_long, read_tag, reads_text};
use crate::filetime::{self, datetime_text_of, unix_seconds};
use crate::fpx_ids::{self, spec_pid_jpeg_tables};
use crate::propset::{
    blob_failure, blob_value, filetime_value, is_property_set, lpwstr_value, parse_failure,
    property_offsets, PropertySet,
};
use crate::subimage_header::{
    self, header_area, header_failure, header_of, is_valid_header, spec_tables_index,
    SubimageHeader,
};
use crate::tile_decode;
use crate::png_writer::opt_vec_view;
use crate::text::{decimal, push_decimal};
use vstd::string::StringSliceAdditionalSpecFns;

verus! {

broadcast use vstd::std_specs::hash::group_hash_axioms;

/// A decoded image, ready to be encoded.
#[derive(Debug)]
pub struct DecodedImage {
    pub width: u32,
    pub height: u32,
    /// 8-bit RGB, row-major, `width * height * 3` bytes.
    pub rgb: Vec<u8>,
    /// Raw payload for a PNG `eXIf` chunk, if any archival metadata was
    /// found (a missing or incomplete `Image Info` stream is not an error:
    /// metadata preservation is best-effort).
    pub exif: Option<Vec<u8>>,
}

/// The bytes of `b` in decimal, separated by `", "`.
pub open spec fn decimal_list(b: Seq<u8>) -> Seq<char>
    decreases b.len(),
{
    if b.len() == 0 {
        Seq::empty()
    } else if b.len() == 1 {
        decimal(b[0] as nat)
    } else {
        decimal_list(b.drop_last()) + ", "@ + decimal(b.last() as nat)
    }
}

/// The debug text of an image: its size, the number of pixel bytes (not
/// the bytes themselves), and the EXIF payload byte by byte.
pub open spec fn debug_text_of(width: nat, height: nat, rgb_len: nat, exif: Option<Seq<u8>>) -> Seq<char> {
    "DecodedImage { width: "@ + decimal(width) + ", height: "@ + decimal(height) + ", rgb: <"@
        + decimal(rgb_len) + " bytes>, exif: "@ + match exif {
        None => "None"@,
        Some(e) => "Some(["@ + decimal_list(e) + "])"@,
    } + " }"@
}

impl DecodedImage {
    /// The image as debug text, with the pixel bytes counted rather than
    /// listed: `DecodedImage { width: 2, height: 1, rgb: <6 bytes>, exif: None }`.
    pub fn debug_text(&self) -> (s: String)
        ensures
            s@ == debug_text_of(
                self.width as nat,
                self.height as nat,
                self.rgb.len() as nat,
                opt_vec_view(self.exif),
            ),
    {
        let mut s = String::new();
        s.append("DecodedImage { width: ");
        push_decimal(&mut s, self.width as u64);
        s.append(", height: ");
        push_decimal(&mut s, self.height as u64);
        s.append(", rgb: <");
        push_decimal(&mut s, self.rgb.len() as u64);
        s.append(" bytes>, exif: ");
        let ghost head = s@;
        match &self.exif {
            None => {
                s.append("None");
            },
            Some(e) => {
                s.append("Some([");
                let ghost start = s@;
                let mut i: usize = 0;
                while i < e.len()
                    invariant
                        i <= e.len(),
                        s@ == start + decimal_list(e@.take(i as int)),
                    decreases e.len() - i,
                {
                    if i > 0 {
                        s.append(", ");
                    }
                    push_decimal(&mut s, e[i] as u64);
                    proof {
                        let t = e@.take(i + 1);
                        assert(t.drop_last() =~= e@.take(i as int));
                        assert(t.last() == e@[i as int]);
                        if i == 0 {
                            assert(e@.take(0) =~= Seq::<u8>::empty());
                        }
                    }
                    i = i + 1;
                    assert(s@ =~= start + decimal_list(e@.take(i as int)));
                }
                assert(e@.take(e.len() as int) =~= e@);
                s.append("])");
            },
        }
        s.append(" }");
        let ghost tail = match opt_vec_view(self.exif) {
            None => "None"@,
            Some(e) => "Some(["@ + decimal_list(e) + "])"@,
        };
        assert(s@ =~= head + tail + " }"@);
        s
    }
}

/// The path of a storage's child called `name`.
pub open spec fn child_path(storage: Seq<Seq<char>>, name: Seq<char>) -> Seq<Seq<char>> {
    storage.push(name)
}

/// A resolution storage's header stream path.
pub open spec fn header_path(storage: Seq<Seq<char>>) -> Seq<Seq<char>> {
    child_path(storage, "Subimage 0000 Header"@)
}

/// A resolution storage's tile data stream path.
pub open spec fn data_path(storage: Seq<Seq<char>>) -> Seq<Seq<char>> {
    child_path(storage, "Subimage 0000 Data"@)
}

/// The content of a resolution's header stream, after the 28-byte prefix.
pub open spec fn header_content(streams: Map<Seq<Seq<char>>, Seq<u8>>, storage: Seq<Seq<char>>) -> Seq<u8> {
    let raw = streams[header_path(storage)];
    raw.subrange(28, raw.len() as int)
}

/// The resolution's header stream is readable, holds its prefix, and
/// parses.
pub open spec fn header_ready(streams: Map<Seq<Seq<char>>, Seq<u8>>, storage: Seq<Seq<char>>) -> bool {
    &&& streams.contains_key(header_path(storage))
    &&& streams[header_path(storage)].len() >= 28
    &&& is_valid_header(header_content(streams, storage))
}

/// `r` is the error reading or parsing the header of `storage` fails with.
pub open spec fn header_read_failure<T>(
    r: Result<T>,
    streams: Map<Seq<Seq<char>>, Seq<u8>>,
    storage: Seq<Seq<char>>,
) -> bool {
    let name = path_text(header_path(storage));
    ||| !streams.contains_key(header_path(storage)) && is_stream_read(r, header_path(storage))
    ||| streams.contains_key(header_path(storage)) && streams[header_path(storage)].len() < 28
        && is_truncated(r, name, 28, streams[header_path(storage)].len() as int)
    ||| streams.contains_key(header_path(storage)) && streams[header_path(storage)].len() >= 28
        && header_failure(r, name, header_content(streams, storage))
}

/// The paths of a list of storages.
pub open spec fn storage_paths(storages: Seq<Vec<String>>) -> Seq<Seq<Seq<char>>> {
    storages.map_values(|p: Vec<String>| path_view(p@))
}

/// `k` is the first storage of largest area among storages whose headers
/// are all ready.
pub open spec fn is_best_resolution(
    streams: Map<Seq<Seq<char>>, Seq<u8>>,
    sv: Seq<Seq<Seq<char>>>,
    k: int,
) -> bool {
    &&& 0 <= k < sv.len()
    &&& forall|i: int| 0 <= i < sv.len() ==> #[trigger] header_ready(streams, sv[i])
    &&& forall|i: int|
        0 <= i < sv.len() ==> #[trigger] header_area(header_content(streams, sv[i])) <= header_area(
            header_content(streams, sv[k]),
        )
    &&& forall|i: int|
        0 <= i < k ==> #[trigger] header_area(header_content(streams, sv[i])) < header_area(
            header_content(streams, sv[k]),
        )
}

/// The area of the resolution chosen does not depend on the order in which
/// the container lists its resolution storages: over two listings of the
/// same storages, the best resolutions have the same area.
pub proof fn lemma_best_area_order_free(
    streams: Map<Seq<Seq<char>>, Seq<u8>>,
    a: Seq<Seq<Seq<char>>>,
    b: Seq<Seq<Seq<char>>>,
    ka: int,
    kb: int,
)
    requires
        a.to_set() == b.to_set(),
        is_best_resolution(streams, a, ka),
        is_best_resolution(streams, b, kb),
    ensures
        header_area(header_content(streams, a[ka])) == header_area(header_content(streams, b[kb])),
{
    assert(b.to_set().contains(a[ka]));
    assert(a.to_set().contains(b[kb]));
    let i = b.index_of(a[ka]);
    let j = a.index_of(b[kb]);
    assert(header_area(header_content(streams, b[i])) <= header_area(header_content(streams, b[kb])));
    assert(header_area(header_content(streams, a[j])) <= header_area(header_content(streams, a[ka])));
}

/// Copies the names of `storage` and appends `name`.
fn child(storage: &[String], name: &str) -> (p: Vec<String>)
    ensures
        path_view(p@) == child_path(path_view(storage@), name@),
{
    let mut p = clone_path(storage);
    let n = String::from_str(name);
    let ghost before = p@;
    p.push(n);
    proof {
        lemma_path_view_push(before, n);
    }
    p
}

/// Reads the header of one resolution storage.
fn read_header(cf: &mut Container, storage: &[String]) -> (r: Result<SubimageHeader>)
    ensures
        container_walk(*final(cf)) == container_walk(*old(cf)),
        container_streams(*final(cf)) == container_streams(*old(cf)),
        container_listings(*final(cf)) == container_listings(*old(cf)),
        ({
            let streams = container_streams(*old(cf));
            let s = path_view(storage@);
            &&& r matches Ok(h) ==> header_ready(streams, s) && header_of(
                h,
                header_content(streams, s),
            )
            &&& r is Err ==> header_read_failure(r, streams, s)
            &&& header_ready(streams, s) ==> r is Ok
        }),
{
    proof {
        reveal_strlit("Subimage 0000 Header");
    }
    let header_path = child(storage, "Subimage 0000 Header");
    let header_name = path_to_text(header_path.as_slice());
    let raw = read_stream_full(cf, header_path.as_slice())?;
    let content = strip_fpx_prefix(header_name.as_str(), raw.as_slice())?;
    subimage_header::parse(header_name.as_str(), content)
}

/// Reads every `Resolution NNNN` storage's Subimage Header and returns the
/// one with the largest pixel area (the first of them on a tie): resolution
/// rank is never inferred from the storage name.
pub fn select_best_resolution(cf: &mut Container, storages: &[Vec<String>]) -> (r: Result<
    (Vec<String>, SubimageHeader),
>)
    ensures
        container_walk(*final(cf)) == container_walk(*old(cf)),
        container_streams(*final(cf)) == container_streams(*old(cf)),
        container_listings(*final(cf)) == container_listings(*old(cf)),
        ({
            let streams = container_streams(*old(cf));
            let sv = storage_paths(storages@);
            &&& r matches Ok(best) ==> exists|k: int|
                {
                    &&& #[trigger] is_best_resolution(streams, sv, k)
                    &&& path_view(best.0@) == sv[k]
                    &&& header_of(best.1, header_content(streams, sv[k]))
                }
            &&& sv.len() == 0 ==> is_no_resolutions(r)
            &&& r is Err && sv.len() > 0 ==> exists|k: int|
                {
                    &&& 0 <= k < sv.len()
                    &&& forall|i: int| 0 <= i < k ==> #[trigger] header_ready(streams, sv[i])
                    &&& #[trigger] header_read_failure(r, streams, sv[k])
                }
            &&& sv.len() > 0 && (forall|i: int| 0 <= i < sv.len() ==> #[trigger] header_ready(streams, sv[i]))
                ==> r is Ok
        }),
{
    let ghost streams = container_streams(*cf);
    let ghost walk = container_walk(*cf);
    let ghost sv = storage_paths(storages@);
    let mut best: Option<(Vec<String>, SubimageHeader)> = None;
    let mut best_k: usize = 0;
    let mut best_area: u64 = 0;
    let mut i: usize = 0;
    while i < storages.len()
        invariant
            container_streams(*cf) == streams,
            container_walk(*cf) == walk,
            container_streams(*old(cf)) == streams,
            container_walk(*old(cf)) == walk,
            container_listings(*cf) == container_listings(*old(cf)),
            sv == storage_paths(storages@),
            i <= storages@.len(),
            forall|j: int| 0 <= j < i ==> #[trigger] header_ready(streams, sv[j]),
            i == 0 <==> best is None,
            best matches Some(b) ==> {
                &&& best_k < i
                &&& path_view(b.0@) == sv[best_k as int]
                &&& header_of(b.1, header_content(streams, sv[best_k as int]))
                &&& best_area == header_area(header_content(streams, sv[best_k as int]))
                &&& forall|j: int|
                    0 <= j < i ==> #[trigger] header_area(header_content(streams, sv[j]))
                        <= best_area
                &&& forall|j: int|
                    0 <= j < best_k ==> #[trigger] header_area(header_content(streams, sv[j]))
                        < best_area
            },
        decreases storages@.len() - i,
    {
        assert(sv[i as int] == path_view(storages@[i as int]@));
        let header = match read_header(cf, storages[i].as_slice()) {
            Ok(h) => h,
            Err(e) => {
                let r: Result<(Vec<String>, SubimageHeader)> = Err(e);
                assert(header_read_failure(r, streams, sv[i as int]));
                return r;
            },
        };
        assert(header.width * header.height <= 0xFFFF_FFFF * 0xFFFF_FFFF) by (nonlinear_arith)
            requires
                header.width <= 0xFFFF_FFFF,
                header.height <= 0xFFFF_FFFF,
        ;
        let area: u64 = header.width as u64 * header.height as u64;
        let is_better = match &best {
            None => true,
            Some(_) => area > best_area,
        };
        if is_better {
            let path = clone_path(storages[i].as_slice());
            best = Some((path, header));
            best_k = i;
            best_area = area;
        }
        i = i + 1;
    }
    match best {
        Some(b) => {
            proof {
                assert(is_best_resolution(streams, sv, best_k as int));
            }
            Ok(b)
        },
        None => Err(FpxError::NoResolutions),
    }
}


/// Holds the raw bytes of the `Image Contents` property set, which a
/// parsed `PropertySet` borrows.
pub struct ImageContents {
    content: Vec<u8>,
}

impl ImageContents {
    /// The raw bytes of the stream.
    pub closed spec fn spec_content(&self) -> Seq<u8> {
        self.content@
    }

    /// Parses the held bytes as the `Image Contents` property set.
    fn property_set(&self) -> (r: Result<PropertySet<'_>>)
        ensures
            crate::propset::parse_outcome(r, "Image Contents"@, self.content@),
    {
        PropertySet::parse("Image Contents", self.content.as_slice())
    }
}

/// Reads the `Image Contents` stream of the FlashPix object at
/// `object_root`. Property-set streams have no extra FPX prefix: their
/// 28-byte PROPERTYSETHEADER is the stream's first 28 bytes.
fn read_image_contents(cf: &mut Container, object_root: &[String]) -> (r: Result<ImageContents>)
    ensures
        container_walk(*final(cf)) == container_walk(*old(cf)),
        container_streams(*final(cf)) == container_streams(*old(cf)),
        container_listings(*final(cf)) == container_listings(*old(cf)),
        contents_read(
            container_listings(*old(cf)),
            container_streams(*old(cf)),
            path_view(object_root@),
            r,
        ),
{
    let path = find_stream(cf, object_root, "Image Contents")?;
    let content = read_stream_full(cf, path.as_slice())?;
    let r: Result<ImageContents> = Ok(ImageContents { content });
    assert(contents_read(
        container_listings(*old(cf)),
        container_streams(*old(cf)),
        path_view(object_root@),
        r,
    ));
    r
}

/// `r` is what reading the object's `Image Contents` stream gives: the
/// first stream so named among the entries listed at `root`, read in
/// full; or the error listing `root`, finding the stream or reading it.
pub open spec fn contents_read(
    listings: Map<Seq<Seq<char>>, Seq<(Seq<Seq<char>>, bool)>>,
    streams: Map<Seq<Seq<char>>, Seq<u8>>,
    root: Seq<Seq<char>>,
    r: Result<ImageContents>,
) -> bool {
    let l = listings[root];
    if !listings.contains_key(root) {
        is_stream_read(r, root)
    } else if !(exists|k: int| #[trigger] first_named(l, "Image Contents"@, k)) {
        crate::error::is_missing_entry(r, crate::cfbf::missing_stream_message(root, "Image Contents"@))
    } else {
        exists|k: int|
            {
                let p = l[k].0;
                &&& #[trigger] first_named(l, "Image Contents"@, k)
                &&& if streams.contains_key(p) {
                    r matches Ok(ic) && ic.spec_content() == streams[p]
                } else {
                    is_stream_read(r, p)
                }
            }
    }
}

/// Tile table group `k` is named by some tile (group 0, a self-contained
/// tile, names none).
pub open spec fn uses_group(tiles: Seq<subimage_header::TileEntry>, k: u8) -> bool {
    k != 0 && exists|i: int| 0 <= i < tiles.len() && spec_tables_index(#[trigger] tiles[i].compress_subtype) == k
}

/// The tables blob of group `k` in the property set `d`.
pub open spec fn group_tables(d: Seq<u8>, k: u8) -> Option<Seq<u8>> {
    blob_value(property_offsets(d), d, spec_pid_jpeg_tables(k))
}

/// Fetches every shared JPEG-tables group the chosen resolution's tiles
/// reference, in increasing group order (group 0 means "self-contained
/// tile", not a lookup).
pub fn collect_jpeg_tables(header: &SubimageHeader, image_contents: &ImageContents) -> (r: Result<
    HashMap<u8, Vec<u8>>,
>)
    ensures
        ({
            let d = image_contents.spec_content();
            let tiles = header.tiles@;
            &&& !is_property_set(d) ==> parse_failure(r, "Image Contents"@, d)
            &&& is_property_set(d) ==> {
                &&& r matches Ok(m) ==> {
                    &&& forall|k: u8| #[trigger] m@.contains_key(k) <==> uses_group(tiles, k)
                    &&& forall|k: u8|
                        #[trigger] uses_group(tiles, k) ==> (group_tables(d, k) matches Some(b)
                            && m@[k]@ == b)
                }
                &&& (forall|k: u8| #[trigger] uses_group(tiles, k) ==> group_tables(d, k) is Some)
                    ==> r is Ok
                &&& r is Err ==> exists|k: u8|
                    {
                        &&& #[trigger] uses_group(tiles, k)
                        &&& group_tables(d, k) is None
                        &&& forall|j: u8|
                            j < k && #[trigger] uses_group(tiles, j) ==> group_tables(d, j) is Some
                        &&& blob_failure(
                            r,
                            "Image Contents"@,
                            property_offsets(d),
                            d,
                            spec_pid_jpeg_tables(k),
                            "JPEGTables"@,
                        )
                    }
            }
        }),
{
    let ghost d = image_contents.spec_content();
    let ghost tiles = header.tiles@;
    let propset = match image_contents.property_set() {
        Ok(ps) => ps,
        Err(e) => {
            return Err(e);
        },
    };

    // which groups the tiles use, 0 included
    let mut used: Vec<bool> = Vec::new();
    let mut g: usize = 0;
    while g < 256
        invariant
            g <= 256,
            used@.len() == g,
            forall|k: int| 0 <= k < g ==> !#[trigger] used@[k],
        decreases 256 - g,
    {
        used.push(false);
        g = g + 1;
    }
    let mut t: usize = 0;
    while t < header.tiles.len()
        invariant
            tiles == header.tiles@,
            t <= tiles.len(),
            used@.len() == 256,
            forall|k: u8|
                #[trigger] used@[k as int] <==> exists|i: int|
                    0 <= i < t && spec_tables_index(#[trigger] tiles[i].compress_subtype) == k,
        decreases tiles.len() - t,
    {
        let index = header.tiles[t].jpeg_tables_index();
        used.set(index as usize, true);
        proof {
            assert forall|k: u8|
                #[trigger] used@[k as int] <==> exists|i: int|
                    0 <= i < t + 1 && spec_tables_index(#[trigger] tiles[i].compress_subtype) == k by {
                if k == index {
                    assert(spec_tables_index(tiles[t as int].compress_subtype) == k);
                } else {
                    if exists|i: int| 0 <= i < t + 1 && spec_tables_index(#[trigger] tiles[i].compress_subtype) == k {
                        let i = choose|i: int| 0 <= i < t + 1 && spec_tables_index(#[trigger] tiles[i].compress_subtype) == k;
                        assert(i < t);
                    }
                }
            }
        }
        t = t + 1;
    }

    let mut tables: HashMap<u8, Vec<u8>> = HashMap::new();
    let mut k: usize = 1;
    while k < 256
        invariant
            tiles == header.tiles@,
            t == tiles.len(),
            used@.len() == 256,
            forall|j: u8|
                #[trigger] used@[j as int] <==> exists|i: int|
                    0 <= i < t && spec_tables_index(#[trigger] tiles[i].compress_subtype) == j,
            1 <= k <= 256,
            d == image_contents.spec_content(),
            is_property_set(d),
            propset.spec_data() == d,
            propset.spec_offsets() == property_offsets(d),
            propset.spec_stream_name() == "Image Contents"@,
            forall|j: u8| #[trigger] tables@.contains_key(j) <==> (j < k && uses_group(tiles, j)),
            forall|j: u8|
                j < k && #[trigger] uses_group(tiles, j) ==> (group_tables(d, j) matches Some(b)
                    && tables@[j]@ == b),
        decreases 256 - k,
    {
        let group = k as u8;
        assert(used@[group as int] <==> uses_group(tiles, group));
        if used[k] {
            let pid = fpx_ids::pid_jpeg_tables(group);
            let blob = match propset.get_blob(pid, "JPEGTables") {
                Ok(b) => b,
                Err(e) => {
                    let r: Result<HashMap<u8, Vec<u8>>> = Err(e);
                    assert(uses_group(tiles, group));
                    assert(forall|j: u8| j < group && #[trigger] uses_group(tiles, j) ==> group_tables(d, j) is Some);
                    return r;
                },
            };
            tables.insert(group, vstd::slice::slice_to_vec(blob));
        }
        k = k + 1;
    }
    proof {
        assert forall|j: u8| #[trigger] uses_group(tiles, j) implies j < 256 by {}
    }
    Ok(tables)
}


/// `model` and `date` are what the `Image Info` property set `d` holds:
/// the camera model text, and the capture date formatted, each absent when
/// the property is missing or unreadable (or, for the date, unset).
pub open spec fn metadata_of(d: Seq<u8>, model: Option<Seq<char>>, date: Option<Seq<char>>) -> bool {
    let offs = property_offsets(d);
    &&& is_property_set(d)
    &&& model == lpwstr_value(offs, d, fpx_ids::PID_CAMERA_MODEL)
    &&& match filetime_value(offs, d, fpx_ids::PID_CAPTURE_DATE) {
        Some(ft) => if ft != 0 {
            date matches Some(s) && datetime_text_of(unix_seconds(ft), s)
        } else {
            date is None
        },
        None => date is None,
    }
}

/// The text of an optional string.
pub open spec fn opt_text(s: Option<String>) -> Option<Seq<char>> {
    match s {
        Some(s) => Some(s@),
        None => None,
    }
}

/// The metadata found is that of the object's `Image Info` stream: the
/// first stream so named among the entries listed at `root`, giving the
/// metadata its property set holds; nothing when `root` cannot be listed,
/// holds no such stream, or the stream cannot be read or is not a property
/// set.
pub open spec fn metadata_found(
    listings: Map<Seq<Seq<char>>, Seq<(Seq<Seq<char>>, bool)>>,
    streams: Map<Seq<Seq<char>>, Seq<u8>>,
    root: Seq<Seq<char>>,
    model: Option<Seq<char>>,
    date: Option<Seq<char>>,
) -> bool {
    let nothing = model is None && date is None;
    let l = listings[root];
    if listings.contains_key(root) && exists|k: int| #[trigger] first_named(l, "Image Info"@, k) {
        exists|k: int|
            {
                let p = l[k].0;
                &&& #[trigger] first_named(l, "Image Info"@, k)
                &&& if streams.contains_key(p) && is_property_set(streams[p]) {
                    metadata_of(streams[p], model, date)
                } else {
                    nothing
                }
            }
    } else {
        nothing
    }
}

/// `img`'s EXIF payload holds the archival metadata of the object at
/// `root`.
pub open spec fn exif_of_container(
    listings: Map<Seq<Seq<char>>, Seq<(Seq<Seq<char>>, bool)>>,
    streams: Map<Seq<Seq<char>>, Seq<u8>>,
    root: Seq<Seq<char>>,
    img: DecodedImage,
) -> bool {
    exists|m: Option<Seq<char>>, d: Option<Seq<char>>|
        #[trigger] metadata_found(listings, streams, root, m, d) && opt_vec_view(img.exif)
            == exif::exif_payload(kept_bytes(m, d).0, kept_bytes(m, d).1)
}

/// Best-effort capture-date/camera-model lookup: absence or malformed data
/// in `Image Info` doesn't fail the conversion, since none of it is needed
/// to render the image, only to preserve archival context if present.
fn read_capture_metadata(cf: &mut Container, object_root: &[String]) -> (r: (
    Option<String>,
    Option<String>,
))
    ensures
        container_walk(*final(cf)) == container_walk(*old(cf)),
        container_streams(*final(cf)) == container_streams(*old(cf)),
        container_listings(*final(cf)) == container_listings(*old(cf)),
        metadata_found(
            container_listings(*old(cf)),
            container_streams(*old(cf)),
            path_view(object_root@),
            opt_text(r.0),
            opt_text(r.1),
        ),
{
    let ghost walk = container_walk(*cf);
    let ghost streams = container_streams(*cf);
    let ghost root = path_view(object_root@);
    let path = match find_stream(cf, object_root, "Image Info") {
        Ok(p) => p,
        Err(_) => {
            return (None, None);
        },
    };
    let ghost p = path_view(path@);
    let content = match read_stream_full(cf, path.as_slice()) {
        Ok(c) => c,
        Err(_) => {
            return (None, None);
        },
    };
    let propset = match PropertySet::parse("Image Info", content.as_slice()) {
        Ok(ps) => ps,
        Err(_) => {
            return (None, None);
        },
    };
    let model = match propset.get_lpwstr(fpx_ids::PID_CAMERA_MODEL, "CameraModel") {
        Ok(m) => Some(m),
        Err(_) => None,
    };
    let capture_date = match propset.get_filetime(fpx_ids::PID_CAPTURE_DATE, "CaptureDate") {
        Ok(ticks) => filetime::format_exif_datetime(ticks),
        Err(_) => None,
    };
    proof {
        let c = content@;
        assert(metadata_of(c, opt_text(model), opt_text(capture_date)));
    }
    (model, capture_date)
}


/// Index of the first `Image Contents` stream in the walk.
pub open spec fn first_image_contents(walk: Seq<(Seq<Seq<char>>, bool)>) -> int {
    choose|k: int|
        0 <= k < walk.len() && #[trigger] is_image_contents(walk[k]) && forall|j: int|
            0 <= j < k ==> !#[trigger] is_image_contents(walk[j])
}

/// The storage holding the first `Image Contents` stream of the walk: the
/// root of the FlashPix object.
pub open spec fn object_root_of(walk: Seq<(Seq<Seq<char>>, bool)>) -> Seq<Seq<char>> {
    walk[first_image_contents(walk)].0.drop_last()
}

/// The walk holds an `Image Contents` stream.
pub open spec fn has_image_contents(walk: Seq<(Seq<Seq<char>>, bool)>) -> bool {
    exists|i: int| 0 <= i < walk.len() && #[trigger] is_image_contents(walk[i])
}

/// The UTF-8 bytes of a text.
pub open spec fn text_bytes(t: Option<Seq<char>>) -> Option<Seq<u8>> {
    match t {
        Some(t) => Some(vstd::utf8::encode_utf8(t)),
        None => None,
    }
}

/// The camera model and capture date kept for the EXIF payload, as UTF-8:
/// both when they fit in one payload (its offsets are 32-bit), else the
/// date alone when it fits, else nothing.
pub open spec fn kept_bytes(m: Option<Seq<char>>, d: Option<Seq<char>>) -> (Option<Seq<u8>>, Option<Seq<u8>>) {
    let (mb, db) = (text_bytes(m), text_bytes(d));
    if exif::payload_fits(mb, db) {
        (mb, db)
    } else if exif::payload_fits(None, db) {
        (None, db)
    } else {
        (None, None)
    }
}


/// The tile table a header's content describes.
pub open spec fn header_tiles(c: Seq<u8>) -> Seq<subimage_header::TileEntry> {
    Seq::new(
        spec_u32_le(c, 12) as nat,
        |i: int| subimage_header::spec_tile_entry(c, subimage_header::spec_row_base(c, i)),
    )
}

/// A resolution's tile data stream content, after the 28-byte prefix.
pub open spec fn data_content(streams: Map<Seq<Seq<char>>, Seq<u8>>, storage: Seq<Seq<char>>) -> Seq<u8> {
    let raw = streams[data_path(storage)];
    raw.subrange(28, raw.len() as int)
}

/// The table groups the tiles use, with their bytes from the property
/// set `d`.
pub open spec fn group_map(d: Seq<u8>, tiles: Seq<subimage_header::TileEntry>) -> Map<u8, Seq<u8>> {
    Map::new(|k: u8| uses_group(tiles, k), |k: u8| group_tables(d, k).unwrap())
}

/// `r` is the error collecting the table groups the tiles use from the
/// `Image Contents` property set `d` fails with: `d` is not a property set,
/// or the first group missing from it cannot be read.
pub open spec fn tables_error<T>(r: Result<T>, d: Seq<u8>, tiles: Seq<subimage_header::TileEntry>) -> bool {
    ||| !is_property_set(d) && parse_failure(r, "Image Contents"@, d)
    ||| is_property_set(d) && exists|k: u8|
        {
            &&& #[trigger] uses_group(tiles, k)
            &&& group_tables(d, k) is None
            &&& forall|j: u8| j < k && #[trigger] uses_group(tiles, j) ==> group_tables(d, j) is Some
            &&& blob_failure(
                r,
                "Image Contents"@,
                property_offsets(d),
                d,
                spec_pid_jpeg_tables(k),
                "JPEGTables"@,
            )
        }
}

/// `r` is the error of input that is not a Compound File Binary container.
pub open spec fn is_not_compound_file<T>(r: Result<T>) -> bool {
    r matches Err(FpxError::NotCompoundFile(_))
}

/// A decoded image of some pixels, whose buffer holds its RGB pixels
/// exactly and is small enough to address.
pub open spec fn well_sized(img: DecodedImage) -> bool {
    &&& img.width > 0
    &&& img.height > 0
    &&& img.width * img.height * 3 < usize::MAX
    &&& img.rgb@.len() == img.width * img.height * 3
}

/// The paths of the `Resolution NNNN` storages in a listing, in its order.
pub open spec fn resolution_paths(l: Seq<(Seq<Seq<char>>, bool)>) -> Seq<Seq<Seq<char>>> {
    l.filter(|e: (Seq<Seq<char>>, bool)| is_resolution_child(e)).map_values(
        |e: (Seq<Seq<char>>, bool)| e.0,
    )
}

/// What decoding the tiles of the best resolution gives: when every tile
/// decodes and can be placed, the image of that size holding each tile's
/// decoded pixels in its place; else the error of the first tile that does
/// not.
pub open spec fn tiles_outcome(
    r: Result<DecodedImage>,
    stream: Seq<char>,
    data: Seq<u8>,
    groups: Map<u8, Seq<u8>>,
    tiles: Seq<subimage_header::TileEntry>,
    w: int,
    h: int,
    tw: int,
    th: int,
) -> bool {
    if forall|i: int|
        0 <= i < tiles.len() ==> #[trigger] tile_decode::tile_decodes(data, groups, tiles[i], i, w, h, tw, th) {
        &&& r matches Ok(img) && img.width == w && img.height == h
        &&& exists|px: Seq<Seq<u8>>|
            {
                &&& px.len() == tiles.len()
                &&& forall|i: int|
                    0 <= i < tiles.len() ==> tile_decode::tile_shape(data, groups, tiles[i]) == Some(
                        (PixelFormat::RGB24, #[trigger] px[i].len()),
                    )
                &&& forall|i: int|
                    0 <= i < tiles.len() ==> #[trigger] tile_decode::is_tile_decoding(data, groups, tiles[i], px[i])
                &&& (r matches Ok(img) && img.rgb@ == tile_decode::assembled(w, h, tw, th, px))
            }
    } else {
        exists|k: int| #[trigger] tile_decode::first_failing_tile(r, stream, data, groups, tiles, k, w, h, tw, th)
    }
}

/// What decoding the best resolution `s` gives, with the `Image Contents`
/// property set `d`: a size too large to hold is refused; then its table
/// groups are collected from `d`, its data stream is read, and its tiles
/// are decoded.
pub open spec fn best_outcome(
    streams: Map<Seq<Seq<char>>, Seq<u8>>,
    d: Seq<u8>,
    s: Seq<Seq<char>>,
    r: Result<DecodedImage>,
) -> bool {
    let c = header_content(streams, s);
    let tiles = header_tiles(c);
    let (w, h, tw, th) = (
        spec_u32_le(c, 4) as int,
        spec_u32_le(c, 8) as int,
        spec_u32_le(c, 16) as int,
        spec_u32_le(c, 20) as int,
    );
    let path = data_path(s);
    if w * h * 3 >= usize::MAX {
        is_image_too_large(r)
    } else if !is_property_set(d) || exists|k: u8|
        #[trigger] uses_group(tiles, k) && group_tables(d, k) is None {
        tables_error(r, d, tiles)
    } else if !streams.contains_key(path) {
        is_stream_read(r, path)
    } else if streams[path].len() < 28 {
        is_truncated(r, path_text(path), 28, streams[path].len() as int)
    } else {
        tiles_outcome(r, path_text(path), data_content(streams, s), group_map(d, tiles), tiles, w, h, tw, th)
    }
}

/// What decoding the object at `root` gives once its `Image Contents`
/// stream `p` is found: that stream cannot be read; the object has no
/// resolution; the first resolution, in listing order, whose header cannot
/// be read or parsed; or what its best resolution gives.
pub open spec fn contents_outcome(
    listings: Map<Seq<Seq<char>>, Seq<(Seq<Seq<char>>, bool)>>,
    streams: Map<Seq<Seq<char>>, Seq<u8>>,
    root: Seq<Seq<char>>,
    p: Seq<Seq<char>>,
    r: Result<DecodedImage>,
) -> bool {
    let sv = resolution_paths(listings[root]);
    if !streams.contains_key(p) {
        is_stream_read(r, p)
    } else if sv.len() == 0 {
        is_no_resolutions(r)
    } else if exists|i: int| 0 <= i < sv.len() && !#[trigger] header_ready(streams, sv[i]) {
        exists|k: int|
            {
                &&& 0 <= k < sv.len()
                &&& forall|i: int| 0 <= i < k ==> #[trigger] header_ready(streams, sv[i])
                &&& !header_ready(streams, sv[k])
                &&& #[trigger] header_read_failure(r, streams, sv[k])
            }
    } else {
        exists|k: int|
            #[trigger] is_best_resolution(streams, sv, k) && best_outcome(streams, streams[p], sv[k], r)
    }
}

/// What decoding the container gives, stage by stage: no `Image Contents`
/// stream anywhere; the object's storage cannot be listed; it lists no
/// `Image Contents` stream; then what the first one listed leads to.
pub open spec fn decode_chain(
    walk: Seq<(Seq<Seq<char>>, bool)>,
    listings: Map<Seq<Seq<char>>, Seq<(Seq<Seq<char>>, bool)>>,
    streams: Map<Seq<Seq<char>>, Seq<u8>>,
    r: Result<DecodedImage>,
) -> bool {
    let root = object_root_of(walk);
    let l = listings[root];
    if !has_image_contents(walk) {
        is_not_flashpix(r)
    } else if !listings.contains_key(root) {
        is_stream_read(r, root)
    } else if !(exists|k: int| #[trigger] first_named(l, "Image Contents"@, k)) {
        crate::error::is_missing_entry(r, crate::cfbf::missing_stream_message(root, "Image Contents"@))
    } else {
        exists|k: int|
            #[trigger] first_named(l, "Image Contents"@, k) && contents_outcome(listings, streams, root, l[k].0, r)
    }
}

/// What decoding the container gives: the outcome of each stage in turn
/// (`decode_chain`); a decoded image is well sized and carries the
/// object's archival metadata as EXIF.
pub open spec fn decode_outcome(
    walk: Seq<(Seq<Seq<char>>, bool)>,
    listings: Map<Seq<Seq<char>>, Seq<(Seq<Seq<char>>, bool)>>,
    streams: Map<Seq<Seq<char>>, Seq<u8>>,
    r: Result<DecodedImage>,
) -> bool {
    &&& decode_chain(walk, listings, streams, r)
    &&& r matches Ok(img) ==> well_sized(img)
    &&& r matches Ok(img) ==> exif_of_container(listings, streams, object_root_of(walk), img)
}

/// A decoded image is the best resolution of its object: among the
/// `Resolution NNNN` storages the object's root lists, one of largest area
/// (the first such, in listing order) has the image's width and height; the
/// image has some pixels, three bytes each, and carries the object's
/// archival metadata as EXIF.
pub proof fn lemma_decoded_is_best(
    walk: Seq<(Seq<Seq<char>>, bool)>,
    listings: Map<Seq<Seq<char>>, Seq<(Seq<Seq<char>>, bool)>>,
    streams: Map<Seq<Seq<char>>, Seq<u8>>,
    img: DecodedImage,
)
    requires
        decode_outcome(walk, listings, streams, Ok(img)),
    ensures
        img.width > 0,
        img.height > 0,
        img.rgb@.len() == img.width * img.height * 3,
        ({
            let sv = resolution_paths(listings[object_root_of(walk)]);
            exists|k: int|
                {
                    &&& #[trigger] is_best_resolution(streams, sv, k)
                    &&& img.width == spec_u32_le(header_content(streams, sv[k]), 4)
                    &&& img.height == spec_u32_le(header_content(streams, sv[k]), 8)
                }
        }),
        exif_of_container(listings, streams, object_root_of(walk), img),
{
    let r = Ok::<DecodedImage, FpxError>(img);
    let root = object_root_of(walk);
    let l = listings[root];
    let kc = choose|k: int| #[trigger] first_named(l, "Image Contents"@, k) && contents_outcome(listings, streams, root, l[k].0, r);
    let sv = resolution_paths(l);
    let k = choose|k: int| #[trigger] is_best_resolution(streams, sv, k) && best_outcome(streams, streams[l[kc].0], sv[k], r);
    assert(best_outcome(streams, streams[l[kc].0], sv[k], r));
}

/// The object's archival metadata is one: the metadata found at a root is
/// the same whichever way it is looked at.
proof fn lemma_metadata_unique(
    listings: Map<Seq<Seq<char>>, Seq<(Seq<Seq<char>>, bool)>>,
    streams: Map<Seq<Seq<char>>, Seq<u8>>,
    root: Seq<Seq<char>>,
    m1: Option<Seq<char>>,
    d1: Option<Seq<char>>,
    m2: Option<Seq<char>>,
    d2: Option<Seq<char>>,
)
    requires
        metadata_found(listings, streams, root, m1, d1),
        metadata_found(listings, streams, root, m2, d2),
    ensures
        m1 == m2,
        d1 == d2,
{
    let l = listings[root];
    if listings.contains_key(root) && exists|k: int| #[trigger] first_named(l, "Image Info"@, k) {
        let k1 = choose|k: int|
            {
                let p = l[k].0;
                &&& #[trigger] first_named(l, "Image Info"@, k)
                &&& if streams.contains_key(p) && is_property_set(streams[p]) {
                    metadata_of(streams[p], m1, d1)
                } else {
                    m1 is None && d1 is None
                }
            };
        let k2 = choose|k: int|
            {
                let p = l[k].0;
                &&& #[trigger] first_named(l, "Image Info"@, k)
                &&& if streams.contains_key(p) && is_property_set(streams[p]) {
                    metadata_of(streams[p], m2, d2)
                } else {
                    m2 is None && d2 is None
                }
            };
        if k1 < k2 {
            assert(!is_named_child_stream(l[k1], "Image Info"@));
        }
        if k2 < k1 {
            assert(!is_named_child_stream(l[k2], "Image Info"@));
        }
        let p = l[k1].0;
        if streams.contains_key(p) && is_property_set(streams[p]) {
            let c = streams[p];
            if let Some(ft) = filetime_value(property_offsets(c), c, fpx_ids::PID_CAPTURE_DATE) {
                if ft != 0 {
                    filetime::lemma_datetime_text_unique(unix_seconds(ft), d1->0, d2->0);
                }
            }
        }
    }
}

/// A decoded image keeps the archival metadata found for its object:
/// with none found it has no EXIF payload; when the camera model and
/// capture date found fit in one payload, its payload is the one built
/// from both, and reads the model back as IFD0's first entry; and whenever
/// a capture date is found that fits a payload on its own, with or without
/// a camera model, its payload reads the date back as the DateTimeOriginal
/// entry of the Exif SubIFD an IFD0 entry points to.
pub proof fn lemma_decoded_keeps_metadata(
    walk: Seq<(Seq<Seq<char>>, bool)>,
    listings: Map<Seq<Seq<char>>, Seq<(Seq<Seq<char>>, bool)>>,
    streams: Map<Seq<Seq<char>>, Seq<u8>>,
    img: DecodedImage,
    m: Option<Seq<char>>,
    d: Option<Seq<char>>,
)
    requires
        decode_outcome(walk, listings, streams, Ok(img)),
        metadata_found(listings, streams, object_root_of(walk), m, d),
    ensures
        m is None && d is None ==> img.exif is None,
        exif::payload_fits(text_bytes(m), text_bytes(d)) ==> opt_vec_view(img.exif)
            == exif::exif_payload(text_bytes(m), text_bytes(d)),
        m is Some && exif::payload_fits(text_bytes(m), text_bytes(d)) ==> (img.exif matches Some(
            p,
        ) && reads_text(p@, 8, 0, exif::TAG_MODEL, vstd::utf8::encode_utf8(m->0))),
        d is Some && exif::payload_fits(None, text_bytes(d)) ==> (img.exif matches Some(p)
            && exists|k: int|
            {
                &&& 0 <= k < read_entry_count(p@, 8)
                &&& #[trigger] read_tag(p@, 8, k) == exif::TAG_EXIF_IFD_POINTER
                &&& reads_text(
                    p@,
                    read_long(p@, 8, k) as int,
                    0,
                    exif::TAG_DATE_TIME_ORIGINAL,
                    vstd::utf8::encode_utf8(d->0),
                )
            }),
{
    let root = object_root_of(walk);
    let (m2, d2) = choose|m2: Option<Seq<char>>, d2: Option<Seq<char>>|
        #[trigger] metadata_found(listings, streams, root, m2, d2) && opt_vec_view(img.exif)
            == exif::exif_payload(kept_bytes(m2, d2).0, kept_bytes(m2, d2).1);
    lemma_metadata_unique(listings, streams, root, m, d, m2, d2);
    let (mb, db) = kept_bytes(m, d);
    if mb is Some || db is Some {
        crate::exif_read::lemma_payload_reads_back(mb, db);
        if let Some(t) = d {
            if exif::payload_fits(None, text_bytes(d)) {
                let p = exif::exif_payload(mb, db).unwrap();
                let k = if mb is Some { 1int } else { 0int };
                assert(read_tag(p, 8, k) == exif::TAG_EXIF_IFD_POINTER);
            }
        }
    }
}

/// The bytes of an optional text, 0 when absent.
fn text_len(t: &Option<String>) -> (n: u64)
    ensures
        n == exif::opt_len(text_bytes(opt_text(*t))),
{
    match t {
        Some(s) => s.as_str().as_bytes().len() as u64,
        None => 0,
    }
}

/// The metadata texts kept for the EXIF payload.
fn kept_texts<'a>(model: &'a Option<String>, date: &'a Option<String>) -> (r: (
    Option<&'a str>,
    Option<&'a str>,
))
    ensures
        (exif::opt_bytes(r.0), exif::opt_bytes(r.1)) == kept_bytes(opt_text(*model), opt_text(*date)),
        exif::payload_fits(exif::opt_bytes(r.0), exif::opt_bytes(r.1)),
{
    let m = match model {
        Some(s) => Some(s.as_str()),
        None => None,
    };
    let d = match date {
        Some(s) => Some(s.as_str()),
        None => None,
    };
    let (ml, dl) = (text_len(model), text_len(date));
    if ml <= 0xFFFF_FF00 && dl <= 0xFFFF_FF00 - ml {
        (m, d)
    } else if dl <= 0xFFFF_FF00 {
        (None, d)
    } else {
        (None, None)
    }
}

/// Decodes the FlashPix object the container holds: its best available
/// resolution, and its archival metadata as an EXIF payload.
#[verifier::rlimit(50)]
#[verifier::spinoff_prover]
pub fn decode_container(cf: &mut Container) -> (r: Result<DecodedImage>)
    requires
        crate::cfbf::walk_is_tree(container_walk(*old(cf))),
    ensures
        decode_outcome(
            container_walk(*old(cf)),
            container_listings(*old(cf)),
            container_streams(*old(cf)),
            r,
        ),
        !is_not_compound_file(r),
{
    let ghost walk = container_walk(*cf);
    let ghost streams = container_streams(*cf);
    let ghost listings = container_listings(*cf);
    let object_root = find_object_root(cf)?;
    let ghost root = path_view(object_root@);
    proof {
        lemma_object_root(walk, root);
    }
    let ghost l = listings[root];
    let image_contents = match read_image_contents(cf, object_root.as_slice()) {
        Ok(ic) => ic,
        Err(e) => {
            proof {
                let r: Result<DecodedImage> = Err(e);
                let ri: Result<ImageContents> = Err(e);
                if listings.contains_key(root) && exists|k: int| #[trigger] first_named(l, "Image Contents"@, k) {
                    let k = choose|k: int| #[trigger] first_named(l, "Image Contents"@, k) && (if streams.contains_key(l[k].0) {
                        ri matches Ok(ic) && ic.spec_content() == streams[l[k].0]
                    } else {
                        is_stream_read(ri, l[k].0)
                    });
                    assert(contents_outcome(listings, streams, root, l[k].0, r));
                }
                assert(decode_chain(walk, listings, streams, r));
            }
            return Err(e);
        },
    };
    let ghost kic = choose|k: int| #[trigger] first_named(l, "Image Contents"@, k) && (if streams.contains_key(l[k].0) {
        image_contents.spec_content() == streams[l[k].0]
    } else {
        false
    });
    let ghost icp = l[kic].0;
    let ghost d = image_contents.spec_content();
    proof {
        assert(listings.contains_key(root));
        assert(streams.contains_key(icp) && d == streams[icp]);
    }
    let ghost sv = resolution_paths(l);
    let resolution_storages = match list_resolution_storages(cf, object_root.as_slice()) {
        Ok(v) => v,
        Err(e) => {
            proof {
                let r: Result<DecodedImage> = Err(e);
                assert(sv.len() == 0);
                assert(contents_outcome(listings, streams, root, icp, r));
                assert(decode_chain(walk, listings, streams, r));
            }
            return Err(e);
        },
    };
    proof {
        lemma_resolution_paths(l, resolution_storages@);
        assert(storage_paths(resolution_storages@) == sv);
    }
    let (best_storage, header) = match select_best_resolution(cf, resolution_storages.as_slice()) {
        Ok(b) => b,
        Err(e) => {
            proof {
                let r: Result<DecodedImage> = Err(e);
                let rs: Result<(Vec<String>, SubimageHeader)> = Err(e);
                let k = choose|k: int|
                    {
                        &&& 0 <= k < sv.len()
                        &&& forall|i: int| 0 <= i < k ==> #[trigger] header_ready(streams, sv[i])
                        &&& #[trigger] header_read_failure(rs, streams, sv[k])
                    };
                assert(header_read_failure(r, streams, sv[k]));
                assert(!header_ready(streams, sv[k]));
                assert(contents_outcome(listings, streams, root, icp, r));
                assert(decode_chain(walk, listings, streams, r));
            }
            return Err(e);
        },
    };
    let ghost best = path_view(best_storage@);
    let ghost hc = header_content(streams, best);
    let ghost k = choose|k: int|
        {
            &&& #[trigger] is_best_resolution(streams, sv, k)
            &&& path_view(best_storage@) == sv[k]
            &&& header_of(header, header_content(streams, sv[k]))
        };
    let ghost tiles = header.tiles@;
    proof {
        assert(header_ready(streams, sv[k]));
        assert(is_valid_header(hc));
        assert(tiles =~= header_tiles(hc));
    }

    assert((header.width as u128) * (header.height as u128) * 3 <= 0xFFFF_FFFF * 0xFFFF_FFFF * 3) by (nonlinear_arith)
        requires
            header.width <= 0xFFFF_FFFF,
            header.height <= 0xFFFF_FFFF,
    ;
    if (header.width as u128) * (header.height as u128) * 3 >= usize::MAX as u128 {
        let r: Result<DecodedImage> = Err(FpxError::ImageTooLarge { width: header.width, height: header.height });
        proof {
            assert(best_outcome(streams, d, best, r));
            lemma_chain_from_best(walk, listings, streams, kic, k, r);
        }
        return r;
    }
    let jpeg_tables = match collect_jpeg_tables(&header, &image_contents) {
        Ok(t) => t,
        Err(e) => {
            let r: Result<DecodedImage> = Err(e);
            proof {
                let rt: Result<HashMap<u8, Vec<u8>>> = Err(e);
                if is_property_set(d) {
                    let g = choose|g: u8|
                        {
                            &&& #[trigger] uses_group(tiles, g)
                            &&& group_tables(d, g) is None
                            &&& forall|j: u8| j < g && #[trigger] uses_group(tiles, j) ==> group_tables(d, j) is Some
                            &&& blob_failure(
                                rt,
                                "Image Contents"@,
                                property_offsets(d),
                                d,
                                spec_pid_jpeg_tables(g),
                                "JPEGTables"@,
                            )
                        };
                    assert(blob_failure(
                        r,
                        "Image Contents"@,
                        property_offsets(d),
                        d,
                        spec_pid_jpeg_tables(g),
                        "JPEGTables"@,
                    ));
                } else {
                    assert(parse_failure(r, "Image Contents"@, d));
                }
                assert(tables_error(r, d, tiles));
                assert(best_outcome(streams, d, best, r));
                lemma_chain_from_best(walk, listings, streams, kic, k, r);
            }
            return r;
        },
    };
    let ghost groups = group_map(d, tiles);
    proof {
        lemma_group_map(d, tiles, jpeg_tables@);
    }

    let data_path = child(best_storage.as_slice(), "Subimage 0000 Data");
    let data_name = path_to_text(data_path.as_slice());
    proof {
        reveal_strlit("Subimage 0000 Data");
        assert(path_view(data_path@) == crate::parse::data_path(best));
        assert(data_name@ == path_text(crate::parse::data_path(best)));
        assert(!(exists|g: u8| #[trigger] uses_group(tiles, g) && group_tables(d, g) is None));
    }
    let data_raw = match read_stream_full(cf, data_path.as_slice()) {
        Ok(raw) => raw,
        Err(e) => {
            let r: Result<DecodedImage> = Err(e);
            proof {
                assert(best_outcome(streams, d, best, r));
                lemma_chain_from_best(walk, listings, streams, kic, k, r);
            }
            return r;
        },
    };
    let data_content = match strip_fpx_prefix(data_name.as_str(), data_raw.as_slice()) {
        Ok(c) => c,
        Err(e) => {
            let r: Result<DecodedImage> = Err(e);
            proof {
                assert(best_outcome(streams, d, best, r));
                lemma_chain_from_best(walk, listings, streams, kic, k, r);
            }
            return r;
        },
    };
    let ghost data = crate::parse::data_content(streams, best);
    proof {
        assert forall|i: int| 0 <= i < tiles.len() implies #[trigger] tiles[i].offset
            + tiles[i].size <= u64::MAX by {
            assert(tiles[i] == subimage_header::spec_tile_entry(
                hc,
                subimage_header::spec_row_base(hc, i),
            ));
        }
        assert(data_content@ == data);
    }
    let ghost (w, h, tw, th) = (
        header.width as int,
        header.height as int,
        header.tile_width as int,
        header.tile_height as int,
    );
    let rgb = match tile_decode::decode_resolution(
        data_name.as_str(),
        data_content,
        &header,
        &jpeg_tables,
    ) {
        Ok(rgb) => rgb,
        Err(e) => {
            let r: Result<DecodedImage> = Err(e);
            proof {
                let rv: Result<Vec<u8>> = Err(e);
                let name = data_name@;
                let j = choose|j: int|
                    #[trigger] tile_decode::first_failing_tile(rv, name, data, groups, tiles, j, w, h, tw, th);
                assert(tile_decode::first_failing_tile(r, name, data, groups, tiles, j, w, h, tw, th));
                assert(!(forall|i: int|
                    0 <= i < tiles.len() ==> #[trigger] tile_decode::tile_decodes(data, groups, tiles[i], i, w, h, tw, th)));
                assert(tiles_outcome(r, name, data, groups, tiles, w, h, tw, th));
                assert(best_outcome(streams, d, best, r));
                lemma_chain_from_best(walk, listings, streams, kic, k, r);
            }
            return r;
        },
    };

    let (camera_model, capture_date) = read_capture_metadata(cf, object_root.as_slice());
    let (kept_model, kept_date) = kept_texts(&camera_model, &capture_date);
    let exif_bytes = exif::build(kept_model, kept_date);

    let img = DecodedImage { width: header.width, height: header.height, rgb, exif: exif_bytes };
    let r: Result<DecodedImage> = Ok(img);
    proof {
        let px = choose|px: Seq<Seq<u8>>|
            {
                &&& px.len() == tiles.len()
                &&& forall|i: int|
                    0 <= i < tiles.len() ==> tile_decode::tile_shape(data, groups, tiles[i]) == Some(
                        (PixelFormat::RGB24, #[trigger] px[i].len()),
                    )
                &&& forall|i: int|
                    0 <= i < tiles.len() ==> #[trigger] tile_decode::is_tile_decoding(data, groups, tiles[i], px[i])
                &&& rgb@ == tile_decode::assembled(w, h, tw, th, px)
            };
        assert(tiles_outcome(r, data_name@, data, groups, tiles, w, h, tw, th));
        assert(best_outcome(streams, d, best, r));
        lemma_chain_from_best(walk, listings, streams, kic, k, r);
        assert(well_sized(img));
        assert(metadata_found(listings, streams, root, opt_text(camera_model), opt_text(capture_date)));
        assert(exif_of_container(listings, streams, root, img));
    }
    r
}

/// With the object's first `Image Contents` stream read and its
/// resolutions' headers all parsed, decoding goes the way its best
/// resolution `k` does.
proof fn lemma_chain_from_best(
    walk: Seq<(Seq<Seq<char>>, bool)>,
    listings: Map<Seq<Seq<char>>, Seq<(Seq<Seq<char>>, bool)>>,
    streams: Map<Seq<Seq<char>>, Seq<u8>>,
    kic: int,
    k: int,
    r: Result<DecodedImage>,
)
    requires
        has_image_contents(walk),
        listings.contains_key(object_root_of(walk)),
        first_named(listings[object_root_of(walk)], "Image Contents"@, kic),
        streams.contains_key(listings[object_root_of(walk)][kic].0),
        is_best_resolution(streams, resolution_paths(listings[object_root_of(walk)]), k),
        best_outcome(
            streams,
            streams[listings[object_root_of(walk)][kic].0],
            resolution_paths(listings[object_root_of(walk)])[k],
            r,
        ),
    ensures
        decode_chain(walk, listings, streams, r),
{
    let root = object_root_of(walk);
    let l = listings[root];
    let sv = resolution_paths(l);
    assert(!(exists|i: int| 0 <= i < sv.len() && !#[trigger] header_ready(streams, sv[i])));
    assert(contents_outcome(listings, streams, root, l[kic].0, r));
}

/// The storages listed as resolutions are, in order, the resolution paths
/// of the listing.
proof fn lemma_resolution_paths(l: Seq<(Seq<Seq<char>>, bool)>, v: Seq<Vec<String>>)
    requires
        crate::cfbf::storage_views(v) == l.filter(|e: (Seq<Seq<char>>, bool)| is_resolution_child(e)),
    ensures
        storage_paths(v) == resolution_paths(l),
{
    let f = l.filter(|e: (Seq<Seq<char>>, bool)| is_resolution_child(e));
    assert(crate::cfbf::storage_views(v).len() == f.len());
    assert forall|i: int| 0 <= i < v.len() implies storage_paths(v)[i] == resolution_paths(l)[i] by {
        assert(crate::cfbf::storage_views(v)[i] == f[i]);
    }
    assert(storage_paths(v) =~= resolution_paths(l));
}

/// The table groups collected for the tiles are the groups they use,
/// with their bytes from the property set.
proof fn lemma_group_map(d: Seq<u8>, tiles: Seq<subimage_header::TileEntry>, m: Map<u8, Vec<u8>>)
    requires
        forall|k: u8| #[trigger] m.contains_key(k) <==> uses_group(tiles, k),
        forall|k: u8|
            #[trigger] uses_group(tiles, k) ==> (group_tables(d, k) matches Some(b) && m[k]@ == b),
    ensures
        tile_decode::table_bytes(m) == group_map(d, tiles),
{
    assert(tile_decode::table_bytes(m) =~= group_map(d, tiles));
}

/// The object root is the parent of the walk's first `Image Contents`
/// stream: a storage of the walk, of which that stream is a child.
proof fn lemma_object_root(walk: Seq<(Seq<Seq<char>>, bool)>, root: Seq<Seq<char>>)
    requires
        crate::cfbf::walk_is_tree(walk),
        exists|k: int|
            {
                &&& 0 <= k < walk.len()
                &&& #[trigger] is_image_contents(walk[k])
                &&& forall|j: int| 0 <= j < k ==> !#[trigger] is_image_contents(walk[j])
                &&& root == walk[k].0.drop_last()
            },
    ensures
        has_image_contents(walk),
        root == object_root_of(walk),
        walk.contains((root, true)),
        exists|e: (Seq<Seq<char>>, bool)|
            children(walk, root).contains(e) && #[trigger] is_named_child_stream(
                e,
                "Image Contents"@,
            ),
{
    let k = choose|k: int|
        {
            &&& 0 <= k < walk.len()
            &&& #[trigger] is_image_contents(walk[k])
            &&& forall|j: int| 0 <= j < k ==> !#[trigger] is_image_contents(walk[j])
            &&& root == walk[k].0.drop_last()
        };
    let f = first_image_contents(walk);
    assert(f == k) by {
        if f < k {
            assert(!is_image_contents(walk[f]));
        } else if k < f {
            assert(!is_image_contents(walk[k]));
        }
    }
    assert(walk[k].0.len() > 0);
    assert(walk.contains((root, true)));
    assert(walk.to_set().contains(walk[k]));
    assert(children(walk, root).contains(walk[k]));
    assert(is_named_child_stream(walk[k], "Image Contents"@));
}

/// Parses and decodes a `.fpx` file's best available resolution from raw
/// input bytes (either a file's contents or piped stdin).
pub fn parse_and_decode(input: &[u8]) -> (r: Result<DecodedImage>)
    ensures
        !crate::cfbf::cfb_opens(input@) <==> is_not_compound_file(r),
        crate::cfbf::cfb_open_result(input@) matches Some(c) ==> {
            &&& crate::cfbf::walk_is_tree(c.0)
            &&& decode_outcome(c.0, c.2, c.1, r)
        },
{
    let mut cf = match open_container(input) {
        Ok(cf) => cf,
        Err(e) => {
            return Err(FpxError::NotCompoundFile(e));
        },
    };
    decode_container(&mut cf)
}

} // verus!
