//! Helpers on top of the `cfb` crate (Compound File Binary / OLE2
//! structured storage) for what the converter needs: locating the storage
//! that holds a FlashPix image's streams, listing its `Resolution NNNN`
//! sub-storages, and reading whole streams into memory.
//!
//! FlashPix files nest the image data one level down, inside a `Data
//! Object Store NNNNNN` storage rather than at the container root, so that
//! storage is found by its `Image Contents` stream rather than by a fixed
//! path.
//!
//! A path inside the container is the list of names from the root down:
//! the root storage is the empty list.

use std::io::{Cursor, Read};
use vstd::prelude::*;

use crate::error::{is_missing_entry, is_truncated, truncated, FpxError, Result};

verus! {

/// The result of a container operation that can fail with an I/O error.
pub type IoResult<T> = core::result::Result<T, std::io::Error>;

/// The container type, read from an in-memory copy of the input.
pub type Container = cfb::CompoundFile<Cursor<Vec<u8>>>;

/// `cfb::CompoundFile`, held opaque: what it holds is described by
/// `container_walk` and `container_streams`.
#[verifier::external_type_specification]
#[verifier::external_body]
#[verifier::reject_recursive_types(F)]
pub struct ExCompoundFile<F>(cfb::CompoundFile<F>);

/// `std::io::Cursor`, the in-memory reader a container is read through.
#[verifier::external_type_specification]
#[verifier::external_body]
#[verifier::reject_recursive_types(T)]
pub struct ExCursor<T>(Cursor<T>);

/// An entry of the container: its path and whether it is a storage (the
/// root or a nested storage) rather than a stream.
pub struct EntryInfo {
    pub path: Vec<String>,
    pub is_storage: bool,
}

/// The names of a path.
pub open spec fn path_view(p: Seq<String>) -> Seq<Seq<char>> {
    p.map_values(|s: String| s@)
}

/// An entry as plain values: its path's names and whether it is a storage.
pub open spec fn entry_view(e: EntryInfo) -> (Seq<Seq<char>>, bool) {
    (path_view(e.path@), e.is_storage)
}

/// The entries of a list, as plain values.
pub open spec fn entries_view(es: Seq<EntryInfo>) -> Seq<(Seq<Seq<char>>, bool)> {
    es.map_values(|e: EntryInfo| entry_view(e))
}

/// Every entry of the container, in the order of `CompoundFile::walk`: a
/// preorder traversal of the storage tree that starts with the root.
pub uninterp spec fn container_walk(cf: Container) -> Seq<(Seq<Seq<char>>, bool)>;

/// The bytes of each stream of the container that `open_stream` and
/// `read_to_end` read in full, keyed by the path they are opened at.
pub uninterp spec fn container_streams(cf: Container) -> Map<Seq<Seq<char>>, Seq<u8>>;

/// The entries `CompoundFile::read_storage` lists at each path it reads,
/// in the order it lists them, keyed by the path asked for.
pub uninterp spec fn container_listings(cf: Container) -> Map<
    Seq<Seq<char>>,
    Seq<(Seq<Seq<char>>, bool)>,
>;

/// What `cfb::CompoundFile::open` finds in `data`: nothing when the bytes
/// are not a Compound File Binary container, else the container's walk,
/// readable streams and storage listings (as `container_walk`,
/// `container_streams` and `container_listings` give them).
pub uninterp spec fn cfb_open_result(data: Seq<u8>) -> Option<
    (
        Seq<(Seq<Seq<char>>, bool)>,
        Map<Seq<Seq<char>>, Seq<u8>>,
        Map<Seq<Seq<char>>, Seq<(Seq<Seq<char>>, bool)>>,
    ),
>;

/// `data` parses as a Compound File Binary container.
pub open spec fn cfb_opens(data: Seq<u8>) -> bool {
    cfb_open_result(data) is Some
}

/// The walk is a tree: it holds the root storage, and the parent of every
/// other entry is a storage of the walk.
pub open spec fn walk_is_tree(walk: Seq<(Seq<Seq<char>>, bool)>) -> bool {
    &&& walk.contains((Seq::empty(), true))
    &&& forall|i: int|
        0 <= i < walk.len() && #[trigger] walk[i].0.len() > 0 ==> walk.contains(
            (walk[i].0.drop_last(), true),
        )
}

/// The direct children of storage `parent` in the walk.
pub open spec fn children(walk: Seq<(Seq<Seq<char>>, bool)>, parent: Seq<Seq<char>>) -> Set<
    (Seq<Seq<char>>, bool),
> {
    walk.to_set().filter(
        |e: (Seq<Seq<char>>, bool)| e.0.len() == parent.len() + 1 && e.0.drop_last() == parent,
    )
}

/// Opens the container in `input` with `cfb::CompoundFile::open`, over an
/// in-memory copy of the bytes. Whether it opens, and what the opened
/// container holds, are a function of the bytes (`cfb_open_result`); the
/// opened container's entries form a tree.
#[verifier::external_body]
pub(crate) fn open_container(input: &[u8]) -> (r: IoResult<Container>)
    ensures
        r is Ok <==> cfb_open_result(input@) is Some,
        r matches Ok(cf) ==> cfb_open_result(input@) == Some(
            (container_walk(cf), container_streams(cf), container_listings(cf)),
        ),
        r matches Ok(cf) ==> walk_is_tree(container_walk(cf)),
{
    cfb::CompoundFile::open(Cursor::new(input.to_vec()))
}

/// Lists every entry with `CompoundFile::walk`, converting each entry's
/// path into its list of names.
#[verifier::external_body]
fn walk_entries(cf: &Container) -> (es: Vec<EntryInfo>)
    ensures
        entries_view(es@) == container_walk(*cf),
{
    let mut out = Vec::new();
    for e in cf.walk() {
        let path = e.path().iter().skip(1).map(|c| c.to_string_lossy().into_owned()).collect();
        out.push(EntryInfo { path, is_storage: e.is_storage() });
    }
    out
}

/// Lists the direct children of storage `parent` with
/// `CompoundFile::read_storage`, at the path made of `parent`'s names. What
/// it lists, and in which order, is a function of the container and the
/// path (`container_listings`).
#[verifier::external_body]
fn read_storage_entries(cf: &Container, parent: &[String]) -> (r: IoResult<Vec<EntryInfo>>)
    ensures
        r is Ok <==> container_listings(*cf).contains_key(path_view(parent@)),
        r matches Ok(es) ==> entries_view(es@) == container_listings(*cf)[path_view(parent@)],
{
    let mut path = std::path::PathBuf::from("/");
    for name in parent {
        path.push(name);
    }
    let mut out = Vec::new();
    for e in cf.read_storage(&path)? {
        let path = e.path().iter().skip(1).map(|c| c.to_string_lossy().into_owned()).collect();
        out.push(EntryInfo { path, is_storage: e.is_storage() });
    }
    Ok(out)
}

/// Reads the stream at `path` in full with `CompoundFile::open_stream` and
/// `Read::read_to_end`, from the in-memory container. `container_streams`
/// holds exactly the paths this read succeeds on, with the bytes it gives
/// (a read of the same container is a function of its bytes); reading
/// leaves the container's contents unchanged.
#[verifier::external_body]
fn read_stream_bytes(cf: &mut Container, path: &[String]) -> (r: IoResult<Vec<u8>>)
    ensures
        container_walk(*final(cf)) == container_walk(*old(cf)),
        container_streams(*final(cf)) == container_streams(*old(cf)),
        container_listings(*final(cf)) == container_listings(*old(cf)),
        r is Ok <==> container_streams(*old(cf)).contains_key(path_view(path@)),
        r matches Ok(d) ==> d@ == container_streams(*old(cf))[path_view(path@)],
{
    let mut full = std::path::PathBuf::from("/");
    for name in path {
        full.push(name);
    }
    let mut buf = Vec::new();
    cf.open_stream(&full)?.read_to_end(&mut buf)?;
    Ok(buf)
}


/// Every FPX-specific stream (Subimage Header/Data, and the top-level
/// property-set streams) is preceded by this 28-byte header before its
/// real content.
pub const FPX_STREAM_PREFIX_LEN: usize = 28;

/// `actual` is the entry name the format calls `visible`: the same, or the
/// same after one leading control character (property-set streams are
/// stored under names such as U+0005 `Image Contents`).
pub open spec fn visible_name_matches(actual: Seq<char>, visible: Seq<char>) -> bool {
    ||| actual == visible
    ||| actual.len() > 0 && (actual[0] as u32) < 0x20 && actual.drop_first() == visible
}

/// `Resolution NNNN`, with four decimal digits.
pub open spec fn resolution_storage_name(n: Seq<char>) -> bool {
    &&& n.len() == 15
    &&& n.take(11) == "Resolution "@
    &&& forall|i: int| 11 <= i < 15 ==> '0' <= #[trigger] n[i] <= '9'
}

/// The names of a path joined, each preceded by `/`.
pub open spec fn joined_names(p: Seq<Seq<char>>) -> Seq<char>
    decreases p.len(),
{
    if p.len() == 0 {
        Seq::empty()
    } else {
        joined_names(p.drop_last()) + seq!['/'] + p.last()
    }
}

/// A path as text: `/` for the root, `/a/b` for the storage `b` in `a`.
pub open spec fn path_text(p: Seq<Seq<char>>) -> Seq<char> {
    if p.len() == 0 {
        seq!['/']
    } else {
        joined_names(p)
    }
}

/// The names of a path with one more name.
pub proof fn lemma_path_view_push(p: Seq<String>, x: String)
    ensures
        path_view(p.push(x)) =~= path_view(p).push(x@),
{
}

/// `a[start..]` equals `b`.
fn chars_equal_from(a: &str, start: usize, b: &str) -> (r: bool)
    requires
        start <= a@.len(),
    ensures
        r == (a@.subrange(start as int, a@.len() as int) == b@),
{
    let a_len = a.unicode_len();
    let b_len = b.unicode_len();
    if a_len - start != b_len {
        assert(a@.subrange(start as int, a@.len() as int).len() != b@.len());
        return false;
    }
    let mut i: usize = 0;
    while i < b_len
        invariant
            a_len == a@.len(),
            b_len == b@.len(),
            a_len - start == b_len,
            start <= a_len,
            i <= b_len,
            forall|j: int| 0 <= j < i ==> a@[start + j] == b@[j],
        decreases b_len - i,
    {
        if a.get_char(start + i) != b.get_char(i) {
            assert(a@.subrange(start as int, a@.len() as int)[i as int] != b@[i as int]);
            return false;
        }
        i = i + 1;
    }
    assert(a@.subrange(start as int, a@.len() as int) =~= b@);
    true
}

/// Matches an entry's real name against the "visible" name the format
/// uses, tolerating one leading control character.
pub fn matches_visible_name(actual: &str, visible: &str) -> (r: bool)
    ensures
        r == visible_name_matches(actual@, visible@),
{
    if chars_equal_from(actual, 0, visible) {
        assert(actual@.subrange(0, actual@.len() as int) =~= actual@);
        return true;
    }
    assert(actual@.subrange(0, actual@.len() as int) =~= actual@);
    let len = actual.unicode_len();
    if len > 0 && (actual.get_char(0) as u32) < 0x20 {
        let rest = chars_equal_from(actual, 1, visible);
        assert(actual@.subrange(1, actual@.len() as int) =~= actual@.drop_first());
        rest
    } else {
        false
    }
}

/// Whether `name` is a `Resolution NNNN` storage name.
pub fn is_resolution_storage_name(name: &str) -> (r: bool)
    ensures
        r == resolution_storage_name(name@),
{
    proof {
        reveal_strlit("Resolution ");
    }
    let prefix = "Resolution ";
    if name.unicode_len() != 15 {
        return false;
    }
    let mut i: usize = 0;
    while i < 11
        invariant
            name@.len() == 15,
            prefix@ == "Resolution "@,
            prefix@.len() == 11,
            i <= 11,
            forall|j: int| 0 <= j < i ==> name@[j] == prefix@[j],
        decreases 11 - i,
    {
        if name.get_char(i) != prefix.get_char(i) {
            assert(name@.take(11)[i as int] != prefix@[i as int]);
            return false;
        }
        i = i + 1;
    }
    assert(name@.take(11) =~= "Resolution "@);
    let mut k: usize = 11;
    while k < 15
        invariant
            name@.len() == 15,
            11 <= k <= 15,
            forall|j: int| 11 <= j < k ==> '0' <= #[trigger] name@[j] <= '9',
        decreases 15 - k,
    {
        let c = name.get_char(k);
        if c < '0' || c > '9' {
            return false;
        }
        k = k + 1;
    }
    true
}

/// The walk entry is the `Image Contents` stream of some storage.
pub open spec fn is_image_contents(e: (Seq<Seq<char>>, bool)) -> bool {
    !e.1 && e.0.len() > 0 && visible_name_matches(e.0.last(), "Image Contents"@)
}

/// Finds the storage that directly contains an `Image Contents` stream,
/// i.e. the root of the FlashPix object this file holds: the parent of the
/// first such stream in walk order. Returns `FpxError::NotFlashPix` if no
/// such stream exists anywhere in the container.
pub fn find_object_root(cf: &Container) -> (r: Result<Vec<String>>)
    ensures
        ({
            let walk = container_walk(*cf);
            &&& (exists|i: int| 0 <= i < walk.len() && #[trigger] is_image_contents(walk[i]))
                ==> exists|k: int|
                {
                    &&& 0 <= k < walk.len()
                    &&& #[trigger] is_image_contents(walk[k])
                    &&& forall|j: int| 0 <= j < k ==> !#[trigger] is_image_contents(walk[j])
                    &&& r matches Ok(p) && path_view(p@) == walk[k].0.drop_last()
                }
            &&& !(exists|i: int| 0 <= i < walk.len() && #[trigger] is_image_contents(walk[i]))
                ==> is_not_flashpix(r)
        }),
{
    proof {
        reveal_strlit("Image Contents");
    }
    let entries = walk_entries(cf);
    let ghost walk = container_walk(*cf);
    let mut i: usize = 0;
    while i < entries.len()
        invariant
            entries_view(entries@) == walk,
            walk == container_walk(*cf),
            i <= entries@.len(),
            forall|j: int| 0 <= j < i ==> !#[trigger] is_image_contents(walk[j]),
        decreases entries@.len() - i,
    {
        let e = &entries[i];
        assert(walk[i as int] == entry_view(*e));
        if !e.is_storage && e.path.len() > 0 {
            let last = e.path.len() - 1;
            if matches_visible_name(e.path[last].as_str(), "Image Contents") {
                let parent = clone_path_prefix(e.path.as_slice(), last);
                assert(path_view(e.path@).take(last as int) =~= path_view(e.path@).drop_last());
                assert(path_view(e.path@).last() == e.path@[last as int]@);
                assert(is_image_contents(walk[i as int]));
                assert(walk[i as int].0 == path_view(e.path@));
                assert(path_view(parent@) == walk[i as int].0.drop_last());
                assert(0 <= i < walk.len());
                let r: Result<Vec<String>> = Ok(parent);
                assert(exists|i: int| 0 <= i < walk.len() && #[trigger] is_image_contents(walk[i]));
                assert(exists|k: int|
                {
                    &&& 0 <= k < walk.len()
                    &&& #[trigger] is_image_contents(walk[k])
                    &&& forall|j: int| 0 <= j < k ==> !#[trigger] is_image_contents(walk[j])
                    &&& r matches Ok(p) && path_view(p@) == walk[k].0.drop_last()
                });
                return r;
            }
        }
        i = i + 1;
    }
    Err(FpxError::NotFlashPix)
}

/// Renders a path as text: `/` for the root, else `/name/name...`.
pub fn path_to_text(p: &[String]) -> (t: String)
    ensures
        t@ == path_text(path_view(p@)),
{
    proof {
        reveal_strlit("/");
    }
    if p.len() == 0 {
        return String::from_str("/");
    }
    let mut t = String::new();
    let mut i: usize = 0;
    while i < p.len()
        invariant
            i <= p@.len(),
            t@ == joined_names(path_view(p@).take(i as int)),
        decreases p@.len() - i,
    {
        proof {
            reveal_strlit("/");
        }
        let ghost before = t@;
        t.append("/");
        t.append(p[i].as_str());
        assert(t@ == before + seq!['/'] + p@[i as int]@);
        assert(path_view(p@).take(i + 1).drop_last() =~= path_view(p@).take(i as int));
        assert(path_view(p@).take(i + 1).last() == p@[i as int]@);
        assert(t@ =~= joined_names(path_view(p@).take(i + 1)));
        i = i + 1;
    }
    assert(path_view(p@).take(p@.len() as int) =~= path_view(p@));
    t
}

/// `path/name` as text, the name of a missing stream.
pub open spec fn missing_stream_message(parent: Seq<Seq<char>>, name: Seq<char>) -> Seq<char> {
    path_text(parent) + seq!['/'] + name
}

/// `r` is a `NotFlashPix` error.
pub open spec fn is_not_flashpix<T>(r: Result<T>) -> bool {
    r matches Err(FpxError::NotFlashPix)
}

/// `r` is a `NoResolutions` error.
pub open spec fn is_no_resolutions<T>(r: Result<T>) -> bool {
    r matches Err(FpxError::NoResolutions)
}

/// `r` is a `StreamRead` error naming `path`.
pub open spec fn is_stream_read<T>(r: Result<T>, path: Seq<Seq<char>>) -> bool {
    match r {
        Err(FpxError::StreamRead { name, .. }) => name@ == path_text(path),
        _ => false,
    }
}

/// The child of `parent` is a stream named `visible` (up to a leading
/// control character).
pub open spec fn is_named_child_stream(
    e: (Seq<Seq<char>>, bool),
    visible: Seq<char>,
) -> bool {
    !e.1 && e.0.len() > 0 && visible_name_matches(e.0.last(), visible)
}

/// Index of the first stream named `visible` in the listing `l`.
pub open spec fn first_named(l: Seq<(Seq<Seq<char>>, bool)>, visible: Seq<char>, k: int) -> bool {
    &&& 0 <= k < l.len()
    &&& is_named_child_stream(l[k], visible)
    &&& forall|j: int| 0 <= j < k ==> !#[trigger] is_named_child_stream(l[j], visible)
}

/// `r` is what looking up the stream `visible` among the entries listed at
/// `parent` gives: the first stream so named, in listing order; a missing
/// entry when there is none; a read error when `parent` cannot be listed.
pub open spec fn found_stream(
    listings: Map<Seq<Seq<char>>, Seq<(Seq<Seq<char>>, bool)>>,
    parent: Seq<Seq<char>>,
    visible: Seq<char>,
    r: Result<Vec<String>>,
) -> bool {
    let l = listings[parent];
    if !listings.contains_key(parent) {
        is_stream_read(r, parent)
    } else if exists|k: int| #[trigger] first_named(l, visible, k) {
        exists|k: int| #[trigger] first_named(l, visible, k) && (r matches Ok(p) && path_view(p@) == l[k].0)
    } else {
        is_missing_entry(r, missing_stream_message(parent, visible))
    }
}

/// Finds a stream by its "visible" name among the direct children of
/// `parent`: the first one the container lists.
pub fn find_stream(cf: &Container, parent: &[String], visible_name: &str) -> (r: Result<Vec<String>>)
    ensures
        found_stream(container_listings(*cf), path_view(parent@), visible_name@, r),
{
    let entries = match read_storage_entries(cf, parent) {
        Ok(es) => es,
        Err(source) => {
            return Err(FpxError::StreamRead { name: path_to_text(parent), source });
        },
    };
    let ghost kids = entries_view(entries@);
    let mut i: usize = 0;
    while i < entries.len()
        invariant
            kids == entries_view(entries@),
            container_listings(*cf).contains_key(path_view(parent@)),
            kids == container_listings(*cf)[path_view(parent@)],
            i <= entries@.len(),
            forall|j: int| 0 <= j < i ==> !#[trigger] is_named_child_stream(kids[j], visible_name@),
        decreases entries@.len() - i,
    {
        let e = &entries[i];
        assert(kids[i as int] == entry_view(*e));
        if !e.is_storage && e.path.len() > 0 {
            let last = e.path.len() - 1;
            if matches_visible_name(e.path[last].as_str(), visible_name) {
                let p = clone_path(e.path.as_slice());
                assert(path_view(e.path@).last() == e.path@[last as int]@);
                assert(kids.contains(kids[i as int]));
                assert(is_named_child_stream(kids[i as int], visible_name@));
                assert(entries_view(entries@).to_set().contains(kids[i as int]));
                assert(first_named(kids, visible_name@, i as int));
                assert(path_view(p@) == kids[i as int].0);
                return Ok(p);
            }
        }
        i = i + 1;
    }
    let mut msg = path_to_text(parent);
    msg.append("/");
    msg.append(visible_name);
    proof {
        reveal_strlit("/");
        assert(msg@ =~= missing_stream_message(path_view(parent@), visible_name@));
        assert forall|e| kids.contains(e) implies !#[trigger] is_named_child_stream(e, visible_name@) by {
            let j = kids.index_of(e);
        }
        assert forall|k: int| !#[trigger] first_named(kids, visible_name@, k) by {
            if 0 <= k < kids.len() {
                assert(!is_named_child_stream(kids[k], visible_name@));
            }
        }
    }
    Err(FpxError::MissingEntry(msg))
}

/// A copy of the first `n` names of a path.
fn clone_path_prefix(p: &[String], n: usize) -> (c: Vec<String>)
    requires
        n <= p@.len(),
    ensures
        path_view(c@) == path_view(p@).take(n as int),
{
    let mut c: Vec<String> = Vec::new();
    let mut i: usize = 0;
    while i < n
        invariant
            n <= p@.len(),
            i <= n,
            path_view(c@) == path_view(p@).take(i as int),
        decreases n - i,
    {
        let ghost before = c@;
        let name = p[i].clone();
        c.push(name);
        proof {
            lemma_path_view_push(before, name);
        }
        i = i + 1;
        assert(path_view(c@) =~= path_view(p@).take(i as int));
    }
    c
}

/// A copy of a path.
pub fn clone_path(p: &[String]) -> (c: Vec<String>)
    ensures
        path_view(c@) == path_view(p@),
{
    let c = clone_path_prefix(p, p.len());
    assert(path_view(p@).take(p@.len() as int) =~= path_view(p@));
    c
}

/// The child is a `Resolution NNNN` storage.
pub open spec fn is_resolution_child(e: (Seq<Seq<char>>, bool)) -> bool {
    e.1 && e.0.len() > 0 && resolution_storage_name(e.0.last())
}

/// Lists the `Resolution NNNN` storages directly under `object_root`, in
/// whatever order the container stores them (the NNNN suffix does not
/// indicate resolution rank).
pub fn list_resolution_storages(cf: &Container, object_root: &[String]) -> (r: Result<
    Vec<Vec<String>>,
>)
    ensures
        ({
            let listings = container_listings(*cf);
            let listed = listings[path_view(object_root@)].filter(
                |e: (Seq<Seq<char>>, bool)| is_resolution_child(e),
            );
            &&& !listings.contains_key(path_view(object_root@)) ==> is_stream_read(
                r,
                path_view(object_root@),
            )
            &&& listings.contains_key(path_view(object_root@)) ==> {
                &&& listed.len() == 0 ==> is_no_resolutions(r)
                &&& listed.len() > 0 ==> (r matches Ok(v) && storage_views(v@) == listed)
            }
            &&& r is Err ==> is_stream_read(r, path_view(object_root@)) || is_no_resolutions(r)
        }),
{
    let entries = match read_storage_entries(cf, object_root) {
        Ok(es) => es,
        Err(source) => {
            return Err(FpxError::StreamRead { name: path_to_text(object_root), source });
        },
    };
    let ghost kids = entries_view(entries@);
    let ghost pred = |e: (Seq<Seq<char>>, bool)| is_resolution_child(e);
    let mut storages: Vec<Vec<String>> = Vec::new();
    let mut i: usize = 0;
    assert(kids.take(0).filter(pred) =~= Seq::empty()) by {
        reveal(Seq::filter);
    }
    while i < entries.len()
        invariant
            kids == entries_view(entries@),
            container_listings(*cf).contains_key(path_view(object_root@)),
            kids == container_listings(*cf)[path_view(object_root@)],
            i <= entries@.len(),
            pred == (|e: (Seq<Seq<char>>, bool)| is_resolution_child(e)),
            storage_views(storages@) == kids.take(i as int).filter(pred),
        decreases entries@.len() - i,
    {
        let e = &entries[i];
        assert(kids[i as int] == entry_view(*e));
        let ghost before = storages@;
        assert(kids.take(i + 1).drop_last() =~= kids.take(i as int));
        assert(kids.take(i + 1).last() == kids[i as int]);
        reveal(Seq::filter);
        if e.is_storage && e.path.len() > 0 && is_resolution_storage_name(
            e.path[e.path.len() - 1].as_str(),
        ) {
            let p = clone_path(e.path.as_slice());
            storages.push(p);
            assert(path_view(e.path@).last() == e.path@[e.path@.len() - 1]@);
            assert(pred(kids[i as int]));
            assert(storage_views(storages@) =~= storage_views(before).push(kids[i as int]));
        } else {
            assert(path_view(e.path@).len() > 0 ==> path_view(e.path@).last() == e.path@[e.path@.len() - 1]@);
            assert(!pred(kids[i as int]));
        }
        i = i + 1;
    }
    proof {
        assert(kids.take(kids.len() as int) =~= kids);
    }
    if storages.len() == 0 {
        proof {
            assert(storage_views(storages@) =~= Seq::empty());
        }
        return Err(FpxError::NoResolutions);
    }
    Ok(storages)
}

/// The storages of a list of paths, as walk entries.
pub open spec fn storage_views(v: Seq<Vec<String>>) -> Seq<(Seq<Seq<char>>, bool)> {
    v.map_values(|p: Vec<String>| (path_view(p@), true))
}

/// Reads an entire stream into memory. FPX images are small enough (the
/// format tops out around 1-2 megapixels) that buffering whole streams is
/// simpler than the alternative and not a real cost.
pub fn read_stream_full(cf: &mut Container, path: &[String]) -> (r: Result<Vec<u8>>)
    ensures
        container_walk(*final(cf)) == container_walk(*old(cf)),
        container_streams(*final(cf)) == container_streams(*old(cf)),
        container_listings(*final(cf)) == container_listings(*old(cf)),
        r is Ok <==> container_streams(*old(cf)).contains_key(path_view(path@)),
        r matches Ok(d) ==> d@ == container_streams(*old(cf))[path_view(path@)],
        r is Err ==> is_stream_read(r, path_view(path@)),
{
    match read_stream_bytes(cf, path) {
        Ok(buf) => Ok(buf),
        Err(source) => Err(FpxError::StreamRead { name: path_to_text(path), source }),
    }
}

/// Strips the 28-byte FPX stream prefix, returning the stream's real
/// content. Returns a clear error if the stream is too short to even hold
/// the prefix.
pub fn strip_fpx_prefix<'a>(stream_name: &str, data: &'a [u8]) -> (r: Result<&'a [u8]>)
    ensures
        data@.len() < 28 ==> is_truncated(r, stream_name@, 28, data@.len() as int),
        data@.len() >= 28 ==> (r matches Ok(c) && c@ == data@.subrange(28, data@.len() as int)),
{
    if data.len() < FPX_STREAM_PREFIX_LEN {
        return Err(truncated(stream_name, FPX_STREAM_PREFIX_LEN as u64, data.len()));
    }
    Ok(vstd::slice::slice_subrange(data, FPX_STREAM_PREFIX_LEN, data.len()))
}

} // verus!
