//! Builds the raw bytes for a PNG `eXIf` chunk: a minimal little-endian
//! TIFF structure holding just the two archived fields, camera model (IFD0
//! tag 0x0110) and capture date (Exif SubIFD tag 0x9003,
//! `DateTimeOriginal`), linked from IFD0 via an ExifIFD pointer (tag
//! 0x8769) when a capture date is present.
//!
//! A PNG `eXIf` chunk's payload is exactly this TIFF structure (starting
//! with the "II" byte-order marker); unlike a JPEG APP1 segment, it carries
//! no leading `"Exif\0\0"` marker.

use vstd::prelude::*;

use crate::le::{le16, le32, push_range, push_u16_le, push_u32_le};
use vstd::string::StringSliceAdditionalSpecFns;

verus! {

/// IFD0 tag of the camera model.
pub const TAG_MODEL: u16 = 0x0110;

/// IFD0 tag of the pointer to the Exif SubIFD.
pub const TAG_EXIF_IFD_POINTER: u16 = 0x8769;

/// Exif SubIFD tag of the capture date.
pub const TAG_DATE_TIME_ORIGINAL: u16 = 0x9003;

/// TIFF field type of NUL-terminated ASCII text.
pub const TYPE_ASCII: u16 = 2;

/// TIFF field type of a 32-bit unsigned integer.
pub const TYPE_LONG: u16 = 4;

/// Offset of IFD0 in the payload, right after the 8-byte TIFF header.
pub const IFD0_OFFSET: u32 = 8;

/// The content of one IFD entry.
pub struct EntryModel {
    pub tag: u16,
    pub field_type: u16,
    pub count: u32,
    pub data: Seq<u8>,
}

/// One IFD entry.
struct Entry {
    tag: u16,
    field_type: u16,
    count: u32,
    /// Raw field value, `count * type_size` bytes. Inlined into the IFD
    /// entry if it fits in 4 bytes, otherwise stored in the IFD's overflow
    /// area and referenced by offset.
    data: Vec<u8>,
}

impl Entry {
    spec fn model(&self) -> EntryModel {
        EntryModel { tag: self.tag, field_type: self.field_type, count: self.count, data: self.data@ }
    }

    fn ascii(tag: u16, s: &str) -> (e: Entry)
        requires
            s.spec_bytes().len() <= 0xFFFF_FF00,
        ensures
            e.model() == ascii_entry(tag, s.spec_bytes()),
    {
        let bytes = s.as_bytes();
        let mut data: Vec<u8> = Vec::new();
        push_range(&mut data, bytes, 0, bytes.len());
        data.push(0);
        assert(data@ =~= s.spec_bytes().push(0));
        let count = data.len() as u32;
        Entry { tag, field_type: TYPE_ASCII, count, data }
    }

    fn long(tag: u16, value: u32) -> (e: Entry)
        ensures
            e.model() == long_entry(tag, value),
    {
        let mut data: Vec<u8> = Vec::new();
        push_u32_le(&mut data, value);
        assert(data@ =~= le32(value));
        Entry { tag, field_type: TYPE_LONG, count: 1, data }
    }
}

/// An ASCII entry holding `text` and its terminating NUL.
pub open spec fn ascii_entry(tag: u16, text: Seq<u8>) -> EntryModel {
    EntryModel {
        tag,
        field_type: TYPE_ASCII,
        count: (text.len() + 1) as u32,
        data: text.push(0),
    }
}

/// A LONG entry holding `value`.
pub open spec fn long_entry(tag: u16, value: u32) -> EntryModel {
    EntryModel { tag, field_type: TYPE_LONG, count: 1, data: le32(value) }
}

/// `d`, with a zero byte appended if its length is odd.
pub open spec fn pad_even(d: Seq<u8>) -> Seq<u8> {
    if d.len() % 2 == 0 {
        d
    } else {
        d.push(0)
    }
}

/// The overflow area of `es`: the value of each entry that does not fit in
/// 4 bytes, in order, each padded to an even length.
pub open spec fn overflow_area(es: Seq<EntryModel>) -> Seq<u8>
    decreases es.len(),
{
    if es.len() == 0 {
        Seq::empty()
    } else {
        overflow_area(es.drop_last()) + if es.last().data.len() > 4 {
            pad_even(es.last().data)
        } else {
            Seq::empty()
        }
    }
}

/// The 4-byte value field of an entry: the value itself, zero-padded, if
/// it fits, otherwise the offset of the value in the payload.
pub open spec fn value_field(e: EntryModel, value_offset: int) -> Seq<u8> {
    if e.data.len() <= 4 {
        e.data + Seq::new((4 - e.data.len()) as nat, |i: int| 0u8)
    } else {
        le32(value_offset as u32)
    }
}

/// The 12-byte record of entry `i` of `es`, whose overflow area starts at
/// `overflow_base`.
pub open spec fn entry_record(es: Seq<EntryModel>, i: int, overflow_base: int) -> Seq<u8> {
    let e = es[i];
    le16(e.tag) + le16(e.field_type) + le32(e.count) + value_field(
        e,
        overflow_base + overflow_area(es.take(i)).len(),
    )
}

/// The records of the first `n` entries of `es`.
pub open spec fn entry_table(es: Seq<EntryModel>, n: int, overflow_base: int) -> Seq<u8>
    decreases n,
{
    if n <= 0 {
        Seq::empty()
    } else {
        entry_table(es, n - 1, overflow_base) + entry_record(es, n - 1, overflow_base)
    }
}

/// Length of the fixed part of an IFD of `n` entries: the entry count, the
/// records and the next-IFD offset.
pub open spec fn ifd_fixed_len(n: int) -> int {
    2 + 12 * n + 4
}

/// The fixed part of an IFD at `ifd_offset`: entry count, entry records,
/// next-IFD offset. The IFD's overflow area follows it directly.
pub open spec fn ifd_fixed(es: Seq<EntryModel>, ifd_offset: int, next: u32) -> Seq<u8> {
    le16(es.len() as u16) + entry_table(es, es.len() as int, ifd_offset + ifd_fixed_len(
        es.len() as int,
    )) + le32(next)
}

/// The IFD0 entries: the camera model, if present, then the pointer to the
/// Exif SubIFD at `exif_offset`, if a capture date is present.
pub open spec fn ifd0_models(model: Option<Seq<u8>>, has_date: bool, exif_offset: u32) -> Seq<
    EntryModel,
> {
    (match model {
        Some(m) => seq![ascii_entry(TAG_MODEL, m)],
        None => Seq::empty(),
    }) + if has_date {
        seq![long_entry(TAG_EXIF_IFD_POINTER, exif_offset)]
    } else {
        Seq::empty()
    }
}

/// Offset of the Exif SubIFD: right after IFD0 and its overflow area.
pub open spec fn spec_exif_offset(model: Option<Seq<u8>>, has_date: bool) -> int {
    let es = ifd0_models(model, has_date, 0);
    8 + ifd_fixed_len(es.len() as int) + overflow_area(es).len()
}

/// The TIFF payload holding the camera model and/or capture date: the
/// header ("II", 42, IFD0 at offset 8), IFD0 and its overflow area, then,
/// with a capture date, the Exif SubIFD with its one entry and overflow
/// area. Nothing when both are absent.
pub open spec fn exif_payload(model: Option<Seq<u8>>, date: Option<Seq<u8>>) -> Option<Seq<u8>> {
    if model is None && date is None {
        None
    } else {
        let exif_offset = spec_exif_offset(model, date is Some);
        let ifd0 = ifd0_models(model, date is Some, exif_offset as u32);
        let header = seq![0x49u8, 0x49u8] + le16(42) + le32(8);
        let first = header + ifd_fixed(ifd0, 8, 0) + overflow_area(ifd0);
        match date {
            Some(d) => {
                let exif = seq![ascii_entry(TAG_DATE_TIME_ORIGINAL, d)];
                Some(first + ifd_fixed(exif, exif_offset, 0) + overflow_area(exif))
            },
            None => Some(first),
        }
    }
}

/// The length of an optional text, 0 when absent.
pub open spec fn opt_len(b: Option<Seq<u8>>) -> int {
    match b {
        Some(b) => b.len() as int,
        None => 0,
    }
}

/// The texts fit in one payload: every offset in it fits in 32 bits.
pub open spec fn payload_fits(model: Option<Seq<u8>>, date: Option<Seq<u8>>) -> bool {
    opt_len(model) + opt_len(date) <= 0xFFFF_FF00
}

/// The UTF-8 bytes of an optional string.
pub open spec fn opt_bytes(s: Option<&str>) -> Option<Seq<u8>> {
    match s {
        Some(s) => Some(s.spec_bytes()),
        None => None,
    }
}


/// The content of each entry of `es`.
spec fn models(es: Seq<Entry>) -> Seq<EntryModel> {
    es.map_values(|e: Entry| e.model())
}

/// Appending an entry appends its value, if it does not fit inline, to the
/// overflow area.
proof fn lemma_overflow_step(es: Seq<EntryModel>, i: int)
    requires
        0 <= i < es.len(),
    ensures
        overflow_area(es.take(i + 1)) == overflow_area(es.take(i)) + if es[i].data.len() > 4 {
            pad_even(es[i].data)
        } else {
            Seq::empty()
        },
{
    assert(es.take(i + 1).drop_last() =~= es.take(i));
}

/// The overflow area of a prefix is no longer than the whole one.
proof fn lemma_overflow_prefix(es: Seq<EntryModel>, i: int)
    requires
        0 <= i <= es.len(),
    ensures
        overflow_area(es.take(i)).len() <= overflow_area(es).len(),
    decreases es.len() - i,
{
    if i < es.len() {
        lemma_overflow_step(es, i);
        lemma_overflow_prefix(es, i + 1);
    } else {
        assert(es.take(i) =~= es);
    }
}

/// Entry tables agree on entries that agree.
proof fn lemma_table_same_prefix(a: Seq<EntryModel>, b: Seq<EntryModel>, n: int, base: int)
    requires
        0 <= n <= a.len(),
        n <= b.len(),
        a.take(n) == b.take(n),
    ensures
        entry_table(a, n, base) == entry_table(b, n, base),
    decreases n,
{
    if n > 0 {
        assert(a.take(n - 1) =~= a.take(n).take(n - 1));
        assert(b.take(n - 1) =~= b.take(n).take(n - 1));
        lemma_table_same_prefix(a, b, n - 1, base);
        assert(a[n - 1] == a.take(n)[n - 1]);
        assert(b[n - 1] == b.take(n)[n - 1]);
    }
}

/// Serializes one IFD (its fixed-size entry table plus a trailing
/// next-IFD offset) and the overflow area for entries whose value doesn't
/// fit inline. `ifd_offset` is this IFD's absolute offset in the final
/// buffer, needed to compute overflow-area offsets.
#[verifier::rlimit(40)]
fn write_ifd(entries: &[Entry], ifd_offset: u32, next_ifd_offset: u32) -> (r: (Vec<u8>, Vec<u8>))
    requires
        entries@.len() <= 0xFFFF,
        ifd_offset + ifd_fixed_len(entries@.len() as int) + overflow_area(models(entries@)).len()
            <= u32::MAX,
    ensures
        r.0@ == ifd_fixed(models(entries@), ifd_offset as int, next_ifd_offset),
        r.1@ == overflow_area(models(entries@)),
{
    let ghost es = models(entries@);
    let ghost n = entries@.len() as int;
    let fixed_len: usize = 2 + entries.len() * 12 + 4;
    let mut fixed: Vec<u8> = Vec::new();
    push_u16_le(&mut fixed, entries.len() as u16);

    let mut overflow: Vec<u8> = Vec::new();
    let overflow_base: u32 = ifd_offset + fixed_len as u32;
    let ghost base = overflow_base as int;
    assert(es.take(0) =~= Seq::<EntryModel>::empty());
    let mut i: usize = 0;
    while i < entries.len()
        invariant
            es == models(entries@),
            n == entries@.len(),
            base == ifd_offset + ifd_fixed_len(n),
            overflow_base == base,
            base + overflow_area(es).len() <= u32::MAX,
            i <= n,
            fixed@ == le16(n as u16) + entry_table(es, i as int, base),
            overflow@ == overflow_area(es.take(i as int)),
        decreases n - i,
    {
        let entry = &entries[i];
        let ghost before_fixed = fixed@;
        let ghost before_overflow = overflow@;
        assert(es[i as int] == entry.model());
        push_u16_le(&mut fixed, entry.tag);
        push_u16_le(&mut fixed, entry.field_type);
        push_u32_le(&mut fixed, entry.count);
        proof {
            lemma_overflow_step(es, i as int);
            lemma_overflow_prefix(es, i as int);
        }
        if entry.data.len() <= 4 {
            push_range(&mut fixed, entry.data.as_slice(), 0, entry.data.len());
            let mut k = entry.data.len();
            while k < 4
                invariant
                    entry.data@.len() <= k <= 4,
                    fixed@ == before_fixed + le16(entry.tag) + le16(entry.field_type) + le32(
                        entry.count,
                    ) + entry.data@ + Seq::new((k - entry.data@.len()) as nat, |j: int| 0u8),
                decreases 4 - k,
            {
                fixed.push(0);
                k = k + 1;
                assert(fixed@ =~= before_fixed + le16(entry.tag) + le16(entry.field_type) + le32(
                    entry.count,
                ) + entry.data@ + Seq::new((k - entry.data@.len()) as nat, |j: int| 0u8));
            }
            assert(overflow@ =~= overflow_area(es.take(i + 1)));
        } else {
            let offset: u32 = overflow_base + overflow.len() as u32;
            push_u32_le(&mut fixed, offset);
            push_range(&mut overflow, entry.data.as_slice(), 0, entry.data.len());
            if overflow.len() % 2 != 0 {
                overflow.push(0);  // keep the next entry's offset word-aligned
            }
            assert(overflow@ =~= overflow_area(es.take(i + 1))) by {
                assert(entry.data@.subrange(0, entry.data@.len() as int) =~= entry.data@);
                if entry.data@.len() % 2 == 0 {
                    assert((before_overflow + entry.data@).len() % 2 == 0) by {
                        assert(before_overflow.len() % 2 == 0) by {
                            lemma_overflow_even(es.take(i as int));
                        }
                    }
                } else {
                    assert((before_overflow + entry.data@).len() % 2 != 0) by {
                        assert(before_overflow.len() % 2 == 0) by {
                            lemma_overflow_even(es.take(i as int));
                        }
                    }
                }
            }
        }
        assert(fixed@ =~= le16(n as u16) + entry_table(es, i + 1, base)) by {
            assert(entry.data@.subrange(0, entry.data@.len() as int) =~= entry.data@);
        }
        i = i + 1;
    }
    push_u32_le(&mut fixed, next_ifd_offset);
    assert(es.take(n) =~= es);
    (fixed, overflow)
}

/// Every overflow area has an even length.
proof fn lemma_overflow_even(es: Seq<EntryModel>)
    ensures
        overflow_area(es).len() % 2 == 0,
    decreases es.len(),
{
    if es.len() > 0 {
        lemma_overflow_even(es.drop_last());
    }
}


/// Builds a PNG `eXIf` chunk payload from the camera model and/or a
/// pre-formatted `"YYYY:MM:DD HH:MM:SS"` capture date. Returns `None` if
/// both are absent (nothing to write, so no chunk should be emitted).
#[verifier::rlimit(60)]
#[verifier::spinoff_prover]
pub fn build(model: Option<&str>, date_time_original: Option<&str>) -> (r: Option<Vec<u8>>)
    requires
        payload_fits(opt_bytes(model), opt_bytes(date_time_original)),
    ensures
        r is None <==> exif_payload(opt_bytes(model), opt_bytes(date_time_original)) is None,
        r matches Some(v) ==> v@ == exif_payload(
            opt_bytes(model),
            opt_bytes(date_time_original),
        ).unwrap(),
{
    if model.is_none() && date_time_original.is_none() {
        return None;
    }
    let ghost m = opt_bytes(model);
    let ghost has_date = date_time_original is Some;

    let mut ifd0_entries: Vec<Entry> = Vec::new();
    if let Some(model) = model {
        ifd0_entries.push(Entry::ascii(TAG_MODEL, model));
    }
    let exif_ptr_index: Option<usize> = if date_time_original.is_some() {
        ifd0_entries.push(Entry::long(TAG_EXIF_IFD_POINTER, 0));  // patched below
        Some(ifd0_entries.len() - 1)
    } else {
        None
    };
    let ghost es0 = ifd0_models(m, has_date, 0);
    assert(models(ifd0_entries@) =~= es0);
    proof {
        lemma_ifd0_overflow(m, has_date, 0);
    }

    let (mut ifd0_fixed, ifd0_overflow) = write_ifd(ifd0_entries.as_slice(), IFD0_OFFSET, 0);
    proof {
        lemma_table_len(es0, es0.len() as int, 8 + ifd_fixed_len(es0.len() as int));
    }

    let mut out: Vec<u8> = Vec::new();
    out.push(0x49);  // 'I'
    out.push(0x49);  // 'I'
    push_u16_le(&mut out, 42);
    push_u32_le(&mut out, IFD0_OFFSET);
    let ghost header = out@;

    match (exif_ptr_index, date_time_original) {
        (Some(entry_index), Some(date_time)) => {
            let exif_ifd_offset: u32 = IFD0_OFFSET + ifd0_fixed.len() as u32
                + ifd0_overflow.len() as u32;
            // Patch the ExifIFD-pointer entry's inline value now that we
            // know where the SubIFD will land: 2 (count) + entry*12 bytes
            // in, +8 to skip that entry's tag/type/count to its value.
            let value_pos = 2 + entry_index * 12 + 8;
            let ghost placeholder = ifd0_fixed@;
            assert(exif_ifd_offset == spec_exif_offset(m, true));
            set_u32_le(&mut ifd0_fixed, value_pos, exif_ifd_offset);
            proof {
                lemma_patch_pointer(m, exif_ifd_offset, placeholder, ifd0_fixed@);
                lemma_ifd0_overflow(m, true, exif_ifd_offset);
            }
            let ghost ifd0 = ifd0_models(m, true, exif_ifd_offset);
            assert(ifd0_fixed@ == ifd_fixed(ifd0, 8, 0));
            assert(ifd0_overflow@ == overflow_area(ifd0));

            push_range(&mut out, ifd0_fixed.as_slice(), 0, ifd0_fixed.len());
            push_range(&mut out, ifd0_overflow.as_slice(), 0, ifd0_overflow.len());

            let mut exif_entries: Vec<Entry> = Vec::new();
            exif_entries.push(Entry::ascii(TAG_DATE_TIME_ORIGINAL, date_time));
            let ghost es1 = seq![ascii_entry(TAG_DATE_TIME_ORIGINAL, date_time.spec_bytes())];
            assert(models(exif_entries@) =~= es1);
            proof {
                lemma_exif_overflow(date_time.spec_bytes());
            }
            let (exif_fixed, exif_overflow) = write_ifd(
                exif_entries.as_slice(),
                exif_ifd_offset,
                0,
            );
            push_range(&mut out, exif_fixed.as_slice(), 0, exif_fixed.len());
            push_range(&mut out, exif_overflow.as_slice(), 0, exif_overflow.len());
            assert(ifd0_fixed@.subrange(0, ifd0_fixed@.len() as int) =~= ifd0_fixed@);
            assert(ifd0_overflow@.subrange(0, ifd0_overflow@.len() as int) =~= ifd0_overflow@);
            assert(exif_fixed@.subrange(0, exif_fixed@.len() as int) =~= exif_fixed@);
            assert(exif_overflow@.subrange(0, exif_overflow@.len() as int) =~= exif_overflow@);
            assert(out@ =~= header + ifd_fixed(ifd0, 8, 0) + overflow_area(ifd0) + ifd_fixed(
                es1,
                exif_ifd_offset as int,
                0,
            ) + overflow_area(es1));
        },
        _ => {
            push_range(&mut out, ifd0_fixed.as_slice(), 0, ifd0_fixed.len());
            push_range(&mut out, ifd0_overflow.as_slice(), 0, ifd0_overflow.len());
            assert(ifd0_fixed@.subrange(0, ifd0_fixed@.len() as int) =~= ifd0_fixed@);
            assert(ifd0_overflow@.subrange(0, ifd0_overflow@.len() as int) =~= ifd0_overflow@);
            assert(out@ =~= exif_payload(m, opt_bytes(date_time_original)).unwrap());
        },
    }

    Some(out)
}

/// Overwrites `out[pos .. pos + 4]` with `v`, little-endian.
fn set_u32_le(out: &mut Vec<u8>, pos: usize, v: u32)
    requires
        pos + 4 <= old(out)@.len(),
    ensures
        final(out)@ == old(out)@.update(pos as int, (v % 0x100) as u8).update(
            pos + 1,
            (v / 0x100 % 0x100) as u8,
        ).update(pos + 2, (v / 0x1_0000 % 0x100) as u8).update(pos + 3, (v / 0x100_0000) as u8),
{
    let _len = out.len();
    out.set(pos, (v % 0x100) as u8);
    out.set(pos + 1, (v / 0x100 % 0x100) as u8);
    out.set(pos + 2, (v / 0x1_0000 % 0x100) as u8);
    out.set(pos + 3, (v / 0x100_0000) as u8);
}

/// The overflow area of IFD0 holds the camera model's text, NUL and
/// padding when that does not fit inline, and nothing else.
pub(crate) proof fn lemma_ifd0_overflow(m: Option<Seq<u8>>, has_date: bool, v: u32)
    ensures
        overflow_area(ifd0_models(m, has_date, v)) == match m {
            Some(t) => if t.len() + 1 > 4 {
                pad_even(t.push(0))
            } else {
                Seq::empty()
            },
            None => Seq::empty(),
        },
{
    let es = ifd0_models(m, has_date, v);
    reveal_with_fuel(overflow_area, 3);
    if es.len() == 2 {
        assert(es.drop_last() =~= seq![es[0]]);
        assert(es.drop_last().drop_last() =~= Seq::<EntryModel>::empty());
    } else if es.len() == 1 {
        assert(es.drop_last() =~= Seq::<EntryModel>::empty());
    }
}

/// The overflow area of the Exif SubIFD holds the date's text, NUL and
/// padding when that does not fit inline.
pub(crate) proof fn lemma_exif_overflow(d: Seq<u8>)
    ensures
        overflow_area(seq![ascii_entry(TAG_DATE_TIME_ORIGINAL, d)]) == if d.len() + 1 > 4 {
            pad_even(d.push(0))
        } else {
            Seq::<u8>::empty()
        },
{
    let es = seq![ascii_entry(TAG_DATE_TIME_ORIGINAL, d)];
    reveal_with_fuel(overflow_area, 2);
    assert(es.drop_last() =~= Seq::<EntryModel>::empty());
}

/// Every entry record is 12 bytes long.
pub(crate) proof fn lemma_table_len(es: Seq<EntryModel>, n: int, base: int)
    requires
        0 <= n <= es.len(),
    ensures
        entry_table(es, n, base).len() == 12 * n,
    decreases n,
{
    if n > 0 {
        lemma_table_len(es, n - 1, base);
    }
}

/// Writing the Exif SubIFD's offset over the placeholder value of IFD0's
/// last entry gives IFD0 with the pointer at that offset.
proof fn lemma_patch_pointer(m: Option<Seq<u8>>, v: u32, placeholder: Seq<u8>, patched: Seq<u8>)
    requires
        placeholder == ifd_fixed(ifd0_models(m, true, 0), 8, 0),
        ({
            let pos = 2 + (ifd0_models(m, true, 0).len() - 1) * 12 + 8;
            patched == placeholder.update(pos, (v % 0x100) as u8).update(
                pos + 1,
                (v / 0x100 % 0x100) as u8,
            ).update(pos + 2, (v / 0x1_0000 % 0x100) as u8).update(
                pos + 3,
                (v / 0x100_0000) as u8,
            )
        }),
    ensures
        patched == ifd_fixed(ifd0_models(m, true, v), 8, 0),
{
    let a = ifd0_models(m, true, 0);
    let b = ifd0_models(m, true, v);
    let n = a.len() as int;
    let base = 8 + ifd_fixed_len(n);
    assert(a.take(n - 1) =~= b.take(n - 1));
    lemma_table_same_prefix(a, b, n - 1, base);
    assert(overflow_area(a.take(n - 1)) == overflow_area(b.take(n - 1)));
    lemma_table_len(a, n - 1, base);
    lemma_ifd0_overflow(m, true, 0);
    lemma_ifd0_overflow(m, true, v);
    let ra = entry_record(a, n - 1, base);
    let rb = entry_record(b, n - 1, base);
    assert(a[n - 1] == long_entry(TAG_EXIF_IFD_POINTER, 0));
    assert(b[n - 1] == long_entry(TAG_EXIF_IFD_POINTER, v));
    assert(value_field(a[n - 1], 0) =~= le32(0));
    assert(ra =~= le16(TAG_EXIF_IFD_POINTER) + le16(TYPE_LONG) + le32(1) + le32(0));
    assert(rb =~= le16(TAG_EXIF_IFD_POINTER) + le16(TYPE_LONG) + le32(1) + le32(v));
    let target = ifd_fixed(b, 8, 0);
    assert(patched =~= target);
}


} // verus!
