//! Reading an EXIF payload back the way a TIFF reader does: the header,
//! the entries of an IFD, and the text of an ASCII entry. What `build`
//! writes reads back as the camera model and capture date it was given.

use vstd::prelude::*;

use crate::exif::{
    ascii_entry, entry_record, entry_table, exif_payload, ifd0_models, ifd_fixed, ifd_fixed_len,
    lemma_exif_overflow, lemma_ifd0_overflow, lemma_table_len, long_entry, overflow_area, pad_even,
    spec_exif_offset, value_field, EntryModel, TAG_DATE_TIME_ORIGINAL, TAG_EXIF_IFD_POINTER, TAG_MODEL,
    TYPE_ASCII, TYPE_LONG,
};
use crate::le::{le16, le32, lemma_u16_at, lemma_u32_at, spec_u16_le, spec_u32_le};

verus! {


/// Position of entry `i` of the IFD at `ifd`.
pub open spec fn entry_pos(ifd: int, i: int) -> int {
    ifd + 2 + 12 * i
}

/// The number of entries of the IFD at `ifd`.
pub open spec fn read_entry_count(p: Seq<u8>, ifd: int) -> int {
    spec_u16_le(p, ifd) as int
}

/// The tag of entry `i` of the IFD at `ifd`.
pub open spec fn read_tag(p: Seq<u8>, ifd: int, i: int) -> u16 {
    spec_u16_le(p, entry_pos(ifd, i))
}

/// The field type of entry `i` of the IFD at `ifd`.
pub open spec fn read_type(p: Seq<u8>, ifd: int, i: int) -> u16 {
    spec_u16_le(p, entry_pos(ifd, i) + 2)
}

/// The value count of entry `i` of the IFD at `ifd`.
pub open spec fn read_count(p: Seq<u8>, ifd: int, i: int) -> u32 {
    spec_u32_le(p, entry_pos(ifd, i) + 4)
}

/// The 4-byte value field of entry `i` of the IFD at `ifd`, as a LONG.
pub open spec fn read_long(p: Seq<u8>, ifd: int, i: int) -> u32 {
    spec_u32_le(p, entry_pos(ifd, i) + 8)
}

/// The next-IFD offset that follows the entries of the IFD at `ifd`.
pub open spec fn read_next_ifd(p: Seq<u8>, ifd: int) -> u32 {
    spec_u32_le(p, entry_pos(ifd, read_entry_count(p, ifd)))
}

/// Where the value of an ASCII entry starts: in its value field when its
/// count fits in 4 bytes, else at the offset the field holds.
pub open spec fn ascii_start(p: Seq<u8>, ifd: int, i: int) -> int {
    if read_count(p, ifd, i) <= 4 {
        entry_pos(ifd, i) + 8
    } else {
        read_long(p, ifd, i) as int
    }
}

/// Entry `i` of the IFD at `ifd` is an ASCII entry of `tag` whose value,
/// inside the payload, is `text` and a terminating NUL.
pub open spec fn reads_text(p: Seq<u8>, ifd: int, i: int, tag: u16, text: Seq<u8>) -> bool {
    let start = ascii_start(p, ifd, i);
    &&& read_tag(p, ifd, i) == tag
    &&& read_type(p, ifd, i) == TYPE_ASCII
    &&& read_count(p, ifd, i) == text.len() + 1
    &&& 0 <= start && start + text.len() + 1 <= p.len()
    &&& p.subrange(start, start + text.len() + 1) == text.push(0)
}

/// An entry record is 12 bytes: its value field is 4.
proof fn lemma_record_len(es: Seq<EntryModel>, i: int, base: int)
    requires
        0 <= i < es.len(),
    ensures
        entry_record(es, i, base).len() == 12,
{
}

/// Record `i` of an entry table lies 12 bytes per entry in.
proof fn lemma_table_record(es: Seq<EntryModel>, n: int, base: int, i: int)
    requires
        0 <= i < n <= es.len(),
    ensures
        entry_table(es, n, base).subrange(12 * i, 12 * i + 12) == entry_record(es, i, base),
    decreases n,
{
    lemma_table_len(es, n - 1, base);
    lemma_record_len(es, n - 1, base);
    if i < n - 1 {
        lemma_table_record(es, n - 1, base, i);
    }
    let t = entry_table(es, n - 1, base);
    let r = entry_record(es, n - 1, base);
    assert((t + r).subrange(12 * i, 12 * i + 12) =~= if i < n - 1 {
        t.subrange(12 * i, 12 * i + 12)
    } else {
        r
    });
}

/// The fields of an entry record, read back from where it lies in `p`.
proof fn lemma_read_record(p: Seq<u8>, ifd: int, i: int, es: Seq<EntryModel>, base: int)
    requires
        0 <= i < es.len(),
        0 <= ifd,
        entry_pos(ifd, i) + 12 <= p.len(),
        p.subrange(entry_pos(ifd, i), entry_pos(ifd, i) + 12) == entry_record(es, i, base),
    ensures
        read_tag(p, ifd, i) == es[i].tag,
        read_type(p, ifd, i) == es[i].field_type,
        read_count(p, ifd, i) == es[i].count,
        es[i].data.len() <= 4 ==> p.subrange(
            entry_pos(ifd, i) + 8,
            entry_pos(ifd, i) + 8 + es[i].data.len(),
        ) == es[i].data,
        es[i].data.len() > 4 ==> read_long(p, ifd, i) == (base + overflow_area(
            es.take(i),
        ).len()) as u32,
{
    let pos = entry_pos(ifd, i);
    let e = es[i];
    let rec = entry_record(es, i, base);
    let vf = value_field(e, base + overflow_area(es.take(i)).len());
    assert(p.subrange(pos, pos + 2) =~= rec.subrange(0, 2));
    assert(rec.subrange(0, 2) =~= le16(e.tag));
    lemma_u16_at(p, pos, e.tag);
    assert(p.subrange(pos + 2, pos + 4) =~= rec.subrange(2, 4));
    assert(rec.subrange(2, 4) =~= le16(e.field_type));
    lemma_u16_at(p, pos + 2, e.field_type);
    assert(p.subrange(pos + 4, pos + 8) =~= rec.subrange(4, 8));
    assert(rec.subrange(4, 8) =~= le32(e.count));
    lemma_u32_at(p, pos + 4, e.count);
    assert(p.subrange(pos + 8, pos + 12) =~= rec.subrange(8, 12));
    assert(rec.subrange(8, 12) =~= vf);
    if e.data.len() <= 4 {
        assert(p.subrange(pos + 8, pos + 8 + e.data.len()) =~= vf.subrange(0, e.data.len() as int));
        assert(vf.subrange(0, e.data.len() as int) =~= e.data);
    } else {
        lemma_u32_at(p, pos + 8, (base + overflow_area(es.take(i)).len()) as u32);
    }
}

/// Reading the payload back as TIFF gives what was written: an
/// little-endian header pointing at IFD0 at offset 8; IFD0 holds one entry
/// per field present; the camera model is IFD0's first entry, an ASCII
/// value holding the model's text; the capture date is the only entry of
/// the Exif SubIFD that IFD0's pointer entry leads to, an ASCII value
/// holding the date's text; neither IFD links to a next one.
#[verifier::rlimit(100)]
#[verifier::spinoff_prover]
pub proof fn lemma_payload_reads_back(model: Option<Seq<u8>>, date: Option<Seq<u8>>)
    requires
        model is Some || date is Some,
        crate::exif::payload_fits(model, date),
    ensures
        ({
            let p = exif_payload(model, date).unwrap();
            let k = if model is Some { 1int } else { 0int };
            let sub = read_long(p, 8, k) as int;
            &&& p.take(4) == seq![0x49u8, 0x49u8, 42u8, 0u8]
            &&& spec_u32_le(p, 4) == 8
            &&& read_entry_count(p, 8) == k + if date is Some { 1int } else { 0int }
            &&& read_next_ifd(p, 8) == 0
            &&& model matches Some(m) ==> reads_text(p, 8, 0, TAG_MODEL, m)
            &&& date matches Some(d) ==> {
                &&& read_tag(p, 8, k) == TAG_EXIF_IFD_POINTER
                &&& read_type(p, 8, k) == TYPE_LONG
                &&& read_count(p, 8, k) == 1
                &&& 0 <= sub && sub + 2 <= p.len()
                &&& read_entry_count(p, sub) == 1
                &&& read_next_ifd(p, sub) == 0
                &&& reads_text(p, sub, 0, TAG_DATE_TIME_ORIGINAL, d)
            }
        }),
{
    let p = exif_payload(model, date).unwrap();
    let has_date = date is Some;
    let x = spec_exif_offset(model, has_date);
    let es0 = ifd0_models(model, has_date, x as u32);
    let n0 = es0.len() as int;
    let base0 = 8 + ifd_fixed_len(n0);
    let t0 = entry_table(es0, n0, base0);
    let header = seq![0x49u8, 0x49u8] + le16(42) + le32(8);
    let f0 = ifd_fixed(es0, 8, 0);
    let ov0 = overflow_area(es0);
    lemma_table_len(es0, n0, base0);
    lemma_ifd0_overflow(model, has_date, x as u32);
    lemma_ifd0_overflow(model, has_date, 0);
    assert(ifd0_models(model, has_date, 0).len() == n0);
    assert(x == 8 + f0.len() + ov0.len());
    let first = header + f0 + ov0;
    assert(p.subrange(0, first.len() as int) =~= first);
    assert(p.take(4) =~= seq![0x49u8, 0x49u8, 42u8, 0u8]);
    assert(p.subrange(4, 8) =~= le32(8));
    lemma_u32_at(p, 4, 8);
    assert(p.subrange(8, 10) =~= le16(n0 as u16));
    lemma_u16_at(p, 8, n0 as u16);
    assert(p.subrange(entry_pos(8, n0), entry_pos(8, n0) + 4) =~= le32(0));
    lemma_u32_at(p, entry_pos(8, n0), 0);
    assert forall|i: int| 0 <= i < n0 implies #[trigger] p.subrange(
        entry_pos(8, i),
        entry_pos(8, i) + 12,
    ) == entry_record(es0, i, base0) by {
        lemma_table_record(es0, n0, base0, i);
        assert(p.subrange(entry_pos(8, i), entry_pos(8, i) + 12) =~= t0.subrange(
            12 * i,
            12 * i + 12,
        ));
    }
    if let Some(m) = model {
        let e = es0[0];
        assert(e == ascii_entry(TAG_MODEL, m));
        lemma_read_record(p, 8, 0, es0, base0);
        if m.len() + 1 > 4 {
            assert(es0.take(0) =~= Seq::<EntryModel>::empty());
            assert(p.subrange(base0, base0 + m.len() + 1) =~= pad_even(m.push(0)).subrange(
                0,
                m.len() + 1 as int,
            ));
            assert(pad_even(m.push(0)).subrange(0, m.len() + 1 as int) =~= m.push(0));
        }
    }
    if let Some(d) = date {
        let k = if model is Some { 1int } else { 0int };
        assert(es0[k] == long_entry(TAG_EXIF_IFD_POINTER, x as u32));
        lemma_read_record(p, 8, k, es0, base0);
        assert(es0[k].data =~= le32(x as u32));
        assert(p.subrange(entry_pos(8, k) + 8, entry_pos(8, k) + 12) =~= le32(x as u32));
        lemma_u32_at(p, entry_pos(8, k) + 8, x as u32);
        let es1 = seq![ascii_entry(TAG_DATE_TIME_ORIGINAL, d)];
        let base1 = x + ifd_fixed_len(1);
        let f1 = ifd_fixed(es1, x, 0);
        lemma_table_len(es1, 1, base1);
        lemma_exif_overflow(d);
        assert(p =~= first + f1 + overflow_area(es1));
        assert(p.subrange(x, x + 2) =~= le16(1));
        lemma_u16_at(p, x, 1);
        assert(p.subrange(entry_pos(x, 1), entry_pos(x, 1) + 4) =~= le32(0));
        lemma_u32_at(p, entry_pos(x, 1), 0);
        lemma_table_record(es1, 1, base1, 0);
        assert(p.subrange(entry_pos(x, 0), entry_pos(x, 0) + 12) =~= entry_table(
            es1,
            1,
            base1,
        ).subrange(0, 12));
        lemma_read_record(p, x, 0, es1, base1);
        if d.len() + 1 > 4 {
            assert(es1.take(0) =~= Seq::<EntryModel>::empty());
            assert(p.subrange(base1, base1 + d.len() + 1) =~= pad_even(d.push(0)).subrange(
                0,
                d.len() + 1 as int,
            ));
            assert(pad_even(d.push(0)).subrange(0, d.len() + 1 as int) =~= d.push(0));
        }
    }
}

} // verus!
