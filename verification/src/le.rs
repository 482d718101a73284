//! Little-endian integer fields, read from and written to byte buffers.

use vstd::prelude::*;

verus! {

/// The `u16` stored little-endian at `off`.
pub open spec fn spec_u16_le(s: Seq<u8>, off: int) -> u16 {
    (s[off] as int + s[off + 1] as int * 0x100) as u16
}

/// The `u32` stored little-endian at `off`.
pub open spec fn spec_u32_le(s: Seq<u8>, off: int) -> u32 {
    (s[off] as int + s[off + 1] as int * 0x100 + s[off + 2] as int * 0x1_0000 + s[off + 3] as int
        * 0x100_0000) as u32
}

/// The two bytes of `v`, least significant first.
pub open spec fn le16(v: u16) -> Seq<u8> {
    seq![(v % 0x100) as u8, (v / 0x100) as u8]
}

/// The four bytes of `v`, least significant first.
pub open spec fn le32(v: u32) -> Seq<u8> {
    seq![
        (v % 0x100) as u8,
        (v / 0x100 % 0x100) as u8,
        (v / 0x1_0000 % 0x100) as u8,
        (v / 0x100_0000) as u8,
    ]
}

/// Writing a value and reading it back gives the value.
pub proof fn lemma_u16_roundtrip(v: u16)
    ensures
        spec_u16_le(le16(v), 0) == v,
{
}

/// Writing a value and reading it back gives the value.
pub proof fn lemma_u32_roundtrip(v: u32)
    ensures
        spec_u32_le(le32(v), 0) == v,
{
}

/// A value written at `off` reads back at `off`.
pub proof fn lemma_u16_at(s: Seq<u8>, off: int, v: u16)
    requires
        0 <= off,
        off + 2 <= s.len(),
        s.subrange(off, off + 2) == le16(v),
    ensures
        spec_u16_le(s, off) == v,
{
    assert(s[off] == s.subrange(off, off + 2)[0]);
    assert(s[off + 1] == s.subrange(off, off + 2)[1]);
    lemma_u16_roundtrip(v);
}

/// A value written at `off` reads back at `off`.
pub proof fn lemma_u32_at(s: Seq<u8>, off: int, v: u32)
    requires
        0 <= off,
        off + 4 <= s.len(),
        s.subrange(off, off + 4) == le32(v),
    ensures
        spec_u32_le(s, off) == v,
{
    assert(s[off] == s.subrange(off, off + 4)[0]);
    assert(s[off + 1] == s.subrange(off, off + 4)[1]);
    assert(s[off + 2] == s.subrange(off, off + 4)[2]);
    assert(s[off + 3] == s.subrange(off, off + 4)[3]);
    lemma_u32_roundtrip(v);
}

/// The little-endian `u16` at `offset`, or `None` if `data` ends before it.
pub fn read_u16_le(data: &[u8], offset: usize) -> (r: Option<u16>)
    ensures
        r is Some <==> offset + 2 <= data@.len(),
        r matches Some(v) ==> v == spec_u16_le(data@, offset as int),
{
    if offset > data.len() || data.len() - offset < 2 {
        return None;
    }
    let v = data[offset] as u16 + data[offset + 1] as u16 * 0x100;
    Some(v)
}

/// The little-endian `u32` at `offset`, or `None` if `data` ends before it.
pub fn read_u32_le(data: &[u8], offset: usize) -> (r: Option<u32>)
    ensures
        r is Some <==> offset + 4 <= data@.len(),
        r matches Some(v) ==> v == spec_u32_le(data@, offset as int),
{
    if offset > data.len() || data.len() - offset < 4 {
        return None;
    }
    let v = data[offset] as u32 + data[offset + 1] as u32 * 0x100 + data[offset + 2] as u32
        * 0x1_0000 + data[offset + 3] as u32 * 0x100_0000;
    Some(v)
}

/// Appends `v` as two little-endian bytes.
pub fn push_u16_le(out: &mut Vec<u8>, v: u16)
    ensures
        final(out)@ == old(out)@ + le16(v),
{
    out.push((v % 0x100) as u8);
    out.push((v / 0x100) as u8);
}

/// Appends `v` as four little-endian bytes.
pub fn push_u32_le(out: &mut Vec<u8>, v: u32)
    ensures
        final(out)@ == old(out)@ + le32(v),
{
    out.push((v % 0x100) as u8);
    out.push((v / 0x100 % 0x100) as u8);
    out.push((v / 0x1_0000 % 0x100) as u8);
    out.push((v / 0x100_0000) as u8);
}

} // verus!

verus! {

/// Appends `data[start..end]` to `out`.
pub fn push_range(out: &mut Vec<u8>, data: &[u8], start: usize, end: usize)
    requires
        start <= end <= data@.len(),
    ensures
        final(out)@ == old(out)@ + data@.subrange(start as int, end as int),
{
    let ghost base = out@;
    let mut i = start;
    while i < end
        invariant
            start <= i <= end <= data@.len(),
            out@ == base + data@.subrange(start as int, i as int),
        decreases end - i,
    {
        out.push(data[i]);
        i = i + 1;
        assert(out@ =~= base + data@.subrange(start as int, i as int));
    }
}

} // verus!
