//! OLE property-set stream parser (the on-disk format behind the
//! `SummaryInformation`, `Image Contents` and `Image Info` streams of a
//! FlashPix file).
//!
//! ```text
//! offset  0: PROPERTYSETHEADER (28 bytes)
//!             u16 byte_order (always 0xFFFE)
//!             u16 format (always 0)
//!             u32 os_version
//!             [u8; 16] clsid
//!             u32 section_count
//! offset 28: FORMATIDOFFSET[section_count] (20 bytes each)
//!             [u8; 16] format_id
//!             u32 section_offset   -- absolute, from start of this stream
//! at section_offset: PROPERTYSECTIONHEADER
//!             u32 section_size
//!             u32 property_count
//!             PROPERTYIDOFFSET[property_count] (8 bytes each)
//!               u32 property_id
//!               u32 value_offset   -- relative to section_offset
//! at section_offset + value_offset: SERIALIZEDPROPERTYVALUE
//!             u32 vt_type
//!             ...type-specific payload
//! ```
//!
//! FlashPix always writes exactly one section, so only the first one is
//! read. Property ID 0 is reserved for a name dictionary and is skipped.

use std::collections::HashMap;
use vstd::prelude::*;

use crate::error::{
    is_missing_entry, is_missing_property, is_truncated, is_wrong_property_type, truncated,
    FpxError, Result,
};
use crate::le::{read_u16_le, read_u32_le, spec_u16_le, spec_u32_le};

verus! {

broadcast use vstd::std_specs::hash::group_hash_axioms;

/// Length of the property-set header.
pub const HEADER_LEN: u64 = 28;

/// The byte-order marker every property set starts with.
pub const BYTE_ORDER_MARK: u16 = 0xFFFE;

/// Length of one FORMATIDOFFSET record.
pub const FORMAT_ID_OFFSET_LEN: u64 = 20;

/// Length of one PROPERTYIDOFFSET record.
pub const PROPERTY_ID_OFFSET_LEN: u64 = 8;

/// Type tag of a length-prefixed UTF-16LE string value.
pub const VT_LPWSTR: u32 = 31;

/// Type tag of a FILETIME value.
pub const VT_FILETIME: u32 = 64;

/// Type tag of a length-prefixed byte blob value.
pub const VT_BLOB: u32 = 65;

/// Offset of the first section, as recorded in the first FORMATIDOFFSET.
pub open spec fn spec_section_offset(d: Seq<u8>) -> int {
    spec_u32_le(d, 44) as int
}

/// Number of properties of the first section.
pub open spec fn spec_property_count(d: Seq<u8>) -> int {
    spec_u32_le(d, spec_section_offset(d) + 4) as int
}

/// Offset of the `i`th PROPERTYIDOFFSET record.
pub open spec fn spec_table_entry(d: Seq<u8>, i: int) -> int {
    spec_section_offset(d) + 8 + 8 * i
}

/// The property ID -> absolute value offset map built from the first `n`
/// records of the property table: ID 0 is skipped, and a later record for
/// the same ID replaces an earlier one.
pub open spec fn spec_property_offsets(d: Seq<u8>, n: nat) -> Map<u32, u64>
    decreases n,
{
    if n == 0 {
        Map::empty()
    } else {
        let m = spec_property_offsets(d, (n - 1) as nat);
        let base = spec_table_entry(d, n - 1);
        let id = spec_u32_le(d, base);
        if id == 0 {
            m
        } else {
            m.insert(id, (spec_section_offset(d) + spec_u32_le(d, base + 4)) as u64)
        }
    }
}

/// `'stream' is not a valid OLE property-set stream (bad byte-order marker)`
pub open spec fn bad_byte_order_message(stream: Seq<char>) -> Seq<char> {
    seq!['\''] + stream + "' is not a valid OLE property-set stream (bad byte-order marker)"@
}

/// `'stream' has no property sections`
pub open spec fn no_sections_message(stream: Seq<char>) -> Seq<char> {
    seq!['\''] + stream + "' has no property sections"@
}

/// `d` holds a well-formed property set: every check of `PropertySet::parse`
/// passes.
pub open spec fn is_property_set(d: Seq<u8>) -> bool {
    let so = spec_section_offset(d);
    &&& d.len() >= 48
    &&& spec_u16_le(d, 0) == 0xFFFE
    &&& spec_u32_le(d, 24) != 0
    &&& d.len() >= so + 8
    &&& d.len() >= so + 8 + 8 * spec_property_count(d)
}

/// Property ID -> absolute value offset of the property set `d`.
pub open spec fn property_offsets(d: Seq<u8>) -> Map<u32, u64> {
    spec_property_offsets(d, spec_property_count(d) as nat)
}

/// `r` is the error parsing `d` as a property set called `stream` fails
/// with: each check in the order the format is read, the first that fails
/// decides.
pub open spec fn parse_failure<T>(r: Result<T>, stream: Seq<char>, d: Seq<u8>) -> bool {
    let so = spec_section_offset(d);
    if d.len() < 28 {
        is_truncated(r, stream, 28, d.len() as int)
    } else if spec_u16_le(d, 0) != 0xFFFE {
        is_missing_entry(r, bad_byte_order_message(stream))
    } else if spec_u32_le(d, 24) == 0 {
        is_missing_entry(r, no_sections_message(stream))
    } else if d.len() < 48 {
        is_truncated(r, stream, 48, d.len() as int)
    } else if d.len() < so + 8 {
        is_truncated(r, stream, so + 8, d.len() as int)
    } else {
        is_truncated(r, stream, so + 8 + 8 * spec_property_count(d), d.len() as int)
    }
}

/// The outcome of parsing `d` as a property set called `stream`.
pub open spec fn parse_outcome(r: Result<PropertySet>, stream: Seq<char>, d: Seq<u8>) -> bool {
    if is_property_set(d) {
        match r {
            Ok(ps) => ps.spec_stream_name() == stream && ps.spec_data() == d && ps.spec_offsets()
                == property_offsets(d),
            Err(_) => false,
        }
    } else {
        parse_failure(r, stream, d)
    }
}

/// UTF-16 decoding that replaces each unpaired surrogate with U+FFFD.
pub open spec fn utf16_lossy(units: Seq<u16>) -> Seq<char>
    decreases units.len(),
{
    if units.len() == 0 {
        Seq::empty()
    } else {
        let u = units[0];
        if u < 0xD800 || u > 0xDFFF {
            seq![(u as u32) as char] + utf16_lossy(units.drop_first())
        } else if u <= 0xDBFF && units.len() >= 2 && 0xDC00 <= units[1] <= 0xDFFF {
            let c = 0x1_0000 + (u - 0xD800) * 0x400 + (units[1] - 0xDC00);
            seq![(c as u32) as char] + utf16_lossy(units.subrange(2, units.len() as int))
        } else {
            seq!['\u{FFFD}'] + utf16_lossy(units.drop_first())
        }
    }
}

/// `s` without its trailing NUL characters.
pub open spec fn trim_trailing_nuls(s: Seq<char>) -> Seq<char>
    decreases s.len(),
{
    if s.len() > 0 && s.last() == '\0' {
        trim_trailing_nuls(s.drop_last())
    } else {
        s
    }
}

/// The `count` UTF-16LE code units stored from `start` on.
pub open spec fn utf16_units(d: Seq<u8>, start: int, count: int) -> Seq<u16> {
    Seq::new(count as nat, |i: int| spec_u16_le(d, start + 2 * i))
}

/// Decodes UTF-16 code units with `String::from_utf16_lossy`.
#[verifier::external_body]
fn string_from_utf16_lossy(units: &[u16]) -> (s: String)
    ensures
        s@ == utf16_lossy(units@),
{
    String::from_utf16_lossy(units)
}

/// Removes the trailing NUL characters of `s`.
fn trim_nuls(s: &str) -> (t: String)
    ensures
        t@ == trim_trailing_nuls(s@),
{
    let len = s.unicode_len();
    let mut end = len;
    assert(s@.subrange(0, len as int) =~= s@);
    while end > 0 && s.get_char(end - 1) == '\0'
        invariant
            end <= len == s@.len(),
            trim_trailing_nuls(s@) == trim_trailing_nuls(s@.subrange(0, end as int)),
        decreases end,
    {
        let ghost prefix = s@.subrange(0, end as int);
        assert(prefix.drop_last() =~= s@.subrange(0, end - 1));
        end = end - 1;
    }
    let kept = s.substring_char(0, end);
    proof {
        let prefix = s@.subrange(0, end as int);
        assert(end == 0 ==> prefix.len() == 0);
    }
    String::from_str(kept)
}

fn u16le(stream: &str, data: &[u8], offset: u64) -> (r: Result<u16>)
    requires
        offset + 2 <= u64::MAX,
    ensures
        offset + 2 <= data@.len() ==> r == Ok::<u16, FpxError>(spec_u16_le(data@, offset as int)),
        offset + 2 > data@.len() ==> is_truncated(r, stream@, offset + 2, data@.len() as int),
{
    if offset <= data.len() as u64 {
        if let Some(v) = read_u16_le(data, offset as usize) {
            return Ok(v);
        }
    }
    Err(truncated(stream, offset + 2, data.len()))
}

fn u32le(stream: &str, data: &[u8], offset: u64) -> (r: Result<u32>)
    requires
        offset + 4 <= u64::MAX,
    ensures
        offset + 4 <= data@.len() ==> r == Ok::<u32, FpxError>(spec_u32_le(data@, offset as int)),
        offset + 4 > data@.len() ==> is_truncated(r, stream@, offset + 4, data@.len() as int),
{
    if offset <= data.len() as u64 {
        if let Some(v) = read_u32_le(data, offset as usize) {
            return Ok(v);
        }
    }
    Err(truncated(stream, offset + 4, data.len()))
}

/// A parsed property set: the stream it came from, and the offset of each
/// property's value. Values are decoded on lookup, since the caller always
/// knows which property and which type it expects.
#[derive(Debug)]
pub struct PropertySet<'a> {
    stream_name: String,
    data: &'a [u8],
    /// property ID -> absolute offset (into `data`) of its SERIALIZEDPROPERTYVALUE
    values: HashMap<u32, u64>,
}

impl<'a> PropertySet<'a> {
    /// Every value offset fits in 33 bits (a 32-bit section offset plus a
    /// 32-bit relative offset).
    #[verifier::type_invariant]
    closed spec fn offsets_bounded(self) -> bool {
        forall|k: u32| self.values@.contains_key(k) ==> #[trigger] self.values@[k] < 0x2_0000_0000
    }

    /// The name of the stream this set was parsed from.
    pub closed spec fn spec_stream_name(&self) -> Seq<char> {
        self.stream_name@
    }

    /// The bytes of the stream this set was parsed from.
    pub closed spec fn spec_data(&self) -> Seq<u8> {
        self.data@
    }

    /// Property ID -> absolute offset of the property's value.
    pub closed spec fn spec_offsets(&self) -> Map<u32, u64> {
        self.values@
    }

    /// Parses the property-set stream `data`, named `stream_name` in errors.
    pub fn parse(stream_name: &str, data: &'a [u8]) -> (r: Result<Self>)
        ensures
            parse_outcome(r, stream_name@, data@),
    {
        let len = data.len() as u64;
        if len < HEADER_LEN {
            return Err(truncated(stream_name, HEADER_LEN, data.len()));
        }
        let byte_order = u16le(stream_name, data, 0)?;
        if byte_order != BYTE_ORDER_MARK {
            proof {
                reveal_strlit("'");
            }
            let mut msg = String::from_str("'");
            msg.append(stream_name);
            msg.append("' is not a valid OLE property-set stream (bad byte-order marker)");
            assert(msg@ =~= bad_byte_order_message(stream_name@));
            return Err(FpxError::MissingEntry(msg));
        }
        let section_count = u32le(stream_name, data, 24)?;
        if section_count == 0 {
            proof {
                reveal_strlit("'");
            }
            let mut msg = String::from_str("'");
            msg.append(stream_name);
            msg.append("' has no property sections");
            assert(msg@ =~= no_sections_message(stream_name@));
            return Err(FpxError::MissingEntry(msg));
        }

        // Only the first section is used: FlashPix always writes exactly one.
        let format_id_offset_pos = HEADER_LEN;
        if len < format_id_offset_pos + FORMAT_ID_OFFSET_LEN {
            return Err(truncated(stream_name, format_id_offset_pos + FORMAT_ID_OFFSET_LEN, data.len()));
        }
        let section_offset = u32le(stream_name, data, format_id_offset_pos + 16)? as u64;

        if len < section_offset + 8 {
            return Err(truncated(stream_name, section_offset + 8, data.len()));
        }
        let property_count = u32le(stream_name, data, section_offset + 4)? as u64;

        let table_start = section_offset + 8;
        let table_len = property_count * PROPERTY_ID_OFFSET_LEN;
        if len < table_start + table_len {
            return Err(truncated(stream_name, table_start + table_len, data.len()));
        }

        let mut values: HashMap<u32, u64> = HashMap::new();
        let mut i: u64 = 0;
        while i < property_count
            invariant
                len == data@.len(),
                data@.len() >= 48,
                section_offset == spec_section_offset(data@),
                property_count == spec_property_count(data@),
                table_start == section_offset + 8,
                table_start + 8 * property_count <= len,
                i <= property_count,
                values@ == spec_property_offsets(data@, i as nat),
                forall|k: u32| values@.contains_key(k) ==> #[trigger] values@[k] < 0x2_0000_0000,
            decreases property_count - i,
        {
            let base = table_start + i * PROPERTY_ID_OFFSET_LEN;
            let property_id = u32le(stream_name, data, base)?;
            if property_id != 0 {
                // a zero ID names the dictionary, which FlashPix does not use
                let relative_offset = u32le(stream_name, data, base + 4)? as u64;
                values.insert(property_id, section_offset + relative_offset);
            }
            assert(values@ =~= spec_property_offsets(data@, (i + 1) as nat));
            i = i + 1;
        }

        Ok(PropertySet { stream_name: String::from_str(stream_name), data, values })
    }

    fn value_offset(&self, id: u32, name: &'static str) -> (r: Result<u64>)
        ensures
            self.spec_offsets().contains_key(id) ==> r == Ok::<u64, FpxError>(
                self.spec_offsets()[id],
            ),
            !self.spec_offsets().contains_key(id) ==> is_missing_property(
                r,
                self.spec_stream_name(),
                id,
                name@,
            ),
            r matches Ok(o) ==> o < 0x2_0000_0000,
    {
        proof {
            use_type_invariant(self);
        }
        match self.values.get(&id) {
            Some(offset) => Ok(*offset),
            None => Err(
                FpxError::MissingProperty { stream: self.stream_name.clone(), property: id, name },
            ),
        }
    }

    fn check_type(&self, offset: u64, id: u32, expected: u32, expected_name: &'static str) -> (r:
        Result<()>)
        requires
            offset < 0x2_0000_0000,
        ensures
            offset + 4 > self.spec_data().len() ==> is_truncated(
                r,
                self.spec_stream_name(),
                offset + 4,
                self.spec_data().len() as int,
            ),
            offset + 4 <= self.spec_data().len() && spec_u32_le(self.spec_data(), offset as int)
                != expected ==> is_wrong_property_type(
                r,
                self.spec_stream_name(),
                id,
                expected_name@,
                spec_u32_le(self.spec_data(), offset as int),
            ),
            offset + 4 <= self.spec_data().len() && spec_u32_le(self.spec_data(), offset as int)
                == expected ==> r is Ok,
    {
        let found = u32le(self.stream_name.as_str(), self.data, offset)?;
        if found != expected {
            return Err(
                FpxError::WrongPropertyType {
                    stream: self.stream_name.clone(),
                    property: id,
                    expected: expected_name,
                    found,
                },
            );
        }
        Ok(())
    }

    /// Reads a VT_LPWSTR (length-prefixed UTF-16LE string) property. The
    /// stored character count includes the terminating NUL, which is
    /// stripped from the returned string.
    pub fn get_lpwstr(&self, id: u32, name: &'static str) -> (r: Result<String>)
        ensures
            match lpwstr_value(self.spec_offsets(), self.spec_data(), id) {
                Some(text) => r matches Ok(s) && s@ == text,
                None => lpwstr_failure(
                    r,
                    self.spec_stream_name(),
                    self.spec_offsets(),
                    self.spec_data(),
                    id,
                    name@,
                ),
            },
    {
        let offset = self.value_offset(id, name)?;
        self.check_type(offset, id, VT_LPWSTR, "VT_LPWSTR")?;
        let stream = self.stream_name.as_str();
        let char_count = u32le(stream, self.data, offset + 4)? as u64;
        let byte_len = char_count * 2;
        let start = offset + 8;
        let end = start + byte_len;
        if end > self.data.len() as u64 {
            return Err(truncated(stream, end, self.data.len()));
        }
        let mut units: Vec<u16> = Vec::new();
        let mut i: u64 = 0;
        let dlen = self.data.len();
        while i < char_count
            invariant
                dlen == self.data@.len(),
                end == start + 2 * char_count,
                end <= self.data@.len(),
                i <= char_count,
                units@ =~= utf16_units(self.data@, start as int, i as int),
            decreases char_count - i,
        {
            assert(start + 2 * i + 2 <= self.data@.len()) by (nonlinear_arith)
                requires
                    i < char_count,
                    end == start + 2 * char_count,
                    end <= self.data@.len(),
            ;
            let pos = (start + 2 * i) as usize;
            let unit = match read_u16_le(self.data, pos) {
                Some(u) => u,
                None => 0,
            };
            assert(unit == spec_u16_le(self.data@, start + 2 * i));
            units.push(unit);
            i = i + 1;
            assert(units@ =~= utf16_units(self.data@, start as int, i as int));
        }
        let decoded = string_from_utf16_lossy(units.as_slice());
        Ok(trim_nuls(decoded.as_str()))
    }

    /// Reads a VT_FILETIME property as raw 100ns ticks since 1601-01-01 UTC.
    pub fn get_filetime(&self, id: u32, name: &'static str) -> (r: Result<u64>)
        ensures
            match filetime_value(self.spec_offsets(), self.spec_data(), id) {
                Some(t) => r == Ok::<u64, FpxError>(t),
                None => filetime_failure(
                    r,
                    self.spec_stream_name(),
                    self.spec_offsets(),
                    self.spec_data(),
                    id,
                    name@,
                ),
            },
    {
        let offset = self.value_offset(id, name)?;
        self.check_type(offset, id, VT_FILETIME, "VT_FILETIME")?;
        let stream = self.stream_name.as_str();
        let low = u32le(stream, self.data, offset + 4)? as u64;
        let high = u32le(stream, self.data, offset + 8)? as u64;
        let ticks = (high << 32u64) | low;
        assert(ticks == low + high * 0x1_0000_0000) by (bit_vector)
            requires
                ticks == (high << 32u64) | low,
                low < 0x1_0000_0000,
                high < 0x1_0000_0000,
        ;
        Ok(ticks)
    }

    /// Reads a VT_BLOB property as a byte slice.
    pub fn get_blob(&self, id: u32, name: &'static str) -> (r: Result<&'a [u8]>)
        ensures
            match blob_value(self.spec_offsets(), self.spec_data(), id) {
                Some(b) => r matches Ok(x) && x@ == b,
                None => blob_failure(
                    r,
                    self.spec_stream_name(),
                    self.spec_offsets(),
                    self.spec_data(),
                    id,
                    name@,
                ),
            },
    {
        let offset = self.value_offset(id, name)?;
        self.check_type(offset, id, VT_BLOB, "VT_BLOB")?;
        let stream = self.stream_name.as_str();
        let size = u32le(stream, self.data, offset + 4)? as u64;
        let start = offset + 8;
        let end = start + size;
        if end > self.data.len() as u64 {
            return Err(truncated(stream, end, self.data.len()));
        }
        Ok(vstd::slice::slice_subrange(self.data, start as usize, end as usize))
    }
}

/// `id` names a property (of a set with value offsets `offs` over `d`)
/// whose value holds the type tag `vt`.
pub open spec fn lookup_ok(offs: Map<u32, u64>, d: Seq<u8>, id: u32, vt: u32) -> bool {
    &&& offs.contains_key(id)
    &&& offs[id] + 4 <= d.len()
    &&& spec_u32_le(d, offs[id] as int) == vt
}

/// `r` is the error a lookup of `id` fails with before the value itself is
/// read: the property is missing, its type tag is cut off, or its type is
/// not the one named `vt_name`.
pub open spec fn lookup_failure<T>(
    r: Result<T>,
    st: Seq<char>,
    offs: Map<u32, u64>,
    d: Seq<u8>,
    id: u32,
    name: Seq<char>,
    vt_name: Seq<char>,
) -> bool {
    if !offs.contains_key(id) {
        is_missing_property(r, st, id, name)
    } else if offs[id] + 4 > d.len() {
        is_truncated(r, st, offs[id] + 4, d.len() as int)
    } else {
        is_wrong_property_type(r, st, id, vt_name, spec_u32_le(d, offs[id] as int))
    }
}

/// The bytes of VT_BLOB property `id`, if it is present, a blob, and whole.
pub open spec fn blob_value(offs: Map<u32, u64>, d: Seq<u8>, id: u32) -> Option<Seq<u8>> {
    let o = offs[id] as int;
    let size = spec_u32_le(d, o + 4) as int;
    if lookup_ok(offs, d, id, VT_BLOB) && o + 8 <= d.len() && o + 8 + size <= d.len() {
        Some(d.subrange(o + 8, o + 8 + size))
    } else {
        None
    }
}

/// `r` is the error reading VT_BLOB property `id` fails with.
pub open spec fn blob_failure<T>(
    r: Result<T>,
    st: Seq<char>,
    offs: Map<u32, u64>,
    d: Seq<u8>,
    id: u32,
    name: Seq<char>,
) -> bool {
    let o = offs[id] as int;
    let size = spec_u32_le(d, o + 4) as int;
    if !lookup_ok(offs, d, id, VT_BLOB) {
        lookup_failure(r, st, offs, d, id, name, "VT_BLOB"@)
    } else if o + 8 > d.len() {
        is_truncated(r, st, o + 8, d.len() as int)
    } else {
        is_truncated(r, st, o + 8 + size, d.len() as int)
    }
}

/// The text of VT_LPWSTR property `id`, if it is present, a string, and
/// whole: its UTF-16 code units decoded, trailing NULs removed.
pub open spec fn lpwstr_value(offs: Map<u32, u64>, d: Seq<u8>, id: u32) -> Option<Seq<char>> {
    let o = offs[id] as int;
    let count = spec_u32_le(d, o + 4) as int;
    if lookup_ok(offs, d, id, VT_LPWSTR) && o + 8 <= d.len() && o + 8 + 2 * count <= d.len() {
        Some(trim_trailing_nuls(utf16_lossy(utf16_units(d, o + 8, count))))
    } else {
        None
    }
}

/// `r` is the error reading VT_LPWSTR property `id` fails with.
pub open spec fn lpwstr_failure<T>(
    r: Result<T>,
    st: Seq<char>,
    offs: Map<u32, u64>,
    d: Seq<u8>,
    id: u32,
    name: Seq<char>,
) -> bool {
    let o = offs[id] as int;
    let count = spec_u32_le(d, o + 4) as int;
    if !lookup_ok(offs, d, id, VT_LPWSTR) {
        lookup_failure(r, st, offs, d, id, name, "VT_LPWSTR"@)
    } else if o + 8 > d.len() {
        is_truncated(r, st, o + 8, d.len() as int)
    } else {
        is_truncated(r, st, o + 8 + 2 * count, d.len() as int)
    }
}

/// The ticks of VT_FILETIME property `id`, if it is present, a FILETIME,
/// and whole.
pub open spec fn filetime_value(offs: Map<u32, u64>, d: Seq<u8>, id: u32) -> Option<u64> {
    let o = offs[id] as int;
    if lookup_ok(offs, d, id, VT_FILETIME) && o + 12 <= d.len() {
        Some((spec_u32_le(d, o + 4) + spec_u32_le(d, o + 8) * 0x1_0000_0000) as u64)
    } else {
        None
    }
}

/// `r` is the error reading VT_FILETIME property `id` fails with.
pub open spec fn filetime_failure<T>(
    r: Result<T>,
    st: Seq<char>,
    offs: Map<u32, u64>,
    d: Seq<u8>,
    id: u32,
    name: Seq<char>,
) -> bool {
    let o = offs[id] as int;
    if !lookup_ok(offs, d, id, VT_FILETIME) {
        lookup_failure(r, st, offs, d, id, name, "VT_FILETIME"@)
    } else if o + 8 > d.len() {
        is_truncated(r, st, o + 8, d.len() as int)
    } else {
        is_truncated(r, st, o + 12, d.len() as int)
    }
}


/// The property ID of record `j` of the property table.
pub open spec fn record_id(d: Seq<u8>, j: int) -> u32 {
    spec_u32_le(d, spec_table_entry(d, j))
}

/// The absolute value offset record `j` of the property table gives.
pub open spec fn record_offset(d: Seq<u8>, j: int) -> u64 {
    (spec_section_offset(d) + spec_u32_le(d, spec_table_entry(d, j) + 4)) as u64
}

/// Looking a property up finds the last record of the table for its ID:
/// an ID other than 0 is present exactly when some record names it, and
/// then its value lies where the last such record points; ID 0, the name
/// dictionary, is never looked up.
pub proof fn lemma_last_record_wins(d: Seq<u8>, n: nat, id: u32, j: int)
    ensures
        !spec_property_offsets(d, n).contains_key(0),
        id != 0 ==> (spec_property_offsets(d, n).contains_key(id) <==> exists|i: int|
            0 <= i < n && #[trigger] record_id(d, i) == id),
        id != 0 && 0 <= j < n && record_id(d, j) == id && (forall|i: int|
            j < i < n ==> #[trigger] record_id(d, i) != id) ==> spec_property_offsets(d, n)[id]
            == record_offset(d, j),
    decreases n,
{
    if n > 0 {
        lemma_last_record_wins(d, (n - 1) as nat, id, j);
        if id != 0 && 0 <= j < n && record_id(d, j) == id && (forall|i: int|
            j < i < n ==> #[trigger] record_id(d, i) != id) {
            if j < n - 1 {
                assert(record_id(d, n - 1) != id);
            }
        }
        if id != 0 {
            if spec_property_offsets(d, n).contains_key(id) {
                if !spec_property_offsets(d, (n - 1) as nat).contains_key(id) {
                    assert(record_id(d, n - 1) == id);
                }
            }
            if exists|i: int| 0 <= i < n && #[trigger] record_id(d, i) == id {
                let i = choose|i: int| 0 <= i < n && #[trigger] record_id(d, i) == id;
                if i < n - 1 {
                    assert(spec_property_offsets(d, (n - 1) as nat).contains_key(id));
                }
            }
        }
    }
}

/// After a successful parse, a lookup finds the last record of the
/// property table for its ID: an ID that is 0, or that no record names, is
/// absent from the set, and any other is read at the offset its last
/// record gives.
pub proof fn lemma_parsed_lookup<'a>(ps: PropertySet<'a>, stream: Seq<char>, d: Seq<u8>, id: u32, j: int)
    requires
        parse_outcome(Ok(ps), stream, d),
    ensures
        ps.spec_data() == d,
        id == 0 || !(exists|i: int| 0 <= i < spec_property_count(d) && #[trigger] record_id(d, i) == id)
            ==> !ps.spec_offsets().contains_key(id),
        id != 0 && 0 <= j < spec_property_count(d) && record_id(d, j) == id && (forall|i: int|
            j < i < spec_property_count(d) ==> #[trigger] record_id(d, i) != id)
            ==> ps.spec_offsets().contains_key(id) && ps.spec_offsets()[id] == record_offset(d, j),
{
    assert(is_property_set(d));
    lemma_last_record_wins(d, spec_property_count(d) as nat, id, j);
}

} // verus!
