//! Writers for the field kinds of the volume format: dual-endian integers,
//! little-endian integers, raw timestamps, and space-padded text.

use vstd::prelude::*;
use crate::byte_range::ByteRange;
use crate::byte_range::be_bytes_16;
use crate::byte_range::be_bytes_32;
use crate::byte_range::be_unsigned;
use crate::byte_range::le_bytes_16;
use crate::byte_range::le_bytes_32;
use crate::byte_range::le_unsigned;
use crate::byte_range::signed16;
use crate::byte_range::signed32;
use crate::byte_range::unsigned16;
use crate::byte_range::unsigned32;
use crate::buffer::splice_bytes;
use crate::buffer::write_bytes_into;
use crate::text::ascii_chars;
use crate::text::ascii_to_string;
use crate::text::dec2_bytes;
use crate::text::dec2_chars;
use crate::text::dec4_bytes;
use crate::text::dec4_chars;
use crate::text::push_dec2_bytes;
use crate::text::push_dec4_bytes;
use vstd::utf8::encode_utf8;

verus! {

/// Writer for a 16-bit dual-endian field: four bytes, the value little-endian
/// first and big-endian second.
pub struct BothEndianI16<'a>(pub &'a ByteRange);

impl<'a> BothEndianI16<'a> {
    /// A writer aimed at `range`.
    pub fn with_range(range: &'a ByteRange) -> (r: Self)
        ensures
            r.0 == range,
    {
        Self(range)
    }

    /// Stores `value_to_write` twice at `begin_in_data + range.begin`:
    /// little-endian bytes, then the same value big-endian.
    pub fn write_into(&self, data: &mut Vec<u8>, begin_in_data: usize, value_to_write: i16)
        requires
            begin_in_data + self.0.begin + 4 <= old(data)@.len(),
        ensures
            final(data)@ == splice_bytes(
                old(data)@,
                begin_in_data + self.0.begin,
                le_bytes_16(value_to_write) + be_bytes_16(value_to_write),
            ),
    {
        let dlen: usize = data.len();
        let u: u32 = if value_to_write >= 0 {
            value_to_write as u32
        } else {
            (value_to_write as i32 + 0x1_0000) as u32
        };
        let b0: u8 = (u % 256) as u8;
        let b1: u8 = (u / 256) as u8;
        let mut patch: Vec<u8> = Vec::new();
        patch.push(b0);
        patch.push(b1);
        patch.push(b1);
        patch.push(b0);
        proof {
            assert(u == unsigned16(value_to_write));
            assert(patch@ =~= le_bytes_16(value_to_write) + be_bytes_16(value_to_write));
        }
        write_bytes_into(data, begin_in_data + self.0.begin, patch.as_slice());
    }
}

/// Writer for a 32-bit dual-endian field: eight bytes, the value
/// little-endian first and big-endian second.
pub struct BothEndianI32<'a>(pub &'a ByteRange);

impl<'a> BothEndianI32<'a> {
    /// A writer aimed at `range`.
    pub fn with_range(range: &'a ByteRange) -> (r: Self)
        ensures
            r.0 == range,
    {
        Self(range)
    }

    /// Stores `value_to_write` twice at `begin_in_data + range.begin`:
    /// little-endian bytes, then the same value big-endian.
    pub fn write_into(&self, data: &mut Vec<u8>, begin_in_data: usize, value_to_write: i32)
        requires
            begin_in_data + self.0.begin + 8 <= old(data)@.len(),
        ensures
            final(data)@ == splice_bytes(
                old(data)@,
                begin_in_data + self.0.begin,
                le_bytes_32(value_to_write) + be_bytes_32(value_to_write),
            ),
    {
        let dlen: usize = data.len();
        let u: u64 = if value_to_write >= 0 {
            value_to_write as u64
        } else {
            (value_to_write as i64 + 0x1_0000_0000) as u64
        };
        let b0: u8 = (u % 256) as u8;
        let b1: u8 = ((u / 0x100) % 256) as u8;
        let b2: u8 = ((u / 0x1_0000) % 256) as u8;
        let b3: u8 = ((u / 0x100_0000) % 256) as u8;
        let mut patch: Vec<u8> = Vec::new();
        patch.push(b0);
        patch.push(b1);
        patch.push(b2);
        patch.push(b3);
        patch.push(b3);
        patch.push(b2);
        patch.push(b1);
        patch.push(b0);
        proof {
            assert(u == unsigned32(value_to_write));
            assert(patch@ =~= le_bytes_32(value_to_write) + be_bytes_32(value_to_write));
        }
        write_bytes_into(data, begin_in_data + self.0.begin, patch.as_slice());
    }
}

/// Writer for a little-endian-only 32-bit field.
pub struct LittleEndian<'a>(pub &'a ByteRange);

impl<'a> LittleEndian<'a> {
    /// A writer aimed at `range`.
    pub fn with_range(range: &'a ByteRange) -> (r: Self)
        ensures
            r.0 == range,
    {
        Self(range)
    }

    /// Stores `value_to_write` little-endian at `begin_in_data + range.begin`.
    pub fn write_into(&self, data: &mut Vec<u8>, begin_in_data: usize, value_to_write: i32)
        requires
            begin_in_data + self.0.begin + 4 <= old(data)@.len(),
        ensures
            final(data)@ == splice_bytes(
                old(data)@,
                begin_in_data + self.0.begin,
                le_bytes_32(value_to_write),
            ),
    {
        let dlen: usize = data.len();
        let u: u64 = if value_to_write >= 0 {
            value_to_write as u64
        } else {
            (value_to_write as i64 + 0x1_0000_0000) as u64
        };
        let b0: u8 = (u % 256) as u8;
        let b1: u8 = ((u / 0x100) % 256) as u8;
        let b2: u8 = ((u / 0x1_0000) % 256) as u8;
        let b3: u8 = ((u / 0x100_0000) % 256) as u8;
        let mut patch: Vec<u8> = Vec::new();
        patch.push(b0);
        patch.push(b1);
        patch.push(b2);
        patch.push(b3);
        proof {
            assert(u == unsigned32(value_to_write));
            assert(patch@ =~= le_bytes_32(value_to_write));
        }
        write_bytes_into(data, begin_in_data + self.0.begin, patch.as_slice());
    }
}

/// The characters of a formatted recording timestamp,
/// `YYYY-MM-DD HH:MM:SS`, where the year is 1900 plus the first byte.
pub open spec fn timestamp_chars(b: Seq<u8>) -> Seq<char> {
    dec4_chars(1900 + b[0]) + seq!['-'] + dec2_chars(b[1] as int) + seq!['-'] + dec2_chars(
        b[2] as int,
    ) + seq![' '] + dec2_chars(b[3] as int) + seq![':'] + dec2_chars(b[4] as int) + seq![':']
        + dec2_chars(b[5] as int)
}

/// The ASCII bytes of `timestamp_chars(b)`.
pub open spec fn timestamp_bytes(b: Seq<u8>) -> Seq<u8> {
    dec4_bytes(1900 + b[0]) + seq![45u8] + dec2_bytes(b[1] as int) + seq![45u8] + dec2_bytes(
        b[2] as int,
    ) + seq![32u8] + dec2_bytes(b[3] as int) + seq![58u8] + dec2_bytes(b[4] as int) + seq![58u8]
        + dec2_bytes(b[5] as int)
}

/// Writer and formatter for the 7-byte raw recording timestamp: years since
/// 1900, month, day, hour, minute, second, and an unused offset byte.
pub struct DateAndTime<'a>(pub &'a ByteRange);

impl<'a> DateAndTime<'a> {
    /// Renders the raw bytes as `YYYY-MM-DD HH:MM:SS`.
    pub fn format_by_bytes(value: &[u8; 7]) -> (r: String)
        ensures
            r@ == timestamp_chars(value@),
    {
        let mut bs: Vec<u8> = Vec::new();
        push_dec4_bytes(&mut bs, 1900 + value[0] as u16);
        bs.push(45);
        push_dec2_bytes(&mut bs, value[1]);
        bs.push(45);
        push_dec2_bytes(&mut bs, value[2]);
        bs.push(32);
        push_dec2_bytes(&mut bs, value[3]);
        bs.push(58);
        push_dec2_bytes(&mut bs, value[4]);
        bs.push(58);
        push_dec2_bytes(&mut bs, value[5]);
        proof {
            assert(bs@ =~= timestamp_bytes(value@));
            lemma_timestamp_bytes_ascii(value@);
        }
        ascii_to_string(bs.as_slice())
    }

    /// A writer aimed at `range`.
    pub fn with_range(range: &'a ByteRange) -> (r: Self)
        ensures
            r.0 == range,
    {
        Self(range)
    }

    /// Copies the 7 raw timestamp bytes unchanged to
    /// `range.begin + begin_in_data`.
    pub fn write_into(&self, data: &mut Vec<u8>, begin_in_data: usize, value: &[u8; 7])
        requires
            self.0.begin + begin_in_data + 7 <= old(data)@.len(),
        ensures
            final(data)@ == splice_bytes(old(data)@, self.0.begin + begin_in_data, value@),
    {
        let dlen: usize = data.len();
        write_bytes_into(data, self.0.begin + begin_in_data, value.as_slice());
    }
}

/// The bytes of a formatted timestamp are ASCII and spell its characters.
pub proof fn lemma_timestamp_bytes_ascii(b: Seq<u8>)
    requires
        b.len() >= 6,
    ensures
        forall|i: int| 0 <= i < timestamp_bytes(b).len() ==> timestamp_bytes(b)[i] < 128,
        ascii_chars(timestamp_bytes(b)) == timestamp_chars(b),
{
    assert forall|i: int| 0 <= i < timestamp_bytes(b).len() implies timestamp_bytes(b)[i]
        < 128 by {
        lemma_timestamp_byte_shape(b, i);
    }
    assert forall|i: int| 0 <= i < timestamp_chars(b).len() implies ascii_chars(timestamp_bytes(b))[i]
        == timestamp_chars(b)[i] by {
        lemma_timestamp_byte_shape(b, i);
    }
    assert(ascii_chars(timestamp_bytes(b)) =~= timestamp_chars(b));
}

/// Byte `i` of a formatted timestamp is below 128 and casts to character `i`.
proof fn lemma_timestamp_byte_shape(b: Seq<u8>, i: int)
    requires
        b.len() >= 6,
        0 <= i < timestamp_bytes(b).len(),
    ensures
        timestamp_bytes(b)[i] < 128,
        i < timestamp_chars(b).len(),
        timestamp_chars(b).len() == timestamp_bytes(b).len(),
        timestamp_bytes(b)[i] as char == timestamp_chars(b)[i],
{
    assert(1900 + b[0] <= 2155);
}

/// Writer for a fixed-width text field.  The value's bytes go to the start of
/// the range; the rest of the range is filled with the pad byte (decimal 32),
/// except for the final reserved byte, which is left untouched.
pub struct StringField<'a>(pub &'a ByteRange);

impl<'a> StringField<'a> {
    /// A writer aimed at `range`.
    pub fn with_range(range: &'a ByteRange) -> (r: Self)
        ensures
            r.0 == range,
    {
        Self(range)
    }

    /// Writes `value_to_write` at `begin_in_data + range.begin` and pads the
    /// remainder of the range, short of its last byte, with spaces.
    pub fn write_into(&self, data: &mut Vec<u8>, begin_in_data: usize, value_to_write: &String)
        requires
            self.0.begin < self.0.end,
            begin_in_data + self.0.end <= old(data)@.len(),
            encode_utf8(value_to_write@).len() <= self.0.end - self.0.begin,
        ensures
            final(data)@.len() == old(data)@.len(),
            forall|j: int|
                0 <= j < old(data)@.len() ==> final(data)@[j] == string_field_byte(
                    old(data)@,
                    begin_in_data + self.0.begin,
                    begin_in_data + self.0.end,
                    encode_utf8(value_to_write@),
                    j,
                ),
    {
        let dlen: usize = data.len();
        let bytes: &[u8] = value_to_write.as_str().as_bytes();
        let vlen: usize = bytes.len();
        let b: usize = begin_in_data + self.0.begin;
        write_bytes_into(data, b, bytes);
        let mut j: usize = b + vlen;
        let fill_end: usize = begin_in_data + self.0.end - 1;
        while j < fill_end
            invariant
                b + vlen <= j,
                j <= fill_end || j == b + vlen,
                fill_end < data@.len(),
                data@.len() == old(data)@.len(),
                vlen == encode_utf8(value_to_write@).len(),
                forall|k: int| b <= k < b + vlen ==> data@[k] == encode_utf8(value_to_write@)[k - b],
                forall|k: int| b + vlen <= k < j ==> data@[k] == 32,
                forall|k: int|
                    0 <= k < data@.len() && !(b <= k < j) ==> data@[k] == old(data)@[k],
            decreases fill_end - j,
    {
            data[j] = 32;
            j = j + 1;
        }
    }
}

/// The byte at offset `j` after a text field covering `[begin, end)` was
/// written with the encoded bytes `v`: the value's own bytes, then pad up to
/// the reserved final byte, and the old contents everywhere else.
pub open spec fn string_field_byte(
    buf: Seq<u8>,
    begin: int,
    end: int,
    v: Seq<u8>,
    j: int,
) -> u8 {
    if begin <= j < begin + v.len() {
        v[j - begin]
    } else if begin + v.len() <= j < end - 1 {
        32
    } else {
        buf[j]
    }
}

/// A text field's write, as a whole-buffer function.
pub open spec fn string_field_write(buf: Seq<u8>, begin: int, end: int, v: Seq<u8>) -> Seq<u8> {
    Seq::new(buf.len(), |j: int| string_field_byte(buf, begin, end, v, j))
}

/// Law: a text value written into a field reads back as the same text with
/// its trailing pads stripped — exactly the value itself for ASCII text
/// without spaces that is shorter than the field, over a buffer whose
/// reserved final field byte already holds the pad.
pub proof fn lemma_string_field_round_trip(buf: Seq<u8>, begin: int, end: int, s: Seq<char>)
    requires
        0 <= begin < end <= buf.len(),
        vstd::utf8::is_ascii_chars(s),
        forall|i: int| 0 <= i < s.len() ==> s[i] != ' ',
        s.len() <= end - begin - 1,
        buf[end - 1] == 32,
    ensures
        ({
            let field = string_field_write(buf, begin, end, encode_utf8(s)).subrange(begin, end);
            &&& vstd::utf8::valid_utf8(crate::text::strip_pad(field))
            &&& vstd::utf8::decode_utf8(crate::text::strip_pad(field)) == s
        }),
{
    let v = encode_utf8(s);
    vstd::utf8::is_ascii_chars_encode_utf8(s);
    assert forall|i: int| 0 <= i < v.len() implies v[i] != 32 by {
        assert(v[i] == s[i] as u8);
        assert((s[i] as u32) < 128);
        if v[i] == 32 {
            assert((s[i] as u32) == 32);
            assert(s[i] == ' ');
        }
    }
    let field = string_field_write(buf, begin, end, v).subrange(begin, end);
    let pads = field.subrange(v.len() as int, field.len() as int);
    assert forall|i: int| 0 <= i < pads.len() implies pads[i] == 32 by {
        assert(pads[i] == field[v.len() + i]);
    }
    assert(field =~= v + pads);
    crate::text::lemma_strip_pad_pad_tail(v, pads);
    crate::text::lemma_strip_pad_all_kept(v);
    vstd::utf8::encode_utf8_valid_utf8(s);
    vstd::utf8::encode_utf8_decode_utf8(s);
}

/// Law: a value stored dual-endian reads back identically through the
/// little-endian half and through the big-endian half, for 16-bit values.
pub proof fn lemma_both_endian_round_trip_i16(v: i16)
    ensures
        signed16(le_unsigned(le_bytes_16(v))) == v,
        signed16(be_unsigned(be_bytes_16(v))) == v,
{
    reveal_with_fuel(le_unsigned, 3);
    let u = unsigned16(v);
    let le = le_bytes_16(v);
    assert(le.skip(1).len() == 1 && le.skip(1)[0] == le[1]);
    assert(le_unsigned(le) == u % 256 + 256 * (u / 256));
    assert(u == 256 * (u / 256) + u % 256) by {
        vstd::arithmetic::div_mod::lemma_fundamental_div_mod(u, 256);
    }
    assert(be_bytes_16(v).reverse() =~= le);
}

/// Law: a value stored dual-endian reads back identically through the
/// little-endian half and through the big-endian half, for 32-bit values.
pub proof fn lemma_both_endian_round_trip_i32(v: i32)
    ensures
        signed32(le_unsigned(le_bytes_32(v))) == v,
        signed32(be_unsigned(be_bytes_32(v))) == v,
{
    reveal_with_fuel(le_unsigned, 5);
    let u = unsigned32(v);
    let le = le_bytes_32(v);
    assert(le.skip(1).len() == 3 && le.skip(1)[0] == le[1]);
    assert(le.skip(1).skip(1).len() == 2 && le.skip(1).skip(1)[0] == le[2]);
    assert(le.skip(1).skip(1).skip(1).len() == 1 && le.skip(1).skip(1).skip(1)[0] == le[3]);
    assert(le_unsigned(le) == u % 256 + 256 * ((u / 0x100) % 256) + 0x1_0000 * ((u / 0x1_0000)
        % 256) + 0x100_0000 * ((u / 0x100_0000) % 256));
    lemma_u32_byte_decomposition(u);
    assert(be_bytes_32(v).reverse() =~= le);
}

/// A 32-bit pattern equals the weighted sum of its four bytes.
proof fn lemma_u32_byte_decomposition(u: int)
    requires
        0 <= u < 0x1_0000_0000,
    ensures
        u == u % 256 + 256 * ((u / 0x100) % 256) + 0x1_0000 * ((u / 0x1_0000) % 256) + 0x100_0000
            * ((u / 0x100_0000) % 256),
{
    vstd::arithmetic::div_mod::lemma_fundamental_div_mod(u, 256);
    vstd::arithmetic::div_mod::lemma_fundamental_div_mod(u / 0x100, 256);
    vstd::arithmetic::div_mod::lemma_fundamental_div_mod(u / 0x1_0000, 256);
    vstd::arithmetic::div_mod::lemma_div_denominator(u, 0x100, 0x100);
    vstd::arithmetic::div_mod::lemma_div_denominator(u, 0x1_0000, 0x100);
    assert(u / 0x100_0000 < 256) by {
        vstd::arithmetic::div_mod::lemma_div_is_ordered(u, 0xFFFF_FFFF, 0x100_0000);
    }
    assert((u / 0x100_0000) % 256 == u / 0x100_0000) by {
        vstd::arithmetic::div_mod::lemma_small_mod((u / 0x100_0000) as nat, 256);
    }
}

} // verus!
