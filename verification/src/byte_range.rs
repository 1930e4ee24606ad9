//! Byte ranges and the integer encodings used by the volume format.
//!
//! Fields of the format live at fixed offsets inside a byte buffer.  A
//! [`ByteRange`] names such a location.  Integers are stored either
//! little-endian only, or in the format's dual-endian convention: the value
//! appears twice, first little-endian and then big-endian, over adjacent
//! ranges of equal width.

use vstd::prelude::*;

verus! {

/// Unsigned value of `s` read as a little-endian integer
/// (first byte least significant).
pub open spec fn le_unsigned(s: Seq<u8>) -> int
    decreases s.len(),
{
    if s.len() == 0 {
        0
    } else {
        s[0] + 256 * le_unsigned(s.skip(1))
    }
}

/// Unsigned value of `s` read as a big-endian integer
/// (first byte most significant).
pub open spec fn be_unsigned(s: Seq<u8>) -> int {
    le_unsigned(s.reverse())
}

/// Two's-complement reading of an unsigned 16-bit value.
pub open spec fn signed16(u: int) -> int {
    if u >= 0x8000 {
        u - 0x1_0000
    } else {
        u
    }
}

/// Two's-complement reading of an unsigned 32-bit value.
pub open spec fn signed32(u: int) -> int {
    if u >= 0x8000_0000 {
        u - 0x1_0000_0000
    } else {
        u
    }
}

/// The unsigned 16-bit pattern that stores `v` in two's complement.
pub open spec fn unsigned16(v: i16) -> int {
    if v < 0 {
        v + 0x1_0000
    } else {
        v as int
    }
}

/// The unsigned 32-bit pattern that stores `v` in two's complement.
pub open spec fn unsigned32(v: i32) -> int {
    if v < 0 {
        v + 0x1_0000_0000
    } else {
        v as int
    }
}

/// Little-endian bytes of a 16-bit value.
pub open spec fn le_bytes_16(v: i16) -> Seq<u8> {
    let u = unsigned16(v);
    seq![(u % 256) as u8, (u / 256) as u8]
}

/// Big-endian bytes of a 16-bit value.
pub open spec fn be_bytes_16(v: i16) -> Seq<u8> {
    le_bytes_16(v).reverse()
}

/// Little-endian bytes of a 32-bit value.
pub open spec fn le_bytes_32(v: i32) -> Seq<u8> {
    let u = unsigned32(v);
    seq![
        (u % 256) as u8,
        ((u / 0x100) % 256) as u8,
        ((u / 0x1_0000) % 256) as u8,
        ((u / 0x100_0000) % 256) as u8,
    ]
}

/// Big-endian bytes of a 32-bit value.
pub open spec fn be_bytes_32(v: i32) -> Seq<u8> {
    le_bytes_32(v).reverse()
}

/// Width in bytes of an integer type as stored by the format.
pub trait ByteCount {
    /// Width in bytes, for specifications.
    spec fn spec_byte_count() -> nat;

    /// Width in bytes.
    fn byte_count() -> (n: usize)
        ensures
            n == Self::spec_byte_count(),
    ;
}

impl ByteCount for i16 {
    open spec fn spec_byte_count() -> nat {
        2
    }

    fn byte_count() -> usize {
        2
    }
}

impl ByteCount for i32 {
    open spec fn spec_byte_count() -> nat {
        4
    }

    fn byte_count() -> usize {
        4
    }
}

/// Reading an integer out of a dual-endian field.  Only the little-endian
/// half is consumed, so the bytes handed in are just that half.
pub trait FromBothEndian: ByteCount + Sized {
    /// The value stored by the little-endian bytes `s`.
    spec fn spec_from_both_endian(s: Seq<u8>) -> Self;

    /// Reads the value from the leading `Self::byte_count()` bytes of `value`.
    fn from_both_endian(value: &[u8]) -> (r: Self)
        requires
            value@.len() >= Self::spec_byte_count(),
        ensures
            r == Self::spec_from_both_endian(
                value@.subrange(0, Self::spec_byte_count() as int),
            ),
    ;
}

impl FromBothEndian for i16 {
    open spec fn spec_from_both_endian(s: Seq<u8>) -> i16 {
        signed16(le_unsigned(s)) as i16
    }

    fn from_both_endian(value: &[u8]) -> (r: i16) {
        let u: u32 = value[0] as u32 + 256 * (value[1] as u32);
        proof {
            reveal_with_fuel(le_unsigned, 3);
            let s = value@.subrange(0, 2);
            assert(s.skip(1).len() == 1 && s.skip(1)[0] == value@[1]);
            assert(le_unsigned(s) == u);
        }
        let v: i32 = if u >= 0x8000 {
            u as i32 - 0x1_0000
        } else {
            u as i32
        };
        v as i16
    }
}

impl FromBothEndian for i32 {
    open spec fn spec_from_both_endian(s: Seq<u8>) -> i32 {
        signed32(le_unsigned(s)) as i32
    }

    fn from_both_endian(value: &[u8]) -> (r: i32) {
        let u: u64 = value[0] as u64 + 256 * (value[1] as u64) + 0x1_0000 * (value[2] as u64)
            + 0x100_0000 * (value[3] as u64);
        proof {
            reveal_with_fuel(le_unsigned, 5);
            let s = value@.subrange(0, 4);
            assert(s.skip(1).len() == 3 && s.skip(1)[0] == value@[1]);
            assert(s.skip(1).skip(1).len() == 2 && s.skip(1).skip(1)[0] == value@[2]);
            assert(s.skip(1).skip(1).skip(1).len() == 1 && s.skip(1).skip(1).skip(1)[0]
                == value@[3]);
            assert(le_unsigned(s) == u);
        }
        let v: i64 = if u >= 0x8000_0000 {
            u as i64 - 0x1_0000_0000
        } else {
            u as i64
        };
        v as i32
    }
}

/// Reading an integer out of a little-endian-only field.
pub trait FromLittleEndian: ByteCount + Sized {
    /// The value stored by the little-endian bytes `s`.
    spec fn spec_from_little_endian(s: Seq<u8>) -> Self;

    /// Reads the value from the leading `Self::byte_count()` bytes of `value`.
    fn from_little_endian(value: &[u8]) -> (r: Self)
        requires
            value@.len() >= Self::spec_byte_count(),
        ensures
            r == Self::spec_from_little_endian(
                value@.subrange(0, Self::spec_byte_count() as int),
            ),
    ;
}

impl FromLittleEndian for i32 {
    open spec fn spec_from_little_endian(s: Seq<u8>) -> i32 {
        signed32(le_unsigned(s)) as i32
    }

    fn from_little_endian(value: &[u8]) -> (r: i32) {
        <i32 as FromBothEndian>::from_both_endian(value)
    }
}

/// A half-open span `[begin, end)` of byte offsets inside a buffer.
pub struct ByteRange {
    /// Offset of the first byte of the field.
    pub begin: usize,
    /// Offset one past the last byte of the field.
    pub end: usize,
}

impl ByteRange {
    /// Number of bytes the range covers.
    pub fn get_length_in_bytes(&self) -> (n: usize)
        requires
            self.begin <= self.end,
        ensures
            n == self.end - self.begin,
    {
        self.end - self.begin
    }

    /// A range from `begin` up to but not through `end`.
    pub fn new(begin: usize, end: usize) -> (r: Self)
        ensures
            r.begin == begin,
            r.end == end,
    {
        Self { begin, end }
    }

    /// Copies the bytes of the range out of `buf` verbatim.
    pub fn read_as_bytes<const SIZE: usize>(&self, buf: &[u8]) -> (r: [u8; SIZE])
        requires
            self.begin <= self.end <= buf@.len(),
            self.end - self.begin == SIZE,
        ensures
            r@ == buf@.subrange(self.begin as int, self.end as int),
    {
        let mut r: [u8; SIZE] = [0u8; SIZE];
        let mut i: usize = 0;
        while i < SIZE
            invariant
                i <= SIZE,
                self.begin + SIZE == self.end <= buf@.len(),
                r@.len() == SIZE,
                forall|j: int| 0 <= j < i ==> r@[j] == buf@[self.begin + j],
            decreases SIZE - i,
        {
            r[i] = buf[self.begin + i];
            i = i + 1;
        }
        proof {
            assert(r@ =~= buf@.subrange(self.begin as int, self.end as int));
        }
        r
    }

    /// Reads an integer stored in the dual-endian convention.  The range
    /// holds the value twice, little endian first; only the little-endian
    /// half is consumed.
    pub fn read_as_both_endian<T: FromBothEndian>(&self, buf: &[u8]) -> (r: T)
        requires
            self.begin + T::spec_byte_count() <= buf@.len(),
        ensures
            r == T::spec_from_both_endian(
                buf@.subrange(self.begin as int, self.begin + T::spec_byte_count()),
            ),
    {
        let n = T::byte_count();
        let m: usize = buf.len();
        proof {
            assert(self.begin + n <= m);
        }
        let half = crate::buffer::copy_range(buf, self.begin, self.begin + n);
        let r = T::from_both_endian(half.as_slice());
        proof {
            assert(half@.subrange(0, T::spec_byte_count() as int) =~= half@);
        }
        r
    }

    /// Reads the range as text.  Every pad byte (decimal 32, the space) is
    /// removed first, wherever it stands; the remaining bytes must be valid
    /// UTF-8 or nothing is returned.
    pub fn read_as_string(&self, buf: &[u8]) -> (r: Option<String>)
        requires
            self.begin <= self.end <= buf@.len(),
        ensures
            r is Some <==> vstd::utf8::valid_utf8(
                crate::text::strip_pad(buf@.subrange(self.begin as int, self.end as int)),
            ),
            r matches Some(s) ==> s@ == vstd::utf8::decode_utf8(
                crate::text::strip_pad(buf@.subrange(self.begin as int, self.end as int)),
            ),
    {
        let mut kept: Vec<u8> = Vec::new();
        let mut i: usize = self.begin;
        while i < self.end
            invariant
                self.begin <= i <= self.end <= buf@.len(),
                kept@ == crate::text::strip_pad(buf@.subrange(self.begin as int, i as int)),
            decreases self.end - i,
        {
            proof {
                assert(buf@.subrange(self.begin as int, i + 1).drop_last() =~= buf@.subrange(
                    self.begin as int,
                    i as int,
                ));
                assert(buf@.subrange(self.begin as int, i + 1).last() == buf@[i as int]);
            }
            let b = buf[i];
            if b != 32 {
                kept.push(b);
            }
            i = i + 1;
        }
        crate::text::utf8_to_string(kept.as_slice())
    }

    /// Reads an integer stored little-endian only.
    pub fn read_as_little_endian<T: FromLittleEndian>(&self, buf: &[u8]) -> (r: T)
        requires
            self.begin + T::spec_byte_count() <= buf@.len(),
        ensures
            r == T::spec_from_little_endian(
                buf@.subrange(self.begin as int, self.begin + T::spec_byte_count()),
            ),
    {
        let n = T::byte_count();
        let m: usize = buf.len();
        proof {
            assert(self.begin + n <= m);
        }
        let half = crate::buffer::copy_range(buf, self.begin, self.begin + n);
        let r = T::from_little_endian(half.as_slice());
        proof {
            assert(half@.subrange(0, T::spec_byte_count() as int) =~= half@);
        }
        r
    }
}

} // verus!
