//! Text support: UTF-8 decoding of byte ranges and decimal formatting.

use vstd::prelude::*;
use vstd::utf8::decode_utf8;
use vstd::utf8::encode_utf8;
use vstd::utf8::is_ascii_chars;
use vstd::utf8::is_ascii_chars_encode_utf8;
use vstd::utf8::encode_utf8_valid_utf8;
use vstd::utf8::encode_utf8_decode_utf8;
use vstd::utf8::valid_utf8;

verus! {

/// The characters of an ASCII byte sequence, one character per byte.
pub open spec fn ascii_chars(bytes: Seq<u8>) -> Seq<char> {
    Seq::new(bytes.len(), |i: int| bytes[i] as char)
}

/// ASCII bytes are valid UTF-8 and decode to one character per byte.
pub proof fn lemma_ascii_bytes_decode(bytes: Seq<u8>)
    requires
        forall|i: int| 0 <= i < bytes.len() ==> bytes[i] < 128,
    ensures
        valid_utf8(bytes),
        decode_utf8(bytes) == ascii_chars(bytes),
{
    let cs = ascii_chars(bytes);
    assert forall|i: int| 0 <= i < cs.len() implies '\0' <= #[trigger] cs[i] <= '\u{7f}' by {
        assert(cs[i] as u32 == bytes[i]);
    }
    assert(is_ascii_chars(cs));
    is_ascii_chars_encode_utf8(cs);
    assert(encode_utf8(cs) =~= bytes);
    encode_utf8_valid_utf8(cs);
    encode_utf8_decode_utf8(cs);
}

/// Relies on `core::str::from_utf8`: it returns `Ok` exactly when the bytes
/// are valid UTF-8, and the returned text consists of those bytes.
#[verifier::external_body]
pub fn utf8_to_string(bytes: &[u8]) -> (r: Option<String>)
    ensures
        r is Some <==> valid_utf8(bytes@),
        r matches Some(s) ==> s@ == decode_utf8(bytes@),
{
    match core::str::from_utf8(bytes) {
        Ok(s) => Some(s.to_owned()),
        Err(_) => None,
    }
}

/// Builds the string spelled by a sequence of ASCII bytes.
pub fn ascii_to_string(bytes: &[u8]) -> (r: String)
    requires
        forall|i: int| 0 <= i < bytes@.len() ==> bytes@[i] < 128,
    ensures
        r@ == ascii_chars(bytes@),
{
    proof {
        lemma_ascii_bytes_decode(bytes@);
    }
    let o = utf8_to_string(bytes);
    o.unwrap()
}

/// `s` with every pad byte (decimal 32) removed, order otherwise kept.
pub open spec fn strip_pad(s: Seq<u8>) -> Seq<u8>
    decreases s.len(),
{
    if s.len() == 0 {
        Seq::empty()
    } else {
        let rest = strip_pad(s.drop_last());
        if s.last() == 32 {
            rest
        } else {
            rest.push(s.last())
        }
    }
}

/// Removing pads changes nothing when there is no pad to remove.
pub proof fn lemma_strip_pad_all_kept(s: Seq<u8>)
    requires
        forall|i: int| 0 <= i < s.len() ==> s[i] != 32,
    ensures
        strip_pad(s) == s,
    decreases s.len(),
{
    if s.len() == 0 {
        assert(strip_pad(s) =~= s);
    } else {
        assert forall|i: int| 0 <= i < s.drop_last().len() implies s.drop_last()[i] != 32 by {
            assert(s.drop_last()[i] == s[i]);
        }
        lemma_strip_pad_all_kept(s.drop_last());
        assert(strip_pad(s) =~= s);
    }
}

/// A run of pads at the end vanishes under pad removal.
pub proof fn lemma_strip_pad_pad_tail(s: Seq<u8>, pads: Seq<u8>)
    requires
        forall|i: int| 0 <= i < pads.len() ==> pads[i] == 32,
    ensures
        strip_pad(s + pads) == strip_pad(s),
    decreases pads.len(),
{
    if pads.len() == 0 {
        assert(s + pads =~= s);
    } else {
        assert((s + pads).drop_last() =~= s + pads.drop_last());
        assert((s + pads).last() == 32);
        assert forall|i: int| 0 <= i < pads.drop_last().len() implies pads.drop_last()[i]
            == 32 by {
            assert(pads.drop_last()[i] == pads[i]);
        }
        lemma_strip_pad_pad_tail(s, pads.drop_last());
    }
}

/// The character for a single decimal digit.
pub open spec fn dec_digit(d: int) -> char {
    ((48 + d) as u8) as char
}

/// `n` in decimal, padded with `'0'` on the left to at least two characters.
/// A value of one hundred or more keeps all three digits.
pub open spec fn dec2_chars(n: int) -> Seq<char> {
    if n < 100 {
        seq![dec_digit(n / 10), dec_digit(n % 10)]
    } else {
        seq![dec_digit(n / 100), dec_digit((n / 10) % 10), dec_digit(n % 10)]
    }
}

/// A four-digit decimal number, most significant digit first.
pub open spec fn dec4_chars(n: int) -> Seq<char> {
    seq![
        dec_digit(n / 1000),
        dec_digit((n / 100) % 10),
        dec_digit((n / 10) % 10),
        dec_digit(n % 10),
    ]
}

/// Appends the ASCII bytes of `dec2_chars(n as int)` to `out`.
pub fn push_dec2_bytes(out: &mut Vec<u8>, n: u8)
    ensures
        final(out)@ == old(out)@ + dec2_bytes(n as int),
        final(out)@.len() <= old(out)@.len() + 3,
{
    let ghost prior = out@;
    if n < 100 {
        out.push(48 + n / 10);
        out.push(48 + n % 10);
    } else {
        out.push(48 + n / 100);
        out.push(48 + (n / 10) % 10);
        out.push(48 + n % 10);
    }
    proof {
        assert(out@ =~= prior + dec2_bytes(n as int));
    }
}

/// The ASCII bytes of `dec2_chars(n)`.
pub open spec fn dec2_bytes(n: int) -> Seq<u8> {
    if n < 100 {
        seq![(48 + n / 10) as u8, (48 + n % 10) as u8]
    } else {
        seq![(48 + n / 100) as u8, (48 + (n / 10) % 10) as u8, (48 + n % 10) as u8]
    }
}

/// The ASCII bytes of `dec4_chars(n)`.
pub open spec fn dec4_bytes(n: int) -> Seq<u8> {
    seq![
        (48 + n / 1000) as u8,
        (48 + (n / 100) % 10) as u8,
        (48 + (n / 10) % 10) as u8,
        (48 + n % 10) as u8,
    ]
}

/// Appends the ASCII bytes of `dec4_chars(n as int)` to `out`.
pub fn push_dec4_bytes(out: &mut Vec<u8>, n: u16)
    requires
        n <= 9999,
    ensures
        final(out)@ == old(out)@ + dec4_bytes(n as int),
{
    let ghost prior = out@;
    out.push(48 + (n / 1000) as u8);
    out.push(48 + ((n / 100) % 10) as u8);
    out.push(48 + ((n / 10) % 10) as u8);
    out.push(48 + (n % 10) as u8);
    proof {
        assert(out@ =~= prior + dec4_bytes(n as int));
    }
}

} // verus!
