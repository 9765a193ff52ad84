//! The field codec: big-endian u16 and length-prefixed UTF-8 strings,
//! built atop the VarInt codec.

use vstd::prelude::*;
use vstd::utf8::*;
use vstd::string::StrSliceExecFns;
use crate::error::ScanError;
use crate::varint::{
    VarInt,
    varint_bytes,
    varint_at,
    to_unsigned,
    lemma_varint_bytes_len,
    lemma_varint_at_prefix,
};

verus! {

/// The largest byte length a string field may carry on the wire.
pub const STRING_MAX_BYTES: usize = 131068;

/// The largest code-point count a decoded string field may have.
pub const STRING_MAX_CHARS: usize = 32767;

/// A u16 as exactly two bytes, big-endian.
pub open spec fn u16_be(v: u16) -> Seq<u8> {
    seq![(v / 0x100) as u8, (v % 0x100) as u8]
}

/// Serialize a u16 as two big-endian bytes.
pub fn encode_u16(v: u16) -> (r: Vec<u8>)
    ensures
        r@ == u16_be(v),
{
    let mut out: Vec<u8> = Vec::new();
    out.push((v / 0x100) as u8);
    out.push((v % 0x100) as u8);
    proof {
        assert(out@ =~= u16_be(v));
    }
    out
}

/// Read a big-endian u16 at `pos`. Fails only on a short read.
pub fn decode_u16(buf: &Vec<u8>, pos: usize) -> (r: Result<(u16, usize), ScanError>)
    requires
        pos <= buf@.len(),
    ensures
        match r {
            Ok((v, end)) => {
                &&& pos + 2 <= buf@.len()
                &&& end == pos + 2
                &&& u16_be(v) == buf@.subrange(pos as int, pos + 2)
            },
            Err(e) => e == ScanError::Io && pos + 2 > buf@.len(),
        },
{
    if buf.len() < 2 || pos > buf.len() - 2 {
        return Err(ScanError::Io);
    }
    let hi = buf[pos];
    let lo = buf[pos + 1];
    let v: u16 = (hi as u16) * 0x100 + (lo as u16);
    proof {
        assert(u16_be(v) =~= buf@.subrange(pos as int, pos + 2));
    }
    Ok((v, pos + 2))
}

/// A string field on the wire: its UTF-8 byte length as a VarInt, then the
/// bytes themselves, with no terminator.
pub open spec fn string_bytes(b: Seq<u8>) -> Seq<u8> {
    varint_bytes(b.len() as u32) + b
}

/// The string field found at `pos`, if any: the decoded code points and the
/// position just past the field. Absent when the length prefix is missing,
/// negative or over the byte cap, when the buffer holds fewer bytes than it
/// promises, when the bytes are not UTF-8, or when the text is over the
/// code-point cap.
pub open spec fn spec_decode_string(b: Seq<u8>, pos: int) -> Option<(Seq<char>, int)> {
    match varint_at(b, pos) {
        None => None,
        Some((len_u, p)) => {
            if len_u > STRING_MAX_BYTES || p + len_u > b.len() {
                None
            } else {
                let bytes = b.subrange(p, p + len_u);
                if valid_utf8(bytes) && decode_utf8(bytes).len() <= STRING_MAX_CHARS {
                    Some((decode_utf8(bytes), p + len_u))
                } else {
                    None
                }
            }
        },
    }
}

/// Relies on String::from_utf8: it returns the string whose UTF-8 encoding
/// is the given bytes exactly when those bytes are valid UTF-8.
#[verifier::external_body]
fn string_from_utf8(bytes: Vec<u8>) -> (r: Option<String>)
    ensures
        match r {
            Some(s) => valid_utf8(bytes@) && s@ == decode_utf8(bytes@),
            None => !valid_utf8(bytes@),
        },
{
    String::from_utf8(bytes).ok()
}

/// Serialize a string: its UTF-8 byte length as a VarInt, then its bytes.
pub fn encode_string(s: &str) -> (r: Vec<u8>)
    requires
        encode_utf8(s@).len() <= 0x7FFF_FFFF,
    ensures
        r@ == string_bytes(encode_utf8(s@)),
{
    let mut bytes = s.as_bytes_vec();
    let mut out = VarInt(bytes.len() as i32).encode();
    out.append(&mut bytes);
    proof {
        assert(out@ =~= string_bytes(encode_utf8(s@)));
    }
    out
}

/// Read a string field at `pos`: a VarInt byte length, then that many UTF-8
/// bytes, capped at 131068 bytes and 32767 code points.
pub fn decode_string(buf: &Vec<u8>, pos: usize) -> (r: Result<(String, usize), ScanError>)
    requires
        pos <= buf@.len(),
    ensures
        match r {
            Ok((s, end)) => {
                &&& spec_decode_string(buf@, pos as int) == Some((s@, end as int))
                &&& pos < end <= buf@.len()
            },
            Err(e) => {
                &&& spec_decode_string(buf@, pos as int) is None
                &&& (e == ScanError::Protocol || e == ScanError::Utf8)
            },
        },
{
    let (lv, p) = match VarInt::decode(buf, pos) {
        Ok(x) => x,
        Err(_) => {
            return Err(ScanError::Protocol);
        },
    };
    if lv.0 < 0 {
        return Err(ScanError::Protocol);
    }
    let l = lv.0 as usize;
    if l > STRING_MAX_BYTES {
        return Err(ScanError::Protocol);
    }
    if l > buf.len() - p {
        return Err(ScanError::Protocol);
    }
    let n = buf.len();
    let mut bytes: Vec<u8> = Vec::new();
    let mut j: usize = 0;
    while j < l
        invariant
            0 <= j <= l,
            n == buf@.len(),
            p + l <= n,
            bytes@ =~= buf@.subrange(p as int, p + j),
        decreases l - j,
    {
        bytes.push(buf[p + j]);
        proof {
            assert(bytes@ =~= buf@.subrange(p as int, p + j + 1));
        }
        j = j + 1;
    }
    let s = match string_from_utf8(bytes) {
        Some(s) => s,
        None => {
            return Err(ScanError::Utf8);
        },
    };
    if s.as_str().unicode_len() > STRING_MAX_CHARS {
        return Err(ScanError::Protocol);
    }
    Ok((s, p + l))
}

/// The UTF-8 encoding of a code point is one to four bytes, so a text's
/// encoding is at most four bytes per code point.
pub proof fn lemma_encode_utf8_len(chars: Seq<char>)
    ensures
        encode_utf8(chars).len() <= 4 * chars.len(),
    decreases chars.len(),
{
    if chars.len() > 0 {
        lemma_encode_utf8_len(chars.drop_first());
    }
}

/// String round trip: a text of at most 32767 code points decodes from its
/// own serialized form, consuming that form whole.
pub proof fn lemma_string_round_trip(s: Seq<char>)
    requires
        s.len() <= STRING_MAX_CHARS,
    ensures
        ({
            let b = string_bytes(encode_utf8(s));
            &&& b.len() <= 5 + encode_utf8(s).len()
            &&& spec_decode_string(b, 0) == Some((s, b.len() as int))
        }),
{
    broadcast use encode_utf8_valid_utf8;
    broadcast use encode_utf8_decode_utf8;

    let eb = encode_utf8(s);
    lemma_encode_utf8_len(s);
    let lu = eb.len() as u32;
    let lv = varint_bytes(lu);
    let b = string_bytes(eb);
    lemma_varint_bytes_len(lu);
    assert(b.subrange(0, lv.len() as int) =~= lv);
    lemma_varint_at_prefix(b, lu, 0);
    assert(b.subrange(lv.len() as int, lv.len() + lu) =~= eb);
    assert(valid_utf8(eb));
    assert(decode_utf8(eb) == s);
}

} // verus!
