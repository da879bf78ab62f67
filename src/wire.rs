//! The fixed-width, byte-range and string forms of the wire format as
//! mathematics: what a writer appends, and what a reader takes from the head
//! of a byte sequence together with the bytes it leaves.
use vstd::prelude::*;
use vstd::utf8::{decode_utf8, encode_utf8, valid_utf8};
use crate::varint::{parse_varint, varint_bytes};

verus! {

/// Two bytes, most significant first.
pub open spec fn be16(a: u8, b: u8) -> u16 {
    ((a as u16) << 8u16) | (b as u16)
}

/// Four bytes, most significant first.
pub open spec fn be32(a: u8, b: u8, c: u8, d: u8) -> u32 {
    ((a as u32) << 24u32) | ((b as u32) << 16u32) | ((c as u32) << 8u32) | (d as u32)
}

/// Eight bytes, most significant first.
pub open spec fn be64(s: Seq<u8>) -> u64 {
    ((s[0] as u64) << 56u64) | ((s[1] as u64) << 48u64) | ((s[2] as u64) << 40u64) | ((
    s[3] as u64) << 32u64) | ((s[4] as u64) << 24u64) | ((s[5] as u64) << 16u64) | ((
    s[6] as u64) << 8u64) | (s[7] as u64)
}

pub open spec fn be16_bytes(v: u16) -> Seq<u8> {
    seq![(v >> 8u16) as u8, v as u8]
}

pub open spec fn be32_bytes(v: u32) -> Seq<u8> {
    seq![(v >> 24u32) as u8, (v >> 16u32) as u8, (v >> 8u32) as u8, v as u8]
}

pub open spec fn be64_bytes(v: u64) -> Seq<u8> {
    seq![
        (v >> 56u64) as u8,
        (v >> 48u64) as u8,
        (v >> 40u64) as u8,
        (v >> 32u64) as u8,
        (v >> 24u64) as u8,
        (v >> 16u64) as u8,
        (v >> 8u64) as u8,
        v as u8,
    ]
}

/// The first `n` bytes and the rest.
pub open spec fn parse_bytes(s: Seq<u8>, n: int) -> Option<(Seq<u8>, Seq<u8>)> {
    if 0 <= n <= s.len() {
        Some((s.take(n), s.skip(n)))
    } else {
        None
    }
}

pub open spec fn parse_u8(s: Seq<u8>) -> Option<(u8, Seq<u8>)> {
    if s.len() >= 1 {
        Some((s[0], s.skip(1)))
    } else {
        None
    }
}

pub open spec fn parse_u16(s: Seq<u8>) -> Option<(u16, Seq<u8>)> {
    if s.len() >= 2 {
        Some((be16(s[0], s[1]), s.skip(2)))
    } else {
        None
    }
}

pub open spec fn parse_u32(s: Seq<u8>) -> Option<(u32, Seq<u8>)> {
    if s.len() >= 4 {
        Some((be32(s[0], s[1], s[2], s[3]), s.skip(4)))
    } else {
        None
    }
}

pub open spec fn parse_u64(s: Seq<u8>) -> Option<(u64, Seq<u8>)> {
    if s.len() >= 8 {
        Some((be64(s), s.skip(8)))
    } else {
        None
    }
}

/// A UUID: the most significant 64 bits first.
pub open spec fn parse_uuid(s: Seq<u8>) -> Option<(u128, Seq<u8>)> {
    match parse_u64(s) {
        Some((hi, r)) => match parse_u64(r) {
            Some((lo, r2)) => Some(((((hi as u128) << 64u128) | (lo as u128)), r2)),
            None => None,
        },
        None => None,
    }
}

/// `n` bytes of UTF-8 decoded, after a length that `len` parsed.
pub open spec fn parse_utf8(n: int, s: Seq<u8>) -> Option<(Seq<char>, Seq<u8>)> {
    match parse_bytes(s, n) {
        Some((b, r)) => if valid_utf8(b) {
            Some((decode_utf8(b), r))
        } else {
            None
        },
        None => None,
    }
}

/// A string with a VarInt length in bytes.
pub open spec fn parse_string(s: Seq<u8>) -> Option<(Seq<char>, Seq<u8>)> {
    match parse_varint(s) {
        Some((n, r)) => parse_utf8(n as int, r),
        None => None,
    }
}

/// A string with a big-endian unsigned 16-bit length in bytes.
pub open spec fn parse_string_ushort(s: Seq<u8>) -> Option<(Seq<char>, Seq<u8>)> {
    match parse_u16(s) {
        Some((n, r)) => parse_utf8(n as int, r),
        None => None,
    }
}

/// The bytes `write_string` appends.
pub open spec fn string_bytes(c: Seq<char>) -> Seq<u8> {
    varint_bytes(encode_utf8(c).len() as i32) + encode_utf8(c)
}

/// The bytes of a string with a 16-bit length.
pub open spec fn string_ushort_bytes(c: Seq<char>) -> Seq<u8> {
    be16_bytes(encode_utf8(c).len() as u16) + encode_utf8(c)
}

pub proof fn lemma_be16_round_trip(v: u16)
    ensures
        be16((v >> 8u16) as u8, v as u8) == v,
{
    assert(((((v >> 8u16) as u8) as u16) << 8u16) | ((v as u8) as u16) == v) by (bit_vector);
}

pub proof fn lemma_be32_round_trip(v: u32)
    ensures
        be32((v >> 24u32) as u8, (v >> 16u32) as u8, (v >> 8u32) as u8, v as u8) == v,
{
    assert(((((v >> 24u32) as u8) as u32) << 24u32) | ((((v >> 16u32) as u8) as u32) << 16u32)
        | ((((v >> 8u32) as u8) as u32) << 8u32) | ((v as u8) as u32) == v) by (bit_vector);
}

pub proof fn lemma_be64_round_trip(v: u64)
    ensures
        be64(be64_bytes(v)) == v,
{
    let s = be64_bytes(v);
    assert(((((v >> 56u64) as u8) as u64) << 56u64) | ((((v >> 48u64) as u8) as u64) << 48u64)
        | ((((v >> 40u64) as u8) as u64) << 40u64) | ((((v >> 32u64) as u8) as u64) << 32u64)
        | ((((v >> 24u64) as u8) as u64) << 24u64) | ((((v >> 16u64) as u8) as u64) << 16u64)
        | ((((v >> 8u64) as u8) as u64) << 8u64) | ((v as u8) as u64) == v) by (bit_vector);
}

/// String round trip: reading what `write_string` appends for `c`, followed by
/// any bytes, gives back `c` and leaves those bytes.
pub proof fn lemma_string_round_trip(c: Seq<char>, rest: Seq<u8>)
    requires
        encode_utf8(c).len() <= i32::MAX,
    ensures
        parse_string(string_bytes(c) + rest) == Some((c, rest)),
{
    let e = encode_utf8(c);
    crate::varint::lemma_varint_round_trip(e.len() as i32, e + rest);
    assert(string_bytes(c) + rest =~= varint_bytes(e.len() as i32) + (e + rest));
    assert((e + rest).take(e.len() as int) =~= e);
    assert((e + rest).skip(e.len() as int) =~= rest);
    vstd::utf8::encode_utf8_valid_utf8(c);
    vstd::utf8::encode_utf8_decode_utf8(c);
}

/// The same for the 16-bit-length form.
pub proof fn lemma_string_ushort_round_trip(c: Seq<char>, rest: Seq<u8>)
    requires
        encode_utf8(c).len() <= u16::MAX,
    ensures
        parse_string_ushort(string_ushort_bytes(c) + rest) == Some((c, rest)),
{
    let e = encode_utf8(c);
    let s = string_ushort_bytes(c) + rest;
    lemma_be16_round_trip(e.len() as u16);
    assert(s.skip(2) =~= e + rest);
    assert((e + rest).take(e.len() as int) =~= e);
    assert((e + rest).skip(e.len() as int) =~= rest);
    vstd::utf8::encode_utf8_valid_utf8(c);
    vstd::utf8::encode_utf8_decode_utf8(c);
}

} // verus!
