//! Frames: `[VarInt length][VarInt id][body]`, and once a compression
//! threshold is in effect `[VarInt length][VarInt data length][payload]`,
//! where the payload is zlib-compressed when the data length is not zero.
use vstd::prelude::*;
use vstd::string::StringExecFns;
use crate::error::PacketError;
use crate::packet::RawPacket;
use crate::varint::{lemma_varint_round_trip, parse_varint, varint_bytes};

verus! {

/// The zlib stream that flate2's encoder (default level) makes of `data`.
pub uninterp spec fn zlib_deflated(data: Seq<u8>) -> Seq<u8>;

/// What flate2's zlib decoder gives back from `data`: `None` when `data` is
/// not a zlib stream.
pub uninterp spec fn zlib_inflated(data: Seq<u8>) -> Option<Seq<u8>>;

/// Relies on `flate2::write::ZlibEncoder` with `Compression::default()`,
/// writing into a `Vec` (which cannot fail): the result is the zlib stream of
/// `data`, and depends on `data` alone.
#[verifier::external_body]
fn zlib_compress(data: &Vec<u8>) -> (r: Vec<u8>)
    ensures
        r@ == zlib_deflated(data@),
{
    let mut e = flate2::write::ZlibEncoder::new(Vec::new(), flate2::Compression::default());
    std::io::Write::write_all(&mut e, data.as_slice()).ok();
    e.finish().unwrap_or_default()
}

/// Relies on `flate2::read::ZlibDecoder` read to the end: it fails on what is
/// not a zlib stream, and gives back exactly the bytes that `ZlibEncoder`
/// compressed.
#[verifier::external_body]
fn zlib_decompress(data: &Vec<u8>) -> (r: Option<Vec<u8>>)
    ensures
        r matches Some(v) ==> zlib_inflated(data@) == Some(v@),
        r is None ==> zlib_inflated(data@) is None,
        (forall|x: Seq<u8>| #[trigger] zlib_deflated(x) == data@ ==> r is Some && r->0@ == x),
{
    let mut d = flate2::read::ZlibDecoder::new(data.as_slice());
    let mut out = Vec::new();
    match std::io::Read::read_to_end(&mut d, &mut out) {
        Ok(_) => Some(out),
        Err(_) => None,
    }
}

/// The id and body of a packet, before any compression.
pub open spec fn frame_payload(id: i32, body: Seq<u8>) -> Seq<u8> {
    varint_bytes(id) + body
}

/// Whether a frame at `threshold` compresses its payload.
pub open spec fn frame_compresses(id: i32, body: Seq<u8>, threshold: i32) -> bool {
    threshold > 0 && frame_payload(id, body).len() >= threshold
}

/// What follows the length prefix of a frame.
pub open spec fn frame_inner(id: i32, body: Seq<u8>, threshold: i32) -> Seq<u8> {
    let p = frame_payload(id, body);
    if threshold > 0 {
        if p.len() >= threshold {
            varint_bytes(p.len() as i32) + zlib_deflated(p)
        } else {
            varint_bytes(0) + p
        }
    } else {
        p
    }
}

/// Whether the lengths of the frame fit a VarInt.
pub open spec fn frame_fits(id: i32, body: Seq<u8>, threshold: i32) -> bool {
    &&& frame_payload(id, body).len() <= i32::MAX
    &&& frame_inner(id, body, threshold).len() <= i32::MAX
}

/// The bytes of a whole frame.
pub open spec fn frame_bytes(id: i32, body: Seq<u8>, threshold: i32) -> Seq<u8> {
    varint_bytes(frame_inner(id, body, threshold).len() as i32) + frame_inner(id, body, threshold)
}

/// The id and body that the content of a frame carries. Once a threshold is
/// in effect the data length alone selects raw or compressed content.
pub open spec fn parse_frame_inner(inner: Seq<u8>, threshold: i32) -> Option<(i32, Seq<u8>)> {
    if threshold > 0 {
        match parse_varint(inner) {
            Some((data_len, p)) => if data_len == 0 {
                parse_varint(p)
            } else {
                match zlib_inflated(p) {
                    Some(x) => parse_varint(x),
                    None => None,
                }
            },
            None => None,
        }
    } else {
        parse_varint(inner)
    }
}

/// The id and body of the frame at the head of `wire`; bytes after the frame
/// are not looked at.
pub open spec fn parse_frame(wire: Seq<u8>, threshold: i32) -> Option<(i32, Seq<u8>)> {
    match parse_varint(wire) {
        Some((n, r)) => if 0 <= n <= r.len() {
            parse_frame_inner(r.take(n as int), threshold)
        } else {
            None
        },
        None => None,
    }
}

/// The layers of an encoded frame, as a reader meets them.
proof fn lemma_frame_layers(id: i32, body: Seq<u8>, threshold: i32)
    requires
        frame_fits(id, body, threshold),
    ensures
        parse_varint(frame_bytes(id, body, threshold)) == Some(
            (
                frame_inner(id, body, threshold).len() as i32,
                frame_inner(id, body, threshold),
            ),
        ),
        parse_varint(frame_payload(id, body)) == Some((id, body)),
        frame_compresses(id, body, threshold) ==> parse_varint(frame_inner(id, body, threshold))
            == Some(
            (
                frame_payload(id, body).len() as i32,
                zlib_deflated(frame_payload(id, body)),
            ),
        ) && frame_payload(id, body).len() as i32 != 0,
        threshold > 0 && !frame_compresses(id, body, threshold) ==> parse_varint(
            frame_inner(id, body, threshold),
        ) == Some((0i32, frame_payload(id, body))),
        threshold <= 0 ==> frame_inner(id, body, threshold) == frame_payload(id, body),
{
    let p = frame_payload(id, body);
    let inner = frame_inner(id, body, threshold);
    lemma_varint_round_trip(inner.len() as i32, inner);
    lemma_varint_round_trip(id, body);
    if threshold > 0 {
        if p.len() >= threshold {
            lemma_varint_round_trip(p.len() as i32, zlib_deflated(p));
        } else {
            lemma_varint_round_trip(0, p);
        }
    }
}

/// Appends a copy of `src` to `dst`.
fn append_copy(dst: &mut Vec<u8>, src: &Vec<u8>)
    ensures
        final(dst)@ == old(dst)@ + src@,
{
    let mut i: usize = 0;
    while i < src.len()
        invariant
            i <= src@.len(),
            dst@ == old(dst)@ + src@.take(i as int),
        decreases src@.len() - i,
    {
        dst.push(src[i]);
        i = i + 1;
        assert(dst@ =~= old(dst)@ + src@.take(i as int));
    }
    assert(src@.take(i as int) =~= src@);
}

/// Prefixes `inner` with its length, when the length fits a VarInt.
fn length_prefixed(inner: Vec<u8>) -> (r: Option<Vec<u8>>)
    ensures
        inner@.len() <= i32::MAX ==> (r matches Some(v) && v@ == varint_bytes(
            inner@.len() as i32,
        ) + inner@),
        inner@.len() > i32::MAX ==> r is None,
{
    if inner.len() > i32::MAX as usize {
        return None;
    }
    let mut out = RawPacket::empty(0);
    out.write_varint(inner.len() as i32);
    out.write_bytes(inner);
    Some(out.data)
}

/// Encodes a packet as a frame at the given compression threshold (`<= 0`:
/// no compression). `None` when a length does not fit a VarInt.
pub fn encode_frame(packet: &RawPacket, threshold: i32) -> (r: Option<Vec<u8>>)
    ensures
        r is Some <==> frame_fits(packet.id, packet.data@, threshold),
        r matches Some(v) ==> v@ == frame_bytes(packet.id, packet.data@, threshold),
{
    let ghost p = frame_payload(packet.id, packet.data@);
    let mut payload = RawPacket::empty(0);
    payload.write_varint(packet.id);
    append_copy(&mut payload.data, &packet.data);
    assert(payload.data@ == p);
    let plen = payload.data.len();
    if plen > i32::MAX as usize {
        return None;
    }
    if threshold > 0 {
        if plen >= threshold as usize {
            let compressed = zlib_compress(&payload.data);
            let mut inner = RawPacket::empty(0);
            inner.write_varint(plen as i32);
            inner.write_bytes(compressed);
            assert(inner.data@ == frame_inner(packet.id, packet.data@, threshold));
            length_prefixed(inner.data)
        } else {
            let mut inner = RawPacket::empty(0);
            inner.write_varint(0);
            inner.write_bytes(payload.data);
            assert(inner.data@ == frame_inner(packet.id, packet.data@, threshold));
            length_prefixed(inner.data)
        }
    } else {
        length_prefixed(payload.data)
    }
}

fn bad_frame() -> (r: PacketError) {
    PacketError::text(String::from_str("malformed frame"))
}

/// Reads the id that heads `inner` and keeps the rest as the body.
fn split_id(inner: Vec<u8>) -> (r: Result<RawPacket, PacketError>)
    ensures
        match parse_varint(inner@) {
            Some((id, body)) => r matches Ok(p) && p.id == id && p.data@ == body,
            None => r is Err,
        },
{
    let mut p = RawPacket::new(0, inner);
    match p.try_read_varint() {
        Some(id) => {
            p.id = id;
            Ok(p)
        },
        None => Err(bad_frame()),
    }
}

/// Decodes the frame at the head of `wire`, read at the given compression
/// threshold (`<= 0`: no compression).
///
/// A frame that `encode_frame` made at the same threshold gives back the
/// packet it was made from.
pub fn decode_frame(wire: Vec<u8>, threshold: i32) -> (r: Result<RawPacket, PacketError>)
    ensures
        match parse_frame(wire@, threshold) {
            Some((id, body)) => r matches Ok(p) && p.id == id && p.data@ == body,
            None => r is Err,
        },
        forall|id: i32, body: Seq<u8>|
            frame_fits(id, body, threshold) && #[trigger] frame_bytes(id, body, threshold)
                == wire@ ==> (r matches Ok(p) && p.id == id && p.data@ == body),
{
    let ghost w = wire@;
    let mut outer = RawPacket::new(0, wire);
    let n = match outer.try_read_varint() {
        Some(n) => n,
        None => {
            proof {
                assert forall|id: i32, body: Seq<u8>|
                    frame_fits(id, body, threshold) && #[trigger] frame_bytes(
                        id,
                        body,
                        threshold,
                    ) == w implies false by {
                    lemma_frame_layers(id, body, threshold);
                }
            }
            return Err(bad_frame());
        },
    };
    if n < 0 || n as u32 as usize > outer.data.len() {
        proof {
            assert forall|id: i32, body: Seq<u8>|
                frame_fits(id, body, threshold) && #[trigger] frame_bytes(id, body, threshold)
                    == w implies false by {
                lemma_frame_layers(id, body, threshold);
            }
        }
        return Err(bad_frame());
    }
    let mut data = outer.data;
    data.truncate(n as u32 as usize);
    let ghost inner0 = data@;
    assert forall|id: i32, body: Seq<u8>|
        frame_fits(id, body, threshold) && #[trigger] frame_bytes(id, body, threshold)
            == w implies inner0 == frame_inner(id, body, threshold) by {
        lemma_frame_layers(id, body, threshold);
        assert(frame_inner(id, body, threshold).take(n as int) =~= frame_inner(id, body, threshold));
    }
    if threshold <= 0 {
        proof {
            assert forall|id: i32, body: Seq<u8>|
                frame_fits(id, body, threshold) && #[trigger] frame_bytes(id, body, threshold)
                    == w implies parse_varint(inner0) == Some((id, body)) by {
                lemma_frame_layers(id, body, threshold);
            }
        }
        return split_id(data);
    }
    let mut inner = RawPacket::new(0, data);
    let data_len = match inner.try_read_varint() {
        Some(d) => d,
        None => {
            proof {
                assert forall|id: i32, body: Seq<u8>|
                    frame_fits(id, body, threshold) && #[trigger] frame_bytes(
                        id,
                        body,
                        threshold,
                    ) == w implies false by {
                    lemma_frame_layers(id, body, threshold);
                }
            }
            return Err(bad_frame());
        },
    };
    if data_len == 0 {
        proof {
            assert forall|id: i32, body: Seq<u8>|
                frame_fits(id, body, threshold) && #[trigger] frame_bytes(id, body, threshold)
                    == w implies parse_varint(inner.data@) == Some((id, body)) by {
                lemma_frame_layers(id, body, threshold);
            }
        }
        return split_id(inner.data);
    }
    match zlib_decompress(&inner.data) {
        Some(x) => {
            proof {
                assert forall|id: i32, body: Seq<u8>|
                    frame_fits(id, body, threshold) && #[trigger] frame_bytes(
                        id,
                        body,
                        threshold,
                    ) == w implies parse_varint(x@) == Some((id, body)) by {
                    lemma_frame_layers(id, body, threshold);
                    assert(zlib_deflated(frame_payload(id, body)) == inner.data@);
                }
            }
            split_id(x)
        },
        None => {
            proof {
                assert forall|id: i32, body: Seq<u8>|
                    frame_fits(id, body, threshold) && #[trigger] frame_bytes(
                        id,
                        body,
                        threshold,
                    ) == w implies false by {
                    lemma_frame_layers(id, body, threshold);
                    assert(zlib_deflated(frame_payload(id, body)) == inner.data@);
                }
            }
            Err(bad_frame())
        },
    }
}

/// Once compression is on, a frame is read the same way whatever the
/// threshold's value: its data length alone selects raw content (zero) or
/// compressed content (anything else).
pub proof fn lemma_receive_selects_by_data_len(wire: Seq<u8>, t1: i32, t2: i32)
    requires
        t1 > 0,
        t2 > 0,
    ensures
        parse_frame(wire, t1) == parse_frame(wire, t2),
        forall|inner: Seq<u8>|
            #[trigger] parse_frame_inner(inner, t1) == match parse_varint(inner) {
                Some((data_len, p)) => if data_len == 0 {
                    parse_varint(p)
                } else {
                    match zlib_inflated(p) {
                        Some(x) => parse_varint(x),
                        None => None,
                    }
                },
                None => None,
            },
{
}

} // verus!
