//! NBT (Named Binary Tag) trees: the recursive tagged format that carries
//! structured game data, with a decoder from and an encoder to packet bytes.
use vstd::prelude::*;
use vstd::string::StringExecFns;
use vstd::utf8::encode_utf8;
use crate::packet::RawPacket;
use crate::wire::{
    be16_bytes, be32_bytes, be64_bytes, parse_string_ushort, parse_u16, parse_u32, parse_u64,
    parse_u8, string_ushort_bytes,
};

verus! {

broadcast use vstd::std_specs::vec::group_vec_axioms;

pub const TAG_END: u8 = 0;
pub const TAG_BYTE: u8 = 1;
pub const TAG_SHORT: u8 = 2;
pub const TAG_INT: u8 = 3;
pub const TAG_LONG: u8 = 4;
pub const TAG_FLOAT: u8 = 5;
pub const TAG_DOUBLE: u8 = 6;
pub const TAG_BYTE_ARRAY: u8 = 7;
pub const TAG_STRING: u8 = 8;
pub const TAG_LIST: u8 = 9;
pub const TAG_COMPOUND: u8 = 10;
pub const TAG_INT_ARRAY: u8 = 11;
pub const TAG_LONG_ARRAY: u8 = 12;

/// The entries of a compound, in the order they were read or added.
#[derive(Debug)]
pub struct NBTCompound {
    pub data: Vec<(String, NBTType)>,
}

/// An NBT value. Floating-point payloads are held as their IEEE-754 bit
/// patterns.
#[derive(Debug)]
pub enum NBTType {
    End,
    Byte(i8),
    Short(i16),
    Int(i32),
    Long(i64),
    Float(u32),
    Double(u64),
    ByteArray(Vec<i8>),
    String(String),
    List(Vec<NBTType>),
    Compound(NBTCompound),
    IntArray(Vec<i32>),
    LongArray(Vec<i64>),
}

/// The mathematical value of an NBT tree.
pub enum Nbt {
    End,
    Byte(i8),
    Short(i16),
    Int(i32),
    Long(i64),
    Float(u32),
    Double(u64),
    ByteArray(Seq<i8>),
    Str(Seq<char>),
    List(Seq<Nbt>),
    Compound(Seq<(Seq<char>, Nbt)>),
    IntArray(Seq<i32>),
    LongArray(Seq<i64>),
}

/// The value of an exec tree.
pub open spec fn nbt_view(t: NBTType) -> Nbt
    decreases t,
{
    match t {
        NBTType::End => Nbt::End,
        NBTType::Byte(v) => Nbt::Byte(v),
        NBTType::Short(v) => Nbt::Short(v),
        NBTType::Int(v) => Nbt::Int(v),
        NBTType::Long(v) => Nbt::Long(v),
        NBTType::Float(v) => Nbt::Float(v),
        NBTType::Double(v) => Nbt::Double(v),
        NBTType::ByteArray(v) => Nbt::ByteArray(v@),
        NBTType::String(s) => Nbt::Str(s@),
        NBTType::List(v) => Nbt::List(items_view(v@)),
        NBTType::Compound(c) => Nbt::Compound(entries_view(c.data@)),
        NBTType::IntArray(v) => Nbt::IntArray(v@),
        NBTType::LongArray(v) => Nbt::LongArray(v@),
    }
}

pub open spec fn items_view(s: Seq<NBTType>) -> Seq<Nbt>
    decreases s,
{
    if s.len() == 0 {
        Seq::empty()
    } else {
        items_view(s.drop_last()).push(nbt_view(s.last()))
    }
}

pub open spec fn entries_view(s: Seq<(String, NBTType)>) -> Seq<(Seq<char>, Nbt)>
    decreases s,
{
    if s.len() == 0 {
        Seq::empty()
    } else {
        entries_view(s.drop_last()).push((s.last().0@, nbt_view(s.last().1)))
    }
}

/// The type tag of a value.
pub open spec fn tag_of(t: Nbt) -> u8 {
    match t {
        Nbt::End => TAG_END,
        Nbt::Byte(_) => TAG_BYTE,
        Nbt::Short(_) => TAG_SHORT,
        Nbt::Int(_) => TAG_INT,
        Nbt::Long(_) => TAG_LONG,
        Nbt::Float(_) => TAG_FLOAT,
        Nbt::Double(_) => TAG_DOUBLE,
        Nbt::ByteArray(_) => TAG_BYTE_ARRAY,
        Nbt::Str(_) => TAG_STRING,
        Nbt::List(_) => TAG_LIST,
        Nbt::Compound(_) => TAG_COMPOUND,
        Nbt::IntArray(_) => TAG_INT_ARRAY,
        Nbt::LongArray(_) => TAG_LONG_ARRAY,
    }
}

/// The element tag written for a list: that of its items, End when empty.
pub open spec fn list_tag(items: Seq<Nbt>) -> u8 {
    if items.len() == 0 {
        TAG_END
    } else {
        tag_of(items[0])
    }
}

pub open spec fn i8s_bytes(a: Seq<i8>) -> Seq<u8> {
    a.map_values(|b: i8| b as u8)
}

pub open spec fn i32s_bytes(a: Seq<i32>) -> Seq<u8>
    decreases a.len(),
{
    if a.len() == 0 {
        Seq::empty()
    } else {
        be32_bytes(a[0] as u32) + i32s_bytes(a.drop_first())
    }
}

pub open spec fn i64s_bytes(a: Seq<i64>) -> Seq<u8>
    decreases a.len(),
{
    if a.len() == 0 {
        Seq::empty()
    } else {
        be64_bytes(a[0] as u64) + i64s_bytes(a.drop_first())
    }
}

/// The bytes of a value's payload (no tag, no name).
pub open spec fn payload_bytes(t: Nbt) -> Seq<u8>
    decreases t,
{
    match t {
        Nbt::End => Seq::empty(),
        Nbt::Byte(v) => seq![v as u8],
        Nbt::Short(v) => be16_bytes(v as u16),
        Nbt::Int(v) => be32_bytes(v as u32),
        Nbt::Long(v) => be64_bytes(v as u64),
        Nbt::Float(v) => be32_bytes(v),
        Nbt::Double(v) => be64_bytes(v),
        Nbt::ByteArray(a) => be32_bytes(a.len() as u32) + i8s_bytes(a),
        Nbt::Str(c) => string_ushort_bytes(c),
        Nbt::List(items) => seq![list_tag(items)] + be32_bytes(items.len() as u32) + items_bytes(
            items,
        ),
        Nbt::Compound(entries) => entries_bytes(entries) + seq![TAG_END],
        Nbt::IntArray(a) => be32_bytes(a.len() as u32) + i32s_bytes(a),
        Nbt::LongArray(a) => be32_bytes(a.len() as u32) + i64s_bytes(a),
    }
}

pub open spec fn items_bytes(items: Seq<Nbt>) -> Seq<u8>
    decreases items,
{
    if items.len() == 0 {
        Seq::empty()
    } else {
        payload_bytes(items[0]) + items_bytes(items.subrange(1, items.len() as int))
    }
}

pub open spec fn entries_bytes(entries: Seq<(Seq<char>, Nbt)>) -> Seq<u8>
    decreases entries,
{
    if entries.len() == 0 {
        Seq::empty()
    } else {
        seq![tag_of(entries[0].1)] + string_ushort_bytes(entries[0].0) + payload_bytes(
            entries[0].1,
        ) + entries_bytes(entries.subrange(1, entries.len() as int))
    }
}

/// A tree the format can carry: lengths fit their fields, a list's items
/// share one tag, and a compound holds no End value.
pub open spec fn nbt_valid(t: Nbt) -> bool
    decreases t,
{
    match t {
        Nbt::ByteArray(a) => a.len() <= i32::MAX,
        Nbt::Str(c) => encode_utf8(c).len() <= u16::MAX,
        Nbt::List(items) => items.len() <= i32::MAX && forall|i: int|
            0 <= i < items.len() ==> tag_of(#[trigger] items[i]) == tag_of(items[0]) && nbt_valid(
                items[i],
            ),
        Nbt::Compound(entries) => entries_valid(entries),
        Nbt::IntArray(a) => a.len() <= i32::MAX,
        Nbt::LongArray(a) => a.len() <= i32::MAX,
        _ => true,
    }
}

/// Every entry has a name of its own that fits a 16-bit length, and a valid
/// value other than End.
pub open spec fn entries_valid(entries: Seq<(Seq<char>, Nbt)>) -> bool
    decreases entries,
{
    if entries.len() == 0 {
        true
    } else {
        &&& tag_of(entries[0].1) != TAG_END
        &&& encode_utf8(entries[0].0).len() <= u16::MAX
        &&& nbt_valid(entries[0].1)
        &&& name_index(entries.subrange(1, entries.len() as int), entries[0].0) < 0
        &&& entries_valid(entries.subrange(1, entries.len() as int))
    }
}

/// `n` big-endian 32-bit values.
pub open spec fn parse_i32s(s: Seq<u8>, n: nat) -> Option<(Seq<i32>, Seq<u8>)>
    decreases n,
{
    if n == 0 {
        Some((Seq::empty(), s))
    } else {
        match parse_u32(s) {
            Some((v, r)) => match parse_i32s(r, (n - 1) as nat) {
                Some((a, r2)) => Some((seq![v as i32] + a, r2)),
                None => None,
            },
            None => None,
        }
    }
}

/// `n` big-endian 64-bit values.
pub open spec fn parse_i64s(s: Seq<u8>, n: nat) -> Option<(Seq<i64>, Seq<u8>)>
    decreases n,
{
    if n == 0 {
        Some((Seq::empty(), s))
    } else {
        match parse_u64(s) {
            Some((v, r)) => match parse_i64s(r, (n - 1) as nat) {
                Some((a, r2)) => Some((seq![v as i64] + a, r2)),
                None => None,
            },
            None => None,
        }
    }
}

/// A signed 32-bit length; a negative one counts as zero.
pub open spec fn parse_len(s: Seq<u8>) -> Option<(nat, Seq<u8>)> {
    match parse_u32(s) {
        Some((v, r)) => if (v as i32) < 0 {
            Some((0, r))
        } else {
            Some((v as nat, r))
        },
        None => None,
    }
}

/// `n` End values.
pub open spec fn ends(n: nat) -> Seq<Nbt> {
    Seq::new(n, |i: int| Nbt::End)
}

/// The payload of type `tag` at the head of `s`, and the bytes after it.
pub open spec fn parse_payload(s: Seq<u8>, tag: u8) -> Option<(Nbt, Seq<u8>)>
    decreases s.len(), 1int,
{
    if tag == TAG_END {
        Some((Nbt::End, s))
    } else if tag == TAG_BYTE {
        match parse_u8(s) {
            Some((v, r)) => Some((Nbt::Byte(v as i8), r)),
            None => None,
        }
    } else if tag == TAG_SHORT {
        match parse_u16(s) {
            Some((v, r)) => Some((Nbt::Short(v as i16), r)),
            None => None,
        }
    } else if tag == TAG_INT {
        match parse_u32(s) {
            Some((v, r)) => Some((Nbt::Int(v as i32), r)),
            None => None,
        }
    } else if tag == TAG_LONG {
        match parse_u64(s) {
            Some((v, r)) => Some((Nbt::Long(v as i64), r)),
            None => None,
        }
    } else if tag == TAG_FLOAT {
        match parse_u32(s) {
            Some((v, r)) => Some((Nbt::Float(v), r)),
            None => None,
        }
    } else if tag == TAG_DOUBLE {
        match parse_u64(s) {
            Some((v, r)) => Some((Nbt::Double(v), r)),
            None => None,
        }
    } else if tag == TAG_BYTE_ARRAY {
        match parse_len(s) {
            Some((n, r)) => if n <= r.len() {
                Some((Nbt::ByteArray(r.take(n as int).map_values(|b: u8| b as i8)), r.skip(n as int)))
            } else {
                None
            },
            None => None,
        }
    } else if tag == TAG_STRING {
        match parse_string_ushort(s) {
            Some((c, r)) => Some((Nbt::Str(c), r)),
            None => None,
        }
    } else if tag == TAG_LIST {
        match parse_u8(s) {
            Some((item_tag, r)) => match parse_len(r) {
                Some((n, r2)) => if item_tag > TAG_LONG_ARRAY {
                    None
                } else if item_tag == TAG_END {
                    Some((Nbt::List(ends(n)), r2))
                } else {
                    match parse_items(r2, item_tag, n) {
                        Some((items, r3)) => Some((Nbt::List(items), r3)),
                        None => None,
                    }
                },
                None => None,
            },
            None => None,
        }
    } else if tag == TAG_COMPOUND {
        match parse_entries_acc(s, Seq::empty()) {
            Some((entries, r)) => Some((Nbt::Compound(entries), r)),
            None => None,
        }
    } else if tag == TAG_INT_ARRAY {
        match parse_len(s) {
            Some((n, r)) => match parse_i32s(r, n) {
                Some((a, r2)) => Some((Nbt::IntArray(a), r2)),
                None => None,
            },
            None => None,
        }
    } else if tag == TAG_LONG_ARRAY {
        match parse_len(s) {
            Some((n, r)) => match parse_i64s(r, n) {
                Some((a, r2)) => Some((Nbt::LongArray(a), r2)),
                None => None,
            },
            None => None,
        }
    } else {
        None
    }
}

/// `n` payloads of type `tag`; each must take at least one byte.
pub open spec fn parse_items(s: Seq<u8>, tag: u8, n: nat) -> Option<(Seq<Nbt>, Seq<u8>)>
    decreases s.len(), 2int,
{
    if n == 0 {
        Some((Seq::empty(), s))
    } else {
        match parse_payload(s, tag) {
            Some((v, r)) => if r.len() < s.len() {
                match parse_items(r, tag, (n - 1) as nat) {
                    Some((vs, r2)) => Some((seq![v] + vs, r2)),
                    None => None,
                }
            } else {
                None
            },
            None => None,
        }
    }
}

/// The first position of an entry named `name` in `es`, or -1.
pub open spec fn name_index(es: Seq<(Seq<char>, Nbt)>, name: Seq<char>) -> int
    decreases es.len(),
{
    if es.len() == 0 {
        -1
    } else if name_index(es.drop_last(), name) >= 0 {
        name_index(es.drop_last(), name)
    } else if es.last().0 == name {
        es.len() - 1
    } else {
        -1
    }
}

/// `es` with the entry `(name, v)`: an entry of that name takes the new
/// value in its place, otherwise the entry goes last.
pub open spec fn upsert(es: Seq<(Seq<char>, Nbt)>, name: Seq<char>, v: Nbt) -> Seq<(Seq<char>, Nbt)> {
    if name_index(es, name) >= 0 {
        es.update(name_index(es, name), (name, v))
    } else {
        es.push((name, v))
    }
}

/// Named entries up to and including the End tag, added one by one to
/// `acc`; a repeated name keeps the last value read.
pub open spec fn parse_entries_acc(s: Seq<u8>, acc: Seq<(Seq<char>, Nbt)>) -> Option<
    (Seq<(Seq<char>, Nbt)>, Seq<u8>),
>
    decreases s.len(), 0int,
{
    match parse_u8(s) {
        Some((tag, r)) => if tag == TAG_END {
            Some((acc, r))
        } else {
            match parse_string_ushort(r) {
                Some((name, r2)) => match parse_payload(r2, tag) {
                    Some((v, r3)) => if r3.len() < s.len() {
                        parse_entries_acc(r3, upsert(acc, name, v))
                    } else {
                        None
                    },
                    None => None,
                },
                None => None,
            }
        },
        None => None,
    }
}

/// A named root value: type tag, a name (discarded), then the payload.
#[verifier::opaque]
pub open spec fn parse_named(s: Seq<u8>) -> Option<(Nbt, Seq<u8>)> {
    match parse_u8(s) {
        Some((tag, r)) => match parse_string_ushort(r) {
            Some((_name, r2)) => parse_payload(r2, tag),
            None => None,
        },
        None => None,
    }
}

fn nbt_error() -> String {
    String::from_str("malformed NBT")
}

/// Reads a signed 32-bit length; a negative one counts as zero.
fn read_len(packet: &mut RawPacket) -> (r: Option<u32>)
    ensures
        final(packet).id == old(packet).id,
        match parse_len(old(packet).data@) {
            Some((n, rest)) => r == Some(n as u32) && final(packet).data@ == rest,
            None => r is None,
        },
{
    match packet.try_read_uint() {
        Some(v) => if (v as i32) < 0 {
            Some(0)
        } else {
            Some(v)
        },
        None => None,
    }
}

impl NBTCompound {
    /// An empty compound.
    pub fn new() -> (r: NBTCompound)
        ensures
            r.data@.len() == 0,
    {
        NBTCompound { data: Vec::new() }
    }
}

impl NBTType {
    /// Reads a named root value: its type tag, its name (discarded) and its payload.
    pub fn from_packet(packet: &mut RawPacket) -> (r: Result<NBTType, String>)
        ensures
            final(packet).id == old(packet).id,
            match parse_named(old(packet).data@) {
                Some((t, rest)) => r matches Ok(u) && nbt_view(u) == t && final(packet).data@
                    == rest,
                None => r is Err,
            },
    {
        reveal(parse_named);
        let typeid = match packet.try_read_byte() {
            Some(b) => b,
            None => return Err(nbt_error()),
        };
        match packet.try_read_string_ushort() {
            Some(_name) => {},
            None => return Err(nbt_error()),
        }
        NBTType::from_packet_raw(packet, typeid)
    }

    /// Reads the payload of a value of type `typeid`.
    pub fn from_packet_raw(packet: &mut RawPacket, typeid: u8) -> (r: Result<NBTType, String>)
        ensures
            final(packet).id == old(packet).id,
            match parse_payload(old(packet).data@, typeid) {
                Some((t, rest)) => r matches Ok(u) && nbt_view(u) == t && final(packet).data@
                    == rest,
                None => r is Err,
            },
        decreases old(packet).data@.len(),
    {
        let ghost s0 = packet.data@;
        if typeid == TAG_END {
            Ok(NBTType::End)
        } else if typeid == TAG_BYTE {
            match packet.try_read_byte() {
                Some(v) => Ok(NBTType::Byte(v as i8)),
                None => Err(nbt_error()),
            }
        } else if typeid == TAG_SHORT {
            match packet.try_read_ushort() {
                Some(v) => Ok(NBTType::Short(v as i16)),
                None => Err(nbt_error()),
            }
        } else if typeid == TAG_INT {
            match packet.try_read_uint() {
                Some(v) => Ok(NBTType::Int(v as i32)),
                None => Err(nbt_error()),
            }
        } else if typeid == TAG_LONG {
            match packet.try_read_ulong() {
                Some(v) => Ok(NBTType::Long(v as i64)),
                None => Err(nbt_error()),
            }
        } else if typeid == TAG_FLOAT {
            match packet.try_read_uint() {
                Some(v) => Ok(NBTType::Float(v)),
                None => Err(nbt_error()),
            }
        } else if typeid == TAG_DOUBLE {
            match packet.try_read_ulong() {
                Some(v) => Ok(NBTType::Double(v)),
                None => Err(nbt_error()),
            }
        } else if typeid == TAG_BYTE_ARRAY {
            let n = match read_len(packet) {
                Some(n) => n,
                None => return Err(nbt_error()),
            };
            let ghost r = packet.data@;
            let bytes = match packet.try_read_bytes(n as usize) {
                Some(b) => b,
                None => return Err(nbt_error()),
            };
            let mut array: Vec<i8> = Vec::new();
            let mut i: usize = 0;
            while i < bytes.len()
                invariant
                    i <= bytes@.len(),
                    array@ == bytes@.take(i as int).map_values(|b: u8| b as i8),
                decreases bytes@.len() - i,
            {
                array.push(bytes[i] as i8);
                i = i + 1;
                assert(array@ =~= bytes@.take(i as int).map_values(|b: u8| b as i8));
            }
            assert(bytes@.take(i as int) =~= bytes@);
            Ok(NBTType::ByteArray(array))
        } else if typeid == TAG_STRING {
            match packet.try_read_string_ushort() {
                Some(t) => Ok(NBTType::String(t)),
                None => Err(nbt_error()),
            }
        } else if typeid == TAG_LIST {
            let item_tag = match packet.try_read_byte() {
                Some(b) => b,
                None => return Err(nbt_error()),
            };
            let n = match read_len(packet) {
                Some(n) => n,
                None => return Err(nbt_error()),
            };
            if item_tag > TAG_LONG_ARRAY {
                return Err(nbt_error());
            }
            if item_tag == TAG_END {
                let mut items: Vec<NBTType> = Vec::new();
                let mut k: u32 = 0;
                while k < n
                    invariant
                        k <= n,
                        items_view(items@) == ends(k as nat),
                    decreases n - k,
                {
                    let ghost old_items = items@;
                    items.push(NBTType::End);
                    k = k + 1;
                    assert(items@.drop_last() =~= old_items);
                    assert(nbt_view(NBTType::End) == Nbt::End);
                    assert(items_view(items@) == items_view(old_items).push(Nbt::End));
                    assert(items_view(items@) =~= ends(k as nat));
                }
                return Ok(NBTType::List(items));
            }
            let ghost s_hdr = packet.data@;
            let mut items: Vec<NBTType> = Vec::new();
            let mut k: u32 = 0;
            while k < n
                invariant
                    packet.id == old(packet).id,
                    s0 == old(packet).data@,
                    typeid == TAG_LIST,
                    parse_payload(s0, TAG_LIST) == match parse_items(s_hdr, item_tag, n as nat) {
                        Some((vs, r)) => Some((Nbt::List(vs), r)),
                        None => None,
                    },
                    k <= n,
                    packet.data@.len() < s0.len(),
                    match parse_items(packet.data@, item_tag, (n - k) as nat) {
                        Some((vs, r)) => parse_items(s_hdr, item_tag, n as nat) == Some(
                            (items_view(items@) + vs, r),
                        ),
                        None => parse_items(s_hdr, item_tag, n as nat) is None,
                    },
                decreases n - k,
            {
                let ghost cur = packet.data@;
                let before = packet.data.len();
                let v = match NBTType::from_packet_raw(packet, item_tag) {
                    Ok(v) => v,
                    Err(e) => return Err(e),
                };
                if packet.data.len() >= before {
                    return Err(nbt_error());
                }
                let ghost iv = items_view(items@);
                let ghost old_items = items@;
                items.push(v);
                k = k + 1;
                proof {
                    assert(items@.drop_last() =~= old_items);
                    assert(items_view(items@) == iv.push(nbt_view(v)));
                    match parse_items(packet.data@, item_tag, (n - k) as nat) {
                        Some((vs, r)) => {
                            assert(iv + (seq![nbt_view(v)] + vs) =~= iv.push(nbt_view(v)) + vs);
                        },
                        None => {},
                    }
                }
            }
            assert(items_view(items@) + Seq::<Nbt>::empty() =~= items_view(items@));
            Ok(NBTType::List(items))
        } else if typeid == TAG_COMPOUND {
            let mut entries: Vec<(String, NBTType)> = Vec::new();
            assert(entries_view(entries@) =~= Seq::<(Seq<char>, Nbt)>::empty());
            loop
                invariant
                    packet.id == old(packet).id,
                    s0 == old(packet).data@,
                    typeid == TAG_COMPOUND,
                    parse_payload(s0, TAG_COMPOUND) == match parse_entries_acc(s0, Seq::empty()) {
                        Some((es, r)) => Some((Nbt::Compound(es), r)),
                        None => None,
                    },
                    packet.data@.len() <= s0.len(),
                    parse_entries_acc(packet.data@, entries_view(entries@)) == parse_entries_acc(
                        s0,
                        Seq::empty(),
                    ),
                decreases packet.data@.len(),
            {
                let start = packet.data.len();
                let tag = match packet.try_read_byte() {
                    Some(b) => b,
                    None => return Err(nbt_error()),
                };
                if tag == TAG_END {
                    return Ok(NBTType::Compound(NBTCompound { data: entries }));
                }
                let name = match packet.try_read_string_ushort() {
                    Some(t) => t,
                    None => return Err(nbt_error()),
                };
                let v = match NBTType::from_packet_raw(packet, tag) {
                    Ok(v) => v,
                    Err(e) => return Err(e),
                };
                if packet.data.len() >= start {
                    return Err(nbt_error());
                }
                let ghost ev = entries_view(entries@);
                let ghost e = (name@, nbt_view(v));
                proof {
                    lemma_entries_view(entries@);
                }
                let j = find_entry(&entries, &name);
                let ghost old_entries = entries@;
                if j < entries.len() {
                    proof {
                        assert forall|k: int| 0 <= k < j implies (#[trigger] ev[k]).0 != name@ by {
                            assert(entries@[k].0@ != name@);
                        }
                        lemma_name_index_first(ev, name@, j as int);
                    }
                    entries[j] = (name, v);
                    proof {
                        lemma_entries_view_update(old_entries, j as int, entries@[j as int]);
                        assert(entries@ =~= old_entries.update(j as int, entries@[j as int]));
                    }
                } else {
                    proof {
                        assert forall|k: int| 0 <= k < ev.len() implies (#[trigger] ev[k]).0 != name@ by {
                            assert(entries@[k].0@ != name@);
                        }
                        lemma_name_index_absent(ev, name@);
                    }
                    entries.push((name, v));
                    proof {
                        assert(entries@.drop_last() =~= old_entries);
                    }
                }
                assert(entries_view(entries@) == upsert(ev, e.0, e.1));
            }
        } else if typeid == TAG_INT_ARRAY {
            let n = match read_len(packet) {
                Some(n) => n,
                None => return Err(nbt_error()),
            };
            let ghost s_hdr = packet.data@;
            let mut array: Vec<i32> = Vec::new();
            let mut k: u32 = 0;
            while k < n
                invariant
                    packet.id == old(packet).id,
                    s0 == old(packet).data@,
                    typeid == TAG_INT_ARRAY,
                    parse_payload(s0, TAG_INT_ARRAY) == match parse_i32s(s_hdr, n as nat) {
                        Some((vs, r)) => Some((Nbt::IntArray(vs), r)),
                        None => None,
                    },
                    k <= n,
                    match parse_i32s(packet.data@, (n - k) as nat) {
                        Some((vs, r)) => parse_i32s(s_hdr, n as nat) == Some((array@ + vs, r)),
                        None => parse_i32s(s_hdr, n as nat) is None,
                    },
                decreases n - k,
            {
                let v = match packet.try_read_uint() {
                    Some(v) => v,
                    None => return Err(nbt_error()),
                };
                let ghost av = array@;
                array.push(v as i32);
                k = k + 1;
                proof {
                    match parse_i32s(packet.data@, (n - k) as nat) {
                        Some((vs, r)) => {
                            assert(av + (seq![v as i32] + vs) =~= array@ + vs);
                        },
                        None => {},
                    }
                }
            }
            assert(array@ + Seq::<i32>::empty() =~= array@);
            Ok(NBTType::IntArray(array))
        } else if typeid == TAG_LONG_ARRAY {
            let n = match read_len(packet) {
                Some(n) => n,
                None => return Err(nbt_error()),
            };
            let ghost s_hdr = packet.data@;
            let mut array: Vec<i64> = Vec::new();
            let mut k: u32 = 0;
            while k < n
                invariant
                    packet.id == old(packet).id,
                    s0 == old(packet).data@,
                    typeid == TAG_LONG_ARRAY,
                    parse_payload(s0, TAG_LONG_ARRAY) == match parse_i64s(s_hdr, n as nat) {
                        Some((vs, r)) => Some((Nbt::LongArray(vs), r)),
                        None => None,
                    },
                    k <= n,
                    match parse_i64s(packet.data@, (n - k) as nat) {
                        Some((vs, r)) => parse_i64s(s_hdr, n as nat) == Some((array@ + vs, r)),
                        None => parse_i64s(s_hdr, n as nat) is None,
                    },
                decreases n - k,
            {
                let v = match packet.try_read_ulong() {
                    Some(v) => v,
                    None => return Err(nbt_error()),
                };
                let ghost av = array@;
                array.push(v as i64);
                k = k + 1;
                proof {
                    match parse_i64s(packet.data@, (n - k) as nat) {
                        Some((vs, r)) => {
                            assert(av + (seq![v as i64] + vs) =~= array@ + vs);
                        },
                        None => {},
                    }
                }
            }
            assert(array@ + Seq::<i64>::empty() =~= array@);
            Ok(NBTType::LongArray(array))
        } else {
            Err(nbt_error())
        }
    }
}

/// The first position of an entry named `name`, or the length when there is none.
fn find_entry(entries: &Vec<(String, NBTType)>, name: &String) -> (r: usize)
    ensures
        r <= entries@.len(),
        r < entries@.len() ==> entries@[r as int].0@ == name@,
        forall|k: int| 0 <= k < r ==> (#[trigger] entries@[k]).0@ != name@,
{
    let mut j: usize = 0;
    while j < entries.len()
        invariant
            j <= entries@.len(),
            forall|k: int| 0 <= k < j ==> (#[trigger] entries@[k]).0@ != name@,
        decreases entries@.len() - j,
    {
        if entries[j].0 == *name {
            return j;
        }
        j = j + 1;
    }
    j
}

proof fn lemma_name_index_absent(es: Seq<(Seq<char>, Nbt)>, name: Seq<char>)
    requires
        forall|k: int| 0 <= k < es.len() ==> (#[trigger] es[k]).0 != name,
    ensures
        name_index(es, name) == -1,
    decreases es.len(),
{
    if es.len() > 0 {
        let init = es.drop_last();
        assert forall|k: int| 0 <= k < init.len() implies (#[trigger] init[k]).0 != name by {
            assert(init[k] == es[k]);
        }
        lemma_name_index_absent(init, name);
        assert(es[es.len() - 1] == es.last());
    }
}

proof fn lemma_name_index_first(es: Seq<(Seq<char>, Nbt)>, name: Seq<char>, j: int)
    requires
        0 <= j < es.len(),
        es[j].0 == name,
        forall|k: int| 0 <= k < j ==> (#[trigger] es[k]).0 != name,
    ensures
        name_index(es, name) == j,
    decreases es.len(),
{
    let init = es.drop_last();
    if j < es.len() - 1 {
        assert(init[j] == es[j]);
        assert forall|k: int| 0 <= k < j implies (#[trigger] init[k]).0 != name by {
            assert(init[k] == es[k]);
        }
        lemma_name_index_first(init, name, j);
    } else {
        assert forall|k: int| 0 <= k < init.len() implies (#[trigger] init[k]).0 != name by {
            assert(init[k] == es[k]);
        }
        lemma_name_index_absent(init, name);
    }
}

/// A name absent by `name_index` is the name of no entry.
proof fn lemma_name_index_none(es: Seq<(Seq<char>, Nbt)>, name: Seq<char>, k: int)
    requires
        name_index(es, name) < 0,
        0 <= k < es.len(),
    ensures
        es[k].0 != name,
    decreases es.len(),
{
    if k < es.len() - 1 {
        assert(es.drop_last()[k] == es[k]);
        lemma_name_index_none(es.drop_last(), name, k);
    }
}

proof fn lemma_entries_view_update(s: Seq<(String, NBTType)>, j: int, e: (String, NBTType))
    requires
        0 <= j < s.len(),
    ensures
        entries_view(s.update(j, e)) == entries_view(s).update(j, (e.0@, nbt_view(e.1))),
    decreases s.len(),
{
    let u = s.update(j, e);
    if j < s.len() - 1 {
        lemma_entries_view_update(s.drop_last(), j, e);
        assert(u.drop_last() =~= s.drop_last().update(j, e));
        assert(u.last() == s.last());
    } else {
        assert(u.drop_last() =~= s.drop_last());
    }
    lemma_entries_view(s);
    lemma_entries_view(u);
    assert(entries_view(u) =~= entries_view(s).update(j, (e.0@, nbt_view(e.1))));
}

proof fn lemma_items_view(s: Seq<NBTType>)
    ensures
        items_view(s).len() == s.len(),
        forall|i: int| 0 <= i < s.len() ==> #[trigger] items_view(s)[i] == nbt_view(s[i]),
    decreases s.len(),
{
    if s.len() > 0 {
        lemma_items_view(s.drop_last());
    }
}

proof fn lemma_entries_view(s: Seq<(String, NBTType)>)
    ensures
        entries_view(s).len() == s.len(),
        forall|i: int|
            0 <= i < s.len() ==> #[trigger] entries_view(s)[i] == (s[i].0@, nbt_view(s[i].1)),
    decreases s.len(),
{
    if s.len() > 0 {
        lemma_entries_view(s.drop_last());
    }
}

impl NBTType {
    /// The type tag of this value.
    pub fn tag(&self) -> (r: u8)
        ensures
            r == tag_of(nbt_view(*self)),
    {
        match self {
            NBTType::End => TAG_END,
            NBTType::Byte(_) => TAG_BYTE,
            NBTType::Short(_) => TAG_SHORT,
            NBTType::Int(_) => TAG_INT,
            NBTType::Long(_) => TAG_LONG,
            NBTType::Float(_) => TAG_FLOAT,
            NBTType::Double(_) => TAG_DOUBLE,
            NBTType::ByteArray(_) => TAG_BYTE_ARRAY,
            NBTType::String(_) => TAG_STRING,
            NBTType::List(_) => TAG_LIST,
            NBTType::Compound(_) => TAG_COMPOUND,
            NBTType::IntArray(_) => TAG_INT_ARRAY,
            NBTType::LongArray(_) => TAG_LONG_ARRAY,
        }
    }

    /// Appends this value's payload (no tag, no name).
    pub fn write_payload(&self, packet: &mut RawPacket)
        requires
            nbt_valid(nbt_view(*self)),
        ensures
            final(packet).id == old(packet).id,
            final(packet).data@ == old(packet).data@ + payload_bytes(nbt_view(*self)),
        decreases self,
    {
        match self {
            NBTType::End => {
                assert(packet.data@ =~= old(packet).data@ + payload_bytes(nbt_view(*self)));
            },
            NBTType::Byte(v) => {
                packet.write_byte(*v as u8);
                assert(packet.data@ =~= old(packet).data@ + payload_bytes(nbt_view(*self)));
            },
            NBTType::Short(v) => packet.write_short(*v),
            NBTType::Int(v) => packet.write_int(*v),
            NBTType::Long(v) => packet.write_long(*v),
            NBTType::Float(v) => packet.write_uint(*v),
            NBTType::Double(v) => packet.write_ulong(*v),
            NBTType::ByteArray(a) => {
                packet.write_uint(a.len() as u32);
                let ghost start = packet.data@;
                let mut i: usize = 0;
                while i < a.len()
                    invariant
                        packet.id == old(packet).id,
                        i <= a@.len(),
                        packet.data@ == start + i8s_bytes(a@.take(i as int)),
                    decreases a@.len() - i,
                {
                    packet.write_byte(a[i] as u8);
                    i = i + 1;
                    assert(packet.data@ =~= start + i8s_bytes(a@.take(i as int)));
                }
                assert(a@.take(i as int) =~= a@);
                assert(packet.data@ =~= old(packet).data@ + payload_bytes(nbt_view(*self)));
            },
            NBTType::String(t) => packet.write_string_ushort(t.as_str()),
            NBTType::List(items) => {
                let ghost iv = items_view(items@);
                proof {
                    lemma_items_view(items@);
                }
                let tag = if items.len() == 0 {
                    TAG_END
                } else {
                    items[0].tag()
                };
                packet.write_byte(tag);
                packet.write_uint(items.len() as u32);
                let ghost start = packet.data@;
                let mut i: usize = 0;
                assert(iv.subrange(0, iv.len() as int) =~= iv);
                while i < items.len()
                    invariant
                        packet.id == old(packet).id,
                        *self == NBTType::List(*items),
                        iv == items_view(items@),
                        iv.len() == items@.len(),
                        forall|j: int| 0 <= j < items@.len() ==> #[trigger] iv[j] == nbt_view(items@[j]),
                        nbt_valid(Nbt::List(iv)),
                        i <= items@.len(),
                        packet.data@ + items_bytes(iv.subrange(i as int, iv.len() as int)) == start
                            + items_bytes(iv),
                    decreases items@.len() - i,
                {
                    let ghost before = packet.data@;
                    let ghost tail = iv.subrange(i as int, iv.len() as int);
                    assert(tail.subrange(1, tail.len() as int) =~= iv.subrange(i + 1, iv.len() as int));
                    assert(tail[0] == iv[i as int]);
                    assert(nbt_valid(iv[i as int]));
                    assert(decreases_to!(*self => (*self)->List_0));
                    assert(decreases_to!(*items => items[i as int]));
                    items[i].write_payload(packet);
                    i = i + 1;
                    assert(packet.data@ + items_bytes(iv.subrange(i as int, iv.len() as int))
                        =~= before + items_bytes(tail));
                }
                assert(iv.subrange(i as int, iv.len() as int) =~= Seq::<Nbt>::empty());
                assert(packet.data@ =~= old(packet).data@ + payload_bytes(nbt_view(*self)));
            },
            NBTType::Compound(c) => {
                let ghost ev = entries_view(c.data@);
                proof {
                    lemma_entries_view(c.data@);
                }
                let ghost start = packet.data@;
                let mut i: usize = 0;
                assert(ev.subrange(0, ev.len() as int) =~= ev);
                while i < c.data.len()
                    invariant
                        packet.id == old(packet).id,
                        *self == NBTType::Compound(*c),
                        ev == entries_view(c.data@),
                        ev.len() == c.data@.len(),
                        forall|j: int|
                            0 <= j < c.data@.len() ==> #[trigger] ev[j] == (
                                c.data@[j].0@,
                                nbt_view(c.data@[j].1),
                            ),
                        entries_valid(ev.subrange(i as int, ev.len() as int)),
                        i <= c.data@.len(),
                        packet.data@ + entries_bytes(ev.subrange(i as int, ev.len() as int))
                            == start + entries_bytes(ev),
                    decreases c.data@.len() - i,
                {
                    let ghost before = packet.data@;
                    let ghost tail = ev.subrange(i as int, ev.len() as int);
                    assert(tail.subrange(1, tail.len() as int) =~= ev.subrange(i + 1, ev.len() as int));
                    assert(tail[0] == ev[i as int]);
                    let ghost e = ev[i as int];
                    assert(nbt_valid(e.1));
                    assert(entries_valid(tail.subrange(1, tail.len() as int)));
                    assert(decreases_to!(*self => (*self)->Compound_0));
                    assert(decreases_to!(*c => c.data));
                    assert(decreases_to!(c.data => c.data[i as int]));
                    assert(decreases_to!(c.data[i as int] => c.data[i as int].1));
                    let entry = &c.data[i];
                    packet.write_byte(entry.1.tag());
                    packet.write_string_ushort(entry.0.as_str());
                    entry.1.write_payload(packet);
                    i = i + 1;
                    assert(packet.data@ + entries_bytes(ev.subrange(i as int, ev.len() as int))
                        =~= before + entries_bytes(tail));
                }
                assert(ev.subrange(i as int, ev.len() as int) =~= Seq::<(Seq<char>, Nbt)>::empty());
                packet.write_byte(TAG_END);
                assert(packet.data@ =~= old(packet).data@ + payload_bytes(nbt_view(*self)));
            },
            NBTType::IntArray(a) => {
                packet.write_uint(a.len() as u32);
                let ghost start = packet.data@;
                let mut i: usize = 0;
                assert(a@.subrange(0, a@.len() as int) =~= a@);
                while i < a.len()
                    invariant
                        packet.id == old(packet).id,
                        i <= a@.len(),
                        packet.data@ + i32s_bytes(a@.subrange(i as int, a@.len() as int)) == start
                            + i32s_bytes(a@),
                    decreases a@.len() - i,
                {
                    let ghost before = packet.data@;
                    let ghost tail = a@.subrange(i as int, a@.len() as int);
                    assert(tail.drop_first() =~= a@.subrange(i + 1, a@.len() as int));
                    packet.write_int(a[i]);
                    i = i + 1;
                    assert(packet.data@ + i32s_bytes(a@.subrange(i as int, a@.len() as int))
                        =~= before + i32s_bytes(tail));
                }
                assert(a@.subrange(i as int, a@.len() as int) =~= Seq::<i32>::empty());
                assert(packet.data@ =~= old(packet).data@ + payload_bytes(nbt_view(*self)));
            },
            NBTType::LongArray(a) => {
                packet.write_uint(a.len() as u32);
                let ghost start = packet.data@;
                let mut i: usize = 0;
                assert(a@.subrange(0, a@.len() as int) =~= a@);
                while i < a.len()
                    invariant
                        packet.id == old(packet).id,
                        i <= a@.len(),
                        packet.data@ + i64s_bytes(a@.subrange(i as int, a@.len() as int)) == start
                            + i64s_bytes(a@),
                    decreases a@.len() - i,
                {
                    let ghost before = packet.data@;
                    let ghost tail = a@.subrange(i as int, a@.len() as int);
                    assert(tail.drop_first() =~= a@.subrange(i + 1, a@.len() as int));
                    packet.write_long(a[i]);
                    i = i + 1;
                    assert(packet.data@ + i64s_bytes(a@.subrange(i as int, a@.len() as int))
                        =~= before + i64s_bytes(tail));
                }
                assert(a@.subrange(i as int, a@.len() as int) =~= Seq::<i64>::empty());
                assert(packet.data@ =~= old(packet).data@ + payload_bytes(nbt_view(*self)));
            },
        }
    }
}

/// The bytes of a named root value: type tag, name, payload.
pub open spec fn named_bytes(name: Seq<char>, t: Nbt) -> Seq<u8> {
    seq![tag_of(t)] + string_ushort_bytes(name) + payload_bytes(t)
}

proof fn lemma_be32_parse(v: u32, rest: Seq<u8>)
    ensures
        parse_u32(be32_bytes(v) + rest) == Some((v, rest)),
{
    crate::wire::lemma_be32_round_trip(v);
    assert((be32_bytes(v) + rest).skip(4) =~= rest);
}

proof fn lemma_be64_parse(v: u64, rest: Seq<u8>)
    ensures
        parse_u64(be64_bytes(v) + rest) == Some((v, rest)),
{
    crate::wire::lemma_be64_round_trip(v);
    assert((be64_bytes(v) + rest).take(8) =~= be64_bytes(v));
    assert((be64_bytes(v) + rest).skip(8) =~= rest);
}

proof fn lemma_len_parse(n: nat, rest: Seq<u8>)
    requires
        n <= i32::MAX,
    ensures
        parse_len(be32_bytes(n as u32) + rest) == Some((n, rest)),
{
    let v = n as u32;
    lemma_be32_parse(v, rest);
    assert(v as nat == n);
    assert(v <= 0x7fff_ffffu32 ==> (v as i32) >= 0) by (bit_vector);
}

proof fn lemma_i32s_round_trip(a: Seq<i32>, rest: Seq<u8>)
    ensures
        parse_i32s(i32s_bytes(a) + rest, a.len()) == Some((a, rest)),
    decreases a.len(),
{
    if a.len() > 0 {
        let v = a[0];
        lemma_i32s_round_trip(a.drop_first(), rest);
        lemma_be32_parse(v as u32, i32s_bytes(a.drop_first()) + rest);
        assert(i32s_bytes(a) + rest =~= be32_bytes(v as u32) + (i32s_bytes(a.drop_first()) + rest));
        assert(((v as u32) as i32) == v) by (bit_vector);
        assert(seq![v] + a.drop_first() =~= a);
    } else {
        assert(i32s_bytes(a) + rest =~= rest);
        assert(a =~= Seq::<i32>::empty());
    }
}

proof fn lemma_i64s_round_trip(a: Seq<i64>, rest: Seq<u8>)
    ensures
        parse_i64s(i64s_bytes(a) + rest, a.len()) == Some((a, rest)),
    decreases a.len(),
{
    if a.len() > 0 {
        let v = a[0];
        lemma_i64s_round_trip(a.drop_first(), rest);
        lemma_be64_parse(v as u64, i64s_bytes(a.drop_first()) + rest);
        assert(i64s_bytes(a) + rest =~= be64_bytes(v as u64) + (i64s_bytes(a.drop_first()) + rest));
        assert(((v as u64) as i64) == v) by (bit_vector);
        assert(seq![v] + a.drop_first() =~= a);
    } else {
        assert(i64s_bytes(a) + rest =~= rest);
        assert(a =~= Seq::<i64>::empty());
    }
}

/// NBT round trip: reading the payload of a valid tree, followed by any
/// bytes, with the tree's own tag gives back the tree and leaves those bytes.
#[verifier::rlimit(60)]
pub proof fn lemma_nbt_round_trip(t: Nbt, rest: Seq<u8>)
    requires
        nbt_valid(t),
    ensures
        parse_payload(payload_bytes(t) + rest, tag_of(t)) == Some((t, rest)),
        tag_of(t) != TAG_END ==> payload_bytes(t).len() >= 1,
    decreases t, 1int,
{
    let s = payload_bytes(t) + rest;
    match t {
        Nbt::End => {
            assert(s =~= rest);
        },
        Nbt::Byte(v) => {
            assert(s.skip(1) =~= rest);
            assert(((v as u8) as i8) == v) by (bit_vector);
        },
        Nbt::Short(v) => {
            crate::wire::lemma_be16_round_trip(v as u16);
            assert(s.skip(2) =~= rest);
            assert(((v as u16) as i16) == v) by (bit_vector);
        },
        Nbt::Int(v) => {
            lemma_be32_parse(v as u32, rest);
            assert(((v as u32) as i32) == v) by (bit_vector);
        },
        Nbt::Long(v) => {
            lemma_be64_parse(v as u64, rest);
            assert(((v as u64) as i64) == v) by (bit_vector);
        },
        Nbt::Float(v) => {
            lemma_be32_parse(v, rest);
        },
        Nbt::Double(v) => {
            lemma_be64_parse(v, rest);
        },
        Nbt::ByteArray(a) => {
            let r = i8s_bytes(a) + rest;
            lemma_len_parse(a.len(), r);
            assert(s =~= be32_bytes(a.len() as u32) + r);
            assert(r.take(a.len() as int) =~= i8s_bytes(a));
            assert(r.skip(a.len() as int) =~= rest);
            assert forall|i: int| 0 <= i < a.len() implies ((#[trigger] a[i]) as u8) as i8 == a[i] by {
                let b = a[i];
                assert(((b as u8) as i8) == b) by (bit_vector);
            }
            assert(i8s_bytes(a).map_values(|b: u8| b as i8) =~= a);
        },
        Nbt::Str(c) => {
            crate::wire::lemma_string_ushort_round_trip(c, rest);
        },
        Nbt::List(items) => {
            lemma_list_round_trip(items, rest);
        },
        Nbt::Compound(entries) => {
            lemma_compound_round_trip(entries, rest);
        },
        Nbt::IntArray(a) => {
            lemma_i32s_round_trip(a, rest);
            lemma_len_parse(a.len(), i32s_bytes(a) + rest);
            assert(s =~= be32_bytes(a.len() as u32) + (i32s_bytes(a) + rest));
        },
        Nbt::LongArray(a) => {
            lemma_i64s_round_trip(a, rest);
            lemma_len_parse(a.len(), i64s_bytes(a) + rest);
            assert(s =~= be32_bytes(a.len() as u32) + (i64s_bytes(a) + rest));
        },
    }
}

proof fn lemma_compound_round_trip(entries: Seq<(Seq<char>, Nbt)>, rest: Seq<u8>)
    requires
        entries_valid(entries),
    ensures
        parse_payload(payload_bytes(Nbt::Compound(entries)) + rest, TAG_COMPOUND) == Some(
            (Nbt::Compound(entries), rest),
        ),
    decreases entries, 2int,
{
    lemma_entries_round_trip(entries, Seq::empty(), rest);
    assert(Seq::<(Seq<char>, Nbt)>::empty() + entries =~= entries);
    assert(payload_bytes(Nbt::Compound(entries)) + rest =~= entries_bytes(entries) + seq![TAG_END]
        + rest);
}

proof fn lemma_list_round_trip(items: Seq<Nbt>, rest: Seq<u8>)
    requires
        nbt_valid(Nbt::List(items)),
    ensures
        parse_payload(payload_bytes(Nbt::List(items)) + rest, TAG_LIST) == Some((Nbt::List(items), rest)),
    decreases items, 2int,
{
    let t = Nbt::List(items);
    let s = payload_bytes(t) + rest;
    let tag = list_tag(items);
    let r2 = items_bytes(items) + rest;
    assert(forall|i: int| 0 <= i < items.len() ==> tag_of(#[trigger] items[i]) == tag_of(items[0]) && nbt_valid(items[i]));
    if tag == TAG_END {
        lemma_end_items(items);
        assert(r2 =~= rest);
    } else {
        lemma_items_round_trip(items, tag, rest);
    }
    lemma_len_parse(items.len(), r2);
    assert(s =~= seq![tag] + (be32_bytes(items.len() as u32) + r2));
    assert(s.skip(1) =~= be32_bytes(items.len() as u32) + r2);
}

/// A list whose first item is End holds End values only, written as no bytes.
proof fn lemma_end_items(items: Seq<Nbt>)
    requires
        list_tag(items) == TAG_END,
        forall|i: int| 0 <= i < items.len() ==> tag_of(#[trigger] items[i]) == tag_of(items[0]),
    ensures
        items_bytes(items) == Seq::<u8>::empty(),
        items =~= ends(items.len()),
    decreases items.len(),
{
    if items.len() > 0 {
        let tail = items.subrange(1, items.len() as int);
        assert forall|i: int| 0 <= i < tail.len() implies tag_of(#[trigger] tail[i]) == tag_of(
            tail[0],
        ) by {
            assert(tail[i] == items[i + 1]);
            assert(tail[0] == items[1]);
        }
        assert forall|i: int| 0 <= i < items.len() implies items[i] == Nbt::End by {
            assert(tag_of(items[i]) == TAG_END);
        }
        if tail.len() > 0 {
            assert(tail[0] == items[1]);
        }
        lemma_end_items(tail);
        assert(items[0] == Nbt::End);
        assert(payload_bytes(items[0]) =~= Seq::<u8>::empty());
        assert(items_bytes(items) =~= payload_bytes(items[0]) + items_bytes(tail));
    }
}

proof fn lemma_items_round_trip(items: Seq<Nbt>, tag: u8, rest: Seq<u8>)
    requires
        forall|i: int|
            0 <= i < items.len() ==> tag_of(#[trigger] items[i]) == tag && tag != TAG_END
                && nbt_valid(items[i]),
    ensures
        parse_items(items_bytes(items) + rest, tag, items.len()) == Some((items, rest)),
    decreases items, 1int,
{
    if items.len() == 0 {
        assert(items_bytes(items) + rest =~= rest);
        assert(items =~= Seq::<Nbt>::empty());
    } else {
        let head = items[0];
        let tail = items.subrange(1, items.len() as int);
        let r = items_bytes(tail) + rest;
        assert(tag_of(head) == tag && nbt_valid(head));
        lemma_nbt_round_trip(head, r);
        lemma_items_round_trip(tail, tag, rest);
        assert(items_bytes(items) + rest =~= payload_bytes(head) + r);
        assert(seq![head] + tail =~= items);
    }
}

/// Reading one named entry, then the rest.
proof fn lemma_entries_step(
    s: Seq<u8>,
    acc: Seq<(Seq<char>, Nbt)>,
    name: Seq<char>,
    v: Nbt,
    r2: Seq<u8>,
    r3: Seq<u8>,
)
    requires
        s.len() >= 1,
        s[0] == tag_of(v),
        tag_of(v) != TAG_END,
        parse_string_ushort(s.skip(1)) == Some((name, r2)),
        parse_payload(r2, tag_of(v)) == Some((v, r3)),
        r3.len() < s.len(),
    ensures
        parse_entries_acc(s, acc) == parse_entries_acc(r3, upsert(acc, name, v)),
{
}

/// With names of its own, the first entry goes last in `acc`, and the
/// others stay absent from it.
proof fn lemma_fresh_names(entries: Seq<(Seq<char>, Nbt)>, acc: Seq<(Seq<char>, Nbt)>)
    requires
        entries.len() > 0,
        entries_valid(entries),
        forall|k: int| 0 <= k < entries.len() ==> name_index(acc, (#[trigger] entries[k]).0) < 0,
    ensures
        upsert(acc, entries[0].0, entries[0].1) == acc.push(entries[0]),
        forall|k: int|
            0 <= k < entries.len() - 1 ==> name_index(
                acc.push(entries[0]),
                (#[trigger] entries.subrange(1, entries.len() as int)[k]).0,
            ) < 0,
{
    let name = entries[0].0;
    let tail = entries.subrange(1, entries.len() as int);
    let acc2 = acc.push(entries[0]);
    assert(name_index(acc, entries[0].0) < 0);
    assert forall|k: int| 0 <= k < tail.len() implies name_index(acc2, (#[trigger] tail[k]).0)
        < 0 by {
        assert(tail[k] == entries[k + 1]);
        assert(name_index(acc, entries[k + 1].0) < 0);
        lemma_name_index_none(tail, name, k);
        assert(acc2.drop_last() =~= acc);
    }
}

#[verifier::rlimit(100)]
proof fn lemma_entries_round_trip(
    entries: Seq<(Seq<char>, Nbt)>,
    acc: Seq<(Seq<char>, Nbt)>,
    rest: Seq<u8>,
)
    requires
        entries_valid(entries),
        forall|k: int| 0 <= k < entries.len() ==> name_index(acc, (#[trigger] entries[k]).0) < 0,
    ensures
        parse_entries_acc(entries_bytes(entries) + seq![TAG_END] + rest, acc) == Some(
            (acc + entries, rest),
        ),
    decreases entries, 1int,
{
    let s = entries_bytes(entries) + seq![TAG_END] + rest;
    if entries.len() == 0 {
        assert(s.skip(1) =~= rest);
        assert(acc + entries =~= acc);
    } else {
        let name = entries[0].0;
        let v = entries[0].1;
        let tail = entries.subrange(1, entries.len() as int);
        let r3 = entries_bytes(tail) + seq![TAG_END] + rest;
        let r2 = payload_bytes(v) + r3;
        let acc2 = acc.push((name, v));
        lemma_fresh_names(entries, acc);
        lemma_nbt_round_trip(v, r3);
        lemma_entries_round_trip(tail, acc2, rest);
        crate::wire::lemma_string_ushort_round_trip(name, r2);
        assert(s =~= seq![tag_of(v)] + (string_ushort_bytes(name) + r2));
        assert(s.skip(1) =~= string_ushort_bytes(name) + r2);
        lemma_entries_step(s, acc, name, v, r2, r3);
        assert(acc2 + tail =~= acc + entries);
    }
}

/// The same for a named root value, as `from_packet` reads it.
#[verifier::rlimit(60)]
pub proof fn lemma_nbt_named_round_trip(name: Seq<char>, t: Nbt, rest: Seq<u8>)
    requires
        nbt_valid(t),
        encode_utf8(name).len() <= u16::MAX,
    ensures
        parse_named(named_bytes(name, t) + rest) == Some((t, rest)),
{
    reveal(parse_named);
    let r2 = payload_bytes(t) + rest;
    lemma_nbt_round_trip(t, rest);
    crate::wire::lemma_string_ushort_round_trip(name, r2);
    let s = named_bytes(name, t) + rest;
    assert(s =~= seq![tag_of(t)] + (string_ushort_bytes(name) + r2));
    assert(s.skip(1) =~= string_ushort_bytes(name) + r2);
}

} // verus!
