//! A packet: an id and a byte buffer with typed readers that pop from the
//! front and typed writers that append to the tail.
use vstd::prelude::*;
use vstd::utf8::{decode_utf8, encode_utf8, valid_utf8};
use crate::wire::{
    be16_bytes, be32_bytes, be64_bytes, parse_bytes, parse_string, parse_string_ushort, parse_u16,
    parse_u32, parse_u64, parse_u8, parse_utf8, parse_uuid, string_bytes, string_ushort_bytes,
};
use crate::varint::{
    parse_varint, pow128, varint_bytes, varint_bytes_nat, varint_digits, varint_len, varint_len_k,
    VARINT_MAX_BYTES,
};

verus! {

/// A raw packet (id and payload bytes).
#[derive(Debug, Clone, PartialEq, Eq)]
pub struct RawPacket {
    pub id: i32,
    pub data: Vec<u8>,
}

impl RawPacket {
    /// Creates a packet with the given id and data.
    pub fn new(id: i32, data: Vec<u8>) -> (r: RawPacket)
        ensures
            r.id == id,
            r.data@ == data@,
    {
        RawPacket { id, data }
    }

    /// Creates a packet with the given id and no data.
    pub fn empty(id: i32) -> (r: RawPacket)
        ensures
            r.id == id,
            r.data@ == Seq::<u8>::empty(),
    {
        RawPacket { id, data: Vec::new() }
    }

    /// A copy of this packet.
    pub fn copy(&self) -> (r: RawPacket)
        ensures
            r.id == self.id,
            r.data@ == self.data@,
    {
        let data = self.copy_range(0, self.data.len());
        assert(self.data@.subrange(0, self.data@.len() as int) =~= self.data@);
        RawPacket { id: self.id, data }
    }

    /// Appends one byte.
    pub fn write_byte(&mut self, byte: u8)
        ensures
            final(self).id == old(self).id,
            final(self).data@ == old(self).data@.push(byte),
    {
        self.data.push(byte);
    }

    /// Appends a VarInt.
    pub fn write_varint(&mut self, value: i32)
        ensures
            final(self).id == old(self).id,
            final(self).data@ == old(self).data@ + varint_bytes(value),
    {
        let mut u: u32 = value as u32;
        loop
            invariant
                self.id == old(self).id,
                old(self).data@ + varint_bytes(value) == self.data@ + varint_bytes_nat(u as nat),
            decreases u,
        {
            if u < 128 {
                let ghost before = self.data@;
                self.data.push(u as u8);
                assert(before + varint_bytes_nat(u as nat) =~= self.data@);
                return;
            }
            let ghost before = self.data@;
            self.data.push((u % 128 + 128) as u8);
            assert(before + varint_bytes_nat(u as nat) =~= self.data@ + varint_bytes_nat(
                (u / 128) as nat,
            ));
            u = u / 128;
        }
    }

    /// Drops the first `n` bytes.
    fn drop_front(&mut self, n: usize)
        requires
            n <= old(self).data@.len(),
        ensures
            final(self).id == old(self).id,
            final(self).data@ == old(self).data@.skip(n as int),
    {
        let tail = self.data.split_off(n);
        self.data = tail;
    }

    /// A copy of the bytes from `start` up to `end`.
    fn copy_range(&self, start: usize, end: usize) -> (r: Vec<u8>)
        requires
            start <= end <= self.data@.len(),
        ensures
            r@ == self.data@.subrange(start as int, end as int),
    {
        let mut r: Vec<u8> = Vec::new();
        let mut i: usize = start;
        while i < end
            invariant
                start <= i <= end <= self.data@.len(),
                r@ == self.data@.subrange(start as int, i as int),
            decreases end - i,
        {
            r.push(self.data[i]);
            i = i + 1;
            assert(r@ =~= self.data@.subrange(start as int, i as int));
        }
        r
    }

    /// The VarInt that starts at `start`, with its length in bytes.
    fn peek_varint(&self, start: usize) -> (r: Option<(i32, usize)>)
        requires
            start <= self.data@.len(),
        ensures
            match parse_varint(self.data@.skip(start as int)) {
                Some((v, rest)) => r matches Some((w, n)) && w == v && n == varint_len(
                    self.data@.skip(start as int),
                ) && rest == self.data@.skip(start + n) && start + n <= self.data@.len(),
                None => r is None,
            },
    {
        let ghost s = self.data@.skip(start as int);
        let avail: usize = self.data.len() - start;
        let mut n: usize = 0;
        assert(s.skip(0) =~= s);
        loop
            invariant_except_break
                n < VARINT_MAX_BYTES,
                varint_len(s) == n + varint_len_k(s.skip(n as int), (VARINT_MAX_BYTES - n) as nat),
            invariant
                start <= self.data@.len() <= usize::MAX,
                n <= avail,
                avail == s.len(),
                s == self.data@.skip(start as int),
            ensures
                1 <= n <= VARINT_MAX_BYTES,
                n <= s.len(),
                varint_len(s) == n,
            decreases VARINT_MAX_BYTES - n,
        {
            if n == avail {
                assert(s.skip(n as int).len() == 0);
                return None;
            }
            assert(s.skip(n as int).drop_first() =~= s.skip(n as int + 1));
            assert(s.skip(n as int)[0] == self.data@[start + n]);
            assert(start + n < self.data@.len());
            if self.data[start + n] < 128 || n + 1 == VARINT_MAX_BYTES {
                n = n + 1;
                break;
            }
            n = n + 1;
        }
        // fold the groups from the last one back to the first
        let mut acc: u64 = 0;
        let mut k: usize = n;
        let ghost t = s.take(n as int);
        while k > 0
            invariant
                k <= n <= VARINT_MAX_BYTES,
                n <= s.len(),
                start <= self.data@.len() <= usize::MAX,
                s.len() == self.data@.len() - start,
                s == self.data@.skip(start as int),
                t == s.take(n as int),
                acc as nat == varint_digits(t.skip(k as int)),
                acc < pow128((n - k) as nat),
            decreases k,
        {
            reveal_with_fuel(pow128, 6);
            assert(t.skip(k - 1).drop_first() =~= t.skip(k as int));
            assert(t.skip(k - 1)[0] == self.data@[start + k - 1]);
            assert(start + k - 1 < self.data@.len());
            assert(pow128((n - k + 1) as nat) == 128 * pow128((n - k) as nat));
            acc = acc * 128 + (self.data[start + k - 1] % 128) as u64;
            k = k - 1;
        }
        assert(t.skip(0) =~= t);
        assert(s.skip(n as int) =~= self.data@.skip(start + n));
        Some(((acc as u32) as i32, n))
    }

    /// Reads a VarInt when the buffer holds a whole one; otherwise returns
    /// `None` and leaves the buffer as it was.
    pub fn try_read_varint(&mut self) -> (r: Option<i32>)
        ensures
            final(self).id == old(self).id,
            match parse_varint(old(self).data@) {
                Some((v, rest)) => r == Some(v) && final(self).data@ == rest,
                None => r is None && final(self).data@ == old(self).data@,
            },
    {
        assert(self.data@.skip(0) =~= self.data@);
        match self.peek_varint(0) {
            Some((v, n)) => {
                self.drop_front(n);
                Some(v)
            },
            None => None,
        }
    }

    /// Reads a VarInt.
    pub fn read_varint(&mut self) -> (r: i32)
        requires
            parse_varint(old(self).data@) is Some,
        ensures
            final(self).id == old(self).id,
            parse_varint(old(self).data@) == Some((r, final(self).data@)),
    {
        match self.try_read_varint() {
            Some(v) => v,
            None => 0,
        }
    }

    /// Reads `n` bytes when there are that many; otherwise returns `None`
    /// and leaves the buffer as it was.
    pub fn try_read_bytes(&mut self, n: usize) -> (r: Option<Vec<u8>>)
        ensures
            final(self).id == old(self).id,
            match parse_bytes(old(self).data@, n as int) {
                Some((b, rest)) => r matches Some(v) && v@ == b && final(self).data@ == rest,
                None => r is None && final(self).data@ == old(self).data@,
            },
    {
        if n > self.data.len() {
            return None;
        }
        let mut tail = self.data.split_off(n);
        std::mem::swap(&mut self.data, &mut tail);
        Some(tail)
    }

    /// Reads `n` bytes.
    pub fn read_bytes(&mut self, n: usize) -> (r: Vec<u8>)
        requires
            n <= old(self).data@.len(),
        ensures
            final(self).id == old(self).id,
            parse_bytes(old(self).data@, n as int) == Some((r@, final(self).data@)),
    {
        match self.try_read_bytes(n) {
            Some(v) => v,
            None => Vec::new(),
        }
    }

    /// Reads one byte when there is one.
    pub fn try_read_byte(&mut self) -> (r: Option<u8>)
        ensures
            final(self).id == old(self).id,
            match parse_u8(old(self).data@) {
                Some((v, rest)) => r == Some(v) && final(self).data@ == rest,
                None => r is None && final(self).data@ == old(self).data@,
            },
    {
        if self.data.len() < 1 {
            return None;
        }
        let v = self.data[0];
        self.drop_front(1);
        Some(v)
    }

    /// Reads one byte.
    pub fn read_byte(&mut self) -> (r: u8)
        requires
            old(self).data@.len() >= 1,
        ensures
            final(self).id == old(self).id,
            parse_u8(old(self).data@) == Some((r, final(self).data@)),
    {
        match self.try_read_byte() {
            Some(v) => v,
            None => 0,
        }
    }

    /// Reads a big-endian unsigned 16-bit integer when there are two bytes.
    pub fn try_read_ushort(&mut self) -> (r: Option<u16>)
        ensures
            final(self).id == old(self).id,
            match parse_u16(old(self).data@) {
                Some((v, rest)) => r == Some(v) && final(self).data@ == rest,
                None => r is None && final(self).data@ == old(self).data@,
            },
    {
        if self.data.len() < 2 {
            return None;
        }
        let v = ((self.data[0] as u16) << 8u16) | (self.data[1] as u16);
        self.drop_front(2);
        Some(v)
    }

    /// Reads a big-endian unsigned 16-bit integer.
    pub fn read_ushort(&mut self) -> (r: u16)
        requires
            old(self).data@.len() >= 2,
        ensures
            final(self).id == old(self).id,
            parse_u16(old(self).data@) == Some((r, final(self).data@)),
    {
        match self.try_read_ushort() {
            Some(v) => v,
            None => 0,
        }
    }

    /// Reads a big-endian signed 16-bit integer.
    pub fn read_short(&mut self) -> (r: i16)
        requires
            old(self).data@.len() >= 2,
        ensures
            final(self).id == old(self).id,
            parse_u16(old(self).data@) == Some((r as u16, final(self).data@)),
    {
        let v = self.read_ushort();
        assert(((v as i16) as u16) == v) by (bit_vector);
        v as i16
    }

    /// Reads a big-endian unsigned 32-bit integer when there are four bytes.
    pub fn try_read_uint(&mut self) -> (r: Option<u32>)
        ensures
            final(self).id == old(self).id,
            match parse_u32(old(self).data@) {
                Some((v, rest)) => r == Some(v) && final(self).data@ == rest,
                None => r is None && final(self).data@ == old(self).data@,
            },
    {
        if self.data.len() < 4 {
            return None;
        }
        let v = ((self.data[0] as u32) << 24u32) | ((self.data[1] as u32) << 16u32) | ((
        self.data[2] as u32) << 8u32) | (self.data[3] as u32);
        self.drop_front(4);
        Some(v)
    }

    /// Reads a big-endian signed 32-bit integer.
    pub fn read_int(&mut self) -> (r: i32)
        requires
            old(self).data@.len() >= 4,
        ensures
            final(self).id == old(self).id,
            parse_u32(old(self).data@) == Some((r as u32, final(self).data@)),
    {
        let v = match self.try_read_uint() {
            Some(v) => v,
            None => 0,
        };
        assert(((v as i32) as u32) == v) by (bit_vector);
        v as i32
    }

    /// Reads a big-endian unsigned 64-bit integer when there are eight bytes.
    pub fn try_read_ulong(&mut self) -> (r: Option<u64>)
        ensures
            final(self).id == old(self).id,
            match parse_u64(old(self).data@) {
                Some((v, rest)) => r == Some(v) && final(self).data@ == rest,
                None => r is None && final(self).data@ == old(self).data@,
            },
    {
        if self.data.len() < 8 {
            return None;
        }
        let v = ((self.data[0] as u64) << 56u64) | ((self.data[1] as u64) << 48u64) | ((
        self.data[2] as u64) << 40u64) | ((self.data[3] as u64) << 32u64) | ((
        self.data[4] as u64) << 24u64) | ((self.data[5] as u64) << 16u64) | ((
        self.data[6] as u64) << 8u64) | (self.data[7] as u64);
        self.drop_front(8);
        Some(v)
    }

    /// Reads a big-endian unsigned 64-bit integer.
    pub fn read_ulong(&mut self) -> (r: u64)
        requires
            old(self).data@.len() >= 8,
        ensures
            final(self).id == old(self).id,
            parse_u64(old(self).data@) == Some((r, final(self).data@)),
    {
        match self.try_read_ulong() {
            Some(v) => v,
            None => 0,
        }
    }

    /// Reads a big-endian signed 64-bit integer.
    pub fn read_long(&mut self) -> (r: i64)
        requires
            old(self).data@.len() >= 8,
        ensures
            final(self).id == old(self).id,
            parse_u64(old(self).data@) == Some((r as u64, final(self).data@)),
    {
        let v = self.read_ulong();
        assert(((v as i64) as u64) == v) by (bit_vector);
        v as i64
    }

    /// Reads a UUID (most significant 64 bits first) when there are sixteen bytes.
    pub fn try_read_uuid(&mut self) -> (r: Option<u128>)
        ensures
            final(self).id == old(self).id,
            match parse_uuid(old(self).data@) {
                Some((v, rest)) => r == Some(v) && final(self).data@ == rest,
                None => r is None && final(self).data@ == old(self).data@,
            },
    {
        if self.data.len() < 16 {
            return None;
        }
        let hi = self.read_ulong();
        let lo = self.read_ulong();
        Some(((hi as u128) << 64u128) | (lo as u128))
    }

    /// Reads a UUID (most significant 64 bits first).
    pub fn read_uuid(&mut self) -> (r: u128)
        requires
            old(self).data@.len() >= 16,
        ensures
            final(self).id == old(self).id,
            parse_uuid(old(self).data@) == Some((r, final(self).data@)),
    {
        match self.try_read_uuid() {
            Some(v) => v,
            None => 0,
        }
    }

    /// Reads a boolean: true exactly when the byte is 1.
    pub fn read_bool(&mut self) -> (r: bool)
        requires
            old(self).data@.len() >= 1,
        ensures
            final(self).id == old(self).id,
            r == (old(self).data@[0] == 1),
            final(self).data@ == old(self).data@.skip(1),
    {
        self.read_byte() == 1
    }

    /// Reads `n` bytes of UTF-8 that start at `start`, without consuming them.
    fn peek_utf8(&self, start: usize, n: usize) -> (r: Option<String>)
        requires
            start <= self.data@.len(),
        ensures
            match parse_utf8(n as int, self.data@.skip(start as int)) {
                Some((c, rest)) => r matches Some(t) && t@ == c && start + n <= self.data@.len()
                    && rest == self.data@.skip(start + n),
                None => r is None,
            },
    {
        let ghost s = self.data@.skip(start as int);
        if n > self.data.len() - start {
            return None;
        }
        let end = start + n;
        let bytes = self.copy_range(start, end);
        assert(bytes@ =~= s.take(n as int));
        assert(s.skip(n as int) =~= self.data@.skip(start + n));
        utf8_to_string(bytes)
    }

    /// Reads a string with a VarInt length when the buffer holds a whole
    /// valid one; otherwise returns `None` and leaves the buffer as it was.
    pub fn try_read_string(&mut self) -> (r: Option<String>)
        ensures
            final(self).id == old(self).id,
            match parse_string(old(self).data@) {
                Some((c, rest)) => r matches Some(t) && t@ == c && final(self).data@ == rest,
                None => r is None && final(self).data@ == old(self).data@,
            },
    {
        assert(self.data@.skip(0) =~= self.data@);
        match self.peek_varint(0) {
            Some((len, n)) => {
                if len < 0 {
                    return None;
                }
                let len = len as u32 as usize;
                if len > self.data.len() - n {
                    return None;
                }
                let r = self.peek_utf8(n, len);
                match r {
                    Some(t) => {
                        self.drop_front(n + len);
                        Some(t)
                    },
                    None => None,
                }
            },
            None => None,
        }
    }

    /// Reads a string with a VarInt length.
    pub fn read_string(&mut self) -> (r: String)
        requires
            parse_string(old(self).data@) is Some,
        ensures
            final(self).id == old(self).id,
            parse_string(old(self).data@) == Some((r@, final(self).data@)),
    {
        match self.try_read_string() {
            Some(t) => t,
            None => String::new(),
        }
    }

    /// Reads a string with a 16-bit length when the buffer holds a whole valid one.
    pub fn try_read_string_ushort(&mut self) -> (r: Option<String>)
        ensures
            final(self).id == old(self).id,
            match parse_string_ushort(old(self).data@) {
                Some((c, rest)) => r matches Some(t) && t@ == c && final(self).data@ == rest,
                None => r is None && final(self).data@ == old(self).data@,
            },
    {
        if self.data.len() < 2 {
            return None;
        }
        let len = ((self.data[0] as u16) << 8u16) | (self.data[1] as u16);
        match self.peek_utf8(2, len as usize) {
            Some(t) => {
                self.drop_front(2 + len as usize);
                Some(t)
            },
            None => None,
        }
    }

    /// Reads a string with a 16-bit length.
    pub fn read_string_ushort(&mut self) -> (r: String)
        requires
            parse_string_ushort(old(self).data@) is Some,
        ensures
            final(self).id == old(self).id,
            parse_string_ushort(old(self).data@) == Some((r@, final(self).data@)),
    {
        match self.try_read_string_ushort() {
            Some(t) => t,
            None => String::new(),
        }
    }

    /// Appends bytes.
    pub fn write_bytes(&mut self, bytes: Vec<u8>)
        ensures
            final(self).id == old(self).id,
            final(self).data@ == old(self).data@ + bytes@,
    {
        let mut bytes = bytes;
        self.data.append(&mut bytes);
    }

    /// Appends a big-endian unsigned 16-bit integer.
    pub fn write_ushort(&mut self, v: u16)
        ensures
            final(self).id == old(self).id,
            final(self).data@ == old(self).data@ + be16_bytes(v),
    {
        self.write_byte((v >> 8u16) as u8);
        self.write_byte(v as u8);
        assert(self.data@ =~= old(self).data@ + be16_bytes(v));
    }

    /// Appends a big-endian signed 16-bit integer.
    pub fn write_short(&mut self, v: i16)
        ensures
            final(self).id == old(self).id,
            final(self).data@ == old(self).data@ + be16_bytes(v as u16),
    {
        self.write_ushort(v as u16);
    }

    /// Appends a big-endian unsigned 32-bit integer.
    pub fn write_uint(&mut self, v: u32)
        ensures
            final(self).id == old(self).id,
            final(self).data@ == old(self).data@ + be32_bytes(v),
    {
        self.write_byte((v >> 24u32) as u8);
        self.write_byte((v >> 16u32) as u8);
        self.write_byte((v >> 8u32) as u8);
        self.write_byte(v as u8);
        assert(self.data@ =~= old(self).data@ + be32_bytes(v));
    }

    /// Appends a big-endian signed 32-bit integer.
    pub fn write_int(&mut self, v: i32)
        ensures
            final(self).id == old(self).id,
            final(self).data@ == old(self).data@ + be32_bytes(v as u32),
    {
        self.write_uint(v as u32);
    }

    /// Appends a big-endian unsigned 64-bit integer.
    pub fn write_ulong(&mut self, v: u64)
        ensures
            final(self).id == old(self).id,
            final(self).data@ == old(self).data@ + be64_bytes(v),
    {
        self.write_byte((v >> 56u64) as u8);
        self.write_byte((v >> 48u64) as u8);
        self.write_byte((v >> 40u64) as u8);
        self.write_byte((v >> 32u64) as u8);
        self.write_byte((v >> 24u64) as u8);
        self.write_byte((v >> 16u64) as u8);
        self.write_byte((v >> 8u64) as u8);
        self.write_byte(v as u8);
        assert(self.data@ =~= old(self).data@ + be64_bytes(v));
    }

    /// Appends a big-endian signed 64-bit integer.
    pub fn write_long(&mut self, v: i64)
        ensures
            final(self).id == old(self).id,
            final(self).data@ == old(self).data@ + be64_bytes(v as u64),
    {
        self.write_ulong(v as u64);
    }

    /// Appends a boolean as one byte, 1 or 0.
    pub fn write_bool(&mut self, b: bool)
        ensures
            final(self).id == old(self).id,
            final(self).data@ == old(self).data@.push(if b { 1u8 } else { 0u8 }),
    {
        self.write_byte(if b { 1 } else { 0 });
    }

    /// Appends the UTF-8 bytes of `s` without a length.
    fn write_utf8(&mut self, s: &str)
        ensures
            final(self).id == old(self).id,
            final(self).data@ == old(self).data@ + encode_utf8(s@),
    {
        let bytes = s.as_bytes();
        let mut i: usize = 0;
        while i < bytes.len()
            invariant
                self.id == old(self).id,
                bytes@ == encode_utf8(s@),
                i <= bytes@.len(),
                self.data@ == old(self).data@ + bytes@.take(i as int),
            decreases bytes@.len() - i,
        {
            self.data.push(bytes[i]);
            i = i + 1;
            assert(self.data@ =~= old(self).data@ + bytes@.take(i as int));
        }
        assert(bytes@.take(i as int) =~= bytes@);
    }

    /// Appends a string with a VarInt length.
    pub fn write_string(&mut self, s: &str)
        requires
            encode_utf8(s@).len() <= i32::MAX,
        ensures
            final(self).id == old(self).id,
            final(self).data@ == old(self).data@ + string_bytes(s@),
    {
        self.write_varint(s.len() as i32);
        self.write_utf8(s);
        assert(self.data@ =~= old(self).data@ + string_bytes(s@));
    }

    /// Appends a string with a 16-bit length.
    pub fn write_string_ushort(&mut self, s: &str)
        requires
            encode_utf8(s@).len() <= u16::MAX,
        ensures
            final(self).id == old(self).id,
            final(self).data@ == old(self).data@ + string_ushort_bytes(s@),
    {
        self.write_ushort(s.len() as u16);
        self.write_utf8(s);
        assert(self.data@ =~= old(self).data@ + string_ushort_bytes(s@));
    }
}

/// Relies on `String::from_utf8`: it accepts exactly the valid UTF-8 byte
/// sequences and then holds the characters they encode.
#[verifier::external_body]
fn utf8_to_string(bytes: Vec<u8>) -> (r: Option<String>)
    ensures
        r is Some <==> valid_utf8(bytes@),
        r matches Some(t) ==> t@ == decode_utf8(bytes@),
{
    String::from_utf8(bytes).ok()
}

/// Turns a value into the packet that carries it.
/// `None` when a string of the value is too long for its length prefix.
pub trait IntoPacket: Sized {
    /// Whether every length of the value fits its prefix.
    spec fn fits(&self) -> bool;

    /// The id and body of the packet that carries the value.
    spec fn packet_of(&self, protocol_version: i32) -> (i32, Seq<u8>);

    fn into_packet(self, protocol_version: i32) -> (r: Option<RawPacket>)
        ensures
            r is Some <==> self.fits(),
            r matches Some(p) ==> (p.id, p.data@) == self.packet_of(protocol_version),
    ;
}

impl IntoPacket for RawPacket {
    open spec fn fits(&self) -> bool {
        true
    }

    open spec fn packet_of(&self, protocol_version: i32) -> (i32, Seq<u8>) {
        (self.id, self.data@)
    }

    fn into_packet(self, protocol_version: i32) -> (r: Option<RawPacket>) {
        Some(self)
    }
}

} // verus!
