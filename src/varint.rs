//! The VarInt wire format as mathematics: 7-bit groups, least significant
//! group first, the high bit of a byte set when another byte follows.
use vstd::prelude::*;

verus! {

/// The longest VarInt the reader accepts, in bytes.
pub const VARINT_MAX_BYTES: usize = 5;

/// Powers of 128.
pub open spec fn pow128(k: nat) -> nat
    decreases k,
{
    if k == 0 {
        1
    } else {
        128 * pow128((k - 1) as nat)
    }
}

/// The minimal encoding of a natural number in 7-bit groups.
pub open spec fn varint_bytes_nat(u: nat) -> Seq<u8>
    decreases u,
{
    if u < 128 {
        seq![u as u8]
    } else {
        seq![(u % 128 + 128) as u8] + varint_bytes_nat(u / 128)
    }
}

/// The bytes that encode `v`: its two's-complement 32-bit pattern in 7-bit groups.
pub open spec fn varint_bytes(v: i32) -> Seq<u8> {
    varint_bytes_nat(v as u32 as nat)
}

/// How many bytes a reader with a budget of `k` bytes takes from the head of `s`:
/// up to and including the first byte without the high bit, at most `k`.
/// The result exceeds `s.len()` when `s` ends before the VarInt does.
pub open spec fn varint_len_k(s: Seq<u8>, k: nat) -> nat
    decreases k,
{
    if k <= 1 || s.len() == 0 || s[0] < 128 {
        1
    } else {
        1 + varint_len_k(s.drop_first(), (k - 1) as nat)
    }
}

/// How many bytes the VarInt at the head of `s` occupies (1 to 5).
pub open spec fn varint_len(s: Seq<u8>) -> nat {
    varint_len_k(s, VARINT_MAX_BYTES as nat)
}

/// The groups of `s` read as a number, first byte least significant.
pub open spec fn varint_digits(s: Seq<u8>) -> nat
    decreases s.len(),
{
    if s.len() == 0 {
        0
    } else {
        (s[0] % 128) as nat + 128 * varint_digits(s.drop_first())
    }
}

/// The value of the VarInt at the head of `s`: bits beyond 32 are dropped.
pub open spec fn varint_value(s: Seq<u8>) -> i32 {
    (varint_digits(s.take(varint_len(s) as int)) as u32) as i32
}

/// The VarInt at the head of `s` with the bytes that follow it, or `None` when
/// `s` ends first.
pub open spec fn parse_varint(s: Seq<u8>) -> Option<(i32, Seq<u8>)> {
    if varint_len(s) <= s.len() {
        Some((varint_value(s), s.skip(varint_len(s) as int)))
    } else {
        None
    }
}

proof fn lemma_digits_of_bytes(u: nat)
    ensures
        varint_digits(varint_bytes_nat(u)) == u,
    decreases u,
{
    let b = varint_bytes_nat(u);
    if u < 128 {
        assert((u as u8) as nat == u);
        assert(b.drop_first() =~= Seq::<u8>::empty());
        assert(varint_digits(b) == (b[0] % 128) as nat + 128 * varint_digits(b.drop_first()));
    } else {
        assert(((u % 128 + 128) as u8) as nat == u % 128 + 128);
        lemma_digits_of_bytes(u / 128);
        assert(b.drop_first() =~= varint_bytes_nat(u / 128));
        assert(b[0] % 128 == u % 128);
        assert(varint_digits(b) == (b[0] % 128) as nat + 128 * varint_digits(b.drop_first()));
        assert(u == u % 128 + 128 * (u / 128));
    }
}

proof fn lemma_len_of_bytes(u: nat, k: nat, rest: Seq<u8>)
    requires
        varint_bytes_nat(u).len() <= k,
    ensures
        varint_len_k(varint_bytes_nat(u) + rest, k) == varint_bytes_nat(u).len(),
    decreases u,
{
    let b = varint_bytes_nat(u);
    if u >= 128 {
        lemma_len_of_bytes(u / 128, (k - 1) as nat, rest);
        assert((b + rest).drop_first() =~= varint_bytes_nat(u / 128) + rest);
    }
}

proof fn lemma_bytes_len_bound(u: nat, k: nat)
    requires
        k >= 1,
        u < pow128(k),
    ensures
        varint_bytes_nat(u).len() <= k,
    decreases k,
{
    if u >= 128 {
        assert(u / 128 < pow128((k - 1) as nat));
        lemma_bytes_len_bound(u / 128, (k - 1) as nat);
    }
}

proof fn lemma_bytes_len_minimal(u: nat, k: nat)
    requires
        varint_bytes_nat(u).len() <= k,
    ensures
        u < pow128(k),
    decreases u,
{
    lemma_pow128_positive((k - 1) as nat);
    if u >= 128 {
        lemma_bytes_len_minimal(u / 128, (k - 1) as nat);
    }
}

proof fn lemma_pow128_positive(k: nat)
    ensures
        pow128(k) >= 1,
    decreases k,
{
    if k > 0 {
        lemma_pow128_positive((k - 1) as nat);
    }
}

/// The encoding of any 32-bit value takes between one and five bytes.
pub proof fn lemma_varint_bytes_len(v: i32)
    ensures
        1 <= varint_bytes(v).len() <= VARINT_MAX_BYTES,
{
    reveal_with_fuel(pow128, 6);
    lemma_bytes_len_bound(v as u32 as nat, 5);
}

/// VarInt round trip: reading the encoding of `v`, followed by any bytes,
/// gives back `v`, consumes the encoding (one to five bytes) and leaves
/// the bytes that follow.
pub proof fn lemma_varint_round_trip(v: i32, rest: Seq<u8>)
    ensures
        parse_varint(varint_bytes(v) + rest) == Some((v, rest)),
        1 <= varint_bytes(v).len() <= VARINT_MAX_BYTES,
{
    let u = v as u32 as nat;
    let b = varint_bytes(v);
    lemma_varint_bytes_len(v);
    lemma_len_of_bytes(u, 5, rest);
    lemma_digits_of_bytes(u);
    assert((b + rest).take(b.len() as int) =~= b);
    assert((b + rest).skip(b.len() as int) =~= rest);
    assert((v as u32) as i32 == v) by (bit_vector);
}

/// The encoding of a non-negative value is minimal: it fits in `k` bytes
/// exactly when the value is below 128 to the power `k`.
pub proof fn lemma_varint_minimal(v: i32, k: nat)
    requires
        v >= 0,
        k >= 1,
    ensures
        varint_bytes(v).len() <= k <==> (v as int) < pow128(k),
{
    let u = v as u32 as nat;
    assert(u == v as int);
    if varint_bytes(v).len() <= k {
        lemma_bytes_len_minimal(u, k);
    }
    if (v as int) < pow128(k) {
        lemma_bytes_len_bound(u, k);
    }
}

} // verus!
