//! Byte buffers of the `bytes` crate, seen through their contents, and the
//! big-endian fixed-width integers that the protocol reads from and writes to them.
use vstd::prelude::*;
use bytes::{Buf, BufMut, Bytes, BytesMut};

verus! {

#[verifier::external_type_specification]
#[verifier::external_body]
pub struct ExBytes(Bytes);

#[verifier::external_type_specification]
#[verifier::external_body]
pub struct ExBytesMut(BytesMut);

/// The bytes that a `Bytes` cursor has not yet consumed.
pub uninterp spec fn bytes_view(b: Bytes) -> Seq<u8>;

/// The bytes held by a `BytesMut` buffer.
pub uninterp spec fn bytes_mut_view(b: BytesMut) -> Seq<u8>;

// ── Trusted calls into `bytes` ───────────────────────────────

/// `Buf::remaining` of `Bytes`: the number of unread bytes.
#[verifier::external_body]
pub(crate) fn bytes_remaining(b: &Bytes) -> (r: usize)
    ensures
        r == bytes_view(*b).len(),
{
    b.remaining()
}

/// `Buf::get_u8` of `Bytes`: takes the first unread byte (it panics on an empty cursor).
#[verifier::external_body]
pub(crate) fn bytes_get_u8(b: &mut Bytes) -> (r: u8)
    requires
        bytes_view(*old(b)).len() >= 1,
    ensures
        r == bytes_view(*old(b))[0],
        bytes_view(*final(b)) == bytes_view(*old(b)).skip(1),
{
    b.get_u8()
}

/// `Buf::advance` of `Bytes`: drops the first `n` unread bytes (it panics past the end).
#[verifier::external_body]
pub(crate) fn bytes_advance(b: &mut Bytes, n: usize)
    requires
        n <= bytes_view(*old(b)).len(),
    ensures
        bytes_view(*final(b)) == bytes_view(*old(b)).skip(n as int),
{
    b.advance(n)
}

/// `Bytes::split_to`: returns the first `n` bytes and keeps the rest (it panics past the end).
#[verifier::external_body]
pub(crate) fn bytes_split_to(b: &mut Bytes, n: usize) -> (r: Bytes)
    requires
        n <= bytes_view(*old(b)).len(),
    ensures
        bytes_view(r) == bytes_view(*old(b)).take(n as int),
        bytes_view(*final(b)) == bytes_view(*old(b)).skip(n as int),
{
    b.split_to(n)
}

/// `Bytes::copy_from_slice`: a cursor over a copy of `s`.
#[verifier::external_body]
pub(crate) fn bytes_copy_from_slice(s: &[u8]) -> (r: Bytes)
    ensures
        bytes_view(r) == s@,
{
    Bytes::copy_from_slice(s)
}

/// `Bytes::from(Vec<u8>)`: a cursor over the vector's bytes.
#[verifier::external_body]
pub(crate) fn bytes_from_vec(v: Vec<u8>) -> (r: Bytes)
    ensures
        bytes_view(r) == v@,
{
    Bytes::from(v)
}

/// `Bytes::as_ref`: the unread bytes as a slice.
#[verifier::external_body]
pub(crate) fn bytes_as_slice(b: &Bytes) -> (r: &[u8])
    ensures
        r@ == bytes_view(*b),
{
    b.as_ref()
}

/// `Bytes::clone`: a second cursor over the same unread bytes.
#[verifier::external_body]
pub(crate) fn bytes_clone(b: &Bytes) -> (r: Bytes)
    ensures
        bytes_view(r) == bytes_view(*b),
{
    b.clone()
}

/// `BytesMut::new`: an empty buffer.
#[verifier::external_body]
pub(crate) fn bytes_mut_new() -> (r: BytesMut)
    ensures
        bytes_mut_view(r) == Seq::<u8>::empty(),
{
    BytesMut::new()
}

/// `BytesMut::with_capacity`: an empty buffer with room reserved.
#[verifier::external_body]
pub(crate) fn bytes_mut_with_capacity(cap: usize) -> (r: BytesMut)
    ensures
        bytes_mut_view(r) == Seq::<u8>::empty(),
{
    BytesMut::with_capacity(cap)
}

/// `BytesMut::from(&[u8])`: a buffer holding a copy of `s`.
#[verifier::external_body]
pub(crate) fn bytes_mut_from_slice(s: &[u8]) -> (r: BytesMut)
    ensures
        bytes_mut_view(r) == s@,
{
    BytesMut::from(s)
}

/// `BufMut::put_u8` of `BytesMut`: appends one byte.
#[verifier::external_body]
pub(crate) fn bytes_mut_put_u8(b: &mut BytesMut, v: u8)
    ensures
        bytes_mut_view(*final(b)) == bytes_mut_view(*old(b)).push(v),
{
    b.put_u8(v)
}

/// `BytesMut::extend_from_slice`: appends the bytes of `s`.
#[verifier::external_body]
pub(crate) fn bytes_mut_extend_from_slice(b: &mut BytesMut, s: &[u8])
    ensures
        bytes_mut_view(*final(b)) == bytes_mut_view(*old(b)) + s@,
{
    b.extend_from_slice(s)
}

/// `BytesMut::as_ref`: the held bytes as a slice.
#[verifier::external_body]
pub(crate) fn bytes_mut_as_slice(b: &BytesMut) -> (r: &[u8])
    ensures
        r@ == bytes_mut_view(*b),
{
    b.as_ref()
}

/// `Buf::advance` of `BytesMut`: drops the first `n` bytes (it panics past the end).
#[verifier::external_body]
pub(crate) fn bytes_mut_advance(b: &mut BytesMut, n: usize)
    requires
        n <= bytes_mut_view(*old(b)).len(),
    ensures
        bytes_mut_view(*final(b)) == bytes_mut_view(*old(b)).skip(n as int),
{
    b.advance(n)
}

/// `BytesMut::split_to`: returns the first `n` bytes and keeps the rest (it panics past the end).
#[verifier::external_body]
pub(crate) fn bytes_mut_split_to(b: &mut BytesMut, n: usize) -> (r: BytesMut)
    requires
        n <= bytes_mut_view(*old(b)).len(),
    ensures
        bytes_mut_view(r) == bytes_mut_view(*old(b)).take(n as int),
        bytes_mut_view(*final(b)) == bytes_mut_view(*old(b)).skip(n as int),
{
    b.split_to(n)
}

/// `BytesMut::freeze`: the same bytes as an immutable `Bytes` cursor.
#[verifier::external_body]
pub(crate) fn bytes_mut_freeze(b: BytesMut) -> (r: Bytes)
    ensures
        bytes_view(r) == bytes_mut_view(b),
{
    b.freeze()
}

/// `Vec::<u8>::from(BytesMut)`: the held bytes as a vector.
#[verifier::external_body]
pub(crate) fn bytes_mut_into_vec(b: BytesMut) -> (r: Vec<u8>)
    ensures
        r@ == bytes_mut_view(b),
{
    Vec::from(b)
}

// ── Big-endian integers ──────────────────────────────────────

/// 256 to the power `n`.
pub open spec fn pow256(n: nat) -> nat
    decreases n,
{
    if n == 0 { 1 } else { 256 * pow256((n - 1) as nat) }
}

/// The unsigned value of `s` read as a big-endian number.
pub open spec fn be_value(s: Seq<u8>) -> nat
    decreases s.len(),
{
    if s.len() == 0 { 0 } else { be_value(s.drop_last()) * 256 + (s.last() as nat) }
}

/// The low `n` bytes of `v`, most significant first.
pub open spec fn be_bytes(v: nat, n: nat) -> Seq<u8>
    decreases n,
{
    if n == 0 { Seq::empty() } else { be_bytes(v / 256, (n - 1) as nat).push((v % 256) as u8) }
}

/// Reinterprets the low 16 bits of `v` as a two's complement number.
pub open spec fn signed16(v: nat) -> int {
    let u = v % 0x1_0000;
    if u < 0x8000 { u as int } else { u - 0x1_0000 }
}

/// Reinterprets the low 32 bits of `v` as a two's complement number.
pub open spec fn signed32(v: nat) -> int {
    let u = v % 0x1_0000_0000;
    if u < 0x8000_0000 { u as int } else { u - 0x1_0000_0000 }
}

/// Reinterprets the low 64 bits of `v` as a two's complement number.
pub open spec fn signed64(v: nat) -> int {
    let u = v % 0x1_0000_0000_0000_0000;
    if u < 0x8000_0000_0000_0000 { u as int } else { u - 0x1_0000_0000_0000_0000 }
}

/// Two's complement bits of `v` as an unsigned number below `2^32`.
pub open spec fn unsigned32(v: int) -> nat {
    (if v >= 0 { v } else { v + 0x1_0000_0000 }) as nat
}

/// Two's complement bits of `v` as an unsigned number below `2^64`.
pub open spec fn unsigned64(v: int) -> nat {
    (if v >= 0 { v } else { v + 0x1_0000_0000_0000_0000 }) as nat
}

/// Two's complement bits of `v` as an unsigned number below `2^16`.
pub open spec fn unsigned16(v: int) -> nat {
    (if v >= 0 { v } else { v + 0x1_0000 }) as nat
}

pub proof fn lemma_pow256_pos(n: nat)
    ensures
        pow256(n) >= 1,
    decreases n,
{
    if n > 0 {
        lemma_pow256_pos((n - 1) as nat);
    }
}

pub proof fn lemma_be_value_bound(s: Seq<u8>)
    ensures
        be_value(s) < pow256(s.len()),
    decreases s.len(),
{
    if s.len() > 0 {
        lemma_be_value_bound(s.drop_last());
        let a = be_value(s.drop_last());
        let p = pow256((s.len() - 1) as nat);
        assert(a * 256 + s.last() < 256 * p) by (nonlinear_arith)
            requires
                a < p,
                s.last() < 256,
        ;
    }
}

pub proof fn lemma_be_bytes_len(v: nat, n: nat)
    ensures
        be_bytes(v, n).len() == n,
    decreases n,
{
    if n > 0 {
        lemma_be_bytes_len(v / 256, (n - 1) as nat);
    }
}

/// Reading back `n` big-endian bytes gives the value modulo `256^n`.
pub proof fn lemma_be_value_of_bytes(v: nat, n: nat)
    ensures
        be_value(be_bytes(v, n)) == v % pow256(n),
    decreases n,
{
    lemma_be_bytes_len(v, n);
    if n > 0 {
        let m = (n - 1) as nat;
        lemma_be_value_of_bytes(v / 256, m);
        let s = be_bytes(v, n);
        assert(s.drop_last() =~= be_bytes(v / 256, m));
        lemma_pow256_pos(m);
        let p = pow256(m);
        let q = v / 256;
        let r = v % 256;
        assert(((q % p) * 256 + r) == v % (256 * p)) by (nonlinear_arith)
            requires
                p >= 1,
                q == v / 256,
                r == v % 256,
        {
            assert(v == 256 * q + r);
            assert(q == p * (q / p) + q % p);
            assert(v == (256 * p) * (q / p) + ((q % p) * 256 + r));
            assert(0 <= (q % p) * 256 + r < 256 * p);
        }
    }
}

/// Writing back the value of `s` gives `s` again.
pub proof fn lemma_be_bytes_of_value(s: Seq<u8>)
    ensures
        be_bytes(be_value(s), s.len()) == s,
    decreases s.len(),
{
    if s.len() > 0 {
        let t = s.drop_last();
        lemma_be_bytes_of_value(t);
        let v = be_value(s);
        assert(v / 256 == be_value(t));
        assert(v % 256 == s.last());
        assert(be_bytes(v, s.len()) =~= be_bytes(be_value(t), t.len()).push(s.last()));
        assert(t.push(s.last()) =~= s);
    }
}

/// Reads `n` bytes as a big-endian unsigned number.
pub fn get_be(b: &mut Bytes, n: usize) -> (r: u128)
    requires
        n <= 16,
        n <= bytes_view(*old(b)).len(),
    ensures
        r == be_value(bytes_view(*old(b)).take(n as int)),
        bytes_view(*final(b)) == bytes_view(*old(b)).skip(n as int),
{
    let ghost s = bytes_view(*b);
    let mut acc: u128 = 0;
    let mut i: usize = 0;
    while i < n
        invariant
            i <= n <= 16,
            n <= s.len(),
            bytes_view(*b) == s.skip(i as int),
            acc == be_value(s.take(i as int)),
        decreases n - i,
    {
        proof {
            lemma_be_value_bound(s.take(i as int));
            lemma_pow256_15(i as nat);
        }
        let byte = bytes_get_u8(b);
        proof {
            assert(s.take(i + 1).drop_last() =~= s.take(i as int));
            assert(s.skip(i as int)[0] == s[i as int]);
            assert(s.skip(i as int).skip(1) =~= s.skip(i + 1));
        }
        acc = acc * 256 + byte as u128;
        i = i + 1;
    }
    acc
}

proof fn lemma_pow256_15(i: nat)
    requires
        i < 16,
    ensures
        pow256(i) <= pow256(15),
        pow256(15) == 0x1_0000_0000_0000_0000_0000_0000_0000_00,
    decreases 15 - i,
{
    reveal_with_fuel(pow256, 16);
    if i < 15 {
        lemma_pow256_15(i + 1);
        lemma_pow256_pos(i);
    }
}

/// `Buf::get_u16`: a big-endian unsigned 16-bit number.
pub fn get_u16(b: &mut Bytes) -> (r: u16)
    requires
        bytes_view(*old(b)).len() >= 2,
    ensures
        r == be_value(bytes_view(*old(b)).take(2)),
        bytes_view(*final(b)) == bytes_view(*old(b)).skip(2),
{
    proof {
        lemma_be_value_bound(bytes_view(*b).take(2));
        reveal_with_fuel(pow256, 3);
    }
    get_be(b, 2) as u16
}

/// `Buf::get_i8`: one byte as a signed number.
pub fn get_i8(b: &mut Bytes) -> (r: i8)
    requires
        bytes_view(*old(b)).len() >= 1,
    ensures
        r == (if bytes_view(*old(b))[0] < 128 { bytes_view(*old(b))[0] as int } else {
            bytes_view(*old(b))[0] - 256
        }),
        bytes_view(*final(b)) == bytes_view(*old(b)).skip(1),
{
    let u = bytes_get_u8(b);
    if u < 128 {
        u as i8
    } else {
        (u as i16 - 256) as i8
    }
}

/// `Buf::get_i16`: a big-endian two's complement 16-bit number.
pub fn get_i16(b: &mut Bytes) -> (r: i16)
    requires
        bytes_view(*old(b)).len() >= 2,
    ensures
        r == signed16(be_value(bytes_view(*old(b)).take(2))),
        bytes_view(*final(b)) == bytes_view(*old(b)).skip(2),
{
    let u = get_u16(b);
    if u < 0x8000 {
        u as i16
    } else {
        (u as i32 - 0x1_0000) as i16
    }
}

/// `Buf::get_i32`: a big-endian two's complement 32-bit number.
pub fn get_i32(b: &mut Bytes) -> (r: i32)
    requires
        bytes_view(*old(b)).len() >= 4,
    ensures
        r == signed32(be_value(bytes_view(*old(b)).take(4))),
        bytes_view(*final(b)) == bytes_view(*old(b)).skip(4),
{
    proof {
        lemma_be_value_bound(bytes_view(*b).take(4));
        reveal_with_fuel(pow256, 5);
    }
    let u = get_be(b, 4) as u32;
    if u < 0x8000_0000 {
        u as i32
    } else {
        (u as i64 - 0x1_0000_0000) as i32
    }
}

/// `Buf::get_i64`: a big-endian two's complement 64-bit number.
pub fn get_i64(b: &mut Bytes) -> (r: i64)
    requires
        bytes_view(*old(b)).len() >= 8,
    ensures
        r == signed64(be_value(bytes_view(*old(b)).take(8))),
        bytes_view(*final(b)) == bytes_view(*old(b)).skip(8),
{
    proof {
        lemma_be_value_bound(bytes_view(*b).take(8));
        reveal_with_fuel(pow256, 9);
    }
    let u = get_be(b, 8) as u64;
    if u < 0x8000_0000_0000_0000 {
        u as i64
    } else {
        (u as i128 - 0x1_0000_0000_0000_0000) as i64
    }
}

/// `Buf::get_u64`: a big-endian unsigned 64-bit number.
pub fn get_u64(b: &mut Bytes) -> (r: u64)
    requires
        bytes_view(*old(b)).len() >= 8,
    ensures
        r == be_value(bytes_view(*old(b)).take(8)),
        bytes_view(*final(b)) == bytes_view(*old(b)).skip(8),
{
    proof {
        lemma_be_value_bound(bytes_view(*b).take(8));
        reveal_with_fuel(pow256, 9);
    }
    get_be(b, 8) as u64
}

/// `Buf::get_u128`: a big-endian unsigned 128-bit number.
pub fn get_u128(b: &mut Bytes) -> (r: u128)
    requires
        bytes_view(*old(b)).len() >= 16,
    ensures
        r == be_value(bytes_view(*old(b)).take(16)),
        bytes_view(*final(b)) == bytes_view(*old(b)).skip(16),
{
    get_be(b, 16)
}

/// Appends the low `n` bytes of `v`, most significant first.
pub fn put_be(b: &mut BytesMut, v: u128, n: usize)
    requires
        n <= 16,
    ensures
        bytes_mut_view(*final(b)) == bytes_mut_view(*old(b)) + be_bytes(v as nat, n as nat),
    decreases n,
{
    if n > 0 {
        put_be(b, v / 256, n - 1);
        bytes_mut_put_u8(b, (v % 256) as u8);
        proof {
            assert(be_bytes(v as nat, n as nat) == be_bytes((v / 256) as nat, (n - 1) as nat).push(
                (v % 256) as u8,
            ));
            assert(bytes_mut_view(*old(b)) + be_bytes(v as nat, n as nat) =~= bytes_mut_view(
                *old(b),
            ) + be_bytes((v / 256) as nat, (n - 1) as nat) + seq![(v % 256) as u8]);
        }
    } else {
        proof {
            assert(bytes_mut_view(*old(b)) + Seq::<u8>::empty() =~= bytes_mut_view(*old(b)));
        }
    }
}

/// `BufMut::put_u16`: big-endian.
pub fn put_u16(b: &mut BytesMut, v: u16)
    ensures
        bytes_mut_view(*final(b)) == bytes_mut_view(*old(b)) + be_bytes(v as nat, 2),
{
    put_be(b, v as u128, 2)
}

/// `BufMut::put_i16`: big-endian two's complement.
pub fn put_i16(b: &mut BytesMut, v: i16)
    ensures
        bytes_mut_view(*final(b)) == bytes_mut_view(*old(b)) + be_bytes(unsigned16(v as int), 2),
{
    let u: u128 = if v >= 0 { v as u128 } else { (v as i32 + 0x1_0000) as u128 };
    put_be(b, u, 2)
}

/// `BufMut::put_i32`: big-endian two's complement.
pub fn put_i32(b: &mut BytesMut, v: i32)
    ensures
        bytes_mut_view(*final(b)) == bytes_mut_view(*old(b)) + be_bytes(unsigned32(v as int), 4),
{
    let u: u128 = if v >= 0 { v as u128 } else { (v as i64 + 0x1_0000_0000) as u128 };
    put_be(b, u, 4)
}

/// `BufMut::put_i64`: big-endian two's complement.
pub fn put_i64(b: &mut BytesMut, v: i64)
    ensures
        bytes_mut_view(*final(b)) == bytes_mut_view(*old(b)) + be_bytes(unsigned64(v as int), 8),
{
    let u: u128 = if v >= 0 { v as u128 } else { (v as i128 + 0x1_0000_0000_0000_0000) as u128 };
    put_be(b, u, 8)
}

/// `BufMut::put_u64`: big-endian.
pub fn put_u64(b: &mut BytesMut, v: u64)
    ensures
        bytes_mut_view(*final(b)) == bytes_mut_view(*old(b)) + be_bytes(v as nat, 8),
{
    put_be(b, v as u128, 8)
}

/// `BufMut::put_u128`: big-endian.
pub fn put_u128(b: &mut BytesMut, v: u128)
    ensures
        bytes_mut_view(*final(b)) == bytes_mut_view(*old(b)) + be_bytes(v as nat, 16),
{
    put_be(b, v, 16)
}

/// The signed reading of the two's complement bits of a 32-bit number is that number.
pub proof fn lemma_signed32_unsigned32(v: int)
    requires
        -0x8000_0000 <= v < 0x8000_0000,
    ensures
        signed32(unsigned32(v)) == v,
{
}

/// The signed reading of the two's complement bits of a 64-bit number is that number.
pub proof fn lemma_signed64_unsigned64(v: int)
    requires
        -0x8000_0000_0000_0000 <= v < 0x8000_0000_0000_0000,
    ensures
        signed64(unsigned64(v)) == v,
{
}

} // verus!
