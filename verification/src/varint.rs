//! VarInt / VarLong: the variable-length integers of the Minecraft protocol.
//!
//! Each byte carries 7 data bits, least significant group first; a set high bit
//! means that another byte follows. A VarInt holds the two's complement bits of an
//! `i32` in 1 to 5 bytes, a VarLong those of an `i64` in 1 to 10 bytes.
use vstd::prelude::*;
use bytes::{Bytes, BytesMut};
use crate::buffers::{bytes_copy_from_slice, bytes_get_u8, bytes_mut_into_vec, bytes_mut_put_u8, bytes_mut_view, bytes_mut_with_capacity, bytes_remaining, bytes_view, lemma_signed32_unsigned32, lemma_signed64_unsigned64, signed32, signed64, unsigned32, unsigned64};

verus! {

/// Error during VarInt/VarLong decoding.
#[derive(Debug, Clone, Copy, PartialEq, Eq, Structural)]
pub enum VarIntError {
    /// A VarInt ran past 5 bytes.
    TooLarge,
    /// A VarLong ran past 10 bytes.
    VarLongTooLarge,
    /// The input ended before the last byte of the number.
    Incomplete,
}

/// The message of a VarInt error.
pub open spec fn varint_error_text(e: VarIntError) -> Seq<char> {
    match e {
        VarIntError::TooLarge => "VarInt too large: exceeds 5 bytes (max i32)"@,
        VarIntError::VarLongTooLarge => "VarLong too large: exceeds 10 bytes (max i64)"@,
        VarIntError::Incomplete => "incomplete: expected at least 1 byte"@,
    }
}

impl VarIntError {
    /// The message of this error.
    pub fn message(&self) -> (r: &'static str)
        ensures
            r@ == varint_error_text(*self),
    {
        match self {
            VarIntError::TooLarge => "VarInt too large: exceeds 5 bytes (max i32)",
            VarIntError::VarLongTooLarge => "VarLong too large: exceeds 10 bytes (max i64)",
            VarIntError::Incomplete => "incomplete: expected at least 1 byte",
        }
    }
}

// ── Specification ────────────────────────────────────────────

/// 128 to the power `n`.
pub open spec fn pow128(n: nat) -> nat
    decreases n,
{
    if n == 0 { 1 } else { 128 * pow128((n - 1) as nat) }
}

/// The variable-length encoding of the unsigned number `v`.
pub open spec fn varint_bytes(v: nat) -> Seq<u8>
    decreases v,
{
    if v < 128 {
        seq![v as u8]
    } else {
        seq![(v % 128 + 128) as u8] + varint_bytes(v / 128)
    }
}

/// Where a variable-length number at the front of `s` ends, reading at most
/// `budget` bytes: `Ok(n)` when its last byte is the `n`-th, `Incomplete` when `s`
/// ends first, `TooLarge` when `budget` bytes all announce a further byte.
pub open spec fn scan_var(s: Seq<u8>, budget: nat) -> Result<nat, VarIntError>
    decreases budget,
{
    if s.len() == 0 {
        Err(VarIntError::Incomplete)
    } else if s[0] < 128 {
        Ok(1)
    } else if budget <= 1 {
        Err(VarIntError::TooLarge)
    } else {
        match scan_var(s.drop_first(), (budget - 1) as nat) {
            Ok(n) => Ok(n + 1),
            Err(e) => Err(e),
        }
    }
}

/// The number that the 7-bit groups of the first `n` bytes of `s` spell.
pub open spec fn groups_value(s: Seq<u8>, n: nat) -> nat
    decreases n,
{
    if n == 0 || s.len() == 0 {
        0
    } else {
        (s[0] % 128) as nat + 128 * groups_value(s.drop_first(), (n - 1) as nat)
    }
}

/// How many bytes a VarInt reading of `s` consumes: the whole number, all of `s`
/// when it ends too early, or the 5 bytes that proved the number too large.
pub open spec fn consumed(s: Seq<u8>, scan: Result<nat, VarIntError>, budget: nat) -> nat {
    match scan {
        Ok(n) => n,
        Err(VarIntError::Incomplete) => s.len(),
        Err(_) => budget,
    }
}

/// The VarInt decoding of the front of `s`: the value and the bytes it took.
pub open spec fn decode_varint(s: Seq<u8>) -> Result<(int, nat), VarIntError> {
    match scan_var(s, 5) {
        Ok(n) => Ok((signed32(groups_value(s, n)), n)),
        Err(e) => Err(e),
    }
}

/// The VarLong decoding of the front of `s`: the value and the bytes it took.
pub open spec fn decode_varlong(s: Seq<u8>) -> Result<(int, nat), VarIntError> {
    match scan_var(s, 10) {
        Ok(n) => Ok((signed64(groups_value(s, n)), n)),
        Err(VarIntError::Incomplete) => Err(VarIntError::Incomplete),
        Err(_) => Err(VarIntError::VarLongTooLarge),
    }
}

/// The bytes of the VarInt that holds `v`.
pub open spec fn varint_of(v: i32) -> Seq<u8> {
    varint_bytes(unsigned32(v as int))
}

/// The bytes of the VarLong that holds `v`.
pub open spec fn varlong_of(v: i64) -> Seq<u8> {
    varint_bytes(unsigned64(v as int))
}

// ── Lemmas ───────────────────────────────────────────────────

pub proof fn lemma_pow128_pos(n: nat)
    ensures
        pow128(n) >= 1,
    decreases n,
{
    if n > 0 {
        lemma_pow128_pos((n - 1) as nat);
    }
}

/// An encoding is never empty, and only its last byte has the high bit clear.
pub proof fn lemma_varint_bytes_shape(v: nat)
    ensures
        varint_bytes(v).len() >= 1,
        varint_bytes(v).last() < 128,
        forall|i: int| 0 <= i < varint_bytes(v).len() - 1 ==> varint_bytes(v)[i] >= 128,
    decreases v,
{
    if v >= 128 {
        lemma_varint_bytes_shape(v / 128);
        let t = varint_bytes(v / 128);
        let s = varint_bytes(v);
        assert(s =~= seq![(v % 128 + 128) as u8] + t);
        assert forall|i: int| 0 <= i < s.len() - 1 implies s[i] >= 128 by {
            if i > 0 {
                assert(s[i] == t[i - 1]);
            }
        }
    }
}

/// The length of the encoding of `v` is `k` exactly when `v` needs `k` groups.
pub proof fn lemma_varint_len(v: nat, k: nat)
    requires
        k >= 1,
        v < pow128(k),
        k == 1 || v >= pow128((k - 1) as nat),
    ensures
        varint_bytes(v).len() == k,
    decreases k,
{
    if k > 1 {
        let p = pow128((k - 1) as nat);
        lemma_pow128_pos((k - 1) as nat);
        assert(v / 128 < p) by {
            assert(v < 128 * p);
            assert(v / 128 < p) by (nonlinear_arith)
                requires
                    v < 128 * p,
            ;
        }
        if k > 2 {
            let q = pow128((k - 2) as nat);
            assert(p == 128 * q);
            assert(v / 128 >= q) by (nonlinear_arith)
                requires
                    v >= 128 * q,
            ;
        }
        lemma_varint_len(v / 128, (k - 1) as nat);
        assert(v >= 128) by {
            lemma_pow128_pos((k - 1) as nat);
            reveal_with_fuel(pow128, 2);
            if k == 2 {
            } else {
                lemma_pow128_ge((k - 1) as nat);
            }
        }
    } else {
        reveal_with_fuel(pow128, 2);
    }
}

proof fn lemma_pow128_ge(n: nat)
    requires
        n >= 1,
    ensures
        pow128(n) >= 128,
    decreases n,
{
    reveal_with_fuel(pow128, 2);
    if n > 1 {
        lemma_pow128_ge((n - 1) as nat);
    }
}

/// Numbers below `128^k` need at most `k` groups.
pub proof fn lemma_varint_len_le(v: nat, k: nat)
    requires
        k >= 1,
        v < pow128(k),
    ensures
        varint_bytes(v).len() <= k,
    decreases k,
{
    if v >= 128 {
        if k == 1 {
            reveal_with_fuel(pow128, 2);
        } else {
            let p = pow128((k - 1) as nat);
            assert(v / 128 < p) by (nonlinear_arith)
                requires
                    v < 128 * p,
            ;
            lemma_varint_len_le(v / 128, (k - 1) as nat);
        }
    }
}

/// The value of the groups of a number's encoding, followed by anything, is the number.
pub proof fn lemma_groups_of_encoding(v: nat, rest: Seq<u8>)
    ensures
        groups_value(varint_bytes(v) + rest, varint_bytes(v).len()) == v,
    decreases v,
{
    let s = varint_bytes(v) + rest;
    if v < 128 {
        assert(s.drop_first() =~= rest);
        reveal_with_fuel(groups_value, 2);
    } else {
        lemma_groups_of_encoding(v / 128, rest);
        let t = varint_bytes(v / 128);
        assert(s.drop_first() =~= t + rest);
        assert(s[0] == (v % 128 + 128) as u8);
    }
}

/// Scanning a number's encoding, followed by anything, stops at its last byte.
pub proof fn lemma_scan_of_encoding(v: nat, rest: Seq<u8>, budget: nat)
    requires
        varint_bytes(v).len() <= budget,
    ensures
        scan_var(varint_bytes(v) + rest, budget) == Ok::<nat, VarIntError>(varint_bytes(v).len()),
    decreases v,
{
    let s = varint_bytes(v) + rest;
    if v >= 128 {
        lemma_varint_bytes_shape(v / 128);
        let t = varint_bytes(v / 128);
        assert(s.drop_first() =~= t + rest);
        lemma_scan_of_encoding(v / 128, rest, (budget - 1) as nat);
    }
}

pub proof fn lemma_groups_value_bound(s: Seq<u8>, n: nat)
    ensures
        groups_value(s, n) < pow128(n),
    decreases n,
{
    if n > 0 && s.len() > 0 {
        lemma_groups_value_bound(s.drop_first(), (n - 1) as nat);
        let g = groups_value(s.drop_first(), (n - 1) as nat);
        let p = pow128((n - 1) as nat);
        assert((s[0] % 128) as nat + 128 * g < 128 * p) by (nonlinear_arith)
            requires
                g < p,
                (s[0] % 128) < 128,
        ;
    } else {
        lemma_pow128_pos(n);
    }
}

/// The result of a scan depends only on the bytes it looked at.
pub proof fn lemma_scan_prefix(s: Seq<u8>, rest: Seq<u8>, budget: nat)
    requires
        scan_var(s, budget) is Ok,
    ensures
        scan_var(s + rest, budget) == scan_var(s, budget),
        scan_var(s, budget)->Ok_0 <= s.len(),
        groups_value(s + rest, scan_var(s, budget)->Ok_0) == groups_value(s, scan_var(s, budget)->Ok_0),
    decreases budget,
{
    let t = s + rest;
    assert(t[0] == s[0]);
    if s[0] >= 128 {
        assert(t.drop_first() =~= s.drop_first() + rest);
        lemma_scan_prefix(s.drop_first(), rest, (budget - 1) as nat);
    } else {
        reveal_with_fuel(groups_value, 2);
    }
}

proof fn lemma_pow128_facts()
    ensures
        pow128(1) == 0x80,
        pow128(2) == 0x4000,
        pow128(3) == 0x20_0000,
        pow128(4) == 0x1000_0000,
        pow128(5) == 0x8_0000_0000,
        pow128(9) == 0x8000_0000_0000_0000,
        pow128(10) == 0x40_0000_0000_0000_0000,
{
    reveal_with_fuel(pow128, 11);
}

// ── Decoding and encoding on byte buffers ────────────────────

/// Reads the 7-bit groups of one number, at most `budget` bytes.
fn read_groups(b: &mut Bytes, budget: usize) -> (r: Result<(u128, usize), VarIntError>)
    requires
        1 <= budget <= 10,
    ensures
        ({
            let s = bytes_view(*old(b));
            let sc = scan_var(s, budget as nat);
            &&& bytes_view(*final(b)) == s.skip(consumed(s, sc, budget as nat) as int)
            &&& (r matches Ok((_, n)) ==> 1 <= n <= budget && n <= s.len())
            &&& consumed(s, sc, budget as nat) <= s.len()
            &&& match sc {
                Ok(n) => r matches Ok((v, m)) && v == groups_value(s, n) && m == n,
                Err(e) => r == Err::<(u128, usize), VarIntError>(e),
            }
        }),
    decreases budget,
{
    let ghost s = bytes_view(*b);
    if bytes_remaining(b) == 0 {
        proof {
            assert(s.skip(s.len() as int) =~= s);
        }
        return Err(VarIntError::Incomplete);
    }
    let byte = bytes_get_u8(b);
    let low = (byte % 128) as u128;
    if byte < 128 {
        proof {
            reveal_with_fuel(groups_value, 2);
        }
        return Ok((low, 1));
    }
    if budget <= 1 {
        return Err(VarIntError::TooLarge);
    }
    let ghost t = bytes_view(*b);
    proof {
        assert(t =~= s.drop_first());
    }
    match read_groups(b, budget - 1) {
        Ok((rest, n)) => {
            proof {
                lemma_groups_value_bound(t, n as nat);
                lemma_pow128_mono(n as nat, 9);
                lemma_pow128_facts();
                assert(t.skip(n as int) =~= s.skip(n + 1));
            }
            Ok((low + 128 * rest, n + 1))
        },
        Err(e) => {
            proof {
                assert(consumed(t, scan_var(t, (budget - 1) as nat), (budget - 1) as nat) <= t.len());
                if e is Incomplete {
                    assert(t.skip(t.len() as int) =~= s.skip(s.len() as int));
                } else {
                    assert(t.skip((budget - 1) as int) =~= s.skip(budget as int));
                }
            }
            Err(e)
        },
    }
}

proof fn lemma_pow128_mono(a: nat, b: nat)
    requires
        a <= b,
    ensures
        pow128(a) <= pow128(b),
    decreases b,
{
    if a < b {
        lemma_pow128_mono(a, (b - 1) as nat);
        lemma_pow128_pos((b - 1) as nat);
    }
}

/// Appends the encoding of the unsigned number `v`.
fn put_groups(b: &mut BytesMut, v: u64)
    ensures
        bytes_mut_view(*final(b)) == bytes_mut_view(*old(b)) + varint_bytes(v as nat),
{
    let ghost start = bytes_mut_view(*b);
    let mut v = v;
    let ghost orig = v as nat;
    loop
        invariant_except_break
            bytes_mut_view(*b) + varint_bytes(v as nat) == start + varint_bytes(orig),
        ensures
            bytes_mut_view(*b) == start + varint_bytes(orig),
        decreases v,
    {
        let low = (v % 128) as u8;
        let ghost before = bytes_mut_view(*b);
        if v < 128 {
            bytes_mut_put_u8(b, low);
            proof {
                assert(before.push(low) =~= before + varint_bytes(v as nat));
            }
            break;
        }
        let high = low + 128;
        bytes_mut_put_u8(b, high);
        proof {
            assert(varint_bytes(v as nat) == seq![(v % 128 + 128) as u8] + varint_bytes(
                (v / 128) as nat,
            ));
            assert(before.push(high) + varint_bytes((v / 128) as nat) =~= before
                + varint_bytes(v as nat));
        }
        v = v / 128;
    }
}

// ── VarInt (i32) ────────────────────────────────────────────

/// A Minecraft VarInt: variable-length i32 using 1–5 bytes.
#[derive(Debug, Clone, Copy, PartialEq, Eq, Structural, Hash)]
pub struct VarInt(pub i32);

impl Default for VarInt {
    fn default() -> (r: Self)
        ensures
            r.0 == 0,
    {
        VarInt(0)
    }
}

impl VarInt {
    pub fn new(value: i32) -> (r: Self)
        ensures
            r.0 == value,
    {
        Self(value)
    }

    /// Number of bytes needed to encode this value.
    pub fn encoded_len(&self) -> (r: usize)
        ensures
            r == varint_of(self.0).len(),
            1 <= r <= 5,
    {
        let v: u32 = if self.0 >= 0 { self.0 as u32 } else { (self.0 as i64 + 0x1_0000_0000) as u32 };
        proof {
            lemma_pow128_facts();
            let n = v as nat;
            if n < 0x80 {
                lemma_varint_len(n, 1);
            } else if n < 0x4000 {
                lemma_varint_len(n, 2);
            } else if n < 0x20_0000 {
                lemma_varint_len(n, 3);
            } else if n < 0x1000_0000 {
                lemma_varint_len(n, 4);
            } else {
                lemma_varint_len(n, 5);
            }
        }
        if v < 0x80 {
            1
        } else if v < 0x4000 {
            2
        } else if v < 0x200000 {
            3
        } else if v < 0x10000000 {
            4
        } else {
            5
        }
    }

    /// Write into a `BytesMut` buffer.
    pub fn write(&self, buf: &mut BytesMut)
        ensures
            bytes_mut_view(*final(buf)) == bytes_mut_view(*old(buf)) + varint_of(self.0),
    {
        let v: u64 = if self.0 >= 0 { self.0 as u64 } else { (self.0 as i64 + 0x1_0000_0000) as u64 };
        put_groups(buf, v);
    }

    /// Read from a `Bytes` cursor.
    pub fn read(buf: &mut Bytes) -> (r: Result<Self, VarIntError>)
        ensures
            ({
                let s = bytes_view(*old(buf));
                &&& bytes_view(*final(buf)) == s.skip(consumed(s, scan_var(s, 5), 5) as int)
                &&& match decode_varint(s) {
                    Ok((v, _)) => r matches Ok(x) && x.0 == v,
                    Err(e) => r == Err::<VarInt, VarIntError>(e),
                }
            }),
    {
        let ghost s = bytes_view(*buf);
        match read_groups(buf, 5) {
            Ok((g, n)) => {
                proof {
                    lemma_groups_value_bound(s, n as nat);
                    lemma_pow128_mono(n as nat, 5);
                    lemma_pow128_facts();
                }
                let u = (g % 0x1_0000_0000) as u64;
                let v: i32 = if u < 0x8000_0000 { u as i32 } else { (u as i64 - 0x1_0000_0000) as i32 };
                Ok(VarInt(v))
            },
            Err(e) => Err(e),
        }
    }

    /// Convenience: encode to a fresh Vec<u8>.
    pub fn to_bytes(&self) -> (r: Vec<u8>)
        ensures
            r@ == varint_of(self.0),
    {
        let mut buf = bytes_mut_with_capacity(self.encoded_len());
        self.write(&mut buf);
        proof {
            assert(Seq::<u8>::empty() + varint_of(self.0) =~= varint_of(self.0));
        }
        bytes_mut_into_vec(buf)
    }

    /// Convenience: decode from a byte slice.
    /// Returns `(value, bytes_consumed)`.
    pub fn from_bytes(src: &[u8]) -> (r: Result<(Self, usize), VarIntError>)
        ensures
            match decode_varint(src@) {
                Ok((v, n)) => r matches Ok((x, m)) && x.0 == v && m == n,
                Err(e) => r == Err::<(VarInt, usize), VarIntError>(e),
            },
    {
        let mut cursor = bytes_copy_from_slice(src);
        let value = Self::read(&mut cursor)?;
        proof {
            lemma_scan_bounds(src@, 5);
        }
        let consumed = src.len() - bytes_remaining(&cursor);
        Ok((value, consumed))
    }
}

impl From<i32> for VarInt {
    fn from(v: i32) -> (r: Self)
        ensures
            r.0 == v,
    {
        Self(v)
    }
}

impl vstd::std_specs::convert::FromSpecImpl<i32> for VarInt {
    open spec fn obeys_from_spec() -> bool {
        true
    }

    open spec fn from_spec(v: i32) -> Self {
        VarInt(v)
    }
}

impl From<VarInt> for i32 {
    fn from(v: VarInt) -> (r: i32)
        ensures
            r == v.0,
    {
        v.0
    }
}

impl vstd::std_specs::convert::FromSpecImpl<VarInt> for i32 {
    open spec fn obeys_from_spec() -> bool {
        true
    }

    open spec fn from_spec(v: VarInt) -> i32 {
        v.0
    }
}

// ── VarLong (i64) ────────────────────────────────────────────

/// A Minecraft VarLong: variable-length i64 using 1–10 bytes.
#[derive(Debug, Clone, Copy, PartialEq, Eq, Structural, Hash)]
pub struct VarLong(pub i64);

impl Default for VarLong {
    fn default() -> (r: Self)
        ensures
            r.0 == 0,
    {
        VarLong(0)
    }
}

impl VarLong {
    pub fn new(value: i64) -> (r: Self)
        ensures
            r.0 == value,
    {
        Self(value)
    }

    /// Number of bytes needed to encode this value.
    pub fn encoded_len(&self) -> (r: usize)
        ensures
            r == varlong_of(self.0).len(),
            1 <= r <= 10,
    {
        let v: u64 = if self.0 >= 0 { self.0 as u64 } else { (self.0 as i128 + 0x1_0000_0000_0000_0000) as u64 };
        let ghost orig = v as nat;
        let mut len: usize = 0;
        let mut val = v;
        proof {
            lemma_pow128_facts();
            lemma_varint_len_le(orig, 10);
        }
        loop
            invariant_except_break
                len + varint_bytes(val as nat).len() == varint_bytes(orig).len(),
                varint_bytes(orig).len() <= 10,
            ensures
                len == varint_bytes(orig).len(),
                varint_bytes(orig).len() <= 10,
            decreases val,
        {
            proof {
                lemma_varint_bytes_shape(val as nat);
            }
            len = len + 1;
            if val < 128 {
                break;
            }
            val = val / 128;
        }
        proof {
            lemma_varint_bytes_shape(orig);
        }
        len
    }

    /// Write into a `BytesMut` buffer.
    pub fn write(&self, buf: &mut BytesMut)
        ensures
            bytes_mut_view(*final(buf)) == bytes_mut_view(*old(buf)) + varlong_of(self.0),
    {
        let v: u64 = if self.0 >= 0 { self.0 as u64 } else { (self.0 as i128 + 0x1_0000_0000_0000_0000) as u64 };
        put_groups(buf, v);
    }

    /// Read from a `Bytes` cursor.
    pub fn read(buf: &mut Bytes) -> (r: Result<Self, VarIntError>)
        ensures
            ({
                let s = bytes_view(*old(buf));
                &&& bytes_view(*final(buf)) == s.skip(consumed(s, scan_var(s, 10), 10) as int)
                &&& match decode_varlong(s) {
                    Ok((v, _)) => r matches Ok(x) && x.0 == v,
                    Err(e) => r == Err::<VarLong, VarIntError>(e),
                }
            }),
    {
        let ghost s = bytes_view(*buf);
        match read_groups(buf, 10) {
            Ok((g, n)) => {
                proof {
                    lemma_groups_value_bound(s, n as nat);
                    lemma_pow128_mono(n as nat, 10);
                    lemma_pow128_facts();
                }
                let u = (g % 0x1_0000_0000_0000_0000) as u64;
                let v: i64 = if u < 0x8000_0000_0000_0000 { u as i64 } else { (u as i128 - 0x1_0000_0000_0000_0000) as i64 };
                Ok(VarLong(v))
            },
            Err(VarIntError::Incomplete) => Err(VarIntError::Incomplete),
            Err(_) => Err(VarIntError::VarLongTooLarge),
        }
    }

    /// Convenience: encode to a fresh Vec<u8>.
    pub fn to_bytes(&self) -> (r: Vec<u8>)
        ensures
            r@ == varlong_of(self.0),
    {
        let mut buf = bytes_mut_with_capacity(self.encoded_len());
        self.write(&mut buf);
        proof {
            assert(Seq::<u8>::empty() + varlong_of(self.0) =~= varlong_of(self.0));
        }
        bytes_mut_into_vec(buf)
    }

    /// Convenience: decode from a byte slice.
    /// Returns `(value, bytes_consumed)`.
    pub fn from_bytes(src: &[u8]) -> (r: Result<(Self, usize), VarIntError>)
        ensures
            match decode_varlong(src@) {
                Ok((v, n)) => r matches Ok((x, m)) && x.0 == v && m == n,
                Err(e) => r == Err::<(VarLong, usize), VarIntError>(e),
            },
    {
        let mut cursor = bytes_copy_from_slice(src);
        let value = Self::read(&mut cursor)?;
        proof {
            lemma_scan_bounds(src@, 10);
        }
        let consumed = src.len() - bytes_remaining(&cursor);
        Ok((value, consumed))
    }
}

// ── Laws ─────────────────────────────────────────────────────

/// Decoding the bytes of a VarInt, followed by anything, gives back its value and
/// consumes exactly its encoding.
pub proof fn law_varint_roundtrip(v: i32, rest: Seq<u8>)
    ensures
        decode_varint(varint_of(v) + rest) == Ok::<(int, nat), VarIntError>((v as int, varint_of(v).len())),
        1 <= varint_of(v).len() <= 5,
{
    let u = unsigned32(v as int);
    lemma_pow128_facts();
    lemma_varint_len_le(u, 5);
    lemma_varint_bytes_shape(u);
    lemma_scan_of_encoding(u, rest, 5);
    lemma_groups_of_encoding(u, rest);
    lemma_signed32_unsigned32(v as int);
}

/// Decoding the bytes of a VarLong, followed by anything, gives back its value and
/// consumes exactly its encoding.
pub proof fn law_varlong_roundtrip(v: i64, rest: Seq<u8>)
    ensures
        decode_varlong(varlong_of(v) + rest) == Ok::<(int, nat), VarIntError>((v as int, varlong_of(v).len())),
        1 <= varlong_of(v).len() <= 10,
{
    let u = unsigned64(v as int);
    lemma_pow128_facts();
    lemma_varint_len_le(u, 10);
    lemma_varint_bytes_shape(u);
    lemma_scan_of_encoding(u, rest, 10);
    lemma_groups_of_encoding(u, rest);
    lemma_signed64_unsigned64(v as int);
}

/// A VarInt takes 1 byte below 128, 2 below 16384, 3 below 2097152, 4 below

/// The last byte of a number's encoding is not zero unless the number is.
proof fn lemma_varint_last_nonzero(v: nat)
    ensures
        v > 0 ==> varint_bytes(v).last() != 0,
    decreases v,
{
    if v >= 128 {
        lemma_varint_last_nonzero(v / 128);
        let t = varint_bytes(v / 128);
        lemma_varint_bytes_shape(v / 128);
        assert(varint_bytes(v) =~= seq![(v % 128 + 128) as u8] + t);
        assert(varint_bytes(v).last() == t.last());
    }
}

/// The length of a number's encoding is the fewest 7-bit groups that hold it.
proof fn lemma_varint_len_bounds(v: nat)
    ensures
        v < pow128(varint_bytes(v).len()),
        varint_bytes(v).len() == 1 || v >= pow128((varint_bytes(v).len() - 1) as nat),
    decreases v,
{
    lemma_varint_bytes_shape(v);
    if v < 128 {
        reveal_with_fuel(pow128, 2);
    } else {
        lemma_varint_len_bounds(v / 128);
        let t = varint_bytes(v / 128);
        let l = t.len();
        assert(varint_bytes(v) =~= seq![(v % 128 + 128) as u8] + t);
        assert(varint_bytes(v).len() == l + 1);
        let p = pow128(l);
        assert(pow128(l + 1) == 128 * p);
        assert(v < 128 * p) by (nonlinear_arith)
            requires
                v / 128 < p,
        ;
        if l == 1 {
            reveal_with_fuel(pow128, 2);
        } else {
            let q = pow128((l - 1) as nat);
            assert(pow128(l) == 128 * q);
            assert(v >= 128 * q) by (nonlinear_arith)
                requires
                    v / 128 >= q,
            ;
        }
    }
}

/// The layout of a VarInt: one to five bytes; every byte but the last has
/// its continuation bit (0x80) set and the last has it clear; the last byte
/// is zero only for a one-byte encoding (no encoding is longer than needed);
/// and the low seven bits of the bytes, least significant group first, make
/// up the number's two's complement bits as an unsigned 32-bit value.
pub proof fn law_varint_layout(v: i32)
    ensures
        ({
            let b = varint_of(v);
            let n = b.len();
            &&& 1 <= n <= 5
            &&& forall|i: int| 0 <= i < n - 1 ==> #[trigger] b[i] >= 0x80
            &&& b[n - 1] < 0x80
            &&& (n == 1 || b[n - 1] != 0)
            &&& groups_value(b, n) == unsigned32(v as int)
            &&& unsigned32(v as int) < pow128(n)
            &&& (n == 1 || unsigned32(v as int) >= pow128((n - 1) as nat))
        }),
{
    let u = unsigned32(v as int);
    lemma_varint_bytes_shape(u);
    lemma_pow128_facts();
    lemma_varint_len_le(u, 5);
    lemma_varint_last_nonzero(u);
    lemma_varint_len_bounds(u);
    lemma_groups_of_encoding(u, Seq::empty());
    assert(varint_bytes(u) + Seq::<u8>::empty() =~= varint_bytes(u));
}

/// The length of a VarLong: the fewest 7-bit groups, one to ten, that hold
/// the number's two's complement bits as an unsigned 64-bit value, so every
/// negative number takes ten bytes.
pub proof fn law_varlong_len(v: i64)
    ensures
        ({
            let n = varlong_of(v).len();
            let u = unsigned64(v as int);
            &&& 1 <= n <= 10
            &&& u < pow128(n)
            &&& (n == 1 || u >= pow128((n - 1) as nat))
            &&& v < 0 ==> n == 10
        }),
{
    let u = unsigned64(v as int);
    lemma_varint_bytes_shape(u);
    lemma_pow128_facts();
    lemma_varint_len_le(u, 10);
    lemma_varint_len_bounds(u);
    let n = varint_bytes(u).len();
    if v < 0 {
        if n <= 9 {
            assert(pow128(n) <= pow128(9)) by {
                lemma_pow128_mono(n, 9);
            }
        }
    }
}

/// 268435456, and 5 for every other value, negative ones included.
pub proof fn law_varint_len_table(v: i32)
    ensures
        0 <= v < 0x80 ==> varint_of(v).len() == 1,
        0x80 <= v < 0x4000 ==> varint_of(v).len() == 2,
        0x4000 <= v < 0x20_0000 ==> varint_of(v).len() == 3,
        0x20_0000 <= v < 0x1000_0000 ==> varint_of(v).len() == 4,
        (v < 0 || 0x1000_0000 <= v) ==> varint_of(v).len() == 5,
{
    let u = unsigned32(v as int);
    lemma_pow128_facts();
    if u < 0x80 {
        lemma_varint_len(u, 1);
    } else if u < 0x4000 {
        lemma_varint_len(u, 2);
    } else if u < 0x20_0000 {
        lemma_varint_len(u, 3);
    } else if u < 0x1000_0000 {
        lemma_varint_len(u, 4);
    } else {
        lemma_varint_len(u, 5);
    }
}

/// A successful VarInt decoding consumes between 1 and 5 bytes of its input.
pub proof fn law_varint_decode_len(s: Seq<u8>)
    requires
        decode_varint(s) is Ok,
    ensures
        decode_varint(s)->Ok_0.1 <= s.len(),
        1 <= decode_varint(s)->Ok_0.1 <= 5,
{
    lemma_scan_bounds(s, 5);
}

proof fn lemma_scan_bounds(s: Seq<u8>, budget: nat)
    requires
        scan_var(s, budget) is Ok,
    ensures
        1 <= scan_var(s, budget)->Ok_0 <= s.len(),
        scan_var(s, budget)->Ok_0 <= budget || budget == 0,
    decreases budget,
{
    if s[0] >= 128 {
        lemma_scan_bounds(s.drop_first(), (budget - 1) as nat);
    }
}

impl From<i64> for VarLong {
    fn from(v: i64) -> (r: Self)
        ensures
            r.0 == v,
    {
        Self(v)
    }
}

impl vstd::std_specs::convert::FromSpecImpl<i64> for VarLong {
    open spec fn obeys_from_spec() -> bool {
        true
    }

    open spec fn from_spec(v: i64) -> Self {
        VarLong(v)
    }
}

impl From<VarLong> for i64 {
    fn from(v: VarLong) -> (r: i64)
        ensures
            r == v.0,
    {
        v.0
    }
}

impl vstd::std_specs::convert::FromSpecImpl<VarLong> for i64 {
    open spec fn obeys_from_spec() -> bool {
        true
    }

    open spec fn from_spec(v: VarLong) -> i64 {
        v.0
    }
}

} // verus!
