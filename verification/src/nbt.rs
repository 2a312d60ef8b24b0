//! NBT (Named Binary Tag) parser for Minecraft world data.
//!
//! Implements the binary NBT format used by region files, level.dat,
//! player data, and other game data files.
//!
//! Each tag: `[type:u8][name_len:u16][name:utf8][payload...]`;
//! TAG_End (0x00) has no name and no payload — it terminates compounds.
//! Floating-point payloads are kept as their IEEE-754 bits.
use vstd::prelude::*;
use bytes::Bytes;
use vstd::utf8::{decode_utf8, valid_utf8};
use crate::buffers::{
    be_value, bytes_as_slice, bytes_from_vec, bytes_get_u8, bytes_remaining, bytes_split_to,
    bytes_view, get_be, get_i16, get_i32, get_i64, get_i8, get_u16, lemma_be_value_bound, pow256,
    signed16, signed32, signed64,
};
use crate::text::{
    decimal, hex_byte, int_text, push_hex_byte, push_str, str_eq, string_from_utf8, string_of,
};

verus! {

/// NBT tag type identifiers.
#[derive(Debug, Clone, Copy, PartialEq, Eq, Structural)]
pub enum TagType {
    End,
    Byte,
    Short,
    Int,
    Long,
    Float,
    Double,
    ByteArray,
    String,
    List,
    Compound,
    IntArray,
    LongArray,
}

/// The name of a tag type, as its `Debug` form writes it.
pub open spec fn tag_name(t: TagType) -> Seq<char> {
    match t {
        TagType::End => "End"@,
        TagType::Byte => "Byte"@,
        TagType::Short => "Short"@,
        TagType::Int => "Int"@,
        TagType::Long => "Long"@,
        TagType::Float => "Float"@,
        TagType::Double => "Double"@,
        TagType::ByteArray => "ByteArray"@,
        TagType::String => "String"@,
        TagType::List => "List"@,
        TagType::Compound => "Compound"@,
        TagType::IntArray => "IntArray"@,
        TagType::LongArray => "LongArray"@,
    }
}

/// The message of an NBT error.
pub open spec fn nbt_error_text(e: NbtError) -> Seq<char> {
    match e {
        NbtError::UnknownTag(b) => "unknown tag type: 0x"@ + hex_byte(b),
        NbtError::Incomplete { expected, got } => "incomplete: expected "@ + decimal(expected as int)
            + " bytes, got "@ + decimal(got as int),
        NbtError::InvalidUtf8 => "invalid UTF-8 in string tag"@,
        NbtError::ExpectedCompound(t) => "expected TAG_Compound for root, got "@ + tag_name(t),
    }
}

impl TagType {
    /// The name of this tag type, as its `Debug` form writes it.
    pub(crate) fn name(&self) -> (r: &'static str)
        ensures
            r@ == tag_name(*self),
    {
        match self {
            TagType::End => "End",
            TagType::Byte => "Byte",
            TagType::Short => "Short",
            TagType::Int => "Int",
            TagType::Long => "Long",
            TagType::Float => "Float",
            TagType::Double => "Double",
            TagType::ByteArray => "ByteArray",
            TagType::String => "String",
            TagType::List => "List",
            TagType::Compound => "Compound",
            TagType::IntArray => "IntArray",
            TagType::LongArray => "LongArray",
        }
    }
}

impl NbtError {
    /// The message of this error.
    pub fn message(&self) -> (r: String)
        ensures
            r@ == nbt_error_text(*self),
    {
        match self {
            NbtError::UnknownTag(b) => {
                let mut s = string_of("unknown tag type: 0x");
                push_hex_byte(&mut s, *b);
                s
            },
            NbtError::Incomplete { expected, got } => {
                let mut s = string_of("incomplete: expected ");
                push_str(&mut s, int_text(*expected as i128).as_str());
                push_str(&mut s, " bytes, got ");
                push_str(&mut s, int_text(*got as i128).as_str());
                s
            },
            NbtError::InvalidUtf8 => string_of("invalid UTF-8 in string tag"),
            NbtError::ExpectedCompound(t) => {
                let mut s = string_of("expected TAG_Compound for root, got ");
                push_str(&mut s, t.name());
                s
            },
        }
    }
}

/// The tag type that a type byte names.
pub open spec fn spec_tag_type(v: u8) -> Option<TagType> {
    if v == 0 {
        Some(TagType::End)
    } else if v == 1 {
        Some(TagType::Byte)
    } else if v == 2 {
        Some(TagType::Short)
    } else if v == 3 {
        Some(TagType::Int)
    } else if v == 4 {
        Some(TagType::Long)
    } else if v == 5 {
        Some(TagType::Float)
    } else if v == 6 {
        Some(TagType::Double)
    } else if v == 7 {
        Some(TagType::ByteArray)
    } else if v == 8 {
        Some(TagType::String)
    } else if v == 9 {
        Some(TagType::List)
    } else if v == 10 {
        Some(TagType::Compound)
    } else if v == 11 {
        Some(TagType::IntArray)
    } else if v == 12 {
        Some(TagType::LongArray)
    } else {
        None
    }
}

/// NBT parse error.
#[derive(Debug, Clone, Copy, PartialEq, Eq, Structural)]
pub enum NbtError {
    /// A type byte that names no tag.
    UnknownTag(u8),
    /// The input ended before a field.
    Incomplete { expected: usize, got: usize },
    /// A name or string that is not UTF-8.
    InvalidUtf8,
    /// The root tag is not a compound.
    ExpectedCompound(TagType),
}

impl TagType {
    /// The tag type that a type byte names, or `UnknownTag`.
    pub fn try_from(v: u8) -> (r: Result<Self, NbtError>)
        ensures
            match spec_tag_type(v) {
                Some(t) => r == Ok::<TagType, NbtError>(t),
                None => r == Err::<TagType, NbtError>(NbtError::UnknownTag(v)),
            },
    {
        match v {
            0 => Ok(Self::End),
            1 => Ok(Self::Byte),
            2 => Ok(Self::Short),
            3 => Ok(Self::Int),
            4 => Ok(Self::Long),
            5 => Ok(Self::Float),
            6 => Ok(Self::Double),
            7 => Ok(Self::ByteArray),
            8 => Ok(Self::String),
            9 => Ok(Self::List),
            10 => Ok(Self::Compound),
            11 => Ok(Self::IntArray),
            12 => Ok(Self::LongArray),
            _ => Err(NbtError::UnknownTag(v)),
        }
    }
}

/// A parsed NBT value. `Float` and `Double` hold the IEEE-754 bits of the number.
#[derive(Debug)]
pub enum NbtValue {
    Byte(i8),
    Short(i16),
    Int(i32),
    Long(i64),
    Float(u32),
    Double(u64),
    ByteArray(Vec<i8>),
    String(String),
    List(Vec<NbtValue>),
    Compound(Vec<(String, NbtValue)>),
    IntArray(Vec<i32>),
    LongArray(Vec<i64>),
}

/// An NBT value as plain mathematical data.
pub enum NbtTree {
    Byte(i8),
    Short(i16),
    Int(i32),
    Long(i64),
    Float(u32),
    Double(u64),
    ByteArray(Seq<i8>),
    Str(Seq<char>),
    List(Seq<NbtTree>),
    Compound(Seq<(Seq<char>, NbtTree)>),
    IntArray(Seq<i32>),
    LongArray(Seq<i64>),
}

impl NbtValue {
    /// This value as plain data.
    pub open spec fn tree(self) -> NbtTree
        decreases self,
    {
        match self {
            NbtValue::Byte(b) => NbtTree::Byte(b),
            NbtValue::Short(v) => NbtTree::Short(v),
            NbtValue::Int(v) => NbtTree::Int(v),
            NbtValue::Long(v) => NbtTree::Long(v),
            NbtValue::Float(v) => NbtTree::Float(v),
            NbtValue::Double(v) => NbtTree::Double(v),
            NbtValue::ByteArray(a) => NbtTree::ByteArray(a@),
            NbtValue::String(s) => NbtTree::Str(s@),
            NbtValue::List(l) => NbtTree::List(
                Seq::new(l@.len(), |i: int| if 0 <= i < l@.len() { l@[i].tree() } else { NbtTree::Byte(0) }),
            ),
            NbtValue::Compound(c) => NbtTree::Compound(
                Seq::new(
                    c@.len(),
                    |i: int| if 0 <= i < c@.len() { (c@[i].0@, c@[i].1.tree()) } else { (Seq::empty(), NbtTree::Byte(0)) },
                ),
            ),
            NbtValue::IntArray(a) => NbtTree::IntArray(a@),
            NbtValue::LongArray(a) => NbtTree::LongArray(a@),
        }
    }
}

/// The trees of a run of values.
pub open spec fn trees(v: Seq<NbtValue>) -> Seq<NbtTree> {
    Seq::new(v.len(), |i: int| v[i].tree())
}

/// The names and trees of a run of compound entries.
pub open spec fn entry_trees(v: Seq<(String, NbtValue)>) -> Seq<(Seq<char>, NbtTree)> {
    Seq::new(v.len(), |i: int| (v[i].0@, v[i].1.tree()))
}

pub proof fn lemma_tree_list(l: Vec<NbtValue>)
    ensures
        NbtValue::List(l).tree() == NbtTree::List(trees(l@)),
{
    let t = NbtValue::List(l).tree();
    if let NbtTree::List(x) = t {
        assert(x =~= trees(l@));
    }
}

pub proof fn lemma_tree_compound(c: Vec<(String, NbtValue)>)
    ensures
        NbtValue::Compound(c).tree() == NbtTree::Compound(entry_trees(c@)),
{
    let t = NbtValue::Compound(c).tree();
    if let NbtTree::Compound(x) = t {
        assert(x =~= entry_trees(c@));
    }
}

// ── The format as a specification ────────────────────────────

/// The outcome of reading a part of an NBT document: the value and what
/// follows it, an error, or a panic of the reader (which the readers' callers
/// must rule out).
pub enum Parsed<T> {
    Done(T, Seq<u8>),
    Fail(NbtError),
    Panic,
}

/// A byte as a two's complement number.
pub open spec fn signed8(b: u8) -> int {
    if b < 128 { b as int } else { b - 256 }
}

/// Reading a tag name or string payload: a big-endian `u16` byte length, then UTF-8.
pub open spec fn spec_name(s: Seq<u8>) -> Parsed<Seq<char>> {
    if s.len() < 2 {
        Parsed::Fail(NbtError::Incomplete { expected: 2, got: s.len() as usize })
    } else {
        let len = be_value(s.take(2));
        let rest = s.skip(2);
        if rest.len() < len {
            Parsed::Fail(NbtError::Incomplete { expected: len as usize, got: rest.len() as usize })
        } else if valid_utf8(rest.take(len as int)) {
            Parsed::Done(decode_utf8(rest.take(len as int)), rest.skip(len as int))
        } else {
            Parsed::Fail(NbtError::InvalidUtf8)
        }
    }
}

/// The number that the first four bytes spell as a signed big-endian `i32`.
pub open spec fn i32_at(s: Seq<u8>) -> int {
    signed32(be_value(s.take(4)))
}

/// Reading the payload of a tag of type `ty`.
pub open spec fn spec_payload(s: Seq<u8>, ty: TagType) -> Parsed<NbtTree>
    decreases s.len(), 1nat, 0nat,
{
    match ty {
        TagType::End => Parsed::Done(NbtTree::Byte(0), s),
        TagType::Byte => if s.len() < 1 {
            Parsed::Fail(NbtError::Incomplete { expected: 1, got: s.len() as usize })
        } else {
            Parsed::Done(NbtTree::Byte(signed8(s[0]) as i8), s.skip(1))
        },
        TagType::Short => if s.len() < 2 {
            Parsed::Fail(NbtError::Incomplete { expected: 2, got: s.len() as usize })
        } else {
            Parsed::Done(NbtTree::Short(signed16(be_value(s.take(2))) as i16), s.skip(2))
        },
        TagType::Int => if s.len() < 4 {
            Parsed::Fail(NbtError::Incomplete { expected: 4, got: s.len() as usize })
        } else {
            Parsed::Done(NbtTree::Int(i32_at(s) as i32), s.skip(4))
        },
        TagType::Long => if s.len() < 8 {
            Parsed::Fail(NbtError::Incomplete { expected: 8, got: s.len() as usize })
        } else {
            Parsed::Done(NbtTree::Long(signed64(be_value(s.take(8))) as i64), s.skip(8))
        },
        TagType::Float => if s.len() < 4 {
            Parsed::Fail(NbtError::Incomplete { expected: 4, got: s.len() as usize })
        } else {
            Parsed::Done(NbtTree::Float(be_value(s.take(4)) as u32), s.skip(4))
        },
        TagType::Double => if s.len() < 8 {
            Parsed::Fail(NbtError::Incomplete { expected: 8, got: s.len() as usize })
        } else {
            Parsed::Done(NbtTree::Double(be_value(s.take(8)) as u64), s.skip(8))
        },
        TagType::ByteArray => if s.len() < 4 {
            Parsed::Fail(NbtError::Incomplete { expected: 4, got: s.len() as usize })
        } else {
            let len = i32_at(s) as usize;
            let rest = s.skip(4);
            if rest.len() < len {
                Parsed::Fail(NbtError::Incomplete { expected: len, got: rest.len() as usize })
            } else {
                Parsed::Done(
                    NbtTree::ByteArray(Seq::new(len as nat, |i: int| signed8(rest[i]) as i8)),
                    rest.skip(len as int),
                )
            }
        },
        TagType::String => match spec_name(s) {
            Parsed::Done(c, r) => Parsed::Done(NbtTree::Str(c), r),
            Parsed::Fail(e) => Parsed::Fail(e),
            Parsed::Panic => Parsed::Panic,
        },
        TagType::List => if s.len() < 5 {
            Parsed::Fail(NbtError::Incomplete { expected: 5, got: s.len() as usize })
        } else {
            let et = s[0];
            let len = i32_at(s.skip(1));
            let rest = s.skip(5);
            if len < 0 {
                Parsed::Panic
            } else if et == 0 {
                Parsed::Done(NbtTree::List(Seq::empty()), rest)
            } else {
                match spec_tag_type(et) {
                    None => Parsed::Fail(NbtError::UnknownTag(et)),
                    Some(ety) => match spec_list(rest, ety, len as nat) {
                        Parsed::Done(vs, r) => Parsed::Done(NbtTree::List(vs), r),
                        Parsed::Fail(e) => Parsed::Fail(e),
                        Parsed::Panic => Parsed::Panic,
                    },
                }
            }
        },
        TagType::Compound => match spec_compound_body(s) {
            Parsed::Done(es, r) => Parsed::Done(NbtTree::Compound(es), r),
            Parsed::Fail(e) => Parsed::Fail(e),
            Parsed::Panic => Parsed::Panic,
        },
        TagType::IntArray => if s.len() < 4 {
            Parsed::Fail(NbtError::Incomplete { expected: 4, got: s.len() as usize })
        } else {
            let len = i32_at(s) as usize;
            let rest = s.skip(4);
            if len * 4 > usize::MAX {
                Parsed::Panic
            } else if rest.len() < len * 4 {
                Parsed::Fail(NbtError::Incomplete { expected: (len * 4) as usize, got: rest.len() as usize })
            } else {
                Parsed::Done(
                    NbtTree::IntArray(Seq::new(len as nat, |i: int| signed32(be_value(rest.subrange(4 * i, 4 * i + 4))) as i32)),
                    rest.skip(len * 4),
                )
            }
        },
        TagType::LongArray => if s.len() < 4 {
            Parsed::Fail(NbtError::Incomplete { expected: 4, got: s.len() as usize })
        } else {
            let len = i32_at(s) as usize;
            let rest = s.skip(4);
            if len * 8 > usize::MAX {
                Parsed::Panic
            } else if rest.len() < len * 8 {
                Parsed::Fail(NbtError::Incomplete { expected: (len * 8) as usize, got: rest.len() as usize })
            } else {
                Parsed::Done(
                    NbtTree::LongArray(Seq::new(len as nat, |i: int| signed64(be_value(rest.subrange(8 * i, 8 * i + 8))) as i64)),
                    rest.skip(len * 8),
                )
            }
        },
    }
}

/// The payload bytes of `vals` as a LongArray holds them after its length:
/// each value's 64 two's complement bits, big-endian, in order.
pub open spec fn long_array_bytes(vals: Seq<i64>) -> Seq<u8>
    decreases vals.len(),
{
    if vals.len() == 0 {
        Seq::empty()
    } else {
        long_array_bytes(vals.drop_last()) + crate::buffers::be_bytes(crate::buffers::unsigned64(vals.last() as int), 8)
    }
}

proof fn lemma_long_array_bytes(vals: Seq<i64>, r: Seq<u8>)
    ensures
        long_array_bytes(vals).len() == 8 * vals.len(),
        forall|i: int| 0 <= i < vals.len() ==> #[trigger] (long_array_bytes(vals) + r).subrange(8 * i, 8 * i + 8)
            == crate::buffers::be_bytes(crate::buffers::unsigned64(vals[i] as int), 8),
    decreases vals.len(),
{
    if vals.len() > 0 {
        let d = vals.drop_last();
        let b = crate::buffers::be_bytes(crate::buffers::unsigned64(vals.last() as int), 8);
        crate::buffers::lemma_be_bytes_len(crate::buffers::unsigned64(vals.last() as int), 8);
        lemma_long_array_bytes(d, b + r);
        let n = vals.len() - 1;
        assert(long_array_bytes(vals) + r =~= long_array_bytes(d) + (b + r));
        assert forall|i: int| 0 <= i < vals.len() implies #[trigger] (long_array_bytes(vals) + r).subrange(8 * i, 8 * i
            + 8) == crate::buffers::be_bytes(crate::buffers::unsigned64(vals[i] as int), 8) by {
            if i < n {
                assert(vals[i] == d[i]);
                assert((long_array_bytes(d) + (b + r)).subrange(8 * i, 8 * i + 8) == crate::buffers::be_bytes(
                    crate::buffers::unsigned64(d[i] as int),
                    8,
                ));
            } else {
                assert((long_array_bytes(vals) + r).subrange(8 * i, 8 * i + 8) =~= b);
            }
        }
    }
}

/// A LongArray payload reads back the values written: for every sequence of
/// `i64` values (any of the whole range) that a length can count, the bytes
/// of its length and of each value, big-endian, followed by anything, read as
/// a LongArray of exactly those values, leaving what followed.
pub proof fn law_long_array_roundtrip(vals: Seq<i64>, rest: Seq<u8>)
    requires
        vals.len() <= i32::MAX,
        vals.len() * 8 <= usize::MAX,
    ensures
        spec_payload(
            crate::buffers::be_bytes(vals.len(), 4) + long_array_bytes(vals) + rest,
            TagType::LongArray,
        ) == Parsed::Done(NbtTree::LongArray(vals), rest),
{
    let n = vals.len();
    let hdr = crate::buffers::be_bytes(n, 4);
    let s = hdr + long_array_bytes(vals) + rest;
    crate::buffers::lemma_be_bytes_len(n, 4);
    crate::buffers::lemma_be_value_of_bytes(n, 4);
    reveal_with_fuel(pow256, 9);
    lemma_long_array_bytes(vals, rest);
    assert(s.take(4) =~= hdr);
    assert(i32_at(s) == n);
    let body = s.skip(4);
    assert(body =~= long_array_bytes(vals) + rest);
    assert(body.skip(8 * n as int) =~= rest);
    let got = Seq::new(n as nat, |i: int| signed64(be_value(body.subrange(8 * i, 8 * i + 8))) as i64);
    assert forall|i: int| 0 <= i < n implies got[i] == vals[i] by {
        let u = crate::buffers::unsigned64(vals[i] as int);
        assert(body.subrange(8 * i, 8 * i + 8) == crate::buffers::be_bytes(u, 8));
        crate::buffers::lemma_be_value_of_bytes(u, 8);
        crate::buffers::lemma_signed64_unsigned64(vals[i] as int);
    }
    assert(got =~= vals);
}

/// The payload bytes of `vals` as an IntArray holds them after its length:
/// each value's 32 two's complement bits, big-endian, in order.
pub open spec fn int_array_bytes(vals: Seq<i32>) -> Seq<u8>
    decreases vals.len(),
{
    if vals.len() == 0 {
        Seq::empty()
    } else {
        int_array_bytes(vals.drop_last()) + crate::buffers::be_bytes(crate::buffers::unsigned32(vals.last() as int), 4)
    }
}

proof fn lemma_int_array_bytes(vals: Seq<i32>, r: Seq<u8>)
    ensures
        int_array_bytes(vals).len() == 4 * vals.len(),
        forall|i: int| 0 <= i < vals.len() ==> #[trigger] (int_array_bytes(vals) + r).subrange(4 * i, 4 * i + 4)
            == crate::buffers::be_bytes(crate::buffers::unsigned32(vals[i] as int), 4),
    decreases vals.len(),
{
    if vals.len() > 0 {
        let d = vals.drop_last();
        let b = crate::buffers::be_bytes(crate::buffers::unsigned32(vals.last() as int), 4);
        crate::buffers::lemma_be_bytes_len(crate::buffers::unsigned32(vals.last() as int), 4);
        lemma_int_array_bytes(d, b + r);
        let n = vals.len() - 1;
        assert(int_array_bytes(vals) + r =~= int_array_bytes(d) + (b + r));
        assert forall|i: int| 0 <= i < vals.len() implies #[trigger] (int_array_bytes(vals) + r).subrange(4 * i, 4 * i
            + 4) == crate::buffers::be_bytes(crate::buffers::unsigned32(vals[i] as int), 4) by {
            if i < n {
                assert(vals[i] == d[i]);
                assert((int_array_bytes(d) + (b + r)).subrange(4 * i, 4 * i + 4) == crate::buffers::be_bytes(
                    crate::buffers::unsigned32(d[i] as int),
                    4,
                ));
            } else {
                assert((int_array_bytes(vals) + r).subrange(4 * i, 4 * i + 4) =~= b);
            }
        }
    }
}

/// An IntArray payload reads back the values written: for every sequence of
/// `i32` values that a length can count, the bytes of its length and of each
/// value, big-endian, followed by anything, read as an IntArray of exactly
/// those values, leaving what followed.
pub proof fn law_int_array_roundtrip(vals: Seq<i32>, rest: Seq<u8>)
    requires
        vals.len() <= i32::MAX,
        vals.len() * 4 <= usize::MAX,
    ensures
        spec_payload(
            crate::buffers::be_bytes(vals.len(), 4) + int_array_bytes(vals) + rest,
            TagType::IntArray,
        ) == Parsed::Done(NbtTree::IntArray(vals), rest),
{
    let n = vals.len();
    let hdr = crate::buffers::be_bytes(n, 4);
    let s = hdr + int_array_bytes(vals) + rest;
    crate::buffers::lemma_be_bytes_len(n, 4);
    crate::buffers::lemma_be_value_of_bytes(n, 4);
    reveal_with_fuel(pow256, 5);
    assert(pow256(4) == 0x1_0000_0000);
    lemma_int_array_bytes(vals, rest);
    assert(s.take(4) =~= hdr);
    assert(i32_at(s) == n);
    let body = s.skip(4);
    assert(body =~= int_array_bytes(vals) + rest);
    assert(body.skip(4 * n as int) =~= rest);
    let got = Seq::new(n as nat, |i: int| signed32(be_value(body.subrange(4 * i, 4 * i + 4))) as i32);
    assert forall|i: int| 0 <= i < n implies got[i] == vals[i] by {
        let u = crate::buffers::unsigned32(vals[i] as int);
        assert(body.subrange(4 * i, 4 * i + 4) == crate::buffers::be_bytes(u, 4));
        crate::buffers::lemma_be_value_of_bytes(u, 4);
        crate::buffers::lemma_signed32_unsigned32(vals[i] as int);
    }
    assert(got =~= vals);
}

/// Reading `n` payloads of type `ty` one after the other.
pub open spec fn spec_list(s: Seq<u8>, ty: TagType, n: nat) -> Parsed<Seq<NbtTree>>
    decreases s.len(), 2nat, n,
{
    if n == 0 {
        Parsed::Done(Seq::empty(), s)
    } else {
        match spec_payload(s, ty) {
            Parsed::Fail(e) => Parsed::Fail(e),
            Parsed::Panic => Parsed::Panic,
            Parsed::Done(v, r) => if r.len() <= s.len() {
                match spec_list(r, ty, (n - 1) as nat) {
                    Parsed::Done(vs, r2) => Parsed::Done(seq![v] + vs, r2),
                    Parsed::Fail(e) => Parsed::Fail(e),
                    Parsed::Panic => Parsed::Panic,
                }
            } else {
                Parsed::Panic
            },
        }
    }
}

/// Reading the named tags of a compound up to and including its TAG_End.
pub open spec fn spec_compound_body(s: Seq<u8>) -> Parsed<Seq<(Seq<char>, NbtTree)>>
    decreases s.len(), 0nat, 0nat,
{
    if s.len() == 0 {
        Parsed::Fail(NbtError::Incomplete { expected: 1, got: 0 })
    } else if s[0] == 0 {
        Parsed::Done(Seq::empty(), s.skip(1))
    } else {
        match spec_tag_type(s[0]) {
            None => Parsed::Fail(NbtError::UnknownTag(s[0])),
            Some(ty) => match spec_name(s.skip(1)) {
                Parsed::Fail(e) => Parsed::Fail(e),
                Parsed::Panic => Parsed::Panic,
                Parsed::Done(name, r1) => if r1.len() < s.len() {
                    match spec_payload(r1, ty) {
                        Parsed::Fail(e) => Parsed::Fail(e),
                        Parsed::Panic => Parsed::Panic,
                        Parsed::Done(v, r2) => if r2.len() < s.len() {
                            match spec_compound_body(r2) {
                                Parsed::Done(es, r3) => Parsed::Done(seq![(name, v)] + es, r3),
                                Parsed::Fail(e) => Parsed::Fail(e),
                                Parsed::Panic => Parsed::Panic,
                            }
                        } else {
                            Parsed::Panic
                        },
                    }
                } else {
                    Parsed::Panic
                },
            },
        }
    }
}

/// Reading a nameless-or-named root compound: type byte, name, body.
pub open spec fn spec_root(s: Seq<u8>) -> Parsed<NbtTree> {
    if s.len() == 0 {
        Parsed::Panic
    } else {
        match spec_tag_type(s[0]) {
            None => Parsed::Fail(NbtError::UnknownTag(s[0])),
            Some(ty) => if ty != TagType::Compound {
                Parsed::Fail(NbtError::ExpectedCompound(ty))
            } else {
                match spec_name(s.skip(1)) {
                    Parsed::Fail(e) => Parsed::Fail(e),
                    Parsed::Panic => Parsed::Panic,
                    Parsed::Done(_, r1) => match spec_compound_body(r1) {
                        Parsed::Done(es, r) => Parsed::Done(NbtTree::Compound(es), r),
                        Parsed::Fail(e) => Parsed::Fail(e),
                        Parsed::Panic => Parsed::Panic,
                    },
                }
            },
        }
    }
}

/// Reading one named tag: type byte, then (unless TAG_End) name and payload.
pub open spec fn spec_named(s: Seq<u8>) -> Parsed<(Seq<char>, NbtTree)> {
    if s.len() == 0 {
        Parsed::Panic
    } else {
        match spec_tag_type(s[0]) {
            None => Parsed::Fail(NbtError::UnknownTag(s[0])),
            Some(ty) => if ty == TagType::End {
                Parsed::Done((Seq::empty(), NbtTree::Byte(0)), s.skip(1))
            } else {
                match spec_name(s.skip(1)) {
                    Parsed::Fail(e) => Parsed::Fail(e),
                    Parsed::Panic => Parsed::Panic,
                    Parsed::Done(name, r1) => match spec_payload(r1, ty) {
                        Parsed::Done(v, r) => Parsed::Done((name, v), r),
                        Parsed::Fail(e) => Parsed::Fail(e),
                        Parsed::Panic => Parsed::Panic,
                    },
                }
            },
        }
    }
}

// ── Readers ──────────────────────────────────────────────────

/// Why a reader stopped: a malformed document, or one on which the format's
/// reference reader panics (an empty root, a negative list length, an array
/// length whose byte count overflows).
pub enum ReadStop {
    Error(NbtError),
    Unreadable,
}

/// Reads a `u16`-length-prefixed UTF-8 name.
fn read_tag_name(buf: &mut Bytes) -> (r: Result<(u16, String), NbtError>)
    ensures
        bytes_view(*final(buf)).len() <= bytes_view(*old(buf)).len(),
        match spec_name(bytes_view(*old(buf))) {
            Parsed::Done(name, rest) => r matches Ok((_, st)) && st@ == name && bytes_view(*final(buf))
                == rest,
            Parsed::Fail(e) => r == Err::<(u16, String), NbtError>(e),
            Parsed::Panic => false,
        },
{
    let remaining = bytes_remaining(buf);
    if remaining < 2 {
        return Err(NbtError::Incomplete { expected: 2, got: remaining });
    }
    let len = get_u16(buf) as usize;
    let remaining = bytes_remaining(buf);
    if remaining < len {
        return Err(NbtError::Incomplete { expected: len, got: remaining });
    }
    let name_bytes = bytes_split_to(buf, len);
    match string_from_utf8(vstd::slice::slice_to_vec(bytes_as_slice(&name_bytes))) {
        Ok(name) => Ok((len as u16, name)),
        Err(_) => Err(NbtError::InvalidUtf8),
    }
}

/// Reads the payload of a tag of type `ty`.
fn read_payload(buf: &mut Bytes, ty: TagType) -> (r: Result<NbtValue, ReadStop>)
    ensures
        bytes_view(*final(buf)).len() <= bytes_view(*old(buf)).len(),
        match spec_payload(bytes_view(*old(buf)), ty) {
            Parsed::Done(v, rest) => r matches Ok(x) && x.tree() == v && bytes_view(*final(buf)) == rest,
            Parsed::Fail(e) => r == Err::<NbtValue, ReadStop>(ReadStop::Error(e)),
            Parsed::Panic => r == Err::<NbtValue, ReadStop>(ReadStop::Unreadable),
        },
    decreases bytes_view(*old(buf)).len(), 1nat, 0nat,
{
    let ghost s = bytes_view(*buf);
    match ty {
        TagType::Byte => {
            let remaining = bytes_remaining(buf);
            if remaining < 1 {
                return Err(ReadStop::Error(NbtError::Incomplete { expected: 1, got: remaining }));
            }
            Ok(NbtValue::Byte(get_i8(buf)))
        },
        TagType::Short => {
            let remaining = bytes_remaining(buf);
            if remaining < 2 {
                return Err(ReadStop::Error(NbtError::Incomplete { expected: 2, got: remaining }));
            }
            Ok(NbtValue::Short(get_i16(buf)))
        },
        TagType::Int => {
            let remaining = bytes_remaining(buf);
            if remaining < 4 {
                return Err(ReadStop::Error(NbtError::Incomplete { expected: 4, got: remaining }));
            }
            Ok(NbtValue::Int(get_i32(buf)))
        },
        TagType::Long => {
            let remaining = bytes_remaining(buf);
            if remaining < 8 {
                return Err(ReadStop::Error(NbtError::Incomplete { expected: 8, got: remaining }));
            }
            Ok(NbtValue::Long(get_i64(buf)))
        },
        TagType::Float => {
            let remaining = bytes_remaining(buf);
            if remaining < 4 {
                return Err(ReadStop::Error(NbtError::Incomplete { expected: 4, got: remaining }));
            }
            proof {
                lemma_be_value_bound(s.take(4));
                reveal_with_fuel(pow256, 5);
            }
            Ok(NbtValue::Float(get_be(buf, 4) as u32))
        },
        TagType::Double => {
            let remaining = bytes_remaining(buf);
            if remaining < 8 {
                return Err(ReadStop::Error(NbtError::Incomplete { expected: 8, got: remaining }));
            }
            proof {
                lemma_be_value_bound(s.take(8));
                reveal_with_fuel(pow256, 9);
            }
            Ok(NbtValue::Double(get_be(buf, 8) as u64))
        },
        TagType::ByteArray => {
            let remaining = bytes_remaining(buf);
            if remaining < 4 {
                return Err(ReadStop::Error(NbtError::Incomplete { expected: 4, got: remaining }));
            }
            let len = get_i32(buf) as usize;
            let remaining = bytes_remaining(buf);
            if remaining < len {
                return Err(ReadStop::Error(NbtError::Incomplete { expected: len, got: remaining }));
            }
            let ghost rest = bytes_view(*buf);
            let mut arr: Vec<i8> = Vec::new();
            let mut i: usize = 0;
            while i < len
                invariant
                    i <= len <= rest.len(),
                    bytes_view(*buf) == rest.skip(i as int),
                    arr@.len() == i,
                    forall|j: int| 0 <= j < i ==> arr@[j] == signed8(rest[j]) as i8,
                decreases len - i,
            {
                proof {
                    assert(rest.skip(i as int)[0] == rest[i as int]);
                    assert(rest.skip(i as int).skip(1) =~= rest.skip(i + 1));
                }
                let b = get_i8(buf);
                arr.push(b);
                i = i + 1;
            }
            proof {
                assert(arr@ =~= Seq::new(len as nat, |i: int| signed8(rest[i]) as i8));
            }
            Ok(NbtValue::ByteArray(arr))
        },
        TagType::String => {
            let remaining = bytes_remaining(buf);
            if remaining < 2 {
                return Err(ReadStop::Error(NbtError::Incomplete { expected: 2, got: remaining }));
            }
            let len = get_u16(buf) as usize;
            let remaining = bytes_remaining(buf);
            if remaining < len {
                return Err(ReadStop::Error(NbtError::Incomplete { expected: len, got: remaining }));
            }
            let bytes = bytes_split_to(buf, len);
            match string_from_utf8(vstd::slice::slice_to_vec(bytes_as_slice(&bytes))) {
                Ok(st) => Ok(NbtValue::String(st)),
                Err(_) => Err(ReadStop::Error(NbtError::InvalidUtf8)),
            }
        },
        TagType::List => {
            let remaining = bytes_remaining(buf);
            if remaining < 5 {
                return Err(ReadStop::Error(NbtError::Incomplete { expected: 5, got: remaining }));
            }
            let elem_type = bytes_get_u8(buf);
            let ghost after_type = bytes_view(*buf);
            let len_i = get_i32(buf);
            proof {
                assert(after_type.take(4) =~= s.skip(1).take(4));
                assert(after_type.skip(4) =~= s.skip(5));
            }
            if len_i < 0 {
                return Err(ReadStop::Unreadable);
            }
            let len = len_i as usize;
            if elem_type == 0 {
                let list: Vec<NbtValue> = Vec::new();
                proof {
                    lemma_tree_list(list);
                    assert(trees(list@) =~= Seq::<NbtTree>::empty());
                }
                return Ok(NbtValue::List(list));
            }
            let elem_ty = match TagType::try_from(elem_type) {
                Ok(t) => t,
                Err(e) => {
                    return Err(ReadStop::Error(e));
                },
            };
            let list = read_list(buf, elem_ty, len)?;
            proof {
                lemma_tree_list(list);
            }
            Ok(NbtValue::List(list))
        },
        TagType::Compound => {
            let entries = read_compound_body(buf)?;
            proof {
                lemma_tree_compound(entries.0);
            }
            Ok(NbtValue::Compound(entries.0))
        },
        TagType::IntArray => {
            let remaining = bytes_remaining(buf);
            if remaining < 4 {
                return Err(ReadStop::Error(NbtError::Incomplete { expected: 4, got: remaining }));
            }
            let len = get_i32(buf) as usize;
            let need = match len.checked_mul(4) {
                Some(x) => x,
                None => {
                    return Err(ReadStop::Unreadable);
                },
            };
            let remaining = bytes_remaining(buf);
            if remaining < need {
                return Err(ReadStop::Error(NbtError::Incomplete { expected: need, got: remaining }));
            }
            let ghost rest = bytes_view(*buf);
            let mut arr: Vec<i32> = Vec::new();
            let mut i: usize = 0;
            while i < len
                invariant
                    i <= len,
                    need == len * 4,
                    need <= rest.len(),
                    bytes_view(*buf) == rest.skip(4 * i),
                    arr@.len() == i,
                    forall|j: int| 0 <= j < i ==> arr@[j] == signed32(be_value(rest.subrange(4 * j, 4 * j + 4))) as i32,
                decreases len - i,
            {
                proof {
                    assert(rest.skip(4 * i).take(4) =~= rest.subrange(4 * i, 4 * i + 4));
                    assert(rest.skip(4 * i).skip(4) =~= rest.skip(4 * (i + 1)));
                }
                let v = get_i32(buf);
                arr.push(v);
                i = i + 1;
            }
            proof {
                assert(arr@ =~= Seq::new(len as nat, |i: int| signed32(be_value(rest.subrange(4 * i, 4 * i + 4))) as i32));
            }
            Ok(NbtValue::IntArray(arr))
        },
        TagType::LongArray => {
            let remaining = bytes_remaining(buf);
            if remaining < 4 {
                return Err(ReadStop::Error(NbtError::Incomplete { expected: 4, got: remaining }));
            }
            let len = get_i32(buf) as usize;
            let need = match len.checked_mul(8) {
                Some(x) => x,
                None => {
                    return Err(ReadStop::Unreadable);
                },
            };
            let remaining = bytes_remaining(buf);
            if remaining < need {
                return Err(ReadStop::Error(NbtError::Incomplete { expected: need, got: remaining }));
            }
            let ghost rest = bytes_view(*buf);
            let mut arr: Vec<i64> = Vec::new();
            let mut i: usize = 0;
            while i < len
                invariant
                    i <= len,
                    need == len * 8,
                    need <= rest.len(),
                    bytes_view(*buf) == rest.skip(8 * i),
                    arr@.len() == i,
                    forall|j: int| 0 <= j < i ==> arr@[j] == signed64(be_value(rest.subrange(8 * j, 8 * j + 8))) as i64,
                decreases len - i,
            {
                proof {
                    assert(rest.skip(8 * i).take(8) =~= rest.subrange(8 * i, 8 * i + 8));
                    assert(rest.skip(8 * i).skip(8) =~= rest.skip(8 * (i + 1)));
                }
                let v = get_i64(buf);
                arr.push(v);
                i = i + 1;
            }
            proof {
                assert(arr@ =~= Seq::new(len as nat, |i: int| signed64(be_value(rest.subrange(8 * i, 8 * i + 8))) as i64));
            }
            Ok(NbtValue::LongArray(arr))
        },
        TagType::End => Ok(NbtValue::Byte(0)),
    }
}

/// Reads `n` payloads of type `ty` one after the other.
fn read_list(buf: &mut Bytes, ty: TagType, n: usize) -> (r: Result<Vec<NbtValue>, ReadStop>)
    ensures
        bytes_view(*final(buf)).len() <= bytes_view(*old(buf)).len(),
        match spec_list(bytes_view(*old(buf)), ty, n as nat) {
            Parsed::Done(vs, rest) => r matches Ok(v) && trees(v@) == vs && bytes_view(*final(buf)) == rest,
            Parsed::Fail(e) => r == Err::<Vec<NbtValue>, ReadStop>(ReadStop::Error(e)),
            Parsed::Panic => r == Err::<Vec<NbtValue>, ReadStop>(ReadStop::Unreadable),
        },
    decreases bytes_view(*old(buf)).len(), 2nat, 0nat,
{
    let ghost s = bytes_view(*buf);
    let mut list: Vec<NbtValue> = Vec::new();
    let mut i: usize = 0;
    while i < n
        invariant
            i <= n,
            s == bytes_view(*old(buf)),
            bytes_view(*buf).len() <= s.len(),
            match spec_list(bytes_view(*buf), ty, (n - i) as nat) {
                Parsed::Done(vs, r) => spec_list(s, ty, n as nat) == Parsed::Done(trees(list@) + vs, r),
                Parsed::Fail(e) => spec_list(s, ty, n as nat) == Parsed::<Seq<NbtTree>>::Fail(e),
                Parsed::Panic => spec_list(s, ty, n as nat) is Panic,
            },
        decreases n - i,
    {
        let ghost old_list = list@;
        let v = read_payload(buf, ty)?;
        list.push(v);
        proof {
            assert(trees(list@) =~= trees(old_list) + seq![v.tree()]);
            let m = (n - i) as nat;
            match spec_list(bytes_view(*buf), ty, (m - 1) as nat) {
                Parsed::Done(vs, r) => {
                    assert(trees(old_list) + (seq![v.tree()] + vs) =~= trees(list@) + vs);
                },
                _ => {},
            }
        }
        i = i + 1;
    }
    proof {
        assert(trees(list@) + Seq::<NbtTree>::empty() =~= trees(list@));
    }
    Ok(list)
}

/// Reads the named tags of a compound up to and including its TAG_End.
fn read_compound_body(buf: &mut Bytes) -> (r: Result<(Vec<(String, NbtValue)>, bool), ReadStop>)
    ensures
        bytes_view(*final(buf)).len() <= bytes_view(*old(buf)).len(),
        match spec_compound_body(bytes_view(*old(buf))) {
            Parsed::Done(es, rest) => r matches Ok((v, true)) && entry_trees(v@) == es && bytes_view(
                *final(buf),
            ) == rest,
            Parsed::Fail(e) => r == Err::<(Vec<(String, NbtValue)>, bool), ReadStop>(ReadStop::Error(e)),
            Parsed::Panic => r == Err::<(Vec<(String, NbtValue)>, bool), ReadStop>(ReadStop::Unreadable),
        },
    decreases bytes_view(*old(buf)).len(), 0nat, 0nat,
{
    let ghost s = bytes_view(*buf);
    let mut entries: Vec<(String, NbtValue)> = Vec::new();
    loop
        invariant
            bytes_view(*buf).len() <= s.len(),
            s == bytes_view(*old(buf)),
            match spec_compound_body(bytes_view(*buf)) {
                Parsed::Done(es, r) => spec_compound_body(s) == Parsed::Done(entry_trees(entries@) + es, r),
                Parsed::Fail(e) => spec_compound_body(s) == Parsed::<Seq<(Seq<char>, NbtTree)>>::Fail(e),
                Parsed::Panic => spec_compound_body(s) is Panic,
            },
        decreases bytes_view(*buf).len(),
    {
        let ghost cur = bytes_view(*buf);
        let ghost old_entries = entries@;
        let remaining = bytes_remaining(buf);
        if remaining == 0 {
            return Err(ReadStop::Error(NbtError::Incomplete { expected: 1, got: 0 }));
        }
        let ty_byte = bytes_get_u8(buf);
        if ty_byte == 0 {
            proof {
                assert(entry_trees(entries@) + Seq::<(Seq<char>, NbtTree)>::empty() =~= entry_trees(entries@));
            }
            return Ok((entries, true));
        }
        let ty = match TagType::try_from(ty_byte) {
            Ok(t) => t,
            Err(e) => {
                return Err(ReadStop::Error(e));
            },
        };
        let name = match read_tag_name(buf) {
            Ok((_, n)) => n,
            Err(e) => {
                return Err(ReadStop::Error(e));
            },
        };
        let value = read_payload(buf, ty)?;
        entries.push((name, value));
        proof {
            assert(entry_trees(entries@) =~= entry_trees(old_entries) + seq![(name@, value.tree())]);
            match spec_compound_body(bytes_view(*buf)) {
                Parsed::Done(es, r) => {
                    assert(entry_trees(old_entries) + (seq![(name@, value.tree())] + es) =~= entry_trees(entries@) + es);
                },
                _ => {},
            }
        }
    }
}

impl NbtValue {
    /// Read a nameless root compound (as found in level.dat and region files).
    /// Returns the compound and the number of bytes it took.
    pub fn read_compound(src: &[u8]) -> (r: Result<(Self, usize), NbtError>)
        requires
            !(spec_root(src@) is Panic),
        ensures
            match spec_root(src@) {
                Parsed::Done(v, rest) => r matches Ok((x, n)) && x.tree() == v && n == src@.len() - rest.len(),
                Parsed::Fail(e) => r == Err::<(NbtValue, usize), NbtError>(e),
                Parsed::Panic => true,
            },
    {
        match Self::read_root(src) {
            Ok(x) => Ok(x),
            Err(ReadStop::Error(e)) => Err(e),
            Err(ReadStop::Unreadable) => Err(NbtError::Incomplete { expected: 1, got: 0 }),
        }
    }

    /// Like `read_compound`, on any input: `None` where `read_compound` may not
    /// be called (data on which the reader would panic).
    pub fn try_read_compound(src: &[u8]) -> (r: Option<Result<(Self, usize), NbtError>>)
        ensures
            match spec_root(src@) {
                Parsed::Done(v, rest) => r matches Some(Ok((x, n))) && x.tree() == v && n == src@.len() - rest.len(),
                Parsed::Fail(e) => r == Some(Err::<(NbtValue, usize), NbtError>(e)),
                Parsed::Panic => r is None,
            },
    {
        match Self::read_root(src) {
            Ok(x) => Some(Ok(x)),
            Err(ReadStop::Error(e)) => Some(Err(e)),
            Err(ReadStop::Unreadable) => None,
        }
    }

    fn read_root(src: &[u8]) -> (r: Result<(Self, usize), ReadStop>)
        ensures
            match spec_root(src@) {
                Parsed::Done(v, rest) => r matches Ok((x, n)) && x.tree() == v && n == src@.len() - rest.len(),
                Parsed::Fail(e) => r == Err::<(NbtValue, usize), ReadStop>(ReadStop::Error(e)),
                Parsed::Panic => r == Err::<(NbtValue, usize), ReadStop>(ReadStop::Unreadable),
            },
    {
        let mut buf = bytes_from_vec(vstd::slice::slice_to_vec(src));
        let total = bytes_remaining(&buf);
        if total == 0 {
            return Err(ReadStop::Unreadable);
        }
        let ty = bytes_get_u8(&mut buf);
        let ty = match TagType::try_from(ty) {
            Ok(t) => t,
            Err(e) => {
                return Err(ReadStop::Error(e));
            },
        };
        if ty != TagType::Compound {
            return Err(ReadStop::Error(NbtError::ExpectedCompound(ty)));
        }
        match read_tag_name(&mut buf) {
            Ok(_) => {},
            Err(e) => {
                return Err(ReadStop::Error(e));
            },
        }
        let (compound, _) = read_compound_body(&mut buf)?;
        let consumed = total - bytes_remaining(&buf);
        proof {
            lemma_tree_compound(compound);
        }
        Ok((NbtValue::Compound(compound), consumed))
    }

    /// Read a named tag from a buffer.
    pub fn read_named(buf: &mut Bytes) -> (r: Result<(String, Self), NbtError>)
        requires
            !(spec_named(bytes_view(*old(buf))) is Panic),
        ensures
            match spec_named(bytes_view(*old(buf))) {
                Parsed::Done((name, v), rest) => r matches Ok((n, x)) && n@ == name && x.tree() == v
                    && bytes_view(*final(buf)) == rest,
                Parsed::Fail(e) => r == Err::<(String, NbtValue), NbtError>(e),
                Parsed::Panic => true,
            },
    {
        let ty_byte = bytes_get_u8(buf);
        let ty = TagType::try_from(ty_byte)?;
        if ty == TagType::End {
            return Ok((String::new(), NbtValue::Byte(0)));
        }
        let (_, name) = read_tag_name(buf)?;
        match read_payload(buf, ty) {
            Ok(value) => Ok((name, value)),
            Err(ReadStop::Error(e)) => Err(e),
            Err(ReadStop::Unreadable) => Err(NbtError::Incomplete { expected: 1, got: 0 }),
        }
    }
}

// ── Lookups in a compound ────────────────────────────────────

/// The value of the first entry named `key`.
pub open spec fn first_named(es: Seq<(Seq<char>, NbtTree)>, key: Seq<char>) -> Option<NbtTree>
    decreases es.len(),
{
    if es.len() == 0 {
        None
    } else if es[0].0 == key {
        Some(es[0].1)
    } else {
        first_named(es.drop_first(), key)
    }
}

/// The value of the first entry named `key` of a compound tree; `None` for
/// anything that is not a compound.
pub open spec fn tree_field(t: NbtTree, key: Seq<char>) -> Option<NbtTree> {
    match t {
        NbtTree::Compound(es) => first_named(es, key),
        _ => None,
    }
}

/// Finds the first entry named `key`.
pub fn find_entry<'a>(entries: &'a [(String, NbtValue)], key: &str) -> (r: Option<&'a NbtValue>)
    ensures
        match first_named(entry_trees(entries@), key@) {
            Some(t) => r matches Some(v) && v.tree() == t,
            None => r is None,
        },
{
    let ghost es = entry_trees(entries@);
    let mut i: usize = 0;
    proof {
        assert(es.skip(0) =~= es);
    }
    while i < entries.len()
        invariant
            i <= entries@.len(),
            es == entry_trees(entries@),
            first_named(es, key@) == first_named(es.skip(i as int), key@),
        decreases entries@.len() - i,
    {
        proof {
            assert(es.skip(i as int)[0] == es[i as int]);
            assert(es.skip(i as int).drop_first() =~= es.skip(i + 1));
        }
        if str_eq(entries[i].0.as_str(), key) {
            return Some(&entries[i].1);
        }
        i = i + 1;
    }
    None
}

impl NbtValue {
    /// Convenience: get a string field from a compound.
    pub fn get_string(&self, key: &str) -> (r: Option<&str>)
        ensures
            match tree_field(self.tree(), key@) {
                Some(NbtTree::Str(c)) => r matches Some(x) && x@ == c,
                _ => r is None,
            },
    {
        match self {
            NbtValue::Compound(entries) => {
                proof {
                    lemma_tree_compound(*entries);
                }
                match find_entry(entries.as_slice(), key) {
                    Some(NbtValue::String(st)) => Some(st.as_str()),
                    _ => None,
                }
            },
            _ => None,
        }
    }

    /// Convenience: get an int field from a compound.
    pub fn get_int(&self, key: &str) -> (r: Option<i32>)
        ensures
            match tree_field(self.tree(), key@) {
                Some(NbtTree::Int(i)) => r == Some(i),
                _ => r is None,
            },
    {
        match self {
            NbtValue::Compound(entries) => {
                proof {
                    lemma_tree_compound(*entries);
                }
                match find_entry(entries.as_slice(), key) {
                    Some(NbtValue::Int(i)) => Some(*i),
                    _ => None,
                }
            },
            _ => None,
        }
    }

    /// Convenience: get a compound field from a compound.
    pub fn get_compound(&self, key: &str) -> (r: Option<&[(String, NbtValue)]>)
        ensures
            match tree_field(self.tree(), key@) {
                Some(NbtTree::Compound(es)) => r matches Some(x) && entry_trees(x@) == es,
                _ => r is None,
            },
    {
        match self {
            NbtValue::Compound(entries) => {
                proof {
                    lemma_tree_compound(*entries);
                }
                match find_entry(entries.as_slice(), key) {
                    Some(NbtValue::Compound(c)) => {
                        proof {
                            lemma_tree_compound(*c);
                        }
                        Some(c.as_slice())
                    },
                    _ => None,
                }
            },
            _ => None,
        }
    }

    /// Convenience: get a list field from a compound.
    pub fn get_list(&self, key: &str) -> (r: Option<&[NbtValue]>)
        ensures
            match tree_field(self.tree(), key@) {
                Some(NbtTree::List(vs)) => r matches Some(x) && trees(x@) == vs,
                _ => r is None,
            },
    {
        match self {
            NbtValue::Compound(entries) => {
                proof {
                    lemma_tree_compound(*entries);
                }
                match find_entry(entries.as_slice(), key) {
                    Some(NbtValue::List(l)) => {
                        proof {
                            lemma_tree_list(*l);
                        }
                        Some(l.as_slice())
                    },
                    _ => None,
                }
            },
            _ => None,
        }
    }
}

} // verus!
