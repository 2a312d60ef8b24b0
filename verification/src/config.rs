//! Configuration phase packets (1.20.5+ / 26.x).
//!
//! Between Login and Play, the server sends registry data, enabled features,
//! and known packs to the client. Once both sides agree, they switch to Play.
//!
//! Packet IDs (26.2): S→C 0x03 finish_configuration, 0x07 registry_data,
//! 0x0c update_enabled_features, 0x0e select_known_packs; C→S 0x03
//! finish_configuration, 0x00 client_information.
use vstd::prelude::*;
use bytes::{Bytes, BytesMut};
use crate::buffers::{
    bytes_as_slice, bytes_get_u8, bytes_mut_extend_from_slice, bytes_mut_put_u8, bytes_mut_view,
    bytes_remaining, bytes_split_to, bytes_view, get_i8,
};
use crate::handshake::{
    law_string_roundtrip, read_string, spec_read_string, spec_read_varint, spec_string_bytes,
    write_string,
};
use crate::packet::{fault_of, Packet, PacketError, ReadFault};
use crate::varint::{law_varint_roundtrip, varint_of, VarInt};
use vstd::utf8::encode_utf8;

verus! {

/// The characters of each string.
pub open spec fn string_views(v: Seq<String>) -> Seq<Seq<char>> {
    v.map_values(|s: String| s@)
}

/// The bytes of a run of string fields.
pub open spec fn spec_strings_bytes(cs: Seq<Seq<char>>) -> Seq<u8>
    decreases cs.len(),
{
    if cs.len() == 0 {
        Seq::empty()
    } else {
        spec_strings_bytes(cs.drop_last()) + spec_string_bytes(cs.last())
    }
}

/// Reading `n` string fields one after the other.
pub open spec fn spec_read_strings(s: Seq<u8>, n: nat) -> Result<(Seq<Seq<char>>, Seq<u8>), ReadFault>
    decreases n,
{
    if n == 0 {
        Ok((Seq::empty(), s))
    } else {
        match spec_read_string(s) {
            Err(f) => Err(f),
            Ok((c, rest)) => match spec_read_strings(rest, (n - 1) as nat) {
                Err(f) => Err(f),
                Ok((cs, r)) => Ok((seq![c] + cs, r)),
            },
        }
    }
}

/// Reading a count then that many string fields.
pub open spec fn spec_read_string_list(s: Seq<u8>) -> Result<(Seq<Seq<char>>, Seq<u8>), ReadFault> {
    match spec_read_varint(s) {
        Err(f) => Err(f),
        Ok((count, rest)) => spec_read_strings(rest, if count > 0 { count as nat } else { 0 }),
    }
}

proof fn lemma_strings_bytes_front(cs: Seq<Seq<char>>)
    requires
        cs.len() > 0,
    ensures
        spec_strings_bytes(cs) == spec_string_bytes(cs[0]) + spec_strings_bytes(cs.drop_first()),
    decreases cs.len(),
{
    if cs.len() == 1 {
        assert(cs.drop_last() =~= Seq::<Seq<char>>::empty());
        assert(cs.drop_first() =~= Seq::<Seq<char>>::empty());
        assert(spec_string_bytes(cs[0]) + Seq::<u8>::empty() =~= Seq::<u8>::empty() + spec_string_bytes(cs[0]));
    } else {
        lemma_strings_bytes_front(cs.drop_last());
        assert(cs.drop_last().drop_first() =~= cs.drop_first().drop_last());
        assert(cs.drop_first().last() == cs.last());
        assert(spec_strings_bytes(cs) =~= spec_string_bytes(cs[0]) + spec_strings_bytes(cs.drop_first()));
    }
}

/// A run of string fields, each of whose UTF-8 length fits in an `i32`, reads
/// back as the same strings and leaves what followed.
pub proof fn law_strings_roundtrip(cs: Seq<Seq<char>>, rest: Seq<u8>)
    requires
        forall|i: int| 0 <= i < cs.len() ==> encode_utf8(#[trigger] cs[i]).len() <= i32::MAX,
    ensures
        spec_read_strings(spec_strings_bytes(cs) + rest, cs.len()) == Ok::<
            (Seq<Seq<char>>, Seq<u8>),
            ReadFault,
        >((cs, rest)),
    decreases cs.len(),
{
    if cs.len() > 0 {
        lemma_strings_bytes_front(cs);
        let tail = cs.drop_first();
        let tb = spec_strings_bytes(tail);
        assert(spec_strings_bytes(cs) + rest =~= spec_string_bytes(cs[0]) + (tb + rest));
        assert(encode_utf8(cs[0]).len() <= i32::MAX);
        law_string_roundtrip(cs[0], tb + rest);
        assert forall|i: int| 0 <= i < tail.len() implies encode_utf8(#[trigger] tail[i]).len()
            <= i32::MAX by {
            assert(tail[i] == cs[i + 1]);
        }
        law_strings_roundtrip(tail, rest);
        assert(seq![cs[0]] + tail =~= cs);
        let whole = spec_string_bytes(cs[0]) + (tb + rest);
        assert(spec_read_string(whole) == Ok::<(Seq<char>, Seq<u8>), ReadFault>((cs[0], tb + rest)));
        assert(spec_read_strings(tb + rest, tail.len()) == Ok::<(Seq<Seq<char>>, Seq<u8>), ReadFault>((tail, rest)));
        assert(tail.len() == (cs.len() - 1) as nat);
        assert(spec_read_strings(whole, cs.len()) == Ok::<(Seq<Seq<char>>, Seq<u8>), ReadFault>((seq![cs[0]] + tail, rest)));
    } else {
        assert(Seq::<u8>::empty() + rest =~= rest);
        assert(cs =~= Seq::<Seq<char>>::empty());
    }
}

/// Writes each string field in order.
fn write_strings(buf: &mut BytesMut, items: &Vec<String>)
    ensures
        bytes_mut_view(*final(buf)) == bytes_mut_view(*old(buf)) + spec_strings_bytes(
            string_views(items@),
        ),
{
    let ghost start = bytes_mut_view(*buf);
    let ghost cs = string_views(items@);
    let mut i: usize = 0;
    while i < items.len()
        invariant
            i <= items.len(),
            cs == string_views(items@),
            bytes_mut_view(*buf) == start + spec_strings_bytes(cs.take(i as int)),
        decreases items.len() - i,
    {
        write_string(buf, items[i].as_str());
        proof {
            assert(cs.take(i + 1).drop_last() =~= cs.take(i as int));
            assert(start + spec_strings_bytes(cs.take(i as int)) + spec_string_bytes(cs[i as int])
                =~= start + spec_strings_bytes(cs.take(i + 1)));
        }
        i = i + 1;
    }
    proof {
        assert(cs.take(items.len() as int) =~= cs);
    }
}

/// Reads `count` string fields.
fn read_strings(buf: &mut Bytes, count: i32) -> (r: Result<Vec<String>, PacketError>)
    ensures
        match spec_read_strings(bytes_view(*old(buf)), if count > 0 { count as nat } else { 0 }) {
            Ok((cs, rest)) => r matches Ok(v) && string_views(v@) == cs && bytes_view(*final(buf))
                == rest,
            Err(f) => r matches Err(e) && fault_of(e) == f,
        },
{
    let ghost s = bytes_view(*buf);
    let ghost n: nat = if count > 0 { count as nat } else { 0 };
    let mut items: Vec<String> = Vec::new();
    let mut i: i32 = 0;
    while i < count
        invariant
            s == bytes_view(*old(buf)),
            0 <= i,
            count <= 0 ==> i == 0,
            count > 0 ==> i <= count,
            n == (if count > 0 { count as nat } else { 0 }),
            match spec_read_strings(bytes_view(*buf), (n - i) as nat) {
                Ok((cs, rest)) => spec_read_strings(s, n) == Ok::<
                    (Seq<Seq<char>>, Seq<u8>),
                    ReadFault,
                >((string_views(items@) + cs, rest)),
                Err(f) => spec_read_strings(s, n) == Err::<(Seq<Seq<char>>, Seq<u8>), ReadFault>(f),
            },
        decreases count - i,
    {
        let ghost before = bytes_view(*buf);
        let ghost old_items = items@;
        let ghost m = (n - i) as nat;
        let item = match read_string(buf) {
            Ok(x) => x,
            Err(e) => {
                proof {
                    assert(m > 0);
                    assert(spec_read_string(before) == Err::<(Seq<char>, Seq<u8>), ReadFault>(fault_of(e)));
                    assert(spec_read_strings(before, m) == Err::<(Seq<Seq<char>>, Seq<u8>), ReadFault>(fault_of(e)));
                }
                return Err(e);
            },
        };
        items.push(item);
        proof {
            let m = (n - i) as nat;
            assert(string_views(items@) =~= string_views(old_items) + seq![item@]);
            match spec_read_strings(bytes_view(*buf), (m - 1) as nat) {
                Ok((cs, rest)) => {
                    assert(string_views(old_items) + (seq![item@] + cs) =~= string_views(items@)
                        + cs);
                },
                Err(f) => {},
            }
        }
        i = i + 1;
    }
    proof {
        assert(string_views(items@) + Seq::<Seq<char>>::empty() =~= string_views(items@));
    }
    Ok(items)
}

// ── S→C: Registry Data ──────────────────────────────────────

/// S→C: Registry Data packet.
///
/// Carries a list of registry entries for a specific registry key
/// (e.g. "minecraft:dimension_type", "minecraft:worldgen/biome").
#[derive(Debug, Clone)]
pub struct ClientboundRegistryData {
    /// Namespaced registry key, e.g. "minecraft:block".
    pub registry_key: String,
    /// The registry entries.
    pub entries: Vec<RegistryEntry>,
}

/// A single entry in a registry data packet.
#[derive(Debug, Clone)]
pub struct RegistryEntry {
    /// The namespaced entry ID, e.g. "minecraft:stone".
    pub id: String,
    /// Optional NBT element data (present if `has_data` is true).
    pub data: Option<Vec<u8>>,
}

/// The ID and data of an entry as plain values.
pub open spec fn entry_view(e: RegistryEntry) -> (Seq<char>, Option<Seq<u8>>) {
    (e.id@, match e.data {
        Some(d) => Some(d@),
        None => None,
    })
}

/// The IDs and data of entries as plain values.
pub open spec fn entry_views(v: Seq<RegistryEntry>) -> Seq<(Seq<char>, Option<Seq<u8>>)> {
    v.map_values(|e: RegistryEntry| entry_view(e))
}

/// The bytes of one registry entry.
pub open spec fn spec_entry_bytes(e: (Seq<char>, Option<Seq<u8>>)) -> Seq<u8> {
    spec_string_bytes(e.0) + match e.1 {
        Some(d) => seq![1u8] + d,
        None => seq![0u8],
    }
}

/// The bytes of a run of registry entries.
pub open spec fn spec_entries_bytes(es: Seq<(Seq<char>, Option<Seq<u8>>)>) -> Seq<u8>
    decreases es.len(),
{
    if es.len() == 0 {
        Seq::empty()
    } else {
        spec_entries_bytes(es.drop_last()) + spec_entry_bytes(es.last())
    }
}

/// Reading one registry entry: its ID, then a flag byte; a set flag takes all
/// the bytes that follow as the entry's data.
pub open spec fn spec_read_entry(s: Seq<u8>) -> Result<((Seq<char>, Option<Seq<u8>>), Seq<u8>), ReadFault> {
    match spec_read_string(s) {
        Err(f) => Err(f),
        Ok((id, rest)) => if rest.len() < 1 {
            Err(ReadFault::Incomplete { expected: 1, got: 0 })
        } else if rest[0] != 0 {
            Ok(((id, Some(rest.skip(1))), Seq::empty()))
        } else {
            Ok(((id, None), rest.skip(1)))
        },
    }
}

/// Reading `n` registry entries one after the other.
pub open spec fn spec_read_entries(s: Seq<u8>, n: nat) -> Result<(Seq<(Seq<char>, Option<Seq<u8>>)>, Seq<u8>), ReadFault>
    decreases n,
{
    if n == 0 {
        Ok((Seq::empty(), s))
    } else {
        match spec_read_entry(s) {
            Err(f) => Err(f),
            Ok((e, rest)) => match spec_read_entries(rest, (n - 1) as nat) {
                Err(f) => Err(f),
                Ok((es, r)) => Ok((seq![e] + es, r)),
            },
        }
    }
}

/// Reading a Registry Data body.
pub open spec fn spec_read_registry_data(s: Seq<u8>) -> Result<(Seq<char>, Seq<(Seq<char>, Option<Seq<u8>>)>, Seq<u8>), ReadFault> {
    match spec_read_string(s) {
        Err(f) => Err(f),
        Ok((key, s1)) => match spec_read_varint(s1) {
            Err(f) => Err(f),
            Ok((count, s2)) => match spec_read_entries(s2, if count > 0 { count as nat } else { 0 }) {
                Err(f) => Err(f),
                Ok((es, r)) => Ok((key, es, r)),
            },
        },
    }
}

/// Reads `count` registry entries.
fn read_entries(buf: &mut Bytes, count: i32) -> (r: Result<Vec<RegistryEntry>, PacketError>)
    ensures
        match spec_read_entries(bytes_view(*old(buf)), if count > 0 { count as nat } else { 0 }) {
            Ok((es, rest)) => r matches Ok(v) && entry_views(v@) == es && bytes_view(*final(buf))
                == rest,
            Err(f) => r matches Err(e) && fault_of(e) == f,
        },
{
    let ghost s = bytes_view(*buf);
    let ghost n: nat = if count > 0 { count as nat } else { 0 };
    let mut entries: Vec<RegistryEntry> = Vec::new();
    let mut i: i32 = 0;
    while i < count
        invariant
            s == bytes_view(*old(buf)),
            0 <= i,
            count <= 0 ==> i == 0,
            count > 0 ==> i <= count,
            n == (if count > 0 { count as nat } else { 0 }),
            match spec_read_entries(bytes_view(*buf), (n - i) as nat) {
                Ok((es, rest)) => spec_read_entries(s, n) == Ok::<
                    (Seq<(Seq<char>, Option<Seq<u8>>)>, Seq<u8>),
                    ReadFault,
                >((entry_views(entries@) + es, rest)),
                Err(f) => spec_read_entries(s, n) == Err::<
                    (Seq<(Seq<char>, Option<Seq<u8>>)>, Seq<u8>),
                    ReadFault,
                >(f),
            },
        decreases count - i,
    {
        let ghost old_entries = entries@;
        let ghost before = bytes_view(*buf);
        let id = read_string(buf)?;
        let ghost after_id = bytes_view(*buf);
        let remaining = bytes_remaining(buf);
        if remaining < 1 {
            return Err(PacketError::Incomplete { expected: 1, got: remaining });
        }
        let flag = bytes_get_u8(buf);
        let has_data = flag != 0;
        let data = if has_data {
            let remaining = bytes_remaining(buf);
            let nbt_bytes = bytes_split_to(buf, remaining);
            proof {
                assert(bytes_view(*buf) =~= Seq::<u8>::empty());
            }
            let d = vstd::slice::slice_to_vec(bytes_as_slice(&nbt_bytes));
            proof {
                assert(d@ =~= after_id.skip(1));
            }
            Some(d)
        } else {
            None
        };
        let entry = RegistryEntry { id, data };
        proof {
            let m = (n - i) as nat;
            assert(m > 0);
            assert(spec_read_entry(before) == Ok::<((Seq<char>, Option<Seq<u8>>), Seq<u8>), ReadFault>((entry_view(entry), bytes_view(*buf))));
        }
        entries.push(entry);
        proof {
            let m = (n - i) as nat;
            assert(entry_views(entries@) =~= entry_views(old_entries) + seq![entry_view(entry)]);
            match spec_read_entries(bytes_view(*buf), (m - 1) as nat) {
                Ok((es, rest)) => {
                    assert(entry_views(old_entries) + (seq![entry_view(entry)] + es) =~= entry_views(
                        entries@,
                    ) + es);
                },
                Err(f) => {},
            }
        }
        i = i + 1;
    }
    proof {
        assert(entry_views(entries@) + Seq::<(Seq<char>, Option<Seq<u8>>)>::empty() =~= entry_views(
            entries@,
        ));
    }
    Ok(entries)
}

impl Packet for ClientboundRegistryData {
    const ID: i32 = 0x07;

    fn write(&self, buf: &mut BytesMut)
        ensures
            bytes_mut_view(*final(buf)) == bytes_mut_view(*old(buf)) + spec_string_bytes(
                self.registry_key@,
            ) + varint_of(self.entries@.len() as i32) + spec_entries_bytes(entry_views(self.entries@)),
    {
        let ghost start = bytes_mut_view(*buf);
        write_string(buf, self.registry_key.as_str());
        VarInt(self.entries.len() as i32).write(buf);
        let ghost mid = bytes_mut_view(*buf);
        let ghost es = entry_views(self.entries@);
        let mut i: usize = 0;
        while i < self.entries.len()
            invariant
                i <= self.entries.len(),
                es == entry_views(self.entries@),
                bytes_mut_view(*buf) == mid + spec_entries_bytes(es.take(i as int)),
            decreases self.entries.len() - i,
        {
            let entry = &self.entries[i];
            let ghost before = bytes_mut_view(*buf);
            write_string(buf, entry.id.as_str());
            match &entry.data {
                Some(data) => {
                    bytes_mut_put_u8(buf, 1);
                    bytes_mut_extend_from_slice(buf, data.as_slice());
                },
                None => {
                    bytes_mut_put_u8(buf, 0);
                },
            }
            proof {
                assert(es.take(i + 1).drop_last() =~= es.take(i as int));
                assert(es[i as int] == entry_view(*entry));
                assert(bytes_mut_view(*buf) =~= before + spec_entry_bytes(es[i as int]));
            }
            i = i + 1;
        }
        proof {
            assert(es.take(self.entries.len() as int) =~= es);
        }
    }

    fn read(buf: &mut Bytes) -> (r: Result<Self, PacketError>)
        ensures
            match spec_read_registry_data(bytes_view(*old(buf))) {
                Ok((key, es, rest)) => r matches Ok(p) && p.registry_key@ == key && entry_views(
                    p.entries@,
                ) == es && bytes_view(*final(buf)) == rest,
                Err(f) => r matches Err(e) && fault_of(e) == f,
            },
    {
        let registry_key = read_string(buf)?;
        let count = match VarInt::read(buf) {
            Ok(v) => v,
            Err(e) => {
                return Err(PacketError::VarInt(e));
            },
        };
        let entries = read_entries(buf, count.0)?;
        Ok(Self { registry_key, entries })
    }
}

// ── S→C: Update Enabled Features ────────────────────────────

/// S→C: Update Enabled Features (Feature Flags).
///
/// Tells the client which experimental features are enabled.
/// Features are identified by namespaced strings.
#[derive(Debug, Clone)]
pub struct ClientboundUpdateEnabledFeatures {
    pub features: Vec<String>,
}

impl Packet for ClientboundUpdateEnabledFeatures {
    const ID: i32 = 0x0c;

    fn write(&self, buf: &mut BytesMut)
        ensures
            bytes_mut_view(*final(buf)) == bytes_mut_view(*old(buf)) + varint_of(
                self.features@.len() as i32,
            ) + spec_strings_bytes(string_views(self.features@)),
    {
        VarInt(self.features.len() as i32).write(buf);
        write_strings(buf, &self.features);
    }

    fn read(buf: &mut Bytes) -> (r: Result<Self, PacketError>)
        ensures
            match spec_read_string_list(bytes_view(*old(buf))) {
                Ok((cs, rest)) => r matches Ok(p) && string_views(p.features@) == cs && bytes_view(
                    *final(buf),
                ) == rest,
                Err(f) => r matches Err(e) && fault_of(e) == f,
            },
    {
        let count = match VarInt::read(buf) {
            Ok(v) => v,
            Err(e) => {
                return Err(PacketError::VarInt(e));
            },
        };
        let features = read_strings(buf, count.0)?;
        Ok(Self { features })
    }
}

/// A feature list whose strings' UTF-8 lengths, and whose length, fit in an
/// `i32` reads back from its bytes, followed by anything, as itself.
pub proof fn law_features_roundtrip(cs: Seq<Seq<char>>, rest: Seq<u8>)
    requires
        cs.len() <= i32::MAX,
        forall|i: int| 0 <= i < cs.len() ==> encode_utf8(#[trigger] cs[i]).len() <= i32::MAX,
    ensures
        spec_read_string_list(varint_of(cs.len() as i32) + spec_strings_bytes(cs) + rest) == Ok::<
            (Seq<Seq<char>>, Seq<u8>),
            ReadFault,
        >((cs, rest)),
{
    let v = varint_of(cs.len() as i32);
    let body = spec_strings_bytes(cs) + rest;
    law_varint_roundtrip(cs.len() as i32, body);
    assert(v + spec_strings_bytes(cs) + rest =~= v + body);
    assert((v + body).skip(v.len() as int) =~= body);
    law_strings_roundtrip(cs, rest);
}

// ── S→C: Select Known Packs ─────────────────────────────────

/// S→C / C→S: Select Known Packs.
///
/// Both sides inform each other which data pack versions they know.
#[derive(Debug, Clone)]
pub struct ClientboundSelectKnownPacks {
    pub known_packs: Vec<KnownPack>,
}

/// A single known pack entry.
#[derive(Debug, Clone)]
pub struct KnownPack {
    pub namespace: String,
    pub id: String,
    pub version: String,
}

/// The three strings of each pack, in order.
pub open spec fn pack_strings(v: Seq<KnownPack>) -> Seq<Seq<char>>
    decreases v.len(),
{
    if v.len() == 0 {
        Seq::empty()
    } else {
        pack_strings(v.drop_last()) + seq![v.last().namespace@, v.last().id@, v.last().version@]
    }
}

/// Groups a run of strings in threes as packs.
pub open spec fn packs_of(cs: Seq<Seq<char>>) -> Seq<(Seq<char>, Seq<char>, Seq<char>)> {
    Seq::new(cs.len() / 3, |i: int| (cs[3 * i], cs[3 * i + 1], cs[3 * i + 2]))
}

/// The namespace, ID and version of each pack.
pub open spec fn pack_views(v: Seq<KnownPack>) -> Seq<(Seq<char>, Seq<char>, Seq<char>)> {
    v.map_values(|p: KnownPack| (p.namespace@, p.id@, p.version@))
}

/// Reading a count, then three string fields per pack.
pub open spec fn spec_read_known_packs(s: Seq<u8>) -> Result<(Seq<(Seq<char>, Seq<char>, Seq<char>)>, Seq<u8>), ReadFault> {
    match spec_read_varint(s) {
        Err(f) => Err(f),
        Ok((count, rest)) => match spec_read_strings(rest, if count > 0 { 3 * count as nat } else { 0 }) {
            Err(f) => Err(f),
            Ok((cs, r)) => Ok((packs_of(cs), r)),
        },
    }
}

proof fn lemma_read_strings_split(s: Seq<u8>, a: nat, b: nat)
    ensures
        spec_read_strings(s, a + b) == match spec_read_strings(s, a) {
            Err(f) => Err(f),
            Ok((cs, r)) => match spec_read_strings(r, b) {
                Err(f) => Err(f),
                Ok((ds, r2)) => Ok::<(Seq<Seq<char>>, Seq<u8>), ReadFault>((cs + ds, r2)),
            },
        },
    decreases a,
{
    if a == 0 {
        match spec_read_strings(s, b) {
            Ok((ds, r2)) => {
                assert(Seq::<Seq<char>>::empty() + ds =~= ds);
            },
            Err(_) => {},
        }
    } else {
        match spec_read_string(s) {
            Err(_) => {},
            Ok((c, rest)) => {
                lemma_read_strings_split(rest, (a - 1) as nat, b);
                assert((a + b - 1) as nat == ((a - 1) + b) as nat);
                match spec_read_strings(rest, (a - 1) as nat) {
                    Err(_) => {},
                    Ok((cs, r)) => match spec_read_strings(r, b) {
                        Err(_) => {},
                        Ok((ds, r2)) => {
                            assert(seq![c] + (cs + ds) =~= (seq![c] + cs) + ds);
                        },
                    },
                }
            },
        }
    }
}

impl Packet for ClientboundSelectKnownPacks {
    const ID: i32 = 0x0e;

    fn write(&self, buf: &mut BytesMut)
        ensures
            bytes_mut_view(*final(buf)) == bytes_mut_view(*old(buf)) + varint_of(
                self.known_packs@.len() as i32,
            ) + spec_strings_bytes(pack_strings(self.known_packs@)),
    {
        VarInt(self.known_packs.len() as i32).write(buf);
        let ghost mid = bytes_mut_view(*buf);
        let ghost ps = self.known_packs@;
        let mut i: usize = 0;
        while i < self.known_packs.len()
            invariant
                i <= self.known_packs.len(),
                ps == self.known_packs@,
                bytes_mut_view(*buf) == mid + spec_strings_bytes(pack_strings(ps.take(i as int))),
            decreases self.known_packs.len() - i,
        {
            let pack = &self.known_packs[i];
            let ghost before = bytes_mut_view(*buf);
            write_string(buf, pack.namespace.as_str());
            write_string(buf, pack.id.as_str());
            write_string(buf, pack.version.as_str());
            proof {
                let prev = pack_strings(ps.take(i as int));
                assert(ps.take(i + 1).drop_last() =~= ps.take(i as int));
                let three = seq![pack.namespace@, pack.id@, pack.version@];
                let all = prev + three;
                assert(pack_strings(ps.take(i + 1)) == all);
                assert(all.drop_last().drop_last().drop_last() =~= prev);
                assert(all.drop_last().drop_last().last() == pack.namespace@);
                assert(all.drop_last().last() == pack.id@);
                assert(all.last() == pack.version@);
                reveal_with_fuel(spec_strings_bytes, 4);
                assert(spec_strings_bytes(all) =~= spec_strings_bytes(prev) + spec_string_bytes(
                    pack.namespace@,
                ) + spec_string_bytes(pack.id@) + spec_string_bytes(pack.version@));
                assert(bytes_mut_view(*buf) =~= mid + spec_strings_bytes(all));
            }
            i = i + 1;
        }
        proof {
            assert(ps.take(self.known_packs.len() as int) =~= ps);
        }
    }

    fn read(buf: &mut Bytes) -> (r: Result<Self, PacketError>)
        ensures
            match spec_read_known_packs(bytes_view(*old(buf))) {
                Ok((ps, rest)) => r matches Ok(p) && pack_views(p.known_packs@) == ps && bytes_view(
                    *final(buf),
                ) == rest,
                Err(f) => r matches Err(e) && fault_of(e) == f,
            },
    {
        let count = match VarInt::read(buf) {
            Ok(v) => v,
            Err(e) => {
                return Err(PacketError::VarInt(e));
            },
        };
        let ghost s = bytes_view(*buf);
        let ghost n: nat = if count.0 > 0 { count.0 as nat } else { 0 };
        let mut known_packs: Vec<KnownPack> = Vec::new();
        let mut i: i32 = 0;
        while i < count.0
            invariant
                spec_read_varint(bytes_view(*old(buf))) == Ok::<(int, Seq<u8>), ReadFault>((count.0 as int, s)),
                0 <= i,
                count.0 <= 0 ==> i == 0,
                count.0 > 0 ==> i <= count.0,
                n == (if count.0 > 0 { count.0 as nat } else { 0 }),
                match spec_read_strings(bytes_view(*buf), (3 * (n - i)) as nat) {
                    Ok((cs, rest)) => spec_read_strings(s, 3 * n) == Ok::<
                        (Seq<Seq<char>>, Seq<u8>),
                        ReadFault,
                    >((pack_strings(known_packs@) + cs, rest)),
                    Err(f) => spec_read_strings(s, 3 * n) == Err::<
                        (Seq<Seq<char>>, Seq<u8>),
                        ReadFault,
                    >(f),
                },
            decreases count.0 - i,
        {
            let ghost before = bytes_view(*buf);
            let ghost old_packs = known_packs@;
            let ghost m = (n - i) as nat;
            proof {
                lemma_read_strings_split(before, 3, (3 * (m - 1)) as nat);
                assert((3 + 3 * (m - 1)) as nat == (3 * m) as nat);
            }
            let pack = read_pack(buf)?;
            known_packs.push(pack);
            proof {
                assert(known_packs@.drop_last() =~= old_packs);
                let three = seq![pack.namespace@, pack.id@, pack.version@];
                assert(pack_strings(known_packs@) == pack_strings(old_packs) + three);
                match spec_read_strings(bytes_view(*buf), (3 * (m - 1)) as nat) {
                    Ok((cs, rest)) => {
                        assert(pack_strings(old_packs) + (three + cs) =~= pack_strings(known_packs@)
                            + cs);
                    },
                    Err(f) => {},
                }
            }
            i = i + 1;
        }
        proof {
            let ps = pack_strings(known_packs@);
            assert(ps + Seq::<Seq<char>>::empty() =~= ps);
            lemma_packs_of_pack_strings(known_packs@);
        }
        Ok(Self { known_packs })
    }
}

/// Reads the three strings of one pack.
fn read_pack(buf: &mut Bytes) -> (r: Result<KnownPack, PacketError>)
    ensures
        match spec_read_strings(bytes_view(*old(buf)), 3) {
            Ok((cs, rest)) => r matches Ok(p) && cs == seq![p.namespace@, p.id@, p.version@]
                && bytes_view(*final(buf)) == rest,
            Err(f) => r matches Err(e) && fault_of(e) == f,
        },
{
    proof {
        reveal_with_fuel(spec_read_strings, 4);
    }
    let namespace = read_string(buf)?;
    let id = read_string(buf)?;
    let version = read_string(buf)?;
    let pack = KnownPack { namespace, id, version };
    proof {
        assert(seq![pack.namespace@] + (seq![pack.id@] + (seq![pack.version@]
            + Seq::<Seq<char>>::empty())) =~= seq![pack.namespace@, pack.id@, pack.version@]);
    }
    Ok(pack)
}

proof fn lemma_packs_of_pack_strings(v: Seq<KnownPack>)
    ensures
        pack_strings(v).len() == 3 * v.len(),
        packs_of(pack_strings(v)) == pack_views(v),
    decreases v.len(),
{
    if v.len() > 0 {
        lemma_packs_of_pack_strings(v.drop_last());
        let ps = pack_strings(v);
        let prev = pack_strings(v.drop_last());
        assert forall|i: int| 0 <= i < v.len() implies #[trigger] packs_of(ps)[i] == pack_views(
            v,
        )[i] by {
            if i < v.len() - 1 {
                assert(packs_of(prev)[i] == pack_views(v.drop_last())[i]);
                assert(ps[3 * i] == prev[3 * i]);
                assert(ps[3 * i + 1] == prev[3 * i + 1]);
                assert(ps[3 * i + 2] == prev[3 * i + 2]);
            }
        }
        assert(packs_of(ps) =~= pack_views(v));
    } else {
        assert(packs_of(pack_strings(v)) =~= pack_views(v));
    }
}

// ── Finish Configuration ────────────────────────────────────

/// S→C: Finish Configuration. Empty packet — signals the client to switch to Play state.
#[derive(Debug, Clone)]
pub struct ClientboundFinishConfiguration;

impl Packet for ClientboundFinishConfiguration {
    const ID: i32 = 0x03;

    fn write(&self, buf: &mut BytesMut)
        ensures
            bytes_mut_view(*final(buf)) == bytes_mut_view(*old(buf)),
    {
    }

    fn read(buf: &mut Bytes) -> (r: Result<Self, PacketError>)
        ensures
            r is Ok,
            bytes_view(*final(buf)) == bytes_view(*old(buf)),
    {
        Ok(Self)
    }
}

/// C→S: Finish Configuration (acknowledgment).
#[derive(Debug, Clone)]
pub struct ServerboundFinishConfiguration;

impl Packet for ServerboundFinishConfiguration {
    const ID: i32 = 0x03;

    fn write(&self, buf: &mut BytesMut)
        ensures
            bytes_mut_view(*final(buf)) == bytes_mut_view(*old(buf)),
    {
    }

    fn read(buf: &mut Bytes) -> (r: Result<Self, PacketError>)
        ensures
            r is Ok,
            bytes_view(*final(buf)) == bytes_view(*old(buf)),
    {
        Ok(Self)
    }
}

// ── C→S: Client Information ──────────────────────────────────

/// C→S: Client Information (sent during Configuration).
///
/// Carries client locale, view distance, chat mode, etc.
#[derive(Debug, Clone)]
pub struct ClientInformation {
    pub locale: String,
    pub view_distance: i8,
    pub chat_mode: i32,
    pub chat_colors: bool,
    pub displayed_skin_parts: u8,
    pub main_hand: i32,
    pub enable_text_filtering: bool,
    pub allow_server_listings: bool,
}

/// A byte as a two's complement number.
pub open spec fn signed8(b: u8) -> int {
    if b < 128 { b as int } else { b - 256 }
}

/// The fields of a Client Information body as plain values.
pub struct ClientInfoView {
    pub locale: Seq<char>,
    pub view_distance: int,
    pub chat_mode: int,
    pub chat_colors: bool,
    pub displayed_skin_parts: u8,
    pub main_hand: int,
    pub enable_text_filtering: bool,
    pub allow_server_listings: bool,
}

/// Reading a Client Information body. (A body too short for one of the bytes
/// that follow a field is reported as incomplete.)
pub open spec fn spec_read_client_information(s: Seq<u8>) -> Result<(ClientInfoView, Seq<u8>), ReadFault> {
    match spec_read_string(s) {
        Err(f) => Err(f),
        Ok((locale, r1)) => if r1.len() < 1 {
            Err(ReadFault::Incomplete { expected: 1, got: 0 })
        } else {
            match spec_read_varint(r1.skip(1)) {
                Err(f) => Err(f),
                Ok((chat_mode, r2)) => if r2.len() < 2 {
                    Err(ReadFault::Incomplete { expected: 2, got: r2.len() as usize })
                } else {
                    match spec_read_varint(r2.skip(2)) {
                        Err(f) => Err(f),
                        Ok((main_hand, r3)) => if r3.len() < 2 {
                            Err(ReadFault::Incomplete { expected: 2, got: r3.len() as usize })
                        } else {
                            Ok((
                                ClientInfoView {
                                    locale,
                                    view_distance: signed8(r1[0]),
                                    chat_mode,
                                    chat_colors: r2[0] != 0,
                                    displayed_skin_parts: r2[1],
                                    main_hand,
                                    enable_text_filtering: r3[0] != 0,
                                    allow_server_listings: r3[1] != 0,
                                },
                                r3.skip(2),
                            ))
                        },
                    }
                },
            }
        },
    }
}

/// The bytes of a Client Information body.
pub open spec fn spec_client_information_bytes(c: ClientInfoView) -> Seq<u8> {
    spec_string_bytes(c.locale) + seq![(if c.view_distance >= 0 { c.view_distance } else { c.view_distance + 256 }) as u8]
        + varint_of(c.chat_mode as i32) + seq![if c.chat_colors { 1u8 } else { 0u8 }, c.displayed_skin_parts]
        + varint_of(c.main_hand as i32) + seq![
        if c.enable_text_filtering { 1u8 } else { 0u8 },
        if c.allow_server_listings { 1u8 } else { 0u8 },
    ]
}

/// The fields of a Client Information packet as plain values.
pub open spec fn client_information_view(p: ClientInformation) -> ClientInfoView {
    ClientInfoView {
        locale: p.locale@,
        view_distance: p.view_distance as int,
        chat_mode: p.chat_mode as int,
        chat_colors: p.chat_colors,
        displayed_skin_parts: p.displayed_skin_parts,
        main_hand: p.main_hand as int,
        enable_text_filtering: p.enable_text_filtering,
        allow_server_listings: p.allow_server_listings,
    }
}

impl Packet for ClientInformation {
    const ID: i32 = 0x00;

    fn write(&self, buf: &mut BytesMut)
        ensures
            bytes_mut_view(*final(buf)) == bytes_mut_view(*old(buf)) + spec_client_information_bytes(
                client_information_view(*self),
            ),
    {
        let ghost start = bytes_mut_view(*buf);
        write_string(buf, self.locale.as_str());
        let vd: u8 = if self.view_distance >= 0 {
            self.view_distance as u8
        } else {
            (self.view_distance as i16 + 256) as u8
        };
        bytes_mut_put_u8(buf, vd);
        VarInt(self.chat_mode).write(buf);
        bytes_mut_put_u8(buf, if self.chat_colors { 1 } else { 0 });
        bytes_mut_put_u8(buf, self.displayed_skin_parts);
        VarInt(self.main_hand).write(buf);
        bytes_mut_put_u8(buf, if self.enable_text_filtering { 1 } else { 0 });
        bytes_mut_put_u8(buf, if self.allow_server_listings { 1 } else { 0 });
        proof {
            assert(bytes_mut_view(*buf) =~= start + spec_client_information_bytes(
                client_information_view(*self),
            ));
        }
    }

    fn read(buf: &mut Bytes) -> (r: Result<Self, PacketError>)
        ensures
            match spec_read_client_information(bytes_view(*old(buf))) {
                Ok((c, rest)) => r matches Ok(p) && client_information_view(p) == c && bytes_view(
                    *final(buf),
                ) == rest,
                Err(f) => r matches Err(e) && fault_of(e) == f,
            },
    {
        let ghost s = bytes_view(*buf);
        let locale = read_string(buf)?;
        if bytes_remaining(buf) < 1 {
            return Err(PacketError::Incomplete { expected: 1, got: 0 });
        }
        let view_distance = get_i8(buf);
        let chat_mode = match VarInt::read(buf) {
            Ok(v) => v.0,
            Err(e) => {
                return Err(PacketError::VarInt(e));
            },
        };
        if bytes_remaining(buf) < 2 {
            return Err(PacketError::Incomplete { expected: 2, got: bytes_remaining(buf) });
        }
        let ghost r2 = bytes_view(*buf);
        let chat_colors = bytes_get_u8(buf) != 0;
        let displayed_skin_parts = bytes_get_u8(buf);
        proof {
            assert(r2.skip(1).skip(1) =~= r2.skip(2));
        }
        let main_hand = match VarInt::read(buf) {
            Ok(v) => v.0,
            Err(e) => {
                return Err(PacketError::VarInt(e));
            },
        };
        if bytes_remaining(buf) < 2 {
            return Err(PacketError::Incomplete { expected: 2, got: bytes_remaining(buf) });
        }
        let ghost r3 = bytes_view(*buf);
        let enable_text_filtering = bytes_get_u8(buf) != 0;
        let allow_server_listings = bytes_get_u8(buf) != 0;
        proof {
            assert(r3.skip(1).skip(1) =~= r3.skip(2));
        }
        Ok(Self {
            locale,
            view_distance,
            chat_mode,
            chat_colors,
            displayed_skin_parts,
            main_hand,
            enable_text_filtering,
            allow_server_listings,
        })
    }
}

} // verus!
