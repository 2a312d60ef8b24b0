//! Frames with optional zlib compression, and the Configuration phase's
//! registry packets.
//!
//! Without compression a frame is `[length][packet_id][body]`. With compression
//! it is `[length][data_length][zlib(packet_id + body)]` when the packet is at
//! least 256 bytes long, else `[length][0][packet_id][body]`.
use vstd::prelude::*;
use bytes::{Bytes, BytesMut};
use crate::buffers::{
    bytes_advance, bytes_as_slice, bytes_copy_from_slice, bytes_from_vec, bytes_mut_advance,
    bytes_mut_as_slice, bytes_mut_extend_from_slice, bytes_mut_freeze, bytes_mut_new,
    bytes_mut_split_to, bytes_mut_view, bytes_mut_with_capacity, bytes_view, unsigned32,
};
use crate::compress::{zlib_compress, zlib_decompress, zlib_deflate, zlib_inflate};
use crate::config::{string_views};
use crate::handshake::{spec_string_bytes, write_string};
use crate::packet::frame_length_ok;
use crate::varint::{
    decode_varint, law_varint_decode_len, law_varint_roundtrip, varint_bytes, varint_of, VarInt,
};

verus! {

/// 26.2 Configuration phase packet IDs.
pub const PKT_FINISH_CONFIGURATION: i32 = 0x03;
pub const PKT_REGISTRY_DATA: i32 = 0x07;
pub const PKT_UPDATE_ENABLED_FEATURES: i32 = 0x0c;
pub const PKT_UPDATE_TAGS: i32 = 0x0d;
pub const PKT_SELECT_KNOWN_PACKS: i32 = 0x0e;
/// C→S Finish Configuration.
pub const PKT_SB_FINISH_CONFIGURATION: i32 = 0x03;

/// The bytes of a complete frame.
pub open spec fn spec_frame_packet(id: i32, body: Seq<u8>, compression: bool) -> Seq<u8> {
    let idb = varint_of(id);
    let total = idb.len() + body.len();
    if compression {
        if total >= 256 {
            let comp = zlib_deflate(idb + body);
            let dl = varint_of(total as i32);
            varint_of((dl.len() + comp.len()) as i32) + dl + comp
        } else {
            varint_of((1 + total) as i32) + varint_of(0) + idb + body
        }
    } else {
        varint_of(total as i32) + idb + body
    }
}

/// Encode a complete frame.
pub fn frame_packet(packet_id: i32, body: &[u8], compression: bool) -> (r: BytesMut)
    requires
        body@.len() <= usize::MAX - 16,
    ensures
        bytes_mut_view(r) == spec_frame_packet(packet_id, body@, compression),
        frame_fits(packet_id, body@, compression) ==> forall|rest: Seq<u8>|
            spec_frame_compressed(#[trigger] (bytes_mut_view(r) + rest), compression) == (
                Some((packet_id as int, body@)),
                bytes_mut_view(r).len(),
            ) && frame_length_ok(bytes_mut_view(r) + rest),
{
    let id_varint = VarInt(packet_id);
    let id_len = id_varint.encoded_len();
    let ghost idb = varint_of(packet_id);
    if compression {
        let total = id_len + body.len();
        if total >= 256 {
            let mut uncompressed = bytes_mut_with_capacity(total);
            id_varint.write(&mut uncompressed);
            bytes_mut_extend_from_slice(&mut uncompressed, body);
            proof {
                assert(Seq::<u8>::empty() + idb + body@ =~= idb + body@);
            }
            let compressed = zlib_compress(bytes_mut_as_slice(&uncompressed));
            let data_len_varint = VarInt(total as i32);
            let outer_len = data_len_varint.encoded_len() + compressed.len();
            let mut buf = bytes_mut_new();
            VarInt(outer_len as i32).write(&mut buf);
            data_len_varint.write(&mut buf);
            bytes_mut_extend_from_slice(&mut buf, compressed.as_slice());
            proof {
                assert(bytes_mut_view(buf) =~= spec_frame_packet(packet_id, body@, compression));
                if frame_fits(packet_id, body@, compression) {
                    assert forall|rest: Seq<u8>|
                        spec_frame_compressed(#[trigger] (bytes_mut_view(buf) + rest), compression) == (
                            Some((packet_id as int, body@)),
                            bytes_mut_view(buf).len(),
                        ) && frame_length_ok(bytes_mut_view(buf) + rest) by {
                        lemma_frame_roundtrip(packet_id, body@, rest, compression);
                    }
                }
            }
            buf
        } else {
            let data_len_varint = VarInt(0i32);
            let outer_len = data_len_varint.encoded_len() + id_len + body.len();
            let mut buf = bytes_mut_new();
            VarInt(outer_len as i32).write(&mut buf);
            data_len_varint.write(&mut buf);
            id_varint.write(&mut buf);
            bytes_mut_extend_from_slice(&mut buf, body);
            proof {
                assert(bytes_mut_view(buf) =~= spec_frame_packet(packet_id, body@, compression));
                if frame_fits(packet_id, body@, compression) {
                    assert forall|rest: Seq<u8>|
                        spec_frame_compressed(#[trigger] (bytes_mut_view(buf) + rest), compression) == (
                            Some((packet_id as int, body@)),
                            bytes_mut_view(buf).len(),
                        ) && frame_length_ok(bytes_mut_view(buf) + rest) by {
                        lemma_frame_roundtrip_small(packet_id, body@, rest);
                    }
                }
            }
            buf
        }
    } else {
        let outer_len = id_len + body.len();
        let mut buf = bytes_mut_new();
        VarInt(outer_len as i32).write(&mut buf);
        id_varint.write(&mut buf);
        bytes_mut_extend_from_slice(&mut buf, body);
        proof {
            assert(bytes_mut_view(buf) =~= spec_frame_packet(packet_id, body@, compression));
            if frame_fits(packet_id, body@, compression) {
                assert forall|rest: Seq<u8>|
                    spec_frame_compressed(#[trigger] (bytes_mut_view(buf) + rest), compression) == (
                        Some((packet_id as int, body@)),
                        bytes_mut_view(buf).len(),
                    ) && frame_length_ok(bytes_mut_view(buf) + rest) by {
                    lemma_frame_roundtrip_plain(packet_id, body@, rest);
                }
            }
        }
        buf
    }
}

/// The packet inside a frame's payload: its ID, and the body after the ID's
/// canonical length.
pub open spec fn spec_inner_packet(p: Seq<u8>) -> Option<(int, Seq<u8>)> {
    match decode_varint(p) {
        Err(_) => None,
        Ok((pid, _)) => Some((pid, p.skip(varint_bytes(unsigned32(pid)).len() as int))),
    }
}

/// A frame at the front of `s` as `try_read_frame_compressed` reads it: the
/// packet (if any) and how many bytes it takes from the buffer.
pub open spec fn spec_frame_compressed(s: Seq<u8>, compressed: bool) -> (Option<(int, Seq<u8>)>, nat) {
    if s.len() == 0 {
        (None, 0)
    } else {
        match decode_varint(s) {
            Err(_) => (None, 0),
            Ok((len, h)) => if s.len() < h + len {
                (None, 0)
            } else {
                let raw = s.subrange(h as int, h + len);
                let end = (h + len) as nat;
                if compressed {
                    (spec_compressed_payload(raw), end)
                } else {
                    (spec_inner_packet(raw), end)
                }
            },
        }
    }
}

/// Reads the packet ID of a payload and drops its canonical length.
fn inner_packet(body: Bytes) -> (r: Option<(i32, Bytes)>)
    ensures
        match spec_inner_packet(bytes_view(body)) {
            None => r is None,
            Some((pid, rest)) => r matches Some((x, b)) && x == pid && bytes_view(b) == rest,
        },
{
    let mut body = body;
    let ghost p = bytes_view(body);
    let (pid_varint, _) = match VarInt::from_bytes(bytes_as_slice(&body)) {
        Ok(x) => x,
        Err(_) => {
            return None;
        },
    };
    let pid = pid_varint.0;
    let n = pid_varint.encoded_len();
    proof {
        crate::packet::lemma_id_len_fits(p, pid);
    }
    bytes_advance(&mut body, n);
    Some((pid, body))
}

/// Read a complete frame from buffer, with optional compression support.
/// Returns (packet_id, body_bytes) or None if not enough data; a frame whose
/// payload cannot be read is taken from the buffer and gives None.
pub fn try_read_frame_compressed(buf: &mut BytesMut, compressed: bool) -> (r: Option<(i32, Bytes)>)
    requires
        frame_length_ok(bytes_mut_view(*old(buf))),
    ensures
        ({
            let s = bytes_mut_view(*old(buf));
            let (p, end) = spec_frame_compressed(s, compressed);
            &&& bytes_mut_view(*final(buf)) == s.skip(end as int)
            &&& match p {
                None => r is None,
                Some((pid, body)) => r matches Some((x, b)) && x == pid && bytes_view(b) == body,
            }
        }),
{
    let ghost s = bytes_mut_view(*buf);
    if bytes_mut_as_slice(buf).len() == 0 {
        return None;
    }
    let (length, len_bytes) = match VarInt::from_bytes(bytes_mut_as_slice(buf)) {
        Ok(x) => x,
        Err(_) => {
            return None;
        },
    };
    proof {
        law_varint_decode_len(s);
    }
    let length = length.0 as usize;
    if bytes_mut_as_slice(buf).len() < len_bytes + length {
        return None;
    }
    bytes_mut_advance(buf, len_bytes);
    let raw_body = bytes_mut_freeze(bytes_mut_split_to(buf, length));
    proof {
        assert(s.skip(len_bytes as int).take(length as int) =~= s.subrange(
            len_bytes as int,
            len_bytes + length,
        ));
        assert(s.skip(len_bytes as int).skip(length as int) =~= s.skip(len_bytes + length));
    }
    if compressed {
        compressed_payload(raw_body)
    } else {
        inner_packet(raw_body)
    }
}

/// The packet inside a compressed frame's payload.
pub open spec fn spec_compressed_payload(raw: Seq<u8>) -> Option<(int, Seq<u8>)> {
    match decode_varint(raw) {
        Err(_) => None,
        Ok((dl, n)) => {
            let inner = raw.skip(n as int);
            if dl == 0 {
                spec_inner_packet(inner)
            } else {
                match zlib_inflate(inner) {
                    None => None,
                    Some(p) => spec_inner_packet(p),
                }
            }
        },
    }
}

/// Reads the packet of a compressed frame's payload: a data length, then the
/// packet as it is (length 0) or deflated.
fn compressed_payload(raw_body: Bytes) -> (r: Option<(i32, Bytes)>)
    ensures
        match spec_compressed_payload(bytes_view(raw_body)) {
            None => r is None,
            Some((pid, body)) => r matches Some((x, b)) && x == pid && bytes_view(b) == body,
        },
{
    let ghost raw = bytes_view(raw_body);
    let (data_len, dl_bytes) = match VarInt::from_bytes(bytes_as_slice(&raw_body)) {
        Ok(x) => x,
        Err(_) => {
            return None;
        },
    };
    proof {
        law_varint_decode_len(raw);
    }
    let whole = bytes_as_slice(&raw_body);
    let inner = vstd::slice::slice_subrange(whole, dl_bytes, whole.len());
    proof {
        assert(inner@ =~= raw.skip(dl_bytes as int));
    }
    if data_len.0 == 0 {
        let body = bytes_copy_from_slice(inner);
        inner_packet(body)
    } else {
        let decompressed = match zlib_decompress(inner) {
            Ok(v) => v,
            Err(_) => {
                return None;
            },
        };
        let body = bytes_from_vec(decompressed);
        inner_packet(body)
    }
}

/// Whether the lengths of a frame fit in an `i32` (compressed frames also count
/// the deflated bytes).
pub open spec fn frame_fits(id: i32, body: Seq<u8>, compression: bool) -> bool {
    let total = varint_of(id).len() + body.len();
    &&& total + 1 <= i32::MAX
    &&& (!compression || total < 256 || varint_of(total as i32).len() + zlib_deflate(
        varint_of(id) + body,
    ).len() <= i32::MAX)
}

/// The frame of `(id, body)`, followed by anything, reads back as that packet and
/// takes exactly the frame's bytes, given that zlib inflates what it deflated.
proof fn lemma_frame_roundtrip(id: i32, body: Seq<u8>, rest: Seq<u8>, compression: bool)
    requires
        frame_fits(id, body, compression),
        zlib_inflate(zlib_deflate(varint_of(id) + body)) == Some(varint_of(id) + body),
    ensures
        ({
            let enc = spec_frame_packet(id, body, compression);
            &&& frame_length_ok(enc + rest)
            &&& spec_frame_compressed(enc + rest, compression) == (Some((id as int, body)), enc.len())
            &&& (enc + rest).skip(enc.len() as int) == rest
        }),
{
    let idb = varint_of(id);
    let total = idb.len() + body.len();
    let enc = spec_frame_packet(id, body, compression);
    let s = enc + rest;
    assert(s.skip(enc.len() as int) =~= rest);
    law_varint_roundtrip(id, body);
    assert((idb + body).skip(idb.len() as int) =~= body);
    if !compression {
        law_varint_roundtrip(total as i32, idb + body + rest);
        assert(s =~= varint_of(total as i32) + (idb + body + rest));
        let h = varint_of(total as i32).len();
        assert(s.subrange(h as int, (h + total) as int) =~= idb + body);
    } else if total < 256 {
        let z = varint_of(0);
        law_varint_roundtrip((1 + total) as i32, z + idb + body + rest);
        assert(s =~= varint_of((1 + total) as i32) + (z + idb + body + rest));
        let h = varint_of((1 + total) as i32).len();
        law_varint_roundtrip(0, idb + body);
        assert(s.subrange(h as int, (h + 1 + total) as int) =~= z + (idb + body));
        assert((z + (idb + body)).skip(z.len() as int) =~= idb + body);
    } else {
        let comp = zlib_deflate(idb + body);
        let dl = varint_of(total as i32);
        let outer = (dl.len() + comp.len()) as i32;
        law_varint_roundtrip(outer, dl + comp + rest);
        assert(s =~= varint_of(outer) + (dl + comp + rest));
        let h = varint_of(outer).len();
        assert(s.subrange(h as int, h + outer) =~= dl + comp);
        law_varint_roundtrip(total as i32, comp);
        assert((dl + comp).skip(dl.len() as int) =~= comp);
    }
}

proof fn lemma_frame_roundtrip_small(id: i32, body: Seq<u8>, rest: Seq<u8>)
    requires
        varint_of(id).len() + body.len() < 256,
    ensures
        ({
            let enc = spec_frame_packet(id, body, true);
            &&& frame_length_ok(enc + rest)
            &&& spec_frame_compressed(enc + rest, true) == (Some((id as int, body)), enc.len())
            &&& (enc + rest).skip(enc.len() as int) == rest
        }),
{
    let idb = varint_of(id);
    let total = idb.len() + body.len();
    let enc = spec_frame_packet(id, body, true);
    let s = enc + rest;
    assert(s.skip(enc.len() as int) =~= rest);
    law_varint_roundtrip(id, body);
    assert((idb + body).skip(idb.len() as int) =~= body);
    let z = varint_of(0);
    law_varint_roundtrip((1 + total) as i32, z + idb + body + rest);
    assert(s =~= varint_of((1 + total) as i32) + (z + idb + body + rest));
    let h = varint_of((1 + total) as i32).len();
    law_varint_roundtrip(0, idb + body);
    assert(s.subrange(h as int, (h + 1 + total) as int) =~= z + (idb + body));
    assert((z + (idb + body)).skip(z.len() as int) =~= idb + body);
}

/// An uncompressed frame, followed by anything, reads back as its packet ID and
/// body and takes exactly its own bytes, when its length fits in an `i32`.
pub proof fn law_plain_frame_roundtrip(id: i32, body: Seq<u8>, rest: Seq<u8>)
    requires
        varint_of(id).len() + body.len() + 1 <= i32::MAX,
    ensures
        ({
            let enc = spec_frame_packet(id, body, false);
            &&& frame_length_ok(enc + rest)
            &&& spec_frame_compressed(enc + rest, false) == (Some((id as int, body)), enc.len())
            &&& (enc + rest).skip(enc.len() as int) == rest
        }),
{
    lemma_frame_roundtrip_plain(id, body, rest);
}

proof fn lemma_frame_roundtrip_plain(id: i32, body: Seq<u8>, rest: Seq<u8>)
    requires
        varint_of(id).len() + body.len() + 1 <= i32::MAX,
    ensures
        ({
            let enc = spec_frame_packet(id, body, false);
            &&& frame_length_ok(enc + rest)
            &&& spec_frame_compressed(enc + rest, false) == (Some((id as int, body)), enc.len())
            &&& (enc + rest).skip(enc.len() as int) == rest
        }),
{
    let idb = varint_of(id);
    let total = idb.len() + body.len();
    let enc = spec_frame_packet(id, body, false);
    let s = enc + rest;
    assert(s.skip(enc.len() as int) =~= rest);
    law_varint_roundtrip(id, body);
    assert((idb + body).skip(idb.len() as int) =~= body);
    law_varint_roundtrip(total as i32, idb + body + rest);
    assert(s =~= varint_of(total as i32) + (idb + body + rest));
    let h = varint_of(total as i32).len();
    assert(s.subrange(h as int, (h + total) as int) =~= idb + body);
}

// ── Registry packets ─────────────────────────────────────────

/// The bytes of the Registry Data body for one registry: key, entry count, and
/// each entry ID followed by a zero "has data" byte.
pub open spec fn spec_registry_body(key: Seq<char>, entries: Seq<Seq<char>>) -> Seq<u8> {
    spec_string_bytes(key) + varint_of(entries.len() as i32) + spec_entries_without_data(entries)
}

/// Entry IDs, each followed by a zero byte.
pub open spec fn spec_entries_without_data(entries: Seq<Seq<char>>) -> Seq<u8>
    decreases entries.len(),
{
    if entries.len() == 0 {
        Seq::empty()
    } else {
        spec_entries_without_data(entries.drop_last()) + spec_string_bytes(entries.last()) + varint_of(0)
    }
}

/// Build all Registry Data packets for the Configuration phase, in the order of
/// a real 26.2 server: Features → KnownPacks → Registries → Tags → Finish.
pub fn build_registry_packets(registries: &Vec<(String, Vec<String>)>, update_tags: &[u8]) -> (r: Vec<(i32, BytesMut)>)
    ensures
        r@.len() == registries@.len() + 4,
        r@[0].0 == PKT_UPDATE_ENABLED_FEATURES,
        bytes_mut_view(r@[0].1) == varint_of(1) + spec_string_bytes("minecraft:vanilla"@),
        r@[1].0 == PKT_SELECT_KNOWN_PACKS,
        bytes_mut_view(r@[1].1) == varint_of(1) + spec_string_bytes("minecraft"@) + spec_string_bytes(
            "core"@,
        ) + spec_string_bytes("26.2"@),
        forall|i: int|
            0 <= i < registries@.len() ==> #[trigger] r@[i + 2].0 == PKT_REGISTRY_DATA && bytes_mut_view(
                r@[i + 2].1,
            ) == spec_registry_body(registries@[i].0@, string_views(registries@[i].1@)),
        r@[registries@.len() + 2int].0 == PKT_UPDATE_TAGS,
        bytes_mut_view(r@[registries@.len() + 2int].1) == update_tags@,
        r@[registries@.len() + 3int].0 == PKT_FINISH_CONFIGURATION,
        bytes_mut_view(r@[registries@.len() + 3int].1) == Seq::<u8>::empty(),
{
    let mut packets: Vec<(i32, BytesMut)> = Vec::new();

    let mut fb = bytes_mut_new();
    VarInt(1i32).write(&mut fb);
    write_string(&mut fb, "minecraft:vanilla");
    packets.push((PKT_UPDATE_ENABLED_FEATURES, fb));

    let mut pb = bytes_mut_new();
    VarInt(1i32).write(&mut pb);
    write_string(&mut pb, "minecraft");
    write_string(&mut pb, "core");
    write_string(&mut pb, "26.2");
    packets.push((PKT_SELECT_KNOWN_PACKS, pb));
    proof {
        assert(bytes_mut_view(packets@[0].1) =~= varint_of(1) + spec_string_bytes("minecraft:vanilla"@));
    }

    let mut i: usize = 0;
    while i < registries.len()
        invariant
            i <= registries@.len(),
            packets@.len() == i + 2,
            packets@[0].0 == PKT_UPDATE_ENABLED_FEATURES,
            bytes_mut_view(packets@[0].1) == varint_of(1) + spec_string_bytes("minecraft:vanilla"@),
            packets@[1].0 == PKT_SELECT_KNOWN_PACKS,
            bytes_mut_view(packets@[1].1) == varint_of(1) + spec_string_bytes("minecraft"@)
                + spec_string_bytes("core"@) + spec_string_bytes("26.2"@),
            forall|j: int|
                0 <= j < i ==> #[trigger] packets@[j + 2].0 == PKT_REGISTRY_DATA && bytes_mut_view(
                    packets@[j + 2].1,
                ) == spec_registry_body(registries@[j].0@, string_views(registries@[j].1@)),
        decreases registries@.len() - i,
    {
        let (key, entries) = &registries[i];
        let mut body = bytes_mut_new();
        write_string(&mut body, key.as_str());
        VarInt(entries.len() as i32).write(&mut body);
        let ghost mid = bytes_mut_view(body);
        let ghost es = string_views(entries@);
        let mut k: usize = 0;
        while k < entries.len()
            invariant
                k <= entries@.len(),
                es == string_views(entries@),
                bytes_mut_view(body) == mid + spec_entries_without_data(es.take(k as int)),
            decreases entries@.len() - k,
        {
            write_string(&mut body, entries[k].as_str());
            VarInt(0i32).write(&mut body);
            proof {
                assert(es.take(k + 1).drop_last() =~= es.take(k as int));
            }
            k = k + 1;
        }
        proof {
            assert(es.take(entries@.len() as int) =~= es);
            assert(Seq::<u8>::empty() + spec_string_bytes(key@) + varint_of(entries@.len() as i32)
                + spec_entries_without_data(es) =~= spec_registry_body(key@, es));
        }
        packets.push((PKT_REGISTRY_DATA, body));
        i = i + 1;
    }

    let ghost mid = packets@;
    let mut tb = bytes_mut_new();
    bytes_mut_extend_from_slice(&mut tb, update_tags);
    packets.push((PKT_UPDATE_TAGS, tb));
    packets.push((PKT_FINISH_CONFIGURATION, bytes_mut_new()));
    proof {
        assert(Seq::<u8>::empty() + update_tags@ =~= update_tags@);
        assert forall|i: int| 0 <= i < registries@.len() implies #[trigger] packets@[i + 2].0
            == PKT_REGISTRY_DATA && bytes_mut_view(packets@[i + 2].1) == spec_registry_body(
            registries@[i].0@,
            string_views(registries@[i].1@),
        ) by {
            assert(packets@[i + 2] == mid[i + 2]);
        }
    }
    packets
}

} // verus!
