//! The Handshake packet and the protocol's length-prefixed strings.
use vstd::prelude::*;
use bytes::{Bytes, BytesMut};
use vstd::utf8::{decode_utf8, encode_utf8, valid_utf8};
use vstd::string::StringSliceAdditionalSpecFns;
use crate::buffers::{
    be_bytes, be_value, bytes_as_slice, bytes_mut_extend_from_slice, bytes_mut_view,
    bytes_remaining, bytes_split_to, bytes_view, get_u16, lemma_be_bytes_len, lemma_be_value_of_bytes,
    put_u16, pow256,
};
use crate::packet::{fault_of, Packet, PacketError, ReadFault};
use crate::state::{spec_handshake_value, spec_state_from_next, State};
use crate::text::{invalid_data_error, string_from_utf8};
use crate::varint::{consumed, decode_varint, law_varint_roundtrip, scan_var, varint_of, VarInt};

verus! {

// ── Field readers as specifications ──────────────────────────

/// Reading a VarInt field: its value and what follows it.
pub open spec fn spec_read_varint(s: Seq<u8>) -> Result<(int, Seq<u8>), ReadFault> {
    match decode_varint(s) {
        Ok((v, n)) => Ok((v, s.skip(n as int))),
        Err(e) => Err(ReadFault::VarInt(e)),
    }
}

/// Reading a string field: a VarInt byte length, then that many bytes of UTF-8.
pub open spec fn spec_read_string(s: Seq<u8>) -> Result<(Seq<char>, Seq<u8>), ReadFault> {
    match spec_read_varint(s) {
        Err(f) => Err(f),
        Ok((l, rest)) => {
            let len = l as usize;
            if rest.len() < len {
                Err(ReadFault::Incomplete { expected: len, got: rest.len() as usize })
            } else if valid_utf8(rest.take(len as int)) {
                Ok((decode_utf8(rest.take(len as int)), rest.skip(len as int)))
            } else {
                Err(ReadFault::InvalidData)
            }
        },
    }
}

/// What is left of `s` after `read_string`, whether it succeeded or not.
pub open spec fn spec_string_after(s: Seq<u8>) -> Seq<u8> {
    match decode_varint(s) {
        Err(_) => s.skip(consumed(s, scan_var(s, 5), 5) as int),
        Ok((l, n)) => {
            let rest = s.skip(n as int);
            let len = l as usize;
            if rest.len() < len {
                rest
            } else {
                rest.skip(len as int)
            }
        },
    }
}

/// The bytes of a string field holding `chars`.
pub open spec fn spec_string_bytes(chars: Seq<char>) -> Seq<u8> {
    varint_of(encode_utf8(chars).len() as i32) + encode_utf8(chars)
}

/// Read a Minecraft string (length-prefixed with VarInt, UTF-8).
pub fn read_string(buf: &mut Bytes) -> (r: Result<String, PacketError>)
    ensures
        bytes_view(*final(buf)) == spec_string_after(bytes_view(*old(buf))),
        match spec_read_string(bytes_view(*old(buf))) {
            Ok((chars, rest)) => r matches Ok(st) && st@ == chars && bytes_view(*final(buf)) == rest,
            Err(f) => r matches Err(e) && fault_of(e) == f,
        },
{
    let ghost s = bytes_view(*buf);
    let len = match VarInt::read(buf) {
        Ok(v) => v,
        Err(e) => {
            return Err(PacketError::VarInt(e));
        },
    };
    proof {
        crate::varint::law_varint_decode_len(s);
    }
    let len = len.0 as usize;
    let remaining = bytes_remaining(buf);
    if remaining < len {
        return Err(PacketError::Incomplete { expected: len, got: remaining });
    }
    let bytes = bytes_split_to(buf, len);
    let v = vstd::slice::slice_to_vec(bytes_as_slice(&bytes));
    match string_from_utf8(v) {
        Ok(st) => Ok(st),
        Err(e) => Err(PacketError::Io(invalid_data_error(e))),
    }
}

/// Write a Minecraft string (length-prefixed with VarInt, UTF-8).
pub fn write_string(buf: &mut BytesMut, s: &str)
    ensures
        bytes_mut_view(*final(buf)) == bytes_mut_view(*old(buf)) + spec_string_bytes(s@),
{
    let bytes = s.as_bytes();
    VarInt(bytes.len() as i32).write(buf);
    bytes_mut_extend_from_slice(buf, bytes);
    proof {
        let a = bytes_mut_view(*old(buf));
        assert(a + varint_of(bytes@.len() as i32) + bytes@ =~= a + spec_string_bytes(s@));
    }
}

/// A string field, followed by anything, reads back as the same characters and
/// leaves what followed, when its UTF-8 length fits in an `i32`.
pub proof fn law_string_roundtrip(chars: Seq<char>, rest: Seq<u8>)
    requires
        encode_utf8(chars).len() <= i32::MAX,
    ensures
        spec_read_string(spec_string_bytes(chars) + rest) == Ok::<(Seq<char>, Seq<u8>), ReadFault>(
            (chars, rest),
        ),
{
    let e = encode_utf8(chars);
    let l = e.len() as i32;
    let s = spec_string_bytes(chars) + rest;
    law_varint_roundtrip(l, e + rest);
    assert(s =~= varint_of(l) + (e + rest));
    let after = s.skip(varint_of(l).len() as int);
    assert(after =~= e + rest);
    assert(after.take(e.len() as int) =~= e);
    assert(after.skip(e.len() as int) =~= rest);
    vstd::utf8::encode_utf8_valid_utf8(chars);
    vstd::utf8::encode_utf8_decode_utf8(chars);
}

// ── Handshake ────────────────────────────────────────────────

/// C→S: Handshake (packet ID 0x00 in Handshake state).
///
/// This is the first packet sent by the client. It tells the server
/// which protocol version the client speaks, which host it wants to
/// connect to, which port, and what the next state should be.
#[derive(Debug, Clone)]
pub struct Handshake {
    pub protocol_version: i32,
    pub server_address: String,
    pub server_port: u16,
    pub next_state: State,
}

/// The bytes of a Handshake body.
pub open spec fn spec_handshake_bytes(proto: i32, addr: Seq<char>, port: u16, next: State) -> Seq<u8> {
    varint_of(proto) + spec_string_bytes(addr) + be_bytes(port as nat, 2) + varint_of(
        spec_handshake_value(next),
    )
}

/// Reading a Handshake body: protocol version, address, port, next state, and what follows.
pub open spec fn spec_read_handshake(s: Seq<u8>) -> Result<(int, Seq<char>, nat, State, Seq<u8>), ReadFault> {
    match spec_read_varint(s) {
        Err(f) => Err(f),
        Ok((proto, s1)) => match spec_read_string(s1) {
            Err(f) => Err(f),
            Ok((addr, s2)) => if s2.len() < 2 {
                Err(ReadFault::Incomplete { expected: 2, got: s2.len() as usize })
            } else {
                match spec_read_varint(s2.skip(2)) {
                    Err(f) => Err(f),
                    Ok((next, s4)) => match spec_state_from_next(next) {
                        None => Err(
                            ReadFault::InvalidPacketId { id: next as i32, state: State::Handshake },
                        ),
                        Some(st) => Ok((proto, addr, be_value(s2.take(2)), st, s4)),
                    },
                }
            },
        },
    }
}

impl Packet for Handshake {
    const ID: i32 = 0x00;

    fn write(&self, buf: &mut BytesMut)
        ensures
            bytes_mut_view(*final(buf)) == bytes_mut_view(*old(buf)) + spec_handshake_bytes(
                self.protocol_version,
                self.server_address@,
                self.server_port,
                self.next_state,
            ),
    {
        let ghost a = bytes_mut_view(*buf);
        VarInt(self.protocol_version).write(buf);
        write_string(buf, self.server_address.as_str());
        put_u16(buf, self.server_port);
        VarInt(self.next_state.to_handshake_value()).write(buf);
        proof {
            assert(bytes_mut_view(*buf) =~= a + spec_handshake_bytes(
                self.protocol_version,
                self.server_address@,
                self.server_port,
                self.next_state,
            ));
        }
    }

    fn read(buf: &mut Bytes) -> (r: Result<Self, PacketError>)
        ensures
            match spec_read_handshake(bytes_view(*old(buf))) {
                Ok((proto, addr, port, st, rest)) => r matches Ok(h) && h.protocol_version == proto
                    && h.server_address@ == addr && h.server_port == port && h.next_state == st
                    && bytes_view(*final(buf)) == rest,
                Err(f) => r matches Err(e) && fault_of(e) == f,
            },
    {
        let ghost s = bytes_view(*buf);
        let proto_ver = match VarInt::read(buf) {
            Ok(v) => v,
            Err(e) => {
                return Err(PacketError::VarInt(e));
            },
        };
        let addr = read_string(buf)?;
        if bytes_remaining(buf) < 2 {
            return Err(PacketError::Incomplete { expected: 2, got: bytes_remaining(buf) });
        }
        let port = get_u16(buf);
        let next_state_val = match VarInt::read(buf) {
            Ok(v) => v,
            Err(e) => {
                return Err(PacketError::VarInt(e));
            },
        };
        let next_state = match State::from_handshake_next_state(next_state_val.0) {
            Some(st) => st,
            None => {
                return Err(
                    PacketError::InvalidPacketId { id: next_state_val.0, state: State::Handshake },
                );
            },
        };
        Ok(Self { protocol_version: proto_ver.0, server_address: addr, server_port: port, next_state })
    }
}

/// A Handshake that selects Status or Login, with an address whose UTF-8 length
/// fits in an `i32`, reads back from its bytes, followed by anything, as itself.
pub proof fn law_handshake_roundtrip(proto: i32, addr: Seq<char>, port: u16, next: State, rest: Seq<u8>)
    requires
        encode_utf8(addr).len() <= i32::MAX,
        next == State::Status || next == State::Login,
    ensures
        spec_read_handshake(spec_handshake_bytes(proto, addr, port, next) + rest) == Ok::<
            (int, Seq<char>, nat, State, Seq<u8>),
            ReadFault,
        >((proto as int, addr, port as nat, next, rest)),
{
    let pb = be_bytes(port as nat, 2);
    let nv = varint_of(spec_handshake_value(next));
    let sb = spec_string_bytes(addr);
    let s = spec_handshake_bytes(proto, addr, port, next) + rest;
    law_varint_roundtrip(proto, sb + pb + nv + rest);
    assert(s =~= varint_of(proto) + (sb + pb + nv + rest));
    let s1 = s.skip(varint_of(proto).len() as int);
    assert(s1 =~= sb + (pb + nv + rest));
    law_string_roundtrip(addr, pb + nv + rest);
    let s2 = pb + nv + rest;
    lemma_be_bytes_len(port as nat, 2);
    assert(s2.take(2) =~= pb);
    assert(s2.skip(2) =~= nv + rest);
    lemma_be_value_of_bytes(port as nat, 2);
    assert(pow256(2) == 65536) by {
        reveal_with_fuel(pow256, 3);
    }
    law_varint_roundtrip(spec_handshake_value(next), rest);
    assert((nv + rest).skip(nv.len() as int) =~= rest);
    assert(spec_read_varint(s) == Ok::<(int, Seq<u8>), ReadFault>((proto as int, s1)));
    assert(spec_read_string(s1) == Ok::<(Seq<char>, Seq<u8>), ReadFault>((addr, s2)));
    assert(be_value(s2.take(2)) == port as nat);
    assert(spec_read_varint(s2.skip(2)) == Ok::<(int, Seq<u8>), ReadFault>((spec_handshake_value(next) as int, rest)));
    assert(spec_state_from_next(spec_handshake_value(next) as int) == Some(next));
}

} // verus!
