//! Packet framing: `[length: VarInt][packet_id: VarInt][data: bytes...]`,
//! where length = encoded size of packet_id + data.len().
use vstd::prelude::*;
use bytes::{Bytes, BytesMut};
use crate::buffers::{
    bytes_mut_advance, bytes_mut_as_slice, bytes_mut_extend_from_slice, bytes_mut_freeze,
    bytes_mut_split_to, bytes_mut_view, bytes_mut_with_capacity, bytes_advance, bytes_view,
    bytes_as_slice, bytes_clone,
};
use crate::state::{state_name, State};
use crate::text::{decimal, int_text, io_error_text, push_str, string_of};
use crate::buffers::unsigned32;
use crate::varint::{
    decode_varint, lemma_groups_value_bound, lemma_varint_len_le,
    law_varint_roundtrip, scan_var, varint_error_text, varint_of, varint_bytes, groups_value, VarInt, VarIntError,
};

verus! {

/// Errors during packet encode/decode.
#[derive(Debug)]
pub enum PacketError {
    /// A VarInt in the packet could not be decoded.
    VarInt(VarIntError),
    /// The packet ended before a field.
    Incomplete { expected: usize, got: usize },
    /// A number that selects a state or packet was out of range.
    InvalidPacketId { id: i32, state: State },
    /// The packet held invalid data (text that is not UTF-8).
    Io(std::io::Error),
}

/// What a failed read reports, with the I/O error standing as `InvalidData`.
#[derive(Debug, Clone, Copy, PartialEq, Eq, Structural)]
pub enum ReadFault {
    VarInt(VarIntError),
    Incomplete { expected: usize, got: usize },
    InvalidPacketId { id: i32, state: State },
    InvalidData,
}

/// The fault that an error reports.
pub open spec fn fault_of(e: PacketError) -> ReadFault {
    match e {
        PacketError::VarInt(v) => ReadFault::VarInt(v),
        PacketError::Incomplete { expected, got } => ReadFault::Incomplete { expected, got },
        PacketError::InvalidPacketId { id, state } => ReadFault::InvalidPacketId { id, state },
        PacketError::Io(_) => ReadFault::InvalidData,
    }
}

/// The fault that an error reports.
pub fn fault_of_error(e: &PacketError) -> (r: ReadFault)
    ensures
        r == fault_of(*e),
{
    match e {
        PacketError::VarInt(v) => ReadFault::VarInt(*v),
        PacketError::Incomplete { expected, got } => ReadFault::Incomplete { expected: *expected, got: *got },
        PacketError::InvalidPacketId { id, state } => ReadFault::InvalidPacketId { id: *id, state: *state },
        PacketError::Io(_) => ReadFault::InvalidData,
    }
}

impl vstd::std_specs::convert::FromSpecImpl<VarIntError> for PacketError {
    open spec fn obeys_from_spec() -> bool {
        true
    }

    open spec fn from_spec(e: VarIntError) -> Self {
        PacketError::VarInt(e)
    }
}

impl From<VarIntError> for PacketError {
    fn from(e: VarIntError) -> (r: Self)
        ensures
            r == PacketError::VarInt(e),
    {
        PacketError::VarInt(e)
    }
}

impl PacketError {
    /// The message of this error.
    pub fn message(&self) -> (r: String)
        ensures
            match *self {
                PacketError::VarInt(e) => r@ == "VarInt decode failed: "@ + varint_error_text(e),
                PacketError::Incomplete { expected, got } => r@ == "incomplete frame: expected "@
                    + decimal(expected as int) + " bytes, got "@ + decimal(got as int),
                PacketError::InvalidPacketId { id, state } => r@ == "packet ID "@ + decimal(
                    id as int,
                ) + " not valid for state "@ + state_name(state),
                PacketError::Io(_) => "I/O error: "@.is_prefix_of(r@),
            },
    {
        match self {
            PacketError::VarInt(e) => {
                let mut s = string_of("VarInt decode failed: ");
                push_str(&mut s, e.message());
                s
            },
            PacketError::Incomplete { expected, got } => {
                let mut s = string_of("incomplete frame: expected ");
                push_str(&mut s, int_text(*expected as i128).as_str());
                push_str(&mut s, " bytes, got ");
                push_str(&mut s, int_text(*got as i128).as_str());
                s
            },
            PacketError::InvalidPacketId { id, state } => {
                let mut s = string_of("packet ID ");
                push_str(&mut s, int_text(*id as i128).as_str());
                push_str(&mut s, " not valid for state ");
                push_str(&mut s, state.name());
                s
            },
            PacketError::Io(e) => {
                let mut s = string_of("I/O error: ");
                let ghost head = s@;
                push_str(&mut s, io_error_text(e).as_str());
                proof {
                    assert(s@.subrange(0, head.len() as int) =~= head);
                }
                s
            },
        }
    }
}

/// A decoded packet: raw packet ID + data payload.
#[derive(Debug)]
pub struct PacketFrame {
    pub id: i32,
    pub data: Bytes,
}

impl Clone for PacketFrame {
    fn clone(&self) -> (r: Self)
        ensures
            r.id == self.id,
            bytes_view(r.data) == bytes_view(self.data),
    {
        PacketFrame { id: self.id, data: bytes_clone(&self.data) }
    }
}

/// Trait for types that can be encoded/decoded as Minecraft packets.
pub trait Packet: Sized {
    /// The packet ID for this type.
    const ID: i32;

    /// Write packet body (NOT including length prefix or packet ID) into buf.
    fn write(&self, buf: &mut BytesMut);

    /// Read packet body from buf (length prefix and packet ID already consumed).
    fn read(buf: &mut Bytes) -> Result<Self, PacketError>;
}

// ── Frame-level helpers ──────────────────────────────────────

/// What reading a frame from `s` does: `None` while the frame is not complete,
/// else the frame's packet ID and data, or the error that its packet ID gave.
pub enum FrameRead {
    NotYet,
    Frame { id: int, data_start: nat, end: nat },
    BadId { error: VarIntError, end: nat },
}

/// The frame at the front of `s`, as `try_read_frame` reads it.
pub open spec fn spec_frame(s: Seq<u8>) -> FrameRead {
    if s.len() == 0 {
        FrameRead::NotYet
    } else {
        match decode_varint(s) {
            Err(_) => FrameRead::NotYet,
            Ok((len, h)) => if s.len() < h + len {
                FrameRead::NotYet
            } else {
                let body = s.subrange(h as int, h + len);
                match decode_varint(body) {
                    Err(e) => FrameRead::BadId { error: e, end: (h + len) as nat },
                    Ok((id, _)) => FrameRead::Frame {
                        id,
                        data_start: h + varint_bytes(unsigned32(id)).len(),
                        end: (h + len) as nat,
                    },
                }
            },
        }
    }
}

/// The frame length at the front of `s` is not negative (the length that
/// `try_read_frame` cannot handle).
pub open spec fn frame_length_ok(s: Seq<u8>) -> bool {
    decode_varint(s) matches Ok((len, _)) ==> len >= 0
}

/// Whether `buf` starts with a negative frame length, on which the frame
/// readers would panic.
pub fn frame_length_negative(buf: &[u8]) -> (r: bool)
    ensures
        r == !frame_length_ok(buf@),
{
    match VarInt::from_bytes(buf) {
        Ok((len, _)) => len.0 < 0,
        Err(_) => false,
    }
}

/// Read a complete frame from a buffer.
///
/// Returns `None` if not enough data is available yet.
/// On success, returns the frame and consumes those bytes from `buf`.
pub fn try_read_frame(buf: &mut BytesMut) -> (r: Result<Option<PacketFrame>, PacketError>)
    requires
        frame_length_ok(bytes_mut_view(*old(buf))),
    ensures
        ({
            let s = bytes_mut_view(*old(buf));
            match spec_frame(s) {
                FrameRead::NotYet => r matches Ok(None) && bytes_mut_view(*final(buf)) == s,
                FrameRead::BadId { error, end } => r matches Err(PacketError::VarInt(e))
                    && e == error && bytes_mut_view(*final(buf)) == s.skip(end as int),
                FrameRead::Frame { id, data_start, end } => r matches Ok(Some(f)) && f.id == id
                    && bytes_view(f.data) == s.subrange(data_start as int, end as int)
                    && bytes_mut_view(*final(buf)) == s.skip(end as int),
            }
        }),
{
    let ghost s = bytes_mut_view(*buf);
    if bytes_mut_as_slice(buf).len() == 0 {
        return Ok(None);
    }
    let (length, len_bytes) = match VarInt::from_bytes(bytes_mut_as_slice(buf)) {
        Ok(x) => x,
        Err(_) => {
            return Ok(None);
        },
    };
    let length = length.0 as usize;
    let frame_start = len_bytes;
    proof {
        crate::varint::law_varint_decode_len(s);
    }
    if bytes_mut_as_slice(buf).len() < frame_start + length {
        return Ok(None);
    }
    bytes_mut_advance(buf, frame_start);
    let mut body = bytes_mut_freeze(bytes_mut_split_to(buf, length));
    proof {
        assert(s.skip(frame_start as int).take(length as int) =~= s.subrange(
            frame_start as int,
            frame_start + length,
        ));
        assert(s.skip(frame_start as int).skip(length as int) =~= s.skip(frame_start + length));
    }
    let ghost b = bytes_view(body);
    let (packet_id_varint, _) = match VarInt::from_bytes(bytes_as_slice(&body)) {
        Ok(x) => x,
        Err(e) => {
            return Err(PacketError::VarInt(e));
        },
    };
    let packet_id = packet_id_varint.0;
    let id_bytes = packet_id_varint.encoded_len();
    proof {
        lemma_id_len_fits(b, packet_id);
        assert(b.skip(id_bytes as int) =~= s.subrange(frame_start + id_bytes, frame_start + length));
    }
    bytes_advance(&mut body, id_bytes);
    Ok(Some(PacketFrame { id: packet_id, data: body }))
}

/// The canonical length of a decoded VarInt is at most the bytes it took.
pub proof fn lemma_id_len_fits(b: Seq<u8>, x: i32)
    requires
        decode_varint(b) is Ok,
        decode_varint(b)->Ok_0.0 == x,
    ensures
        varint_of(x).len() <= decode_varint(b)->Ok_0.1,
        decode_varint(b)->Ok_0.1 <= b.len(),
{
    let n = scan_var(b, 5)->Ok_0;
    let g = groups_value(b, n);
    crate::varint::law_varint_decode_len(b);
    lemma_groups_value_bound(b, n);
    let u = g % 0x1_0000_0000;
    assert(crate::buffers::unsigned32(crate::buffers::signed32(g)) == u);
    assert(u <= g);
    lemma_varint_len_le(u, n);
}

/// The bytes of a framed packet: length, packet ID, body.
pub open spec fn spec_encoded_packet(id: i32, body: Seq<u8>) -> Seq<u8> {
    varint_of((varint_of(id).len() + body.len()) as i32) + varint_of(id) + body
}

/// Encode a packet into a framed buffer ready for the socket.
///
/// Format: `[total_length: VarInt][packet_id: VarInt][body...]`
pub fn encode_packet(id: i32, body: &[u8]) -> (r: BytesMut)
    requires
        body@.len() <= usize::MAX - 5,
    ensures
        bytes_mut_view(r) == spec_encoded_packet(id, body@),
{
    let id_varint = VarInt(id);
    let id_len = id_varint.encoded_len();
    let total_len = id_len + body.len();
    let len_varint = VarInt(total_len as i32);

    let mut buf = bytes_mut_with_capacity(len_varint.encoded_len());
    len_varint.write(&mut buf);
    id_varint.write(&mut buf);
    bytes_mut_extend_from_slice(&mut buf, body);
    proof {
        assert(Seq::<u8>::empty() + varint_of(total_len as i32) =~= varint_of(total_len as i32));
    }
    buf
}

/// Reading back a framed packet, followed by anything, gives its packet ID and
/// body and leaves exactly what followed, when the frame length fits in an `i32`.
pub proof fn law_frame_roundtrip(id: i32, body: Seq<u8>, rest: Seq<u8>)
    requires
        varint_of(id).len() + body.len() <= i32::MAX,
    ensures
        ({
            let enc = spec_encoded_packet(id, body);
            let s = enc + rest;
            &&& frame_length_ok(s)
            &&& spec_frame(s) == FrameRead::Frame {
                id: id as int,
                data_start: (enc.len() - body.len()) as nat,
                end: enc.len(),
            }
            &&& s.subrange(enc.len() - body.len(), enc.len() as int) == body
            &&& s.skip(enc.len() as int) == rest
        }),
{
    let total = varint_of(id).len() + body.len();
    let lv = varint_of(total as i32);
    let iv = varint_of(id);
    let enc = spec_encoded_packet(id, body);
    let s = enc + rest;
    law_varint_roundtrip(total as i32, iv + body + rest);
    assert(s =~= lv + (iv + body + rest));
    let h = lv.len();
    assert(s.subrange(h as int, (h + total) as int) =~= iv + body);
    law_varint_roundtrip(id, body);
    assert(s.subrange(enc.len() - body.len(), enc.len() as int) =~= body);
    assert(s.skip(enc.len() as int) =~= rest);
}

} // verus!
