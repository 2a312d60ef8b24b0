//! Status-state packets (server list ping) and the status response document.
use vstd::prelude::*;
use bytes::{Bytes, BytesMut};
use crate::buffers::{
    be_bytes, be_value, bytes_mut_view, bytes_remaining, bytes_view, get_i64, put_i64, signed64,
    unsigned64,
};
use crate::handshake::{read_string, spec_read_string, spec_string_after, spec_string_bytes, write_string};
use crate::packet::{fault_of, Packet, PacketError, ReadFault};

verus! {

/// C→S: Status Request (0x00). Sent by the client to request the server status
/// JSON; it has no payload.
#[derive(Debug, Clone)]
pub struct StatusRequest;

impl Packet for StatusRequest {
    const ID: i32 = 0x00;

    fn write(&self, buf: &mut BytesMut)
        ensures
            bytes_mut_view(*final(buf)) == bytes_mut_view(*old(buf)),
    {
    }

    fn read(buf: &mut Bytes) -> (r: Result<Self, PacketError>)
        ensures
            r is Ok,
            bytes_view(*final(buf)) == bytes_view(*old(buf)),
    {
        Ok(Self)
    }
}

/// S→C: Status Response (0x00): a JSON string describing the server.
#[derive(Debug, Clone)]
pub struct StatusResponse {
    pub json: String,
}

impl Packet for StatusResponse {
    const ID: i32 = 0x00;

    fn write(&self, buf: &mut BytesMut)
        ensures
            bytes_mut_view(*final(buf)) == bytes_mut_view(*old(buf)) + spec_string_bytes(self.json@),
    {
        write_string(buf, self.json.as_str());
    }

    fn read(buf: &mut Bytes) -> (r: Result<Self, PacketError>)
        ensures
            bytes_view(*final(buf)) == spec_string_after(bytes_view(*old(buf))),
            match spec_read_string(bytes_view(*old(buf))) {
                Ok((chars, _)) => r matches Ok(p) && p.json@ == chars,
                Err(f) => r matches Err(e) && fault_of(e) == f,
            },
    {
        let json = read_string(buf)?;
        Ok(Self { json })
    }
}

/// Reading an 8-byte big-endian signed payload.
pub open spec fn spec_read_i64(s: Seq<u8>) -> Result<(int, Seq<u8>), ReadFault> {
    if s.len() < 8 {
        Err(ReadFault::Incomplete { expected: 8, got: s.len() as usize })
    } else {
        Ok((signed64(be_value(s.take(8))), s.skip(8)))
    }
}

/// Reads the i64 payload of a ping or pong.
fn read_payload(buf: &mut Bytes) -> (r: Result<i64, PacketError>)
    ensures
        match spec_read_i64(bytes_view(*old(buf))) {
            Ok((v, rest)) => r == Ok::<i64, PacketError>(v as i64) && bytes_view(*final(buf)) == rest,
            Err(f) => r matches Err(e) && fault_of(e) == f && bytes_view(*final(buf)) == bytes_view(
                *old(buf),
            ),
        },
{
    let remaining = bytes_remaining(buf);
    if remaining < 8 {
        return Err(PacketError::Incomplete { expected: 8, got: remaining });
    }
    Ok(get_i64(buf))
}

/// C→S: Ping Request (0x01). The client sends a number; the server must echo it back.
#[derive(Debug, Clone)]
pub struct PingRequest {
    pub payload: i64,
}

impl Packet for PingRequest {
    const ID: i32 = 0x01;

    fn write(&self, buf: &mut BytesMut)
        ensures
            bytes_mut_view(*final(buf)) == bytes_mut_view(*old(buf)) + be_bytes(
                unsigned64(self.payload as int),
                8,
            ),
    {
        put_i64(buf, self.payload);
    }

    fn read(buf: &mut Bytes) -> (r: Result<Self, PacketError>)
        ensures
            match spec_read_i64(bytes_view(*old(buf))) {
                Ok((v, rest)) => r matches Ok(p) && p.payload == v && bytes_view(*final(buf)) == rest,
                Err(f) => r matches Err(e) && fault_of(e) == f,
            },
    {
        let payload = read_payload(buf)?;
        Ok(Self { payload })
    }
}

/// S→C: Pong Response (0x01). The server echoes the ping payload back.
#[derive(Debug, Clone)]
pub struct PongResponse {
    pub payload: i64,
}

impl Packet for PongResponse {
    const ID: i32 = 0x01;

    fn write(&self, buf: &mut BytesMut)
        ensures
            bytes_mut_view(*final(buf)) == bytes_mut_view(*old(buf)) + be_bytes(
                unsigned64(self.payload as int),
                8,
            ),
    {
        put_i64(buf, self.payload);
    }

    fn read(buf: &mut Bytes) -> (r: Result<Self, PacketError>)
        ensures
            match spec_read_i64(bytes_view(*old(buf))) {
                Ok((v, rest)) => r matches Ok(p) && p.payload == v && bytes_view(*final(buf)) == rest,
                Err(f) => r matches Err(e) && fault_of(e) == f,
            },
    {
        let payload = read_payload(buf)?;
        Ok(Self { payload })
    }
}

/// The payload of a ping reads back from its 8 bytes, followed by anything, as itself.
pub proof fn law_ping_payload_roundtrip(v: i64, rest: Seq<u8>)
    ensures
        spec_read_i64(be_bytes(unsigned64(v as int), 8) + rest) == Ok::<(int, Seq<u8>), ReadFault>(
            (v as int, rest),
        ),
{
    let b = be_bytes(unsigned64(v as int), 8);
    crate::buffers::lemma_be_bytes_len(unsigned64(v as int), 8);
    crate::buffers::lemma_be_value_of_bytes(unsigned64(v as int), 8);
    assert(crate::buffers::pow256(8) == 0x1_0000_0000_0000_0000) by {
        reveal_with_fuel(crate::buffers::pow256, 9);
    }
    assert((b + rest).take(8) =~= b);
    assert((b + rest).skip(8) =~= rest);
    crate::buffers::lemma_signed64_unsigned64(v as int);
}

// ── Server List Ping response document ───────────────────────

/// The document Minecraft clients expect in a Status Response.
#[derive(Debug, Clone)]
pub struct ServerStatus {
    pub version: VersionInfo,
    pub players: Option<PlayersInfo>,
    pub description: Description,
    pub favicon: Option<String>,
    pub enforces_secure_chat: Option<bool>,
}

#[derive(Debug, Clone)]
pub struct VersionInfo {
    pub name: String,
    pub protocol: i32,
}

#[derive(Debug, Clone)]
pub struct PlayersInfo {
    pub max: i32,
    pub online: i32,
    pub sample: Option<Vec<PlayerSample>>,
}

#[derive(Debug, Clone)]
pub struct PlayerSample {
    pub name: String,
    pub id: String,
}

#[derive(Debug, Clone)]
pub struct Description {
    pub text: String,
}

impl ServerStatus {
    /// Build a status response for our RustMC server.
    pub fn new(online: i32, max: i32, motd: &str) -> (r: Self)
        ensures
            r.version.name@ == "RustMC 26.2"@,
            r.version.protocol == 776,
            r.players matches Some(p) && p.max == max && p.online == online && p.sample is None,
            r.description.text@ == motd@,
            r.favicon is None,
            r.enforces_secure_chat == Some(false),
    {
        Self {
            version: VersionInfo { name: "RustMC 26.2".to_string(), protocol: 776 },
            players: Some(PlayersInfo { max, online, sample: None }),
            description: Description { text: motd.to_string() },
            favicon: None,
            enforces_secure_chat: Some(false),
        }
    }
}

} // verus!
