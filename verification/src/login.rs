//! Login state packets: Login Start (C→S 0x00) and Disconnect (S→C 0x00).
use vstd::prelude::*;
use bytes::{Bytes, BytesMut};
use crate::buffers::{be_bytes, be_value, bytes_mut_view, bytes_remaining, bytes_view, get_u128, put_u128};
use crate::handshake::{read_string, spec_read_string, spec_string_after, spec_string_bytes, write_string};
use crate::packet::{fault_of, Packet, PacketError, ReadFault};

verus! {

/// C→S 0x00: Login Start.
///
/// Client sends its username and (since 1.20.5) its player UUID, held here as
/// the UUID's 128 bits.
#[derive(Debug, Clone)]
pub struct LoginStart {
    pub name: String,
    pub uuid: u128,
}

/// Reading a Login Start body: name, UUID bits, and what follows.
pub open spec fn spec_read_login_start(s: Seq<u8>) -> Result<(Seq<char>, nat, Seq<u8>), ReadFault> {
    match spec_read_string(s) {
        Err(f) => Err(f),
        Ok((name, rest)) => if rest.len() < 16 {
            Err(ReadFault::Incomplete { expected: 16, got: rest.len() as usize })
        } else {
            Ok((name, be_value(rest.take(16)), rest.skip(16)))
        },
    }
}

impl Packet for LoginStart {
    const ID: i32 = 0x00;

    fn write(&self, buf: &mut BytesMut)
        ensures
            bytes_mut_view(*final(buf)) == bytes_mut_view(*old(buf)) + spec_string_bytes(self.name@)
                + be_bytes(self.uuid as nat, 16),
    {
        write_string(buf, self.name.as_str());
        put_u128(buf, self.uuid);
    }

    fn read(buf: &mut Bytes) -> (r: Result<Self, PacketError>)
        ensures
            match spec_read_login_start(bytes_view(*old(buf))) {
                Ok((name, uuid, rest)) => r matches Ok(p) && p.name@ == name && p.uuid == uuid
                    && bytes_view(*final(buf)) == rest,
                Err(f) => r matches Err(e) && fault_of(e) == f,
            },
    {
        let name = read_string(buf)?;
        let remaining = bytes_remaining(buf);
        if remaining < 16 {
            return Err(PacketError::Incomplete { expected: 16, got: remaining });
        }
        let uuid = get_u128(buf);
        Ok(Self { name, uuid })
    }
}

/// A Login Start body reads back as written: for every name whose UTF-8
/// length fits in an `i32` and every 128-bit UUID, reading the bytes that
/// `write` produces, followed by anything, gives the same name, the same UUID
/// and leaves what followed.
pub proof fn law_login_start_roundtrip(name: Seq<char>, uuid: u128, rest: Seq<u8>)
    requires
        vstd::utf8::encode_utf8(name).len() <= i32::MAX,
    ensures
        spec_read_login_start(spec_string_bytes(name) + be_bytes(uuid as nat, 16) + rest) == Ok::<
            (Seq<char>, nat, Seq<u8>),
            ReadFault,
        >((name, uuid as nat, rest)),
{
    let u = be_bytes(uuid as nat, 16);
    crate::buffers::lemma_be_bytes_len(uuid as nat, 16);
    crate::buffers::lemma_be_value_of_bytes(uuid as nat, 16);
    assert(crate::buffers::pow256(16) == 0x1_0000_0000_0000_0000_0000_0000_0000_0000) by {
        reveal_with_fuel(crate::buffers::pow256, 17);
    }
    crate::handshake::law_string_roundtrip(name, u + rest);
    assert(spec_string_bytes(name) + u + rest =~= spec_string_bytes(name) + (u + rest));
    assert((u + rest).take(16) =~= u);
    assert((u + rest).skip(16) =~= rest);
}

/// S→C 0x00: Disconnect (during Login state). Sent by the server to kick the
/// client with a reason (a JSON text component).
#[derive(Debug, Clone)]
pub struct LoginDisconnect {
    pub reason: String,
}

impl Packet for LoginDisconnect {
    const ID: i32 = 0x00;

    fn write(&self, buf: &mut BytesMut)
        ensures
            bytes_mut_view(*final(buf)) == bytes_mut_view(*old(buf)) + spec_string_bytes(self.reason@),
    {
        write_string(buf, self.reason.as_str());
    }

    fn read(buf: &mut Bytes) -> (r: Result<Self, PacketError>)
        ensures
            bytes_view(*final(buf)) == spec_string_after(bytes_view(*old(buf))),
            match spec_read_string(bytes_view(*old(buf))) {
                Ok((chars, _)) => r matches Ok(p) && p.reason@ == chars,
                Err(f) => r matches Err(e) && fault_of(e) == f,
            },
    {
        let reason = read_string(buf)?;
        Ok(Self { reason })
    }
}

} // verus!
