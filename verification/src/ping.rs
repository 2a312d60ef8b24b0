//! The Server List Ping responder's decisions (Handshake → Status → Ping/Pong),
//! and the proxy's reading of the client's Handshake.
use vstd::prelude::*;
use crate::buffers::{bytes_advance, bytes_copy_from_slice, bytes_remaining, bytes_view};
use crate::handshake::{spec_read_handshake, Handshake};
use crate::login::{spec_read_login_start, LoginDisconnect, LoginStart};
use crate::packet::{fault_of, Packet, PacketError, PacketFrame};
use crate::state::State;
use crate::status::{spec_read_i64, PingRequest, StatusRequest};
use crate::varint::{consumed, decode_varint, scan_var, VarInt, VarIntError};

verus! {

/// What the ping responder sends in answer to a frame.
pub enum PingAction {
    /// Nothing to send.
    Nothing,
    /// Send the status response.
    SendStatus,
    /// Send a Pong with this payload.
    SendPong { payload: i64 },
    /// A client tried to log in: send the redirecting LoginDisconnect.
    SendDisconnect { name: String, uuid: u128 },
}

/// Why the ping responder closes a connection.
#[derive(Debug)]
pub enum PingError {
    /// The first frame was not a Handshake.
    ExpectedHandshake(i32),
    /// A frame of the Status state that is neither a request nor a ping.
    UnexpectedStatusPacket(i32),
    /// A frame of the Login state that is not Login Start.
    UnexpectedLoginPacket(i32),
    /// The Handshake asked for a state the responder does not serve.
    UnexpectedState(State),
    /// A packet could not be read.
    Packet(PacketError),
}

/// Handle one frame in state `state`. Returns what to send and whether to
/// stop handling the frames received so far (after a Pong or a disconnect).
pub fn ping_step(state: &mut State, frame: &PacketFrame) -> (r: Result<(PingAction, bool), PingError>)
    ensures
        match *old(state) {
            State::Handshake => if frame.id != 0 {
                r matches Err(PingError::ExpectedHandshake(id)) && id == frame.id && *final(state) == *old(state)
            } else {
                match spec_read_handshake(bytes_view(frame.data)) {
                    Ok((_, _, _, st, _)) => r matches Ok((PingAction::Nothing, false)) && *final(state) == st,
                    Err(f) => (r matches Err(PingError::Packet(e)) && fault_of(e) == f) && *final(state) == *old(state),
                }
            },
            State::Status => *final(state) == *old(state) && if frame.id == 0 {
                r matches Ok((PingAction::SendStatus, false))
            } else if frame.id == 1 {
                match spec_read_i64(bytes_view(frame.data)) {
                    Ok((v, _)) => r matches Ok((PingAction::SendPong { payload }, true)) && payload == v,
                    Err(f) => r matches Err(PingError::Packet(e)) && fault_of(e) == f,
                }
            } else {
                r matches Err(PingError::UnexpectedStatusPacket(id)) && id == frame.id
            },
            State::Login => *final(state) == *old(state) && if frame.id == 0 {
                match spec_read_login_start(bytes_view(frame.data)) {
                    Ok((name, uuid, _)) => r matches Ok((PingAction::SendDisconnect { name: n, uuid: u }, true))
                        && n@ == name && u == uuid,
                    Err(f) => r matches Err(PingError::Packet(e)) && fault_of(e) == f,
                }
            } else {
                r matches Err(PingError::UnexpectedLoginPacket(id)) && id == frame.id
            },
            _ => (r matches Err(PingError::UnexpectedState(s)) && s == *old(state)) && *final(state) == *old(state),
        },
{
    match *state {
        State::Handshake => {
            if frame.id != 0 {
                return Err(PingError::ExpectedHandshake(frame.id));
            }
            let mut data = crate::buffers::bytes_clone(&frame.data);
            match Handshake::read(&mut data) {
                Ok(hs) => {
                    *state = hs.next_state;
                    Ok((PingAction::Nothing, false))
                },
                Err(e) => Err(PingError::Packet(e)),
            }
        },
        State::Status => {
            if frame.id == 0 {
                let mut data = crate::buffers::bytes_clone(&frame.data);
                match StatusRequest::read(&mut data) {
                    Ok(_) => Ok((PingAction::SendStatus, false)),
                    Err(e) => Err(PingError::Packet(e)),
                }
            } else if frame.id == 1 {
                let mut data = crate::buffers::bytes_clone(&frame.data);
                match PingRequest::read(&mut data) {
                    Ok(ping) => Ok((PingAction::SendPong { payload: ping.payload }, true)),
                    Err(e) => Err(PingError::Packet(e)),
                }
            } else {
                Err(PingError::UnexpectedStatusPacket(frame.id))
            }
        },
        State::Login => {
            if frame.id == 0 {
                let mut data = crate::buffers::bytes_clone(&frame.data);
                match LoginStart::read(&mut data) {
                    Ok(ls) => Ok((PingAction::SendDisconnect { name: ls.name, uuid: ls.uuid }, true)),
                    Err(e) => Err(PingError::Packet(e)),
                }
            } else {
                Err(PingError::UnexpectedLoginPacket(frame.id))
            }
        },
        _ => Err(PingError::UnexpectedState(*state)),
    }
}

/// The disconnect the responder sends to a client that tries to log in.
pub fn redirect_disconnect() -> (r: LoginDisconnect)
    ensures
        r.reason@ == "{\"text\":\"§cThis is a ping server. Join the real server on port 25565!\",\"color\":\"red\"}"@,
{
    LoginDisconnect {
        reason: "{\"text\":\"§cThis is a ping server. Join the real server on port 25565!\",\"color\":\"red\"}".to_owned(),
    }
}

// ── The proxy's look at a Handshake ──────────────────────────

/// What is left after a VarInt read, whether it succeeded or not.
pub open spec fn after_varint(s: Seq<u8>) -> Seq<u8> {
    s.skip(consumed(s, scan_var(s, 5), 5) as int)
}

/// The next state a Handshake body asks for, skipping the address by its
/// length and the port: a VarInt error, or `None` where skipping runs past
/// the end (the reader panics there).
pub open spec fn spec_handshake_next_state(s: Seq<u8>) -> Option<Result<int, VarIntError>> {
    match decode_varint(s) {
        Err(e) => Some(Err(e)),
        Ok(_) => {
            let s1 = after_varint(s);
            match decode_varint(s1) {
                Err(e) => Some(Err(e)),
                Ok((len, _)) => {
                    let s2 = after_varint(s1);
                    let n = len as usize;
                    if s2.len() < n + 2 {
                        None
                    } else {
                        match decode_varint(s2.skip(n + 2)) {
                            Err(e) => Some(Err(e)),
                            Ok((next, _)) => Some(Ok(next)),
                        }
                    }
                },
            }
        },
    }
}

/// The next state a Handshake body asks for (see `spec_handshake_next_state`).
pub fn parse_handshake_next(data: &[u8]) -> (r: Option<Result<i32, VarIntError>>)
    ensures
        match spec_handshake_next_state(data@) {
            None => r is None,
            Some(Ok(v)) => r == Some(Ok::<i32, VarIntError>(v as i32)),
            Some(Err(e)) => r == Some(Err::<i32, VarIntError>(e)),
        },
{
    let mut cursor = bytes_copy_from_slice(data);
    match VarInt::read(&mut cursor) {
        Ok(_) => {},
        Err(e) => {
            return Some(Err(e));
        },
    }
    let addr_len = match VarInt::read(&mut cursor) {
        Ok(v) => v.0 as usize,
        Err(e) => {
            return Some(Err(e));
        },
    };
    let remaining = bytes_remaining(&cursor);
    if remaining < addr_len || remaining - addr_len < 2 {
        return None;
    }
    let ghost s2 = bytes_view(cursor);
    bytes_advance(&mut cursor, addr_len);
    bytes_advance(&mut cursor, 2);
    proof {
        assert(s2.skip(addr_len as int).skip(2) =~= s2.skip(addr_len + 2));
    }
    match VarInt::read(&mut cursor) {
        Ok(v) => Some(Ok(v.0)),
        Err(e) => Some(Err(e)),
    }
}

/// The proxy's view of the connection state: Handshake (0) until the client's
/// Handshake asks for Login (then 1).
pub const RELAY_HANDSHAKE: u8 = 0;
pub const RELAY_LOGIN: u8 = 1;

/// The proxy's state after the client's frame `pid` with body `data`: a
/// Handshake frame that asks for Login moves from Handshake to Login; `None`
/// where reading that Handshake panics.
pub fn relay_next_state(current: u8, pid: i32, data: &[u8]) -> (r: Option<u8>)
    ensures
        (current == RELAY_HANDSHAKE && pid == 0) ==> match spec_handshake_next_state(data@) {
            None => r is None,
            Some(Ok(v)) => r == Some(if v == 2 { RELAY_LOGIN } else { current }),
            Some(Err(_)) => r == Some(current),
        },
        !(current == RELAY_HANDSHAKE && pid == 0) ==> r == Some(current),
{
    if current == RELAY_HANDSHAKE && pid == 0x00 {
        match parse_handshake_next(data) {
            None => None,
            Some(Ok(next)) => {
                if next == 2 {
                    Some(RELAY_LOGIN)
                } else {
                    Some(current)
                }
            },
            Some(Err(_)) => Some(current),
        }
    } else {
        Some(current)
    }
}

} // verus!
