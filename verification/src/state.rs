//! Protocol state machine.
//!
//! Flow: `Handshake → Status` (for ping) or `Handshake → Login → Configuration → Play`.
use vstd::prelude::*;

verus! {

/// The state of a connection, which decides how packet IDs are read.
#[derive(Debug, Clone, Copy, PartialEq, Eq, Structural)]
pub enum State {
    Handshake,
    Status,
    Login,
    Configuration,
    Play,
}

/// The name of a state, as its `Debug` form writes it.
pub open spec fn state_name(s: State) -> Seq<char> {
    match s {
        State::Handshake => "Handshake"@,
        State::Status => "Status"@,
        State::Login => "Login"@,
        State::Configuration => "Configuration"@,
        State::Play => "Play"@,
    }
}

impl State {
    /// The name of this state, as its `Debug` form writes it.
    pub(crate) fn name(&self) -> (r: &'static str)
        ensures
            r@ == state_name(*self),
    {
        match self {
            State::Handshake => "Handshake",
            State::Status => "Status",
            State::Login => "Login",
            State::Configuration => "Configuration",
            State::Play => "Play",
        }
    }
}

/// The state that a Handshake's `next_state` number selects.
pub open spec fn spec_state_from_next(value: int) -> Option<State> {
    if value == 1 {
        Some(State::Status)
    } else if value == 2 {
        Some(State::Login)
    } else {
        None
    }
}

/// The `next_state` number that a Handshake writes for a state.
pub open spec fn spec_handshake_value(s: State) -> i32 {
    match s {
        State::Status => 1,
        State::Login => 2,
        _ => 0,
    }
}

/// The packet IDs that a state accepts.
pub open spec fn spec_valid_packet_id(s: State, id: i32) -> bool {
    match s {
        State::Handshake => id == 0,
        State::Status => 0 <= id <= 1,
        State::Login => 0 <= id <= 4,
        State::Configuration => 0 <= id <= 9,
        State::Play => true,
    }
}

impl State {
    /// Convert from the next_state number in the Handshake packet.
    pub fn from_handshake_next_state(value: i32) -> (r: Option<Self>)
        ensures
            r == spec_state_from_next(value as int),
    {
        match value {
            1 => Some(Self::Status),
            2 => Some(Self::Login),
            _ => None,
        }
    }

    /// The next_state number written for this state in a Handshake packet.
    pub fn to_handshake_value(self) -> (r: i32)
        ensures
            r == spec_handshake_value(self),
    {
        match self {
            State::Status => 1,
            State::Login => 2,
            _ => 0,
        }
    }

    /// Packet ID ranges are state-dependent.
    /// Returns true if `id` is a valid packet ID in this state.
    pub fn is_valid_packet_id(&self, id: i32) -> (r: bool)
        ensures
            r == spec_valid_packet_id(*self, id),
    {
        match self {
            Self::Handshake => id == 0x00,
            Self::Status => 0x00 <= id && id <= 0x01,
            Self::Login => 0x00 <= id && id <= 0x04,
            Self::Configuration => 0x00 <= id && id <= 0x09,
            Self::Play => true,
        }
    }
}

/// The states that a Handshake can select are exactly those it can write back:
/// reading the number that a state writes gives that state again.
pub proof fn law_handshake_state_roundtrip(s: State)
    ensures
        (s == State::Status || s == State::Login) <==> spec_state_from_next(
            spec_handshake_value(s) as int,
        ) == Some(s),
{
}

} // verus!
