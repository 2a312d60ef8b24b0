use bytes::{Buf, Bytes, BytesMut};
use rustmc::config::{ClientboundFinishConfiguration, ClientboundRegistryData, ClientboundSelectKnownPacks, ClientboundUpdateEnabledFeatures, KnownPack, RegistryEntry};
use rustmc::handshake::{read_string, write_string, Handshake};
use rustmc::login::{LoginDisconnect, LoginStart};
use rustmc::login_packet::{DeathLocation, LoginPacket};
use rustmc::packet::{encode_packet, frame_length_negative, try_read_frame, Packet, PacketError};
use rustmc::state::State;
use rustmc::varint::VarIntError;
use rustmc::status::{PingRequest, PongResponse, ServerStatus, StatusResponse};

#[test]
fn read_write_string_roundtrip() {
    let mut buf = BytesMut::new();
    write_string(&mut buf, "localhost");
    let mut bytes = buf.freeze();
    assert_eq!(bytes.remaining(), 10);
    let s = read_string(&mut bytes).unwrap();
    assert_eq!(s, "localhost");
    assert_eq!(bytes.remaining(), 0);
}

#[test]
fn handshake_roundtrip() {
    let original = Handshake {
        protocol_version: 776,
        server_address: "localhost".into(),
        server_port: 25565,
        next_state: State::Status,
    };
    let mut buf = BytesMut::new();
    original.write(&mut buf);
    let mut bytes = buf.freeze();
    let decoded = Handshake::read(&mut bytes).unwrap();
    assert_eq!(decoded.protocol_version, 776);
    assert_eq!(decoded.server_address, "localhost");
    assert_eq!(decoded.server_port, 25565);
    assert!(matches!(decoded.next_state, State::Status));
}

#[test]
fn handshake_known_bytes() {
    let raw: &[u8] = &[
        0x88, 0x06, 0x09, b'l', b'o', b'c', b'a', b'l', b'h', b'o', b's', b't', 0x63, 0xDD, 0x01,
    ];
    let mut bytes = Bytes::from_static(raw);
    let decoded = Handshake::read(&mut bytes).unwrap();
    assert_eq!(decoded.protocol_version, 776);
    assert_eq!(decoded.server_address, "localhost");
    assert_eq!(decoded.server_port, 25565);
    assert!(matches!(decoded.next_state, State::Status));
}

fn capture_login() -> LoginPacket {
    LoginPacket {
        entity_id: 1352,
        hardcore: false,
        dimensions: vec![
            "minecraft:overworld".to_string(),
            "minecraft:the_end".to_string(),
            "minecraft:the_nether".to_string(),
        ],
        max_players: 20,
        view_distance: 10,
        sim_distance: 10,
        reduced_debug_info: false,
        enable_respawn_screen: true,
        do_limited_crafting: false,
        dimension_type: String::new(),
        dimension_name: "minecraft:overworld".to_string(),
        seed: 9152277222534345964i64,
        game_type: 0,
        previous_game_type: 127,
        is_debug: false,
        is_flat: false,
        death_location: None,
        portal_cooldown: 63,
        sea_level: 0,
        envelope_follows: false,
    }
}

#[test]
fn test_parse_real_capture() {
    let pkt = capture_login();
    let generated = pkt.to_bytes();
    println!("Generated: {} bytes", generated.len());
    assert!(
        generated.len() >= 107 && generated.len() <= 110,
        "Generated packet size {} out of expected range",
        generated.len()
    );
    // the captured packet this was checked against is 109 bytes long
    assert_eq!(generated.len(), 109);
}

#[test]
fn test_default_login() {
    let pkt = LoginPacket::default();
    let bytes = pkt.to_bytes();
    println!("Default LoginPacket: {} bytes", bytes.len());
    assert!(bytes.len() > 100);
}

#[test]
fn login_packet_previous_game_type_two_byte_form() {
    let pkt = capture_login();
    let bytes = pkt.to_bytes();
    // entity id 1352 big-endian, then hardcore false, then 3 dimensions
    assert_eq!(&bytes[0..6], &[0x00, 0x00, 0x05, 0x48, 0x00, 0x03]);
    let mut other = capture_login();
    other.previous_game_type = -1;
    // -1 takes five VarInt bytes where 127 takes the two bytes ff 00
    assert_eq!(other.to_bytes().len(), bytes.len() + 3);
    let ff00 = bytes.windows(2).filter(|w| w == &[0xff, 0x00]).count();
    assert!(ff00 >= 1);
}

#[test]
fn login_packet_death_location() {
    let mut pkt = LoginPacket::default();
    let without = pkt.to_bytes().len();
    pkt.death_location = Some(DeathLocation { dimension: "minecraft:overworld".to_string(), position: 7 });
    let with = pkt.to_bytes();
    assert_eq!(with.len(), without + 20 + 8);
}

#[test]
fn frame_roundtrip() {
    let body = [1u8, 2, 3];
    let framed = encode_packet(0x42, &body);
    assert_eq!(&framed[..], &[0x04, 0x42, 1, 2, 3]);
    let mut buf = BytesMut::from(&framed[..]);
    buf.extend_from_slice(&[0x09]);
    assert!(!frame_length_negative(&buf));
    let frame = try_read_frame(&mut buf).unwrap().unwrap();
    assert_eq!(frame.id, 0x42);
    assert_eq!(&frame.data[..], &body);
    assert_eq!(&buf[..], &[0x09]);
    assert!(try_read_frame(&mut buf).unwrap().is_none());
}

#[test]
fn frame_length_negative_detected() {
    assert!(frame_length_negative(&[0xFF, 0xFF, 0xFF, 0xFF, 0x0F]));
    assert!(!frame_length_negative(&[0x05]));
    assert!(!frame_length_negative(&[]));
}

#[test]
fn packet_error_variants() {
    // a frame whose packet id is a malformed VarInt
    let mut buf = BytesMut::from(&[0x02u8, 0x80, 0x80][..]);
    assert!(matches!(try_read_frame(&mut buf), Err(PacketError::VarInt(_))));
    // a string that ends early
    let mut short = Bytes::from_static(&[0x05, b'a']);
    assert!(matches!(read_string(&mut short), Err(PacketError::Incomplete { expected: 5, got: 1 })));
    // invalid UTF-8
    let mut bad = Bytes::from_static(&[0x01, 0xff]);
    let err = read_string(&mut bad).unwrap_err();
    assert!(matches!(err, PacketError::Io(_)));
    assert!(err.message().starts_with("I/O error: "));
    assert!(err.message().len() > "I/O error: ".len());
    // a handshake that asks for state 5
    let mut hs = Bytes::from_static(&[0x01, 0x00, 0x00, 0x01, 0x05]);
    assert!(matches!(Handshake::read(&mut hs), Err(PacketError::InvalidPacketId { id: 5, .. })));
}

#[test]
fn state_numbers() {
    assert!(matches!(State::from_handshake_next_state(1), Some(State::Status)));
    assert!(matches!(State::from_handshake_next_state(2), Some(State::Login)));
    assert!(State::from_handshake_next_state(3).is_none());
    assert_eq!(State::Status.to_handshake_value(), 1);
    assert_eq!(State::Login.to_handshake_value(), 2);
    assert!(State::Status.is_valid_packet_id(1));
    assert!(!State::Status.is_valid_packet_id(2));
    assert!(State::Play.is_valid_packet_id(1000));
}

#[test]
fn login_start_roundtrip() {
    let ls = LoginStart { name: "Steve".to_string(), uuid: 0x0123_4567_89ab_cdef_0123_4567_89ab_cdef };
    let mut buf = BytesMut::new();
    ls.write(&mut buf);
    assert_eq!(buf.len(), 6 + 16);
    let mut bytes = buf.freeze();
    let back = LoginStart::read(&mut bytes).unwrap();
    assert_eq!(back.name, "Steve");
    assert_eq!(back.uuid, ls.uuid);
    let d = LoginDisconnect { reason: "bye".to_string() };
    let mut b2 = BytesMut::new();
    d.write(&mut b2);
    assert_eq!(&b2[..], &[3, b'b', b'y', b'e']);
}

#[test]
fn ping_pong_payload_roundtrip() {
    let ping = PingRequest { payload: -123456789 };
    let mut buf = BytesMut::new();
    ping.write(&mut buf);
    let mut bytes = buf.freeze();
    let back = PongResponse::read(&mut bytes).unwrap();
    assert_eq!(back.payload, -123456789);
    let mut short = Bytes::from_static(&[1, 2, 3]);
    assert!(matches!(PingRequest::read(&mut short), Err(PacketError::Incomplete { expected: 8, got: 3 })));
}

#[test]
fn status_response_and_new() {
    let st = ServerStatus::new(3, 20, "hello");
    assert_eq!(st.version.protocol, 776);
    assert_eq!(st.version.name, "RustMC 26.2");
    assert_eq!(st.players.as_ref().unwrap().max, 20);
    assert_eq!(st.players.as_ref().unwrap().online, 3);
    assert_eq!(st.description.text, "hello");
    let resp = StatusResponse { json: "{}".to_string() };
    let mut buf = BytesMut::new();
    resp.write(&mut buf);
    assert_eq!(&buf[..], &[2, b'{', b'}']);
}

#[test]
fn config_packets_roundtrip() {
    let feats = ClientboundUpdateEnabledFeatures { features: vec!["minecraft:vanilla".to_string()] };
    let mut buf = BytesMut::new();
    feats.write(&mut buf);
    let mut bytes = buf.freeze();
    let back = ClientboundUpdateEnabledFeatures::read(&mut bytes).unwrap();
    assert_eq!(back.features, vec!["minecraft:vanilla".to_string()]);

    let packs = ClientboundSelectKnownPacks {
        known_packs: vec![KnownPack { namespace: "minecraft".into(), id: "core".into(), version: "26.2".into() }],
    };
    let mut buf = BytesMut::new();
    packs.write(&mut buf);
    let mut bytes = buf.freeze();
    let back = ClientboundSelectKnownPacks::read(&mut bytes).unwrap();
    assert_eq!(back.known_packs.len(), 1);
    assert_eq!(back.known_packs[0].version, "26.2");

    let reg = ClientboundRegistryData {
        registry_key: "minecraft:dimension_type".into(),
        entries: vec![
            RegistryEntry { id: "minecraft:overworld".into(), data: None },
            RegistryEntry { id: "minecraft:the_end".into(), data: None },
        ],
    };
    let mut buf = BytesMut::new();
    reg.write(&mut buf);
    let mut bytes = buf.freeze();
    let back = ClientboundRegistryData::read(&mut bytes).unwrap();
    assert_eq!(back.registry_key, "minecraft:dimension_type");
    assert_eq!(back.entries.len(), 2);
    assert_eq!(back.entries[1].id, "minecraft:the_end");
    assert!(back.entries[1].data.is_none());

    let mut buf = BytesMut::new();
    ClientboundFinishConfiguration.write(&mut buf);
    assert!(buf.is_empty());
}

#[test]
fn packet_error_messages() {
    assert_eq!(PacketError::Incomplete { expected: 5, got: 2 }.message(), "incomplete frame: expected 5 bytes, got 2");
    assert_eq!(
        PacketError::InvalidPacketId { id: -3, state: State::Login }.message(),
        "packet ID -3 not valid for state Login"
    );
    assert_eq!(
        PacketError::InvalidPacketId { id: i32::MIN, state: State::Play }.message(),
        format!("packet ID {} not valid for state Play", i32::MIN)
    );
    assert_eq!(
        PacketError::Incomplete { expected: usize::MAX, got: 0 }.message(),
        format!("incomplete frame: expected {} bytes, got 0", usize::MAX)
    );
    assert_eq!(
        PacketError::InvalidPacketId { id: 9, state: State::Configuration }.message(),
        format!("packet ID 9 not valid for state {:?}", State::Configuration)
    );
    assert_eq!(
        PacketError::VarInt(VarIntError::TooLarge).message(),
        "VarInt decode failed: VarInt too large: exceeds 5 bytes (max i32)"
    );
    assert_eq!(
        PacketError::VarInt(VarIntError::Incomplete).message(),
        "VarInt decode failed: incomplete: expected at least 1 byte"
    );
}
