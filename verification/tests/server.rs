use bytes::{Bytes, BytesMut};
use rustmc::handshake::write_string;
use rustmc::level_chunk::{
    block_state_to_item_drop, build_block_drop_map, chunk_sections_panic, get_drop_item_id, parse_chunk_sections, parse_template_block_palette,
    read_varint_from_slice, LevelChunk,
};
use rustmc::packet::{PacketError, PacketFrame};
use rustmc::ping::{parse_handshake_next, ping_step, redirect_disconnect, relay_next_state, PingAction, PingError};
use rustmc::play::{
    block_center_bits, brand_body, chunk_batch, decode_block_pos, tick_packets, encode_block_pos, handle_sb_packet, initial_packet, item_data_body, keep_alive_body,
    login_success_body, set_time_body, ticking_state_body, write_add_entity, ConnAction, ConnPhase, Connection,
    InitialPacket, PlayEvent, Pose, ServerError, ServerboundPlay,
};
use rustmc::server_state::{
    container_slot_body, internal_slot_of, take_item_body, window_slot_of, ItemEntity, ItemStack, PlayPacket,
    RustServer, ServerState,
};
use rustmc::state::State;
use rustmc::templates::{select_templates, template_name};
use rustmc::varint::VarInt;

#[test]
fn block_pos_roundtrip() {
    let p = encode_block_pos(0, -60, 0);
    assert_eq!(p, 4036);
    assert_eq!(decode_block_pos(p), (0, -60, 0));
    let p = encode_block_pos(-5, 70, 12);
    assert_eq!(decode_block_pos(p), (-5, 70, 12));
    let p = encode_block_pos(33554431, -2048, 67108863);
    assert_eq!(decode_block_pos(p), (33554431, -2048, 67108863));
}

#[test]
fn drop_items() {
    let m = build_block_drop_map();
    assert_eq!(m.len(), 16);
    assert_eq!(get_drop_item_id(-64), 85);
    assert_eq!(get_drop_item_id(-61), 55);
    assert_eq!(get_drop_item_id(-49), 55);
    assert_eq!(get_drop_item_id(100), 55);
    assert_eq!(block_state_to_item_drop(0), 0);
    assert_eq!(block_state_to_item_drop(9), 1);
    assert_eq!(block_state_to_item_drop(5000), 1);
}

#[test]
fn varint_from_slice() {
    assert_eq!(read_varint_from_slice(&[0xAC, 0x02, 9]).map(|(v, n)| (v.0, n)), Some((300, 2)));
    assert!(read_varint_from_slice(&[0x80]).is_none());
    assert!(read_varint_from_slice(&[0x80, 0x80, 0x80, 0x80, 0x80]).is_none());
}

fn template_with_sections() -> Vec<u8> {
    let mut t = vec![0u8; 905];
    // section -4: 4096 blocks, single value 9
    t.extend_from_slice(&[0x10, 0x00, 0x00, 0x09]);
    // section -3: 1 block, 4 bits, palette [0, 7], 1 long of data
    t.extend_from_slice(&[0x00, 0x01, 0x04, 0x02, 0x00, 0x07, 0x01]);
    t.extend_from_slice(&[0u8; 8]);
    // section -2: air only
    t.extend_from_slice(&[0x00, 0x00, 0x00, 0x00]);
    t
}

#[test]
fn chunk_sections_of_template() {
    let t = template_with_sections();
    let rows = parse_chunk_sections(&t).unwrap();
    assert_eq!(rows.len(), 32);
    assert_eq!(rows[0], (-64, vec![9]));
    assert_eq!(rows[15], (-49, vec![9]));
    assert_eq!(rows[16], (-48, vec![7]));
    let map = parse_template_block_palette(&t);
    assert_eq!(map.len(), 32);
    assert_eq!(map[&-50], vec![9]);
    assert!(parse_chunk_sections(&[0u8; 10]).is_none());
    assert!(parse_template_block_palette(&[0u8; 100]).is_empty());
}

#[test]
fn chunk_sections_scan_fallback() {
    // an implausible header at 905 makes the reader scan from 8
    let mut t = vec![0u8; 8];
    t.extend_from_slice(&[0x00, 0x05, 0x00, 0x03]);
    t.resize(905, 0);
    t.extend_from_slice(&[0xff, 0xff, 0xff, 0x00]);
    let rows = parse_chunk_sections(&t).unwrap();
    assert_eq!(rows[0], (-64, vec![3]));
}

#[test]
fn level_chunk_bytes() {
    let t: Vec<u8> = (0u8..20).collect();
    let b = LevelChunk::empty(-1, 2).to_bytes(&t);
    assert_eq!(&b[0..8], &[0xff, 0xff, 0xff, 0xff, 0, 0, 0, 2]);
    assert_eq!(&b[8..], &t[8..]);
}

#[test]
fn connection_phases() {
    let mut c = Connection::new();
    assert!(matches!(c.step(1, &[]), Some(Err(ServerError::ExpectedHandshake(1)))));
    let hs = [0x88, 0x06, 0x00, 0x63, 0xDD, 0x02];
    assert!(matches!(c.step(0, &hs), Some(Ok(ConnAction::Nothing))));
    assert_eq!(c.phase, ConnPhase::Login);
    let mut ls = BytesMut::new();
    write_string(&mut ls, "Alex");
    ls.extend_from_slice(&7u128.to_be_bytes());
    match c.step(0, &ls) {
        Some(Ok(ConnAction::LoginSuccess { uuid, name })) => {
            assert_eq!(uuid, 7);
            assert_eq!(name, "Alex");
        },
        _ => panic!("expected LoginSuccess"),
    }
    assert!(matches!(c.step(3, &[]), Some(Ok(ConnAction::SendRegistries))));
    assert_eq!(c.phase, ConnPhase::Config);
    assert!(matches!(c.step(0, &[]), Some(Ok(ConnAction::Nothing))));
    assert!(matches!(c.step(3, &[]), Some(Ok(ConnAction::EnterPlay { uuid: 7 }))));

    let mut d = Connection::new();
    assert!(matches!(d.step(0, &[0x01, 0x00, 0x00, 0x00, 0x01]), Some(Err(ServerError::ExpectedLogin(1)))));
    assert!(matches!(d.step(0, &[0x80]), Some(Err(ServerError::Malformed(_)))));
    assert!(d.step(0, &[0x01, 0x00, 0x00]).is_none());
}

#[test]
fn login_bodies() {
    let b = login_success_body(1, "ab", 2);
    assert_eq!(b.len(), 16 + 3 + 1 + 16);
    assert_eq!(&b[16..20], &[2, b'a', b'b', 0]);
    let brand = brand_body();
    assert_eq!(brand[0], 15);
    assert_eq!(brand.len(), 16 + 8);
}

#[test]
fn per_tick_bodies() {
    assert_eq!(&keep_alive_body(258)[..], &[0, 0, 0, 0, 0, 0, 1, 2]);
    assert_eq!(&set_time_body(1)[..], &[0, 0, 0, 0, 0, 0, 0, 1, 0]);
    assert_eq!(&ticking_state_body()[..], &20.0f32.to_be_bytes().iter().copied().chain([0u8]).collect::<Vec<u8>>()[..]);
}

#[test]
fn entity_bodies() {
    let b = write_add_entity(5, 1, 71, 1.5f64.to_bits(), 0, 0, 1, 2, 3, 0, false);
    assert_eq!(b.len(), 1 + 16 + 1 + 24 + 3 + 1 + 1);
    assert_eq!(&b[18..26], &1.5f64.to_be_bytes());
    let v = write_add_entity(5, 1, 71, 0, 0, 0, 0, 0, 0, 0, true);
    assert_eq!(v.len(), b.len() + 6);
    let d = item_data_body(1000, 55);
    assert_eq!(&d[..], &[0xE8, 0x07, 8, 7, 1, 55, 0, 0, 0xff]);
    assert_eq!(&take_item_body(1, 2, 3)[..], &[1, 2, 3]);
    let s = container_slot_body(4, 36, Some(ItemStack { item_id: 55, count: 2 }));
    assert_eq!(&s[..], &[0, 4, 0, 36, 2, 55, 0, 0]);
    let e = container_slot_body(4, 9, None);
    assert_eq!(&e[..], &[0, 4, 0, 9, 0]);
    assert_eq!(window_slot_of(0), 36);
    assert_eq!(window_slot_of(9), 9);
    assert_eq!(internal_slot_of(window_slot_of(8)), 8);
    assert_eq!(internal_slot_of(window_slot_of(20)), 20);
}

#[test]
fn initial_burst() {
    let mut st = ServerState::new(9);
    let pose = Pose { x: 0, y: (-59.0f64).to_bits(), z: 0, yaw: 0, pitch: 0 };
    assert_eq!(&initial_packet(&mut st, InitialPacket::ChangeDifficulty, pose, None).unwrap()[..], &[1, 0]);
    let pp = initial_packet(&mut st, InitialPacket::PlayerPosition, pose, None).unwrap();
    assert_eq!(st.teleport_id, 1);
    assert_eq!(pp.len(), 1 + 48 + 12);
    assert_eq!(&pp[9..17], &(-59.0f64).to_be_bytes());
    assert!(initial_packet(&mut st, InitialPacket::Login, pose, None).is_none());
    assert!(initial_packet(&mut st, InitialPacket::Commands, pose, Some(&[1, 2])).is_none());
    assert_eq!(&initial_packet(&mut st, InitialPacket::Other, pose, Some(&[1, 2])).unwrap()[..], &[1, 2]);
    assert!(initial_packet(&mut st, InitialPacket::Other, pose, None).is_none());
    let sd = initial_packet(&mut st, InitialPacket::ServerData, pose, None).unwrap();
    assert_eq!(&sd[..3], &[8, 0, 13]);
    let ab = initial_packet(&mut st, InitialPacket::PlayerAbilities, pose, None).unwrap();
    assert_eq!(&ab[1..5], &0.05f32.to_be_bytes());
    let wb = initial_packet(&mut st, InitialPacket::InitializeBorder, pose, None).unwrap();
    assert_eq!(&wb[16..24], &60000000.0f64.to_be_bytes());
    let sp = initial_packet(&mut st, InitialPacket::SetDefaultSpawnPosition, pose, None).unwrap();
    assert_eq!(sp.len(), 20 + 8 + 4 + 4);
    let hp = initial_packet(&mut st, InitialPacket::SetHealth, pose, None).unwrap();
    assert_eq!(&hp[5..9], &2.0f32.to_be_bytes());
    assert!(initial_packet(&mut st, InitialPacket::Bundle, pose, None).unwrap().is_empty());
}

#[test]
fn chunk_loading() {
    let mut st = ServerState::new(1);
    let vis = st.visible_chunks((0, 0));
    assert_eq!(vis.len(), 81);
    assert_eq!(vis[0], (-4, -4));
    assert_eq!(vis[1], (-4, -3));
    assert_eq!(vis[80], (4, 4));
    let new = st.new_visible_chunks((0, 0));
    assert_eq!(new.len(), 81);
    st.mark_chunks_loaded(&new, (0, 0));
    assert!(st.new_visible_chunks((0, 0)).is_empty());
    assert!(!st.chunk_changed((0, 0)));
    assert!(st.chunk_changed((1, 0)));
    assert_eq!(st.new_visible_chunks((1, 0)).len(), 9);
    st.mark_chunks_loaded(&[(0, 0), (100, 100)], (1, 0));
    assert_eq!(st.loaded_chunks.len(), 82);
    assert_eq!(st.last_chunk, (1, 0));
}

#[test]
fn counters() {
    let mut st = ServerState::new(1);
    assert_eq!(st.next_teleport_id(), 1);
    assert_eq!(st.next_teleport_id(), 2);
    st.keepalive_id = i32::MAX;
    assert_eq!(st.next_keepalive_id(), i32::MIN);
    st.advance_tick();
    assert_eq!(st.tick_count, 1);
    assert_eq!(RustServer::new(20067).port, 20067);
}

#[test]
fn inventory_fill_and_conservation() {
    let mut st = ServerState::new(1);
    st.inventory[0] = Some(ItemStack { item_id: 55, count: 60 });
    st.inventory[1] = Some(ItemStack { item_id: 1, count: 64 });
    let rem = st.add_to_inventory(55, 10);
    assert_eq!(rem, 0);
    assert_eq!(st.inventory[0], Some(ItemStack { item_id: 55, count: 64 }));
    assert_eq!(st.inventory[2], Some(ItemStack { item_id: 55, count: 6 }));
    let total: i32 = st.inventory[..36].iter().flatten().filter(|s| s.item_id == 55).map(|s| s.count).sum();
    assert_eq!(total, 70);
    for i in 0..36 {
        st.inventory[i] = Some(ItemStack { item_id: 1, count: 64 });
    }
    assert_eq!(st.add_to_inventory(55, 3), 3);
    assert_eq!(st.synced_slots().len(), 36);
}

#[test]
fn pickups() {
    let mut st = ServerState::new(1);
    for (i, item) in [55, 85, 55].iter().enumerate() {
        st.item_entities.push(ItemEntity { entity_id: 100 + i as i32, item_id: *item, count: 1, x: 0, y: 0, z: 0 });
    }
    let packets = st.process_pickups(&[0, 2]);
    // last first: entity 102, then 100; then one slot packet
    assert_eq!(packets.len(), 3);
    assert_eq!(packets[0].0, PlayPacket::TakeItemEntity);
    assert_eq!(&packets[0].1[..], &[102, 0xC8, 0x0A, 1]);
    assert_eq!(&packets[1].1[..], &[100, 0xC8, 0x0A, 1]);
    assert_eq!(packets[2].0, PlayPacket::ContainerSetSlot);
    assert_eq!(&packets[2].1[..], &[0, 1, 0, 36, 2, 55, 0, 0]);
    assert_eq!(st.container_state_id, 1);
    assert_eq!(st.item_entities.len(), 1);
    assert_eq!(st.item_entities[0].entity_id, 101);
    assert!(st.process_pickups(&[]).is_empty());
}

#[test]
fn breaking_and_placing() {
    let mut st = ServerState::new(1);
    let pos = encode_block_pos(3, -64, 4);
    let eid = st.break_block(pos, 42, 1, 2, 3);
    assert_eq!(eid, 1000);
    assert_eq!(st.next_entity_id, 1001);
    assert_eq!(st.pending_block_updates, vec![(pos, 0)]);
    assert_eq!(st.pending_spawns.len(), 2);
    assert_eq!(st.pending_spawns[0].0, PlayPacket::AddEntity);
    assert_eq!(&st.pending_spawns[1].1[..], &[0xE8, 0x07, 8, 7, 1, 85, 0, 0, 0xff]);
    assert_eq!(st.item_entities[0].item_id, 85);
    st.inventory[0] = Some(ItemStack { item_id: 1, count: 2 });
    st.use_held_item();
    assert_eq!(st.inventory[0], Some(ItemStack { item_id: 1, count: 1 }));
    st.use_held_item();
    assert_eq!(st.inventory[0], None);
}

#[test]
fn serverbound_play() {
    let mut st = ServerState::new(1);
    let mut body = Vec::new();
    body.extend_from_slice(&1.0f64.to_be_bytes());
    body.extend_from_slice(&2.0f64.to_be_bytes());
    body.extend_from_slice(&3.0f64.to_be_bytes());
    body.push(1);
    match handle_sb_packet(&mut st, ServerboundPlay::MovePlayerPos, &body, 7) {
        Some(PlayEvent::Moved { x, y, z }) => {
            assert_eq!(f64::from_bits(x), 1.0);
            assert_eq!(f64::from_bits(y), 2.0);
            assert_eq!(f64::from_bits(z), 3.0);
        },
        _ => panic!("expected Moved"),
    }
    assert!(matches!(handle_sb_packet(&mut st, ServerboundPlay::MovePlayerPos, &body[..10], 7), Some(PlayEvent::Nothing)));
    assert!(matches!(handle_sb_packet(&mut st, ServerboundPlay::ClientTickEnd, &[], 7), Some(PlayEvent::Nothing)));
    assert_eq!(st.tick_count, 1);
    assert!(matches!(handle_sb_packet(&mut st, ServerboundPlay::SetCarriedItem, &[3], 7), Some(PlayEvent::Nothing)));
    assert_eq!(st.held_slot, 3);
    assert!(matches!(handle_sb_packet(&mut st, ServerboundPlay::SetCarriedItem, &[100], 7), Some(PlayEvent::Nothing)));
    assert_eq!(st.held_slot, 3);
    assert!(matches!(handle_sb_packet(&mut st, ServerboundPlay::SetCarriedItem, &[0x7f], 7), Some(PlayEvent::Nothing)));
    assert_eq!(st.held_slot, 3);
    assert!(matches!(handle_sb_packet(&mut st, ServerboundPlay::SetCarriedItem, &[8], 7), Some(PlayEvent::Nothing)));
    assert_eq!(st.held_slot, 8);
    let pos = encode_block_pos(1, 2, 3);
    let mut pa = vec![2u8];
    pa.extend_from_slice(&pos.to_be_bytes());
    pa.push(1);
    pa.push(0);
    match handle_sb_packet(&mut st, ServerboundPlay::PlayerAction, &pa, 7) {
        Some(PlayEvent::PlayerAction { action, pos: p, face, broke }) => {
            assert_eq!((action, p, face, broke), (2, pos, 1, true));
        },
        _ => panic!("expected PlayerAction"),
    }
    assert!(handle_sb_packet(&mut st, ServerboundPlay::PlayerAction, &[2, 0, 0], 7).is_none());
    let mut chat = BytesMut::new();
    write_string(&mut chat, "help");
    match handle_sb_packet(&mut st, ServerboundPlay::ChatCommand, &chat, 7) {
        Some(PlayEvent::ChatCommand { text }) => assert_eq!(text, "help"),
        _ => panic!("expected ChatCommand"),
    }
    st.held_slot = 0;
    st.inventory[0] = Some(ItemStack { item_id: 1, count: 5 });
    let mut ui = vec![0u8];
    ui.extend_from_slice(&pos.to_be_bytes());
    ui.push(1);
    ui.extend_from_slice(&[0u8; 12]);
    ui.push(1);
    ui.push(0);
    assert!(matches!(
        handle_sb_packet(&mut st, ServerboundPlay::UseItemOn, &ui, 7),
        Some(PlayEvent::UseItemOn { face: 1, inside: true, .. })
    ));
    assert_eq!(st.inventory[0], Some(ItemStack { item_id: 1, count: 4 }));
    st.held_slot = 200;
    assert!(handle_sb_packet(&mut st, ServerboundPlay::UseItemOn, &ui, 7).is_none());
}

fn frame(id: i32, data: &[u8]) -> PacketFrame {
    PacketFrame { id, data: Bytes::copy_from_slice(data) }
}

#[test]
fn ping_responder() {
    let mut state = State::Handshake;
    assert!(matches!(ping_step(&mut state, &frame(1, &[])), Err(PingError::ExpectedHandshake(1))));
    let hs = [0x88, 0x06, 0x00, 0x63, 0xDD, 0x01];
    assert!(matches!(ping_step(&mut state, &frame(0, &hs)), Ok((PingAction::Nothing, false))));
    assert!(matches!(state, State::Status));
    assert!(matches!(ping_step(&mut state, &frame(0, &[])), Ok((PingAction::SendStatus, false))));
    assert!(matches!(
        ping_step(&mut state, &frame(1, &5i64.to_be_bytes())),
        Ok((PingAction::SendPong { payload: 5 }, true))
    ));
    assert!(matches!(ping_step(&mut state, &frame(7, &[])), Err(PingError::UnexpectedStatusPacket(7))));
    assert!(matches!(ping_step(&mut state, &frame(1, &[1])), Err(PingError::Packet(PacketError::Incomplete { .. }))));
    let mut login = State::Login;
    assert!(matches!(ping_step(&mut login, &frame(2, &[])), Err(PingError::UnexpectedLoginPacket(2))));
    let mut play = State::Play;
    assert!(matches!(ping_step(&mut play, &frame(0, &[])), Err(PingError::UnexpectedState(State::Play))));
    assert!(redirect_disconnect().reason.contains("25565"));
}

#[test]
fn relay_handshake_reading() {
    let hs = [0x88, 0x06, 0x02, b'h', b'i', 0x63, 0xDD, 0x02];
    assert_eq!(parse_handshake_next(&hs).unwrap().unwrap(), 2);
    assert!(parse_handshake_next(&[0x01, 0x09, 0x00]).is_none());
    assert!(parse_handshake_next(&[0x80]).unwrap().is_err());
    assert_eq!(relay_next_state(0, 0, &hs), Some(1));
    assert_eq!(relay_next_state(0, 1, &hs), Some(0));
    assert_eq!(relay_next_state(1, 0, &hs), Some(1));
    assert_eq!(relay_next_state(0, 0, &[0x01, 0x09, 0x00]), None);
    let v = VarInt(5).to_bytes();
    assert_eq!(v, vec![5]);
}

#[test]
fn template_panic_check() {

    let mut t = vec![0u8; 905];
    // four bits per entry with a palette count of -1
    t.extend_from_slice(&[0x00, 0x01, 0x04, 0xff, 0xff, 0xff, 0xff, 0x0f]);
    assert!(chunk_sections_panic(&t));
    assert!(!chunk_sections_panic(&template_with_sections()));
    assert!(!chunk_sections_panic(&[]));
}

#[test]
fn varint_conversions() {
    let v: VarInt = 7i32.into();
    assert_eq!(v.0, 7);
    let i: i32 = VarInt(-3).into();
    assert_eq!(i, -3);
    let l: rustmc::varint::VarLong = 9i64.into();
    let back: i64 = l.into();
    assert_eq!(back, 9);
}

#[test]
fn finished_dig_breaks_block() {
    let mut st = ServerState::new(0);
    let first = st.next_entity_id;
    let body = [0x02u8, 0, 0, 0, 0, 0, 0, 0x0F, 0xC0, 0x01, 0x00];
    match handle_sb_packet(&mut st, ServerboundPlay::PlayerAction, &body, 0x1234) {
        Some(PlayEvent::PlayerAction { action: 2, pos: 4032, broke: true, .. }) => {},
        _ => panic!("expected a finished dig"),
    }
    assert_eq!(st.pending_block_updates, vec![(4032, 0)]);
    assert_eq!(st.next_entity_id, first + 1);
    assert_eq!(st.item_entities.len(), 1);
    let e = &st.item_entities[0];
    assert_eq!((e.entity_id, e.item_id, e.count), (first, 85, 1));
    assert_eq!(f64::from_bits(e.x), 0.5);
    assert_eq!(f64::from_bits(e.y), -63.5);
    assert_eq!(f64::from_bits(e.z), 0.5);
    assert_eq!(st.pending_spawns.len(), 2);
    assert!(matches!(st.pending_spawns[0].0, PlayPacket::AddEntity));
    assert!(matches!(st.pending_spawns[1].0, PlayPacket::SetEntityData));
    let mut expected = BytesMut::new();
    VarInt(first).write(&mut expected);
    expected.extend_from_slice(&[0x08, 0x07, 0x01, 0x55, 0x00, 0x00, 0xFF]);
    assert_eq!(&st.pending_spawns[1].1[..], &expected[..]);
    // a dig that did not finish changes nothing
    let mut start = body;
    start[0] = 0;
    let before = st.next_entity_id;
    assert!(matches!(handle_sb_packet(&mut st, ServerboundPlay::PlayerAction, &start, 1), Some(PlayEvent::PlayerAction { broke: false, .. })));
    assert_eq!(st.next_entity_id, before);
    assert_eq!(st.item_entities.len(), 1);
}

#[test]
fn block_centres_as_f64_bits() {
    for n in [0i32, 1, -1, 2, -2, 7, -64, 63, 1000, -1000, 33554431, -33554432, i32::MAX, i32::MIN] {
        assert_eq!(f64::from_bits(block_center_bits(n)), n as f64 + 0.5, "n = {n}");
    }
}

#[test]
fn pickup_tops_up_stacks_before_empty_slots() {
    let mut st = ServerState::new(0);
    st.inventory[1] = Some(ItemStack { item_id: 55, count: 10 });
    assert_eq!(st.add_to_inventory(55, 1), 0);
    assert_eq!(st.inventory[0], None);
    assert_eq!(st.inventory[1], Some(ItemStack { item_id: 55, count: 11 }));
    // what the stacks cannot take goes to the first empty slots
    st.inventory[3] = Some(ItemStack { item_id: 55, count: 60 });
    assert_eq!(st.add_to_inventory(55, 60), 0);
    assert_eq!(st.inventory[1], Some(ItemStack { item_id: 55, count: 64 }));
    assert_eq!(st.inventory[3], Some(ItemStack { item_id: 55, count: 64 }));
    assert_eq!(st.inventory[0], Some(ItemStack { item_id: 55, count: 3 }));
}

#[test]
fn capture_file_names() {
    assert_eq!(template_name("play_pkt_35_id0x2b.bin"), Some((35, 0x2b)));
    assert_eq!(template_name("play_pkt_120_s2c_id0x7F.bin"), Some((120, 0x7f)));
    assert_eq!(template_name("play_pkt_+40_id0x-1.bin"), Some((40, -1)));
    assert_eq!(template_name("play_pkt_34_id0x2b.bin"), None);
    assert_eq!(template_name("play_pkt_35_id0x2b.dat"), None);
    assert_eq!(template_name("pkt_35_id0x2b.bin"), None);
    assert_eq!(template_name("play_pkt_35_0x2b.bin"), None);
    assert_eq!(template_name("play_pkt_x5_id0x2b.bin"), None);
    assert_eq!(template_name("play_pkt_35_id0xzz.bin"), None);
    assert_eq!(template_name("play_pkt_4294967296_id0x1.bin"), None);
    assert_eq!(template_name("play_pkt_4294967295_id0x7fffffff.bin"), Some((u32::MAX, i32::MAX)));
    assert_eq!(template_name("play_pkt_50_id0x80000000.bin"), None);
    assert_eq!(template_name("play_pkt_50_id0x-80000000.bin"), Some((50, i32::MIN)));
    assert_eq!(template_name("play_pkt_50_id0x.bin"), None);
}

#[test]
fn replayed_captures() {
    let found = vec![
        (40u32, 1i32, vec![4u8]),
        (36, 2, vec![3]),
        (40, 3, vec![5]),
        (38, 4, vec![]),
    ];
    assert_eq!(select_templates(found), vec![(2, vec![3]), (4, vec![]), (3, vec![5])]);
    let many: Vec<(u32, i32, Vec<u8>)> = (0..300u32).rev().map(|n| (n + 35, n as i32, vec![])).collect();
    let sel = select_templates(many);
    assert_eq!(sel.len(), 213);
    assert_eq!(sel[0].0, 0);
    assert_eq!(sel[212].0, 212);
}

#[test]
fn per_tick_and_chunk_batch_packets() {
    let ticks = tick_packets(300);
    let kinds: Vec<_> = ticks.iter().map(|(p, _)| format!("{p:?}")).collect();
    assert_eq!(kinds, vec!["KeepAlive", "SetTime", "TickingState", "TickingStep"]);
    assert_eq!(&ticks[0].1[..], &300u64.to_be_bytes());
    assert_eq!(ticks[1].1.len(), 9);
    assert_eq!(&ticks[2].1[..], &[0x41, 0xa0, 0, 0, 0]);
    assert_eq!(&ticks[3].1[..], &[0]);
    let template = vec![9u8; 12];
    let batch = chunk_batch(&[(1, -1), (2, 3)], &template);
    let kinds: Vec<_> = batch.iter().map(|(p, _)| format!("{p:?}")).collect();
    assert_eq!(kinds, vec!["ChunkBatchStart", "LevelChunk", "LevelChunk", "ChunkBatchFinished"]);
    assert!(batch[0].1.is_empty());
    assert_eq!(&batch[1].1[..], &[0, 0, 0, 1, 0xff, 0xff, 0xff, 0xff, 9, 9, 9, 9]);
    assert_eq!(&batch[3].1[..], &[2]);
    assert!(chunk_batch(&[], &template).is_empty());
}
