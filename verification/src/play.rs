//! The server's side of a connection: the phases before Play, the packet
//! bodies it sends in Play, and what it makes of the client's Play packets.
//! Floating-point values travel as the bits of their IEEE-754 encoding.
use vstd::prelude::*;
use bytes::{Bytes, BytesMut};
use crate::buffers::{
    be_bytes, be_value, bytes_copy_from_slice, bytes_get_u8, bytes_mut_extend_from_slice, bytes_mut_new,
    bytes_mut_put_u8, bytes_mut_view, bytes_remaining, bytes_view, get_i64, get_i8, get_u128, get_u64,
    put_i32, put_i64, put_u128, put_u64, signed64, unsigned32, unsigned64, get_be,
};
use crate::handshake::{read_string, spec_read_string, spec_string_bytes, write_string};
use crate::packet::{ReadFault};
use crate::server_state::{broke_block, packets_view, PlayPacket, ServerState};
use vstd::arithmetic::power2::pow2;
use crate::varint::{consumed, decode_varint, scan_var, varint_of, varlong_of, VarInt, VarLong};

verus! {

// ── Block positions ──────────────────────────────────────────

/// A packed block position: x in the top 26 bits (signed), z in the next 26
/// bits (read unsigned), y in the low 12 bits (signed).
pub open spec fn spec_block_pos(pos: i64) -> (i32, i32, i32) {
    ((pos >> 38u64) as i32, ((pos << 52u64) >> 52u64) as i32, ((pos >> 12u64) & 0x3FFFFFF) as i32)
}

/// Unpacks a block position.
pub fn decode_block_pos(pos: i64) -> (r: (i32, i32, i32))
    ensures
        r == spec_block_pos(pos),
{
    let x = (pos >> 38u64) as i32;
    let y = ((pos << 52u64) >> 52u64) as i32;
    let z = ((pos >> 12u64) & 0x3FFFFFF) as i32;
    (x, y, z)
}

// ── Packet sequences ─────────────────────────────────────────

/// The packets of one tick, in order: KeepAlive and SetTime with the tick
/// count, then TickingState and TickingStep.
pub open spec fn spec_tick_packets(tick: u64) -> Seq<(PlayPacket, Seq<u8>)> {
    seq![
        (PlayPacket::KeepAlive, be_bytes(tick as nat, 8)),
        (PlayPacket::SetTime, be_bytes(tick as nat, 8).push(0)),
        (PlayPacket::TickingState, be_bytes(unsigned32(TWENTY_F32_BITS as int), 4).push(0)),
        (PlayPacket::TickingStep, varint_of(0)),
    ]
}

/// The packets sent every tick (50 ms).
pub fn tick_packets(tick: u64) -> (r: Vec<(PlayPacket, BytesMut)>)
    ensures
        packets_view(r@) == spec_tick_packets(tick),
{
    let mut out: Vec<(PlayPacket, BytesMut)> = Vec::new();
    out.push((PlayPacket::KeepAlive, keep_alive_body(tick)));
    out.push((PlayPacket::SetTime, set_time_body(tick)));
    out.push((PlayPacket::TickingState, ticking_state_body()));
    out.push((PlayPacket::TickingStep, ticking_step_body()));
    proof {
        assert(packets_view(out@) =~= spec_tick_packets(tick));
    }
    out
}

/// The LevelChunk body of chunk `c` cut from `template`.
pub open spec fn spec_level_chunk_body(c: (i32, i32), template: Seq<u8>) -> Seq<u8> {
    be_bytes(unsigned32(c.0 as int), 4) + be_bytes(unsigned32(c.1 as int), 4) + template.skip(8)
}

/// A chunk batch: nothing for no chunks, else ChunkBatchStart, a
/// LevelChunk for each chunk in order, and ChunkBatchFinished with the count.
pub open spec fn spec_chunk_batch(chunks: Seq<(i32, i32)>, template: Seq<u8>) -> Seq<(PlayPacket, Seq<u8>)> {
    if chunks.len() == 0 {
        Seq::empty()
    } else {
        seq![(PlayPacket::ChunkBatchStart, Seq::<u8>::empty())] + chunks.map_values(
            |c: (i32, i32)| (PlayPacket::LevelChunk, spec_level_chunk_body(c, template)),
        ) + seq![(PlayPacket::ChunkBatchFinished, varint_of(chunks.len() as i32))]
    }
}

/// The packets that send `chunks`, each body cut from `template`.
pub fn chunk_batch(chunks: &[(i32, i32)], template: &[u8]) -> (r: Vec<(PlayPacket, BytesMut)>)
    requires
        template@.len() >= 8,
    ensures
        packets_view(r@) == spec_chunk_batch(chunks@, template@),
{
    let mut out: Vec<(PlayPacket, BytesMut)> = Vec::new();
    if chunks.len() == 0 {
        proof {
            assert(packets_view(out@) =~= spec_chunk_batch(chunks@, template@));
        }
        return out;
    }
    let ghost head = seq![(PlayPacket::ChunkBatchStart, Seq::<u8>::empty())];
    let ghost body = chunks@.map_values(|c: (i32, i32)| (PlayPacket::LevelChunk, spec_level_chunk_body(c, template@)));
    let start = bytes_mut_new();
    out.push((PlayPacket::ChunkBatchStart, start));
    proof {
        assert(packets_view(out@) =~= head + body.take(0));
    }
    let mut i: usize = 0;
    while i < chunks.len()
        invariant
            i <= chunks@.len(),
            template@.len() >= 8,
            body == chunks@.map_values(|c: (i32, i32)| (PlayPacket::LevelChunk, spec_level_chunk_body(c, template@))),
            head == seq![(PlayPacket::ChunkBatchStart, Seq::<u8>::empty())],
            packets_view(out@) == head + body.take(i as int),
        decreases chunks@.len() - i,
    {
        let (cx, cz) = chunks[i];
        let b = crate::level_chunk::LevelChunk::empty(cx, cz).to_bytes(template);
        let ghost before = out@;
        out.push((PlayPacket::LevelChunk, b));
        proof {
            assert(packets_view(out@) =~= packets_view(before).push((PlayPacket::LevelChunk, bytes_mut_view(b))));
            assert(head + body.take(i + 1) =~= (head + body.take(i as int)).push(body[i as int]));
        }
        i += 1;
    }
    let ghost before = out@;
    out.push((PlayPacket::ChunkBatchFinished, chunk_batch_finished_body(chunks.len() as i32)));
    proof {
        assert(body.take(chunks@.len() as int) =~= body);
        assert(packets_view(out@) =~= spec_chunk_batch(chunks@, template@));
    }
    out
}

/// ⌊log₂ m⌋ for m ≥ 1.
pub open spec fn floor_log2(m: nat) -> nat
    decreases m,
{
    if m < 2 {
        0
    } else {
        1 + floor_log2(m / 2)
    }
}

/// The IEEE-754 binary64 encoding of `n + 0.5`, the centre of block
/// coordinate `n`: with m = |2n + 1| and 2^e ≤ m < 2^(e+1), the sign bit is
/// set for negative n, the biased exponent is e + 1022 (the value is
/// m / 2^e × 2^(e−1)), and the fraction holds the bits of m below its
/// leading one, shifted to the top of the 52 fraction bits. No rounding
/// occurs: m has at most 33 bits.
pub open spec fn center_bits(n: int) -> int {
    let m: nat = if n >= 0 { (2 * n + 1) as nat } else { (-(2 * n + 1)) as nat };
    let e = floor_log2(m);
    (if n < 0 { pow2(63) as int } else { 0 }) + (e + 1022) * pow2(52) + (m - pow2(e)) * pow2((52 - e) as nat)
}

proof fn lemma_floor_log2(m: nat, e: nat)
    requires
        pow2(e) <= m < pow2(e + 1),
    ensures
        floor_log2(m) == e,
    decreases e,
{
    vstd::arithmetic::power2::lemma_pow2_unfold(e + 1);
    if e > 0 {
        vstd::arithmetic::power2::lemma_pow2_unfold(e);
        lemma_floor_log2(m / 2, (e - 1) as nat);
    } else {
        vstd::arithmetic::power2::lemma2_to64();
    }
}

/// The bits of the `f64` value `n + 0.5`.
pub fn block_center_bits(n: i32) -> (r: u64)
    ensures
        r as int == center_bits(n as int),
{
    let m: u64 = if n >= 0 { 2 * (n as u64) + 1 } else { (0i64 - 2 * (n as i64) - 1) as u64 };
    proof {
        vstd::arithmetic::power2::lemma2_to64();
        vstd::arithmetic::power2::lemma2_to64_rest();
    }
    let mut e: u64 = 0;
    let mut p: u64 = 1;
    while p <= m / 2
        invariant
            1 <= m < 0x2_0000_0000,
            p == pow2(e as nat),
            1 <= p <= m,
            e <= 33,
            pow2(33) == 0x2_0000_0000,
        decreases m - p,
    {
        proof {
            vstd::arithmetic::power2::lemma_pow2_unfold((e + 1) as nat);
            if e == 33 {
                assert(false);
            }
        }
        p = p * 2;
        e = e + 1;
    }
    proof {
        vstd::arithmetic::power2::lemma_pow2_unfold((e + 1) as nat);
        lemma_floor_log2(m as nat, e as nat);
        if e > 32 {
            vstd::arithmetic::power2::lemma_pow2_strictly_increases(32, e as nat);
        }
        vstd::bits::lemma_u64_pow2_no_overflow((52 - e) as nat);
        vstd::bits::lemma_u64_shl_is_mul(1u64, (52 - e) as u64);
        vstd::arithmetic::power2::lemma_pow2_adds(e as nat, (52 - e) as nat);
    }
    let q: u64 = 1u64 << (52 - e);
    assert(q == pow2((52 - e) as nat));
    assert(p * q == pow2(52));
    assert((m - p) * q < p * q) by (nonlinear_arith)
        requires
            m - p < p,
            q > 0,
    ;
    let f: u64 = (m - p) * q;
    let sign: u64 = if n < 0 { 0x8000_0000_0000_0000u64 } else { 0 };
    let r = sign + (e + 1022) * 0x10_0000_0000_0000u64 + f;
    r
}

/// Packs a block position: x and z to 26 bits, y to 12.
pub open spec fn spec_encode_pos(x: i64, y: i64, z: i64) -> i64 {
    ((x & 0x3FFFFFF) << 38u64) | ((z & 0x3FFFFFF) << 12u64) | (y & 0xFFF)
}

/// Packs a block position.
pub fn encode_block_pos(x: i64, y: i64, z: i64) -> (r: i64)
    ensures
        r == spec_encode_pos(x, y, z),
{
    ((x & 0x3FFFFFF) << 38u64) | ((z & 0x3FFFFFF) << 12u64) | (y & 0xFFF)
}

/// Unpacking a packed position gives back x and y in their signed ranges and
/// z in its unsigned one.
pub proof fn law_block_pos_roundtrip(x: i64, y: i64, z: i64)
    requires
        -0x200_0000 <= x < 0x200_0000,
        -0x800 <= y < 0x800,
        0 <= z < 0x400_0000,
    ensures
        spec_block_pos(spec_encode_pos(x, y, z)) == (x as i32, y as i32, z as i32),
{
    let p = spec_encode_pos(x, y, z);
    assert(p >> 38u64 == x) by (bit_vector)
        requires
            -0x200_0000 <= x < 0x200_0000,
            0 <= z < 0x400_0000,
            p == ((x & 0x3FFFFFF) << 38u64) | ((z & 0x3FFFFFF) << 12u64) | (y & 0xFFF),
    ;
    assert((p << 52u64) >> 52u64 == y) by (bit_vector)
        requires
            -0x800 <= y < 0x800,
            p == ((x & 0x3FFFFFF) << 38u64) | ((z & 0x3FFFFFF) << 12u64) | (y & 0xFFF),
    ;
    assert((p >> 12u64) & 0x3FFFFFF == z) by (bit_vector)
        requires
            0 <= z < 0x400_0000,
            p == ((x & 0x3FFFFFF) << 38u64) | ((z & 0x3FFFFFF) << 12u64) | (y & 0xFFF),
    ;
}

// ── Play packet bodies ───────────────────────────────────────

/// AddEntity: VarInt entity ID, UUID, VarInt entity type, x, y, z (`f64`
/// bits), pitch, yaw, head yaw (angle bytes), VarInt data, the velocity flag
/// and, when set, three zero velocity shorts.
pub open spec fn spec_add_entity_body(
    entity_id: i32,
    uuid: u128,
    entity_type: i32,
    x: u64,
    y: u64,
    z: u64,
    pitch: u8,
    yaw: u8,
    head_yaw: u8,
    data: i32,
    has_velocity: bool,
) -> Seq<u8> {
    varint_of(entity_id) + be_bytes(uuid as nat, 16) + varint_of(entity_type) + be_bytes(x as nat, 8)
        + be_bytes(y as nat, 8) + be_bytes(z as nat, 8) + seq![pitch, yaw, head_yaw] + varint_of(data)
        + (if has_velocity { seq![1u8, 0, 0, 0, 0, 0, 0] } else { seq![0u8] })
}

/// Build an AddEntity packet body.
pub fn write_add_entity(
    entity_id: i32,
    uuid: u128,
    entity_type: i32,
    x: u64,
    y: u64,
    z: u64,
    pitch: u8,
    yaw: u8,
    head_yaw: u8,
    data: i32,
    has_velocity: bool,
) -> (r: BytesMut)
    ensures
        bytes_mut_view(r) == spec_add_entity_body(entity_id, uuid, entity_type, x, y, z, pitch, yaw, head_yaw, data, has_velocity),
{
    let mut buf = bytes_mut_new();
    VarInt(entity_id).write(&mut buf);
    put_u128(&mut buf, uuid);
    VarInt(entity_type).write(&mut buf);
    put_u64(&mut buf, x);
    put_u64(&mut buf, y);
    put_u64(&mut buf, z);
    let ghost head = bytes_mut_view(buf);
    bytes_mut_put_u8(&mut buf, pitch);
    bytes_mut_put_u8(&mut buf, yaw);
    bytes_mut_put_u8(&mut buf, head_yaw);
    proof {
        assert(bytes_mut_view(buf) =~= head + seq![pitch, yaw, head_yaw]);
    }
    VarInt(data).write(&mut buf);
    let ghost tail = bytes_mut_view(buf);
    bytes_mut_put_u8(&mut buf, if has_velocity { 1 } else { 0 });
    if has_velocity {
        bytes_mut_put_u8(&mut buf, 0);
        bytes_mut_put_u8(&mut buf, 0);
        bytes_mut_put_u8(&mut buf, 0);
        bytes_mut_put_u8(&mut buf, 0);
        bytes_mut_put_u8(&mut buf, 0);
        bytes_mut_put_u8(&mut buf, 0);
    }
    proof {
        assert(bytes_mut_view(buf) =~= tail + (if has_velocity { seq![1u8, 0, 0, 0, 0, 0, 0] } else { seq![0u8] }));
    }
    buf
}

/// SetEntityData for a dropped item: entry 8 of type item stack holding one
/// `item_id` with no component changes, then the end marker.
pub open spec fn spec_item_data_body(entity_id: i32, item_id: i32) -> Seq<u8> {
    varint_of(entity_id) + seq![8u8] + varint_of(7) + varint_of(1) + varint_of(item_id) + varint_of(0)
        + varint_of(0) + seq![0xffu8]
}

/// The SetEntityData body of a dropped item.
pub fn item_data_body(entity_id: i32, item_id: i32) -> (r: BytesMut)
    ensures
        bytes_mut_view(r) == spec_item_data_body(entity_id, item_id),
{
    let mut meta = bytes_mut_new();
    VarInt(entity_id).write(&mut meta);
    let ghost a = bytes_mut_view(meta);
    bytes_mut_put_u8(&mut meta, 8);
    proof {
        assert(bytes_mut_view(meta) =~= a + seq![8u8]);
    }
    VarInt(7i32).write(&mut meta);
    VarInt(1i32).write(&mut meta);
    VarInt(item_id).write(&mut meta);
    VarInt(0i32).write(&mut meta);
    VarInt(0i32).write(&mut meta);
    let ghost b = bytes_mut_view(meta);
    bytes_mut_put_u8(&mut meta, 0xff);
    proof {
        assert(bytes_mut_view(meta) =~= b + seq![0xffu8]);
    }
    meta
}

/// The BlockUpdate body: the packed position and the new block state.
pub fn block_update_body(pos: i64, block: i32) -> (r: BytesMut)
    ensures
        bytes_mut_view(r) == be_bytes(unsigned64(pos as int), 8) + varint_of(block),
{
    let mut bu = bytes_mut_new();
    put_i64(&mut bu, pos);
    VarInt(block).write(&mut bu);
    bu
}

/// The SetChunkCacheCenter body: chunk x and z as VarInts.
pub fn chunk_cache_center_body(cx: i32, cz: i32) -> (r: BytesMut)
    ensures
        bytes_mut_view(r) == varint_of(cx) + varint_of(cz),
{
    let mut cc = bytes_mut_new();
    VarInt(cx).write(&mut cc);
    VarInt(cz).write(&mut cc);
    cc
}

/// The ChunkBatchFinished body: the number of chunks sent.
pub fn chunk_batch_finished_body(count: i32) -> (r: BytesMut)
    ensures
        bytes_mut_view(r) == varint_of(count),
{
    let mut bf = bytes_mut_new();
    VarInt(count).write(&mut bf);
    bf
}

/// The KeepAlive body sent each tick: the tick count as an i64.
pub fn keep_alive_body(tick: u64) -> (r: BytesMut)
    ensures
        bytes_mut_view(r) == be_bytes(tick as nat, 8),
{
    let mut kb = bytes_mut_new();
    put_u64(&mut kb, tick);
    kb
}

/// The SetTime body sent each tick: the tick count as an i64, then a false flag.
pub fn set_time_body(tick: u64) -> (r: BytesMut)
    ensures
        bytes_mut_view(r) == be_bytes(tick as nat, 8).push(0),
{
    let mut tb = bytes_mut_new();
    put_u64(&mut tb, tick);
    bytes_mut_put_u8(&mut tb, 0x00);
    tb
}

/// Bits of the `f32` 20.0.
pub const TWENTY_F32_BITS: i32 = 0x41a0_0000;
/// Bits of the `f32` 0.05.
pub const WALK_F32_BITS: i32 = 0x3d4c_cccd;
/// Bits of the `f32` 0.1.
pub const TENTH_F32_BITS: i32 = 0x3dcc_cccd;
/// Bits of the `f32` 2.0.
pub const TWO_F32_BITS: i32 = 0x4000_0000;
/// Bits of the `f64` 60000000.0 (the world border size).
pub const BORDER_F64_BITS: u64 = 0x418c_9c38_0000_0000;

/// The TickingState body: tick rate 20.0 and not frozen.
pub fn ticking_state_body() -> (r: BytesMut)
    ensures
        bytes_mut_view(r) == be_bytes(unsigned32(TWENTY_F32_BITS as int), 4).push(0),
{
    let mut ts = bytes_mut_new();
    put_i32(&mut ts, TWENTY_F32_BITS);
    bytes_mut_put_u8(&mut ts, 0);
    ts
}

/// The TickingStep body: no steps.
pub fn ticking_step_body() -> (r: BytesMut)
    ensures
        bytes_mut_view(r) == varint_of(0),
{
    let mut tstep = bytes_mut_new();
    VarInt(0i32).write(&mut tstep);
    tstep
}

// ── The initial burst ────────────────────────────────────────

/// A packet of the initial Play burst, by name.
#[derive(Debug, Clone, Copy, PartialEq, Eq, Structural)]
pub enum InitialPacket {
    Login,
    ChangeDifficulty,
    SetHeldSlot,
    GameEvent,
    PlayerPosition,
    SetTime,
    TickingState,
    TickingStep,
    PlayerAbilities,
    RecipeBookSettings,
    ServerData,
    PlayerInfoUpdate,
    Commands,
    UpdateRecipes,
    RecipeBookAdd,
    EntityEvent,
    AddEntity,
    SetEntityData,
    UpdateAttributes,
    UpdateAdvancements,
    ContainerSetContent,
    SetEquipment,
    ChunkBatchStart,
    SetChunkCacheCenter,
    LevelChunkWithLight,
    InitializeBorder,
    SetDefaultSpawnPosition,
    SetExperience,
    SetHealth,
    Bundle,
    Other,
}

/// The player's position and rotation, as the bits of `f64` x, y, z and
/// `f32` yaw and pitch.
#[derive(Debug, Clone, Copy)]
pub struct Pose {
    pub x: u64,
    pub y: u64,
    pub z: u64,
    pub yaw: u32,
    pub pitch: u32,
}

/// The packed spawn position (0, -60, 0).
pub const SPAWN_POS: i64 = 4036;

/// The body the initial burst sends for `kind`: built for the packets the
/// server fills in itself (PlayerPosition with teleport ID `tid`), none for
/// the login packet and for those it leaves out or sends elsewhere, and the
/// captured `template` for any other.
pub open spec fn spec_initial_body(kind: InitialPacket, tid: i32, pose: Pose, template: Option<Seq<u8>>) -> Option<Seq<u8>> {
    match kind {
        InitialPacket::ChangeDifficulty => Some(seq![1u8, 0]),
        InitialPacket::SetHeldSlot => Some(varint_of(0)),
        InitialPacket::GameEvent => Some(seq![13u8] + be_bytes(0, 4)),
        InitialPacket::PlayerPosition => Some(
            varint_of(tid) + be_bytes(pose.x as nat, 8) + be_bytes(pose.y as nat, 8) + be_bytes(pose.z as nat, 8)
                + be_bytes(0, 8) + be_bytes(0, 8) + be_bytes(0, 8) + be_bytes(pose.yaw as nat, 4)
                + be_bytes(pose.pitch as nat, 4) + be_bytes(0, 4),
        ),
        InitialPacket::SetTime => Some(be_bytes(0, 8).push(0)),
        InitialPacket::TickingState => Some(be_bytes(unsigned32(TWENTY_F32_BITS as int), 4).push(0)),
        InitialPacket::TickingStep => Some(varint_of(0)),
        InitialPacket::PlayerAbilities => Some(
            seq![4u8] + be_bytes(unsigned32(WALK_F32_BITS as int), 4) + be_bytes(unsigned32(TENTH_F32_BITS as int), 4),
        ),
        InitialPacket::RecipeBookSettings => Some(seq![0u8, 0, 0, 0, 0, 0, 0, 0]),
        InitialPacket::ServerData => Some(seq![8u8, 0] + spec_string_bytes("RustMC Server"@) + seq![0u8]),
        InitialPacket::PlayerInfoUpdate => Some(seq![0u8, 0]),
        InitialPacket::InitializeBorder => Some(
            be_bytes(0, 8) + be_bytes(0, 8) + be_bytes(BORDER_F64_BITS as nat, 8) + be_bytes(BORDER_F64_BITS as nat, 8)
                + varlong_of(0) + varint_of(29999984) + varint_of(5) + varint_of(300),
        ),
        InitialPacket::SetDefaultSpawnPosition => Some(
            spec_string_bytes("minecraft:overworld"@) + be_bytes(unsigned64(SPAWN_POS as int), 8) + be_bytes(0, 4)
                + seq![0u8, 0, 0, 0],
        ),
        InitialPacket::SetExperience => Some(be_bytes(0, 4) + varint_of(0) + varint_of(0)),
        InitialPacket::SetHealth => Some(
            be_bytes(unsigned32(TWENTY_F32_BITS as int), 4) + varint_of(20) + be_bytes(unsigned32(TWO_F32_BITS as int), 4),
        ),
        InitialPacket::Bundle => Some(Seq::empty()),
        InitialPacket::Other => template,
        _ => None,
    }
}

/// Whether building `kind` takes a teleport ID.
pub open spec fn takes_teleport(kind: InitialPacket) -> bool {
    kind == InitialPacket::PlayerPosition
}

fn put_zeros(buf: &mut BytesMut, n: usize)
    ensures
        bytes_mut_view(*final(buf)) == bytes_mut_view(*old(buf)) + Seq::new(n as nat, |i: int| 0u8),
{
    let mut i: usize = 0;
    while i < n
        invariant
            i <= n,
            bytes_mut_view(*buf) == bytes_mut_view(*old(buf)) + Seq::new(i as nat, |k: int| 0u8),
        decreases n - i,
    {
        let ghost before = bytes_mut_view(*buf);
        bytes_mut_put_u8(buf, 0);
        proof {
            assert(bytes_mut_view(*buf) =~= bytes_mut_view(*old(buf)) + Seq::new((i + 1) as nat, |k: int| 0u8));
        }
        i = i + 1;
    }
}

/// Build one packet of the initial burst (see `spec_initial_body`); the
/// PlayerPosition packet takes the next teleport ID of `state`.
pub fn initial_packet(state: &mut ServerState, kind: InitialPacket, pose: Pose, template: Option<&[u8]>) -> (r: Option<BytesMut>)
    requires
        takes_teleport(kind) ==> old(state).teleport_id < i32::MAX,
    ensures
        takes_teleport(kind) ==> *final(state) == (ServerState { teleport_id: (old(state).teleport_id + 1) as i32, ..*old(state) }),
        !takes_teleport(kind) ==> *final(state) == *old(state),
        match spec_initial_body(
            kind,
            (old(state).teleport_id + 1) as i32,
            pose,
            match template { Some(t) => Some(t@), None => None },
        ) {
            Some(b) => r matches Some(x) && bytes_mut_view(x) == b,
            None => r is None,
        },
{
    let mut b = bytes_mut_new();
    let ghost e = Seq::<u8>::empty();
    match kind {
        InitialPacket::ChangeDifficulty => {
            bytes_mut_put_u8(&mut b, 1);
            bytes_mut_put_u8(&mut b, 0);
            proof {
                assert(bytes_mut_view(b) =~= seq![1u8, 0]);
            }
        },
        InitialPacket::SetHeldSlot | InitialPacket::TickingStep => {
            VarInt(0i32).write(&mut b);
            proof {
                assert(bytes_mut_view(b) =~= varint_of(0));
            }
        },
        InitialPacket::GameEvent => {
            bytes_mut_put_u8(&mut b, 13);
            put_i32(&mut b, 0);
            proof {
                assert(bytes_mut_view(b) =~= seq![13u8] + be_bytes(0, 4));
            }
        },
        InitialPacket::PlayerPosition => {
            let tid = state.next_teleport_id();
            VarInt(tid).write(&mut b);
            put_u64(&mut b, pose.x);
            put_u64(&mut b, pose.y);
            put_u64(&mut b, pose.z);
            put_u64(&mut b, 0);
            put_u64(&mut b, 0);
            put_u64(&mut b, 0);
            proof {
                reveal_with_fuel(crate::buffers::pow256, 5);
            }
            crate::buffers::put_be(&mut b, pose.yaw as u128, 4);
            crate::buffers::put_be(&mut b, pose.pitch as u128, 4);
            put_i32(&mut b, 0);
        },
        InitialPacket::SetTime => {
            put_u64(&mut b, 0);
            bytes_mut_put_u8(&mut b, 0x00);
            proof {
                assert(bytes_mut_view(b) =~= be_bytes(0, 8).push(0));
            }
        },
        InitialPacket::TickingState => {
            put_i32(&mut b, TWENTY_F32_BITS);
            bytes_mut_put_u8(&mut b, 0);
            proof {
                assert(bytes_mut_view(b) =~= be_bytes(unsigned32(TWENTY_F32_BITS as int), 4).push(0));
            }
        },
        InitialPacket::PlayerAbilities => {
            bytes_mut_put_u8(&mut b, 4);
            put_i32(&mut b, WALK_F32_BITS);
            put_i32(&mut b, TENTH_F32_BITS);
            proof {
                assert(bytes_mut_view(b) =~= seq![4u8] + be_bytes(unsigned32(WALK_F32_BITS as int), 4) + be_bytes(unsigned32(TENTH_F32_BITS as int), 4));
            }
        },
        InitialPacket::RecipeBookSettings => {
            put_zeros(&mut b, 8);
            proof {
                assert(bytes_mut_view(b) =~= seq![0u8, 0, 0, 0, 0, 0, 0, 0]);
            }
        },
        InitialPacket::ServerData => {
            bytes_mut_put_u8(&mut b, 8);
            bytes_mut_put_u8(&mut b, 0);
            let ghost a = bytes_mut_view(b);
            write_string(&mut b, "RustMC Server");
            bytes_mut_put_u8(&mut b, 0);
            proof {
                assert(a =~= seq![8u8, 0]);
                assert(bytes_mut_view(b) =~= seq![8u8, 0] + spec_string_bytes("RustMC Server"@) + seq![0u8]);
            }
        },
        InitialPacket::PlayerInfoUpdate => {
            bytes_mut_put_u8(&mut b, 0);
            bytes_mut_put_u8(&mut b, 0);
            proof {
                assert(bytes_mut_view(b) =~= seq![0u8, 0]);
            }
        },
        InitialPacket::InitializeBorder => {
            put_u64(&mut b, 0);
            put_u64(&mut b, 0);
            put_u64(&mut b, BORDER_F64_BITS);
            put_u64(&mut b, BORDER_F64_BITS);
            VarLong(0i64).write(&mut b);
            VarInt(29999984i32).write(&mut b);
            VarInt(5i32).write(&mut b);
            VarInt(300i32).write(&mut b);
            proof {
                assert(bytes_mut_view(b) =~= e + be_bytes(0, 8) + be_bytes(0, 8) + be_bytes(BORDER_F64_BITS as nat, 8) + be_bytes(BORDER_F64_BITS as nat, 8)
                    + varlong_of(0) + varint_of(29999984) + varint_of(5) + varint_of(300));
            }
        },
        InitialPacket::SetDefaultSpawnPosition => {
            write_string(&mut b, "minecraft:overworld");
            let pos = encode_block_pos(0, -60, 0);
            proof {
                assert(((0i64 & 0x3FFFFFF) << 38u64) | ((0i64 & 0x3FFFFFF) << 12u64) | (-60i64 & 0xFFF) == 4036i64) by (bit_vector);
            }
            put_i64(&mut b, pos);
            put_i32(&mut b, 0);
            put_zeros(&mut b, 4);
            proof {
                assert(Seq::new(4, |k: int| 0u8) =~= seq![0u8, 0, 0, 0]);
                assert(bytes_mut_view(b) =~= e + spec_string_bytes("minecraft:overworld"@) + be_bytes(unsigned64(SPAWN_POS as int), 8) + be_bytes(0, 4)
                    + seq![0u8, 0, 0, 0]);
            }
        },
        InitialPacket::SetExperience => {
            put_i32(&mut b, 0);
            VarInt(0i32).write(&mut b);
            VarInt(0i32).write(&mut b);
            proof {
                assert(bytes_mut_view(b) =~= e + be_bytes(0, 4) + varint_of(0) + varint_of(0));
            }
        },
        InitialPacket::SetHealth => {
            put_i32(&mut b, TWENTY_F32_BITS);
            VarInt(20i32).write(&mut b);
            put_i32(&mut b, TWO_F32_BITS);
            proof {
                assert(bytes_mut_view(b) =~= e + be_bytes(unsigned32(TWENTY_F32_BITS as int), 4) + varint_of(20) + be_bytes(unsigned32(TWO_F32_BITS as int), 4));
            }
        },
        InitialPacket::Bundle => {},
        InitialPacket::Other => {
            match template {
                Some(t) => {
                    bytes_mut_extend_from_slice(&mut b, t);
                    proof {
                        assert(bytes_mut_view(b) =~= t@);
                    }
                },
                None => {
                    return None;
                },
            }
        },
        _ => {
            return None;
        },
    }
    Some(b)
}

// ── Before Play ──────────────────────────────────────────────

/// The phases of a connection before Play.
#[derive(Debug, Clone, Copy, PartialEq, Eq, Structural)]
pub enum ConnPhase {
    Handshake,
    Login,
    Config,
}

/// A connection before Play: its phase and the UUID the player logged in with.
pub struct Connection {
    pub phase: ConnPhase,
    pub player_uuid: u128,
}

/// What the server does in answer to a frame before Play.
pub enum ConnAction {
    /// Nothing to send.
    Nothing,
    /// Send LoginSuccess for the player, then the brand.
    LoginSuccess { uuid: u128, name: String },
    /// Send the configuration packets.
    SendRegistries,
    /// Configuration is done: run the Play phase for the player.
    EnterPlay { uuid: u128 },
}

/// Why a connection is closed before Play.
#[derive(Debug, Clone, Copy, PartialEq, Eq, Structural)]
pub enum ServerError {
    /// The first frame was not a Handshake.
    ExpectedHandshake(i32),
    /// The Handshake asked for another state than Login.
    ExpectedLogin(i32),
    /// A field could not be read.
    Malformed(ReadFault),
}

/// The serverbound FinishConfiguration packet ID.
pub const SB_FINISH_CONFIGURATION: i32 = 0x03;

/// Reading a VarInt field of a frame.
pub open spec fn spec_varint_field(s: Seq<u8>) -> Result<(int, Seq<u8>), ReadFault> {
    match decode_varint(s) {
        Ok((v, n)) => Ok((v, s.skip(n as int))),
        Err(e) => Err(ReadFault::VarInt(e)),
    }
}

/// What a Handshake frame gives: the next state, a read fault, or `None`
/// where the reader would panic (no room for the port).
pub open spec fn spec_handshake_next(s: Seq<u8>) -> Option<Result<int, ReadFault>> {
    match spec_varint_field(s) {
        Err(f) => Some(Err(f)),
        Ok((_, r1)) => match spec_read_string(r1) {
            Err(f) => Some(Err(f)),
            Ok((_, r2)) => if r2.len() < 2 {
                None
            } else {
                match spec_varint_field(r2.skip(2)) {
                    Err(f) => Some(Err(f)),
                    Ok((next, _)) => Some(Ok(next)),
                }
            },
        },
    }
}

/// What a LoginStart frame gives: the name and UUID, a read fault, or `None`
/// where the reader would panic (no room for the UUID).
pub open spec fn spec_login_start(s: Seq<u8>) -> Option<Result<(Seq<char>, u128), ReadFault>> {
    match spec_read_string(s) {
        Err(f) => Some(Err(f)),
        Ok((name, r)) => if r.len() < 16 {
            None
        } else {
            Some(Ok((name, be_value(r.take(16)) as u128)))
        },
    }
}

impl Connection {
    pub fn new() -> (r: Self)
        ensures
            r.phase == ConnPhase::Handshake,
            r.player_uuid == 0,
    {
        Connection { phase: ConnPhase::Handshake, player_uuid: 0 }
    }

    /// Handle frame `id` with body `data`. `None` for a frame that a
    /// fixed-size reader would run past (a Handshake without room for its
    /// port, a LoginStart without room for its UUID), on which the server
    /// panics; the connection is then unchanged.
    pub fn step(&mut self, id: i32, data: &[u8]) -> (r: Option<Result<ConnAction, ServerError>>)
        ensures
            match old(self).phase {
                ConnPhase::Handshake => if id != 0 {
                    r == Some(Err::<ConnAction, ServerError>(ServerError::ExpectedHandshake(id))) && *final(self) == *old(self)
                } else {
                    match spec_handshake_next(data@) {
                        None => r is None && *final(self) == *old(self),
                        Some(Err(f)) => r == Some(Err::<ConnAction, ServerError>(ServerError::Malformed(f))) && *final(self) == *old(self),
                        Some(Ok(next)) => if next == 2 {
                            r matches Some(Ok(ConnAction::Nothing)) && final(self).phase == ConnPhase::Login
                                && final(self).player_uuid == old(self).player_uuid
                        } else {
                            r == Some(Err::<ConnAction, ServerError>(ServerError::ExpectedLogin(next as i32))) && *final(self) == *old(self)
                        },
                    }
                },
                ConnPhase::Login => if id == 0 {
                    match spec_login_start(data@) {
                        None => r is None && *final(self) == *old(self),
                        Some(Err(f)) => r == Some(Err::<ConnAction, ServerError>(ServerError::Malformed(f))) && *final(self) == *old(self),
                        Some(Ok((name, uuid))) => (r matches Some(Ok(ConnAction::LoginSuccess { uuid: u, name: n })) && u == uuid
                            && n@ == name) && final(self).phase == ConnPhase::Login && final(self).player_uuid == uuid,
                    }
                } else if id == 3 {
                    r matches Some(Ok(ConnAction::SendRegistries)) && final(self).phase == ConnPhase::Config
                        && final(self).player_uuid == old(self).player_uuid
                } else {
                    r matches Some(Ok(ConnAction::Nothing)) && *final(self) == *old(self)
                },
                ConnPhase::Config => if id == SB_FINISH_CONFIGURATION {
                    (r matches Some(Ok(ConnAction::EnterPlay { uuid })) && uuid == old(self).player_uuid) && *final(self) == *old(self)
                } else {
                    r matches Some(Ok(ConnAction::Nothing)) && *final(self) == *old(self)
                },
            },
    {
        match self.phase {
            ConnPhase::Handshake => {
                if id != 0 {
                    return Some(Err(ServerError::ExpectedHandshake(id)));
                }
                let mut buf = bytes_copy_from_slice(data);
                let ghost s = bytes_view(buf);
                let _proto = match VarInt::read(&mut buf) {
                    Ok(v) => v,
                    Err(e) => {
                        return Some(Err(ServerError::Malformed(ReadFault::VarInt(e))));
                    },
                };
                proof {
                    crate::varint::law_varint_decode_len(s);
                }
                let ghost r1 = bytes_view(buf);
                let _addr = match read_string(&mut buf) {
                    Ok(a) => a,
                    Err(e) => {
                        return Some(Err(ServerError::Malformed(crate::packet::fault_of_error(&e))));
                    },
                };
                if bytes_remaining(&buf) < 2 {
                    return None;
                }
                let _port = get_be(&mut buf, 2);
                let ghost r3 = bytes_view(buf);
                let next = match VarInt::read(&mut buf) {
                    Ok(v) => v.0,
                    Err(e) => {
                        return Some(Err(ServerError::Malformed(ReadFault::VarInt(e))));
                    },
                };
                if next == 2 {
                    self.phase = ConnPhase::Login;
                    Some(Ok(ConnAction::Nothing))
                } else {
                    Some(Err(ServerError::ExpectedLogin(next)))
                }
            },
            ConnPhase::Login => {
                if id == 0x00 {
                    let mut buf = bytes_copy_from_slice(data);
                    let name = match read_string(&mut buf) {
                        Ok(n) => n,
                        Err(e) => {
                            return Some(Err(ServerError::Malformed(crate::packet::fault_of_error(&e))));
                        },
                    };
                    if bytes_remaining(&buf) < 16 {
                        return None;
                    }
                    let uuid = get_u128(&mut buf);
                    self.player_uuid = uuid;
                    Some(Ok(ConnAction::LoginSuccess { uuid, name }))
                } else if id == 0x03 {
                    self.phase = ConnPhase::Config;
                    Some(Ok(ConnAction::SendRegistries))
                } else {
                    Some(Ok(ConnAction::Nothing))
                }
            },
            ConnPhase::Config => {
                if id == SB_FINISH_CONFIGURATION {
                    Some(Ok(ConnAction::EnterPlay { uuid: self.player_uuid }))
                } else {
                    Some(Ok(ConnAction::Nothing))
                }
            },
        }
    }
}

/// The LoginSuccess body: the UUID, the name, no properties, then the
/// 16 bytes of `extra`.
pub fn login_success_body(uuid: u128, name: &str, extra: u128) -> (r: BytesMut)
    ensures
        bytes_mut_view(r) == be_bytes(uuid as nat, 16) + spec_string_bytes(name@) + varint_of(0) + be_bytes(extra as nat, 16),
{
    let mut body = bytes_mut_new();
    put_u128(&mut body, uuid);
    write_string(&mut body, name);
    VarInt(0i32).write(&mut body);
    put_u128(&mut body, extra);
    body
}

/// The brand plugin message: channel "minecraft:brand", brand "vanilla".
pub fn brand_body() -> (r: BytesMut)
    ensures
        bytes_mut_view(r) == spec_string_bytes("minecraft:brand"@) + spec_string_bytes("vanilla"@),
{
    let mut bb = bytes_mut_new();
    write_string(&mut bb, "minecraft:brand");
    write_string(&mut bb, "vanilla");
    proof {
        assert(bytes_mut_view(bb) =~= spec_string_bytes("minecraft:brand"@) + spec_string_bytes("vanilla"@));
    }
    bb
}

// ── The client's Play packets ────────────────────────────────

/// A serverbound Play packet, by name.
#[derive(Debug, Clone, Copy, PartialEq, Eq, Structural)]
pub enum ServerboundPlay {
    ClientTickEnd,
    AcceptTeleportation,
    ChunkBatchReceived,
    MovePlayerStatusOnly,
    MovePlayerPos,
    MovePlayerPosRot,
    MovePlayerRot,
    PlayerLoaded,
    Swing,
    ClientCommand,
    PlayerAction,
    UseItemOn,
    SetCarriedItem,
    KeepAlive,
    ChatCommand,
    Other,
}

/// What a serverbound Play packet tells the caller.
pub enum PlayEvent {
    Nothing,
    /// The player moved: `f64` bits of x, y, z.
    Moved { x: u64, y: u64, z: u64 },
    /// The player moved and turned: `f64` bits of x, y, z, `f32` bits of yaw, pitch.
    MovedAndTurned { x: u64, y: u64, z: u64, yaw: u32, pitch: u32 },
    /// The player turned: `f32` bits of yaw and pitch.
    Turned { yaw: u32, pitch: u32 },
    PlayerLoaded,
    Swing { hand: i32 },
    ClientCommand { action: i32 },
    /// A digging action at a packed position; `broke` when it finished a dig,
    /// whose block was then broken.
    PlayerAction { action: i32, pos: i64, face: i8, broke: bool },
    /// A block was placed against a packed position; the held stack lost one item.
    UseItemOn { hand: i32, pos: i64, face: i32, inside: bool },
    KeepAlive { id: i32 },
    ChatCommand { text: String },
}

/// A VarInt field read with 0 in place of a malformed one, and what follows.
pub open spec fn varint_or_zero(s: Seq<u8>) -> (int, Seq<u8>) {
    (
        match decode_varint(s) {
            Ok((v, _)) => v,
            Err(_) => 0,
        },
        s.skip(consumed(s, scan_var(s, 5), 5) as int),
    )
}

/// The big-endian number of the first `n` bytes.
pub open spec fn be_at(s: Seq<u8>, from: int, n: int) -> nat {
    be_value(s.subrange(from, from + n))
}

/// A PlayerAction body: action, position, face; `None` where it is too short
/// for the position or face (the reader panics there).
pub open spec fn spec_player_action(s: Seq<u8>) -> Option<(int, i64, i8)> {
    let (a, r) = varint_or_zero(s);
    if r.len() < 9 {
        None
    } else {
        Some((a, signed64(be_value(r.take(8))) as i64, (if r[8] < 128 { r[8] as int } else { r[8] - 256 }) as i8))
    }
}

/// A UseItemOn body: hand, position, face, inside flag; `None` where it is
/// too short for a fixed-size field (the reader panics there).
pub open spec fn spec_use_item_on(s: Seq<u8>) -> Option<(int, i64, int, bool)> {
    let (hand, r1) = varint_or_zero(s);
    if r1.len() < 8 {
        None
    } else {
        let pos = signed64(be_value(r1.take(8))) as i64;
        let (face, r2) = varint_or_zero(r1.skip(8));
        if r2.len() < 13 {
            None
        } else {
            Some((hand, pos, face, r2[12] != 0))
        }
    }
}

/// What `handle_sb_packet` makes of a packet, with `None` where the server
/// panics: a full tick counter, a short PlayerAction or UseItemOn body, a
/// finished dig when the entity IDs are used up, or a held slot outside the
/// inventory when placing.
pub open spec fn spec_play_event(kind: ServerboundPlay, s: Seq<u8>, tick: u64, held: u16, next_id: i32) -> Option<PlayEvent> {
    match kind {
        ServerboundPlay::ClientTickEnd => if tick == u64::MAX { None } else { Some(PlayEvent::Nothing) },
        ServerboundPlay::MovePlayerPos => Some(if s.len() >= 25 {
            PlayEvent::Moved { x: be_at(s, 0, 8) as u64, y: be_at(s, 8, 8) as u64, z: be_at(s, 16, 8) as u64 }
        } else {
            PlayEvent::Nothing
        }),
        ServerboundPlay::MovePlayerPosRot => Some(if s.len() >= 33 {
            PlayEvent::MovedAndTurned {
                x: be_at(s, 0, 8) as u64,
                y: be_at(s, 8, 8) as u64,
                z: be_at(s, 16, 8) as u64,
                yaw: be_at(s, 24, 4) as u32,
                pitch: be_at(s, 28, 4) as u32,
            }
        } else {
            PlayEvent::Nothing
        }),
        ServerboundPlay::MovePlayerRot => Some(if s.len() >= 9 {
            PlayEvent::Turned { yaw: be_at(s, 0, 4) as u32, pitch: be_at(s, 4, 4) as u32 }
        } else {
            PlayEvent::Nothing
        }),
        ServerboundPlay::PlayerLoaded => Some(PlayEvent::PlayerLoaded),
        ServerboundPlay::Swing => Some(PlayEvent::Swing { hand: varint_or_zero(s).0 as i32 }),
        ServerboundPlay::ClientCommand => Some(PlayEvent::ClientCommand { action: varint_or_zero(s).0 as i32 }),
        ServerboundPlay::PlayerAction => match spec_player_action(s) {
            Some((a, pos, face)) => if a == 2 && next_id == i32::MAX {
                None
            } else {
                Some(PlayEvent::PlayerAction { action: a as i32, pos, face, broke: a == 2 })
            },
            None => None,
        },
        ServerboundPlay::UseItemOn => match spec_use_item_on(s) {
            Some((hand, pos, face, inside)) => if (held as int) < crate::server_state::INVENTORY_SIZE {
                Some(PlayEvent::UseItemOn { hand: hand as i32, pos, face: face as i32, inside })
            } else {
                None
            },
            None => None,
        },
        ServerboundPlay::KeepAlive => Some(PlayEvent::KeepAlive { id: varint_or_zero(s).0 as i32 }),
        _ => Some(PlayEvent::Nothing),
    }
}

/// Reads a VarInt, 0 where it is malformed.
fn read_varint_or_zero(buf: &mut Bytes) -> (r: i32)
    ensures
        r == varint_or_zero(bytes_view(*old(buf))).0,
        bytes_view(*final(buf)) == varint_or_zero(bytes_view(*old(buf))).1,
{
    match VarInt::read(buf) {
        Ok(v) => v.0,
        Err(_) => 0,
    }
}

/// The hotbar slot that SetCarriedItem selects: the VarInt read (0 when
/// malformed) where it is a hotbar slot 0–8, else the slot held before.
pub open spec fn spec_carried_slot(s: Seq<u8>, held: u16) -> u16 {
    let v = varint_or_zero(s).0;
    if 0 <= v <= 8 { v as u16 } else { held }
}

/// Handle a serverbound Play packet of kind `kind` with body `body`: the
/// tick advances on ClientTickEnd, the held hotbar slot changes on
/// SetCarriedItem (values outside 0–8 are ignored), a finished dig breaks
/// its block (an item entity with UUID `uuid` spawns at the block's centre),
/// placing a block uses up a held item; everything else is reported. `None`
/// where the server panics; the state is then unchanged.
pub fn handle_sb_packet(state: &mut ServerState, kind: ServerboundPlay, body: &[u8], uuid: u128) -> (r: Option<PlayEvent>)
    requires
        old(state).well_formed(),
    ensures
        final(state).well_formed(),
        kind != ServerboundPlay::ChatCommand ==> match spec_play_event(
            kind,
            body@,
            old(state).tick_count,
            old(state).held_slot,
            old(state).next_entity_id,
        ) {
            None => r is None,
            Some(e) => r == Some(e),
        },
        kind == ServerboundPlay::ChatCommand ==> match spec_read_string(body@) {
            Ok((text, _)) => r matches Some(PlayEvent::ChatCommand { text: t }) && t@ == text,
            Err(_) => r matches Some(PlayEvent::Nothing),
        },
        r is None ==> *final(state) == *old(state),
        r is Some ==> *final(state) == (match kind {
            ServerboundPlay::ClientTickEnd => ServerState { tick_count: (old(state).tick_count + 1) as u64, ..*old(state) },
            ServerboundPlay::SetCarriedItem => ServerState {
                held_slot: spec_carried_slot(body@, old(state).held_slot),
                ..*old(state)
            },
            ServerboundPlay::UseItemOn => ServerState { inventory: final(state).inventory, ..*old(state) },
            ServerboundPlay::PlayerAction => if r matches Some(PlayEvent::PlayerAction { broke: true, .. }) {
                *final(state)
            } else {
                *old(state)
            },
            _ => *old(state),
        }),
        r matches Some(PlayEvent::PlayerAction { pos, broke: true, .. }) ==> {
            let (x, y, z) = spec_block_pos(pos);
            broke_block(
                *old(state),
                *final(state),
                pos,
                uuid,
                center_bits(x as int) as u64,
                center_bits(y as int) as u64,
                center_bits(z as int) as u64,
            )
        },
        r is Some && kind == ServerboundPlay::UseItemOn ==> final(state).inventory@ == old(state).inventory@.update(
            old(state).held_slot as int,
            match old(state).inventory@[old(state).held_slot as int] {
                Some(st) => if st.count > 1 {
                    Some(crate::server_state::ItemStack { item_id: st.item_id, count: (st.count - 1) as i32 })
                } else {
                    None
                },
                None => None,
            },
        ),
{
    let mut buf = bytes_copy_from_slice(body);
    let ghost s = body@;
    match kind {
        ServerboundPlay::ClientTickEnd => {
            if state.tick_count == u64::MAX {
                return None;
            }
            state.advance_tick();
            Some(PlayEvent::Nothing)
        },
        ServerboundPlay::MovePlayerPos => {
            if bytes_remaining(&buf) >= 25 {
                let x = get_u64(&mut buf);
                let y = get_u64(&mut buf);
                let z = get_u64(&mut buf);
                proof {
                    assert(s.take(8) =~= s.subrange(0, 8));
                    assert(s.skip(8).take(8) =~= s.subrange(8, 16));
                    assert(s.skip(8).skip(8).take(8) =~= s.subrange(16, 24));
                }
                Some(PlayEvent::Moved { x, y, z })
            } else {
                Some(PlayEvent::Nothing)
            }
        },
        ServerboundPlay::MovePlayerPosRot => {
            if bytes_remaining(&buf) >= 33 {
                let x = get_u64(&mut buf);
                let y = get_u64(&mut buf);
                let z = get_u64(&mut buf);
                let yaw = get_be(&mut buf, 4) as u32;
                let pitch = get_be(&mut buf, 4) as u32;
                proof {
                    assert(s.take(8) =~= s.subrange(0, 8));
                    assert(s.skip(8).take(8) =~= s.subrange(8, 16));
                    assert(s.skip(8).skip(8).take(8) =~= s.subrange(16, 24));
                    assert(s.skip(8).skip(8).skip(8).take(4) =~= s.subrange(24, 28));
                    assert(s.skip(8).skip(8).skip(8).skip(4).take(4) =~= s.subrange(28, 32));
                    crate::buffers::lemma_be_value_bound(s.subrange(24, 28));
                    crate::buffers::lemma_be_value_bound(s.subrange(28, 32));
                    reveal_with_fuel(crate::buffers::pow256, 5);
                }
                Some(PlayEvent::MovedAndTurned { x, y, z, yaw, pitch })
            } else {
                Some(PlayEvent::Nothing)
            }
        },
        ServerboundPlay::MovePlayerRot => {
            if bytes_remaining(&buf) >= 9 {
                let yaw = get_be(&mut buf, 4) as u32;
                let pitch = get_be(&mut buf, 4) as u32;
                proof {
                    assert(s.take(4) =~= s.subrange(0, 4));
                    assert(s.skip(4).take(4) =~= s.subrange(4, 8));
                    crate::buffers::lemma_be_value_bound(s.subrange(0, 4));
                    crate::buffers::lemma_be_value_bound(s.subrange(4, 8));
                    reveal_with_fuel(crate::buffers::pow256, 5);
                }
                Some(PlayEvent::Turned { yaw, pitch })
            } else {
                Some(PlayEvent::Nothing)
            }
        },
        ServerboundPlay::PlayerLoaded => Some(PlayEvent::PlayerLoaded),
        ServerboundPlay::Swing => {
            let hand = read_varint_or_zero(&mut buf);
            Some(PlayEvent::Swing { hand })
        },
        ServerboundPlay::ClientCommand => {
            let action = read_varint_or_zero(&mut buf);
            Some(PlayEvent::ClientCommand { action })
        },
        ServerboundPlay::PlayerAction => {
            let action = read_varint_or_zero(&mut buf);
            if bytes_remaining(&buf) < 9 {
                return None;
            }
            let pos = get_i64(&mut buf);
            let face = get_i8(&mut buf);
            let _seq = read_varint_or_zero(&mut buf);
            if action == 2 {
                if state.next_entity_id == i32::MAX {
                    return None;
                }
                let (x, y, z) = decode_block_pos(pos);
                let xb = block_center_bits(x);
                let yb = block_center_bits(y);
                let zb = block_center_bits(z);
                state.break_block(pos, uuid, xb, yb, zb);
            }
            Some(PlayEvent::PlayerAction { action, pos, face, broke: action == 2 })
        },
        ServerboundPlay::UseItemOn => {
            let hand = read_varint_or_zero(&mut buf);
            if bytes_remaining(&buf) < 8 {
                return None;
            }
            let pos = get_i64(&mut buf);
            let face = read_varint_or_zero(&mut buf);
            if bytes_remaining(&buf) < 13 {
                return None;
            }
            let ghost r2 = bytes_view(buf);
            let _cx = get_be(&mut buf, 4);
            let _cy = get_be(&mut buf, 4);
            let _cz = get_be(&mut buf, 4);
            let inside_byte = bytes_get_u8(&mut buf);
            proof {
                assert(inside_byte == r2[12]);
            }
            let _seq = read_varint_or_zero(&mut buf);
            if state.held_slot as usize >= crate::server_state::INVENTORY_SIZE {
                return None;
            }
            state.use_held_item();
            Some(PlayEvent::UseItemOn { hand, pos, face, inside: inside_byte != 0 })
        },
        ServerboundPlay::SetCarriedItem => {
            let v = read_varint_or_zero(&mut buf);
            if 0 <= v && v <= 8 {
                state.held_slot = v as u16;
            }
            Some(PlayEvent::Nothing)
        },
        ServerboundPlay::KeepAlive => {
            let id = read_varint_or_zero(&mut buf);
            Some(PlayEvent::KeepAlive { id })
        },
        ServerboundPlay::ChatCommand => {
            match read_string(&mut buf) {
                Ok(text) => Some(PlayEvent::ChatCommand { text }),
                Err(_) => Some(PlayEvent::Nothing),
            }
        },
        _ => Some(PlayEvent::Nothing),
    }
}

} // verus!
