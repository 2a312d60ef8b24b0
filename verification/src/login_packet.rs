//! LoginPacket (clientbound 0x31, "join game") for Minecraft 26.2 / protocol 776.
use vstd::prelude::*;
use bytes::BytesMut;
use crate::buffers::{
    be_bytes, bytes_mut_put_u8, bytes_mut_view, bytes_mut_with_capacity, put_i32, put_i64,
    unsigned32, unsigned64,
};
use crate::config::{spec_strings_bytes, string_views};
use crate::handshake::{spec_string_bytes, write_string};
use crate::varint::{varint_of, VarInt};

verus! {

/// LoginPacket — join game packet (S→C 0x31 in Play state).
pub struct LoginPacket {
    /// Entity ID assigned to the player (i32 big-endian).
    pub entity_id: i32,
    /// Hardcore mode enabled.
    pub hardcore: bool,
    /// List of dimension names (e.g. ["minecraft:overworld", "minecraft:the_nether", "minecraft:the_end"]).
    pub dimensions: Vec<String>,
    /// Maximum number of players visible in the tab list.
    pub max_players: i32,
    /// View distance (render distance) in chunks.
    pub view_distance: i32,
    /// Simulation distance in chunks.
    pub sim_distance: i32,
    /// Hide debug info (F3 screen).
    pub reduced_debug_info: bool,
    /// Show respawn screen on death instead of immediate respawn.
    pub enable_respawn_screen: bool,
    /// Limit crafting to recipes the player has unlocked.
    pub do_limited_crafting: bool,
    /// Dimension type identifier (can be empty to use default for dimension_name).
    pub dimension_type: String,
    /// Dimension name (e.g. "minecraft:overworld").
    pub dimension_name: String,
    /// World seed (i64 big-endian).
    pub seed: i64,
    /// Default game mode (0=survival, 1=creative, 2=adventure, 3=spectator).
    pub game_type: i32,
    /// Previous game mode.
    pub previous_game_type: i32,
    /// Debug world.
    pub is_debug: bool,
    /// Superflat world.
    pub is_flat: bool,
    /// Optional death location.
    pub death_location: Option<DeathLocation>,
    /// Portal cooldown in ticks.
    pub portal_cooldown: i32,
    /// Sea level (typically 63 for overworld).
    pub sea_level: i32,
    /// Whether an envelope follows (1.21.2+).
    pub envelope_follows: bool,
}

/// Death location data (optional in LoginPacket).
pub struct DeathLocation {
    pub dimension: String,
    /// Encoded position as i64 (BlockPos packed).
    pub position: i64,
}

impl Default for LoginPacket {
    fn default() -> (r: Self)
        ensures
            r.entity_id == 0,
            !r.hardcore,
            string_views(r.dimensions@) == seq![
                "minecraft:overworld"@,
                "minecraft:the_end"@,
                "minecraft:the_nether"@,
            ],
            r.max_players == 20,
            r.view_distance == 10,
            r.sim_distance == 10,
            !r.reduced_debug_info,
            r.enable_respawn_screen,
            !r.do_limited_crafting,
            r.dimension_type@ == Seq::<char>::empty(),
            r.dimension_name@ == "minecraft:overworld"@,
            r.seed == 0,
            r.game_type == 0,
            r.previous_game_type == -1,
            !r.is_debug,
            !r.is_flat,
            r.death_location is None,
            r.portal_cooldown == 0,
            r.sea_level == 63,
            !r.envelope_follows,
    {
        let mut dimensions: Vec<String> = Vec::new();
        dimensions.push("minecraft:overworld".to_string());
        dimensions.push("minecraft:the_end".to_string());
        dimensions.push("minecraft:the_nether".to_string());
        let r = Self {
            entity_id: 0,
            hardcore: false,
            dimensions,
            max_players: 20,
            view_distance: 10,
            sim_distance: 10,
            reduced_debug_info: false,
            enable_respawn_screen: true,
            do_limited_crafting: false,
            dimension_type: String::new(),
            dimension_name: "minecraft:overworld".to_string(),
            seed: 0,
            game_type: 0,
            previous_game_type: -1,
            is_debug: false,
            is_flat: false,
            death_location: None,
            portal_cooldown: 0,
            sea_level: 63,
            envelope_follows: false,
        };
        proof {
            assert(string_views(r.dimensions@) =~= seq![
                "minecraft:overworld"@,
                "minecraft:the_end"@,
                "minecraft:the_nether"@,
            ]);
        }
        r
    }
}

/// One byte for a flag.
pub open spec fn flag_byte(b: bool) -> Seq<u8> {
    seq![if b { 1u8 } else { 0u8 }]
}

/// The bytes of the previous game mode: 127 takes the two-byte form `ff 00`
/// that a real server writes; every other value its VarInt.
pub open spec fn previous_game_type_bytes(v: i32) -> Seq<u8> {
    if v == 127 { seq![0xffu8, 0x00u8] } else { varint_of(v) }
}

/// The bytes of the optional death location.
pub open spec fn death_location_bytes(d: Option<DeathLocation>) -> Seq<u8> {
    match d {
        Some(dl) => seq![1u8] + spec_string_bytes(dl.dimension@) + be_bytes(unsigned64(dl.position as int), 8),
        None => seq![0u8],
    }
}

/// Appends one flag byte.
fn put_flag(buf: &mut BytesMut, b: bool)
    ensures
        bytes_mut_view(*final(buf)) == bytes_mut_view(*old(buf)) + flag_byte(b),
{
    bytes_mut_put_u8(buf, if b { 1 } else { 0 });
    proof {
        assert(bytes_mut_view(*buf) =~= bytes_mut_view(*old(buf)) + flag_byte(b));
    }
}

impl LoginPacket {
    /// The bytes of this packet's body.
    pub open spec fn spec_bytes(&self) -> Seq<u8> {
        be_bytes(unsigned32(self.entity_id as int), 4) + flag_byte(self.hardcore) + varint_of(
            self.dimensions@.len() as i32,
        ) + spec_strings_bytes(string_views(self.dimensions@)) + varint_of(self.max_players) + varint_of(
            self.view_distance,
        ) + varint_of(self.sim_distance) + flag_byte(self.reduced_debug_info) + flag_byte(
            self.enable_respawn_screen,
        ) + flag_byte(self.do_limited_crafting) + spec_string_bytes(self.dimension_type@)
            + spec_string_bytes(self.dimension_name@) + be_bytes(unsigned64(self.seed as int), 8)
            + varint_of(self.game_type) + previous_game_type_bytes(self.previous_game_type)
            + flag_byte(self.is_debug) + flag_byte(self.is_flat) + death_location_bytes(
            self.death_location,
        ) + varint_of(self.portal_cooldown) + varint_of(self.sea_level) + flag_byte(
            self.envelope_follows,
        )
    }

    /// Encode to bytes (body of 0x31 packet, without frame).
    #[verifier::rlimit(30)]
    pub fn to_bytes(&self) -> (r: BytesMut)
        ensures
            bytes_mut_view(r) == self.spec_bytes(),
    {
        let mut buf = bytes_mut_with_capacity(128);
        put_i32(&mut buf, self.entity_id);
        put_flag(&mut buf, self.hardcore);
        VarInt(self.dimensions.len() as i32).write(&mut buf);
        let ghost a2 = bytes_mut_view(buf);
        let ghost ds = string_views(self.dimensions@);
        let mut i: usize = 0;
        while i < self.dimensions.len()
            invariant
                i <= self.dimensions@.len(),
                ds == string_views(self.dimensions@),
                bytes_mut_view(buf) == a2 + spec_strings_bytes(ds.take(i as int)),
            decreases self.dimensions@.len() - i,
        {
            write_string(&mut buf, self.dimensions[i].as_str());
            proof {
                assert(ds.take(i + 1).drop_last() =~= ds.take(i as int));
            }
            i = i + 1;
        }
        proof {
            assert(ds.take(self.dimensions@.len() as int) =~= ds);
        }
        VarInt(self.max_players).write(&mut buf);
        VarInt(self.view_distance).write(&mut buf);
        VarInt(self.sim_distance).write(&mut buf);
        put_flag(&mut buf, self.reduced_debug_info);
        put_flag(&mut buf, self.enable_respawn_screen);
        put_flag(&mut buf, self.do_limited_crafting);
        write_string(&mut buf, self.dimension_type.as_str());
        write_string(&mut buf, self.dimension_name.as_str());
        put_i64(&mut buf, self.seed);
        VarInt(self.game_type).write(&mut buf);
        let ghost before_prev = bytes_mut_view(buf);
        if self.previous_game_type == 127 {
            bytes_mut_put_u8(&mut buf, 0xff);
            bytes_mut_put_u8(&mut buf, 0x00);
            proof {
                assert(bytes_mut_view(buf) =~= before_prev + previous_game_type_bytes(self.previous_game_type));
            }
        } else {
            VarInt(self.previous_game_type).write(&mut buf);
        }
        put_flag(&mut buf, self.is_debug);
        put_flag(&mut buf, self.is_flat);
        let ghost before_death = bytes_mut_view(buf);
        match &self.death_location {
            Some(dl) => {
                bytes_mut_put_u8(&mut buf, 1);
                write_string(&mut buf, dl.dimension.as_str());
                put_i64(&mut buf, dl.position);
                proof {
                    assert(bytes_mut_view(buf) =~= before_death + death_location_bytes(self.death_location));
                }
            },
            None => {
                bytes_mut_put_u8(&mut buf, 0);
                proof {
                    assert(bytes_mut_view(buf) =~= before_death + death_location_bytes(self.death_location));
                }
            },
        }
        VarInt(self.portal_cooldown).write(&mut buf);
        VarInt(self.sea_level).write(&mut buf);
        put_flag(&mut buf, self.envelope_follows);
        buf
    }
}

} // verus!
