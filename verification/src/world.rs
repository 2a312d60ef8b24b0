//! Lookups across a world by world coordinates: which region and chunk hold
//! a position, and what a block lookup reports. Loading region files is left
//! to the caller.
use vstd::prelude::*;
use vstd::string::StringSliceAdditionalSpecFns;
use crate::column::{heightmaps_view, top_heightmap, Chunk};
use crate::chunk::{packed_in_bounds, spec_extract_packed};
use crate::text::str_eq;
use crate::compress::{gzip_decompress, gzip_inflate};
use crate::nbt::{first_named, find_entry, spec_root, tree_field, NbtError, NbtTree, NbtValue, Parsed};

verus! {

// ── level.dat ────────────────────────────────────────────────

/// What a world's level.dat tells: its name and data version, where its
/// `Data` compound holds them with the right types.
pub struct LevelInfo {
    pub level_name: Option<String>,
    pub data_version: Option<i32>,
}

/// The level name that a level.dat root holds: `Data.LevelName`, a string.
pub open spec fn spec_level_name(root: NbtTree) -> Option<Seq<char>> {
    match tree_field(root, "Data"@) {
        Some(NbtTree::Compound(es)) => match first_named(es, "LevelName"@) {
            Some(NbtTree::Str(c)) => Some(c),
            _ => None,
        },
        _ => None,
    }
}

/// The data version that a level.dat root holds: `Data.DataVersion`, an int.
pub open spec fn spec_data_version(root: NbtTree) -> Option<i32> {
    match tree_field(root, "Data"@) {
        Some(NbtTree::Compound(es)) => match first_named(es, "DataVersion"@) {
            Some(NbtTree::Int(i)) => Some(i),
            _ => None,
        },
        _ => None,
    }
}

/// Decode a level.dat file: gunzip it (the decoder's error where that
/// fails), read its root compound (`None` where the NBT reader would panic,
/// the NBT error where it fails), and take the level name and data version
/// from its `Data` compound.
pub fn read_level_dat(raw: &[u8]) -> (r: Result<Option<Result<LevelInfo, NbtError>>, std::io::Error>)
    ensures
        r is Err <==> gzip_inflate(raw@) is None,
        gzip_inflate(raw@) matches Some(d) ==> match spec_root(d) {
            Parsed::Panic => r matches Ok(None),
            Parsed::Fail(e) => r matches Ok(Some(Err(e2))) && e2 == e,
            Parsed::Done(root, _) => r matches Ok(Some(Ok(info))) && (match spec_level_name(root) {
                Some(c) => info.level_name matches Some(s) && s@ == c,
                None => info.level_name is None,
            }) && info.data_version == spec_data_version(root),
        },
{
    let data = match gzip_decompress(raw) {
        Ok(d) => d,
        Err(e) => {
            return Err(e);
        },
    };
    let root = match NbtValue::try_read_compound(data.as_slice()) {
        None => {
            return Ok(None);
        },
        Some(Err(e)) => {
            return Ok(Some(Err(e)));
        },
        Some(Ok((root, _))) => root,
    };
    let mut info = LevelInfo { level_name: None, data_version: None };
    match root.get_compound("Data") {
        Some(entries) => {
            match find_entry(entries, "LevelName") {
                Some(NbtValue::String(name)) => {
                    info.level_name = Some(name.clone());
                },
                _ => {},
            }
            match find_entry(entries, "DataVersion") {
                Some(NbtValue::Int(v)) => {
                    info.data_version = Some(*v);
                },
                _ => {},
            }
        },
        None => {},
    }
    Ok(Some(Ok(info)))
}

/// The region holding chunk (`chunk_x`, `chunk_z`).
pub fn region_of_chunk(chunk_x: i32, chunk_z: i32) -> (r: (i32, i32))
    ensures
        r == (chunk_x >> 5u32, chunk_z >> 5u32),
{
    (chunk_x >> 5u32, chunk_z >> 5u32)
}

/// The chunk holding world column (`world_x`, `world_z`).
pub fn chunk_of_block(world_x: i32, world_z: i32) -> (r: (i32, i32))
    ensures
        r == (world_x >> 4u32, world_z >> 4u32),
{
    (world_x >> 4u32, world_z >> 4u32)
}

/// What a world lookup reports for a block name: nothing for air or an
/// empty name, else the name.
pub fn reported_block_name(name: &str) -> (r: Option<String>)
    ensures
        (name@ == "minecraft:air"@ || name@.len() == 0) ==> r is None,
        !(name@ == "minecraft:air"@ || name@.len() == 0) ==> (r matches Some(s) && s@ == name@),
{
    if str_eq(name, "minecraft:air") || name.as_bytes().len() == 0 {
        proof {
            if name.spec_bytes().len() == 0 {
                vstd::utf8::encode_utf8_decode_utf8(name@);
                assert(vstd::utf8::encode_utf8(name@) =~= Seq::<u8>::empty());
                assert(vstd::utf8::decode_utf8(Seq::<u8>::empty()) =~= Seq::<char>::empty());
            }
        }
        None
    } else {
        proof {
            if name@.len() == 0 {
                assert(name@ =~= Seq::<char>::empty());
                assert(vstd::utf8::encode_utf8(name@).len() == 0);
            }
        }
        Some(name.to_owned())
    }
}

/// The name of the block at world (x, y, z) of a loaded chunk, as a world
/// lookup reports it.
pub fn block_name_in_chunk(chunk: &Chunk, world_x: i32, world_y: i32, world_z: i32) -> (r: Option<String>)
    requires
        match chunk.section_of(world_y) {
            Some(i) => chunk.sections@[i].can_index(
                (world_x & 15) as nat,
                (world_y & 15) as nat,
                (world_z & 15) as nat,
            ),
            None => true,
        },
    ensures
        ({
            let name = match chunk.section_of(world_y) {
                Some(i) => chunk.sections@[i].spec_block_name(
                    (world_x & 15) as nat,
                    (world_y & 15) as nat,
                    (world_z & 15) as nat,
                ),
                None => "minecraft:air"@,
            };
            &&& (name == "minecraft:air"@ || name.len() == 0) ==> r is None
            &&& !(name == "minecraft:air"@ || name.len() == 0) ==> (r matches Some(s) && s@ == name)
        }),
{
    let name = chunk.get_block(world_x, world_y, world_z);
    reported_block_name(name)
}

/// The top Y of world column (x, z) of a loaded chunk, read from its heightmap.
pub fn top_y_in_chunk(chunk: &Chunk, world_x: i32, world_z: i32) -> (r: Option<i32>)
    requires
        match top_heightmap(heightmaps_view(chunk.heightmaps@)) {
            Some(a) => packed_in_bounds(a.len(), 9, ((world_z & 15) as nat) * 16 + (world_x & 15) as nat),
            None => true,
        },
    ensures
        match top_heightmap(heightmaps_view(chunk.heightmaps@)) {
            Some(a) => r == Some(
                spec_extract_packed(a, 9, ((world_z & 15) as nat) * 16 + (world_x & 15) as nat) as i32,
            ),
            None => r is None,
        },
{
    proof {
        assert(0 <= world_x & 15 <= 15) by (bit_vector);
        assert(0 <= world_z & 15 <= 15) by (bit_vector);
    }
    let lx = (world_x & 15) as u8;
    let lz = (world_z & 15) as u8;
    chunk.get_top_y(lx, lz)
}

} // verus!
