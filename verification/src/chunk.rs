//! Chunk data: block states, biomes, block entities and heightmaps of a
//! Minecraft chunk (26.x format), read from its NBT structure.
//!
//! ```text
//! Chunk [x, z]
//!   ├─ DataVersion: i32, xPos: i32, zPos: i32, Status: String
//!   ├─ sections: List<Compound>
//!   │   ├─ Y: Byte
//!   │   ├─ block_states: { palette: List<{ Name, Properties? }>, data: LongArray }
//!   │   └─ biomes: { palette: List<String>, data: LongArray }
//!   ├─ block_entities: List<Compound>
//!   └─ Heightmaps: Compound
//! ```
use vstd::prelude::*;
use vstd::arithmetic::power2::{pow2, lemma_pow2_pos};
use vstd::bits::{lemma_u64_shl_is_mul, lemma_u64_pow2_no_overflow};
use crate::buffers::unsigned64;

verus! {

// ── Packed arrays ────────────────────────────────────────────

/// Word `k` of a packed array as an unsigned number; 0 past the end.
pub open spec fn packed_word(data: Seq<i64>, k: int) -> nat {
    if 0 <= k < data.len() { unsigned64(data[k] as int) } else { 0 }
}

/// Entry `index` of an array packed `bits` to an entry, least significant bits
/// first, across word boundaries: the `bits` bits that start at bit
/// `index * bits` of the little-endian concatenation of the words.
pub open spec fn spec_extract_packed(data: Seq<i64>, bits: nat, index: nat) -> nat {
    if bits == 0 {
        0
    } else {
        let offset = index * bits;
        let word = offset / 64;
        let shift = offset % 64;
        ((packed_word(data, word as int) + packed_word(data, (word + 1) as int) * pow2(64)) / pow2(shift as nat))
            % pow2(bits)
    }
}

/// The word that entry `index` starts in lies in the array (the reader indexes
/// that word without a check).
pub open spec fn packed_in_bounds(len: nat, bits: nat, index: nat) -> bool {
    bits == 0 || (index * bits <= u64::MAX && (index * bits) / 64 < len)
}

/// Extract a value from the packed long array.
///
/// `bits` = bits per entry (0–64)
/// `index` = which entry to extract
pub fn extract_packed(data: &[i64], bits: u8, index: usize) -> (r: u64)
    requires
        bits <= 64,
        packed_in_bounds(data@.len(), bits as nat, index as nat),
    ensures
        r == spec_extract_packed(data@, bits as nat, index as nat),
{
    if bits == 0 {
        return 0;
    }
    let b = bits as u64;
    let bit_offset = index as u64 * b;
    let long_idx = (bit_offset / 64) as usize;
    let shift = bit_offset % 64;
    let low: u64 = if data[long_idx] >= 0 { data[long_idx] as u64 } else { (data[long_idx] as i128 + 0x1_0000_0000_0000_0000) as u64 };
    if bits == 64 {
        proof {
            assert((index as int * 64) % 64 == 0) by {
                vstd::arithmetic::div_mod::lemma_mod_multiples_basic(index as int, 64);
            }
            assert(shift == 0);
            assert(pow2(0) == 1) by {
                vstd::arithmetic::power2::lemma2_to64();
            }
            assert(pow2(64) == 0x1_0000_0000_0000_0000) by {
                vstd::arithmetic::power2::lemma2_to64_rest();
            }
            let h = packed_word(data@, (long_idx + 1) as int);
            assert((low + h * 0x1_0000_0000_0000_0000) % 0x1_0000_0000_0000_0000 == low) by (nonlinear_arith)
                requires
                    low < 0x1_0000_0000_0000_0000,
                    h >= 0,
            {
                vstd::arithmetic::div_mod::lemma_mod_multiples_vanish(h as int, low as int, 0x1_0000_0000_0000_0000);
                vstd::arithmetic::div_mod::lemma_small_mod(low as nat, 0x1_0000_0000_0000_0000);
            }
        }
        return low;
    }
    let high: u64 = if long_idx + 1 < data.len() {
        let h = data[long_idx + 1];
        if h >= 0 { h as u64 } else { (h as i128 + 0x1_0000_0000_0000_0000) as u64 }
    } else {
        0
    };
    proof {
        lemma_u64_pow2_no_overflow(shift as nat);
        lemma_u64_pow2_no_overflow(b as nat);
        lemma_u64_shl_is_mul(1, shift);
        lemma_u64_shl_is_mul(1, b);
        lemma_pow2_pos(shift as nat);
        lemma_pow2_pos(b as nat);
        assert(pow2(64) == 0x1_0000_0000_0000_0000) by {
            vstd::arithmetic::power2::lemma2_to64_rest();
        }
    }
    let divisor = 1u64 << shift;
    let modulus = 1u64 << b;
    let combined: u128 = low as u128 + (high as u128) * 0x1_0000_0000_0000_0000;
    let value = (combined / (divisor as u128)) % (modulus as u128);
    proof {
        assert(value < modulus);
    }
    value as u64
}

/// The bits per entry that a palette of `size` entries needs, starting from 4.
pub open spec fn least_bits(b: nat, size: nat) -> nat
    decreases 64 - b,
{
    if b >= 64 || pow2(b) >= size {
        b
    } else {
        least_bits(b + 1, size)
    }
}

/// Above 2^16 entries no width below 17 bits suffices.
proof fn lemma_least_bits_cap(b: nat, size: nat)
    requires
        4 <= b <= 64,
        size > 0x1_0000,
        b <= 16 ==> pow2(b) < size,
    ensures
        least_bits(b, size) >= 17,
    decreases 64 - b,
{
    if b < 64 && pow2(b) < size {
        assert(pow2(16) == 0x1_0000) by {
            vstd::arithmetic::power2::lemma2_to64();
        }
        if b + 1 < 16 {
            vstd::arithmetic::power2::lemma_pow2_strictly_increases(b + 1, 16);
        }
        lemma_least_bits_cap(b + 1, size);
    }
}

/// Bits per block for a palette: none for at most one entry, else the fewest
/// from 4 up that index every entry, at most 16.
pub open spec fn spec_bits_per_block(size: nat) -> nat {
    if size <= 1 {
        0
    } else {
        let b = least_bits(4, size);
        if b < 16 { b } else { 16 }
    }
}

/// Calculate bits per block from palette size.
pub fn calculate_bits_per_block(palette_size: usize) -> (r: u8)
    ensures
        r == spec_bits_per_block(palette_size as nat),
{
    if palette_size <= 1 {
        return 0;
    }
    if palette_size > 0x1_0000 {
        proof {
            assert(pow2(4) == 16) by {
                vstd::arithmetic::power2::lemma2_to64();
            }
            lemma_least_bits_cap(4, palette_size as nat);
        }
        return 16;
    }
    let mut bits: u8 = 4;
    proof {
        assert(pow2(63) == 0x8000_0000_0000_0000) by {
            vstd::arithmetic::power2::lemma2_to64_rest();
        }
    }
    loop
        invariant
            4 <= bits <= 63,
            least_bits(4, palette_size as nat) == least_bits(bits as nat, palette_size as nat),
            palette_size <= 0x8000_0000_0000_0000,
            pow2(63) == 0x8000_0000_0000_0000,
        ensures
            4 <= bits <= 63,
            least_bits(4, palette_size as nat) == bits,
        decreases 64 - bits,
    {
        proof {
            lemma_u64_pow2_no_overflow(bits as nat);
            lemma_u64_shl_is_mul(1, bits as u64);
        }
        if (1u64 << bits) >= palette_size as u64 {
            break;
        }
        proof {
            if bits == 63 {
                assert(false);
            }
        }
        bits = bits + 1;
    }
    if bits < 16 {
        bits
    } else {
        16
    }
}

// ── Sections ─────────────────────────────────────────────────

/// A block state entry from the palette.
#[derive(Debug, Clone)]
pub struct BlockState {
    /// The namespaced block name, e.g. "minecraft:stone".
    pub name: String,
    /// Block properties, e.g. {"facing": "north", "waterlogged": "false"}.
    pub properties: Vec<(String, String)>,
}

/// Two block states hold the same name and the same properties in order.
pub open spec fn same_state(a: BlockState, b: BlockState) -> bool {
    &&& a.name@ == b.name@
    &&& a.properties@.len() == b.properties@.len()
    &&& forall|i: int| 0 <= i < a.properties@.len() ==> (#[trigger] a.properties@[i]).0@ == b.properties@[i].0@
        && a.properties@[i].1@ == b.properties@[i].1@
}

/// A copy of a block state.
pub fn copy_state(b: &BlockState) -> (r: BlockState)
    ensures
        same_state(r, *b),
{
    let mut props: Vec<(String, String)> = Vec::new();
    let mut i: usize = 0;
    while i < b.properties.len()
        invariant
            i <= b.properties@.len(),
            props@.len() == i,
            forall|j: int| 0 <= j < i ==> (#[trigger] props@[j]).0@ == b.properties@[j].0@
                && props@[j].1@ == b.properties@[j].1@,
        decreases b.properties@.len() - i,
    {
        let k = b.properties[i].0.clone();
        let v = b.properties[i].1.clone();
        props.push((k, v));
        i += 1;
    }
    BlockState { name: b.name.clone(), properties: props }
}

/// A single section (16×16×16 block volume) within a chunk.
#[derive(Debug)]
pub struct ChunkSection {
    /// Section Y index (0 = bottom of world at y=-64 for overworld).
    pub y: i8,
    /// Block state palette — maps indices to block types.
    pub palette: Vec<BlockState>,
    /// Packed block indices: each entry is `bits_per_block` wide, stored in `data`.
    pub block_data: Vec<i64>,
    /// Bits per block entry (derived from palette size).
    pub bits_per_block: u8,
    /// Biome palette (namespaced biome IDs).
    pub biome_palette: Vec<String>,
    /// Packed biome indices.
    pub biome_data: Vec<i64>,
}

/// The entry of a block at local (x, y, z), in YZX order.
pub open spec fn block_entry(x: nat, y: nat, z: nat) -> nat {
    y * 256 + z * 16 + x
}

/// Total blocks in a section (16³ = 4096).
pub const BLOCKS_PER_SECTION: usize = 4096;

impl ChunkSection {
    /// The reader can look up local (x, y, z): the entry number fits in a `usize`
    /// and its packed word lies in the block data.
    pub open spec fn can_index(&self, x: nat, y: nat, z: nat) -> bool {
        &&& block_entry(x, y, z) <= usize::MAX
        &&& (self.bits_per_block == 0 || self.palette@.len() <= 1 || (self.bits_per_block <= 64
            && packed_in_bounds(self.block_data@.len(), self.bits_per_block as nat, block_entry(x, y, z))))
    }

    /// The palette index of the block at local (x, y, z) (the packed entry, as
    /// a `usize`).
    pub open spec fn spec_palette_index(&self, x: nat, y: nat, z: nat) -> nat {
        if self.bits_per_block == 0 || self.palette@.len() <= 1 {
            0
        } else {
            (spec_extract_packed(self.block_data@, self.bits_per_block as nat, block_entry(x, y, z)) as u64 as usize) as nat
        }
    }

    /// Get the palette index at local (x, y, z) within this section.
    /// Coordinates are 0–15.
    pub fn palette_index(&self, x: usize, y: usize, z: usize) -> (r: usize)
        requires
            self.can_index(x as nat, y as nat, z as nat),
        ensures
            r == self.spec_palette_index(x as nat, y as nat, z as nat),
    {
        if self.bits_per_block == 0 || self.palette.len() <= 1 {
            return 0;
        }
        let idx = y * 256 + z * 16 + x;
        let v = extract_packed(self.block_data.as_slice(), self.bits_per_block, idx);
        v as usize
    }

    /// Get the block state at local (x, y, z): its palette entry, or the
    /// unnamed air block (empty name, no properties) where the index lies
    /// outside the palette.
    pub fn get_block(&self, x: usize, y: usize, z: usize) -> (r: BlockState)
        requires
            self.can_index(x as nat, y as nat, z as nat),
        ensures
            ({
                let i = self.spec_palette_index(x as nat, y as nat, z as nat);
                if i < self.palette@.len() {
                    same_state(r, self.palette@[i as int])
                } else {
                    r.name@ == Seq::<char>::empty() && r.properties@.len() == 0
                }
            }),
    {
        match self.palette_entry(x, y, z) {
            Some(b) => copy_state(b),
            None => {
                let r = BlockState { name: String::new(), properties: Vec::new() };
                proof {
                    assert(r.properties@ =~= Seq::<(String, String)>::empty());
                }
                r
            },
        }
    }

    /// The palette entry of the block at local (x, y, z); `None` where the
    /// index lies outside the palette (unnamed air).
    pub(crate) fn palette_entry(&self, x: usize, y: usize, z: usize) -> (r: Option<&BlockState>)
        requires
            self.can_index(x as nat, y as nat, z as nat),
        ensures
            self.spec_palette_index(x as nat, y as nat, z as nat) < self.palette@.len() ==> r
                == Some(&self.palette@[self.spec_palette_index(x as nat, y as nat, z as nat) as int]),
            self.spec_palette_index(x as nat, y as nat, z as nat) >= self.palette@.len() ==> r is None,
    {
        let idx = self.palette_index(x, y, z);
        if idx < self.palette.len() {
            Some(&self.palette[idx])
        } else {
            None
        }
    }

    /// The name of the block at local (x, y, z): empty where the index lies outside the palette.
    pub open spec fn spec_block_name(&self, x: nat, y: nat, z: nat) -> Seq<char> {
        let i = self.spec_palette_index(x, y, z);
        if i < self.palette@.len() {
            self.palette@[i as int].name@
        } else {
            Seq::empty()
        }
    }

    /// Get the block name at local (x, y, z).
    pub fn get_block_name(&self, x: usize, y: usize, z: usize) -> (r: &str)
        requires
            self.can_index(x as nat, y as nat, z as nat),
        ensures
            r@ == self.spec_block_name(x as nat, y as nat, z as nat),
    {
        match self.palette_entry(x, y, z) {
            Some(b) => b.name.as_str(),
            None => {
                let e = "";
                proof {
                    reveal_strlit("");
                }
                e
            },
        }
    }

    /// Every block of the section can be looked up.
    pub open spec fn well_formed(&self) -> bool {
        forall|x: nat, y: nat, z: nat| x < 16 && y < 16 && z < 16 ==> self.can_index(x, y, z)
    }

    /// Whether every block of the section can be looked up (`well_formed`).
    pub fn lookups_ok(&self) -> (r: bool)
        ensures
            r == self.well_formed(),
    {
        if self.bits_per_block == 0 || self.palette.len() <= 1 {
            return true;
        }
        if self.bits_per_block > 64 {
            proof {
                assert(!self.can_index(0, 0, 0));
            }
            return false;
        }
        let bits = self.bits_per_block as u64;
        let last = 4095u64 * bits;
        let ok = last / 64 < self.block_data.len() as u64;
        proof {
            if ok {
                assert forall|x: nat, y: nat, z: nat| x < 16 && y < 16 && z < 16 implies self.can_index(x, y, z) by {
                    let e = block_entry(x, y, z);
                    assert(e <= 4095);
                    assert(e * bits <= 4095 * bits) by (nonlinear_arith)
                        requires
                            e <= 4095,
                    ;
                    vstd::arithmetic::div_mod::lemma_div_is_ordered((e * bits) as int, (4095 * bits) as int, 64);
                }
            } else {
                assert(block_entry(15, 15, 15) == 4095);
                assert(!self.can_index(15, 15, 15));
            }
        }
        ok
    }

    /// Iterate over all non-air blocks in this section.
    pub fn iter_non_air(&self) -> (r: BlockIter<'_>)
        ensures
            r.section == self,
            r.index == 0,
    {
        BlockIter { section: self, index: 0 }
    }

    /// The biome index at local (x, z): biomes are read per 4×4 column at the
    /// section's base, packed 4 bits to an entry.
    pub open spec fn biome_entry(x: nat, z: nat) -> nat {
        (z / 4) * 4 + x / 4
    }

    /// Get the biome at local (x, y, z). Biomes are stored per 4×4×4 volume;
    /// this reads the one at the section's base (y = 0).
    pub fn get_biome(&self, x: usize, _y: usize, z: usize) -> (r: Option<&str>)
        requires
            (z / 4) * 4 + x / 4 <= usize::MAX,
            self.biome_data@.len() > 0 ==> packed_in_bounds(
                self.biome_data@.len(),
                4,
                Self::biome_entry(x as nat, z as nat),
            ),
        ensures
            ({
                let i = spec_extract_packed(self.biome_data@, 4, Self::biome_entry(x as nat, z as nat));
                if self.biome_palette@.len() == 0 || self.biome_data@.len() == 0 {
                    r is None
                } else if i < self.biome_palette@.len() {
                    r matches Some(b) && b@ == self.biome_palette@[i as int]@
                } else {
                    r is None
                }
            }),
    {
        if self.biome_palette.len() == 0 || self.biome_data.len() == 0 {
            return None;
        }
        let biome_idx = (z / 4) * 4 + (x / 4);
        let idx = extract_packed(self.biome_data.as_slice(), 4, biome_idx);
        if idx < self.biome_palette.len() as u64 {
            Some(self.biome_palette[idx as usize].as_str())
        } else {
            None
        }
    }
}

/// Iterator over non-air blocks in a section.
pub struct BlockIter<'a> {
    pub section: &'a ChunkSection,
    pub index: usize,
}

/// Whether block `i` of a section (in YZX order) is air: a palette entry
/// named "minecraft:air", or an index outside the palette (unnamed air).
pub open spec fn is_air(sec: &ChunkSection, i: nat) -> bool {
    sec.spec_palette_index(i % 16, (i / 256) % 16, (i / 16) % 16) >= sec.palette@.len()
        || sec.spec_block_name(i % 16, (i / 256) % 16, (i / 16) % 16) == "minecraft:air"@
}

impl<'a> BlockIter<'a> {
    /// The next block that is not air, with its local (x, y, z) and its
    /// palette entry.
    pub fn next(&mut self) -> (r: Option<(usize, usize, usize, &'a BlockState)>)
        requires
            old(self).section.well_formed(),
        ensures
            final(self).section == old(self).section,
            match r {
                None => final(self).index >= BLOCKS_PER_SECTION && forall|i: nat|
                    old(self).index <= i < BLOCKS_PER_SECTION ==> is_air(old(self).section, i),
                Some((x, y, z, b)) => {
                    let i = (final(self).index - 1) as nat;
                    &&& old(self).index <= i < BLOCKS_PER_SECTION
                    &&& x == i % 16 && z == (i / 16) % 16 && y == (i / 256) % 16
                    &&& *b == old(self).section.palette@[old(self).section.spec_palette_index(x as nat, y as nat, z as nat) as int]
                    &&& !is_air(old(self).section, i)
                    &&& forall|j: nat| old(self).index <= j < i ==> is_air(old(self).section, j)
                },
            },
    {
        let ghost start = self.index;
        let air = "minecraft:air";
        while self.index < BLOCKS_PER_SECTION
            invariant
                self.section == old(self).section,
                self.section.well_formed(),
                start == old(self).index,
                start <= self.index || self.index >= BLOCKS_PER_SECTION,
                forall|j: nat| start <= j < self.index ==> is_air(self.section, j),
                air@ == "minecraft:air"@,
            decreases BLOCKS_PER_SECTION - self.index,
        {
            let idx = self.index;
            self.index = self.index + 1;
            let x = idx % 16;
            let z = (idx / 16) % 16;
            let y = (idx / 256) % 16;
            let block = self.section.palette_entry(x, y, z);
            match block {
                Some(b) => {
                    if !crate::text::str_eq(b.name.as_str(), air) {
                        return Some((x, y, z, b));
                    }
                },
                None => {},
            }
        }
        None
    }
}

} // verus!
