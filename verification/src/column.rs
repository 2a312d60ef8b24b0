//! A whole chunk column read from its NBT root compound: sections, block
//! entities, heightmaps, and lookups by world coordinates.
use vstd::prelude::*;
use crate::chunk::{
    calculate_bits_per_block, extract_packed, is_air, packed_in_bounds, spec_bits_per_block,
    spec_extract_packed, BlockIter, BlockState, ChunkSection, BLOCKS_PER_SECTION,
};
use crate::nbt::{entry_trees, find_entry, first_named, lemma_tree_compound, lemma_tree_list, tree_field, trees, NbtTree, NbtValue};
use crate::text::{decimal, int_text, str_eq};

verus! {

// ── The model ────────────────────────────────────────────────

/// A palette entry as plain data.
pub struct BlockStateView {
    pub name: Seq<char>,
    pub properties: Seq<(Seq<char>, Seq<char>)>,
}

/// A section as plain data.
pub struct SectionView {
    pub y: i8,
    pub palette: Seq<BlockStateView>,
    pub block_data: Seq<i64>,
    pub bits_per_block: u8,
    pub biome_palette: Seq<Seq<char>>,
    pub biome_data: Seq<i64>,
}

/// A block entity as plain data.
pub struct BlockEntityView {
    pub x: i32,
    pub y: i32,
    pub z: i32,
    pub id: Seq<char>,
    pub data: Seq<(Seq<char>, NbtTree)>,
}

/// A chunk as plain data.
pub struct ChunkView {
    pub x: i32,
    pub z: i32,
    pub data_version: i32,
    pub status: Seq<char>,
    pub sections: Seq<SectionView>,
    pub block_entities: Seq<BlockEntityView>,
    pub heightmaps: Seq<(Seq<char>, Seq<i64>)>,
    pub min_y: i32,
}

pub open spec fn block_state_view(b: BlockState) -> BlockStateView {
    BlockStateView {
        name: b.name@,
        properties: b.properties@.map_values(|p: (String, String)| (p.0@, p.1@)),
    }
}

pub open spec fn palette_view(p: Seq<BlockState>) -> Seq<BlockStateView> {
    p.map_values(|b: BlockState| block_state_view(b))
}

pub open spec fn section_view(s: ChunkSection) -> SectionView {
    SectionView {
        y: s.y,
        palette: palette_view(s.palette@),
        block_data: s.block_data@,
        bits_per_block: s.bits_per_block,
        biome_palette: s.biome_palette@.map_values(|b: String| b@),
        biome_data: s.biome_data@,
    }
}

pub open spec fn sections_view(s: Seq<ChunkSection>) -> Seq<SectionView> {
    s.map_values(|c: ChunkSection| section_view(c))
}

pub open spec fn block_entity_view(b: BlockEntity) -> BlockEntityView {
    BlockEntityView { x: b.x, y: b.y, z: b.z, id: b.id@, data: entry_trees(b.data@) }
}

pub open spec fn block_entities_view(s: Seq<BlockEntity>) -> Seq<BlockEntityView> {
    s.map_values(|b: BlockEntity| block_entity_view(b))
}

pub open spec fn heightmaps_view(h: Seq<(String, Vec<i64>)>) -> Seq<(Seq<char>, Seq<i64>)> {
    h.map_values(|e: (String, Vec<i64>)| (e.0@, e.1@))
}

pub open spec fn chunk_view(c: Chunk) -> ChunkView {
    ChunkView {
        x: c.x,
        z: c.z,
        data_version: c.data_version,
        status: c.status@,
        sections: sections_view(c.sections@),
        block_entities: block_entities_view(c.block_entities@),
        heightmaps: heightmaps_view(c.heightmaps@),
        min_y: c.min_y,
    }
}

// ── What the NBT means ───────────────────────────────────────

/// A property value as text: strings as they are, ints and bytes in
/// decimal, anything else `?`.
pub open spec fn spec_property_value(t: NbtTree) -> Seq<char> {
    match t {
        NbtTree::Str(c) => c,
        NbtTree::Int(i) => decimal(i as int),
        NbtTree::Byte(b) => decimal(b as int),
        _ => "?"@,
    }
}

pub open spec fn spec_properties(es: Seq<(Seq<char>, NbtTree)>) -> Seq<(Seq<char>, Seq<char>)> {
    es.map_values(|e: (Seq<char>, NbtTree)| (e.0, spec_property_value(e.1)))
}

/// A palette entry: its `Name` (air when missing) and its `Properties`.
pub open spec fn spec_block_state(t: NbtTree) -> BlockStateView {
    BlockStateView {
        name: match tree_field(t, "Name"@) {
            Some(NbtTree::Str(c)) => c,
            _ => "minecraft:air"@,
        },
        properties: match tree_field(t, "Properties"@) {
            Some(NbtTree::Compound(es)) => spec_properties(es),
            _ => Seq::empty(),
        },
    }
}

/// The palette of a `block_states` compound, when it has a `palette` list.
pub open spec fn spec_palette(bs: Seq<(Seq<char>, NbtTree)>) -> Option<Seq<BlockStateView>> {
    match first_named(bs, "palette"@) {
        Some(NbtTree::List(vs)) => Some(vs.map_values(|t: NbtTree| spec_block_state(t))),
        _ => None,
    }
}

/// The long array named `key`, empty when there is none.
pub open spec fn longs_field(es: Seq<(Seq<char>, NbtTree)>, key: Seq<char>) -> Seq<i64> {
    match first_named(es, key) {
        Some(NbtTree::LongArray(a)) => a,
        _ => Seq::empty(),
    }
}

/// The strings of a list, in order, skipping anything else.
pub open spec fn strings_in(l: Seq<NbtTree>) -> Seq<Seq<char>>
    decreases l.len(),
{
    if l.len() == 0 {
        Seq::empty()
    } else {
        let r = strings_in(l.drop_last());
        match l.last() {
            NbtTree::Str(c) => r.push(c),
            _ => r,
        }
    }
}

/// A section: a compound with a byte `Y`; its palette, block data and bits
/// per block from `block_states` (all empty without a palette); its biomes.
pub open spec fn spec_section(t: NbtTree) -> Option<SectionView> {
    match t {
        NbtTree::Compound(es) => match first_named(es, "Y"@) {
            Some(NbtTree::Byte(y)) => {
                let (palette, block_data, bits) = match tree_field(t, "block_states"@) {
                    Some(NbtTree::Compound(bs)) => match spec_palette(bs) {
                        Some(p) => (p, longs_field(bs, "data"@), spec_bits_per_block(p.len()) as u8),
                        None => (Seq::empty(), Seq::empty(), 0u8),
                    },
                    _ => (Seq::empty(), Seq::empty(), 0u8),
                };
                let (biome_palette, biome_data) = match tree_field(t, "biomes"@) {
                    Some(NbtTree::Compound(bio)) => (
                        match first_named(bio, "palette"@) {
                            Some(NbtTree::List(l)) => strings_in(l),
                            _ => Seq::empty(),
                        },
                        longs_field(bio, "data"@),
                    ),
                    _ => (Seq::empty(), Seq::empty()),
                };
                Some(SectionView { y, palette, block_data, bits_per_block: bits, biome_palette, biome_data })
            },
            _ => None,
        },
        _ => None,
    }
}

/// A block entity: a compound with int `x`, `y`, `z` and string `id`.
pub open spec fn spec_block_entity(t: NbtTree) -> Option<BlockEntityView> {
    match t {
        NbtTree::Compound(es) => match (
            first_named(es, "x"@),
            first_named(es, "y"@),
            first_named(es, "z"@),
            first_named(es, "id"@),
        ) {
            (
                Some(NbtTree::Int(x)),
                Some(NbtTree::Int(y)),
                Some(NbtTree::Int(z)),
                Some(NbtTree::Str(id)),
            ) => Some(BlockEntityView { x, y, z, id, data: es }),
            _ => None,
        },
        _ => None,
    }
}

/// The sections of a list that parse, in order.
pub open spec fn sections_in(l: Seq<NbtTree>) -> Seq<SectionView>
    decreases l.len(),
{
    if l.len() == 0 {
        Seq::empty()
    } else {
        let r = sections_in(l.drop_last());
        match spec_section(l.last()) {
            Some(s) => r.push(s),
            None => r,
        }
    }
}

/// The block entities of a list that parse, in order.
pub open spec fn block_entities_in(l: Seq<NbtTree>) -> Seq<BlockEntityView>
    decreases l.len(),
{
    if l.len() == 0 {
        Seq::empty()
    } else {
        let r = block_entities_in(l.drop_last());
        match spec_block_entity(l.last()) {
            Some(b) => r.push(b),
            None => r,
        }
    }
}

/// The long-array entries of a compound, in order.
pub open spec fn heightmaps_in(es: Seq<(Seq<char>, NbtTree)>) -> Seq<(Seq<char>, Seq<i64>)>
    decreases es.len(),
{
    if es.len() == 0 {
        Seq::empty()
    } else {
        let r = heightmaps_in(es.drop_last());
        match es.last().1 {
            NbtTree::LongArray(a) => r.push((es.last().0, a)),
            _ => r,
        }
    }
}

/// The lowest `Y * 16` of the sections; 0 for none.
pub open spec fn spec_min_y(s: Seq<SectionView>) -> int
    decreases s.len(),
{
    if s.len() == 0 {
        0
    } else if s.len() == 1 {
        s[0].y * 16
    } else {
        let m = spec_min_y(s.drop_last());
        let v = s.last().y * 16;
        if v < m { v } else { m }
    }
}

/// A chunk: it needs int `xPos` and `zPos`; `DataVersion` defaults to 0 and
/// `Status` to "unknown"; sections, block entities and heightmaps are those
/// that parse.
pub open spec fn spec_chunk(t: NbtTree) -> Option<ChunkView> {
    match (tree_field(t, "xPos"@), tree_field(t, "zPos"@)) {
        (Some(NbtTree::Int(x)), Some(NbtTree::Int(z))) => {
            let sections = match tree_field(t, "sections"@) {
                Some(NbtTree::List(l)) => sections_in(l),
                _ => Seq::empty(),
            };
            Some(ChunkView {
                x,
                z,
                data_version: match tree_field(t, "DataVersion"@) {
                    Some(NbtTree::Int(v)) => v,
                    _ => 0,
                },
                status: match tree_field(t, "Status"@) {
                    Some(NbtTree::Str(c)) => c,
                    _ => "unknown"@,
                },
                sections,
                block_entities: match tree_field(t, "block_entities"@) {
                    Some(NbtTree::List(l)) => block_entities_in(l),
                    _ => Seq::empty(),
                },
                heightmaps: match tree_field(t, "Heightmaps"@) {
                    Some(NbtTree::Compound(es)) => heightmaps_in(es),
                    _ => Seq::empty(),
                },
                min_y: spec_min_y(sections) as i32,
            })
        },
        _ => None,
    }
}

proof fn lemma_min_y(s: Seq<SectionView>)
    ensures
        -2048 <= spec_min_y(s) <= 2032,
        forall|k: int| 0 <= k < s.len() ==> spec_min_y(s) <= (#[trigger] s[k]).y * 16,
        s.len() > 0 ==> exists|k: int| 0 <= k < s.len() && spec_min_y(s) == (#[trigger] s[k]).y * 16,
    decreases s.len(),
{
    if s.len() > 1 {
        let t = s.drop_last();
        lemma_min_y(t);
        assert forall|k: int| 0 <= k < s.len() implies spec_min_y(s) <= (#[trigger] s[k]).y * 16 by {
            if k < t.len() {
                assert(s[k] == t[k]);
            }
        }
        if spec_min_y(s) == spec_min_y(t) {
            let k = choose|k: int| 0 <= k < t.len() && spec_min_y(t) == (#[trigger] t[k]).y * 16;
            assert(s[k] == t[k]);
        } else {
            assert(s[s.len() - 1].y * 16 == spec_min_y(s));
        }
    }
}

/// What a chunk parse keeps of the root compound: it succeeds exactly when
/// `xPos` and `zPos` are ints, which become the chunk's coordinates;
/// `DataVersion` is the int of that name or 0, `Status` the string of that
/// name or "unknown"; and the minimum Y is 16 times the lowest section
/// index, or 0 without sections.
pub proof fn law_chunk_parse(t: NbtTree)
    ensures
        spec_chunk(t) is Some <==> (tree_field(t, "xPos"@) matches Some(NbtTree::Int(_)) && tree_field(
            t,
            "zPos"@,
        ) matches Some(NbtTree::Int(_))),
        spec_chunk(t) matches Some(c) ==> {
            &&& tree_field(t, "xPos"@) == Some(NbtTree::Int(c.x))
            &&& tree_field(t, "zPos"@) == Some(NbtTree::Int(c.z))
            &&& c.data_version == match tree_field(t, "DataVersion"@) {
                Some(NbtTree::Int(v)) => v,
                _ => 0,
            }
            &&& c.status == match tree_field(t, "Status"@) {
                Some(NbtTree::Str(st)) => st,
                _ => "unknown"@,
            }
            &&& (c.sections.len() == 0 ==> c.min_y == 0)
            &&& forall|k: int| 0 <= k < c.sections.len() ==> c.min_y <= (#[trigger] c.sections[k]).y * 16
            &&& (c.sections.len() > 0 ==> exists|k: int|
                0 <= k < c.sections.len() && c.min_y == (#[trigger] c.sections[k]).y * 16)
        },
{
    if let Some(c) = spec_chunk(t) {
        lemma_min_y(c.sections);
    }
}

/// The block entity that an element parses as.
pub open spec fn parse_entity_fn() -> spec_fn(NbtTree) -> Option<BlockEntityView> {
    |t: NbtTree| spec_block_entity(t)
}

/// The named long array that a compound entry is, if it is one.
pub open spec fn long_array_entry(e: (Seq<char>, NbtTree)) -> Option<(Seq<char>, Seq<i64>)> {
    match e.1 {
        NbtTree::LongArray(a) => Some((e.0, a)),
        _ => None,
    }
}

proof fn lemma_block_entities_filter(l: Seq<NbtTree>)
    ensures
        block_entities_in(l) == l.filter_map(parse_entity_fn()),
    decreases l.len(),
{
    if l.len() > 0 {
        lemma_block_entities_filter(l.drop_last());
        let r = block_entities_in(l.drop_last());
        match spec_block_entity(l.last()) {
            Some(b) => {
                assert(r.push(b) =~= r + seq![b]);
            },
            None => {},
        }
    }
}

proof fn lemma_filter_map_len<A, B>(l: Seq<A>, f: spec_fn(A) -> Option<B>)
    ensures
        l.filter_map(f).len() == l.filter(|a: A| f(a) is Some).len(),
        l.filter_map(f).len() <= l.len(),
    decreases l.len(),
{
    reveal(Seq::filter);
    if l.len() > 0 {
        lemma_filter_map_len(l.drop_last(), f);
    }
}

/// A chunk keeps every block entity of its `block_entities` list that
/// parses, in list order, and nothing else: its block entities are the
/// parses of the list's elements with those that do not parse left out, so
/// there are as many as there are elements that parse, and an element that
/// parses is never dropped.
pub proof fn law_chunk_block_entities(t: NbtTree)
    ensures
        spec_chunk(t) matches Some(c) ==> match tree_field(t, "block_entities"@) {
            Some(NbtTree::List(l)) => {
                &&& c.block_entities == l.filter_map(parse_entity_fn())
                &&& c.block_entities.len() == l.filter(|e: NbtTree| spec_block_entity(e) is Some).len()
            },
            _ => c.block_entities.len() == 0,
        },
{
    if let Some(NbtTree::List(l)) = tree_field(t, "block_entities"@) {
        lemma_block_entities_filter(l);
        lemma_filter_map_len(l, parse_entity_fn());
        assert((|e: NbtTree| parse_entity_fn()(e) is Some) =~= (|e: NbtTree| spec_block_entity(e) is Some));
    }
}

proof fn lemma_sections_filter(l: Seq<NbtTree>)
    ensures
        sections_in(l) == l.filter_map(|t: NbtTree| spec_section(t)),
    decreases l.len(),
{
    if l.len() > 0 {
        lemma_sections_filter(l.drop_last());
        let r = sections_in(l.drop_last());
        match spec_section(l.last()) {
            Some(b) => {
                assert(r.push(b) =~= r + seq![b]);
            },
            None => {},
        }
    }
}

/// A chunk keeps every section of its `sections` list that parses, in list
/// order, and nothing else.
pub proof fn law_chunk_sections(t: NbtTree)
    ensures
        spec_chunk(t) matches Some(c) ==> match tree_field(t, "sections"@) {
            Some(NbtTree::List(l)) => c.sections == l.filter_map(|e: NbtTree| spec_section(e)),
            _ => c.sections.len() == 0,
        },
{
    if let Some(NbtTree::List(l)) = tree_field(t, "sections"@) {
        lemma_sections_filter(l);
    }
}

proof fn lemma_heightmaps_filter(es: Seq<(Seq<char>, NbtTree)>)
    ensures
        heightmaps_in(es) == es.filter_map(|e: (Seq<char>, NbtTree)| long_array_entry(e)),
    decreases es.len(),
{
    if es.len() > 0 {
        lemma_heightmaps_filter(es.drop_last());
        let r = heightmaps_in(es.drop_last());
        match es.last().1 {
            NbtTree::LongArray(a) => {
                assert(r.push((es.last().0, a)) =~= r + seq![(es.last().0, a)]);
            },
            _ => {},
        }
    }
}

/// The first long array named `name` among the entries.
proof fn lemma_first_long_array(es: Seq<(Seq<char>, NbtTree)>, name: Seq<char>, i: int, a: Seq<i64>)
    requires
        0 <= i < es.len(),
        es[i] == (name, NbtTree::LongArray(a)),
        forall|j: int| 0 <= j < i ==> (#[trigger] es[j]).0 != name,
    ensures
        first_heightmap(heightmaps_in(es), name) == Some(a),
    decreases es.len(),
{
    if i < es.len() - 1 {
        lemma_first_long_array(es.drop_last(), name, i, a);
        lemma_first_heightmap_push(heightmaps_in(es.drop_last()), name, es.last());
    } else {
        lemma_no_name(es.drop_last(), name);
        lemma_first_heightmap_push(heightmaps_in(es.drop_last()), name, es.last());
    }
}

proof fn lemma_no_name(es: Seq<(Seq<char>, NbtTree)>, name: Seq<char>)
    requires
        forall|j: int| 0 <= j < es.len() ==> (#[trigger] es[j]).0 != name,
    ensures
        first_heightmap(heightmaps_in(es), name) is None,
    decreases es.len(),
{
    if es.len() > 0 {
        lemma_no_name(es.drop_last(), name);
        lemma_first_heightmap_push(heightmaps_in(es.drop_last()), name, es.last());
    }
}

proof fn lemma_first_heightmap_push(h: Seq<(Seq<char>, Seq<i64>)>, name: Seq<char>, e: (Seq<char>, NbtTree))
    ensures
        first_heightmap(h, name) is Some ==> first_heightmap(
            match e.1 {
                NbtTree::LongArray(a) => h.push((e.0, a)),
                _ => h,
            },
            name,
        ) == first_heightmap(h, name),
        first_heightmap(h, name) is None ==> first_heightmap(
            match e.1 {
                NbtTree::LongArray(a) => h.push((e.0, a)),
                _ => h,
            },
            name,
        ) == match e.1 {
            NbtTree::LongArray(a) => if e.0 == name { Some(a) } else { None },
            _ => None,
        },
    decreases h.len(),
{
    match e.1 {
        NbtTree::LongArray(a) => {
            let h2 = h.push((e.0, a));
            if h.len() > 0 {
                assert(h2.drop_first() =~= h.drop_first().push((e.0, a)));
                assert(h2[0] == h[0]);
                lemma_first_heightmap_push(h.drop_first(), name, e);
            } else {
                assert(h2.drop_first() =~= Seq::<(Seq<char>, Seq<i64>)>::empty());
                assert(h2[0] == (e.0, a));
                assert(h2.len() == 1);
            }
        },
        _ => {},
    }
}

/// A chunk keeps every long array of its `Heightmaps` compound, with its
/// name, in order, and nothing else; so when the compound holds a long array
/// named MOTION_BLOCKING (the first entry of that name), the top-Y lookup
/// reads that array.
pub proof fn law_chunk_heightmaps(t: NbtTree)
    ensures
        spec_chunk(t) matches Some(c) ==> match tree_field(t, "Heightmaps"@) {
            Some(NbtTree::Compound(es)) => {
                &&& c.heightmaps == es.filter_map(|e: (Seq<char>, NbtTree)| long_array_entry(e))
                &&& forall|i: int, a: Seq<i64>|
                    0 <= i < es.len() && es[i] == ("MOTION_BLOCKING"@, NbtTree::LongArray(a)) && (forall|j: int|
                        0 <= j < i ==> (#[trigger] es[j]).0 != "MOTION_BLOCKING"@) ==> top_heightmap(c.heightmaps)
                        == Some(a)
            },
            _ => c.heightmaps.len() == 0,
        },
{
    if let Some(NbtTree::Compound(es)) = tree_field(t, "Heightmaps"@) {
        lemma_heightmaps_filter(es);
        assert forall|i: int, a: Seq<i64>|
            0 <= i < es.len() && es[i] == ("MOTION_BLOCKING"@, NbtTree::LongArray(a)) && (forall|j: int|
                0 <= j < i ==> (#[trigger] es[j]).0 != "MOTION_BLOCKING"@) implies top_heightmap(heightmaps_in(es))
            == Some(a) by {
            lemma_first_long_array(es, "MOTION_BLOCKING"@, i, a);
        }
    }
}

// ── Copies ───────────────────────────────────────────────────

/// A copy of a string.
fn copy_string(s: &String) -> (r: String)
    ensures
        r@ == s@,
{
    s.clone()
}

/// A deep copy of an NBT value.
pub fn clone_value(v: &NbtValue) -> (r: NbtValue)
    ensures
        r.tree() == v.tree(),
    decreases v,
{
    match v {
        NbtValue::Byte(b) => NbtValue::Byte(*b),
        NbtValue::Short(b) => NbtValue::Short(*b),
        NbtValue::Int(b) => NbtValue::Int(*b),
        NbtValue::Long(b) => NbtValue::Long(*b),
        NbtValue::Float(b) => NbtValue::Float(*b),
        NbtValue::Double(b) => NbtValue::Double(*b),
        NbtValue::ByteArray(a) => NbtValue::ByteArray(vstd::slice::slice_to_vec(a.as_slice())),
        NbtValue::String(s) => NbtValue::String(copy_string(s)),
        NbtValue::List(l) => {
            let mut out: Vec<NbtValue> = Vec::new();
            let mut i: usize = 0;
            while i < l.len()
                invariant
                    i <= l@.len(),
                    *v == NbtValue::List(*l),
                    out@.len() == i,
                    forall|j: int| 0 <= j < i ==> (#[trigger] out@[j]).tree() == l@[j].tree(),
                decreases l@.len() - i,
            {
                proof {
                    assert(decreases_to!(*v => v->List_0));
                    assert(decreases_to!(*l => l@));
                    assert(decreases_to!(l@ => l@[i as int]));
                }
                let c = clone_value(&l[i]);
                out.push(c);
                i = i + 1;
            }
            proof {
                assert(trees(out@) =~= trees(l@));
                lemma_tree_list(out);
                lemma_tree_list(*l);
            }
            NbtValue::List(out)
        },
        NbtValue::Compound(c) => {
            let out = clone_entries_of(v, c);
            proof {
                lemma_tree_compound(out);
                lemma_tree_compound(*c);
            }
            NbtValue::Compound(out)
        },
        NbtValue::IntArray(a) => NbtValue::IntArray(vstd::slice::slice_to_vec(a.as_slice())),
        NbtValue::LongArray(a) => NbtValue::LongArray(vstd::slice::slice_to_vec(a.as_slice())),
    }
}

/// A deep copy of the entries of the compound `v`.
fn clone_entries_of(v: &NbtValue, c: &Vec<(String, NbtValue)>) -> (r: Vec<(String, NbtValue)>)
    requires
        *v == NbtValue::Compound(*c),
    ensures
        entry_trees(r@) == entry_trees(c@),
    decreases v, 0nat,
{
    let mut out: Vec<(String, NbtValue)> = Vec::new();
    let mut i: usize = 0;
    while i < c.len()
        invariant
            i <= c@.len(),
            *v == NbtValue::Compound(*c),
            out@.len() == i,
            forall|j: int| 0 <= j < i ==> (#[trigger] out@[j]).0@ == c@[j].0@ && out@[j].1.tree() == c@[j].1.tree(),
        decreases c@.len() - i,
    {
        proof {
            assert(decreases_to!(*v => v->Compound_0));
            assert(decreases_to!(*c => c@));
            assert(decreases_to!(c@ => c@[i as int]));
            assert(decreases_to!(c@[i as int] => c@[i as int].1));
        }
        let k = copy_string(&c[i].0);
        let x = clone_value(&c[i].1);
        out.push((k, x));
        i = i + 1;
    }
    proof {
        assert(entry_trees(out@) =~= entry_trees(c@));
    }
    out
}

// ── Parsers ──────────────────────────────────────────────────

/// A property value as text.
fn property_value(v: &NbtValue) -> (r: String)
    ensures
        r@ == spec_property_value(v.tree()),
{
    match v {
        NbtValue::String(s) => copy_string(s),
        NbtValue::Int(i) => int_text(*i as i128),
        NbtValue::Byte(b) => int_text(*b as i128),
        _ => "?".to_owned(),
    }
}

/// The properties of a palette entry, as text.
fn parse_properties(props: &[(String, NbtValue)]) -> (r: Vec<(String, String)>)
    ensures
        r@.map_values(|p: (String, String)| (p.0@, p.1@)) == spec_properties(entry_trees(props@)),
{
    let ghost want = spec_properties(entry_trees(props@));
    let mut out: Vec<(String, String)> = Vec::new();
    let mut i: usize = 0;
    while i < props.len()
        invariant
            i <= props@.len(),
            want == spec_properties(entry_trees(props@)),
            out@.len() == i,
            forall|j: int| 0 <= j < i ==> (#[trigger] out@[j]).0@ == want[j].0 && out@[j].1@ == want[j].1,
        decreases props@.len() - i,
    {
        let k = copy_string(&props[i].0);
        let val = property_value(&props[i].1);
        out.push((k, val));
        i = i + 1;
    }
    proof {
        assert(out@.map_values(|p: (String, String)| (p.0@, p.1@)) =~= want);
    }
    out
}

/// A palette entry.
fn parse_block_state(entry: &NbtValue) -> (r: BlockState)
    ensures
        block_state_view(r) == spec_block_state(entry.tree()),
{
    let name = match entry.get_string("Name") {
        Some(s) => s.to_owned(),
        None => "minecraft:air".to_owned(),
    };
    let properties = match entry.get_compound("Properties") {
        Some(props) => parse_properties(props),
        None => {
            let v: Vec<(String, String)> = Vec::new();
            proof {
                assert(v@.map_values(|p: (String, String)| (p.0@, p.1@)) =~= Seq::<(Seq<char>, Seq<char>)>::empty());
            }
            v
        },
    };
    BlockState { name, properties }
}

/// The palette of a `block_states` compound.
pub fn parse_palette(block_states: &[(String, NbtValue)]) -> (r: Option<Vec<BlockState>>)
    ensures
        match spec_palette(entry_trees(block_states@)) {
            Some(p) => r matches Some(v) && palette_view(v@) == p,
            None => r is None,
        },
{
    match find_entry(block_states, "palette") {
        Some(NbtValue::List(list)) => {
            proof {
                lemma_tree_list(*list);
            }
            let ghost want = trees(list@).map_values(|t: NbtTree| spec_block_state(t));
            let mut out: Vec<BlockState> = Vec::new();
            let mut i: usize = 0;
            while i < list.len()
                invariant
                    i <= list@.len(),
                    want == trees(list@).map_values(|t: NbtTree| spec_block_state(t)),
                    out@.len() == i,
                    forall|j: int| 0 <= j < i ==> block_state_view(#[trigger] out@[j]) == want[j],
                decreases list@.len() - i,
            {
                let b = parse_block_state(&list[i]);
                out.push(b);
                i = i + 1;
            }
            proof {
                assert(palette_view(out@) =~= want);
            }
            Some(out)
        },
        _ => None,
    }
}

/// The long array named `key` of a compound, empty when there is none.
fn longs_of(es: &[(String, NbtValue)], key: &str) -> (r: Vec<i64>)
    ensures
        r@ == longs_field(entry_trees(es@), key@),
{
    match find_entry(es, key) {
        Some(NbtValue::LongArray(arr)) => vstd::slice::slice_to_vec(arr.as_slice()),
        _ => Vec::new(),
    }
}

/// The strings of a list.
fn strings_of(l: &[NbtValue]) -> (r: Vec<String>)
    ensures
        r@.map_values(|s: String| s@) == strings_in(trees(l@)),
{
    let ghost ts = trees(l@);
    let mut out: Vec<String> = Vec::new();
    let mut i: usize = 0;
    while i < l.len()
        invariant
            i <= l@.len(),
            ts == trees(l@),
            out@.map_values(|s: String| s@) == strings_in(ts.take(i as int)),
        decreases l@.len() - i,
    {
        proof {
            assert(ts.take(i + 1).drop_last() =~= ts.take(i as int));
        }
        let ghost before = out@;
        match &l[i] {
            NbtValue::String(s) => {
                out.push(copy_string(s));
                proof {
                    assert(out@.map_values(|s: String| s@) =~= before.map_values(|s: String| s@).push(s@));
                }
            },
            _ => {},
        }
        i = i + 1;
    }
    proof {
        assert(ts.take(l@.len() as int) =~= ts);
    }
    out
}

/// A section of a chunk's `sections` list.
pub fn parse_section(nbt: &NbtValue) -> (r: Option<ChunkSection>)
    ensures
        match spec_section(nbt.tree()) {
            Some(s) => r matches Some(c) && section_view(c) == s,
            None => r is None,
        },
{
    let y = match nbt {
        NbtValue::Compound(entries) => {
            proof {
                lemma_tree_compound(*entries);
            }
            match find_entry(entries.as_slice(), "Y") {
                Some(NbtValue::Byte(b)) => *b,
                _ => {
                    return None;
                },
            }
        },
        _ => {
            return None;
        },
    };
    let (palette, block_data, bits_per_block) = match nbt.get_compound("block_states") {
        Some(bs) => match parse_palette(bs) {
            Some(palette) => {
                let data = longs_of(bs, "data");
                let bpb = calculate_bits_per_block(palette.len());
                (palette, data, bpb)
            },
            None => (Vec::new(), Vec::new(), 0u8),
        },
        None => (Vec::new(), Vec::new(), 0u8),
    };
    let (biome_palette, biome_data) = match nbt.get_compound("biomes") {
        Some(bio) => {
            let bp = match find_entry(bio, "palette") {
                Some(NbtValue::List(list)) => {
                    proof {
                        lemma_tree_list(*list);
                    }
                    strings_of(list.as_slice())
                },
                _ => Vec::new(),
            };
            let bd = longs_of(bio, "data");
            (bp, bd)
        },
        None => (Vec::new(), Vec::new()),
    };
    let r = ChunkSection { y, palette, block_data, bits_per_block, biome_palette, biome_data };
    proof {
        assert(palette_view(Seq::<BlockState>::empty()) =~= Seq::<BlockStateView>::empty());
        assert(Seq::<String>::empty().map_values(|b: String| b@) =~= Seq::<Seq<char>>::empty());
        assert(section_view(r).palette == spec_section(nbt.tree())->Some_0.palette);
        assert(section_view(r).biome_palette == spec_section(nbt.tree())->Some_0.biome_palette);
    }
    Some(r)
}

/// A block entity of a chunk's `block_entities` list.
pub fn parse_block_entity(nbt: &NbtValue) -> (r: Option<BlockEntity>)
    ensures
        match spec_block_entity(nbt.tree()) {
            Some(b) => r matches Some(e) && block_entity_view(e) == b,
            None => r is None,
        },
{
    let entries = match nbt {
        NbtValue::Compound(entries) => entries,
        _ => {
            return None;
        },
    };
    proof {
        lemma_tree_compound(*entries);
    }
    let x = match find_entry(entries.as_slice(), "x") {
        Some(NbtValue::Int(i)) => *i,
        _ => {
            return None;
        },
    };
    let y = match find_entry(entries.as_slice(), "y") {
        Some(NbtValue::Int(i)) => *i,
        _ => {
            return None;
        },
    };
    let z = match find_entry(entries.as_slice(), "z") {
        Some(NbtValue::Int(i)) => *i,
        _ => {
            return None;
        },
    };
    let id = match find_entry(entries.as_slice(), "id") {
        Some(NbtValue::String(s)) => copy_string(s),
        _ => {
            return None;
        },
    };
    let data = clone_entries_of(nbt, entries);
    Some(BlockEntity { x, y, z, id, data })
}

/// A block entity (chest, furnace, beacon, etc.).
#[derive(Debug)]
pub struct BlockEntity {
    /// Local block X within chunk (0–15).
    pub x: i32,
    /// Local block Y (absolute world Y).
    pub y: i32,
    /// Local block Z within chunk (0–15).
    pub z: i32,
    /// The entity type ID, e.g. "minecraft:chest".
    pub id: String,
    /// Full NBT data of the block entity.
    pub data: Vec<(String, NbtValue)>,
}

/// Parsed chunk data.
#[derive(Debug)]
pub struct Chunk {
    pub x: i32,
    pub z: i32,
    pub data_version: i32,
    pub status: String,
    pub sections: Vec<ChunkSection>,
    pub block_entities: Vec<BlockEntity>,
    /// Heightmaps: MOTION_BLOCKING, WORLD_SURFACE, etc.
    pub heightmaps: Vec<(String, Vec<i64>)>,
    /// The minimum Y of this chunk's sections (world bottom).
    pub min_y: i32,
}

/// The index of the first section with Y `y`.
pub open spec fn find_section(s: Seq<ChunkSection>, y: i8) -> Option<int>
    decreases s.len(),
{
    if s.len() == 0 {
        None
    } else if s[0].y == y {
        Some(0)
    } else {
        match find_section(s.drop_first(), y) {
            Some(i) => Some(i + 1),
            None => None,
        }
    }
}

/// The heightmap a top lookup reads: the first named MOTION_BLOCKING where
/// there is one, else the first named WORLD_SURFACE, else the first one.
pub open spec fn top_heightmap(h: Seq<(Seq<char>, Seq<i64>)>) -> Option<Seq<i64>> {
    match first_heightmap(h, "MOTION_BLOCKING"@) {
        Some(a) => Some(a),
        None => match first_heightmap(h, "WORLD_SURFACE"@) {
            Some(a) => Some(a),
            None => if h.len() > 0 {
                Some(h[0].1)
            } else {
                None
            },
        },
    }
}

/// The first heightmap named `name`.
pub open spec fn first_heightmap(h: Seq<(Seq<char>, Seq<i64>)>, name: Seq<char>) -> Option<Seq<i64>>
    decreases h.len(),
{
    if h.len() == 0 {
        None
    } else if h[0].0 == name {
        Some(h[0].1)
    } else {
        first_heightmap(h.drop_first(), name)
    }
}

impl Chunk {
    /// Parse a chunk from its NBT root compound.
    pub fn from_nbt(data: &NbtValue) -> (r: Option<Self>)
        ensures
            match spec_chunk(data.tree()) {
                Some(c) => r matches Some(x) && chunk_view(x) == c,
                None => r is None,
            },
    {
        let x = match data.get_int("xPos") {
            Some(v) => v,
            None => {
                return None;
            },
        };
        let z = match data.get_int("zPos") {
            Some(v) => v,
            None => {
                return None;
            },
        };
        let data_version = match data.get_int("DataVersion") {
            Some(v) => v,
            None => 0,
        };
        let status = match data.get_string("Status") {
            Some(s) => s.to_owned(),
            None => "unknown".to_owned(),
        };
        let sections = match data.get_list("sections") {
            Some(list) => collect_sections(list),
            None => {
                let v: Vec<ChunkSection> = Vec::new();
                proof {
                    assert(sections_view(v@) =~= Seq::<SectionView>::empty());
                }
                v
            },
        };
        let block_entities = match data.get_list("block_entities") {
            Some(list) => collect_block_entities(list),
            None => {
                let v: Vec<BlockEntity> = Vec::new();
                proof {
                    assert(block_entities_view(v@) =~= Seq::<BlockEntityView>::empty());
                }
                v
            },
        };
        let heightmaps = match data.get_compound("Heightmaps") {
            Some(hm) => collect_heightmaps(hm),
            None => {
                let v: Vec<(String, Vec<i64>)> = Vec::new();
                proof {
                    assert(heightmaps_view(v@) =~= Seq::<(Seq<char>, Seq<i64>)>::empty());
                }
                v
            },
        };
        let min_y = min_section_y(&sections);
        Some(Chunk { x, z, data_version, status, sections, block_entities, heightmaps, min_y })
    }

    /// Get a section by its Y index.
    pub fn get_section(&self, section_y: i8) -> (r: Option<&ChunkSection>)
        ensures
            match find_section(self.sections@, section_y) {
                Some(i) => r == Some(&self.sections@[i]),
                None => r is None,
            },
    {
        let mut i: usize = 0;
        proof {
            assert(self.sections@.skip(0) =~= self.sections@);
        }
        while i < self.sections.len()
            invariant
                i <= self.sections@.len(),
                match find_section(self.sections@, section_y) {
                    Some(k) => match find_section(self.sections@.skip(i as int), section_y) {
                        Some(j) => k == j + i,
                        None => false,
                    },
                    None => find_section(self.sections@.skip(i as int), section_y) is None,
                },
            decreases self.sections@.len() - i,
        {
            proof {
                assert(self.sections@.skip(i as int).drop_first() =~= self.sections@.skip(i + 1));
            }
            if self.sections[i].y == section_y {
                return Some(&self.sections[i]);
            }
            i = i + 1;
        }
        None
    }

    /// The section holding world Y `world_y`.
    pub open spec fn section_of(&self, world_y: i32) -> Option<int> {
        let sy = world_y >> 4;
        if -128 <= sy <= 127 {
            find_section(self.sections@, sy as i8)
        } else {
            None
        }
    }

    /// Get the block name at absolute world coordinates: "minecraft:air"
    /// where no section holds it (also where world_y / 16 lies outside the
    /// range of section indices), empty where its index lies outside the palette.
    pub fn get_block(&self, world_x: i32, world_y: i32, world_z: i32) -> (r: &str)
        requires
            match self.section_of(world_y) {
                Some(i) => self.sections@[i].can_index(
                    (world_x & 15) as nat,
                    (world_y & 15) as nat,
                    (world_z & 15) as nat,
                ),
                None => true,
            },
        ensures
            match self.section_of(world_y) {
                Some(i) => r@ == self.sections@[i].spec_block_name(
                    (world_x & 15) as nat,
                    (world_y & 15) as nat,
                    (world_z & 15) as nat,
                ),
                None => r@ == "minecraft:air"@,
            },
    {
        let local_x = (world_x & 15) as usize;
        let local_z = (world_z & 15) as usize;
        let sy = world_y >> 4;
        let local_y = (world_y & 15) as usize;
        proof {
            assert(0 <= world_x & 15 <= 15) by (bit_vector);
            assert(0 <= world_y & 15 <= 15) by (bit_vector);
            assert(0 <= world_z & 15 <= 15) by (bit_vector);
        }
        if sy < -128 || sy > 127 {
            return "minecraft:air";
        }
        match self.get_section(sy as i8) {
            Some(sec) => sec.get_block_name(local_x, local_y, local_z),
            None => "minecraft:air",
        }
    }

    /// Whether the block at world (x, y, z) can be looked up: its section, if
    /// there is one, holds the packed word of its entry.
    pub fn block_lookup_ok(&self, world_x: i32, world_y: i32, world_z: i32) -> (r: bool)
        ensures
            r == match self.section_of(world_y) {
                Some(i) => self.sections@[i].can_index(
                    (world_x & 15) as nat,
                    (world_y & 15) as nat,
                    (world_z & 15) as nat,
                ),
                None => true,
            },
    {
        proof {
            assert(0 <= world_x & 15 <= 15) by (bit_vector);
            assert(0 <= world_y & 15 <= 15) by (bit_vector);
            assert(0 <= world_z & 15 <= 15) by (bit_vector);
        }
        let x = (world_x & 15) as usize;
        let y = (world_y & 15) as usize;
        let z = (world_z & 15) as usize;
        let sy = world_y >> 4;
        if sy < -128 || sy > 127 {
            return true;
        }
        match self.get_section(sy as i8) {
            Some(sec) => {
                if sec.bits_per_block == 0 || sec.palette.len() <= 1 {
                    return true;
                }
                if sec.bits_per_block > 64 {
                    return false;
                }
                let entry = (y * 256 + z * 16 + x) as u64;
                let bits = sec.bits_per_block as u64;
                proof {
                    assert(entry * bits <= 4095 * 64) by (nonlinear_arith)
                        requires
                            entry <= 4095,
                            bits <= 64,
                    ;
                }
                let offset = entry * bits;
                (offset / 64) < sec.block_data.len() as u64
            },
            None => true,
        }
    }

    /// Whether the top of column (`local_x`, `local_z`) can be read from the
    /// heightmap that a top lookup reads.
    pub fn top_lookup_ok(&self, local_x: u8, local_z: u8) -> (r: bool)
        ensures
            r == match top_heightmap(heightmaps_view(self.heightmaps@)) {
                Some(a) => packed_in_bounds(a.len(), 9, local_z as nat * 16 + local_x as nat),
                None => true,
            },
    {
        let hm = match find_top_heightmap(&self.heightmaps) {
            Some(h) => h,
            None => {
                return true;
            },
        };
        let offset = (local_z as u64 * 16 + local_x as u64) * 9;
        (offset / 64) < hm.1.len() as u64
    }

    /// Whether this chunk's blocks can be walked: every section can be looked
    /// up and every world coordinate fits in an `i32`.
    pub fn blocks_walkable(&self) -> (r: bool)
        ensures
            r == (
            (forall|k: int| 0 <= k < self.sections@.len() ==> (#[trigger] self.sections@[k]).well_formed())
                && i32::MIN <= self.x * 16 && self.x * 16 + 15 <= i32::MAX
                && i32::MIN <= self.z * 16 && self.z * 16 + 15 <= i32::MAX),
    {
        if self.x < -0x800_0000 || self.x > 0x7ff_ffff || self.z < -0x800_0000 || self.z > 0x7ff_ffff {
            return false;
        }
        let mut k: usize = 0;
        while k < self.sections.len()
            invariant
                k <= self.sections@.len(),
                forall|m: int| 0 <= m < k ==> (#[trigger] self.sections@[m]).well_formed(),
            decreases self.sections@.len() - k,
        {
            if !self.sections[k].lookups_ok() {
                return false;
            }
            k = k + 1;
        }
        true
    }

    /// Iterate over all non-air blocks in this chunk with absolute coordinates.
    pub fn iter_blocks(&self) -> (r: ChunkBlockIter<'_>)
        ensures
            r.chunk == self,
            r.section_idx == 0,
            r.block_iter is None,
    {
        ChunkBlockIter { chunk: self, section_idx: 0, block_iter: None }
    }

    /// Get the top Y (inclusive) of the highest block at (chunk_local_x, chunk_local_z),
    /// read 9 bits to an entry from the MOTION_BLOCKING heightmap where there
    /// is one, else WORLD_SURFACE, else the first one. Returns absolute world Y.
    pub fn get_top_y(&self, local_x: u8, local_z: u8) -> (r: Option<i32>)
        requires
            match top_heightmap(heightmaps_view(self.heightmaps@)) {
                Some(a) => packed_in_bounds(a.len(), 9, local_z as nat * 16 + local_x as nat),
                None => true,
            },
        ensures
            match top_heightmap(heightmaps_view(self.heightmaps@)) {
                Some(a) => r == Some(spec_extract_packed(a, 9, local_z as nat * 16 + local_x as nat) as i32),
                None => r is None,
            },
    {
        let hm = match find_top_heightmap(&self.heightmaps) {
            Some(h) => h,
            None => {
                return None;
            },
        };
        let idx = local_z as usize * 16 + local_x as usize;
        let v = extract_packed(hm.1.as_slice(), 9, idx);
        proof {
            vstd::arithmetic::power2::lemma_pow2_pos(9);
            assert(vstd::arithmetic::power2::pow2(9) == 512) by {
                vstd::arithmetic::power2::lemma2_to64();
            }
        }
        Some(v as i32)
    }
}

/// The first heightmap named `name`.
fn find_heightmap<'a>(h: &'a Vec<(String, Vec<i64>)>, name: &str) -> (r: Option<&'a (String, Vec<i64>)>)
    ensures
        match first_heightmap(heightmaps_view(h@), name@) {
            Some(a) => r matches Some(e) && e.1@ == a,
            None => r is None,
        },
{
    let ghost hv = heightmaps_view(h@);
    let mut i: usize = 0;
    proof {
        assert(hv.skip(0) =~= hv);
    }
    while i < h.len()
        invariant
            i <= h@.len(),
            hv == heightmaps_view(h@),
            first_heightmap(hv, name@) == first_heightmap(hv.skip(i as int), name@),
        decreases h@.len() - i,
    {
        proof {
            assert(hv.skip(i as int).drop_first() =~= hv.skip(i + 1));
            assert(hv.skip(i as int)[0] == hv[i as int]);
        }
        if str_eq(h[i].0.as_str(), name) {
            return Some(&h[i]);
        }
        i = i + 1;
    }
    None
}

/// The heightmap a top lookup reads (`top_heightmap`).
fn find_top_heightmap(h: &Vec<(String, Vec<i64>)>) -> (r: Option<&(String, Vec<i64>)>)
    ensures
        match top_heightmap(heightmaps_view(h@)) {
            Some(a) => r matches Some(e) && e.1@ == a,
            None => r is None,
        },
{
    match find_heightmap(h, "MOTION_BLOCKING") {
        Some(e) => Some(e),
        None => match find_heightmap(h, "WORLD_SURFACE") {
            Some(e) => Some(e),
            None => if h.len() > 0 {
                Some(&h[0])
            } else {
                None
            },
        },
    }
}

/// The sections of a list that parse.
fn collect_sections(list: &[NbtValue]) -> (r: Vec<ChunkSection>)
    ensures
        sections_view(r@) == sections_in(trees(list@)),
{
    let ghost ts = trees(list@);
    let mut out: Vec<ChunkSection> = Vec::new();
    let mut i: usize = 0;
    while i < list.len()
        invariant
            i <= list@.len(),
            ts == trees(list@),
            sections_view(out@) == sections_in(ts.take(i as int)),
        decreases list@.len() - i,
    {
        proof {
            assert(ts.take(i + 1).drop_last() =~= ts.take(i as int));
        }
        let ghost before = out@;
        match parse_section(&list[i]) {
            Some(s) => {
                out.push(s);
                proof {
                    assert(sections_view(out@) =~= sections_view(before).push(section_view(s)));
                }
            },
            None => {},
        }
        i = i + 1;
    }
    proof {
        assert(ts.take(list@.len() as int) =~= ts);
    }
    out
}

/// The block entities of a list that parse.
fn collect_block_entities(list: &[NbtValue]) -> (r: Vec<BlockEntity>)
    ensures
        block_entities_view(r@) == block_entities_in(trees(list@)),
{
    let ghost ts = trees(list@);
    let mut out: Vec<BlockEntity> = Vec::new();
    let mut i: usize = 0;
    while i < list.len()
        invariant
            i <= list@.len(),
            ts == trees(list@),
            block_entities_view(out@) == block_entities_in(ts.take(i as int)),
        decreases list@.len() - i,
    {
        proof {
            assert(ts.take(i + 1).drop_last() =~= ts.take(i as int));
        }
        let ghost before = out@;
        match parse_block_entity(&list[i]) {
            Some(b) => {
                out.push(b);
                proof {
                    assert(block_entities_view(out@) =~= block_entities_view(before).push(block_entity_view(b)));
                }
            },
            None => {},
        }
        i = i + 1;
    }
    proof {
        assert(ts.take(list@.len() as int) =~= ts);
    }
    out
}

/// The long-array entries of a compound.
fn collect_heightmaps(es: &[(String, NbtValue)]) -> (r: Vec<(String, Vec<i64>)>)
    ensures
        heightmaps_view(r@) == heightmaps_in(entry_trees(es@)),
{
    let ghost ts = entry_trees(es@);
    let mut out: Vec<(String, Vec<i64>)> = Vec::new();
    let mut i: usize = 0;
    while i < es.len()
        invariant
            i <= es@.len(),
            ts == entry_trees(es@),
            heightmaps_view(out@) == heightmaps_in(ts.take(i as int)),
        decreases es@.len() - i,
    {
        proof {
            assert(ts.take(i + 1).drop_last() =~= ts.take(i as int));
        }
        let ghost before = out@;
        match &es[i].1 {
            NbtValue::LongArray(arr) => {
                let k = copy_string(&es[i].0);
                let a = vstd::slice::slice_to_vec(arr.as_slice());
                out.push((k, a));
                proof {
                    assert(heightmaps_view(out@) =~= heightmaps_view(before).push((k@, a@)));
                }
            },
            _ => {},
        }
        i = i + 1;
    }
    proof {
        assert(ts.take(es@.len() as int) =~= ts);
    }
    out
}

/// The lowest `Y * 16` of the sections; 0 for none.
fn min_section_y(sections: &Vec<ChunkSection>) -> (r: i32)
    ensures
        r == spec_min_y(sections_view(sections@)),
{
    let ghost sv = sections_view(sections@);
    if sections.len() == 0 {
        return 0;
    }
    let mut m: i32 = sections[0].y as i32 * 16;
    let mut i: usize = 1;
    proof {
        assert(sv.take(1).len() == 1);
    }
    while i < sections.len()
        invariant
            1 <= i <= sections@.len(),
            sv == sections_view(sections@),
            m == spec_min_y(sv.take(i as int)),
            -128 * 16 <= m <= 127 * 16,
        decreases sections@.len() - i,
    {
        proof {
            assert(sv.take(i + 1).drop_last() =~= sv.take(i as int));
        }
        let v = sections[i].y as i32 * 16;
        if v < m {
            m = v;
        }
        i = i + 1;
    }
    proof {
        assert(sv.take(sections@.len() as int) =~= sv);
    }
    m
}

/// Every block of `sec` from index `i` on counts as air.
pub open spec fn air_from(sec: &ChunkSection, i: nat) -> bool {
    forall|j: nat| i <= j < BLOCKS_PER_SECTION ==> is_air(sec, j)
}

/// Whether every block of `sec` from index `start` on counts as air.
pub fn section_air_from(sec: &ChunkSection, start: usize) -> (r: bool)
    requires
        sec.well_formed(),
    ensures
        r == air_from(sec, start as nat),
{
    let air = "minecraft:air";
    let mut j = start;
    while j < BLOCKS_PER_SECTION
        invariant
            sec.well_formed(),
            start <= j || j >= BLOCKS_PER_SECTION,
            forall|i: nat| start <= i < j ==> is_air(sec, i),
            air@ == "minecraft:air"@,
        decreases BLOCKS_PER_SECTION - j,
    {
        let block = sec.palette_entry(j % 16, (j / 256) % 16, (j / 16) % 16);
        let is_air_here = match block {
            Some(b) => str_eq(b.name.as_str(), air),
            None => true,
        };
        if !is_air_here {
            proof {
                assert(!is_air(sec, j as nat));
            }
            return false;
        }
        j = j + 1;
    }
    true
}

/// Iterator over non-air blocks in an entire chunk.
pub struct ChunkBlockIter<'a> {
    pub chunk: &'a Chunk,
    pub section_idx: usize,
    pub block_iter: Option<BlockIter<'a>>,
}

impl<'a> ChunkBlockIter<'a> {
    /// The iterator stands on a section of its chunk, or before the first.
    pub open spec fn valid(&self) -> bool {
        &&& self.section_idx <= self.chunk.sections@.len()
        &&& forall|k: int| 0 <= k < self.chunk.sections@.len() ==> (#[trigger] self.chunk.sections@[k]).well_formed()
        &&& i32::MIN <= self.chunk.x * 16 && self.chunk.x * 16 + 15 <= i32::MAX
        &&& i32::MIN <= self.chunk.z * 16 && self.chunk.z * 16 + 15 <= i32::MAX
        &&& match self.block_iter {
            Some(it) => self.section_idx >= 1 && *it.section == self.chunk.sections@[self.section_idx - 1],
            None => true,
        }
    }

    /// Whether the next block found lies in the chunk's last section: its
    /// world Y is taken from the section after the one it lies in, which the
    /// last section does not have.
    pub open spec fn next_in_last(&self) -> bool {
        let n = self.chunk.sections@.len();
        let current = match self.block_iter {
            Some(it) => !air_from(it.section, it.index as nat),
            None => false,
        };
        if current {
            self.section_idx >= n
        } else {
            &&& self.section_idx < n
            &&& forall|k: int| self.section_idx <= k < n - 1 ==> air_from(#[trigger] &self.chunk.sections@[k], 0)
            &&& !air_from(&self.chunk.sections@[n - 1], 0)
        }
    }

    /// Whether the next block found lies in the chunk's last section (see `next_in_last`).
    pub fn next_in_last_now(&self) -> (r: bool)
        requires
            self.valid(),
        ensures
            r == self.next_in_last(),
    {
        let n = self.chunk.sections.len();
        let current = match &self.block_iter {
            Some(it) => {
                if it.index >= BLOCKS_PER_SECTION {
                    false
                } else {
                    !section_air_from(it.section, it.index)
                }
            },
            None => false,
        };
        if current {
            return self.section_idx >= n;
        }
        if self.section_idx >= n {
            return false;
        }
        let mut k = self.section_idx;
        while k + 1 < n
            invariant
                self.valid(),
                n == self.chunk.sections@.len(),
                self.section_idx <= k < n,
                forall|m: int| self.section_idx <= m < k ==> air_from(#[trigger] &self.chunk.sections@[m], 0),
            decreases n - k,
        {
            if !section_air_from(&self.chunk.sections[k], 0) {
                return false;
            }
            k = k + 1;
        }
        !section_air_from(&self.chunk.sections[n - 1], 0)
    }

    /// The next non-air block: for index `i` of the section it lies in, x =
    /// chunk x·16 + i mod 16, z = chunk z·16 + (i / 16) mod 16, and y = (i / 256)
    /// mod 16 plus 16 times the Y of the section that follows. Every block
    /// passed over on the way is air. `None` once every section has been
    /// walked, all of the rest being air.
    pub fn next(&mut self) -> (r: Option<(i32, i32, i32, &'a BlockState)>)
        requires
            old(self).valid(),
            !old(self).next_in_last(),
        ensures
            final(self).valid(),
            final(self).chunk == old(self).chunk,
            final(self).section_idx >= old(self).section_idx,
            final(self).section_idx > old(self).section_idx ==> (old(self).block_iter matches Some(it0)
                ==> air_from(it0.section, it0.index as nat)),
            forall|k: int| old(self).section_idx <= k && k + 1 < final(self).section_idx ==> air_from(
                #[trigger] &final(self).chunk.sections@[k],
                0,
            ),
            match r {
                None => {
                    &&& final(self).section_idx == final(self).chunk.sections@.len()
                    &&& old(self).block_iter matches Some(it0) ==> air_from(it0.section, it0.index as nat)
                    &&& forall|k: int| old(self).section_idx <= k < final(self).chunk.sections@.len() ==> air_from(
                        #[trigger] &final(self).chunk.sections@[k],
                        0,
                    )
                },
                Some((wx, wy, wz, _)) => final(self).block_iter matches Some(it) && {
                    let k = final(self).section_idx - 1;
                    let i = (it.index - 1) as nat;
                    let sec = final(self).chunk.sections@[k];
                    let start: nat = if final(self).section_idx == old(self).section_idx {
                        old(self).block_iter->Some_0.index as nat
                    } else {
                        0
                    };
                    &&& final(self).section_idx < final(self).chunk.sections@.len()
                    &&& i < BLOCKS_PER_SECTION
                    &&& !is_air(&sec, i)
                    &&& forall|j: nat| start <= j < i ==> is_air(&sec, j)
                    &&& wx == final(self).chunk.x * 16 + i % 16
                    &&& wy == final(self).chunk.sections@[k + 1].y * 16 + (i / 256) % 16
                    &&& wz == final(self).chunk.z * 16 + (i / 16) % 16
                },
            },
    {
        loop
            invariant
                self.valid(),
                !self.next_in_last(),
                self.chunk == old(self).chunk,
                self.section_idx >= old(self).section_idx,
                self.section_idx > old(self).section_idx ==> (old(self).block_iter matches Some(it0) ==> air_from(
                    it0.section,
                    it0.index as nat,
                )),
                forall|k: int| old(self).section_idx <= k && k + 1 < self.section_idx ==> air_from(
                    #[trigger] &self.chunk.sections@[k],
                    0,
                ),
                self.section_idx > old(self).section_idx ==> (self.block_iter matches Some(it) && it.index == 0),
                self.section_idx == old(self).section_idx ==> self.block_iter == old(self).block_iter,
            decreases self.chunk.sections@.len() - self.section_idx,
        {
            let ghost before = self.block_iter;
            let found = match &mut self.block_iter {
                Some(iter) => iter.next(),
                None => None,
            };
            match found {
                Some((lx, ly, lz, state)) => {
                    let world_x = self.chunk.x * 16 + lx as i32;
                    let world_y = self.chunk.sections[self.section_idx].y as i32 * 16 + ly as i32;
                    let world_z = self.chunk.z * 16 + lz as i32;
                    return Some((world_x, world_y, world_z, state));
                },
                None => {},
            }
            proof {
                if let Some(it) = before {
                    if self.section_idx > old(self).section_idx {
                        assert(air_from(&self.chunk.sections@[self.section_idx - 1], 0));
                    }
                }
            }
            if self.section_idx >= self.chunk.sections.len() {
                return None;
            }
            self.block_iter = Some(self.chunk.sections[self.section_idx].iter_non_air());
            self.section_idx += 1;
        }
    }
}

} // verus!
