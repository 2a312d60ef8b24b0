//! LevelChunkWithLight packet bodies and the block palette of a captured chunk.
//!
//! The chunk template is a captured LevelChunkWithLight body: two big-endian
//! chunk coordinates, heightmaps, then the block sections, each a block count
//! (u16), a bits-per-entry byte, a palette and, for a non-single palette, a
//! length-prefixed array of longs.
use vstd::prelude::*;
use std::collections::HashMap;
use bytes::BytesMut;
use crate::buffers::{be_bytes, bytes_mut_extend_from_slice, bytes_mut_view, bytes_mut_with_capacity, put_i32, unsigned32};
use crate::varint::{decode_varint, VarInt, VarIntError};

verus! {

broadcast use vstd::std_specs::hash::group_hash_axioms;

/// Position at which the captured template's block sections begin.
pub const SECTIONS_OFFSET: usize = 905;

/// Item dropped by a block the drop table does not list (dirt).
pub const DEFAULT_DROP_ITEM: i32 = 55;

/// The result of reading a piece of the template at a position: the value and
/// the position after it, a template that ends early or holds a bad VarInt, or
/// an input on which the reader would panic.
pub enum Scan<T> {
    Read(T, int),
    Missing,
    Panics,
}

/// Puts `front` before what a successful scan read.
pub open spec fn prepend<T>(front: Seq<T>, s: Scan<Seq<T>>) -> Scan<Seq<T>> {
    match s {
        Scan::Read(r, p) => Scan::Read(front + r, p),
        Scan::Missing => Scan::Missing,
        Scan::Panics => Scan::Panics,
    }
}

/// The VarInt at `pos`.
pub open spec fn varint_at(data: Seq<u8>, pos: int) -> Result<(int, nat), VarIntError> {
    decode_varint(data.subrange(pos, data.len() as int))
}

/// The big-endian u16 at `pos`.
pub open spec fn be16_at(data: Seq<u8>, pos: int) -> int {
    data[pos] * 256 + data[pos + 1]
}

/// A plausible section header at `pos`, followed by a one-byte VarInt.
pub open spec fn scan_candidate(data: Seq<u8>, pos: int) -> bool {
    data[pos + 2] <= 15 && be16_at(data, pos) <= 4096 && be16_at(data, pos) > 0 && data[pos + 3] < 0x80
}

/// The first plausible section header at or after `pos`, looking no further
/// than position 2000 and the end of the data.
pub open spec fn scan_start(data: Seq<u8>, pos: int) -> int
    decreases 2000 - pos,
{
    if pos + 3 < data.len() && pos < 2000 {
        if scan_candidate(data, pos) {
            pos
        } else {
            scan_start(data, pos + 1)
        }
    } else {
        pos
    }
}

/// Where the sections are read from: the known offset when the header there
/// is plausible, else the first plausible header found by scanning.
pub open spec fn sections_start(data: Seq<u8>) -> int {
    if data[SECTIONS_OFFSET + 2] > 15 || be16_at(data, SECTIONS_OFFSET as int) > 4096 {
        scan_start(data, 8)
    } else {
        SECTIONS_OFFSET as int
    }
}

/// `k` palette entries, one VarInt each, from `pos`.
pub open spec fn palette_entries(data: Seq<u8>, pos: int, k: nat) -> Scan<Seq<i32>>
    decreases k,
{
    if k == 0 {
        Scan::Read(Seq::empty(), pos)
    } else {
        match varint_at(data, pos) {
            Ok((v, n)) => prepend(seq![v as i32], palette_entries(data, pos + n, (k - 1) as nat)),
            Err(_) => Scan::Missing,
        }
    }
}

/// Reading palette entries never panics.
proof fn lemma_palette_entries_total(data: Seq<u8>, pos: int, k: nat)
    ensures
        !(palette_entries(data, pos, k) is Panics),
    decreases k,
{
    if k > 0 {
        if let Ok((v, n)) = varint_at(data, pos) {
            lemma_palette_entries_total(data, pos + n, (k - 1) as nat);
        }
    }
}

/// The palette at `pos`: one VarInt for a single-valued section, else a count
/// and that many entries (a negative count makes the reader panic).
pub open spec fn palette_at(data: Seq<u8>, pos: int, bits: u8) -> Scan<Seq<i32>> {
    match varint_at(data, pos) {
        Err(_) => Scan::Missing,
        Ok((v, n)) => if bits == 0 {
            Scan::Read(seq![v as i32], pos + n)
        } else if v < 0 {
            Scan::Panics
        } else {
            palette_entries(data, pos + n, v as nat)
        },
    }
}

/// The entries of `s` that are not air (0), in order.
pub open spec fn non_air(s: Seq<i32>) -> Seq<i32>
    decreases s.len(),
{
    if s.len() == 0 {
        Seq::empty()
    } else {
        let r = non_air(s.drop_last());
        if s.last() != 0 {
            r.push(s.last())
        } else {
            r
        }
    }
}

/// The sixteen rows of section `sy`, each absolute Y with `palette`.
pub open spec fn section_rows(sy: int, palette: Seq<i32>) -> Seq<(i32, Seq<i32>)> {
    Seq::new(16, |k: int| ((sy * 16 + k) as i32, palette))
}

/// The rows a section contributes: none for an empty section or a palette of air.
pub open spec fn rows_of(block_count: int, palette: Seq<i32>, sy: int) -> Seq<(i32, Seq<i32>)> {
    if block_count > 0 && palette.len() > 0 && non_air(palette).len() > 0 {
        section_rows(sy, non_air(palette))
    } else {
        Seq::empty()
    }
}

/// The rows of the sections `sy..=19`, read from `pos`.
#[verifier::opaque]
pub open spec fn sections_from(data: Seq<u8>, pos: int, sy: int) -> Scan<Seq<(i32, Seq<i32>)>>
    decreases 20 - sy,
{
    if sy > 19 || pos + 3 > data.len() || pos < 0 {
        Scan::Read(Seq::empty(), pos)
    } else {
        let bc = be16_at(data, pos);
        let bits = data[pos + 2];
        match palette_at(data, pos + 3, bits) {
            Scan::Missing => Scan::Missing,
            Scan::Panics => Scan::Panics,
            Scan::Read(pal, p2) => if bits > 0 {
                match varint_at(data, p2) {
                    Err(_) => Scan::Missing,
                    Ok((l, c)) => if l < 0 {
                        Scan::Panics
                    } else if p2 + c + l * 8 > data.len() {
                        Scan::Read(Seq::empty(), p2 + c)
                    } else if p2 < 0 {
                        Scan::Missing
                    } else {
                        prepend(rows_of(bc, pal, sy), sections_from(data, p2 + c + l * 8, sy + 1))
                    },
                }
            } else if p2 < 0 {
                Scan::Missing
            } else {
                prepend(rows_of(bc, pal, sy), sections_from(data, p2, sy + 1))
            },
        }
    }
}

/// Past the last section, or with no room for a header, nothing more is read.
proof fn lemma_sections_end(data: Seq<u8>, pos: int, sy: int)
    requires
        sy > 19 || pos + 3 > data.len() || pos < 0,
    ensures
        sections_from(data, pos, sy) == Scan::<Seq<(i32, Seq<i32>)>>::Read(Seq::empty(), pos),
{
    reveal(sections_from);
}

/// The template's rows of (absolute Y, non-air palette), when there are any.
pub open spec fn spec_chunk_sections(data: Seq<u8>) -> Option<Seq<(i32, Seq<i32>)>> {
    if data.len() < 8 || SECTIONS_OFFSET + 3 > data.len() {
        None
    } else {
        match sections_from(data, sections_start(data), -4) {
            Scan::Read(r, _) => if r.len() == 0 {
                None
            } else {
                Some(r)
            },
            _ => None,
        }
    }
}

/// Whether reading the template's sections would panic (a negative palette
/// count or data length).
pub open spec fn sections_panic(data: Seq<u8>) -> bool {
    data.len() >= 8 && SECTIONS_OFFSET + 3 <= data.len() && sections_from(
        data,
        sections_start(data),
        -4,
    ) is Panics
}

/// The rows of a result vector as values.
pub open spec fn rows_view(v: Seq<(i32, Vec<i32>)>) -> Seq<(i32, Seq<i32>)> {
    v.map_values(|e: (i32, Vec<i32>)| (e.0, e.1@))
}

/// Read a VarInt from a byte slice, returning (value, bytes_consumed).
pub fn read_varint_from_slice(data: &[u8]) -> (r: Option<(VarInt, usize)>)
    ensures
        match decode_varint(data@) {
            Ok((v, n)) => r matches Some((x, m)) && x.0 == v && m == n,
            Err(_) => r is None,
        },
{
    match VarInt::from_bytes(data) {
        Ok((v, n)) => Some((v, n)),
        Err(_) => None,
    }
}

/// The VarInt at `pos` of `data`, with the position after it.
fn varint_at_pos(data: &[u8], pos: usize) -> (r: Option<(i32, usize)>)
    requires
        pos <= data@.len(),
    ensures
        match varint_at(data@, pos as int) {
            Ok((v, n)) => r matches Some((x, p)) && x == v && p == pos + n && p <= data@.len(),
            Err(_) => r is None,
        },
{
    let rest = vstd::slice::slice_subrange(data, pos, data.len());
    match read_varint_from_slice(rest) {
        Some((v, n)) => {
            proof {
                crate::varint::law_varint_decode_len(rest@);
            }
            Some((v.0, pos + n))
        },
        None => None,
    }
}

/// Reads `k` palette entries from `pos`.
fn read_palette_entries(data: &[u8], pos: usize, k: i32) -> (r: Option<(Vec<i32>, usize)>)
    requires
        pos <= data@.len(),
        k >= 0,
    ensures
        match palette_entries(data@, pos as int, k as nat) {
            Scan::Read(s, p) => r matches Some((v, q)) && v@ == s && q == p && q <= data@.len(),
            _ => r is None,
        },
{
    let mut out: Vec<i32> = Vec::new();
    let mut p = pos;
    let mut i: i32 = 0;
    while i < k
        invariant
            0 <= i <= k,
            p <= data@.len(),
            palette_entries(data@, pos as int, k as nat) == prepend(
                out@,
                palette_entries(data@, p as int, (k - i) as nat),
            ),
        decreases k - i,
    {
        match varint_at_pos(data, p) {
            Some((v, q)) => {
                proof {
                    let rest = palette_entries(data@, q as int, (k - i - 1) as nat);
                    assert(palette_entries(data@, p as int, (k - i) as nat) == prepend(seq![v], rest));
                    match rest {
                        Scan::Read(r, pp) => {
                            assert(out@ + (seq![v] + r) =~= out@.push(v) + r);
                        },
                        _ => {},
                    }
                }
                out.push(v);
                p = q;
                i = i + 1;
            },
            None => {
                return None;
            },
        }
    }
    proof {
        assert(out@ + Seq::<i32>::empty() =~= out@);
    }
    Some((out, p))
}

/// Reads the palette of a section whose bits-per-entry byte is `bits`:
/// `None` where the reader would panic (a negative count), `Some(None)`
/// where the template ends early or holds a bad VarInt.
fn read_palette(data: &[u8], pos: usize, bits: u8) -> (r: Option<Option<(Vec<i32>, usize)>>)
    requires
        pos <= data@.len(),
    ensures
        match palette_at(data@, pos as int, bits) {
            Scan::Read(s, p) => r matches Some(Some((v, q))) && v@ == s && q == p && q <= data@.len(),
            Scan::Missing => r == Some(None::<(Vec<i32>, usize)>),
            Scan::Panics => r is None,
        },
{
    let (v, p) = match varint_at_pos(data, pos) {
        Some(x) => x,
        None => {
            return Some(None);
        },
    };
    if bits == 0 {
        let mut out: Vec<i32> = Vec::new();
        out.push(v);
        proof {
            assert(out@ =~= seq![v]);
        }
        Some(Some((out, p)))
    } else if v < 0 {
        None
    } else {
        proof {
            lemma_palette_entries_total(data@, p as int, v as nat);
        }
        Some(read_palette_entries(data, p, v))
    }
}

/// The entries of `palette` that are not air.
fn non_air_entries(palette: &Vec<i32>) -> (r: Vec<i32>)
    ensures
        r@ == non_air(palette@),
{
    let mut out: Vec<i32> = Vec::new();
    let mut i: usize = 0;
    while i < palette.len()
        invariant
            i <= palette@.len(),
            out@ == non_air(palette@.take(i as int)),
        decreases palette@.len() - i,
    {
        proof {
            assert(palette@.take(i + 1).drop_last() =~= palette@.take(i as int));
        }
        if palette[i] != 0 {
            out.push(palette[i]);
        }
        i = i + 1;
    }
    proof {
        assert(palette@.take(palette@.len() as int) =~= palette@);
    }
    out
}

/// A copy of a list of block states.
fn copy_states(v: &Vec<i32>) -> (r: Vec<i32>)
    ensures
        r@ == v@,
{
    let mut out: Vec<i32> = Vec::new();
    let mut i: usize = 0;
    while i < v.len()
        invariant
            i <= v@.len(),
            out@ == v@.take(i as int),
        decreases v@.len() - i,
    {
        out.push(v[i]);
        proof {
            assert(out@ =~= v@.take(i + 1));
        }
        i = i + 1;
    }
    proof {
        assert(v@.take(v@.len() as int) =~= v@);
    }
    out
}

/// Where the sections start: the known offset, or a forward scan when the
/// header there is implausible.
fn find_sections_start(data: &[u8]) -> (r: usize)
    requires
        SECTIONS_OFFSET + 3 <= data@.len(),
    ensures
        r == sections_start(data@),
        r <= data@.len(),
{
    let check_bc: u16 = (data[SECTIONS_OFFSET] as u16) * 256 + data[SECTIONS_OFFSET + 1] as u16;
    let check_bits = data[SECTIONS_OFFSET + 2];
    if check_bits > 15 || check_bc > 4096 {
        let mut pos: usize = 8;
        while pos + 3 < data.len() && pos < 2000
            invariant
                8 <= pos <= 2000,
                pos <= data@.len(),
                scan_start(data@, 8) == scan_start(data@, pos as int),
            ensures
                scan_start(data@, 8) == pos,
                pos <= data@.len(),
            decreases 2000 - pos,
        {
            let bc: u16 = (data[pos] as u16) * 256 + data[pos + 1] as u16;
            let bits = data[pos + 2];
            if bits <= 15 && bc <= 4096 && bc > 0 {
                if pos + 3 < data.len() && data[pos + 3] < 0x80 {
                    break;
                }
            }
            pos += 1;
        }
        pos
    } else {
        SECTIONS_OFFSET
    }
}

/// What reading one section gives: the end of the sections (its long array
/// runs past the data), a malformed template, or its rows and the position
/// of the next section.
enum SectionStep {
    Stop,
    Fail,
    Panics,
    Next(Vec<(i32, Vec<i32>)>, usize),
}

/// The sixteen rows of section `sy` with the non-air palette `na`.
fn section_rows_vec(sy: i32, na: &Vec<i32>) -> (r: Vec<(i32, Vec<i32>)>)
    requires
        -4 <= sy <= 19,
    ensures
        rows_view(r@) == section_rows(sy as int, na@),
{
    let ghost rows = section_rows(sy as int, na@);
    let y_base = sy * 16;
    let mut out: Vec<(i32, Vec<i32>)> = Vec::new();
    let mut y_offset: i32 = 0;
    while y_offset < 16
        invariant
            0 <= y_offset <= 16,
            y_base == sy * 16,
            -4 <= sy <= 19,
            rows == section_rows(sy as int, na@),
            rows_view(out@) == rows.take(y_offset as int),
        decreases 16 - y_offset,
    {
        let row = copy_states(na);
        let ghost prev = out@;
        let ghost rowv = row@;
        let y = y_base + y_offset;
        out.push((y, row));
        proof {
            assert(rows_view(out@) =~= rows_view(prev).push((y, rowv)));
            assert(rows_view(out@) =~= rows.take(y_offset + 1));
        }
        y_offset += 1;
    }
    proof {
        assert(rows.take(16) =~= rows);
    }
    out
}

/// Reads the section at `pos`, whose index is `sy`.
fn read_section(data: &[u8], pos: usize, sy: i32) -> (r: SectionStep)
    requires
        pos + 3 <= data@.len(),
        -4 <= sy <= 19,
    ensures
        match r {
            SectionStep::Stop => sections_from(data@, pos as int, sy as int) == Scan::<Seq<(i32, Seq<i32>)>>::Read(
                Seq::empty(),
                sections_from(data@, pos as int, sy as int)->Read_1,
            ),
            SectionStep::Fail => sections_from(data@, pos as int, sy as int) is Missing,
            SectionStep::Panics => sections_from(data@, pos as int, sy as int) is Panics,
            SectionStep::Next(rows, p) => p <= data@.len() && sections_from(data@, pos as int, sy as int)
                == prepend(rows_view(rows@), sections_from(data@, p as int, sy + 1)),
        },
{
    reveal(sections_from);
    let block_count: u16 = (data[pos] as u16) * 256 + data[pos + 1] as u16;
    let bits = data[pos + 2];
    let (palette, mut p) = match read_palette(data, pos + 3, bits) {
        Some(Some(x)) => x,
        Some(None) => {
            return SectionStep::Fail;
        },
        None => {
            return SectionStep::Panics;
        },
    };
    if bits > 0 {
        let (len, q) = match varint_at_pos(data, p) {
            Some(x) => x,
            None => {
                return SectionStep::Fail;
            },
        };
        if len < 0 {
            return SectionStep::Panics;
        }
        let bytes: u64 = (len as u64) * 8;
        if bytes > (data.len() - q) as u64 {
            return SectionStep::Stop;
        }
        p = q + bytes as usize;
    }
    if block_count > 0 && palette.len() > 0 {
        let na = non_air_entries(&palette);
        if na.len() > 0 {
            let rows = section_rows_vec(sy, &na);
            return SectionStep::Next(rows, p);
        }
    }
    let empty: Vec<(i32, Vec<i32>)> = Vec::new();
    proof {
        assert(rows_view(empty@) =~= rows_of(block_count as int, palette@, sy as int));
    }
    SectionStep::Next(empty, p)
}

/// Parse the block sections of a chunk template: for each absolute Y of a
/// section that holds blocks, the non-air block states of its palette.
pub fn parse_chunk_sections(data: &[u8]) -> (r: Option<Vec<(i32, Vec<i32>)>>)
    requires
        !sections_panic(data@),
    ensures
        match spec_chunk_sections(data@) {
            Some(rows) => r matches Some(v) && rows_view(v@) == rows,
            None => r is None,
        },
{
    match scan_sections(data) {
        Some(r) => r,
        None => None,
    }
}

/// Whether reading the sections of `data` would panic (see `sections_panic`).
pub fn chunk_sections_panic(data: &[u8]) -> (r: bool)
    ensures
        r == sections_panic(data@),
{
    scan_sections(data).is_none()
}

/// Reads the sections of `data`: `None` where the reader would panic.
fn scan_sections(data: &[u8]) -> (r: Option<Option<Vec<(i32, Vec<i32>)>>>)
    ensures
        sections_panic(data@) <==> r is None,
        !sections_panic(data@) ==> match spec_chunk_sections(data@) {
            Some(rows) => r matches Some(Some(v)) && rows_view(v@) == rows,
            None => r == Some(None::<Vec<(i32, Vec<i32>)>>),
        },
{
    if data.len() < 8 {
        return Some(None);
    }
    if data.len() < SECTIONS_OFFSET + 3 {
        return Some(None);
    }
    let start = find_sections_start(data);
    let mut pos = start;
    let mut result: Vec<(i32, Vec<i32>)> = Vec::new();
    let mut section_y: i32 = -4;
    let ghost whole = sections_from(data@, start as int, -4);
    proof {
        assert(rows_view(result@) =~= Seq::<(i32, Seq<i32>)>::empty());
        match sections_from(data@, start as int, -4) {
            Scan::Read(r, p) => {
                assert(Seq::<(i32, Seq<i32>)>::empty() + r =~= r);
            },
            _ => {},
        }
    }
    proof {
        lemma_sections_end(data@, pos as int, 20);
    }
    while section_y <= 19
        invariant
            -4 <= section_y <= 20,
            pos <= data@.len(),
            whole == sections_from(data@, start as int, -4),
            start == sections_start(data@),
            data@.len() >= SECTIONS_OFFSET + 3,
            whole == prepend(rows_view(result@), sections_from(data@, pos as int, section_y as int)),
            sections_from(data@, pos as int, 20) == Scan::<Seq<(i32, Seq<i32>)>>::Read(Seq::empty(), pos as int),
        ensures
            whole matches Scan::Read(rows, _) && rows_view(result@) == rows,
        decreases 20 - section_y,
    {
        if data.len() - pos < 3 {
            proof {
                lemma_sections_end(data@, pos as int, section_y as int);
                assert(rows_view(result@) + Seq::<(i32, Seq<i32>)>::empty() =~= rows_view(result@));
            }
            break;
        }
        match read_section(data, pos, section_y) {
            SectionStep::Stop => {
                proof {
                    assert(rows_view(result@) + Seq::<(i32, Seq<i32>)>::empty() =~= rows_view(result@));
                }
                break;
            },
            SectionStep::Fail => {
                return Some(None);
            },
            SectionStep::Panics => {
                return None;
            },
            SectionStep::Next(rows, p) => {
                let ghost before = result@;
                let ghost added = rows@;
                let mut rows = rows;
                result.append(&mut rows);
                proof {
                    assert(result@ =~= before + added);
                    assert(rows_view(result@) =~= rows_view(before) + rows_view(added));
                    match sections_from(data@, p as int, section_y + 1) {
                        Scan::Read(r, q) => {
                            assert(rows_view(before) + (rows_view(added) + r) =~= rows_view(result@) + r);
                        },
                        _ => {},
                    }
                }
                pos = p;
            },
        }
        proof {
            lemma_sections_end(data@, pos as int, 20);
        }
        section_y += 1;
    }
    if result.len() == 0 {
        Some(None)
    } else {
        Some(Some(result))
    }
}

/// The map from absolute Y to palette that inserting `rows` in order builds.
pub open spec fn rows_map(rows: Seq<(i32, Seq<i32>)>) -> Map<i32, Seq<i32>>
    decreases rows.len(),
{
    if rows.len() == 0 {
        Map::empty()
    } else {
        rows_map(rows.drop_last()).insert(rows.last().0, rows.last().1)
    }
}

/// Parse the chunk template to extract the block palette per absolute Y:
/// a map of absolute Y → non-air block state IDs, empty when the template
/// holds no readable section.
pub fn parse_template_block_palette(template: &[u8]) -> (r: HashMap<i32, Vec<i32>>)
    requires
        !sections_panic(template@),
    ensures
        match spec_chunk_sections(template@) {
            Some(rows) => r@.dom() == rows_map(rows).dom() && forall|y: i32| #[trigger]
                r@.contains_key(y) ==> r@[y]@ == rows_map(rows)[y],
            None => r@.dom() == Set::<i32>::empty(),
        },
{
    let mut map: HashMap<i32, Vec<i32>> = HashMap::new();
    match parse_chunk_sections(template) {
        Some(rows) => {
            let ghost rv = rows_view(rows@);
            let mut i: usize = 0;
            while i < rows.len()
                invariant
                    i <= rows@.len(),
                    rv == rows_view(rows@),
                    map@.dom() == rows_map(rv.take(i as int)).dom(),
                    forall|y: i32| #[trigger]
                        map@.contains_key(y) ==> map@[y]@ == rows_map(rv.take(i as int))[y],
                decreases rows@.len() - i,
            {
                let y = rows[i].0;
                let p = copy_states(&rows[i].1);
                map.insert(y, p);
                proof {
                    assert(rv.take(i + 1).drop_last() =~= rv.take(i as int));
                    assert(map@.dom() =~= rows_map(rv.take(i + 1)).dom());
                }
                i = i + 1;
            }
            proof {
                assert(rv.take(rows@.len() as int) =~= rv);
            }
        },
        None => {
            proof {
                assert(map@.dom() =~= Set::<i32>::empty());
            }
        },
    }
    map
}

/// Convert a protocol block state ID to the item ID that drops in survival:
/// nothing (0) for air, the stone item (1) for anything else.
pub fn block_state_to_item_drop(state: i32) -> (r: i32)
    ensures
        r == (if state == 0 { 0i32 } else { 1i32 }),
{
    if state <= 15 {
        match state {
            0 => 0,
            _ => 1,
        }
    } else {
        1
    }
}

/// The drop table: bedrock (85) at y = -64, dirt (55) at y = -63..=-49.
pub open spec fn spec_drop_map() -> Map<i32, i32> {
    Map::new(|y: i32| -64 <= y <= -49, |y: i32| if y == -64 { 85i32 } else { 55i32 })
}

/// Build the map from absolute Y to the protocol item ID dropped when a
/// block there is broken in survival.
pub fn build_block_drop_map() -> (r: HashMap<i32, i32>)
    ensures
        r@ == spec_drop_map(),
{
    let mut map: HashMap<i32, i32> = HashMap::new();
    let mut y: i32 = -64;
    while y <= -49
        invariant
            -64 <= y <= -48,
            map@ == Map::new(|k: i32| -64 <= k < y, |k: i32| if k == -64 { 85i32 } else { 55i32 }),
        decreases -48 - y,
    {
        if y == -64 {
            map.insert(y, 85);
        } else {
            map.insert(y, 55);
        }
        proof {
            assert(map@ =~= Map::new(
                |k: i32| -64 <= k < y + 1,
                |k: i32| if k == -64 { 85i32 } else { 55i32 },
            ));
        }
        y += 1;
    }
    proof {
        assert(map@ =~= spec_drop_map());
    }
    map
}

/// The item dropped by breaking a block at absolute Y `y`.
pub open spec fn spec_drop_item_id(y: i32) -> i32 {
    if spec_drop_map().contains_key(y) {
        spec_drop_map()[y]
    } else {
        DEFAULT_DROP_ITEM
    }
}

/// Breaking a block drops bedrock (item 85) at exactly one height, the
/// superflat bedrock layer y = -64; at every other height, the dirt layers
/// -63..=-49 and everywhere outside the table alike, it drops dirt (item 55).
pub proof fn law_drop_table(y: i32)
    ensures
        spec_drop_item_id(y) == 85 <==> y == -64,
        y != -64 ==> spec_drop_item_id(y) == 55,
        spec_drop_item_id(y) == 85 || spec_drop_item_id(y) == 55,
{
}

/// Lookup the item ID that should drop when a block at the given Y level is broken.
pub fn get_drop_item_id(y: i32) -> (r: i32)
    ensures
        r == spec_drop_item_id(y),
{
    let map = build_block_drop_map();
    match map.get(&y) {
        Some(v) => *v,
        None => DEFAULT_DROP_ITEM,
    }
}

/// A chunk column's LevelChunkWithLight packet, built from a captured template.
pub struct LevelChunk {
    pub chunk_x: i32,
    pub chunk_z: i32,
}

impl LevelChunk {
    pub fn empty(chunk_x: i32, chunk_z: i32) -> (r: Self)
        ensures
            r.chunk_x == chunk_x,
            r.chunk_z == chunk_z,
    {
        Self { chunk_x, chunk_z }
    }

    /// The packet body: the template with its first eight bytes replaced by
    /// this chunk's coordinates (big-endian i32 each).
    pub fn to_bytes(&self, template: &[u8]) -> (r: BytesMut)
        requires
            template@.len() >= 8,
        ensures
            bytes_mut_view(r) == be_bytes(unsigned32(self.chunk_x as int), 4) + be_bytes(
                unsigned32(self.chunk_z as int),
                4,
            ) + template@.skip(8),
    {
        let mut buf = bytes_mut_with_capacity(template.len());
        put_i32(&mut buf, self.chunk_x);
        put_i32(&mut buf, self.chunk_z);
        let rest = vstd::slice::slice_subrange(template, 8, template.len());
        bytes_mut_extend_from_slice(&mut buf, rest);
        proof {
            assert(rest@ =~= template@.skip(8));
        }
        buf
    }
}

} // verus!
