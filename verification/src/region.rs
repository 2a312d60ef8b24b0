//! Region file (.mca) header and chunk payloads.
//!
//! Each region file stores 32×32 chunks (1024 total). The 8 KiB header
//! contains location entries (4 bytes each) and timestamps (4 bytes each).
//!
//! ```text
//! Header:  [location × 1024] [timestamp × 1024]  = 8 KiB
//! Chunks:  [length:u32][compression:u8][payload:NBT] ...
//! ```
//!
//! Each chunk is aligned to 4 KiB sectors. Reading the file is left to the
//! caller; this module decides what the bytes mean.
use vstd::prelude::*;
use vstd::string::StringSliceAdditionalSpecFns;
use crate::compress::{gzip_decompress, gzip_inflate, zlib_decompress, zlib_inflate};
use crate::nbt::{nbt_error_text, spec_root, NbtError, NbtValue, Parsed};
use crate::text::{decimal, int_text, io_error_text, push_str, string_of};

verus! {

/// Size of the region header in bytes.
pub const HEADER_SIZE: u64 = 8192;

/// Number of chunks a region holds.
pub const CHUNKS_PER_REGION: usize = 1024;

/// Error during region file parsing.
#[derive(Debug)]
pub enum RegionError {
    Io(std::io::Error),
    Nbt(NbtError),
    HeaderTooSmall(u64),
    ChunkNotPresent { x: i32, z: i32 },
    UnsupportedCompression(u8),
    LengthMismatch { declared: u32, actual: u32 },
}

impl RegionError {
    /// The message of this error.
    pub fn message(&self) -> (r: String)
        ensures
            match *self {
                RegionError::Io(_) => "I/O error: "@.is_prefix_of(r@),
                RegionError::Nbt(e) => r@ == "NBT error: "@ + nbt_error_text(e),
                RegionError::HeaderTooSmall(n) => r@ == "invalid region header: file too small ("@
                    + decimal(n as int) + " bytes)"@,
                RegionError::ChunkNotPresent { x, z } => r@ == "chunk at ("@ + decimal(x as int)
                    + ", "@ + decimal(z as int) + ") not present in region"@,
                RegionError::UnsupportedCompression(c) => r@ == "unsupported compression type: "@
                    + decimal(c as int),
                RegionError::LengthMismatch { declared, actual } => r@
                    == "chunk length mismatch: declared "@ + decimal(declared as int) + ", actual "@
                    + decimal(actual as int),
            },
    {
        match self {
            RegionError::Io(e) => {
                let mut s = string_of("I/O error: ");
                let ghost head = s@;
                push_str(&mut s, io_error_text(e).as_str());
                proof {
                    assert(s@.subrange(0, head.len() as int) =~= head);
                }
                s
            },
            RegionError::Nbt(e) => {
                let mut s = string_of("NBT error: ");
                push_str(&mut s, e.message().as_str());
                s
            },
            RegionError::HeaderTooSmall(n) => {
                let mut s = string_of("invalid region header: file too small (");
                push_str(&mut s, int_text(*n as i128).as_str());
                push_str(&mut s, " bytes)");
                s
            },
            RegionError::ChunkNotPresent { x, z } => {
                let mut s = string_of("chunk at (");
                push_str(&mut s, int_text(*x as i128).as_str());
                push_str(&mut s, ", ");
                push_str(&mut s, int_text(*z as i128).as_str());
                push_str(&mut s, ") not present in region");
                s
            },
            RegionError::UnsupportedCompression(c) => {
                let mut s = string_of("unsupported compression type: ");
                push_str(&mut s, int_text(*c as i128).as_str());
                s
            },
            RegionError::LengthMismatch { declared, actual } => {
                let mut s = string_of("chunk length mismatch: declared ");
                push_str(&mut s, int_text(*declared as i128).as_str());
                push_str(&mut s, ", actual ");
                push_str(&mut s, int_text(*actual as i128).as_str());
                s
            },
        }
    }
}

// ── Region coordinates from the file name ────────────────────

/// The value of a run of ASCII digits.
pub open spec fn digits_value(d: Seq<u8>) -> int
    decreases d.len(),
{
    if d.len() == 0 {
        0
    } else {
        digits_value(d.drop_last()) * 10 + (d.last() - 48)
    }
}

/// Whether every byte is an ASCII digit.
pub open spec fn all_digits(d: Seq<u8>) -> bool {
    forall|i: int| 0 <= i < d.len() ==> 48 <= #[trigger] d[i] <= 57
}

/// `i32::from_str` on the bytes of a string: an optional `+` or `-`, then at
/// least one ASCII digit and nothing else, within the range of `i32`.
pub open spec fn parse_i32(b: Seq<u8>) -> Option<i32> {
    let neg = b.len() > 0 && b[0] == 45;
    let digits = if b.len() > 0 && (b[0] == 45 || b[0] == 43) { b.drop_first() } else { b };
    let v = if neg { -digits_value(digits) } else { digits_value(digits) };
    if digits.len() > 0 && all_digits(digits) && i32::MIN <= v <= i32::MAX {
        Some(v as i32)
    } else {
        None
    }
}

/// The position of the first `.` at or after `from`.
pub open spec fn dot_after(b: Seq<u8>, from: int) -> Option<int>
    decreases b.len() - from,
{
    if from < 0 || from >= b.len() {
        None
    } else if b[from] == 46 {
        Some(from)
    } else {
        dot_after(b, from + 1)
    }
}

/// The `.`-separated field that starts at `from`.
pub open spec fn field_at(b: Seq<u8>, from: int) -> Seq<u8> {
    match dot_after(b, from) {
        Some(d) => b.subrange(from, d),
        None => b.subrange(from, b.len() as int),
    }
}

/// Region coordinates from a file stem `r.X.Z`: for a stem of at least three
/// `.`-separated fields whose first is `r`, the second and third parsed as
/// `i32` (0 where that fails); (0, 0) for any other stem.
pub open spec fn spec_region_coords(stem: Seq<u8>) -> (i32, i32) {
    match dot_after(stem, 0) {
        Some(d1) => match dot_after(stem, d1 + 1) {
            Some(d2) => if stem.subrange(0, d1) == seq![114u8] {
                (
                    match parse_i32(stem.subrange(d1 + 1, d2)) { Some(v) => v, None => 0 },
                    match parse_i32(field_at(stem, d2 + 1)) { Some(v) => v, None => 0 },
                )
            } else {
                (0, 0)
            },
            None => (0, 0),
        },
        None => (0, 0),
    }
}

proof fn lemma_digits_prefix_le(d: Seq<u8>, i: int)
    requires
        0 <= i <= d.len(),
        all_digits(d),
    ensures
        digits_value(d.take(i)) <= digits_value(d),
        digits_value(d) >= 0,
    decreases d.len(),
{
    if d.len() > 0 {
        assert(all_digits(d.drop_last()));
        if i < d.len() {
            assert(d.drop_last().take(i) =~= d.take(i));
            lemma_digits_prefix_le(d.drop_last(), i);
        } else {
            assert(d.take(i) =~= d);
            lemma_digits_prefix_le(d.drop_last(), 0);
        }
    }
}

/// `str::parse::<i32>` on the bytes of `b[from..to]`.
fn parse_i32_at(b: &[u8], from: usize, to: usize) -> (r: Option<i32>)
    requires
        from <= to <= b@.len(),
    ensures
        r == parse_i32(b@.subrange(from as int, to as int)),
{
    let ghost s = b@.subrange(from as int, to as int);
    let mut i = from;
    let mut neg = false;
    if from < to && (b[from] == 45 || b[from] == 43) {
        neg = b[from] == 45;
        i = from + 1;
    }
    let ghost digits = b@.subrange(i as int, to as int);
    proof {
        if from < to && (b[from as int] == 45 || b[from as int] == 43) {
            assert(digits =~= s.drop_first());
        } else {
            assert(digits =~= s);
        }
    }
    if i == to {
        return None;
    }
    let start = i;
    let mut acc: i64 = 0;
    while i < to
        invariant
            start <= i <= to <= b@.len(),
            s == b@.subrange(from as int, to as int),
            digits == b@.subrange(start as int, to as int),
            digits == (if s.len() > 0 && (s[0] == 45 || s[0] == 43) { s.drop_first() } else { s }),
            neg == (s.len() > 0 && s[0] == 45),
            all_digits(digits.take(i - start)),
            acc == digits_value(digits.take(i - start)),
            0 <= acc <= 0x8000_0000,
        decreases to - i,
    {
        let c = b[i];
        if c < 48 || c > 57 {
            proof {
                assert(digits[i - start] == c);
            }
            return None;
        }
        proof {
            assert(digits.take(i - start + 1).drop_last() =~= digits.take(i - start));
        }
        acc = acc * 10 + (c - 48) as i64;
        i = i + 1;
        if acc > 0x8000_0000 {
            proof {
                if all_digits(digits) {
                    lemma_digits_prefix_le(digits, i - start);
                }
            }
            return None;
        }
    }
    proof {
        assert(digits.take(to - start) =~= digits);
    }
    if neg {
        Some((0 - acc) as i32)
    } else if acc > 0x7fff_ffff {
        None
    } else {
        Some(acc as i32)
    }
}

/// The first `.` of `b` at or after `from`.
fn find_dot(b: &[u8], from: usize) -> (r: Option<usize>)
    requires
        from <= b@.len(),
    ensures
        match r {
            Some(d) => dot_after(b@, from as int) == Some(d as int) && from <= d < b@.len(),
            None => dot_after(b@, from as int) is None,
        },
{
    let mut i = from;
    while i < b.len()
        invariant
            from <= i <= b@.len(),
            dot_after(b@, from as int) == dot_after(b@, i as int),
        decreases b@.len() - i,
    {
        if b[i] == 46 {
            return Some(i);
        }
        i = i + 1;
    }
    None
}

/// Region coordinates from a region file's stem ("r.X.Z"); (0, 0) where the
/// stem does not have that shape, and 0 for a coordinate that is no `i32`.
pub fn region_coords_from_stem(stem: &str) -> (r: (i32, i32))
    ensures
        r == spec_region_coords(stem.spec_bytes()),
{
    let b = stem.as_bytes();
    let n = b.len();
    let d1 = match find_dot(b, 0) {
        Some(d) => d,
        None => {
            return (0, 0);
        },
    };
    let d2 = match find_dot(b, d1 + 1) {
        Some(d) => d,
        None => {
            return (0, 0);
        },
    };
    if !(d1 == 1 && b[0] == 114) {
        proof {
            if b@.subrange(0, d1 as int) == seq![114u8] {
                assert(b@.subrange(0, d1 as int).len() == 1);
                assert(b@.subrange(0, d1 as int)[0] == b@[0]);
            }
        }
        return (0, 0);
    }
    proof {
        assert(b@.subrange(0, d1 as int) =~= seq![114u8]);
    }
    let x = match parse_i32_at(b, d1 + 1, d2) {
        Some(v) => v,
        None => 0,
    };
    let end = match find_dot(b, d2 + 1) {
        Some(d) => d,
        None => b.len(),
    };
    let z = match parse_i32_at(b, d2 + 1, end) {
        Some(v) => v,
        None => 0,
    };
    proof {
        assert(field_at(b@, d2 + 1) == b@.subrange(d2 + 1, end as int));
        assert(dot_after(b@, 0) == Some(d1 as int));
        assert(dot_after(b@, d1 + 1) == Some(d2 as int));
    }
    (x, z)
}

/// Region coordinates from a region file's name: for a name ending in
/// ".mca" whose stem is "r.X.Z", the coordinates (0 for a field that is no
/// `i32`); `None` for any other name.
pub open spec fn spec_region_file_name(name: Seq<u8>) -> Option<(i32, i32)> {
    if name.len() >= 4 && name.subrange(name.len() - 4, name.len() as int) == seq![46u8, 109, 99, 97] {
        match dot_after(name, 0) {
            Some(d1) => match dot_after(name, d1 + 1) {
                Some(d2) => if name.subrange(0, d1) == seq![114u8] {
                    Some(spec_region_coords(name))
                } else {
                    None
                },
                None => None,
            },
            None => None,
        }
    } else {
        None
    }
}

/// The coordinates of a region file named `name` ("r.X.Z.mca"), if it is one.
pub fn parse_region_file_name(name: &str) -> (r: Option<(i32, i32)>)
    ensures
        r == spec_region_file_name(name.spec_bytes()),
{
    let b = name.as_bytes();
    let n = b.len();
    if n < 4 || !(b[n - 4] == 46 && b[n - 3] == 109 && b[n - 2] == 99 && b[n - 1] == 97) {
        proof {
            if n >= 4 && b@.subrange(n - 4, n as int) == seq![46u8, 109, 99, 97] {
                assert(b@.subrange(n - 4, n as int)[0] == b@[n - 4]);
                assert(b@.subrange(n - 4, n as int)[1] == b@[n - 3]);
                assert(b@.subrange(n - 4, n as int)[2] == b@[n - 2]);
                assert(b@.subrange(n - 4, n as int)[3] == b@[n - 1]);
            }
        }
        return None;
    }
    proof {
        assert(b@.subrange(n - 4, n as int) =~= seq![46u8, 109, 99, 97]);
    }
    let d1 = match find_dot(b, 0) {
        Some(d) => d,
        None => {
            return None;
        },
    };
    match find_dot(b, d1 + 1) {
        Some(_) => {},
        None => {
            return None;
        },
    }
    if !(d1 == 1 && b[0] == 114) {
        proof {
            if b@.subrange(0, d1 as int) == seq![114u8] {
                assert(b@.subrange(0, d1 as int).len() == 1);
                assert(b@.subrange(0, d1 as int)[0] == b@[0]);
            }
        }
        return None;
    }
    proof {
        assert(b@.subrange(0, d1 as int) =~= seq![114u8]);
    }
    Some(region_coords_from_stem(name))
}

// ── The header ───────────────────────────────────────────────

/// The big-endian u32 at `off`.
pub open spec fn u32_at(h: Seq<u8>, off: int) -> u32 {
    (h[off] * 0x100_0000 + h[off + 1] * 0x1_0000 + h[off + 2] * 0x100 + h[off + 3]) as u32
}

fn read_u32_at(h: &[u8], off: usize) -> (r: u32)
    requires
        off + 4 <= h@.len(),
    ensures
        r == u32_at(h@, off as int),
{
    (h[off] as u32) * 0x100_0000 + (h[off + 1] as u32) * 0x1_0000 + (h[off + 2] as u32) * 0x100 + h[off + 3] as u32
}

/// A region file's header: its coordinates and, for each of its 1024 chunks,
/// the location entry and the timestamp.
pub struct RegionFile {
    /// Region base X (in chunks, so multiply by 32 for actual chunk coords).
    pub region_x: i32,
    /// Region base Z.
    pub region_z: i32,
    /// Raw location entries (1024 × u32 big-endian).
    pub locations: Vec<u32>,
    /// Raw timestamps (1024 × u32 big-endian).
    pub timestamps: Vec<u32>,
}

/// A loaded chunk from a region file.
#[derive(Debug)]
pub struct RegionChunk {
    /// Absolute chunk X coordinate.
    pub chunk_x: i32,
    /// Absolute chunk Z coordinate.
    pub chunk_z: i32,
    /// The NBT root compound of the chunk.
    pub data: NbtValue,
    /// Last modification timestamp (Unix epoch).
    pub timestamp: u32,
}

/// The payload bytes a compression type gives for `raw`: gzip (1), zlib (2)
/// or stored (3); `None` where inflating fails.
pub open spec fn spec_decompressed(compression: u8, raw: Seq<u8>) -> Option<Seq<u8>> {
    if compression == 1 {
        gzip_inflate(raw)
    } else if compression == 2 {
        zlib_inflate(raw)
    } else {
        Some(raw)
    }
}

impl RegionFile {
    /// Both tables hold one entry per chunk.
    pub open spec fn well_formed(&self) -> bool {
        self.locations@.len() == CHUNKS_PER_REGION && self.timestamps@.len() == CHUNKS_PER_REGION
    }

    /// Whether the table index of chunk (`chunk_x`, `chunk_z`) can be
    /// computed and lies in the table: the offsets from the region's first
    /// chunk neither overflow nor are negative, and x + 32·z < 1024. (The
    /// readers do not check that the x offset is below 32.)
    pub open spec fn index_fits(&self, chunk_x: i32, chunk_z: i32) -> bool {
        let dx = chunk_x - self.region_x * 32;
        let dz = chunk_z - self.region_z * 32;
        &&& i32::MIN <= self.region_x * 32 <= i32::MAX
        &&& i32::MIN <= self.region_z * 32 <= i32::MAX
        &&& 0 <= dx
        &&& 0 <= dz
        &&& dx + dz * 32 < CHUNKS_PER_REGION
    }

    /// The table index of chunk (`chunk_x`, `chunk_z`).
    pub open spec fn spec_index(&self, chunk_x: i32, chunk_z: i32) -> int {
        (chunk_x - self.region_x * 32) + (chunk_z - self.region_z * 32) * 32
    }

    /// The header of a region file with stem `stem` and length `file_len`,
    /// whose first bytes are `header`: `HeaderTooSmall` below 8 KiB.
    pub fn from_header(stem: &str, file_len: u64, header: &[u8]) -> (r: Result<RegionFile, RegionError>)
        requires
            file_len >= HEADER_SIZE ==> header@.len() >= HEADER_SIZE,
        ensures
            file_len < HEADER_SIZE <==> (r matches Err(RegionError::HeaderTooSmall(n)) && n == file_len),
            file_len >= HEADER_SIZE ==> (r matches Ok(rf) && rf.well_formed() && (rf.region_x, rf.region_z)
                == spec_region_coords(stem.spec_bytes()) && (forall|i: int|
                0 <= i < CHUNKS_PER_REGION ==> #[trigger] rf.locations@[i] == u32_at(header@, 4 * i)
                    && rf.timestamps@[i] == u32_at(header@, 4096 + 4 * i))),
    {
        let (region_x, region_z) = region_coords_from_stem(stem);
        if file_len < HEADER_SIZE {
            return Err(RegionError::HeaderTooSmall(file_len));
        }
        let mut locations: Vec<u32> = Vec::new();
        let mut i: usize = 0;
        while i < CHUNKS_PER_REGION
            invariant
                i <= CHUNKS_PER_REGION,
                header@.len() >= HEADER_SIZE,
                locations@.len() == i,
                forall|j: int| 0 <= j < i ==> #[trigger] locations@[j] == u32_at(header@, 4 * j),
            decreases CHUNKS_PER_REGION - i,
        {
            locations.push(read_u32_at(header, i * 4));
            i = i + 1;
        }
        let mut timestamps: Vec<u32> = Vec::new();
        let mut i: usize = 0;
        while i < CHUNKS_PER_REGION
            invariant
                i <= CHUNKS_PER_REGION,
                header@.len() >= HEADER_SIZE,
                timestamps@.len() == i,
                forall|j: int| 0 <= j < i ==> #[trigger] timestamps@[j] == u32_at(header@, 4096 + 4 * j),
            decreases CHUNKS_PER_REGION - i,
        {
            timestamps.push(read_u32_at(header, 4096 + i * 4));
            i = i + 1;
        }
        Ok(RegionFile { region_x, region_z, locations, timestamps })
    }

    /// Whether the table index of chunk (`chunk_x`, `chunk_z`) lies in the
    /// table (see `index_fits`).
    pub fn index_fits_table(&self, chunk_x: i32, chunk_z: i32) -> (r: bool)
        ensures
            r == self.index_fits(chunk_x, chunk_z),
    {
        let bx = self.region_x as i64 * 32;
        let bz = self.region_z as i64 * 32;
        if bx < i32::MIN as i64 || bx > i32::MAX as i64 || bz < i32::MIN as i64 || bz > i32::MAX as i64 {
            return false;
        }
        let dx = chunk_x as i64 - bx;
        let dz = chunk_z as i64 - bz;
        0 <= dx && 0 <= dz && dx + dz * 32 < CHUNKS_PER_REGION as i64
    }

    /// The table position of a chunk: offsets from the region's first chunk.
    fn local_index(&self, chunk_x: i32, chunk_z: i32) -> (r: (usize, usize))
        requires
            self.index_fits(chunk_x, chunk_z),
        ensures
            r.0 == chunk_x - self.region_x * 32,
            r.1 == chunk_z - self.region_z * 32,
    {
        let lx = (chunk_x - self.region_x * 32) as usize;
        let lz = (chunk_z - self.region_z * 32) as usize;
        (lx, lz)
    }

    /// Check if a chunk exists in this region.
    pub fn has_chunk(&self, chunk_x: i32, chunk_z: i32) -> (r: bool)
        requires
            self.well_formed(),
            self.index_fits(chunk_x, chunk_z),
        ensures
            r == (self.locations@[self.spec_index(chunk_x, chunk_z)] != 0),
    {
        let (lx, lz) = self.local_index(chunk_x, chunk_z);
        self.locations[lx + lz * 32] != 0
    }

    /// Where a chunk's data starts in the file: `ChunkNotPresent` for an
    /// empty location entry, else the entry's sector offset times 4 KiB.
    pub fn chunk_offset(&self, chunk_x: i32, chunk_z: i32) -> (r: Result<u64, RegionError>)
        requires
            self.well_formed(),
            self.index_fits(chunk_x, chunk_z),
        ensures
            ({
                let loc = self.locations@[self.spec_index(chunk_x, chunk_z)];
                if loc == 0 {
                    r matches Err(RegionError::ChunkNotPresent { x, z }) && x == chunk_x && z == chunk_z
                } else {
                    r matches Ok(off) && off == (loc / 256) as int * 4096
                }
            }),
    {
        let (lx, lz) = self.local_index(chunk_x, chunk_z);
        let loc = self.locations[lx + lz * 32];
        if loc == 0 {
            return Err(RegionError::ChunkNotPresent { x: chunk_x, z: chunk_z });
        }
        proof {
            assert(loc >> 8u32 == loc / 256) by (bit_vector);
        }
        Ok(((loc >> 8) as u64) * 4096)
    }

    /// The chunk stored at (`chunk_x`, `chunk_z`) whose payload, read from the
    /// file after its length and compression byte, is `raw`. `None` where the
    /// decompressed payload is NBT on which the reader would panic.
    pub fn load_chunk_data(&self, chunk_x: i32, chunk_z: i32, compression: u8, raw: Vec<u8>) -> (r:
        Option<Result<RegionChunk, RegionError>>)
        requires
            self.well_formed(),
            self.index_fits(chunk_x, chunk_z),
        ensures
            !(1 <= compression <= 3) ==> (r matches Some(Err(RegionError::UnsupportedCompression(c)))
                && c == compression),
            1 <= compression <= 3 ==> match spec_decompressed(compression, raw@) {
                None => r matches Some(Err(RegionError::Io(_))),
                Some(bytes) => match spec_root(bytes) {
                    Parsed::Done(v, _) => r matches Some(Ok(c)) && c.chunk_x == chunk_x && c.chunk_z
                        == chunk_z && c.data.tree() == v && c.timestamp == self.timestamps@[self.spec_index(
                        chunk_x,
                        chunk_z,
                    )],
                    Parsed::Fail(e) => r matches Some(Err(RegionError::Nbt(x))) && x == e,
                    Parsed::Panic => r is None,
                },
            },
    {
        let decompressed = if compression == 1 {
            match gzip_decompress(raw.as_slice()) {
                Ok(v) => v,
                Err(e) => {
                    return Some(Err(RegionError::Io(e)));
                },
            }
        } else if compression == 2 {
            match zlib_decompress(raw.as_slice()) {
                Ok(v) => v,
                Err(e) => {
                    return Some(Err(RegionError::Io(e)));
                },
            }
        } else if compression == 3 {
            raw
        } else {
            return Some(Err(RegionError::UnsupportedCompression(compression)));
        };
        let data = match NbtValue::try_read_compound(decompressed.as_slice()) {
            None => {
                return None;
            },
            Some(Ok((v, _))) => v,
            Some(Err(e)) => {
                return Some(Err(RegionError::Nbt(e)));
            },
        };
        let (lx, lz) = self.local_index(chunk_x, chunk_z);
        let timestamp = self.timestamps[lx + lz * 32];
        Some(Ok(RegionChunk { chunk_x, chunk_z, data, timestamp }))
    }

    /// How many chunks the region holds.
    pub fn count_chunks_in_region(&self) -> (r: usize)
        requires
            self.well_formed(),
            self.coords_fit(),
        ensures
            r == self.present_coords(CHUNKS_PER_REGION as nat).len(),
    {
        self.chunk_coords().len()
    }

    /// Whether every chunk coordinate of this region fits in an `i32`.
    pub open spec fn coords_fit(&self) -> bool {
        &&& i32::MIN <= self.region_x * 32 && self.region_x * 32 + 31 <= i32::MAX
        &&& i32::MIN <= self.region_z * 32 && self.region_z * 32 + 31 <= i32::MAX
    }

    /// The absolute coordinates of the present chunks among the first `n`
    /// table entries, in table order (Z-major).
    pub open spec fn present_coords(&self, n: nat) -> Seq<(i32, i32)>
        decreases n,
    {
        if n == 0 {
            Seq::empty()
        } else {
            let k = (n - 1) as int;
            let before = self.present_coords((n - 1) as nat);
            if self.locations@[k] != 0 {
                before.push(((self.region_x * 32 + k % 32) as i32, (self.region_z * 32 + k / 32) as i32))
            } else {
                before
            }
        }
    }

    /// Iterate over all chunk coordinates present in this region.
    pub fn chunk_coords(&self) -> (r: Vec<(i32, i32)>)
        requires
            self.well_formed(),
            self.coords_fit(),
        ensures
            r@ == self.present_coords(CHUNKS_PER_REGION as nat),
    {
        let mut coords: Vec<(i32, i32)> = Vec::new();
        let mut lz: i32 = 0;
        while lz < 32
            invariant
                0 <= lz <= 32,
                self.well_formed(),
                self.coords_fit(),
                coords@ == self.present_coords((lz * 32) as nat),
            decreases 32 - lz,
        {
            let mut lx: i32 = 0;
            while lx < 32
                invariant
                    0 <= lx <= 32,
                    0 <= lz < 32,
                    self.well_formed(),
                    self.coords_fit(),
                    coords@ == self.present_coords((lz * 32 + lx) as nat),
                decreases 32 - lx,
            {
                let idx = (lx + lz * 32) as usize;
                proof {
                    assert(idx % 32 == lx && idx / 32 == lz) by (nonlinear_arith)
                        requires
                            idx == lx + lz * 32,
                            0 <= lx < 32,
                            0 <= lz < 32,
                    ;
                }
                if self.locations[idx] != 0 {
                    let cx = self.region_x * 32 + lx;
                    let cz = self.region_z * 32 + lz;
                    coords.push((cx, cz));
                }
                lx += 1;
            }
            lz += 1;
        }
        coords
    }
}

/// The absolute coordinates of table entry `k`.
pub open spec fn coord_of(rf: &RegionFile, k: int) -> (i32, i32) {
    ((rf.region_x * 32 + k % 32) as i32, (rf.region_z * 32 + k / 32) as i32)
}

/// The table entry of absolute chunk coordinates `c`.
pub open spec fn key_of(rf: &RegionFile, c: (i32, i32)) -> int {
    (c.0 - rf.region_x * 32) + (c.1 - rf.region_z * 32) * 32
}

proof fn lemma_present_coords(rf: &RegionFile, n: nat)
    requires
        rf.well_formed(),
        rf.coords_fit(),
        n <= CHUNKS_PER_REGION,
    ensures
        ({
            let c = rf.present_coords(n);
            &&& c.len() <= n
            &&& forall|i: int| 0 <= i < c.len() ==> {
                let k = key_of(rf, #[trigger] c[i]);
                &&& 0 <= k < n
                &&& rf.locations@[k] != 0
                &&& c[i] == coord_of(rf, k)
            }
            &&& forall|i: int, j: int| 0 <= i < j < c.len() ==> key_of(rf, #[trigger] c[i]) < key_of(rf, #[trigger] c[j])
            &&& forall|k: int| 0 <= k < n && rf.locations@[k] != 0 ==> c.contains(#[trigger] coord_of(rf, k))
        }),
    decreases n,
{
    if n > 0 {
        let k = (n - 1) as int;
        lemma_present_coords(rf, (n - 1) as nat);
        let before = rf.present_coords((n - 1) as nat);
        assert(key_of(rf, coord_of(rf, k)) == k) by {
            assert(k % 32 + (k / 32) * 32 == k);
        }
        if rf.locations@[k] != 0 {
            let c = rf.present_coords(n);
            assert(c == before.push(coord_of(rf, k)));
            assert forall|m: int| 0 <= m < n && rf.locations@[m] != 0 implies c.contains(#[trigger] coord_of(rf, m)) by {
                if m < k {
                    let i = choose|i: int| 0 <= i < before.len() && before[i] == coord_of(rf, m);
                    assert(c[i] == coord_of(rf, m));
                } else {
                    assert(c[before.len() as int] == coord_of(rf, m));
                }
            }
        }
    }
}

/// The coordinates `chunk_coords` lists are those of the present chunks of
/// the region, each once, in ascending order of Z and then of X: at most
/// 1024 of them, each inside the region, and a chunk of the region is listed
/// exactly when its location entry is not empty (what `has_chunk` reports).
pub proof fn law_chunk_coords(rf: &RegionFile)
    requires
        rf.well_formed(),
        rf.coords_fit(),
    ensures
        ({
            let c = rf.present_coords(CHUNKS_PER_REGION as nat);
            &&& c.len() <= CHUNKS_PER_REGION
            &&& forall|i: int| 0 <= i < c.len() ==> rf.region_x * 32 <= (#[trigger] c[i]).0 < rf.region_x * 32 + 32
                && rf.region_z * 32 <= c[i].1 < rf.region_z * 32 + 32
            &&& forall|i: int, j: int| 0 <= i < j < c.len() ==> (#[trigger] c[i]).1 < (#[trigger] c[j]).1 || (c[i].1
                == c[j].1 && c[i].0 < c[j].0)
            &&& forall|cx: i32, cz: i32|
                rf.region_x * 32 <= cx < rf.region_x * 32 + 32 && rf.region_z * 32 <= cz < rf.region_z * 32 + 32
                    ==> (c.contains((cx, cz)) <==> rf.locations@[rf.spec_index(cx, cz)] != 0)
        }),
{
    lemma_present_coords(rf, CHUNKS_PER_REGION as nat);
    let c = rf.present_coords(CHUNKS_PER_REGION as nat);
    assert forall|i: int| 0 <= i < c.len() implies rf.region_x * 32 <= (#[trigger] c[i]).0 < rf.region_x * 32 + 32
        && rf.region_z * 32 <= c[i].1 < rf.region_z * 32 + 32 by {
        let k = key_of(rf, c[i]);
        assert(c[i] == coord_of(rf, k));
    }
    assert forall|i: int, j: int| 0 <= i < j < c.len() implies (#[trigger] c[i]).1 < (#[trigger] c[j]).1 || (c[i].1
        == c[j].1 && c[i].0 < c[j].0) by {
        let ki = key_of(rf, c[i]);
        let kj = key_of(rf, c[j]);
        assert(c[i] == coord_of(rf, ki));
        assert(c[j] == coord_of(rf, kj));
        assert(ki < kj);
    }
    assert forall|cx: i32, cz: i32|
        rf.region_x * 32 <= cx < rf.region_x * 32 + 32 && rf.region_z * 32 <= cz < rf.region_z * 32 + 32
            implies (c.contains((cx, cz)) <==> rf.locations@[rf.spec_index(cx, cz)] != 0) by {
        let k = rf.spec_index(cx, cz);
        assert(coord_of(rf, k) == (cx, cz));
        if c.contains((cx, cz)) {
            let i = choose|i: int| 0 <= i < c.len() && c[i] == (cx, cz);
            assert(key_of(rf, c[i]) == k);
        }
    }
}

} // verus!
