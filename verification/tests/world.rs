use std::io::Write;
use std::path::Path;

use rustmc::chunk::{calculate_bits_per_block, extract_packed, BlockState, ChunkSection};
use rustmc::column::{clone_value, parse_block_entity, parse_palette, parse_section, Chunk};
use rustmc::nbt::{NbtError, NbtValue, TagType};
use rustmc::region::{parse_region_file_name, region_coords_from_stem, RegionError, RegionFile};
use rustmc::world::{block_name_in_chunk, chunk_of_block, read_level_dat, region_of_chunk, reported_block_name, top_y_in_chunk};

#[test]
fn packed_4bit() {
    let data = vec![0x12345678_9ABCDEF0i64];
    assert_eq!(extract_packed(&data, 4, 0), 0x0);
    assert_eq!(extract_packed(&data, 4, 1), 0xF);
    assert_eq!(extract_packed(&data, 4, 2), 0xE);
    assert_eq!(extract_packed(&data, 4, 3), 0xD);
}

#[test]
fn packed_across_boundary() {
    let data = vec![0xFF00_0000_0000_0000u64 as i64, 0xABu64 as i64];
    assert_eq!(extract_packed(&data, 8, 7), 0xFF);
    assert_eq!(extract_packed(&data, 8, 8), 0xAB);
}

#[test]
fn packed_zero_bits() {
    assert_eq!(extract_packed(&[], 0, 42), 0);
}

#[test]
fn packed_nine_bits_spanning() {
    // entry 7 of a 9-bit array starts at bit 63: one bit from the first word, eight from the second
    let data = vec![i64::MIN, 0x01];
    assert_eq!(extract_packed(&data, 9, 7), 0b11);
}

#[test]
fn bits_per_block_table() {
    assert_eq!(calculate_bits_per_block(0), 0);
    assert_eq!(calculate_bits_per_block(1), 0);
    assert_eq!(calculate_bits_per_block(2), 4);
    assert_eq!(calculate_bits_per_block(16), 4);
    assert_eq!(calculate_bits_per_block(17), 5);
    assert_eq!(calculate_bits_per_block(300), 9);
    assert_eq!(calculate_bits_per_block(70000), 16);
}

#[test]
fn read_simple_compound() {
    let data = vec![
        0x0A, 0x00, 0x00, 0x03, 0x00, 0x03, b'f', b'o', b'o', 0x00, 0x00, 0x00, 0x2A, 0x00,
    ];
    let (val, n) = NbtValue::read_compound(&data).unwrap();
    assert_eq!(n, data.len());
    if let NbtValue::Compound(entries) = &val {
        assert_eq!(entries.len(), 1);
        assert_eq!(entries[0].0, "foo");
        assert_eq!(entries[0].1.get_int("").unwrap_or(0), 0);
        match &entries[0].1 {
            NbtValue::Int(i) => assert_eq!(*i, 42),
            other => panic!("expected Int, got {other:?}"),
        }
    } else {
        panic!("expected Compound");
    }
}

#[test]
fn roundtrip_nested() {
    let data = vec![
        0x0A, 0x00, 0x00, 0x01, 0x00, 0x01, b'a', 0x01, 0x0A, 0x00, 0x01, b'b', 0x08, 0x00, 0x01, b'c',
        0x00, 0x05, b'h', b'e', b'l', b'l', b'o', 0x00, 0x00,
    ];
    let (val, _) = NbtValue::read_compound(&data).unwrap();
    let b = val.get_compound("b").unwrap();
    let c_value = b.iter().find(|(k, _)| k == "c").unwrap();
    match &c_value.1 {
        NbtValue::String(s) => assert_eq!(s, "hello"),
        other => panic!("expected String, got {other:?}"),
    }
}

#[test]
fn nbt_errors() {
    assert!(matches!(NbtValue::read_compound(&[0x0D]), Err(NbtError::UnknownTag(13))));
    assert!(matches!(NbtValue::read_compound(&[0x03, 0, 0]), Err(NbtError::ExpectedCompound(TagType::Int))));
    assert!(matches!(NbtValue::read_compound(&[0x0A, 0]), Err(NbtError::Incomplete { expected: 2, got: 1 })));
    assert!(matches!(
        NbtValue::read_compound(&[0x0A, 0, 1, 0xff, 0]),
        Err(NbtError::InvalidUtf8)
    ));
    // empty input and a negative list length are where the reader would panic
    assert!(NbtValue::try_read_compound(&[]).is_none());
    let neg_list = [0x0A, 0, 0, 0x09, 0, 1, b'l', 0x01, 0xff, 0xff, 0xff, 0xff, 0x00];
    assert!(NbtValue::try_read_compound(&neg_list).is_none());
    let ok = [0x0A, 0, 0, 0x09, 0, 1, b'l', 0x01, 0, 0, 0, 2, 5, 6, 0x00];
    let (v, n) = NbtValue::try_read_compound(&ok).unwrap().unwrap();
    assert_eq!(n, ok.len());
    assert_eq!(v.get_list("l").unwrap().len(), 2);
}

#[test]
fn nbt_getters_and_clone() {
    let data = vec![
        0x0A, 0, 0, 0x08, 0, 1, b's', 0, 2, b'h', b'i', 0x03, 0, 1, b'i', 0, 0, 1, 0, 0x09, 0, 1, b'l', 0x03,
        0, 0, 0, 1, 0, 0, 0, 7, 0x0C, 0, 1, b'a', 0, 0, 0, 1, 0, 0, 0, 0, 0, 0, 0, 9, 0x00,
    ];
    let (v, _) = NbtValue::read_compound(&data).unwrap();
    assert_eq!(v.get_string("s"), Some("hi"));
    assert_eq!(v.get_int("i"), Some(256));
    assert_eq!(v.get_int("s"), None);
    assert_eq!(v.get_list("l").unwrap().len(), 1);
    assert!(v.get_compound("s").is_none());
    let c = clone_value(&v);
    assert_eq!(format!("{c:?}"), format!("{v:?}"));
}

fn compound(entries: Vec<(&str, NbtValue)>) -> NbtValue {
    NbtValue::Compound(entries.into_iter().map(|(k, v)| (k.to_string(), v)).collect())
}

fn sample_section(y: i8) -> NbtValue {
    compound(vec![
        ("Y", NbtValue::Byte(y)),
        (
            "block_states",
            compound(vec![
                (
                    "palette",
                    NbtValue::List(vec![
                        compound(vec![("Name", NbtValue::String("minecraft:air".into()))]),
                        compound(vec![
                            ("Name", NbtValue::String("minecraft:stone".into())),
                            (
                                "Properties",
                                compound(vec![
                                    ("level", NbtValue::Int(-12)),
                                    ("lit", NbtValue::Byte(1)),
                                    ("axis", NbtValue::String("y".into())),
                                    ("odd", NbtValue::Long(3)),
                                ]),
                            ),
                        ]),
                    ]),
                ),
                ("data", NbtValue::LongArray(vec![0x10; 256])),
            ]),
        ),
        (
            "biomes",
            compound(vec![
                ("palette", NbtValue::List(vec![NbtValue::String("minecraft:plains".into()), NbtValue::Int(3)])),
                ("data", NbtValue::LongArray(vec![0])),
            ]),
        ),
    ])
}

#[test]
fn section_palette_properties() {
    let sec = parse_section(&sample_section(-4)).unwrap();
    assert_eq!(sec.y, -4);
    assert_eq!(sec.palette.len(), 2);
    assert_eq!(sec.bits_per_block, 4);
    assert_eq!(sec.palette[1].name, "minecraft:stone");
    assert_eq!(
        sec.palette[1].properties,
        vec![
            ("level".to_string(), "-12".to_string()),
            ("lit".to_string(), "1".to_string()),
            ("axis".to_string(), "y".to_string()),
            ("odd".to_string(), "?".to_string()),
        ]
    );
    assert_eq!(sec.biome_palette, vec!["minecraft:plains".to_string()]);
    // each word 0x10 holds entries 0, 1, 0, ... (4 bits each, low bits first)
    assert_eq!(sec.get_block_name(0, 0, 0), "minecraft:air");
    assert_eq!(sec.get_block_name(1, 0, 0), "minecraft:stone");
    let stone = sec.get_block(1, 0, 0);
    assert_eq!(stone.name, "minecraft:stone");
    assert_eq!(stone.properties, sec.palette[1].properties);
    assert_eq!(sec.get_biome(0, 0, 0), Some("minecraft:plains"));
    let mut it = sec.iter_non_air();
    let first = it.next().unwrap();
    assert_eq!((first.0, first.1, first.2), (1, 0, 0));
    assert!(parse_section(&NbtValue::Int(1)).is_none());
    assert!(parse_palette(&[]).is_none());
}

#[test]
fn block_entity_parsing() {
    let be = compound(vec![
        ("id", NbtValue::String("minecraft:chest".into())),
        ("x", NbtValue::Int(1)),
        ("y", NbtValue::Int(64)),
        ("z", NbtValue::Int(-3)),
    ]);
    let e = parse_block_entity(&be).unwrap();
    assert_eq!((e.x, e.y, e.z), (1, 64, -3));
    assert_eq!(e.id, "minecraft:chest");
    assert_eq!(e.data.len(), 4);
    let missing = compound(vec![("id", NbtValue::String("minecraft:chest".into()))]);
    assert!(parse_block_entity(&missing).is_none());
}

fn sample_chunk() -> NbtValue {
    let mut hm = vec![0i64; 37];
    // column (0, 0): 9-bit entry 0 = 70
    hm[0] = 70;
    compound(vec![
        ("xPos", NbtValue::Int(2)),
        ("zPos", NbtValue::Int(-1)),
        ("Status", NbtValue::String("minecraft:full".into())),
        ("sections", NbtValue::List(vec![sample_section(-4), sample_section(-3), NbtValue::Int(0)])),
        ("block_entities", NbtValue::List(vec![])),
        ("Heightmaps", compound(vec![("MOTION_BLOCKING", NbtValue::LongArray(hm)), ("X", NbtValue::Int(1))])),
    ])
}

#[test]
fn chunk_from_nbt() {
    let c = Chunk::from_nbt(&sample_chunk()).unwrap();
    assert_eq!((c.x, c.z), (2, -1));
    assert_eq!(c.data_version, 0);
    assert_eq!(c.status, "minecraft:full");
    assert_eq!(c.sections.len(), 2);
    assert_eq!(c.min_y, -64);
    assert_eq!(c.heightmaps.len(), 1);
    assert_eq!(c.get_top_y(0, 0), Some(70));
    assert_eq!(c.get_block(32 + 1, -64, -16), "minecraft:stone");
    assert_eq!(c.get_block(32, 200, -16), "minecraft:air");
    assert!(c.get_section(-3).is_some());
    assert!(c.get_section(5).is_none());
    assert!(Chunk::from_nbt(&compound(vec![("xPos", NbtValue::Int(1))])).is_none());
    assert_eq!(block_name_in_chunk(&c, 33, -64, -16), Some("minecraft:stone".to_string()));
    assert_eq!(block_name_in_chunk(&c, 32, -64, -16), None);
    assert_eq!(top_y_in_chunk(&c, 32, -16), Some(70));
}

#[test]
fn chunk_block_iterator() {
    let c = Chunk::from_nbt(&sample_chunk()).unwrap();
    let mut it = c.iter_blocks();
    // the first non-air block of section -4 is reported with the following section's Y
    let (x, y, z, b) = it.next().unwrap();
    assert_eq!((x, y, z), (33, -48, -16));
    assert_eq!(b.name, "minecraft:stone");
}

#[test]
fn world_coordinates() {
    assert_eq!(region_of_chunk(33, -1), (1, -1));
    assert_eq!(chunk_of_block(-1, 17), (-1, 1));
    assert_eq!(reported_block_name("minecraft:air"), None);
    assert_eq!(reported_block_name(""), None);
    assert_eq!(reported_block_name("minecraft:dirt"), Some("minecraft:dirt".to_string()));
}

#[test]
fn region_filename_parsing() {
    let path = Path::new("C:/nonexistent/r.0.0.mca");
    let filename = path.file_stem().unwrap().to_str().unwrap();
    let parts: Vec<&str> = filename.split('.').collect();
    assert_eq!(parts[0], "r");
    assert_eq!(parts[1], "0");
    assert_eq!(parts[2], "0");
    assert_eq!(region_coords_from_stem(filename), (0, 0));
}

#[test]
fn region_name_parsing() {
    assert_eq!(region_coords_from_stem("r.-3.12"), (-3, 12));
    assert_eq!(region_coords_from_stem("r.+7.x"), (7, 0));
    assert_eq!(region_coords_from_stem("r.2147483648.1"), (0, 1));
    assert_eq!(region_coords_from_stem("r.-2147483648.1"), (-2147483648, 1));
    assert_eq!(region_coords_from_stem("x.1.2"), (0, 0));
    assert_eq!(region_coords_from_stem("r.1"), (0, 0));
    assert_eq!(parse_region_file_name("r.1.-2.mca"), Some((1, -2)));
    assert_eq!(parse_region_file_name("r.1.-2.dat"), None);
    assert_eq!(parse_region_file_name("level.mca"), None);
}

fn header_with(entries: &[(usize, u32, u32)]) -> Vec<u8> {
    let mut h = vec![0u8; 8192];
    for &(i, loc, ts) in entries {
        h[i * 4..i * 4 + 4].copy_from_slice(&loc.to_be_bytes());
        h[4096 + i * 4..4096 + i * 4 + 4].copy_from_slice(&ts.to_be_bytes());
    }
    h
}

#[test]
fn region_header_and_chunks() {
    assert!(matches!(RegionFile::from_header("r.0.0", 100, &[]), Err(RegionError::HeaderTooSmall(100))));
    let h = header_with(&[(0, (2 << 8) | 1, 11), (33, (5 << 8) | 1, 22)]);
    let rf = RegionFile::from_header("r.1.0", 8192 * 2, &h).unwrap();
    assert_eq!((rf.region_x, rf.region_z), (1, 0));
    assert!(rf.has_chunk(32, 0));
    assert!(!rf.has_chunk(33, 0));
    assert_eq!(rf.chunk_coords(), vec![(32, 0), (33, 1)]);
    assert_eq!(rf.count_chunks_in_region(), 2);
    assert_eq!(rf.chunk_offset(32, 0).unwrap(), 2 * 4096);
    assert!(matches!(rf.chunk_offset(34, 0), Err(RegionError::ChunkNotPresent { x: 34, z: 0 })));

    let nbt = vec![0x0A, 0, 0, 0x03, 0, 4, b'x', b'P', b'o', b's', 0, 0, 0, 32, 0x00];
    // stored
    let c = rf.load_chunk_data(32, 0, 3, nbt.clone()).unwrap().unwrap();
    assert_eq!(c.timestamp, 11);
    assert_eq!(c.data.get_int("xPos"), Some(32));
    // zlib
    let mut z = flate2::write::ZlibEncoder::new(Vec::new(), flate2::Compression::default());
    z.write_all(&nbt).unwrap();
    let zc = z.finish().unwrap();
    let c = rf.load_chunk_data(33, 1, 2, zc).unwrap().unwrap();
    assert_eq!(c.timestamp, 22);
    assert_eq!(c.data.get_int("xPos"), Some(32));
    // gzip
    let mut g = flate2::write::GzEncoder::new(Vec::new(), flate2::Compression::default());
    g.write_all(&nbt).unwrap();
    let gc = g.finish().unwrap();
    let c = rf.load_chunk_data(32, 0, 1, gc).unwrap().unwrap();
    assert_eq!(c.data.get_int("xPos"), Some(32));
    // errors
    assert!(matches!(rf.load_chunk_data(32, 0, 9, vec![]), Some(Err(RegionError::UnsupportedCompression(9)))));
    assert!(matches!(rf.load_chunk_data(32, 0, 2, vec![1, 2, 3]), Some(Err(RegionError::Io(_)))));
    assert!(matches!(rf.load_chunk_data(32, 0, 3, vec![0x03, 0, 0]), Some(Err(RegionError::Nbt(NbtError::ExpectedCompound(_))))));
    assert!(rf.load_chunk_data(32, 0, 3, vec![]).is_none());
    let e = RegionError::LengthMismatch { declared: 1, actual: 2 };
    assert_eq!(e.message(), "chunk length mismatch: declared 1, actual 2");
}

#[test]
fn region_error_messages() {
    assert_eq!(RegionError::HeaderTooSmall(100).message(), "invalid region header: file too small (100 bytes)");
    assert_eq!(RegionError::ChunkNotPresent { x: -1, z: 3 }.message(), "chunk at (-1, 3) not present in region");
    assert_eq!(RegionError::UnsupportedCompression(9).message(), "unsupported compression type: 9");
    assert_eq!(
        RegionError::Nbt(NbtError::Incomplete { expected: 4, got: 1 }).message(),
        "NBT error: incomplete: expected 4 bytes, got 1"
    );
    let io = RegionError::Io(std::io::Error::new(std::io::ErrorKind::NotFound, "gone"));
    assert_eq!(io.message(), "I/O error: gone");
}

#[test]
fn nbt_error_messages() {
    assert_eq!(NbtError::UnknownTag(0x2f).message(), "unknown tag type: 0x2f");
    assert_eq!(NbtError::UnknownTag(7).message(), "unknown tag type: 0x07");
    assert_eq!(NbtError::UnknownTag(0xff).message(), "unknown tag type: 0xff");
    assert_eq!(NbtError::Incomplete { expected: 12, got: 0 }.message(), "incomplete: expected 12 bytes, got 0");
    assert_eq!(NbtError::InvalidUtf8.message(), "invalid UTF-8 in string tag");
    assert_eq!(NbtError::ExpectedCompound(TagType::Int).message(), "expected TAG_Compound for root, got Int");
    assert_eq!(
        NbtError::ExpectedCompound(TagType::LongArray).message(),
        format!("expected TAG_Compound for root, got {:?}", TagType::LongArray)
    );
}

#[test]
fn block_state_defaults() {
    let s = ChunkSection {
        y: 0,
        palette: vec![BlockState { name: "minecraft:stone".into(), properties: vec![] }],
        block_data: vec![],
        bits_per_block: 0,
        biome_palette: vec![],
        biome_data: vec![],
    };
    assert_eq!(s.palette_index(3, 4, 5), 0);
    assert_eq!(s.get_block_name(3, 4, 5), "minecraft:stone");
    assert_eq!(s.get_biome(0, 0, 0), None);
}

#[test]
fn lookup_checks() {
    let c = Chunk::from_nbt(&sample_chunk()).unwrap();
    assert!(c.block_lookup_ok(33, -64, -16));
    assert!(c.top_lookup_ok(15, 15));
    assert!(c.blocks_walkable());
    assert!(c.sections[0].lookups_ok());
    let short = ChunkSection {
        y: 0,
        palette: vec![
            BlockState { name: "minecraft:air".into(), properties: vec![] },
            BlockState { name: "minecraft:stone".into(), properties: vec![] },
        ],
        block_data: vec![0; 3],
        bits_per_block: 4,
        biome_palette: vec![],
        biome_data: vec![],
    };
    assert!(!short.lookups_ok());
    let it = c.iter_blocks();
    assert!(!it.next_in_last_now());
    let h = header_with(&[]);
    let rf = RegionFile::from_header("r.-1.0", 8192, &h).unwrap();
    assert!(rf.index_fits_table(-32, 0));
    assert!(rf.index_fits_table(-1, 31));
    // x offset 32 at z offset 0 indexes entry 32 of the table
    assert!(rf.index_fits_table(0, 0));
    assert!(!rf.index_fits_table(-33, 0));
    assert!(!rf.index_fits_table(-32, 32));
}

#[test]
fn chunk_iterator_walks_all_sections() {
    // one section whose only non-air block is the last entry, followed by one of air
    let mut data = vec![0i64; 256];
    data[255] = 1 << 60;
    let sec = compound(vec![
        ("Y", NbtValue::Byte(0)),
        (
            "block_states",
            compound(vec![
                (
                    "palette",
                    NbtValue::List(vec![
                        compound(vec![("Name", NbtValue::String("minecraft:air".into()))]),
                        compound(vec![("Name", NbtValue::String("minecraft:dirt".into()))]),
                    ]),
                ),
                ("data", NbtValue::LongArray(data)),
            ]),
        ),
    ]);
    let air = compound(vec![
        ("Y", NbtValue::Byte(1)),
        (
            "block_states",
            compound(vec![("palette", NbtValue::List(vec![compound(vec![("Name", NbtValue::String("minecraft:air".into()))])]))]),
        ),
    ]);
    let chunk = compound(vec![
        ("xPos", NbtValue::Int(0)),
        ("zPos", NbtValue::Int(0)),
        ("sections", NbtValue::List(vec![sec, air])),
    ]);
    let c = Chunk::from_nbt(&chunk).unwrap();
    let mut it = c.iter_blocks();
    assert!(!it.next_in_last_now());
    let (x, y, z, b) = it.next().unwrap();
    assert_eq!((x, y, z), (15, 16 + 15, 15));
    assert_eq!(b.name, "minecraft:dirt");
    assert!(!it.next_in_last_now());
    assert!(it.next().is_none());
}

#[test]
fn nbt_named_tag() {
    let mut buf = bytes::Bytes::from_static(&[0x03, 0, 1, b'n', 0, 0, 0, 5, 0xaa]);
    let (name, v) = NbtValue::read_named(&mut buf).unwrap();
    assert_eq!(name, "n");
    assert!(matches!(v, NbtValue::Int(5)));
    assert_eq!(&buf[..], &[0xaa]);
    let mut end = bytes::Bytes::from_static(&[0x00]);
    let (name, _) = NbtValue::read_named(&mut end).unwrap();
    assert_eq!(name, "");
    assert!(matches!(TagType::try_from(12), Ok(TagType::LongArray)));
    assert!(matches!(TagType::try_from(13), Err(NbtError::UnknownTag(13))));
}

#[test]
fn extract_packed_whole_words() {
    let data = vec![-1i64, 0x1234_5678_9abc_def0];
    assert_eq!(extract_packed(&data, 64, 0), u64::MAX);
    assert_eq!(extract_packed(&data, 64, 1), 0x1234_5678_9abc_def0);
}

#[test]
fn wide_palette_indices() {
    // 40 bits to an entry: entry 0 is the low 40 bits of the first word
    let mut data = vec![0i64; 2560];
    data[0] = 1;
    let sec = ChunkSection {
        y: 0,
        palette: vec![
            BlockState { name: "minecraft:air".into(), properties: vec![] },
            BlockState { name: "minecraft:stone".into(), properties: vec![] },
        ],
        block_data: data,
        bits_per_block: 40,
        biome_palette: vec![],
        biome_data: vec![],
    };
    assert!(sec.lookups_ok());
    assert_eq!(sec.palette_index(0, 0, 0), 1);
    assert_eq!(sec.get_block_name(0, 0, 0), "minecraft:stone");
    assert_eq!(sec.palette_index(1, 0, 0), 0);
    let mut it = sec.iter_non_air();
    let (x, y, z, b) = it.next().unwrap();
    assert_eq!((x, y, z), (0, 0, 0));
    assert_eq!(b.name, "minecraft:stone");
    assert!(it.next().is_none());
}

#[test]
fn section_without_palette_has_no_blocks() {
    let sec = ChunkSection {
        y: 0,
        palette: vec![],
        block_data: vec![],
        bits_per_block: 0,
        biome_palette: vec![],
        biome_data: vec![],
    };
    assert_eq!(sec.get_block_name(3, 4, 5), "");
    let air = sec.get_block(3, 4, 5);
    assert_eq!(air.name, "");
    assert!(air.properties.is_empty());
    assert!(sec.iter_non_air().next().is_none());
    // an index past the palette is unnamed air, not a block
    let mut data = vec![0i64; 256];
    data[0] = 0x5;
    let sec = ChunkSection {
        y: 0,
        palette: vec![
            BlockState { name: "minecraft:air".into(), properties: vec![] },
            BlockState { name: "minecraft:dirt".into(), properties: vec![] },
        ],
        block_data: data,
        bits_per_block: 4,
        biome_palette: vec![],
        biome_data: vec![],
    };
    assert!(sec.iter_non_air().next().is_none());
}

#[test]
fn block_lookup_outside_section_range() {
    let c = Chunk::from_nbt(&sample_chunk()).unwrap();
    let mut zero = c;
    zero.sections[0].y = 0;
    // y = 4096 is section 256, which no section index can hold
    assert_eq!(zero.get_block(33, 4096, -16), "minecraft:air");
    assert_eq!(zero.get_block(33, 1, -16), "minecraft:stone");
    assert!(zero.block_lookup_ok(33, 4096, -16));
}

#[test]
fn top_lookup_prefers_motion_blocking() {
    let mut ws = vec![0i64; 37];
    ws[0] = 10;
    let mut mb = vec![0i64; 37];
    mb[0] = 20;
    let chunk = compound(vec![
        ("xPos", NbtValue::Int(0)),
        ("zPos", NbtValue::Int(0)),
        ("sections", NbtValue::List(vec![])),
        ("Heightmaps", compound(vec![("WORLD_SURFACE", NbtValue::LongArray(ws.clone())), ("MOTION_BLOCKING", NbtValue::LongArray(mb))])),
    ]);
    let c = Chunk::from_nbt(&chunk).unwrap();
    assert_eq!(c.get_top_y(0, 0), Some(20));
    let only_ws = compound(vec![
        ("xPos", NbtValue::Int(0)),
        ("zPos", NbtValue::Int(0)),
        ("sections", NbtValue::List(vec![])),
        ("Heightmaps", compound(vec![("OCEAN_FLOOR", NbtValue::LongArray(vec![0; 37])), ("WORLD_SURFACE", NbtValue::LongArray(ws))])),
    ]);
    assert_eq!(Chunk::from_nbt(&only_ws).unwrap().get_top_y(0, 0), Some(10));
}

fn gzip(data: &[u8]) -> Vec<u8> {
    let mut g = flate2::write::GzEncoder::new(Vec::new(), flate2::Compression::default());
    g.write_all(data).unwrap();
    g.finish().unwrap()
}

#[test]
fn level_dat_name_and_version() {
    let mut nbt = vec![0x0a, 0, 0, 0x0a, 0, 4];
    nbt.extend_from_slice(b"Data");
    nbt.extend_from_slice(&[0x08, 0, 9]);
    nbt.extend_from_slice(b"LevelName");
    nbt.extend_from_slice(&[0, 5]);
    nbt.extend_from_slice(b"World");
    nbt.extend_from_slice(&[0x03, 0, 11]);
    nbt.extend_from_slice(b"DataVersion");
    nbt.extend_from_slice(&4671i32.to_be_bytes());
    nbt.extend_from_slice(&[0, 0]);
    let info = read_level_dat(&gzip(&nbt)).unwrap().unwrap().unwrap();
    assert_eq!(info.level_name.as_deref(), Some("World"));
    assert_eq!(info.data_version, Some(4671));
    // no Data compound: neither is reported
    let info = read_level_dat(&gzip(&[0x0a, 0, 0, 0])).unwrap().unwrap().unwrap();
    assert!(info.level_name.is_none() && info.data_version.is_none());
    // a root that is not a compound
    assert!(matches!(read_level_dat(&gzip(&[0x03, 0, 0, 0, 0, 0, 1])), Ok(Some(Err(NbtError::ExpectedCompound(TagType::Int))))));
    // not gzip data
    assert!(read_level_dat(&[1, 2, 3]).is_err());
    // empty data: the reader would panic
    assert!(matches!(read_level_dat(&gzip(&[])), Ok(None)));
}

#[test]
fn chunk_coords_order_and_membership() {
    // entries 33 (x 1, z 1), 1 (x 1, z 0) and 32 (x 0, z 1), in region (-1, 2)
    let h = header_with(&[(33, (2 << 8) | 1, 0), (1, (3 << 8) | 1, 0), (32, (4 << 8) | 1, 0)]);
    let rf = RegionFile::from_header("r.-1.2", 8192, &h).unwrap();
    let coords = rf.chunk_coords();
    assert_eq!(coords, vec![(-31, 64), (-32, 65), (-31, 65)]);
    for cz in 64..96 {
        for cx in -32..0 {
            assert_eq!(coords.contains(&(cx, cz)), rf.has_chunk(cx, cz));
        }
    }
}
