use voxelcore::block::Block;
use voxelcore::chunk::Chunk;
use voxelcore::coords::Coords;
use voxelcore::wire::{parse_i64, push_be_i64, push_i64_dec, read_be_u32, push_be_u32, split_bytes};
use voxelcore::worldgen::ColumnHeights;
use voxelcore::worldmap::WorldMap;

fn flat_heights(basalt: i64, granite: i64) -> Vec<ColumnHeights> {
    vec![ColumnHeights { basalt, granite }; 1024]
}

fn inflate(data: &[u8]) -> Option<Vec<u8>> {
    let mut dec = flate2::read::DeflateDecoder::new(data);
    let mut out = Vec::new();
    match std::io::Read::read_to_end(&mut dec, &mut out) {
        Ok(_) => Some(out),
        Err(_) => None,
    }
}

fn deflate(data: &[u8]) -> Vec<u8> {
    let mut enc = flate2::write::DeflateEncoder::new(Vec::new(), flate2::Compression::default());
    std::io::Write::write_all(&mut enc, data).unwrap();
    enc.finish().unwrap()
}

#[test]
fn chunk_local_recompose_negative() {
    let w = Coords(-1, -33, 65);
    let cc = w.chunk();
    let lc = w.in_chunk();
    assert_eq!(cc, Coords(-1, -2, 2));
    assert_eq!(lc, Coords(31, 31, 1));
    assert_eq!(cc.0 * 32 + lc.0, w.0);
    assert_eq!(cc.1 * 32 + lc.1, w.1);
    assert_eq!(cc.2 * 32 + lc.2, w.2);
}

#[test]
fn chunk_local_recompose_zero_and_positive() {
    for &w in &[Coords(0, 0, 0), Coords(31, 32, 33), Coords(1000, -1000, 12345)] {
        let cc = w.chunk();
        let lc = w.in_chunk();
        for (c, l, orig) in [(cc.0, lc.0, w.0), (cc.1, lc.1, w.1), (cc.2, lc.2, w.2)] {
            assert!(0 <= l && l < 32);
            assert_eq!(c * 32 + l, orig);
        }
    }
}

#[test]
fn parse_signed_decimals() {
    assert_eq!(parse_i64(b"0"), Some(0));
    assert_eq!(parse_i64(b"-123"), Some(-123));
    assert_eq!(parse_i64(b"9223372036854775807"), Some(i64::MAX));
    assert_eq!(parse_i64(b"-9223372036854775808"), Some(i64::MIN));
    assert_eq!(parse_i64(b"9223372036854775808"), None);
    assert_eq!(parse_i64(b"12a"), None);
    assert_eq!(parse_i64(b""), None);
    assert_eq!(parse_i64(b"-"), None);
}

#[test]
fn decimal_rendering() {
    let mut out = Vec::new();
    push_i64_dec(&mut out, -45);
    push_i64_dec(&mut out, 0);
    push_i64_dec(&mut out, 12000);
    assert_eq!(out, b"-45012000".to_vec());
}

#[test]
fn big_endian_encoding() {
    let mut out = Vec::new();
    push_be_i64(&mut out, -1);
    assert_eq!(out, vec![0xff; 8]);
    let mut out2 = Vec::new();
    push_be_i64(&mut out2, 258);
    assert_eq!(out2, vec![0, 0, 0, 0, 0, 0, 1, 2]);
    let mut out3 = Vec::new();
    push_be_u32(&mut out3, 0x01020304);
    assert_eq!(out3, vec![1, 2, 3, 4]);
    assert_eq!(read_be_u32(&out3), Some(0x01020304));
    assert_eq!(read_be_u32(&[1, 2]), None);
}

#[test]
fn splitting_keeps_empty_pieces() {
    let pieces = split_bytes(b"a,,b", 44);
    assert_eq!(pieces, vec![b"a".to_vec(), b"".to_vec(), b"b".to_vec()]);
    let single = split_bytes(b"xyz", 44);
    assert_eq!(single, vec![b"xyz".to_vec()]);
    let empty = split_bytes(b"", 44);
    assert_eq!(empty, vec![b"".to_vec()]);
}

#[test]
fn generated_chunk_below_sea_is_water() {
    // Zero heights: terrain tops out at 160, sea level is 800 fifths,
    // so the chunk at the origin is entirely water.
    let h = flat_heights(0, 0);
    let c = Chunk::new(Coords(0, 0, 0), &h);
    assert!(!c.is_air());
    assert!(c.is_unchanged());
    assert_eq!(c.get_block(Coords(0, 0, 0)).matter, 2);
    assert_eq!(c.get_block(Coords(31, 31, 31)).matter, 2);
}

#[test]
fn air_predicate_means_all_air() {
    // The chunk starting at y = 320 sits above every column's terrain
    // height of 160, so the whole chunk is air.
    let h = flat_heights(0, 0);
    let c = Chunk::new(Coords(0, 10, 0), &h);
    assert!(c.is_air());
    let mut it = c.iter();
    let mut n = 0u32;
    while let Some((_, b)) = it.next() {
        assert_eq!(b.matter, 0);
        n += 1;
    }
    assert_eq!(n, 32768);
}

#[test]
fn terrain_layers() {
    // Basalt floor at 5 * 4, granite surface at 5 * 8: dark stone up to
    // y 3, light stone up to y 7, water up to sea level, air above.
    let h = flat_heights(20, 40);
    let c = Chunk::new(Coords(0, 0, 0), &h);
    assert_eq!(c.get_block(Coords(5, 0, 5)).matter, 1);
    assert_eq!(c.get_block(Coords(5, 3, 5)).matter, 1);
    assert_eq!(c.get_block(Coords(5, 4, 5)).matter, 3);
    assert_eq!(c.get_block(Coords(5, 7, 5)).matter, 3);
    assert_eq!(c.get_block(Coords(5, 8, 5)).matter, 2);
}

#[test]
fn serialize_decompresses_to_exact_blocks() {
    let h = flat_heights(0, 0);
    let mut c = Chunk::new(Coords(0, 0, 0), &h);
    let z = c.write_to();
    let raw = inflate(&z).expect("the serialized chunk is a valid stream");
    assert_eq!(raw.len(), 32768);
    assert!(raw.iter().all(|&b| b == 2));
}

#[test]
fn serialize_cache_and_invalidation() {
    let h = flat_heights(0, 0);
    let mut c = Chunk::new(Coords(0, 0, 0), &h);
    let z1 = c.write_to();
    let z2 = c.write_to();
    assert_eq!(z1, z2);
    c.replace_block(Coords(1, 2, 3), Block::new(3));
    let z3 = c.write_to();
    let raw = inflate(&z3).unwrap();
    assert_eq!(raw[1 + 2 * 32 + 3 * 1024], 3);
}

#[test]
fn all_air_is_one_way() {
    let h = flat_heights(0, 0);
    let mut c = Chunk::new(Coords(0, 10, 0), &h);
    assert!(c.is_air());
    c.replace_block(Coords(0, 0, 0), Block::new(1));
    assert!(!c.is_air());
    c.replace_block(Coords(0, 0, 0), Block::new(0));
    assert!(!c.is_air());
}

#[test]
fn dirty_tracks_overwrites() {
    let h = flat_heights(0, 0);
    let mut c = Chunk::new(Coords(0, 0, 0), &h);
    assert!(c.is_unchanged());
    c.replace_block(Coords(0, 0, 0), Block::new(0));
    assert!(!c.is_unchanged());
}

#[test]
fn load_rejects_corrupt_payloads() {
    assert!(Chunk::load(&vec![1, 2, 3]).is_err());
    let short = deflate(&vec![0u8; 100]);
    assert!(Chunk::load(&short).is_err());
    let good = deflate(&vec![0u8; 32768]);
    let c = Chunk::load(&good).expect("a full image loads");
    assert!(c.is_air());
    assert!(c.is_unchanged());
}

#[test]
fn map_replace_then_get() {
    let mut m = WorldMap::new(0, Vec::new());
    let h = flat_heights(0, 0);
    let w = Coords(10, 5, 10);
    assert!(!m.ensure_chunk(w.chunk()));
    m.insert_generated(w.chunk(), &h);
    m.replace_block(w, Block::new(3));
    assert_eq!(m.get_block(w).matter, 3);
    // a neighbouring block is untouched
    assert_eq!(m.get_block(Coords(11, 5, 10)).matter, 2);
}

#[test]
fn tick_wraps_at_day_length() {
    let mut m = WorldMap::new(0, Vec::new());
    m.tick(12000);
    assert_eq!(m.get_time(), 0);
    m.tick(600);
    assert_eq!(m.get_time(), 600);
    m.tick(11500);
    assert_eq!(m.get_time(), 100);
}

#[test]
fn save_then_reload_restores_blocks_and_time() {
    let mut m = WorldMap::new(0, Vec::new());
    let h = flat_heights(0, 0);
    let w = Coords(1, 2, 3);
    m.insert_generated(w.chunk(), &h);
    m.replace_block(w, Block::new(1));
    m.tick(777);
    let saved = m.save();
    assert_eq!(saved.len(), 1);
    let mut m2 = WorldMap::new(m.get_time() as u32, saved);
    assert!(m2.ensure_chunk(w.chunk()));
    assert_eq!(m2.get_block(w).matter, 1);
    assert_eq!(m2.get_block(Coords(0, 2, 3)).matter, 2);
    assert_eq!(m2.get_time(), 777);
}

#[test]
fn save_skips_clean_chunks() {
    let mut m = WorldMap::new(0, Vec::new());
    let h = flat_heights(0, 0);
    m.insert_generated(Coords(0, 0, 0), &h);
    assert_eq!(m.save().len(), 0);
}

#[test]
fn corrupt_payload_is_logged_and_regenerated() {
    let cc = Coords(0, 0, 0);
    let mut m = WorldMap::new(0, vec![(cc, vec![9, 9, 9])]);
    assert!(!m.ensure_chunk(cc));
    assert_eq!(m.corrupt_log().len(), 1);
    assert_eq!(m.corrupt_log()[0], cc);
    let h = flat_heights(0, 0);
    m.insert_generated(cc, &h);
    assert_eq!(m.get_block(Coords(0, 0, 0)).matter, 2);
}
