use civ6_map::error::MapError;
use civ6_map::extract::extract_civ6_map_data;
use civ6_map::inflate::zlib_uncompress;
use civ6_map::map::{decode_map, tiles_number_to_max_xy, TileColor, MAP_SIZES, START_MAP_BUFFER};
use flate2::{Compress, Compression, FlushCompress};

/// A zlib stream of `data` that ends with a sync flush.
fn sync_flushed(data: &[u8]) -> Vec<u8> {
    let mut c = Compress::new(Compression::default(), true);
    let mut out = Vec::with_capacity(data.len() + 1024);
    c.compress_vec(data, &mut out, FlushCompress::Sync).unwrap();
    assert_eq!(&out[0..2], &[0x78, 0x9C]);
    assert_eq!(&out[out.len() - 4..], &[0, 0, 0xFF, 0xFF]);
    out
}

/// A framed block holding `stream`, which must be shorter than a segment.
fn framed_block(stream: &[u8]) -> Vec<u8> {
    assert!(stream.len() <= 65536);
    let mut block = vec![0, 0, 1, 0];
    block.extend_from_slice(stream);
    block
}

/// A decompressed stream with a map of 1144 minimal tiles, followed by
/// `tail` bytes of zeros.
fn map_stream(tail: usize) -> Vec<u8> {
    let mut data = vec![0x33u8; 10];
    data.extend_from_slice(&START_MAP_BUFFER);
    data.extend_from_slice(&1144u32.to_le_bytes());
    data.extend(std::iter::repeat(0u8).take(1144 * 55 + tail));
    data
}

fn container(blocks: &[Vec<u8>]) -> Vec<u8> {
    let mut data = b"CIV6".to_vec();
    data.extend_from_slice(&[0x11; 12]);
    for b in blocks {
        data.extend_from_slice(&framed_block(b));
        data.extend_from_slice(&[0x22; 8]);
    }
    data
}

#[test]
fn end_to_end_single_block() {
    let raw = container(&[sync_flushed(&map_stream(21))]);
    let mut out = Vec::new();
    assert_eq!(extract_civ6_map_data(&raw, &mut out), Ok(()));
    assert_eq!(out, map_stream(21));
    let grid = decode_map(&out).unwrap();
    assert_eq!((grid.width, grid.height), (44, 26));
    assert_eq!(grid.tiles.len(), 1144);
    assert!(grid.tiles.iter().all(|t| t.color == TileColor::Gray));
    assert_eq!((grid.tiles[0].x, grid.tiles[0].y), (0, 25));
    assert_eq!((grid.tiles[1143].x, grid.tiles[1143].y), (43, 0));
}

#[test]
fn truncated_last_record() {
    let mut data = map_stream(0);
    data.truncate(data.len() - 10);
    assert_eq!(decode_map(&data).unwrap_err(), MapError::TruncatedRecord);
    let raw = container(&[sync_flushed(&data)]);
    let mut out = Vec::new();
    assert_eq!(extract_civ6_map_data(&raw, &mut out), Ok(()));
    assert_eq!(decode_map(&out).unwrap_err(), MapError::TruncatedRecord);
}

#[test]
fn second_block_holds_the_map() {
    let first = sync_flushed(&[0x44u8; 3000]);
    let second = sync_flushed(&map_stream(21));
    let raw = container(&[first, second]);
    let mut out = Vec::new();
    assert_eq!(extract_civ6_map_data(&raw, &mut out), Ok(()));
    assert_eq!(out, map_stream(21));
    assert_eq!(decode_map(&out).unwrap().tiles.len(), 1144);
}

#[test]
fn corrupt_block_is_passed_over() {
    let mut broken = vec![0x78, 0x9C, 0xFF, 0xFF, 0xFF, 0xFF];
    broken.extend_from_slice(&[0, 0, 0xFF, 0xFF]);
    let raw = container(&[broken, sync_flushed(&map_stream(21))]);
    let mut out = Vec::new();
    assert_eq!(extract_civ6_map_data(&raw, &mut out), Ok(()));
    assert_eq!(out, map_stream(21));
}

#[test]
fn bad_magic() {
    let mut raw = container(&[sync_flushed(&map_stream(21))]);
    raw[0] = b'X';
    let mut out = Vec::new();
    assert_eq!(extract_civ6_map_data(&raw, &mut out), Err(MapError::BadMagic));
    assert_eq!(extract_civ6_map_data(&b"CIV".to_vec(), &mut out), Err(MapError::BadMagic));
}

#[test]
fn no_block_at_all() {
    let raw = container(&[]);
    let mut out = Vec::new();
    assert_eq!(extract_civ6_map_data(&raw, &mut out), Err(MapError::NoCompressedBlockFound));
}

#[test]
fn no_block_holds_a_map() {
    let raw = container(&[sync_flushed(&[7u8; 500]), sync_flushed(&[8u8; 500])]);
    let mut out = Vec::new();
    assert_eq!(extract_civ6_map_data(&raw, &mut out), Err(MapError::NoMapInAnyBlock));
}

#[test]
fn decode_map_errors() {
    assert_eq!(decode_map(&vec![0u8; 100]).unwrap_err(), MapError::NoMapMarker);
    let mut short = START_MAP_BUFFER.to_vec();
    short.extend_from_slice(&[0x78, 0x04]);
    assert_eq!(decode_map(&short).unwrap_err(), MapError::TruncatedRecord);
    let mut odd = START_MAP_BUFFER.to_vec();
    odd.extend_from_slice(&1000u32.to_le_bytes());
    odd.extend(std::iter::repeat(0u8).take(100_000));
    assert_eq!(decode_map(&odd).unwrap_err(), MapError::UnrecognizedMapSize);
}

#[test]
fn owned_tiles_take_owner_colors() {
    let mut data = map_stream(21);
    let first = 10 + 16;
    data[first + 49] = 64;
    // The first record grows to 72 bytes; its owner byte sits 5 from its end.
    data[first + 72 - 5] = 7;
    data.extend(std::iter::repeat(0u8).take(17));
    let grid = decode_map(&data).unwrap();
    assert_eq!(grid.tiles[0].color, TileColor::Red);
    assert_eq!(grid.tiles[1].color, TileColor::Gray);
}

#[test]
fn inflate_many_sync_flushed_blocks() {
    let mut x: u64 = 12345;
    let data: Vec<u8> = (0..200_000)
        .map(|_| {
            x = x.wrapping_mul(6364136223846793005).wrapping_add(1442695040888963407);
            (x >> 56) as u8
        })
        .collect();
    let mut c = Compress::new(Compression::default(), true);
    let mut stream = Vec::with_capacity(data.len() * 2 + 4096);
    for part in data.chunks(30_000) {
        let before = c.total_in() as usize;
        c.compress_vec(part, &mut stream, FlushCompress::Sync).unwrap();
        assert_eq!(c.total_in() as usize - before, part.len());
    }
    assert!(stream.len() > 65536);
    let mut out = vec![9u8, 9];
    zlib_uncompress(&stream, &mut out);
    assert_eq!(&out[..2], &[9, 9]);
    assert_eq!(&out[2..], &data[..]);
}

#[test]
fn inflate_keeps_bytes_before_corruption() {
    let data = vec![0x5Au8; 5000];
    let mut stream = sync_flushed(&data);
    stream.extend_from_slice(&[0xFF; 16]);
    let mut out = Vec::new();
    zlib_uncompress(&stream, &mut out);
    assert_eq!(out, data);
}

#[test]
fn map_sizes_table() {
    for (count, dims) in MAP_SIZES {
        assert_eq!(tiles_number_to_max_xy(count), Some(dims));
        assert_eq!(dims.0 * dims.1, count);
    }
}

#[test]
fn inflate_flushes_output_after_input_is_consumed() {
    let data = vec![0u8; 300_000];
    let stream = sync_flushed(&data);
    assert!(stream.len() < 2000);
    let mut out = Vec::new();
    zlib_uncompress(&stream, &mut out);
    assert_eq!(out.len(), data.len());
    assert_eq!(out, data);
}
