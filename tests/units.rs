use civ6_map::container::{deframe_payload, find_zlib_buffer_indexes, extract_zlib_buffer_from_civ6_save};
use civ6_map::error::MapError;
use civ6_map::extract::{next_retry_state, RetryState, ScanEvent};
use civ6_map::map::{
    decode_record, find_map_start_index, ownership_color, record_length, tile_coordinates,
    tiles_number_to_max_xy, TileColor, START_MAP_BUFFER,
};
use civ6_map::render::render_pixels;
use civ6_map::map::{MapGrid, Tile};

#[test]
fn known_map_sizes() {
    assert_eq!(tiles_number_to_max_xy(1144), Some((44, 26)));
    assert_eq!(tiles_number_to_max_xy(2280), Some((60, 38)));
    assert_eq!(tiles_number_to_max_xy(3404), Some((74, 46)));
    assert_eq!(tiles_number_to_max_xy(4536), Some((84, 54)));
    assert_eq!(tiles_number_to_max_xy(5760), Some((96, 60)));
    assert_eq!(tiles_number_to_max_xy(6996), Some((106, 66)));
}

#[test]
fn unknown_map_sizes() {
    assert_eq!(tiles_number_to_max_xy(0), None);
    assert_eq!(tiles_number_to_max_xy(1143), None);
    assert_eq!(tiles_number_to_max_xy(1145), None);
    assert_eq!(tiles_number_to_max_xy(usize::MAX), None);
}

fn frame(payload: &[u8]) -> Vec<u8> {
    let mut out = Vec::new();
    let mut pos = 0;
    while pos < payload.len() {
        let end = std::cmp::min(payload.len(), pos + 65536);
        out.extend_from_slice(&payload[pos..end]);
        pos = end;
        if pos < payload.len() {
            out.extend_from_slice(&[0xAA, 0xBB, 0xCC, 0xDD]);
        }
    }
    out
}

fn deframe_round_trip(len: usize) {
    let payload: Vec<u8> = (0..len).map(|i| (i % 251) as u8).collect();
    let framed = frame(&payload);
    assert_eq!(deframe_payload(&framed), payload);
}

#[test]
fn deframe_round_trip_lengths() {
    for len in [0usize, 1, 65536, 65537, 131080] {
        deframe_round_trip(len);
    }
}

#[test]
fn deframe_drops_framing_bytes() {
    let mut range = vec![1u8; 65536];
    range.extend_from_slice(&[9, 9, 9, 9]);
    range.extend_from_slice(&[2, 3]);
    let out = deframe_payload(&range);
    assert_eq!(out.len(), 65538);
    assert_eq!(&out[65536..], &[2, 3]);
    // A trailing run inside the framing gap is dropped.
    let mut short = vec![5u8; 65536];
    short.extend_from_slice(&[7, 7]);
    assert_eq!(deframe_payload(&short), vec![5u8; 65536]);
}

#[test]
fn record_lengths_for_all_flag_combinations() {
    assert_eq!(record_length(0, 0, 0), 55);
    assert_eq!(record_length(1, 0, 0), 79);
    assert_eq!(record_length(1, 1, 0), 99);
    assert_eq!(record_length(2, 0, 0), 99);
    assert_eq!(record_length(2, 1, 0), 99);
    assert_eq!(record_length(0, 1, 0), 55);
    assert_eq!(record_length(0, 0, 64), 72);
    assert_eq!(record_length(1, 0, 64), 96);
    assert_eq!(record_length(1, 1, 64), 116);
    assert_eq!(record_length(2, 0, 64), 116);
    assert_eq!(record_length(0, 1, 64), 72);
    assert_eq!(record_length(3, 1, 0xFF), 116);
    assert_eq!(record_length(0xFC, 0xFF, 0xBF), 55);
}

#[test]
fn ownership_colors() {
    assert_eq!(ownership_color(true, 7), TileColor::Red);
    assert_eq!(ownership_color(true, 0), TileColor::Blue);
    assert_eq!(ownership_color(true, 1), TileColor::Green);
    assert_eq!(ownership_color(true, 3), TileColor::White);
    assert_eq!(ownership_color(true, 255), TileColor::White);
    assert_eq!(ownership_color(false, 7), TileColor::Gray);
    assert_eq!(ownership_color(false, 0), TileColor::Gray);
    assert_eq!(TileColor::Red.rgb(), [255, 0, 0]);
    assert_eq!(TileColor::Blue.rgb(), [0, 0, 255]);
    assert_eq!(TileColor::Green.rgb(), [0, 255, 0]);
    assert_eq!(TileColor::White.rgb(), [255, 255, 255]);
    assert_eq!(TileColor::Gray.rgb(), [128, 128, 128]);
}

#[test]
fn tile_coordinates_rows_bottom_to_top() {
    assert_eq!(tile_coordinates(0, 44, 26), (0, 25));
    assert_eq!(tile_coordinates(43, 44, 26), (43, 25));
    assert_eq!(tile_coordinates(44, 44, 26), (0, 24));
    assert_eq!(tile_coordinates(1143, 44, 26), (43, 0));
}

#[test]
fn record_owner_read_near_tail() {
    let mut data = vec![0u8; 200];
    data[49] = 64;
    data[72 - 5] = 7;
    assert_eq!(decode_record(&data, 0), Ok((72, TileColor::Red)));
    data[51] = 1;
    data[75] = 1;
    data[116 - 5] = 1;
    assert_eq!(decode_record(&data, 0), Ok((116, TileColor::Green)));
}

#[test]
fn record_past_end_is_truncated() {
    let data = vec![0u8; 75];
    assert_eq!(decode_record(&data, 0), Err(MapError::TruncatedRecord));
    let data = vec![0u8; 76];
    assert_eq!(decode_record(&data, 0), Ok((55, TileColor::Gray)));
    assert_eq!(decode_record(&data, 1), Err(MapError::TruncatedRecord));
    assert_eq!(decode_record(&data, 1000), Err(MapError::TruncatedRecord));
    let mut data = vec![0u8; 100];
    data[51] = 1;
    data[75] = 1;
    data[49] = 64;
    assert_eq!(decode_record(&data, 0), Err(MapError::TruncatedRecord));
}

#[test]
fn map_marker_last_occurrence() {
    let mut data = vec![1u8; 5];
    data.extend_from_slice(&START_MAP_BUFFER);
    data.extend_from_slice(&[2u8; 3]);
    data.extend_from_slice(&START_MAP_BUFFER);
    assert_eq!(find_map_start_index(&data), Some(20));
    assert_eq!(find_map_start_index(&vec![0u8; 40]), None);
}

#[test]
fn block_indexes_and_resume_offset() {
    let mut data = b"CIV6".to_vec();
    data.extend_from_slice(&[0, 0, 1, 0, 0x78, 0x9C, 5, 6, 0, 0, 0xFF, 0xFF, 8]);
    assert_eq!(find_zlib_buffer_indexes(&data, 0), Some((4, 12)));
    assert_eq!(find_zlib_buffer_indexes(&data, 5), None);
    assert_eq!(find_zlib_buffer_indexes(&data, 1000), None);
    let mut out = vec![42u8];
    assert_eq!(extract_zlib_buffer_from_civ6_save(&data, &mut out, 0), Some(5));
    assert_eq!(out, vec![0x78, 0x9C, 5, 6, 0, 0, 0xFF, 0xFF]);
    let mut untouched = vec![42u8];
    assert_eq!(extract_zlib_buffer_from_civ6_save(&data, &mut untouched, 5), None);
    assert_eq!(untouched, vec![42u8]);
}

#[test]
fn block_without_stop_marker_is_not_found() {
    let data = vec![0, 0, 1, 0, 0x78, 0x9C, 1, 2, 3];
    assert_eq!(find_zlib_buffer_indexes(&data, 0), None);
}

#[test]
fn retry_transitions() {
    let first = RetryState::Searching { from: 0, tried: false };
    assert_eq!(
        next_retry_state(first, ScanEvent::NoBlock),
        RetryState::Failed(MapError::NoCompressedBlockFound)
    );
    let later = RetryState::Searching { from: 9, tried: true };
    assert_eq!(
        next_retry_state(later, ScanEvent::NoBlock),
        RetryState::Failed(MapError::NoMapInAnyBlock)
    );
    assert_eq!(
        next_retry_state(first, ScanEvent::Candidate { resume: 17, has_map: false }),
        RetryState::Searching { from: 17, tried: true }
    );
    assert_eq!(
        next_retry_state(later, ScanEvent::Candidate { resume: 17, has_map: true }),
        RetryState::Found
    );
    assert_eq!(next_retry_state(RetryState::Found, ScanEvent::NoBlock), RetryState::Found);
}

#[test]
fn render_places_tiles_with_row_shift() {
    let width = 44usize;
    let height = 26usize;
    let mut tiles = Vec::new();
    for i in 0..width * height {
        let (x, y) = tile_coordinates(i, width, height);
        let color = if i == 0 { TileColor::Red } else if i == 44 { TileColor::Blue } else { TileColor::Gray };
        tiles.push(Tile { x, y, color });
    }
    let grid = MapGrid { width, height, tiles };
    let bytes = render_pixels(&grid);
    let cw = width * 20 + 20;
    let ch = height * 20 + 20;
    assert_eq!(bytes.len(), cw * ch * 3);
    let px = |x: usize, y: usize| -> [u8; 3] {
        let k = (y * cw + x) * 3;
        [bytes[k], bytes[k + 1], bytes[k + 2]]
    };
    // Tile 0 is at (0, 25): an odd row, not shifted.
    assert_eq!(px(8, 25 * 20 + 13), [255, 0, 0]);
    assert_eq!(px(21, 25 * 20 + 26), [255, 0, 0]);
    assert_eq!(px(7, 25 * 20 + 13), [0, 0, 0]);
    assert_eq!(px(22, 25 * 20 + 13), [0, 0, 0]);
    // Tile 44 is at (0, 24): an even row, shifted by 10 pixels.
    assert_eq!(px(18, 24 * 20 + 13), [0, 0, 255]);
    assert_eq!(px(8, 24 * 20 + 13), [0, 0, 0]);
    assert_eq!(px(31, 24 * 20 + 26), [0, 0, 255]);
    assert_eq!(px(100, 5), [0, 0, 0]);
    assert_eq!(px(48, 13), [128, 128, 128]);
}
