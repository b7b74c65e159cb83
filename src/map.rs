//! Decoding of the tile table in a decompressed game-state stream: the map
//! marker, the tile count and its map size, and one variable-length record
//! per tile.
use vstd::prelude::*;

use crate::error::MapError;
use crate::search::{has_match_from, is_last_match, matches_at, rfind};

verus! {

/// Bytes that precede the map's tile count.
pub const START_MAP_BUFFER: [u8; 12] = [
    0x0E, 0x00, 0x00, 0x00, 0x0F, 0x00, 0x00, 0x00, 0x06, 0x00, 0x00, 0x00,
];

/// Length of a tile record without any extension.
pub const BASE_RECORD_LEN: usize = 55;

/// Bytes of a record that are read to learn its length: the last flag byte
/// sits at offset 75.
pub const RECORD_PEEK_LEN: usize = 76;

/// The known map sizes: tile count, then width and height in tiles.
pub const MAP_SIZES: [(usize, (usize, usize)); 6] = [
    (1144, (44, 26)),
    (2280, (60, 38)),
    (3404, (74, 46)),
    (4536, (84, 54)),
    (5760, (96, 60)),
    (6996, (106, 66)),
];

/// Map width and height for each known tile count.
pub open spec fn map_dims(tiles: int) -> Option<(int, int)> {
    if tiles == 1144 {
        Some((44, 26))
    } else if tiles == 2280 {
        Some((60, 38))
    } else if tiles == 3404 {
        Some((74, 46))
    } else if tiles == 4536 {
        Some((84, 54))
    } else if tiles == 5760 {
        Some((96, 60))
    } else if tiles == 6996 {
        Some((106, 66))
    } else {
        None
    }
}

/// Width and height of a map of `max_tiles` tiles, for the six known map
/// sizes; `None` for any other count.
pub fn tiles_number_to_max_xy(max_tiles: usize) -> (r: Option<(usize, usize)>)
    ensures
        match r {
            Some((w, h)) => map_dims(max_tiles as int) == Some((w as int, h as int)) && w * h == max_tiles,
            None => map_dims(max_tiles as int) is None,
        },
{
    if max_tiles == 1144 {
        Some((44, 26))
    } else if max_tiles == 2280 {
        Some((60, 38))
    } else if max_tiles == 3404 {
        Some((74, 46))
    } else if max_tiles == 4536 {
        Some((84, 54))
    } else if max_tiles == 5760 {
        Some((96, 60))
    } else if max_tiles == 6996 {
        Some((106, 66))
    } else {
        None
    }
}

/// The map table starts at the last occurrence of the map marker.
pub open spec fn map_start(data: Seq<u8>) -> Option<int> {
    if has_match_from(data, START_MAP_BUFFER@, 0) {
        Some(choose|i: int| is_last_match(data, START_MAP_BUFFER@, i))
    } else {
        None
    }
}

/// A sequence has at most one last match.
pub proof fn lemma_last_match_unique(text: Seq<u8>, pattern: Seq<u8>, i: int, j: int)
    requires
        is_last_match(text, pattern, i),
        is_last_match(text, pattern, j),
    ensures
        i == j,
{
}

/// Position of the last map marker in `data`, if there is one.
pub fn find_map_start_index(data: &Vec<u8>) -> (r: Option<usize>)
    ensures
        match r {
            Some(i) => map_start(data@) == Some(i as int),
            None => map_start(data@) is None,
        },
{
    let marker = START_MAP_BUFFER;
    let r = rfind(data.as_slice(), &marker);
    match r {
        Some(i) => {
            assert(has_match_from(data@, START_MAP_BUFFER@, 0));
            let ghost c = choose|k: int| is_last_match(data@, START_MAP_BUFFER@, k);
            proof { lemma_last_match_unique(data@, START_MAP_BUFFER@, c, i as int); }
        },
        None => {},
    }
    r
}

/// Length of a tile record from its three flag bytes: `f1` at offset 51,
/// `f2` at offset 75 and `f3` at offset 49.
pub open spec fn record_len(f1: u8, f2: u8, f3: u8) -> int {
    55 + (if f1 & 1 != 0 {
        24 + if f2 & 1 != 0 { 20int } else { 0int }
    } else if f1 & 2 != 0 {
        44int
    } else {
        0int
    }) + if f3 & 64 != 0 { 17int } else { 0int }
}

/// Length of a tile record from its flag bytes `f1` (offset 51), `f2`
/// (offset 75) and `f3` (offset 49).
pub fn record_length(f1: u8, f2: u8, f3: u8) -> (r: usize)
    ensures
        r == record_len(f1, f2, f3),
        BASE_RECORD_LEN <= r <= 136,
{
    let mut len: usize = BASE_RECORD_LEN;
    if f1 & 1 != 0 {
        len = len + 24;
        if f2 & 1 != 0 {
            len = len + 20;
        }
    } else if f1 & 2 != 0 {
        len = len + 44;
    }
    if f3 & 64 != 0 {
        len = len + 17;
    }
    len
}

/// Colour of a tile on the rendered map.
#[derive(Debug, Clone, Copy, PartialEq, Eq, Structural)]
pub enum TileColor {
    /// Owned by no one.
    Gray,
    /// Owned by player 7.
    Red,
    /// Owned by player 0.
    Blue,
    /// Owned by player 1.
    Green,
    /// Owned by any other player.
    White,
}

/// Colour of a tile: gray when unowned, else by its owner's index.
pub open spec fn color_of(owned: bool, owner: u8) -> TileColor {
    if !owned {
        TileColor::Gray
    } else if owner == 7 {
        TileColor::Red
    } else if owner == 0 {
        TileColor::Blue
    } else if owner == 1 {
        TileColor::Green
    } else {
        TileColor::White
    }
}

/// Red, green and blue components of each tile colour.
pub open spec fn rgb_of(c: TileColor) -> [u8; 3] {
    match c {
        TileColor::Gray => [128, 128, 128],
        TileColor::Red => [255, 0, 0],
        TileColor::Blue => [0, 0, 255],
        TileColor::Green => [0, 255, 0],
        TileColor::White => [255, 255, 255],
    }
}

impl TileColor {
    /// Red, green and blue components of this colour.
    pub fn rgb(&self) -> (r: [u8; 3])
        ensures
            r == rgb_of(*self),
    {
        match self {
            TileColor::Gray => [128, 128, 128],
            TileColor::Red => [255, 0, 0],
            TileColor::Blue => [0, 0, 255],
            TileColor::Green => [0, 255, 0],
            TileColor::White => [255, 255, 255],
        }
    }
}

/// Colour of a tile whose record has the ownership flag `owned` and, when
/// set, the owner index `owner`.
pub fn ownership_color(owned: bool, owner: u8) -> (r: TileColor)
    ensures
        r == color_of(owned, owner),
{
    if !owned {
        TileColor::Gray
    } else if owner == 7 {
        TileColor::Red
    } else if owner == 0 {
        TileColor::Blue
    } else if owner == 1 {
        TileColor::Green
    } else {
        TileColor::White
    }
}

/// Image coordinates of tile `index` on a map of `width` by `height` tiles:
/// the stream stores rows bottom to top.
pub open spec fn coords_of(index: int, width: int, height: int) -> (int, int) {
    (index % width, height - index / width - 1)
}

/// Image coordinates of tile `index` on a map of `width` by `height` tiles.
pub fn tile_coordinates(index: usize, width: usize, height: usize) -> (r: (usize, usize))
    requires
        width > 0,
        index < width * height,
    ensures
        (r.0 as int, r.1 as int) == coords_of(index as int, width as int, height as int),
        r.0 < width,
        r.1 < height,
{
    proof {
        assert((index as int) / (width as int) < height) by (nonlinear_arith)
            requires width > 0, index < width * height;
        assert((index as int) % (width as int) < width) by (nonlinear_arith)
            requires width > 0;
    }
    (index % width, height - index / width - 1)
}

/// The record at `cursor`: its length and the colour of its tile, or
/// `None` where reading it would run past the end of `data`.
pub open spec fn record_at(data: Seq<u8>, cursor: int) -> Option<(int, TileColor)> {
    if cursor < 0 || cursor + RECORD_PEEK_LEN > data.len() {
        None
    } else {
        let len = record_len(data[cursor + 51], data[cursor + 75], data[cursor + 49]);
        if cursor + len > data.len() {
            None
        } else {
            Some((len, color_of(data[cursor + 49] & 64 != 0, data[cursor + len - 5])))
        }
    }
}

/// Decodes the tile record at `cursor`: its length, and the colour of its
/// tile. A record that runs past the end of `data` is `TruncatedRecord`.
pub fn decode_record(data: &Vec<u8>, cursor: usize) -> (r: Result<(usize, TileColor), MapError>)
    ensures
        match r {
            Ok((len, color)) => record_at(data@, cursor as int) == Some((len as int, color)),
            Err(e) => e == MapError::TruncatedRecord && record_at(data@, cursor as int) is None,
        },
{
    let n = data.len();
    if cursor > n || n - cursor < RECORD_PEEK_LEN {
        return Err(MapError::TruncatedRecord);
    }
    let f3 = data[cursor + 49];
    let f1 = data[cursor + 51];
    let f2 = data[cursor + 75];
    let len = record_length(f1, f2, f3);
    if n - cursor < len {
        return Err(MapError::TruncatedRecord);
    }
    let owned = f3 & 64 != 0;
    let owner = data[cursor + len - 5];
    Ok((len, ownership_color(owned, owner)))
}

/// Colours of `count` consecutive records starting at `cursor`, or `None`
/// if one of them is truncated.
pub open spec fn decode_colors(data: Seq<u8>, cursor: int, count: nat) -> Option<Seq<TileColor>>
    decreases count,
{
    if count == 0 {
        Some(Seq::empty())
    } else {
        match record_at(data, cursor) {
            None => None,
            Some((len, color)) => match decode_colors(data, cursor + len, (count - 1) as nat) {
                None => None,
                Some(rest) => Some(seq![color] + rest),
            },
        }
    }
}

/// Little-endian 32-bit integer at `i`.
pub open spec fn le_u32(data: Seq<u8>, i: int) -> int {
    data[i] + data[i + 1] * 256 + data[i + 2] * 65536 + data[i + 3] * 16777216
}

/// What the map table of `data` decodes to: width, height and the colour of
/// each tile in stream order, or the first failure met.
pub open spec fn decoded_map(data: Seq<u8>) -> Result<(int, int, Seq<TileColor>), MapError> {
    match map_start(data) {
        None => Err(MapError::NoMapMarker),
        Some(m) => if m + 16 > data.len() {
            Err(MapError::TruncatedRecord)
        } else {
            let count = le_u32(data, m + 12);
            match map_dims(count) {
                None => Err(MapError::UnrecognizedMapSize),
                Some((w, h)) => match decode_colors(data, m + 16, count as nat) {
                    None => Err(MapError::TruncatedRecord),
                    Some(colors) => Ok((w, h, colors)),
                },
            }
        },
    }
}

/// One decoded tile: its image coordinates and colour.
#[derive(Debug, Clone, Copy, PartialEq, Eq, Structural)]
pub struct Tile {
    pub x: usize,
    pub y: usize,
    pub color: TileColor,
}

/// A decoded map: its size in tiles and its tiles in stream order.
#[derive(Debug)]
pub struct MapGrid {
    pub width: usize,
    pub height: usize,
    pub tiles: Vec<Tile>,
}

/// `tiles` places each colour of `colors` at the coordinates of its index.
pub open spec fn tiles_match(tiles: Seq<Tile>, width: int, height: int, colors: Seq<TileColor>) -> bool {
    &&& tiles.len() == colors.len()
    &&& forall|i: int| 0 <= i < tiles.len() ==> {
        &&& (#[trigger] tiles[i]).color == colors[i]
        &&& (tiles[i].x as int, tiles[i].y as int) == coords_of(i, width, height)
    }
}

/// `grid` is the successful decoding `decoded`.
pub open spec fn grid_agrees(grid: MapGrid, decoded: Result<(int, int, Seq<TileColor>), MapError>) -> bool {
    match decoded {
        Ok((w, h, colors)) => {
            &&& grid.width == w
            &&& grid.height == h
            &&& tiles_match(grid.tiles@, w, h, colors)
        },
        Err(_) => false,
    }
}

/// `prefix` followed by what `rest` holds, if anything.
pub open spec fn prepend(prefix: Seq<TileColor>, rest: Option<Seq<TileColor>>) -> Option<Seq<TileColor>> {
    match rest {
        None => None,
        Some(s) => Some(prefix + s),
    }
}

/// Decodes the map table of a decompressed stream: finds the last map
/// marker, reads the tile count after it, looks up the map size, and decodes
/// one record per tile.
pub fn decode_map(data: &Vec<u8>) -> (r: Result<MapGrid, MapError>)
    ensures
        match r {
            Ok(grid) => grid_agrees(grid, decoded_map(data@)),
            Err(e) => decoded_map(data@) == Err::<(int, int, Seq<TileColor>), MapError>(e),
        },
{
    let n = data.len();
    let m = match find_map_start_index(data) {
        None => return Err(MapError::NoMapMarker),
        Some(m) => m,
    };
    if m > n || n - m < 16 {
        return Err(MapError::TruncatedRecord);
    }
    let count = (data[m + 12] as usize) + (data[m + 13] as usize) * 256 + (data[m + 14] as usize) * 65536
        + (data[m + 15] as usize) * 16777216;
    assert(count == le_u32(data@, m + 12));
    assert(map_start(data@) == Some(m as int));
    let (width, height) = match tiles_number_to_max_xy(count) {
        None => return Err(MapError::UnrecognizedMapSize),
        Some(dims) => dims,
    };
    let ghost start = (m + 16) as int;
    let mut tiles: Vec<Tile> = Vec::new();
    let ghost mut colors: Seq<TileColor> = Seq::empty();
    let mut cursor: usize = m + 16;
    let mut i: usize = 0;
    while i < count
        invariant
            n == data@.len(),
            count == width * height,
            width > 0,
            i <= count,
            map_dims(count as int) == Some((width as int, height as int)),
            map_start(data@) == Some(m as int),
            m + 16 <= n,
            start == m + 16,
            count == le_u32(data@, m + 12),
            decode_colors(data@, start, count as nat) == prepend(colors, decode_colors(data@, cursor as int, (count - i) as nat)),
            colors.len() == i,
            tiles_match(tiles@, width as int, height as int, colors),
        decreases count - i,
    {
        let (len, color) = match decode_record(data, cursor) {
            Err(e) => {
                assert(decode_colors(data@, cursor as int, (count - i) as nat) is None);
                assert(decode_colors(data@, start, count as nat) is None);
                return Err(e);
            },
            Ok(rec) => rec,
        };
        let (x, y) = tile_coordinates(i, width, height);
        tiles.push(Tile { x, y, color });
        proof {
            let rest = decode_colors(data@, cursor + len, (count - i - 1) as nat);
            assert(decode_colors(data@, cursor as int, (count - i) as nat) == match rest {
                None => None,
                Some(s) => Some(seq![color] + s),
            });
            if let Some(s) = rest {
                assert(colors + (seq![color] + s) =~= colors.push(color) + s);
            }
            colors = colors.push(color);
        }
        cursor = cursor + len;
        i = i + 1;
    }
    proof {
        assert(colors + Seq::<TileColor>::empty() =~= colors);
        assert(decode_colors(data@, start, count as nat) == Some(colors));
        assert(decoded_map(data@) == Ok::<(int, int, Seq<TileColor>), MapError>((width as int, height as int, colors)));
    }
    Ok(MapGrid { width, height, tiles })
}

/// `count` records of zero flag bytes, with the 21 bytes that the last
/// one's flag at offset 75 reaches, decode to `count` gray tiles.
pub proof fn lemma_zero_records(data: Seq<u8>, cursor: int, count: nat)
    requires
        0 <= cursor,
        cursor + 55 * count + 21 <= data.len(),
        forall|i: int| cursor <= i < cursor + 55 * count + 21 ==> data[i] == 0,
    ensures
        decode_colors(data, cursor, count) == Some(Seq::new(count, |i: int| TileColor::Gray)),
    decreases count,
{
    if count == 0 {
        assert(Seq::<TileColor>::empty() =~= Seq::new(0, |i: int| TileColor::Gray));
    } else {
        assert(data[cursor + 51] == 0 && data[cursor + 75] == 0 && data[cursor + 49] == 0);
        assert(0u8 & 1 == 0 && 0u8 & 2 == 0 && 0u8 & 64 == 0) by (bit_vector);
        assert(record_len(0, 0, 0) == 55);
        assert(record_at(data, cursor) == Some((55int, TileColor::Gray)));
        lemma_zero_records(data, cursor + 55, (count - 1) as nat);
        assert(seq![TileColor::Gray] + Seq::new((count - 1) as nat, |i: int| TileColor::Gray) =~= Seq::new(
            count,
            |i: int| TileColor::Gray,
        ));
    }
}

/// A map table of 1144 records of zero flag bytes, followed by the 21 bytes
/// that the last record's flag at offset 75 reaches, decodes to a map of 44
/// by 26 gray tiles.
pub proof fn lemma_minimal_map(data: Seq<u8>, m: int)
    requires
        0 <= m,
        map_start(data) == Some(m),
        m + 16 + 1144 * 55 + 21 <= data.len(),
        le_u32(data, m + 12) == 1144,
        forall|i: int| m + 16 <= i < m + 16 + 1144 * 55 + 21 ==> data[i] == 0,
    ensures
        decoded_map(data) == Ok::<(int, int, Seq<TileColor>), MapError>(
            (44, 26, Seq::new(1144, |i: int| TileColor::Gray)),
        ),
{
    lemma_zero_records(data, m + 16, 1144);
}

/// Where record `i` starts when records are read one after another from
/// `cursor`, each as long as its flag bytes say.
pub open spec fn record_start(data: Seq<u8>, cursor: int, i: nat) -> int
    decreases i,
{
    if i == 0 {
        cursor
    } else {
        record_start(
            data,
            cursor + record_len(data[cursor + 51], data[cursor + 75], data[cursor + 49]),
            (i - 1) as nat,
        )
    }
}

proof fn lemma_decode_colors_len(data: Seq<u8>, cursor: int, count: nat, colors: Seq<TileColor>)
    requires
        decode_colors(data, cursor, count) == Some(colors),
    ensures
        colors.len() == count,
    decreases count,
{
    if count > 0 {
        let (len, color) = record_at(data, cursor)->0;
        let rest = decode_colors(data, cursor + len, (count - 1) as nat)->0;
        lemma_decode_colors_len(data, cursor + len, (count - 1) as nat, rest);
    }
}

/// The `i`th colour decoded from the records at `cursor` comes from the
/// record at `record_start(data, cursor, i)`.
pub proof fn lemma_record_walk(data: Seq<u8>, cursor: int, count: nat, colors: Seq<TileColor>, i: nat)
    requires
        decode_colors(data, cursor, count) == Some(colors),
        i < count,
    ensures
        colors.len() == count,
        record_at(data, record_start(data, cursor, i)) == Some((
            record_len(
                data[record_start(data, cursor, i) + 51],
                data[record_start(data, cursor, i) + 75],
                data[record_start(data, cursor, i) + 49],
            ),
            colors[i as int],
        )),
    decreases count,
{
    let (len, color) = record_at(data, cursor)->0;
    let rest = decode_colors(data, cursor + len, (count - 1) as nat)->0;
    assert(colors == seq![color] + rest);
    if count > 1 {
        lemma_record_walk(data, cursor + len, (count - 1) as nat, rest, 0);
    } else {
        assert(rest.len() == 0) by {
            assert(decode_colors(data, cursor + len, 0) == Some(Seq::<TileColor>::empty()));
        }
    }
    if i > 0 {
        lemma_record_walk(data, cursor + len, (count - 1) as nat, rest, (i - 1) as nat);
    }
}

/// Each tile of a decoded map takes its colour from its own record, the
/// records being read one after another from just past the tile count.
pub proof fn lemma_tile_from_record(data: Seq<u8>, width: int, height: int, colors: Seq<TileColor>, i: nat)
    requires
        decoded_map(data) == Ok::<(int, int, Seq<TileColor>), MapError>((width, height, colors)),
        i < colors.len(),
    ensures
        ({
            let m = map_start(data)->0;
            let c = record_start(data, m + 16, i);
            record_at(data, c) == Some((record_len(data[c + 51], data[c + 75], data[c + 49]), colors[i as int]))
        }),
{
    let m = map_start(data)->0;
    let count = le_u32(data, m + 12);
    assert(decode_colors(data, m + 16, count as nat) == Some(colors));
    lemma_decode_colors_len(data, m + 16, count as nat, colors);
    lemma_record_walk(data, m + 16, count as nat, colors, i);
}

} // verus!
