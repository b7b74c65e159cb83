//! Rasterising a decoded map: one inset square of 14 by 14 pixels per tile
//! on a 20-pixel grid, with every other row shifted right by half a tile.
use vstd::prelude::*;

use vstd::arithmetic::div_mod::{lemma_fundamental_div_mod, lemma_fundamental_div_mod_converse};

use crate::map::{coords_of, map_dims, rgb_of, MapGrid, TileColor};

verus! {

/// Pixels per tile along each axis.
pub const TILE_PIXELS: usize = 20;

/// Width in pixels of the canvas for a map `width` tiles wide.
pub open spec fn canvas_width(width: int) -> int {
    width * 20 + 20
}

/// Height in pixels of the canvas for a map `height` tiles high.
pub open spec fn canvas_height(height: int) -> int {
    height * 20 + 20
}

/// The tile whose square covers pixel (`px`, `py`), as an index into the
/// tiles in stream order, or `None` for background. Squares span offsets 3
/// to 16 of their 20-pixel cell, cells start 5 pixels right and 10 pixels
/// down of the origin, and rows with an even row number sit 10 pixels
/// further right.
pub open spec fn tile_at_pixel(width: int, height: int, px: int, py: int) -> Option<int> {
    if py < 13 || (py - 13) % 20 >= 14 || (py - 13) / 20 >= height {
        None
    } else {
        let y = (py - 13) / 20;
        let shift = if y % 2 == 0 { 10int } else { 0int };
        if px < 8 + shift || (px - 8 - shift) % 20 >= 14 || (px - 8 - shift) / 20 >= width {
            None
        } else {
            let x = (px - 8 - shift) / 20;
            Some((height - 1 - y) * width + x)
        }
    }
}

/// Colour of pixel (`px`, `py`): the colour of the tile that covers it, or
/// black.
pub open spec fn pixel_rgb(width: int, height: int, colors: Seq<TileColor>, px: int, py: int) -> [u8; 3] {
    match tile_at_pixel(width, height, px, py) {
        Some(i) => rgb_of(colors[i]),
        None => [0, 0, 0],
    }
}

/// Byte `k` of the canvas, stored row by row with three bytes per pixel.
pub open spec fn canvas_byte(width: int, height: int, colors: Seq<TileColor>, k: int) -> u8 {
    let p = k / 3;
    pixel_rgb(width, height, colors, p % canvas_width(width), p / canvas_width(width))[k % 3]
}

/// Colours of the tiles of `grid`, in stream order.
pub open spec fn grid_colors(grid: &MapGrid) -> Seq<TileColor> {
    grid.tiles@.map_values(|t: crate::map::Tile| t.color)
}

/// `grid` has one tile for each cell of one of the known map sizes.
pub open spec fn grid_sized(grid: &MapGrid) -> bool {
    map_dims(grid.tiles@.len() as int) == Some((grid.width as int, grid.height as int))
}

fn tile_at(width: usize, height: usize, px: usize, py: usize) -> (r: Option<usize>)
    requires
        width <= 106,
        height <= 66,
        px < canvas_width(width as int),
        py < canvas_height(height as int),
    ensures
        match r {
            Some(i) => tile_at_pixel(width as int, height as int, px as int, py as int) == Some(i as int)
                && i < width * height,
            None => tile_at_pixel(width as int, height as int, px as int, py as int) is None,
        },
{
    if py < 13 || (py - 13) % 20 >= 14 || (py - 13) / 20 >= height {
        return None;
    }
    let y = (py - 13) / 20;
    let shift: usize = if y % 2 == 0 { 10 } else { 0 };
    if px < 8 + shift || (px - 8 - shift) % 20 >= 14 || (px - 8 - shift) / 20 >= width {
        return None;
    }
    let x = (px - 8 - shift) / 20;
    proof {
        assert((height - 1 - y) * width + x < width * height) by (nonlinear_arith)
            requires y < height, x < width;
        assert(width * height <= 106 * 66) by (nonlinear_arith)
            requires width <= 106, height <= 66;
    }
    Some((height - 1 - y) * width + x)
}

/// Draws `grid` on a canvas of `canvas_width` by `canvas_height` pixels,
/// three bytes (red, green, blue) per pixel, row by row.
pub fn render_pixels(grid: &MapGrid) -> (r: Vec<u8>)
    requires
        grid_sized(grid),
    ensures
        r@.len() == canvas_width(grid.width as int) * canvas_height(grid.height as int) * 3,
        forall|k: int| 0 <= k < r@.len() ==> #[trigger] r@[k] == canvas_byte(
            grid.width as int,
            grid.height as int,
            grid_colors(grid),
            k,
        ),
{
    let width = grid.width;
    let height = grid.height;
    assert(width <= 106 && height <= 66);
    let cw = width * TILE_PIXELS + TILE_PIXELS;
    let ch = height * TILE_PIXELS + TILE_PIXELS;
    assert(cw * ch <= 2140 * 1340) by (nonlinear_arith)
        requires cw <= 2140, ch <= 1340;
    let total = cw * ch * 3;
    let ghost colors = grid_colors(grid);
    let mut out: Vec<u8> = Vec::new();
    let mut k: usize = 0;
    while k < total
        invariant
            grid_sized(grid),
            width == grid.width,
            height == grid.height,
            width <= 106,
            height <= 66,
            cw == canvas_width(width as int),
            ch == canvas_height(height as int),
            total == cw * ch * 3,
            k <= total,
            colors == grid_colors(grid),
            grid.tiles@.len() == width * height,
            out@.len() == k,
            forall|j: int| 0 <= j < k ==> #[trigger] out@[j] == canvas_byte(width as int, height as int, colors, j),
        decreases total - k,
    {
        let p = k / 3;
        let px = p % cw;
        let py = p / cw;
        proof {
            assert(py < ch) by (nonlinear_arith)
                requires p == k / 3, k < cw * ch * 3, py == p / cw, cw > 0;
        }
        let rgb: [u8; 3] = match tile_at(width, height, px, py) {
            Some(i) => grid.tiles[i].color.rgb(),
            None => [0, 0, 0],
        };
        out.push(rgb[k % 3]);
        k = k + 1;
    }
    out
}

/// Every pixel of the square drawn for tile `index` shows that tile: the
/// square of the tile at image coordinates (x, y) spans columns
/// `x * 20 + 8` to `x * 20 + 21` (10 more on rows with an even y) and rows
/// `y * 20 + 13` to `y * 20 + 26`.
pub proof fn lemma_tile_square(width: int, height: int, index: int, ox: int, oy: int)
    requires
        width > 0,
        0 <= index < width * height,
        0 <= ox < 14,
        0 <= oy < 14,
    ensures
        ({
            let (x, y) = coords_of(index, width, height);
            let shift = if y % 2 == 0 { 10int } else { 0int };
            tile_at_pixel(width, height, x * 20 + 8 + shift + ox, y * 20 + 13 + oy) == Some(index)
        }),
{
    let (x, y) = coords_of(index, width, height);
    let shift = if y % 2 == 0 { 10int } else { 0int };
    lemma_fundamental_div_mod(index, width);
    assert(0 <= index / width < height) by (nonlinear_arith)
        requires width > 0, 0 <= index < width * height;
    assert(0 <= x < width);
    lemma_fundamental_div_mod_converse(y * 20 + oy, 20, y, oy);
    lemma_fundamental_div_mod_converse(x * 20 + ox, 20, x, ox);
    assert(y * 20 + 13 + oy - 13 == y * 20 + oy);
    assert(x * 20 + 8 + shift + ox - 8 - shift == x * 20 + ox);
    assert(height - 1 - y == index / width);
    assert((height - 1 - y) * width + x == index) by (nonlinear_arith)
        requires height - 1 - y == index / width, x == index % width, index == width * (index / width) + index % width;
}

} // verus!
