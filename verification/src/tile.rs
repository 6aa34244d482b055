//! Tile scheduling: the image is partitioned into fixed-size square tiles,
//! clipped at the image edges. The tiles are the units of render work; they
//! are pairwise disjoint and together cover the image exactly, so concurrent
//! workers writing their own tiles never touch the same pixel.

use vstd::prelude::*;
use vstd::arithmetic::div_mod::{
    lemma_fundamental_div_mod, lemma_fundamental_div_mod_converse, lemma_multiply_divide_lt,
};
use vstd::arithmetic::mul::{lemma_mul_inequality, lemma_mul_is_distributive_add};

verus! {

/// A clipped rectangular sub-region of the image, one unit of render work.
#[derive(Clone, Copy, PartialEq, Eq, Structural, Debug)]
pub struct RenderTile {
    pub left: u32,
    pub top: u32,
    pub width: u32,
    pub height: u32,
}

impl RenderTile {
    /// Pixel (px, py) lies inside this tile.
    pub open spec fn contains(self, px: int, py: int) -> bool {
        &&& self.left <= px < self.left + self.width
        &&& self.top <= py < self.top + self.height
    }
}

/// How many grid cells of `tile_size` pixels are needed to span `extent`
/// pixels: the quotient rounded up.
pub open spec fn grid_cells(extent: int, tile_size: int) -> int
    recommends
        tile_size >= 1,
{
    (extent + tile_size - 1) / tile_size
}

/// The tile of grid cell (xi, yi): a `tile_size` square clipped at the image edges.
pub open spec fn is_grid_tile(
    t: RenderTile,
    width: int,
    height: int,
    tile_size: int,
    xi: int,
    yi: int,
) -> bool {
    &&& t.left == xi * tile_size
    &&& t.top == yi * tile_size
    &&& t.width == if width - t.left >= tile_size {
        tile_size
    } else {
        width - t.left
    }
    &&& t.height == if height - t.top >= tile_size {
        tile_size
    } else {
        height - t.top
    }
}

/// Position, in the generated tile list, of the tile whose grid cell holds
/// pixel (px, py).
pub open spec fn tile_index_of(height: int, tile_size: int, px: int, py: int) -> int
    recommends
        tile_size >= 1,
{
    (px / tile_size) * grid_cells(height, tile_size) + py / tile_size
}

/// Ceiling division, used to size the tile grid.
fn div_ceil_u32(extent: u32, tile_size: u32) -> (r: u32)
    requires
        tile_size >= 1,
    ensures
        r == grid_cells(extent as int, tile_size as int),
{
    proof {
        assert((extent + tile_size - 1) / (tile_size as int) <= extent) by (nonlinear_arith)
            requires
                tile_size >= 1,
                extent >= 0,
        ;
    }
    (((extent as u64) + (tile_size as u64) - 1) / (tile_size as u64)) as u32
}

/// A grid cell's corner offset stays strictly inside the image: with
/// `cells == grid_cells(extent, tile_size)`, cell index `ci < cells` starts at
/// `ci * tile_size <= extent - 1`.
proof fn lemma_cell_start_in_extent(extent: int, tile_size: int, ci: int)
    requires
        tile_size >= 1,
        0 <= ci < grid_cells(extent, tile_size),
    ensures
        ci * tile_size < extent,
{
    let cells = grid_cells(extent, tile_size);
    lemma_fundamental_div_mod(extent + tile_size - 1, tile_size);
    // tile_size * cells <= extent + tile_size - 1, so (cells - 1) * tile_size <= extent - 1
    lemma_mul_is_distributive_add(tile_size, cells - 1, 1);
    lemma_mul_inequality(ci, cells - 1, tile_size);
}

/// Partition the image into square tiles of `tile_size` pixels, clipped at the
/// right and bottom edges, columns left to right and each column top to bottom.
///
/// The tiles exactly cover the image: every pixel of the image lies in the
/// tile at position `tile_index_of` of the result, and in no other tile.
pub fn generate_tiles(width: u32, height: u32, tile_size: u32) -> (tiles: Vec<RenderTile>)
    requires
        tile_size >= 1,
    ensures
        tiles.len() == grid_cells(width as int, tile_size as int) * grid_cells(
            height as int,
            tile_size as int,
        ),
        forall|i: int|
            0 <= i < tiles.len() ==> is_grid_tile(
                #[trigger] tiles@[i],
                width as int,
                height as int,
                tile_size as int,
                i / grid_cells(height as int, tile_size as int),
                i % grid_cells(height as int, tile_size as int),
            ),
        // every tile is a non-empty rectangle inside the image
        forall|i: int|
            0 <= i < tiles.len() ==> {
                let t = #[trigger] tiles@[i];
                &&& 1 <= t.width && t.left + t.width <= width
                &&& 1 <= t.height && t.top + t.height <= height
            },
        // no gaps: each image pixel lies in the tile the grid assigns it
        forall|px: int, py: int|
            0 <= px < width && 0 <= py < height ==> {
                let i = #[trigger] tile_index_of(height as int, tile_size as int, px, py);
                &&& 0 <= i < tiles.len()
                &&& tiles@[i].contains(px, py)
            },
        // no overlaps: a tile holds only the pixels of its own grid cell
        forall|i: int, px: int, py: int|
            0 <= i < tiles.len() && #[trigger] tiles@[i].contains(px, py) ==> i == tile_index_of(
                height as int,
                tile_size as int,
                px,
                py,
            ),
{
    let ghost w = width as int;
    let ghost h = height as int;
    let ghost ts = tile_size as int;
    let grid_w = div_ceil_u32(width, tile_size);
    let grid_h = div_ceil_u32(height, tile_size);
    let mut tiles: Vec<RenderTile> = Vec::new();
    let mut xi: u32 = 0;
    while xi < grid_w
        invariant
            tile_size >= 1,
            grid_w == grid_cells(w, ts),
            grid_h == grid_cells(h, ts),
            w == width as int && h == height as int && ts == tile_size as int,
            xi <= grid_w,
            tiles.len() == xi * grid_h,
            forall|i: int|
                0 <= i < tiles.len() ==> is_grid_tile(
                    #[trigger] tiles@[i],
                    w,
                    h,
                    ts,
                    i / (grid_h as int),
                    i % (grid_h as int),
                ),
        decreases grid_w - xi,
    {
        let mut yi: u32 = 0;
        proof {
            lemma_cell_start_in_extent(w, ts, xi as int);
        }
        let left = xi * tile_size;
        let tw = if width - left >= tile_size {
            tile_size
        } else {
            width - left
        };
        while yi < grid_h
            invariant
                tile_size >= 1,
                grid_w == grid_cells(w, ts),
                grid_h == grid_cells(h, ts),
                w == width as int && h == height as int && ts == tile_size as int,
                xi < grid_w,
                yi <= grid_h,
                left == xi * ts && left < w,
                tw == if w - left >= ts { ts } else { w - left },
                tiles.len() == xi * grid_h + yi,
                forall|i: int|
                    0 <= i < tiles.len() ==> is_grid_tile(
                        #[trigger] tiles@[i],
                        w,
                        h,
                        ts,
                        i / (grid_h as int),
                        i % (grid_h as int),
                    ),
            decreases grid_h - yi,
        {
            proof {
                lemma_cell_start_in_extent(h, ts, yi as int);
            }
            let top = yi * tile_size;
            let th = if height - top >= tile_size {
                tile_size
            } else {
                height - top
            };
            tiles.push(RenderTile { left, top, width: tw, height: th });
            proof {
                lemma_fundamental_div_mod_converse(
                    xi * grid_h + yi,
                    grid_h as int,
                    xi as int,
                    yi as int,
                );
            }
            yi = yi + 1;
        }
        xi = xi + 1;
        proof {
            lemma_mul_is_distributive_add(grid_h as int, xi as int - 1, 1);
            lemma_mul_inequality(xi as int, grid_w as int, grid_h as int);
            vstd::arithmetic::mul::lemma_mul_is_commutative(grid_h as int, xi as int - 1);
            vstd::arithmetic::mul::lemma_mul_is_commutative(grid_h as int, xi as int);
            vstd::arithmetic::mul::lemma_mul_is_commutative(grid_h as int, grid_w as int);
        }
    }
    proof {
        let gw = grid_w as int;
        let gh = grid_h as int;
        assert forall|i: int| 0 <= i < tiles.len() implies {
            let t = #[trigger] tiles@[i];
            &&& 1 <= t.width && t.left + t.width <= width
            &&& 1 <= t.height && t.top + t.height <= height
        } by {
            let cx = i / gh;
            let cy = i % gh;
            lemma_fundamental_div_mod(i, gh);
            vstd::arithmetic::div_mod::lemma_div_pos_is_pos(i, gh);
            vstd::arithmetic::mul::lemma_mul_is_commutative(gw, gh);
            lemma_multiply_divide_lt(i, gh, gw);
            lemma_cell_start_in_extent(w, ts, cx);
            lemma_cell_start_in_extent(h, ts, cy);
            assert(is_grid_tile(tiles@[i], w, h, ts, cx, cy));
        }
        assert forall|px: int, py: int| 0 <= px < width && 0 <= py < height implies {
            let i = #[trigger] tile_index_of(h, ts, px, py);
            &&& 0 <= i < tiles.len()
            &&& tiles@[i].contains(px, py)
        } by {
            let cx = px / ts;
            let cy = py / ts;
            lemma_fundamental_div_mod(px, ts);
            lemma_fundamental_div_mod(py, ts);
            // px < w <= gw * ts, so cx < gw; likewise cy < gh
            lemma_fundamental_div_mod(w + ts - 1, ts);
            lemma_fundamental_div_mod(h + ts - 1, ts);
            assert(w <= gw * ts && h <= gh * ts) by (nonlinear_arith)
                requires
                    ts >= 1,
                    w + ts - 1 == ts * gw + ((w + ts - 1) % ts),
                    h + ts - 1 == ts * gh + ((h + ts - 1) % ts),
                    0 <= (w + ts - 1) % ts < ts,
                    0 <= (h + ts - 1) % ts < ts,
            ;
            lemma_multiply_divide_lt(px, ts, gw);
            lemma_multiply_divide_lt(py, ts, gh);
            let i = cx * gh + cy;
            lemma_fundamental_div_mod_converse(i, gh, cx, cy);
            lemma_mul_inequality(cx, gw - 1, gh);
            lemma_mul_is_distributive_add(gh, gw - 1, 1);
            vstd::arithmetic::mul::lemma_mul_is_commutative(gh, gw - 1);
            vstd::arithmetic::mul::lemma_mul_is_commutative(gh, gw);
            assert(is_grid_tile(tiles@[i], w, h, ts, cx, cy));
            assert(ts * cx <= px < ts * cx + ts);
            vstd::arithmetic::mul::lemma_mul_is_commutative(ts, cx);
            vstd::arithmetic::mul::lemma_mul_is_commutative(ts, cy);
        }
        assert forall|i: int, px: int, py: int|
            0 <= i < tiles.len() && #[trigger] tiles@[i].contains(px, py) implies i
            == tile_index_of(h, ts, px, py) by {
            let cx = i / gh;
            let cy = i % gh;
            lemma_fundamental_div_mod(i, gh);
            assert(is_grid_tile(tiles@[i], w, h, ts, cx, cy));
            let t = tiles@[i];
            // the tile never reaches past the next grid line
            assert(t.left + t.width <= cx * ts + ts && t.top + t.height <= cy * ts + ts);
            lemma_fundamental_div_mod_converse(px, ts, cx, px - cx * ts);
            lemma_fundamental_div_mod_converse(py, ts, cy, py - cy * ts);
            vstd::arithmetic::mul::lemma_mul_is_commutative(gh, cx);
        }
    }
    tiles
}

} // verus!
