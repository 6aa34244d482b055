//! The shared output image and the tile-local scratch buffers.
//!
//! Both are row-major byte buffers with three bytes per pixel. A worker
//! samples into its own scratch buffer and then copies the finished tile into
//! the framebuffer; the contracts pin down exactly which bytes each write
//! touches, so disjoint tiles never write the same framebuffer byte.

use vstd::prelude::*;
use vstd::arithmetic::div_mod::lemma_fundamental_div_mod_converse;
use crate::tile::RenderTile;

verus! {

/// Byte of channel `c` of pixel (px, py) in a row-major buffer of `stride`
/// pixels per row, three bytes per pixel.
pub open spec fn pixel_byte(data: Seq<u8>, stride: int, px: int, py: int, c: int) -> u8 {
    data[(py * stride + px) * 3 + c]
}

/// Channel `c` of an (r, g, b) triple.
pub open spec fn channel(r: u8, g: u8, b: u8, c: int) -> u8 {
    if c == 0 {
        r
    } else if c == 1 {
        g
    } else {
        b
    }
}

/// A vector always fits in the address space.
proof fn lemma_vec_len_bound<T>(v: &Vec<T>)
    ensures
        v@.len() <= usize::MAX,
{
    broadcast use vstd::std_specs::vec::axiom_spec_len;

    assert(vstd::std_specs::vec::spec_vec_len(v) == v@.len());
}

/// Two distinct (pixel, channel) pairs of one buffer live at distinct bytes.
proof fn lemma_pixel_index_injective(
    stride: int,
    px1: int,
    py1: int,
    c1: int,
    px2: int,
    py2: int,
    c2: int,
)
    requires
        0 <= px1 < stride,
        0 <= px2 < stride,
        0 <= py1,
        0 <= py2,
        0 <= c1 < 3,
        0 <= c2 < 3,
        !(px1 == px2 && py1 == py2 && c1 == c2),
    ensures
        (py1 * stride + px1) * 3 + c1 != (py2 * stride + px2) * 3 + c2,
{
    if (py1 * stride + px1) * 3 + c1 == (py2 * stride + px2) * 3 + c2 {
        let k = (py1 * stride + px1) * 3 + c1;
        lemma_fundamental_div_mod_converse(k, 3, py1 * stride + px1, c1);
        lemma_fundamental_div_mod_converse(k, 3, py2 * stride + px2, c2);
        lemma_fundamental_div_mod_converse(py1 * stride + px1, stride, py1, px1);
        lemma_fundamental_div_mod_converse(py2 * stride + px2, stride, py2, px2);
    }
}

/// A byte of a pixel in bounds lies inside the buffer.
proof fn lemma_pixel_index_bound(stride: int, rows: int, px: int, py: int, c: int)
    by (nonlinear_arith)
    requires
        0 <= px < stride,
        0 <= py < rows,
        0 <= c < 3,
    ensures
        0 <= (py * stride + px) * 3 + c < stride * rows * 3,
{
}

/// A worker's private buffer for one tile: `tile_size` rows of `tile_size`
/// pixels, initially black.
pub struct TileScratch {
    tile_size: u32,
    data: Vec<u8>,
}

impl TileScratch {
    pub closed spec fn well_formed(self) -> bool {
        self.data@.len() == (self.tile_size as int) * (self.tile_size as int) * 3
    }

    pub closed spec fn spec_tile_size(self) -> u32 {
        self.tile_size
    }

    /// Channel `c` of scratch pixel (px, py).
    pub closed spec fn byte_at(self, px: int, py: int, c: int) -> u8 {
        pixel_byte(self.data@, self.tile_size as int, px, py, c)
    }

    pub fn new(tile_size: u32) -> (r: TileScratch)
        requires
            (tile_size as int) * (tile_size as int) * 3 <= usize::MAX,
        ensures
            r.well_formed(),
            r.spec_tile_size() == tile_size,
            forall|px: int, py: int, c: int|
                0 <= px < tile_size && 0 <= py < tile_size && 0 <= c < 3 ==> r.byte_at(px, py, c)
                    == 0,
    {
        proof {
            assert((tile_size as int) * (tile_size as int) >= 0 && (tile_size as int) * (
            tile_size as int) * 3 >= 0) by (nonlinear_arith);
        }
        let n: usize = (tile_size as usize) * (tile_size as usize) * 3;
        let mut data: Vec<u8> = Vec::new();
        let mut i: usize = 0;
        while i < n
            invariant
                i <= n,
                data@.len() == i,
                forall|k: int| 0 <= k < i ==> data@[k] == 0,
            decreases n - i,
        {
            data.push(0);
            i = i + 1;
        }
        let r = TileScratch { tile_size, data };
        proof {
            assert forall|px: int, py: int, c: int|
                0 <= px < tile_size && 0 <= py < tile_size && 0 <= c < 3 implies r.byte_at(
                px,
                py,
                c,
            ) == 0 by {
                lemma_pixel_index_bound(tile_size as int, tile_size as int, px, py, c);
            }
        }
        r
    }

    /// Store one quantized color into scratch pixel (x, y); every other byte
    /// of the buffer keeps its value.
    pub fn set_pixel(&mut self, x: u32, y: u32, r: u8, g: u8, b: u8)
        requires
            old(self).well_formed(),
            x < old(self).spec_tile_size(),
            y < old(self).spec_tile_size(),
        ensures
            final(self).well_formed(),
            final(self).spec_tile_size() == old(self).spec_tile_size(),
            forall|px: int, py: int, c: int|
                0 <= px < old(self).spec_tile_size() && 0 <= py < old(self).spec_tile_size() && 0
                    <= c < 3 ==> final(self).byte_at(px, py, c) == if px == x && py == y {
                    channel(r, g, b, c)
                } else {
                    old(self).byte_at(px, py, c)
                },
    {
        let ghost ts = self.tile_size as int;
        let ghost before = self.data@;
        proof {
            lemma_vec_len_bound(&self.data);
            lemma_pixel_index_bound(ts, ts, x as int, y as int, 0);
            lemma_pixel_index_bound(ts, ts, x as int, y as int, 2);
        }
        let base: usize = ((y as usize) * (self.tile_size as usize) + (x as usize)) * 3;
        self.data.set(base, r);
        self.data.set(base + 1, g);
        self.data.set(base + 2, b);
        proof {
            assert forall|px: int, py: int, c: int|
                0 <= px < ts && 0 <= py < ts && 0 <= c < 3 implies self.byte_at(px, py, c) == (
            if px == x && py == y {
                channel(r, g, b, c)
            } else {
                pixel_byte(before, ts, px, py, c)
            }) by {
                lemma_pixel_index_bound(ts, ts, px, py, c);
                if px == x as int && py == y as int {
                } else {
                    lemma_pixel_index_injective(ts, px, py, c, x as int, y as int, 0);
                    lemma_pixel_index_injective(ts, px, py, c, x as int, y as int, 1);
                    lemma_pixel_index_injective(ts, px, py, c, x as int, y as int, 2);
                }
            }
        }
    }
}

/// `post` is `pre` with exactly the given tile filled from the scratch
/// buffer: inside the tile each channel takes the scratch value at the
/// pixel's offset within the tile, outside it every byte keeps its value.
pub open spec fn writes_tile(
    pre: Framebuffer,
    post: Framebuffer,
    tile: RenderTile,
    scratch: TileScratch,
) -> bool {
    &&& post.spec_width() == pre.spec_width()
    &&& post.spec_height() == pre.spec_height()
    &&& forall|px: int, py: int, c: int|
        0 <= px < pre.spec_width() && 0 <= py < pre.spec_height() && 0 <= c < 3
            ==> #[trigger] post.byte_at(px, py, c) == if tile.contains(px, py) {
            scratch.byte_at(px - tile.left, py - tile.top, c)
        } else {
            pre.byte_at(px, py, c)
        }
}

/// Workers write pixel-disjoint tiles, so the image they produce does not
/// depend on the order in which their finished tiles reach the framebuffer:
/// writing tile `a` then tile `b` leaves every byte as writing `b` then `a`
/// would.
pub proof fn lemma_disjoint_tile_writes_commute(
    fb0: Framebuffer,
    fb1: Framebuffer,
    fb2: Framebuffer,
    fb1r: Framebuffer,
    fb2r: Framebuffer,
    a: RenderTile,
    b: RenderTile,
    sa: TileScratch,
    sb: TileScratch,
)
    requires
        forall|px: int, py: int| !(#[trigger] a.contains(px, py) && #[trigger] b.contains(px, py)),
        writes_tile(fb0, fb1, a, sa),
        writes_tile(fb1, fb2, b, sb),
        writes_tile(fb0, fb1r, b, sb),
        writes_tile(fb1r, fb2r, a, sa),
    ensures
        forall|px: int, py: int, c: int|
            0 <= px < fb0.spec_width() && 0 <= py < fb0.spec_height() && 0 <= c < 3
                ==> #[trigger] fb2.byte_at(px, py, c) == #[trigger] fb2r.byte_at(px, py, c),
{
    assert forall|px: int, py: int, c: int|
        0 <= px < fb0.spec_width() && 0 <= py < fb0.spec_height() && 0 <= c < 3 implies #[trigger] fb2.byte_at(
        px,
        py,
        c,
    ) == #[trigger] fb2r.byte_at(px, py, c) by {
        assert(!(a.contains(px, py) && b.contains(px, py)));
    }
}

/// The shared output image: `width * height` pixels, three bytes per pixel,
/// row-major, initially black.
pub struct Framebuffer {
    width: u32,
    height: u32,
    data: Vec<u8>,
}

impl Framebuffer {
    pub closed spec fn well_formed(self) -> bool {
        self.data@.len() == (self.width as int) * (self.height as int) * 3
    }

    pub closed spec fn spec_width(self) -> u32 {
        self.width
    }

    pub closed spec fn spec_height(self) -> u32 {
        self.height
    }

    /// Channel `c` of image pixel (px, py).
    pub closed spec fn byte_at(self, px: int, py: int, c: int) -> u8 {
        pixel_byte(self.data@, self.width as int, px, py, c)
    }

    pub fn new(width: u32, height: u32) -> (r: Framebuffer)
        requires
            (width as int) * (height as int) * 3 <= usize::MAX,
        ensures
            r.well_formed(),
            r.spec_width() == width,
            r.spec_height() == height,
            forall|px: int, py: int, c: int|
                0 <= px < width && 0 <= py < height && 0 <= c < 3 ==> r.byte_at(px, py, c) == 0,
    {
        proof {
            assert((width as int) * (height as int) >= 0 && (width as int) * (height as int) * 3
                >= 0) by (nonlinear_arith);
        }
        let n: usize = (width as usize) * (height as usize) * 3;
        let mut data: Vec<u8> = Vec::new();
        let mut i: usize = 0;
        while i < n
            invariant
                i <= n,
                data@.len() == i,
                forall|k: int| 0 <= k < i ==> data@[k] == 0,
            decreases n - i,
        {
            data.push(0);
            i = i + 1;
        }
        let r = Framebuffer { width, height, data };
        proof {
            assert forall|px: int, py: int, c: int|
                0 <= px < width && 0 <= py < height && 0 <= c < 3 implies r.byte_at(px, py, c)
                == 0 by {
                lemma_pixel_index_bound(width as int, height as int, px, py, c);
            }
        }
        r
    }

    pub fn width(&self) -> (r: u32)
        ensures
            r == self.spec_width(),
    {
        self.width
    }

    pub fn height(&self) -> (r: u32)
        ensures
            r == self.spec_height(),
    {
        self.height
    }

    /// The raw image bytes, row-major, for the image encoder.
    pub fn as_bytes(&self) -> (r: &Vec<u8>)
        requires
            self.well_formed(),
        ensures
            r@.len() == (self.spec_width() as int) * (self.spec_height() as int) * 3,
            forall|px: int, py: int, c: int|
                #[trigger] pixel_byte(r@, self.spec_width() as int, px, py, c) == self.byte_at(
                    px,
                    py,
                    c,
                ),
    {
        &self.data
    }

    /// Copy the finished tile out of the worker's scratch buffer into the
    /// image: every pixel of the tile takes the scratch value at its offset
    /// inside the tile, and no byte outside the tile changes.
    pub fn write_tile(&mut self, tile: &RenderTile, scratch: &TileScratch)
        requires
            old(self).well_formed(),
            scratch.well_formed(),
            tile.left + tile.width <= old(self).spec_width(),
            tile.top + tile.height <= old(self).spec_height(),
            tile.width <= scratch.spec_tile_size(),
            tile.height <= scratch.spec_tile_size(),
        ensures
            final(self).well_formed(),
            writes_tile(*old(self), *final(self), *tile, *scratch),
    {
        let ghost w = self.width as int;
        let ghost h = self.height as int;
        let ghost ts = scratch.tile_size as int;
        let ghost orig = self.data@;
        let mut y: u32 = 0;
        while y < tile.height
            invariant
                y <= tile.height,
                self.width == old(self).width,
                self.height == old(self).height,
                self.data@.len() == orig.len(),
                orig == old(self).data@,
                w == self.width as int && h == self.height as int,
                ts == scratch.tile_size as int,
                self.well_formed(),
                scratch.well_formed(),
                tile.left + tile.width <= w,
                tile.top + tile.height <= h,
                tile.width <= ts,
                tile.height <= ts,
                forall|px: int, py: int, c: int|
                    0 <= px < w && 0 <= py < h && 0 <= c < 3 ==> #[trigger] pixel_byte(
                        self.data@,
                        w,
                        px,
                        py,
                        c,
                    ) == if tile.contains(px, py) && py < tile.top + y {
                        scratch.byte_at(px - tile.left, py - tile.top, c)
                    } else {
                        pixel_byte(orig, w, px, py, c)
                    },
            decreases tile.height - y,
        {
            let gy = tile.top + y;
            let mut x: u32 = 0;
            while x < tile.width
                invariant
                    x <= tile.width,
                    y < tile.height,
                    gy == tile.top + y,
                    self.width == old(self).width,
                    self.height == old(self).height,
                    self.data@.len() == orig.len(),
                    orig == old(self).data@,
                    w == self.width as int && h == self.height as int,
                    ts == scratch.tile_size as int,
                    self.well_formed(),
                    scratch.well_formed(),
                    tile.left + tile.width <= w,
                    tile.top + tile.height <= h,
                    tile.width <= ts,
                    tile.height <= ts,
                    forall|px: int, py: int, c: int|
                        0 <= px < w && 0 <= py < h && 0 <= c < 3 ==> #[trigger] pixel_byte(
                            self.data@,
                            w,
                            px,
                            py,
                            c,
                        ) == if tile.contains(px, py) && (py < tile.top + y || (py == tile.top + y
                            && px < tile.left + x)) {
                            scratch.byte_at(px - tile.left, py - tile.top, c)
                        } else {
                            pixel_byte(orig, w, px, py, c)
                        },
                decreases tile.width - x,
            {
                let gx = tile.left + x;
                let ghost pre = self.data@;
                proof {
                    lemma_vec_len_bound(&self.data);
                    lemma_vec_len_bound(&scratch.data);
                    lemma_pixel_index_bound(w, h, gx as int, gy as int, 0);
                    lemma_pixel_index_bound(w, h, gx as int, gy as int, 2);
                    lemma_pixel_index_bound(ts, ts, x as int, y as int, 0);
                    lemma_pixel_index_bound(ts, ts, x as int, y as int, 2);
                }
                let src_base: usize = ((y as usize) * (scratch.tile_size as usize) + (x as usize))
                    * 3;
                let dst_base: usize = ((gy as usize) * (self.width as usize) + (gx as usize)) * 3;
                let b0 = scratch.data[src_base];
                let b1 = scratch.data[src_base + 1];
                let b2 = scratch.data[src_base + 2];
                self.data.set(dst_base, b0);
                self.data.set(dst_base + 1, b1);
                self.data.set(dst_base + 2, b2);
                proof {
                    assert forall|px: int, py: int, c: int|
                        0 <= px < w && 0 <= py < h && 0 <= c < 3 implies #[trigger] pixel_byte(
                        self.data@,
                        w,
                        px,
                        py,
                        c,
                    ) == (if tile.contains(px, py) && (py < tile.top + y || (py == tile.top + y
                    && px < tile.left + x + 1)) {
                        scratch.byte_at(px - tile.left, py - tile.top, c)
                    } else {
                        pixel_byte(orig, w, px, py, c)
                    }) by {
                        lemma_pixel_index_bound(w, h, px, py, c);
                        assert(pixel_byte(pre, w, px, py, c) == (if tile.contains(px, py) && (py
                            < tile.top + y || (py == tile.top + y && px < tile.left + x)) {
                            scratch.byte_at(px - tile.left, py - tile.top, c)
                        } else {
                            pixel_byte(orig, w, px, py, c)
                        }));
                        if px == gx as int && py == gy as int {
                            assert(pixel_byte(scratch.data@, ts, x as int, y as int, 0) == b0);
                            assert(pixel_byte(scratch.data@, ts, x as int, y as int, 1) == b1);
                            assert(pixel_byte(scratch.data@, ts, x as int, y as int, 2) == b2);
                        } else {
                            lemma_pixel_index_injective(w, px, py, c, gx as int, gy as int, 0);
                            lemma_pixel_index_injective(w, px, py, c, gx as int, gy as int, 1);
                            lemma_pixel_index_injective(w, px, py, c, gx as int, gy as int, 2);
                            assert(pixel_byte(self.data@, w, px, py, c) == pixel_byte(
                                pre,
                                w,
                                px,
                                py,
                                c,
                            ));
                        }
                    }
                }
                x = x + 1;
            }
            y = y + 1;
        }
        proof {
            assert forall|px: int, py: int, c: int|
                0 <= px < w && 0 <= py < h && 0 <= c < 3 implies self.byte_at(px, py, c) == (
            if tile.contains(px, py) {
                scratch.byte_at(px - tile.left, py - tile.top, c)
            } else {
                pixel_byte(orig, w, px, py, c)
            }) by {
                assert(pixel_byte(self.data@, w, px, py, c) == self.byte_at(px, py, c));
            }
        }
    }
}

} // verus!
