use tracer::framebuffer::{Framebuffer, TileScratch};
use tracer::tile::RenderTile;

fn byte(data: &[u8], width: u32, px: u32, py: u32, c: u32) -> u8 {
    data[((py * width + px) * 3 + c) as usize]
}

#[test]
fn framebuffer_starts_black() {
    let fb = Framebuffer::new(4, 3);
    assert_eq!(fb.width(), 4);
    assert_eq!(fb.height(), 3);
    let data = fb.as_bytes();
    assert_eq!(data.len(), 4 * 3 * 3);
    assert!(data.iter().all(|&b| b == 0));
}

#[test]
fn scratch_set_pixel_touches_only_its_pixel() {
    let mut scratch = TileScratch::new(2);
    scratch.set_pixel(1, 0, 10, 20, 30);
    scratch.set_pixel(0, 1, 40, 50, 60);
    let mut fb = Framebuffer::new(2, 2);
    let tile = RenderTile { left: 0, top: 0, width: 2, height: 2 };
    fb.write_tile(&tile, &scratch);
    let data = fb.as_bytes();
    assert_eq!(
        data.as_slice(),
        &[0, 0, 0, 10, 20, 30, 40, 50, 60, 0, 0, 0],
    );
}

#[test]
fn write_tile_fills_tile_and_nothing_else() {
    let mut fb = Framebuffer::new(4, 4);
    let mut scratch = TileScratch::new(2);
    scratch.set_pixel(0, 0, 1, 2, 3);
    scratch.set_pixel(1, 0, 4, 5, 6);
    scratch.set_pixel(0, 1, 7, 8, 9);
    scratch.set_pixel(1, 1, 10, 11, 12);
    let tile = RenderTile { left: 1, top: 2, width: 2, height: 2 };
    fb.write_tile(&tile, &scratch);
    let data = fb.as_bytes();
    for px in 0..4u32 {
        for py in 0..4u32 {
            let inside = (1..3).contains(&px) && (2..4).contains(&py);
            if !inside {
                for c in 0..3 {
                    assert_eq!(byte(data, 4, px, py, c), 0);
                }
            }
        }
    }
    assert_eq!(
        [byte(data, 4, 1, 2, 0), byte(data, 4, 1, 2, 1), byte(data, 4, 1, 2, 2)],
        [1, 2, 3],
    );
    assert_eq!(
        [byte(data, 4, 2, 2, 0), byte(data, 4, 2, 2, 1), byte(data, 4, 2, 2, 2)],
        [4, 5, 6],
    );
    assert_eq!(
        [byte(data, 4, 1, 3, 0), byte(data, 4, 1, 3, 1), byte(data, 4, 1, 3, 2)],
        [7, 8, 9],
    );
    assert_eq!(
        [byte(data, 4, 2, 3, 0), byte(data, 4, 2, 3, 1), byte(data, 4, 2, 3, 2)],
        [10, 11, 12],
    );
}

#[test]
fn write_tile_overwrites_previous_content() {
    let mut fb = Framebuffer::new(2, 1);
    let mut scratch = TileScratch::new(2);
    scratch.set_pixel(0, 0, 9, 9, 9);
    scratch.set_pixel(1, 0, 8, 8, 8);
    let tile = RenderTile { left: 0, top: 0, width: 2, height: 1 };
    fb.write_tile(&tile, &scratch);
    scratch.set_pixel(0, 0, 1, 1, 1);
    let narrow = RenderTile { left: 0, top: 0, width: 1, height: 1 };
    fb.write_tile(&narrow, &scratch);
    let data = fb.as_bytes();
    assert_eq!(data.as_slice(), &[1, 1, 1, 8, 8, 8]);
}

#[test]
fn disjoint_tile_writes_commute() {
    let tile_a = RenderTile { left: 0, top: 0, width: 2, height: 2 };
    let tile_b = RenderTile { left: 2, top: 0, width: 2, height: 2 };
    let mut scratch_a = TileScratch::new(2);
    let mut scratch_b = TileScratch::new(2);
    for x in 0..2u32 {
        for y in 0..2u32 {
            let v = (10 + 2 * x + y) as u8;
            scratch_a.set_pixel(x, y, v, v, v);
            scratch_b.set_pixel(x, y, 100 + v, 100 + v, 100 + v);
        }
    }
    let mut ab = Framebuffer::new(4, 2);
    ab.write_tile(&tile_a, &scratch_a);
    ab.write_tile(&tile_b, &scratch_b);
    let mut ba = Framebuffer::new(4, 2);
    ba.write_tile(&tile_b, &scratch_b);
    ba.write_tile(&tile_a, &scratch_a);
    assert_eq!(ab.as_bytes(), ba.as_bytes());
}

#[test]
fn clipped_tile_uses_scratch_top_left_corner() {
    // a 3x2 image with 2x2 tiles: the right column tile is 1 pixel wide
    let mut fb = Framebuffer::new(3, 2);
    let mut scratch = TileScratch::new(2);
    scratch.set_pixel(0, 0, 100, 101, 102);
    scratch.set_pixel(0, 1, 103, 104, 105);
    scratch.set_pixel(1, 0, 77, 77, 77);
    let tile = RenderTile { left: 2, top: 0, width: 1, height: 2 };
    fb.write_tile(&tile, &scratch);
    let data = fb.as_bytes();
    assert_eq!(
        [byte(data, 3, 2, 0, 0), byte(data, 3, 2, 0, 1), byte(data, 3, 2, 0, 2)],
        [100, 101, 102],
    );
    assert_eq!(
        [byte(data, 3, 2, 1, 0), byte(data, 3, 2, 1, 1), byte(data, 3, 2, 1, 2)],
        [103, 104, 105],
    );
    // the scratch pixel right of the clipped column never lands in the image
    assert_eq!(byte(data, 3, 0, 0, 0), 0);
    assert_eq!(byte(data, 3, 1, 0, 0), 0);
}
