use tracer::tile::{generate_tiles, RenderTile};
use tracer::work::{Progress, TileQueue};

fn count_tiles_containing(tiles: &[RenderTile], px: u32, py: u32) -> usize {
    tiles
        .iter()
        .filter(|t| t.left <= px && px < t.left + t.width && t.top <= py && py < t.top + t.height)
        .count()
}

#[test]
fn tiles_of_exact_grid() {
    let tiles = generate_tiles(128, 128, 32);
    assert_eq!(tiles.len(), 16);
    for t in &tiles {
        assert_eq!(t.width, 32);
        assert_eq!(t.height, 32);
        assert_eq!(t.left % 32, 0);
        assert_eq!(t.top % 32, 0);
    }
}

#[test]
fn tiles_clipped_at_edges() {
    let tiles = generate_tiles(10, 7, 4);
    // three columns of cells, two rows of cells
    assert_eq!(tiles.len(), 6);
    for t in &tiles {
        assert!(t.left + t.width <= 10);
        assert!(t.top + t.height <= 7);
        let expected_w = if 10 - t.left >= 4 { 4 } else { 10 - t.left };
        let expected_h = if 7 - t.top >= 4 { 4 } else { 7 - t.top };
        assert_eq!(t.width, expected_w);
        assert_eq!(t.height, expected_h);
    }
}

#[test]
fn tiles_cover_image_exactly_once() {
    for &(w, h, ts) in &[(10u32, 7u32, 4u32), (33, 17, 16), (5, 3, 8), (16, 16, 16)] {
        let tiles = generate_tiles(w, h, ts);
        for px in 0..w {
            for py in 0..h {
                assert_eq!(count_tiles_containing(&tiles, px, py), 1);
            }
        }
    }
}

#[test]
fn no_tiles_for_empty_image() {
    assert_eq!(generate_tiles(0, 64, 32).len(), 0);
    assert_eq!(generate_tiles(64, 0, 32).len(), 0);
}

#[test]
fn single_tile_when_tile_size_exceeds_image() {
    let tiles = generate_tiles(5, 3, 8);
    assert_eq!(tiles.len(), 1);
    assert_eq!((tiles[0].left, tiles[0].top, tiles[0].width, tiles[0].height), (0, 0, 5, 3));
}

#[test]
fn queue_hands_out_each_tile_once() {
    let tiles = generate_tiles(10, 7, 4);
    let scheduled = tiles.len();
    let mut queue = TileQueue::new(tiles);
    assert_eq!(queue.remaining(), scheduled);
    let mut claimed = Vec::new();
    while let Some(t) = queue.claim() {
        claimed.push(t);
    }
    assert_eq!(claimed.len(), scheduled);
    assert_eq!(queue.remaining(), 0);
    assert!(queue.claim().is_none());
    // every claimed tile is distinct
    for a in 0..claimed.len() {
        for b in (a + 1)..claimed.len() {
            assert_ne!(claimed[a], claimed[b]);
        }
    }
}

#[test]
fn queue_pops_in_reverse_schedule_order() {
    let tiles = generate_tiles(8, 4, 4);
    let last = tiles[tiles.len() - 1];
    let mut queue = TileQueue::new(tiles);
    assert_eq!(queue.claim(), Some(last));
}

#[test]
fn render_complete_after_one_signal_per_tile() {
    let tiles = generate_tiles(100, 37, 16);
    let total = tiles.len();
    let mut queue = TileQueue::new(tiles);
    let mut progress = Progress::new(total);
    assert_eq!(progress.total(), total);
    while let Some(_tile) = queue.claim() {
        assert!(!progress.is_complete());
        progress.record_completion();
    }
    // exactly one completion signal per scheduled tile finishes the render
    assert_eq!(progress.completed(), total);
    assert!(progress.is_complete());
}
