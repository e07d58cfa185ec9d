//! The tiled image: quarter partitioning, tile assembly and the vertical
//! flip before encoding.

use pathtracer::{blit_tile, flip_vertical, make_tiles, RenderTile};

#[test]
fn four_quarter_tiles() {
    let tiles = make_tiles(200, 100);
    assert_eq!(tiles.len(), 4);
    let origins: Vec<(u32, u32)> = tiles.iter().map(|t| (t.x(), t.y())).collect();
    assert_eq!(origins, vec![(0, 0), (100, 0), (0, 50), (100, 50)]);
    for t in &tiles {
        assert_eq!(t.width(), 100);
        assert_eq!(t.height(), 50);
        assert_eq!(t.pixels.len(), 100 * 50);
    }
}

#[test]
fn tile_pixels_round_trip() {
    let mut t = RenderTile::new(10, 20, 4, 3);
    assert_eq!(t.get_pixel(2, 1), (0, 0, 0));
    t.put_pixel(2, 1, (9, 8, 7));
    assert_eq!(t.get_pixel(2, 1), (9, 8, 7));
    assert_eq!(t.get_pixel(1, 2), (0, 0, 0));
}

#[test]
fn blit_copies_tile_region_only() {
    let nx = 4u32;
    let ny = 3u32;
    let mut image = vec![(9u8, 9u8, 9u8); (nx * ny) as usize];
    let mut tile = RenderTile::new(1, 1, 2, 2);
    tile.put_pixel(0, 0, (1, 1, 1));
    tile.put_pixel(1, 0, (2, 2, 2));
    tile.put_pixel(0, 1, (3, 3, 3));
    tile.put_pixel(1, 1, (4, 4, 4));
    blit_tile(&mut image, nx, ny, &tile);
    let at = |x: u32, y: u32| image[(y * nx + x) as usize];
    assert_eq!(at(1, 1), (1, 1, 1));
    assert_eq!(at(2, 1), (2, 2, 2));
    assert_eq!(at(1, 2), (3, 3, 3));
    assert_eq!(at(2, 2), (4, 4, 4));
    // Everything outside the tile keeps its value.
    assert_eq!(at(0, 0), (9, 9, 9));
    assert_eq!(at(3, 2), (9, 9, 9));
    assert_eq!(at(0, 2), (9, 9, 9));
    assert_eq!(at(2, 0), (9, 9, 9));
}

#[test]
fn assembled_quarters_cover_the_image() {
    let nx = 8u32;
    let ny = 6u32;
    let mut image = vec![(0u8, 0u8, 0u8); (nx * ny) as usize];
    let mut tiles = make_tiles(nx, ny);
    for (k, t) in tiles.iter_mut().enumerate() {
        for j in 0..t.height() {
            for i in 0..t.width() {
                t.put_pixel(i, j, (k as u8 + 1, 0, 0));
            }
        }
    }
    for t in &tiles {
        blit_tile(&mut image, nx, ny, t);
    }
    let at = |x: u32, y: u32| image[(y * nx + x) as usize].0;
    assert_eq!(at(0, 0), 1);
    assert_eq!(at(7, 0), 2);
    assert_eq!(at(0, 5), 3);
    assert_eq!(at(7, 5), 4);
    // No pixel is left unwritten.
    assert!(image.iter().all(|p| p.0 >= 1));
}

#[test]
fn flip_reverses_rows() {
    let nx = 2u32;
    let ny = 3u32;
    let image: Vec<(u8, u8, u8)> = vec![
        (0, 0, 0), (1, 0, 0),   // row 0
        (2, 0, 0), (3, 0, 0),   // row 1
        (4, 0, 0), (5, 0, 0),   // row 2
    ];
    let flipped = flip_vertical(&image, nx, ny);
    assert_eq!(
        flipped,
        vec![
            (4, 0, 0), (5, 0, 0),
            (2, 0, 0), (3, 0, 0),
            (0, 0, 0), (1, 0, 0),
        ]
    );
}
