//! The tiled image: quarter tiles rendered independently, assembled into
//! the final image, and flipped vertically before encoding.
//!
//! A pixel grid is a flat vector in row-major order; the contracts state
//! every copy pixel for pixel.

use vstd::prelude::*;
use crate::math::lemma_mul_bound;

verus! {

/// Image dimensions stay within this bound.
pub const IMAGE_LIMIT: u32 = 0x4000;

/// One tile of the image: its origin, its size, and its own pixel buffer.
pub struct RenderTile {
    pub x: u32,
    pub y: u32,
    pub width: u32,
    pub height: u32,
    pub pixels: Vec<(u8, u8, u8)>,
}

/// The tile's buffer covers exactly its area.
pub open spec fn tile_wf(t: RenderTile) -> bool {
    t.pixels@.len() == t.width * t.height
}

/// The pixel of a row-major grid of width `nx` at `(x, y)`.
pub open spec fn pix(s: Seq<(u8, u8, u8)>, nx: int, x: int, y: int) -> (u8, u8, u8) {
    s[y * nx + x]
}

/// Distinct pixel coordinates have distinct row-major indices.
proof fn lemma_index_distinct(nx: int, x1: int, y1: int, x2: int, y2: int)
    by (nonlinear_arith)
    requires
        0 <= x1 < nx,
        0 <= x2 < nx,
        0 <= y1,
        0 <= y2,
        x1 != x2 || y1 != y2,
    ensures
        y1 * nx + x1 != y2 * nx + x2,
{
}

/// A pixel of a row strictly before row `rows` sits strictly before that
/// row's start.
proof fn lemma_row_bound(nx: int, x: int, y: int, rows: int)
    by (nonlinear_arith)
    requires
        0 <= x < nx,
        0 <= y < rows,
    ensures
        0 <= y * nx + x,
        y * nx + x < rows * nx,
{
}

/// A row-major index of an in-range pixel is within the buffer.
proof fn lemma_index_bound(nx: int, ny: int, x: int, y: int)
    by (nonlinear_arith)
    requires
        0 <= x < nx,
        0 <= y < ny,
    ensures
        0 <= y * nx + x < nx * ny,
{
}

impl RenderTile {
    /// A fresh black tile.
    pub fn new(x: u32, y: u32, width: u32, height: u32) -> (r: RenderTile)
        requires
            width <= IMAGE_LIMIT,
            height <= IMAGE_LIMIT,
        ensures
            r.x == x,
            r.y == y,
            r.width == width,
            r.height == height,
            tile_wf(r),
            forall|p: int| 0 <= p < r.pixels@.len() ==> r.pixels@[p] == ((0u8, 0u8, 0u8)),
    {
        proof {
            lemma_mul_bound(width as int, height as int, IMAGE_LIMIT as int, IMAGE_LIMIT as int);
        }
        let n = (width as usize) * (height as usize);
        let mut pixels: Vec<(u8, u8, u8)> = Vec::new();
        let mut p: usize = 0;
        while p < n
            invariant
                0 <= p <= n,
                pixels@.len() == p,
                forall|q: int| 0 <= q < p ==> pixels@[q] == ((0u8, 0u8, 0u8)),
            decreases n - p,
        {
            pixels.push((0, 0, 0));
            p = p + 1;
        }
        RenderTile { x, y, width, height, pixels }
    }

    pub fn x(&self) -> (r: u32)
        ensures
            r == self.x,
    {
        self.x
    }

    pub fn y(&self) -> (r: u32)
        ensures
            r == self.y,
    {
        self.y
    }

    pub fn width(&self) -> (r: u32)
        ensures
            r == self.width,
    {
        self.width
    }

    pub fn height(&self) -> (r: u32)
        ensures
            r == self.height,
    {
        self.height
    }

    /// Writes one pixel of the tile, in tile-local coordinates.
    pub fn put_pixel(&mut self, i: u32, j: u32, c: (u8, u8, u8))
        requires
            tile_wf(*old(self)),
            old(self).width <= IMAGE_LIMIT,
            old(self).height <= IMAGE_LIMIT,
            i < old(self).width,
            j < old(self).height,
        ensures
            final(self).x == old(self).x,
            final(self).y == old(self).y,
            final(self).width == old(self).width,
            final(self).height == old(self).height,
            tile_wf(*final(self)),
            final(self).pixels@ == old(self).pixels@.update(
                j * old(self).width + i,
                c,
            ),
    {
        proof {
            lemma_index_bound(self.width as int, self.height as int, i as int, j as int);
            lemma_mul_bound(
                self.width as int,
                self.height as int,
                IMAGE_LIMIT as int,
                IMAGE_LIMIT as int,
            );
        }
        let idx = (j as usize) * (self.width as usize) + (i as usize);
        self.pixels.set(idx, c);
    }

    /// Reads one pixel of the tile, in tile-local coordinates.
    pub fn get_pixel(&self, i: u32, j: u32) -> (r: (u8, u8, u8))
        requires
            tile_wf(*self),
            self.width <= IMAGE_LIMIT,
            self.height <= IMAGE_LIMIT,
            i < self.width,
            j < self.height,
        ensures
            r == self.pixels@[j * self.width + i],
    {
        proof {
            lemma_index_bound(self.width as int, self.height as int, i as int, j as int);
            lemma_mul_bound(
                self.width as int,
                self.height as int,
                IMAGE_LIMIT as int,
                IMAGE_LIMIT as int,
            );
        }
        let idx = (j as usize) * (self.width as usize) + (i as usize);
        self.pixels[idx]
    }
}

/// Partitions the image into its four quarters: the renderer's four work
/// items.
pub fn make_tiles(nx: u32, ny: u32) -> (r: Vec<RenderTile>)
    requires
        nx <= IMAGE_LIMIT,
        ny <= IMAGE_LIMIT,
    ensures
        r@.len() == 4,
        forall|i: int| 0 <= i < 4 ==> tile_wf(#[trigger] r@[i]),
        forall|i: int|
            0 <= i < 4 ==> (#[trigger] r@[i]).width == nx / 2 && r@[i].height == ny / 2,
        r@[0].x == 0 && r@[0].y == 0,
        r@[1].x == nx / 2 && r@[1].y == 0,
        r@[2].x == 0 && r@[2].y == ny / 2,
        r@[3].x == nx / 2 && r@[3].y == ny / 2,
{
    let mut tiles: Vec<RenderTile> = Vec::new();
    tiles.push(RenderTile::new(0, 0, nx / 2, ny / 2));
    tiles.push(RenderTile::new(nx / 2, 0, nx / 2, ny / 2));
    tiles.push(RenderTile::new(0, ny / 2, nx / 2, ny / 2));
    tiles.push(RenderTile::new(nx / 2, ny / 2, nx / 2, ny / 2));
    tiles
}

/// Copies a finished tile into the image at the tile's origin: every pixel
/// of the tile's region takes the tile's value, every other pixel keeps
/// its own.
pub fn blit_tile(image: &mut Vec<(u8, u8, u8)>, nx: u32, ny: u32, tile: &RenderTile)
    requires
        nx <= IMAGE_LIMIT,
        ny <= IMAGE_LIMIT,
        old(image)@.len() == nx * ny,
        tile_wf(*tile),
        tile.width <= IMAGE_LIMIT,
        tile.height <= IMAGE_LIMIT,
        tile.x + tile.width <= nx,
        tile.y + tile.height <= ny,
    ensures
        final(image)@.len() == nx * ny,
        forall|i: int, j: int|
            0 <= i < tile.width && 0 <= j < tile.height ==> #[trigger] pix(
                final(image)@,
                nx as int,
                tile.x + i,
                tile.y + j,
            ) == pix(tile.pixels@, tile.width as int, i, j),
        forall|x: int, y: int|
            0 <= x < nx && 0 <= y < ny && !(tile.x <= x < tile.x + tile.width && tile.y <= y
                < tile.y + tile.height) ==> #[trigger] pix(final(image)@, nx as int, x, y) == pix(
                old(image)@,
                nx as int,
                x,
                y,
            ),
{
    let mut j: u32 = 0;
    while j < tile.height
        invariant
            0 <= j <= tile.height,
            nx <= IMAGE_LIMIT,
            ny <= IMAGE_LIMIT,
            image@.len() == nx * ny,
            tile_wf(*tile),
            tile.width <= IMAGE_LIMIT,
            tile.height <= IMAGE_LIMIT,
            tile.x + tile.width <= nx,
            tile.y + tile.height <= ny,
            forall|i2: int, j2: int|
                0 <= i2 < tile.width && 0 <= j2 < j ==> #[trigger] pix(
                    image@,
                    nx as int,
                    tile.x + i2,
                    tile.y + j2,
                ) == pix(tile.pixels@, tile.width as int, i2, j2),
            forall|x: int, y: int|
                0 <= x < nx && 0 <= y < ny && !(tile.x <= x < tile.x + tile.width && tile.y <= y
                    < tile.y + j) ==> #[trigger] pix(image@, nx as int, x, y) == pix(
                    old(image)@,
                    nx as int,
                    x,
                    y,
                ),
        decreases tile.height - j,
    {
        let mut i: u32 = 0;
        while i < tile.width
            invariant
                0 <= i <= tile.width,
                0 <= j < tile.height,
                nx <= IMAGE_LIMIT,
                ny <= IMAGE_LIMIT,
                image@.len() == nx * ny,
                tile_wf(*tile),
                tile.width <= IMAGE_LIMIT,
                tile.height <= IMAGE_LIMIT,
                tile.x + tile.width <= nx,
                tile.y + tile.height <= ny,
                forall|i2: int, j2: int|
                    0 <= i2 < tile.width && 0 <= j2 < j ==> #[trigger] pix(
                        image@,
                        nx as int,
                        tile.x + i2,
                        tile.y + j2,
                    ) == pix(tile.pixels@, tile.width as int, i2, j2),
                forall|i2: int|
                    0 <= i2 < i ==> #[trigger] pix(image@, nx as int, tile.x + i2, tile.y + j)
                        == pix(tile.pixels@, tile.width as int, i2, j as int),
                forall|x: int, y: int|
                    0 <= x < nx && 0 <= y < ny && !(tile.x <= x < tile.x + tile.width && tile.y
                        <= y < tile.y + j) && !(tile.x <= x < tile.x + i && y == tile.y + j)
                        ==> #[trigger] pix(image@, nx as int, x, y) == pix(
                        old(image)@,
                        nx as int,
                        x,
                        y,
                    ),
            decreases tile.width - i,
        {
            let c = tile.get_pixel(i, j);
            proof {
                lemma_index_bound(nx as int, ny as int, tile.x + i, tile.y + j);
                lemma_mul_bound(nx as int, ny as int, IMAGE_LIMIT as int, IMAGE_LIMIT as int);
            }
            let idx = ((tile.y + j) as usize) * (nx as usize) + ((tile.x + i) as usize);
            let ghost old_image = image@;
            image.set(idx, c);
            proof {
                assert(pix(image@, nx as int, tile.x + i, tile.y + j) == c);
                assert forall|x: int, y: int|
                    0 <= x < nx && 0 <= y < ny && (x != tile.x + i || y != tile.y
                        + j) implies #[trigger] pix(image@, nx as int, x, y) == pix(
                    old_image,
                    nx as int,
                    x,
                    y,
                ) by {
                    lemma_index_bound(nx as int, ny as int, x, y);
                    lemma_index_distinct(nx as int, x, y, tile.x + i, tile.y + j);
                }
            }
            i = i + 1;
        }
        j = j + 1;
    }
}

/// The image flipped vertically: row `y` of the result is row
/// `ny - 1 - y` of the input.
pub fn flip_vertical(image: &Vec<(u8, u8, u8)>, nx: u32, ny: u32) -> (r: Vec<(u8, u8, u8)>)
    requires
        nx <= IMAGE_LIMIT,
        ny <= IMAGE_LIMIT,
        image@.len() == nx * ny,
    ensures
        r@.len() == nx * ny,
        forall|x: int, y: int|
            0 <= x < nx && 0 <= y < ny ==> #[trigger] pix(r@, nx as int, x, y) == pix(
                image@,
                nx as int,
                x,
                ny - 1 - y,
            ),
{
    let mut out: Vec<(u8, u8, u8)> = Vec::new();
    let mut j: u32 = 0;
    while j < ny
        invariant
            0 <= j <= ny,
            nx <= IMAGE_LIMIT,
            ny <= IMAGE_LIMIT,
            image@.len() == nx * ny,
            out@.len() == j * nx,
            forall|x: int, y: int|
                0 <= x < nx && 0 <= y < j ==> #[trigger] pix(out@, nx as int, x, y) == pix(
                    image@,
                    nx as int,
                    x,
                    ny - 1 - y,
                ),
        decreases ny - j,
    {
        let src_row = ny - 1 - j;
        let mut i: u32 = 0;
        while i < nx
            invariant
                0 <= i <= nx,
                0 <= j < ny,
                src_row == ny - 1 - j,
                nx <= IMAGE_LIMIT,
                ny <= IMAGE_LIMIT,
                image@.len() == nx * ny,
                out@.len() == j * nx + i,
                forall|x: int, y: int|
                    0 <= x < nx && 0 <= y < j ==> #[trigger] pix(out@, nx as int, x, y) == pix(
                        image@,
                        nx as int,
                        x,
                        ny - 1 - y,
                    ),
                forall|x: int|
                    0 <= x < i ==> #[trigger] pix(out@, nx as int, x, j as int) == pix(
                        image@,
                        nx as int,
                        x,
                        ny - 1 - j,
                    ),
            decreases nx - i,
        {
            proof {
                lemma_index_bound(nx as int, ny as int, i as int, src_row as int);
                lemma_mul_bound(nx as int, ny as int, IMAGE_LIMIT as int, IMAGE_LIMIT as int);
                lemma_mul_bound(src_row as int, nx as int, IMAGE_LIMIT as int, IMAGE_LIMIT as int);
            }
            let idx = (src_row as usize) * (nx as usize) + (i as usize);
            let ghost old_out = out@;
            out.push(image[idx]);
            proof {
                assert forall|x: int, y: int|
                    0 <= x < nx && 0 <= y < j implies #[trigger] pix(out@, nx as int, x, y)
                    == pix(image@, nx as int, x, ny - 1 - y) by {
                    lemma_row_bound(nx as int, x, y, j as int);
                    assert(pix(old_out, nx as int, x, y) == pix(image@, nx as int, x, ny - 1 - y));
                    assert(y * (nx as int) + x < old_out.len());
                }
                assert forall|x: int|
                    0 <= x < i + 1 implies #[trigger] pix(out@, nx as int, x, j as int) == pix(
                    image@,
                    nx as int,
                    x,
                    ny - 1 - j,
                ) by {
                    if x < i {
                        assert(pix(old_out, nx as int, x, j as int) == pix(
                            image@,
                            nx as int,
                            x,
                            ny - 1 - j,
                        ));
                        assert((j as int) * (nx as int) + x < old_out.len());
                    } else {
                        assert((j as int) * (nx as int) + x == old_out.len());
                        assert(out@.last() == image@[(src_row as int) * (nx as int) + i]);
                    }
                }
            }
            i = i + 1;
        }
        proof {
            assert(((j as int) + 1) * (nx as int) == (j as int) * (nx as int) + (nx as int))
                by (nonlinear_arith);
        }
        j = j + 1;
    }
    proof {
        assert(out@.len() == (ny as int) * (nx as int));
        assert((nx as int) * (ny as int) == (ny as int) * (nx as int)) by (nonlinear_arith);
    }
    out
}

} // verus!
