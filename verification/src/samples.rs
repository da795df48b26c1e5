//! The samples of one block of an image: how they are read, with the edge
//! of the image repeated where a block reaches past it, and how they are
//! written back.

use vstd::prelude::*;
use crate::grid::in_block;
use crate::raster::PixelGrid;
use crate::steganography::SteganographyEngine;

verus! {

/// The sample in `row` and `column` of the block that begins at `left` and
/// `top`: the pixel there, or the nearest pixel of the image where the block
/// reaches past its edge; cells beyond the block size are blank.
pub open spec fn block_sample<G: PixelGrid>(
    grid: &G,
    block_size: nat,
    left: int,
    top: int,
    row: int,
    column: int,
) -> G::Pixel {
    if row < block_size && column < block_size {
        grid.pixel_at(
            if left + column < grid.columns() {
                left + column
            } else {
                grid.columns() - 1
            },
            if top + row < grid.rows() {
                top + row
            } else {
                grid.rows() - 1
            },
        )
    } else {
        G::blank_pixel()
    }
}

/// `block` holds the samples of the block of `grid` that begins at `left`
/// and `top`.
pub open spec fn is_block_of<G: PixelGrid>(
    block: [[G::Pixel; 8]; 8],
    grid: &G,
    block_size: nat,
    left: int,
    top: int,
) -> bool {
    forall|row: int, column: int|
        0 <= row < 8 && 0 <= column < 8 ==> #[trigger] block[row][column] == block_sample(
            grid,
            block_size,
            left,
            top,
            row,
            column,
        )
}

/// `after` is `before` with the block at `left` and `top` overwritten by
/// `block`, as far as the block lies inside the image.
pub open spec fn is_block_written<G: PixelGrid>(
    before: &G,
    after: &G,
    block: [[G::Pixel; 8]; 8],
    block_size: nat,
    left: int,
    top: int,
) -> bool {
    &&& after.columns() == before.columns()
    &&& after.rows() == before.rows()
    &&& forall|x: int, y: int|
        #[trigger] after.pixel_at(x, y) == if in_block(x, y, left, top, block_size) && x
            < before.columns() && y < before.rows() {
            block[y - top][x - left]
        } else {
            before.pixel_at(x, y)
        }
}

impl SteganographyEngine {
    /// Reads the samples of the block that begins at `block_x` and
    /// `block_y`. Where the block reaches past the right or lower edge, the
    /// last pixel of the row or column stands in.
    pub fn extract_sample_block<G: PixelGrid>(
        &self,
        grid: &G,
        block_x: u32,
        block_y: u32,
    ) -> (block: [[G::Pixel; 8]; 8])
        requires
            block_x < grid.columns(),
            block_y < grid.rows(),
        ensures
            is_block_of(
                block,
                grid,
                self.settings().block_size as nat,
                block_x as int,
                block_y as int,
            ),
    {
        proof {
            use_type_invariant(self);
            self.lemma_settings();
        }
        let block_size = self.configuration.block_size;
        let width = grid.width();
        let height = grid.height();
        let blank = G::blank();
        let mut block = [[blank; 8]; 8];
        let mut y: usize = 0;
        while y < block_size
            invariant
                y <= block_size <= 8,
                block_size == self.configuration.block_size,
                width == grid.columns(),
                height == grid.rows(),
                block_x < width,
                block_y < height,
                blank == G::blank_pixel(),
                forall|row: int, column: int|
                    0 <= row < 8 && 0 <= column < 8 ==> #[trigger] block[row][column] == if row < y {
                        block_sample(
                            grid,
                            block_size as nat,
                            block_x as int,
                            block_y as int,
                            row,
                            column,
                        )
                    } else {
                        blank
                    },
            decreases block_size - y,
        {
            let mut line = [blank; 8];
            let pixel_y = block_y as u64 + y as u64;
            let actual_y = if pixel_y < height as u64 {
                pixel_y as u32
            } else {
                height - 1
            };
            let mut x: usize = 0;
            while x < block_size
                invariant
                    x <= block_size <= 8,
                    y < block_size,
                    width == grid.columns(),
                    height == grid.rows(),
                    block_x < width,
                    block_y < height,
                    actual_y < height,
                    actual_y == if block_y + y < height {
                        block_y + y
                    } else {
                        height - 1
                    },
                    blank == G::blank_pixel(),
                    forall|column: int|
                        0 <= column < 8 ==> #[trigger] line[column] == if column < x {
                            block_sample(
                                grid,
                                block_size as nat,
                                block_x as int,
                                block_y as int,
                                y as int,
                                column,
                            )
                        } else {
                            blank
                        },
                decreases block_size - x,
            {
                let pixel_x = block_x as u64 + x as u64;
                let actual_x = if pixel_x < width as u64 {
                    pixel_x as u32
                } else {
                    width - 1
                };
                line[x] = grid.get_pixel(actual_x, actual_y);
                x += 1;
            }
            block[y] = line;
            y += 1;
        }
        block
    }

    /// Writes `block` over the block that begins at `block_x` and
    /// `block_y`. Only pixels inside the image are written.
    pub fn write_sample_block<G: PixelGrid>(
        &self,
        grid: &mut G,
        block_x: u32,
        block_y: u32,
        block: &[[G::Pixel; 8]; 8],
    )
        ensures
            is_block_written(
                old(grid),
                final(grid),
                *block,
                self.settings().block_size as nat,
                block_x as int,
                block_y as int,
            ),
    {
        proof {
            use_type_invariant(self);
            self.lemma_settings();
        }
        let block_size = self.configuration.block_size;
        let width = grid.width();
        let height = grid.height();
        let mut y: usize = 0;
        while y < block_size
            invariant
                y <= block_size <= 8,
                width == grid.columns() == old(grid).columns(),
                height == grid.rows() == old(grid).rows(),
                forall|u: int, v: int|
                    #[trigger] grid.pixel_at(u, v) == if in_block(
                        u,
                        v,
                        block_x as int,
                        block_y as int,
                        block_size as nat,
                    ) && v < block_y + y && u < width && v < height {
                        block[v - block_y][u - block_x]
                    } else {
                        old(grid).pixel_at(u, v)
                    },
            decreases block_size - y,
        {
            let pixel_y = block_y as u64 + y as u64;
            let mut x: usize = 0;
            while x < block_size
                invariant
                    x <= block_size <= 8,
                    y < block_size,
                    pixel_y == block_y + y,
                    width == grid.columns() == old(grid).columns(),
                    height == grid.rows() == old(grid).rows(),
                    forall|u: int, v: int|
                        #[trigger] grid.pixel_at(u, v) == if in_block(
                            u,
                            v,
                            block_x as int,
                            block_y as int,
                            block_size as nat,
                        ) && (v < block_y + y || (v == block_y + y && u < block_x + x)) && u < width
                            && v < height {
                            block[v - block_y][u - block_x]
                        } else {
                            old(grid).pixel_at(u, v)
                        },
                decreases block_size - x,
            {
                let pixel_x = block_x as u64 + x as u64;
                if pixel_x < width as u64 && pixel_y < height as u64 {
                    grid.put_pixel(pixel_x as u32, pixel_y as u32, block[y][x]);
                }
                x += 1;
            }
            y += 1;
        }
    }
}

} // verus!
