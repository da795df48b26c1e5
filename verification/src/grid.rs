//! The arithmetic of laying square blocks over a rectangle of pixels.

use vstd::prelude::*;
use vstd::arithmetic::div_mod::{lemma_fundamental_div_mod, lemma_fundamental_div_mod_converse};

verus! {

/// The number of blocks of side `block_size` that cover `extent` pixels.
pub open spec fn blocks_across(extent: nat, block_size: nat) -> nat {
    ((extent + block_size - 1) / (block_size as int)) as nat
}

/// The one-bit slots of an image: one for each block, partial blocks at the
/// right and lower edge included.
pub open spec fn grid_capacity(columns: nat, rows: nat, block_size: nat) -> nat {
    blocks_across(columns, block_size) * blocks_across(rows, block_size)
}

/// The pixel column where block `index` begins; blocks are counted row by
/// row from the top left.
pub open spec fn block_left(index: int, columns: nat, block_size: nat) -> int {
    (index % blocks_across(columns, block_size) as int) * block_size
}

/// The pixel row where block `index` begins.
pub open spec fn block_top(index: int, columns: nat, block_size: nat) -> int {
    (index / blocks_across(columns, block_size) as int) * block_size
}

/// How many of the `block_size` columns or rows of a block that begins at
/// `start` lie inside `extent` pixels.
pub open spec fn block_reach(extent: nat, start: int, block_size: nat) -> int {
    if extent - start < block_size {
        extent - start
    } else {
        block_size as int
    }
}

/// The index of the block that holds the pixel at `x` and `y`.
pub open spec fn block_index_of(x: int, y: int, columns: nat, block_size: nat) -> int {
    (y / block_size as int) * blocks_across(columns, block_size) + x / block_size as int
}

/// The pixel at `x` and `y` lies in the block that begins at `left` and
/// `top`.
pub open spec fn in_block(x: int, y: int, left: int, top: int, block_size: nat) -> bool {
    left <= x < left + block_size && top <= y < top + block_size
}

/// The blocks that cover an extent are as many as its pixels at most, and a
/// block begins inside the extent exactly if it is one of them.
pub proof fn lemma_blocks_across(extent: nat, block_size: nat, block: int)
    requires
        block_size >= 1,
        0 <= block,
    ensures
        blocks_across(extent, block_size) <= extent,
        block < blocks_across(extent, block_size) <==> block * block_size < extent,
{
    let count = blocks_across(extent, block_size);
    lemma_fundamental_div_mod(extent + block_size - 1, block_size as int);
    let rest = (extent + block_size - 1) % (block_size as int);
    assert(count <= extent) by (nonlinear_arith)
        requires
            extent + block_size - 1 == block_size * count + rest,
            0 <= rest,
            block_size >= 1,
            0 <= count,
    ;
    assert(block < count <==> block * block_size < extent) by (nonlinear_arith)
        requires
            extent + block_size - 1 == block_size * count + rest,
            0 <= rest < block_size,
            0 <= block,
            0 <= count,
    ;
}

/// A pixel coordinate lies in block `block` exactly if dividing it by the
/// block size gives `block`; the remainder is its place inside the block.
pub proof fn lemma_block_of_coordinate(coordinate: int, block_size: nat, block: int)
    requires
        block_size >= 1,
        0 <= coordinate,
    ensures
        coordinate / block_size as int == block <==> block * block_size <= coordinate < block
            * block_size + block_size,
        coordinate / block_size as int == block ==> coordinate % block_size as int == coordinate
            - block * block_size,
{
    lemma_fundamental_div_mod(coordinate, block_size as int);
    let quotient = coordinate / block_size as int;
    let rest = coordinate % block_size as int;
    assert(quotient == block <==> block * block_size <= coordinate < block * block_size
        + block_size) by (nonlinear_arith)
        requires
            coordinate == block_size * quotient + rest,
            0 <= rest < block_size,
    ;
    if quotient == block {
        assert(block_size * quotient == block * block_size) by (nonlinear_arith)
            requires
                quotient == block,
        ;
    }
}

/// A block index splits into its row and column in one way only.
pub proof fn lemma_block_index_splits(index: int, across: nat, row: int, column: int)
    requires
        index == row * across + column,
        0 <= column < across,
    ensures
        index / across as int == row,
        index % across as int == column,
{
    lemma_fundamental_div_mod_converse(index, across as int, row, column);
}

/// A pixel inside the image lies in block `row * across + column` exactly
/// if it lies in the square of that block.
pub proof fn lemma_pixel_in_block(
    x: int,
    y: int,
    columns: nat,
    block_size: nat,
    row: int,
    column: int,
)
    requires
        block_size >= 1,
        0 <= x < columns,
        0 <= y,
        0 <= row,
        0 <= column < blocks_across(columns, block_size),
    ensures
        block_index_of(x, y, columns, block_size) == row * blocks_across(columns, block_size)
            + column <==> in_block(x, y, column * block_size, row * block_size, block_size),
        in_block(x, y, column * block_size, row * block_size, block_size) ==> y
            % block_size as int == y - row * block_size && x % block_size as int == x - column
            * block_size,
{
    let across = blocks_across(columns, block_size);
    let pixel_column = x / block_size as int;
    let pixel_row = y / block_size as int;
    lemma_block_of_coordinate(x, block_size, column);
    lemma_block_of_coordinate(y, block_size, row);
    lemma_block_of_coordinate(x, block_size, pixel_column);
    lemma_blocks_across(columns, block_size, pixel_column);
    if pixel_row * across + pixel_column == row * across + column {
        lemma_block_index_splits(
            pixel_row * across + pixel_column,
            across,
            pixel_row,
            pixel_column,
        );
        lemma_block_index_splits(row * across + column, across, row, column);
    }
}

} // verus!
