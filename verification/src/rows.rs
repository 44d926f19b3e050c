//! Where the rows of weights and activations lie, and which of them can be read.
use vstd::prelude::*;

verus! {

/// Whole blocks of 256 columns in a row.
pub open spec fn blocks_in(ncols: int) -> int {
    if ncols < 0 {
        0
    } else {
        ncols / 256
    }
}

/// Computes [`blocks_in`].
pub fn count_blocks(ncols: i32) -> (r: usize)
    ensures
        r == blocks_in(ncols as int),
{
    if ncols < 0 {
        0
    } else {
        ncols as usize / 256
    }
}

/// The bytes up to `extent` exist, and 32 bit offsets reach them.
pub open spec fn reachable(extent: int, len: int) -> bool {
    extent <= len && extent <= i32::MAX
}

/// Whether a row of activations that starts at a byte offset can be read.
pub open spec fn q8_row_reachable(len: int, blocks: int, row_base: int) -> bool {
    0 <= row_base && reachable(row_base + blocks * 8 * 36, len)
}

/// Whether a row of activations in the layout for matrix products can be read.
pub open spec fn q8_batch_reachable(len: int, blocks: int, b_size: int, batch: int) -> bool {
    blocks > 0 ==> reachable(((2 * blocks - 1) * b_size + batch + 1) * 144, len)
}

/// A block of a row lies within the rows before `rows_end`.
pub proof fn lemma_block_in_rows(
    row: int,
    rows_end: int,
    blocks: int,
    block: int,
    block_bytes: int,
)
    requires
        0 <= row < rows_end,
        0 <= block < blocks,
        0 < block_bytes,
    ensures
        0 <= row * blocks + block < rows_end * blocks,
        0 <= (row * blocks + block) * block_bytes,
        (row * blocks + block) * block_bytes + block_bytes <= rows_end * blocks * block_bytes,
        row * blocks <= rows_end * blocks,
        0 <= row * blocks,
{
    assert(0 <= row * blocks) by (nonlinear_arith)
        requires
            0 <= row,
            0 <= blocks,
    ;
    assert(row * blocks + blocks <= rows_end * blocks) by (nonlinear_arith)
        requires
            row + 1 <= rows_end,
            0 <= blocks,
    ;
    let at = row * blocks + block;
    let end = rows_end * blocks;
    assert(at * block_bytes + block_bytes <= end * block_bytes && 0 <= at * block_bytes)
        by (nonlinear_arith)
        requires
            0 <= at,
            at + 1 <= end,
            0 < block_bytes,
    ;
}

/// An earlier row ends before a later one.
pub proof fn lemma_row_reachable(len: int, blocks: int, row: int, later: int, block_bytes: int)
    requires
        0 <= row <= later,
        0 <= blocks,
        0 < block_bytes,
        reachable((later + 1) * blocks * block_bytes, len),
    ensures
        reachable((row + 1) * blocks * block_bytes, len),
{
    let a = row + 1;
    let b = later + 1;
    assert(a * blocks <= b * blocks) by (nonlinear_arith)
        requires
            0 <= a <= b,
            0 <= blocks,
    ;
    let x = a * blocks;
    let y = b * blocks;
    assert(x * block_bytes <= y * block_bytes) by (nonlinear_arith)
        requires
            x <= y,
            0 < block_bytes,
    ;
}

/// A row is at least as long as its number of blocks.
pub proof fn lemma_blocks_bound(blocks: int, row: int)
    requires
        0 <= blocks,
        0 <= row,
    ensures
        blocks * 144 <= (row + 1) * blocks * 144,
{
    assert(blocks <= (row + 1) * blocks) by (nonlinear_arith)
        requires
            0 <= blocks,
            0 <= row,
    ;
}

/// The blocks of activations of a row lie before the end of its last one.
pub proof fn lemma_mmq_block(index: int, last: int, b_size: int)
    requires
        0 <= index <= last,
        0 <= b_size,
    ensures
        0 <= index * b_size <= last * b_size,
{
    assert(0 <= index * b_size <= last * b_size) by (nonlinear_arith)
        requires
            0 <= index <= last,
            0 <= b_size,
    ;
}

/// A product of numbers that are not negative.
pub proof fn lemma_product_nonnegative(a: int, b: int)
    requires
        0 <= a,
        0 <= b,
    ensures
        0 <= a * b,
{
    assert(0 <= a * b) by (nonlinear_arith)
        requires
            0 <= a,
            0 <= b,
    ;
}

} // verus!
