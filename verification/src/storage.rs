//! Stored matrices: what a quantizer writes for a matrix, byte by byte, and that it is read back.
//!
//! The functions here say where every byte of a buffer comes from. They are written from the side
//! of the writer: from the offset of a byte to the entry of the matrix that it is a part of.
use vstd::prelude::*;

verus! {

use crate::blocks::{
    bit_pair, half_at, q4k_group, q4k_quant, q6k_d, q6k_quant, q6k_scale, signed, signed_bytes,
    single_at, Q4GroupView, Q8GroupView,
};
use crate::expr::Expr;
use crate::q4k::{q4k_row_group, q8_batch_group, q8_row_group};
use crate::q6k::{q8_batch_activation, Activation, ActivationRowView};

/// 256 Q4_K weights: column `c` stands for
/// `d * scales[c / 32] * quants[c] - dmin * mins[c / 32]`.
pub struct Q4Block {
    pub d: u16,
    pub dmin: u16,
    pub scales: Seq<int>,
    pub mins: Seq<int>,
    pub quants: Seq<int>,
}

/// 256 Q6_K weights: column `c` stands for `d * scales[c / 16] * quants[c]`.
pub struct Q6Block {
    pub d: u16,
    pub scales: Seq<i8>,
    pub quants: Seq<int>,
}

/// 32 activations with a half precision scale, and their sum: lane `l` stands for
/// `d * quants[l]`.
pub struct Q8Half {
    pub d: u16,
    pub sum: u16,
    pub quants: Seq<i8>,
}

/// 32 activations with a single precision scale: lane `l` stands for `d * quants[l]`.
pub struct Q8Single {
    pub d: u32,
    pub quants: Seq<i8>,
}

impl Q4Block {
    /// Scales and mins have six bits, quants four.
    pub open spec fn is_valid(self) -> bool {
        &&& self.scales.len() == 8
        &&& self.mins.len() == 8
        &&& self.quants.len() == 256
        &&& forall|g: int| 0 <= g < 8 ==> 0 <= #[trigger] self.scales[g] < 64
        &&& forall|g: int| 0 <= g < 8 ==> 0 <= #[trigger] self.mins[g] < 64
        &&& forall|c: int| 0 <= c < 256 ==> 0 <= #[trigger] self.quants[c] < 16
    }
}

impl Q6Block {
    /// Quants have six bits and a sign.
    pub open spec fn is_valid(self) -> bool {
        &&& self.scales.len() == 16
        &&& self.quants.len() == 256
        &&& forall|c: int| 0 <= c < 256 ==> -32 <= #[trigger] self.quants[c] < 32
    }
}

/// The two bytes of a half precision number, low byte first.
pub open spec fn half_byte(bits: u16, i: int) -> int {
    if i == 0 {
        bits as int % 256
    } else {
        bits as int / 256
    }
}

/// The four bytes of a single precision number, low byte first.
pub open spec fn single_byte(bits: u32, i: int) -> int {
    if i == 0 {
        bits as int % 256
    } else if i == 1 {
        bits as int / 256 % 256
    } else if i == 2 {
        bits as int / 65536 % 256
    } else {
        bits as int / 16777216
    }
}

/// The byte of a signed number.
pub open spec fn signed_byte(x: i8) -> int {
    if x < 0 {
        x + 256
    } else {
        x as int
    }
}

/// A byte of the 144 of a Q4_K block.
pub open spec fn q4k_byte(b: Q4Block, j: int) -> int {
    if j < 2 {
        half_byte(b.d, j)
    } else if j < 4 {
        half_byte(b.dmin, j - 2)
    } else if j < 8 {
        b.scales[j - 4] + 64 * (b.scales[j] / 16)
    } else if j < 12 {
        b.mins[j - 8] + 64 * (b.mins[j - 4] / 16)
    } else if j < 16 {
        b.scales[j - 8] % 16 + 16 * (b.mins[j - 8] % 16)
    } else {
        let c = 64 * ((j - 16) / 32) + (j - 16) % 32;
        b.quants[c] + 16 * b.quants[c + 32]
    }
}

/// A quant without its sign, in 0 to 63.
pub open spec fn q6k_raw(b: Q6Block, c: int) -> int {
    b.quants[c] + 32
}

/// A byte of the 210 of a Q6_K block.
pub open spec fn q6k_byte(b: Q6Block, j: int) -> int {
    if j < 128 {
        let c = 128 * (j / 64) + j % 64;
        q6k_raw(b, c) % 16 + 16 * (q6k_raw(b, c + 64) % 16)
    } else if j < 192 {
        let c = 128 * ((j - 128) / 32) + (j - 128) % 32;
        q6k_raw(b, c) / 16 + 4 * (q6k_raw(b, c + 32) / 16) + 16 * (q6k_raw(b, c + 64) / 16) + 64 * (
        q6k_raw(b, c + 96) / 16)
    } else if j < 208 {
        signed_byte(b.scales[j - 192])
    } else {
        half_byte(b.d, j - 208)
    }
}

/// A byte of the 36 of a Q8_1 block.
pub open spec fn q8_byte(a: Q8Half, j: int) -> int {
    if j < 2 {
        half_byte(a.d, j)
    } else if j < 4 {
        half_byte(a.sum, j - 2)
    } else {
        signed_byte(a.quants[j - 4])
    }
}

/// The buffer of a matrix of Q4_K blocks: row after row, block after block.
pub open spec fn store_q4k(m: spec_fn(int, int) -> Q4Block, nrows: int, blocks: int) -> Seq<u8> {
    Seq::new(
        (nrows * blocks * 144) as nat,
        |p: int| q4k_byte(m((p / 144) / blocks, (p / 144) % blocks), p % 144) as u8,
    )
}

/// The buffer of a matrix of Q6_K blocks: row after row, block after block.
pub open spec fn store_q6k(m: spec_fn(int, int) -> Q6Block, nrows: int, blocks: int) -> Seq<u8> {
    Seq::new(
        (nrows * blocks * 210) as nat,
        |p: int| q6k_byte(m((p / 210) / blocks, (p / 210) % blocks), p % 210) as u8,
    )
}

/// The buffer of rows of `groups` Q8_1 blocks: row after row, block after block.
pub open spec fn store_q8(a: spec_fn(int, int) -> Q8Half, rows: int, groups: int) -> Seq<u8> {
    Seq::new(
        (rows * groups * 36) as nat,
        |p: int| q8_byte(a((p / 36) / groups, (p / 36) % groups), p % 36) as u8,
    )
}

/// A byte of the 144 of four groups whose half precision scales and sums come first.
pub open spec fn ds4_byte(a: spec_fn(int) -> Q8Half, j: int) -> int {
    if j < 16 {
        q8_byte(a(j / 4), j % 4)
    } else {
        q8_byte(a((j - 16) / 32), 4 + (j - 16) % 32)
    }
}

/// A byte of the 144 of four groups whose single precision scales come first.
pub open spec fn d4_byte(a: spec_fn(int) -> Q8Single, j: int) -> int {
    if j < 16 {
        single_byte(a(j / 4).d, j % 4)
    } else {
        signed_byte(a((j - 16) / 32).quants[(j - 16) % 32])
    }
}

/// The buffer for matrix products with half precision scales and sums: four groups of the first
/// row, the same four groups of the next row, and so on, before the next four groups.
pub open spec fn store_ds4(a: spec_fn(int, int) -> Q8Half, rows: int, fours: int) -> Seq<u8> {
    Seq::new(
        (fours * rows * 144) as nat,
        |p: int|
            ds4_byte(
                |slot: int| a((p / 144) % rows, 4 * ((p / 144) / rows) + slot),
                p % 144,
            ) as u8,
    )
}

/// The buffer for matrix products with single precision scales, in the same order.
pub open spec fn store_d4(a: spec_fn(int, int) -> Q8Single, rows: int, fours: int) -> Seq<u8> {
    Seq::new(
        (fours * rows * 144) as nat,
        |p: int|
            d4_byte(
                |slot: int| a((p / 144) % rows, 4 * ((p / 144) / rows) + slot),
                p % 144,
            ) as u8,
    )
}

/// A buffer begins with what was stored.
pub open spec fn holds(mem: Seq<u8>, stored: Seq<u8>) -> bool {
    &&& stored.len() <= mem.len()
    &&& forall|p: int| 0 <= p < stored.len() ==> #[trigger] mem[p] == stored[p]
}

/// A half precision number is made of its two bytes, the low one first.
pub proof fn law_half_is_its_bytes(mem: Seq<u8>, i: int)
    ensures
        half_at(mem, i) % 256 == mem[2 * i],
        half_at(mem, i) / 256 == mem[2 * i + 1],
{
}

/// A single precision number is made of its four bytes, the lowest one first.
pub proof fn law_single_is_its_bytes(mem: Seq<u8>, i: int)
    ensures
        single_at(mem, i) % 256 == mem[4 * i],
        single_at(mem, i) / 256 % 256 == mem[4 * i + 1],
        single_at(mem, i) / 65536 % 256 == mem[4 * i + 2],
        single_at(mem, i) / 16777216 == mem[4 * i + 3],
{
}

/// A signed byte is the number from -128 to 127 that equals the byte modulo 256.
pub proof fn law_signed_is_twos_complement(byte: u8)
    ensures
        -128 <= signed(byte) < 128,
        (signed(byte) - byte) % 256 == 0,
{
}

/// The offset of a byte of a cell of a matrix.
proof fn lemma_cell(outer: int, outers: int, inner: int, inners: int, j: int, size: int)
    requires
        0 <= outer < outers,
        0 <= inner < inners,
        0 <= j < size,
    ensures
        ({
            let p = (outer * inners + inner) * size + j;
            &&& 0 <= p < outers * inners * size
            &&& p / size == outer * inners + inner
            &&& p % size == j
            &&& (outer * inners + inner) / inners == outer
            &&& (outer * inners + inner) % inners == inner
        }),
{
    let cell = outer * inners + inner;
    assert(0 <= cell && cell + 1 <= outers * inners) by (nonlinear_arith)
        requires
            cell == outer * inners + inner,
            0 <= outer,
            outer + 1 <= outers,
            0 <= inner,
            inner + 1 <= inners,
    ;
    let cells = outers * inners;
    assert(0 <= cell * size && cell * size + size <= cells * size) by (nonlinear_arith)
        requires
            0 <= cell,
            cell + 1 <= cells,
            0 < size,
    ;
    vstd::arithmetic::div_mod::lemma_fundamental_div_mod_converse(
        cell * size + j,
        size,
        cell,
        j,
    );
    vstd::arithmetic::div_mod::lemma_fundamental_div_mod_converse(cell, inners, outer, inner);
}

/// The bytes at an offset are those of a Q4_K block.
pub open spec fn is_q4k_at(mem: Seq<u8>, base: int, b: Q4Block) -> bool {
    forall|j: int| 0 <= j < 144 ==> #[trigger] mem[base + j] == q4k_byte(b, j)
}

/// Reading a group of a Q4_K block gives the scales, the min and the quants that were packed.
pub proof fn law_q4k_block_reads_back(mem: Seq<u8>, base: int, b: Q4Block, g: int)
    requires
        b.is_valid(),
        base % 2 == 0,
        0 <= g < 8,
        is_q4k_at(mem, base, b),
    ensures
        q4k_group(mem, base, g) == (Q4GroupView {
            d: b.d,
            dmin: b.dmin,
            scale: b.scales[g] as u8,
            min: b.mins[g] as u8,
            quants: Seq::new(32, |l: int| b.quants[32 * g + l] as u8),
        }),
{
    assert(mem[base + 0] == q4k_byte(b, 0));
    assert(mem[base + 1] == q4k_byte(b, 1));
    assert(mem[base + 2] == q4k_byte(b, 2));
    assert(mem[base + 3] == q4k_byte(b, 3));
    if g < 4 {
        assert(mem[base + (4 + g)] == q4k_byte(b, 4 + g));
        assert(mem[base + (8 + g)] == q4k_byte(b, 8 + g));
        assert(0 <= b.scales[g + 4] < 64 && 0 <= b.mins[g + 4] < 64);
    } else {
        assert(mem[base + (8 + g)] == q4k_byte(b, 8 + g));
        assert(mem[base + g] == q4k_byte(b, g));
        assert(mem[base + (4 + g)] == q4k_byte(b, 4 + g));
        assert(0 <= b.scales[g - 4] < 64 && 0 <= b.mins[g - 4] < 64);
    }
    assert(0 <= b.scales[g] < 64 && 0 <= b.mins[g] < 64);
    assert forall|l: int| 0 <= l < 32 implies q4k_quant(mem, base, g, l) == b.quants[32 * g
        + l] by {
        let j = 16 + (g / 2) * 32 + l;
        assert(mem[base + j] == q4k_byte(b, j));
        assert((j - 16) / 32 == g / 2 && (j - 16) % 32 == l);
        let c = 64 * (g / 2) + l;
        assert(0 <= b.quants[c] < 16 && 0 <= b.quants[c + 32] < 16);
    }
    assert(q4k_group(mem, base, g).quants =~= Seq::new(
        32,
        |l: int| b.quants[32 * g + l] as u8,
    ));
}

/// Storing a matrix of Q4_K weights and reading a group of a row gives that group of that row.
pub proof fn law_stored_q4k_reads_back(
    mem: Seq<u8>,
    m: spec_fn(int, int) -> Q4Block,
    nrows: int,
    blocks: int,
    row: int,
    i: int,
)
    requires
        forall|r: int, k: int| (#[trigger] m(r, k)).is_valid(),
        holds(mem, store_q4k(m, nrows, blocks)),
        0 <= row < nrows,
        0 <= i < 8 * blocks,
    ensures
        ({
            let b = m(row, i / 8);
            let g = i % 8;
            q4k_row_group(mem, blocks, row, i) == (Q4GroupView {
                d: b.d,
                dmin: b.dmin,
                scale: b.scales[g] as u8,
                min: b.mins[g] as u8,
                quants: Seq::new(32, |l: int| b.quants[32 * g + l] as u8),
            })
        }),
{
    let b = m(row, i / 8);
    let cell = row * blocks + i / 8;
    let base = cell * 144;
    assert forall|j: int| 0 <= j < 144 implies #[trigger] mem[base + j] == q4k_byte(b, j) by {
        lemma_cell(row, nrows, i / 8, blocks, j, 144);
        lemma_q4k_byte_range(b, j);
        assert(mem[base + j] == store_q4k(m, nrows, blocks)[base + j]);
    }
    law_q4k_block_reads_back(mem, base, b, i % 8);
}

/// Packed bytes are bytes.
proof fn lemma_q4k_byte_range(b: Q4Block, j: int)
    requires
        b.is_valid(),
        0 <= j < 144,
    ensures
        0 <= q4k_byte(b, j) < 256,
{
    if 4 <= j < 8 {
        assert(0 <= b.scales[j - 4] < 64 && 0 <= b.scales[j] < 64);
    } else if 8 <= j < 12 {
        assert(0 <= b.mins[j - 8] < 64 && 0 <= b.mins[j - 4] < 64);
    } else if 12 <= j < 16 {
        assert(0 <= b.scales[j - 8] < 64 && 0 <= b.mins[j - 8] < 64);
    } else if 16 <= j {
        let c = 64 * ((j - 16) / 32) + (j - 16) % 32;
        assert(0 <= b.quants[c] < 16 && 0 <= b.quants[c + 32] < 16);
    }
}

/// The bytes at an offset are those of a Q6_K block.
pub open spec fn is_q6k_at(mem: Seq<u8>, base: int, b: Q6Block) -> bool {
    forall|j: int| 0 <= j < 210 ==> #[trigger] mem[base + j] == q6k_byte(b, j)
}

/// Joined pairs of bits come apart again.
proof fn lemma_pairs(a: int, b: int, c: int, d: int)
    requires
        0 <= a < 4,
        0 <= b < 4,
        0 <= c < 4,
        0 <= d < 4,
    ensures
        ({
            let byte = (a + 4 * b + 16 * c + 64 * d) as u8;
            &&& byte == a + 4 * b + 16 * c + 64 * d
            &&& bit_pair(byte, 0) == a
            &&& bit_pair(byte, 1) == b
            &&& bit_pair(byte, 2) == c
            &&& bit_pair(byte, 3) == d
        }),
{
}

/// Reading a column of a Q6_K block gives the scale factors, with all their bits, and the quant
/// that were packed.
pub proof fn law_q6k_block_reads_back(mem: Seq<u8>, base: int, b: Q6Block, c: int)
    requires
        b.is_valid(),
        base % 2 == 0,
        0 <= c < 256,
        is_q6k_at(mem, base, b),
    ensures
        q6k_d(mem, base) == b.d,
        q6k_d(mem, base) == mem[base + 208] + 256 * mem[base + 209],
        q6k_scale(mem, base, c) == b.scales[c / 16],
        q6k_quant(mem, base, c) == b.quants[c],
{
    assert(mem[base + 208] == q6k_byte(b, 208));
    assert(mem[base + 209] == q6k_byte(b, 209));
    assert(mem[base + (192 + c / 16)] == q6k_byte(b, 192 + c / 16));
    let half = c / 128;
    let run = (c % 128) / 32;
    let l = c % 32;
    let j = 64 * half + 32 * (run % 2) + l;
    let low_column = 128 * half + 32 * (run % 2) + l;
    assert(j / 64 == half && j % 64 == 32 * (run % 2) + l);
    assert(mem[base + j] == q6k_byte(b, j));
    assert(-32 <= b.quants[low_column] < 32 && -32 <= b.quants[low_column + 64] < 32);
    assert(mem[base + j] % 16 == q6k_raw(b, low_column) % 16);
    assert(mem[base + j] / 16 == q6k_raw(b, low_column + 64) % 16);
    assert(c == low_column + 64 * (run / 2));
    let k = 128 + 32 * half + l;
    let first = 128 * half + l;
    assert((k - 128) / 32 == half && (k - 128) % 32 == l);
    assert(mem[base + k] == q6k_byte(b, k));
    assert(-32 <= b.quants[first] < 32);
    assert(-32 <= b.quants[first + 32] < 32);
    assert(-32 <= b.quants[first + 64] < 32);
    assert(-32 <= b.quants[first + 96] < 32);
    lemma_pairs(
        q6k_raw(b, first) / 16,
        q6k_raw(b, first + 32) / 16,
        q6k_raw(b, first + 64) / 16,
        q6k_raw(b, first + 96) / 16,
    );
    assert(c == first + 32 * run);
    assert(bit_pair(mem[base + k], run) == q6k_raw(b, c) / 16);
}

/// Packed bytes are bytes.
proof fn lemma_q6k_byte_range(b: Q6Block, j: int)
    requires
        b.is_valid(),
        0 <= j < 210,
    ensures
        0 <= q6k_byte(b, j) < 256,
{
    if 128 <= j < 192 {
        let c = 128 * ((j - 128) / 32) + (j - 128) % 32;
        assert(-32 <= b.quants[c] < 32);
        assert(-32 <= b.quants[c + 32] < 32);
        assert(-32 <= b.quants[c + 64] < 32);
        assert(-32 <= b.quants[c + 96] < 32);
    }
}

/// Storing a matrix of Q6_K weights and reading a column of a row gives the scale factors and the
/// quant of that column of that row.
pub proof fn law_stored_q6k_reads_back(
    mem: Seq<u8>,
    m: spec_fn(int, int) -> Q6Block,
    nrows: int,
    blocks: int,
    row: int,
    column: int,
)
    requires
        forall|r: int, k: int| (#[trigger] m(r, k)).is_valid(),
        holds(mem, store_q6k(m, nrows, blocks)),
        0 <= row < nrows,
        0 <= column < 256 * blocks,
    ensures
        ({
            let b = m(row, column / 256);
            let base = (row * blocks + column / 256) * 210;
            &&& q6k_d(mem, base) == b.d
            &&& q6k_scale(mem, base, column % 256) == b.scales[(column % 256) / 16]
            &&& q6k_quant(mem, base, column % 256) == b.quants[column % 256]
        }),
{
    let b = m(row, column / 256);
    let cell = row * blocks + column / 256;
    let base = cell * 210;
    assert forall|j: int| 0 <= j < 210 implies #[trigger] mem[base + j] == q6k_byte(b, j) by {
        lemma_cell(row, nrows, column / 256, blocks, j, 210);
        lemma_q6k_byte_range(b, j);
        assert(mem[base + j] == store_q6k(m, nrows, blocks)[base + j]);
    }
    law_q6k_block_reads_back(mem, base, b, column % 256);
}

/// The bytes at an offset are those of a Q8_1 block.
pub open spec fn is_q8_at(mem: Seq<u8>, base: int, g: Q8Half) -> bool {
    forall|j: int| 0 <= j < 36 ==> #[trigger] mem[base + j] == q8_byte(g, j)
}

/// Reading a Q8_1 block of a row gives the scale, the sum and the quants that were packed, by
/// groups and by columns.
pub proof fn law_q8_block_reads_back(mem: Seq<u8>, row_base: int, i: int, g: Q8Half)
    requires
        g.quants.len() == 32,
        row_base % 2 == 0,
        is_q8_at(mem, row_base + 36 * i, g),
    ensures
        q8_row_group(mem, row_base, i) == (Q8GroupView { d: g.d, sum: g.sum, quants: g.quants }),
        forall|l: int|
            0 <= l < 32 ==> #[trigger] (ActivationRowView::Blocks { row_base }).activation(
                mem,
                32 * i + l,
            ) == (Activation { d: Expr::Half(g.d), quant: g.quants[l] }),
{
    let base = row_base + 36 * i;
    assert(base % 2 == 0);
    assert(mem[base + 0] == q8_byte(g, 0));
    assert(mem[base + 1] == q8_byte(g, 1));
    assert(mem[base + 2] == q8_byte(g, 2));
    assert(mem[base + 3] == q8_byte(g, 3));
    assert forall|l: int| 0 <= l < 32 implies signed(#[trigger] mem[base + 4 + l])
        == g.quants[l] by {
        assert(mem[base + (4 + l)] == q8_byte(g, 4 + l));
    }
    assert(signed_bytes(mem, base + 4) =~= g.quants);
    assert forall|l: int| 0 <= l < 32 implies #[trigger] (ActivationRowView::Blocks {
        row_base,
    }).activation(mem, 32 * i + l) == (Activation { d: Expr::Half(g.d), quant: g.quants[l] }) by {
        assert((32 * i + l) / 32 == i && (32 * i + l) % 32 == l);
        assert(signed(mem[base + 4 + l]) == g.quants[l]);
    }
}

/// Storing rows of activations in Q8_1 blocks and reading a group of a row gives that group of
/// that row. Rows lie `36 * groups` bytes apart.
pub proof fn law_stored_q8_reads_back(
    mem: Seq<u8>,
    a: spec_fn(int, int) -> Q8Half,
    rows: int,
    groups: int,
    row: int,
    i: int,
)
    requires
        forall|r: int, k: int| (#[trigger] a(r, k)).quants.len() == 32,
        holds(mem, store_q8(a, rows, groups)),
        0 <= row < rows,
        0 <= i < groups,
    ensures
        is_q8_at(mem, row * (36 * groups) + 36 * i, a(row, i)),
        q8_row_group(mem, row * (36 * groups), i) == (Q8GroupView {
            d: a(row, i).d,
            sum: a(row, i).sum,
            quants: a(row, i).quants,
        }),
        forall|l: int|
            0 <= l < 32 ==> #[trigger] (ActivationRowView::Blocks {
                row_base: row * (36 * groups),
            }).activation(mem, 32 * i + l) == (Activation {
                d: Expr::Half(a(row, i).d),
                quant: a(row, i).quants[l],
            }),
{
    let g = a(row, i);
    let row_base = row * (36 * groups);
    let base = row_base + 36 * i;
    assert(base == (row * groups + i) * 36 && row_base == 36 * (row * groups))
        by (nonlinear_arith)
        requires
            row_base == row * (36 * groups),
            base == row_base + 36 * i,
    ;
    assert forall|j: int| 0 <= j < 36 implies #[trigger] mem[base + j] == q8_byte(g, j) by {
        lemma_cell(row, rows, i, groups, j, 36);
        assert(mem[base + j] == store_q8(a, rows, groups)[base + j]);
    }
    assert(row_base % 2 == 0);
    law_q8_block_reads_back(mem, row_base, i, g);
}

/// Storing rows of activations for matrix products and reading a group of a row gives that group
/// of that row, with its scale and its sum.
pub proof fn law_stored_ds4_reads_back(
    mem: Seq<u8>,
    a: spec_fn(int, int) -> Q8Half,
    rows: int,
    fours: int,
    row: int,
    i: int,
)
    requires
        forall|r: int, k: int| (#[trigger] a(r, k)).quants.len() == 32,
        holds(mem, store_ds4(a, rows, fours)),
        0 <= row < rows,
        0 <= i < 4 * fours,
    ensures
        q8_batch_group(mem, rows, row, i) == (Q8GroupView {
            d: a(row, i).d,
            sum: a(row, i).sum,
            quants: a(row, i).quants,
        }),
{
    let g = a(row, i);
    let cell = (i / 4) * rows + row;
    let base = cell * 144;
    let slot = i % 4;
    let of_slot = |s: int| a(row, 4 * (i / 4) + s);
    assert(of_slot(slot) == g);
    assert forall|j: int| 0 <= j < 144 implies #[trigger] mem[base + j] == ds4_byte(
        of_slot,
        j,
    ) by {
        lemma_cell(i / 4, fours, row, rows, j, 144);
        let p = base + j;
        assert(mem[p] == store_ds4(a, rows, fours)[p]);
        assert((|s: int| a((p / 144) % rows, 4 * ((p / 144) / rows) + s)) =~= of_slot);
    }
    assert(base % 2 == 0);
    assert(mem[base + (4 * slot)] == ds4_byte(of_slot, 4 * slot));
    assert(mem[base + (4 * slot + 1)] == ds4_byte(of_slot, 4 * slot + 1));
    assert(mem[base + (4 * slot + 2)] == ds4_byte(of_slot, 4 * slot + 2));
    assert(mem[base + (4 * slot + 3)] == ds4_byte(of_slot, 4 * slot + 3));
    assert forall|l: int| 0 <= l < 32 implies signed(mem[base + 16 + slot * 32 + l])
        == g.quants[l] by {
        let j = 16 + 32 * slot + l;
        assert(mem[base + j] == ds4_byte(of_slot, j));
        assert((j - 16) / 32 == slot && (j - 16) % 32 == l);
    }
    assert(signed_bytes(mem, base + 16 + slot * 32) =~= g.quants);
}

/// Four bytes make up the number that they were taken from.
proof fn lemma_single(mem: Seq<u8>, i: int, bits: u32)
    requires
        mem[4 * i] == single_byte(bits, 0),
        mem[4 * i + 1] == single_byte(bits, 1),
        mem[4 * i + 2] == single_byte(bits, 2),
        mem[4 * i + 3] == single_byte(bits, 3),
    ensures
        single_at(mem, i) == bits,
{
    let b = bits as int;
    assert(b == b % 256 + 256 * (b / 256 % 256) + 65536 * (b / 65536 % 256) + 16777216 * (b
        / 16777216));
}

/// Storing rows of activations with single precision scales and reading a column of a row gives
/// the scale and the quant of that column of that row.
pub proof fn law_stored_d4_reads_back(
    mem: Seq<u8>,
    a: spec_fn(int, int) -> Q8Single,
    rows: int,
    fours: int,
    row: int,
    column: int,
)
    requires
        forall|r: int, k: int| (#[trigger] a(r, k)).quants.len() == 32,
        holds(mem, store_d4(a, rows, fours)),
        0 <= row < rows,
        0 <= column < 128 * fours,
    ensures
        (ActivationRowView::Interleaved { b_size: rows, batch: row }).activation(mem, column) == (
        Activation {
            d: Expr::Single(a(row, column / 32).d),
            quant: a(row, column / 32).quants[column % 32],
        }),
{
    let g = a(row, column / 32);
    let four = column / 128;
    let cell = four * rows + row;
    let base = cell * 144;
    let slot = (column / 32) % 4;
    let l = column % 32;
    let of_slot = |s: int| a(row, 4 * four + s);
    let at = ActivationRowView::Interleaved { b_size: rows, batch: row };
    assert(at.activation(mem, column) == q8_batch_activation(mem, rows, row, column));
    assert(4 * four + slot == column / 32);
    assert(of_slot(slot) == g);
    assert forall|j: int| 0 <= j < 144 implies #[trigger] mem[base + j] == d4_byte(of_slot, j) by {
        lemma_cell(four, fours, row, rows, j, 144);
        let p = base + j;
        assert(mem[p] == store_d4(a, rows, fours)[p]);
        assert((|s: int| a((p / 144) % rows, 4 * ((p / 144) / rows) + s)) =~= of_slot);
    }
    assert(base % 4 == 0);
    assert(mem[base + (4 * slot)] == d4_byte(of_slot, 4 * slot));
    assert(mem[base + (4 * slot + 1)] == d4_byte(of_slot, 4 * slot + 1));
    assert(mem[base + (4 * slot + 2)] == d4_byte(of_slot, 4 * slot + 2));
    assert(mem[base + (4 * slot + 3)] == d4_byte(of_slot, 4 * slot + 3));
    lemma_single(mem, (base + slot * 4) / 4, g.d);
    let j = 16 + 32 * slot + l;
    assert(mem[base + j] == d4_byte(of_slot, j));
    assert((j - 16) / 32 == slot && (j - 16) % 32 == l);
}

} // verus!
