//! The kernels that multiply Q6_K weights with Q8_1 activations.
//!
//! As for Q4_K, each function is one tile program.
use vstd::prelude::*;

use crate::blocks::{
    read_half, read_q6k_d, read_q6k_quant, read_q6k_scale, read_signed, read_single,
};
use crate::expr::{product, Expr, Output, Step};
use crate::rows::count_blocks;

verus! {

use crate::blocks::{half_at, q6k_column, q6k_d, q6k_quant, q6k_scale, signed, single_at};
use crate::expr::{views, OutputView, StepView};
use crate::rows::{
    blocks_in, lemma_block_in_rows, lemma_mmq_block, lemma_product_nonnegative,
    lemma_row_reachable, q8_batch_reachable, q8_row_reachable, reachable,
};

/// The activation of a column: it stands for `d * quant`.
pub struct Activation {
    pub d: Expr,
    pub quant: i8,
}

/// Where a row of activations lies.
pub enum ActivationRow {
    /// Q8_1 blocks from a byte offset on.
    Blocks { row_base: usize },
    /// Q8_1 blocks for matrix products with single precision scales, where the blocks of all
    /// rows for the same columns lie together.
    Interleaved { b_size: usize, batch: usize },
}

/// The mathematical model of an [`ActivationRow`].
pub enum ActivationRowView {
    Blocks { row_base: int },
    Interleaved { b_size: int, batch: int },
}

impl View for ActivationRow {
    type V = ActivationRowView;

    open spec fn view(&self) -> ActivationRowView {
        match *self {
            ActivationRow::Blocks { row_base } => ActivationRowView::Blocks {
                row_base: row_base as int,
            },
            ActivationRow::Interleaved { b_size, batch } => ActivationRowView::Interleaved {
                b_size: b_size as int,
                batch: batch as int,
            },
        }
    }
}

/// The activation of a column of a row of Q8_1 blocks.
pub open spec fn q8_row_activation(q8: Seq<u8>, row_base: int, column: int) -> Activation {
    let base = row_base + (column / 32) * 36;
    Activation {
        d: Expr::Half(half_at(q8, base / 2)),
        quant: signed(q8[base + 4 + column % 32]) as i8,
    }
}

/// The activation of a column in the layout for matrix products with single precision scales.
pub open spec fn q8_batch_activation(
    q8: Seq<u8>,
    b_size: int,
    batch: int,
    column: int,
) -> Activation {
    let base = ((column / 128) * b_size + batch) * 144;
    let slot = (column / 32) % 4;
    Activation {
        d: Expr::Single(single_at(q8, (base + slot * 4) / 4)),
        quant: signed(q8[base + 16 + slot * 32 + column % 32]) as i8,
    }
}

impl ActivationRowView {
    /// The activation of a column.
    pub open spec fn activation(self, q8: Seq<u8>, column: int) -> Activation {
        match self {
            ActivationRowView::Blocks { row_base } => q8_row_activation(q8, row_base, column),
            ActivationRowView::Interleaved { b_size, batch } => q8_batch_activation(
                q8,
                b_size,
                batch,
                column,
            ),
        }
    }

    /// Whether the row can be read.
    pub open spec fn row_reachable(self, len: int, blocks: int) -> bool {
        match self {
            ActivationRowView::Blocks { row_base } => q8_row_reachable(len, blocks, row_base),
            ActivationRowView::Interleaved { b_size, batch } => q8_batch_reachable(
                len,
                blocks,
                b_size,
                batch,
            ),
        }
    }
}

/// The product of a dequantized weight and an activation, for a column of a block of weights.
pub open spec fn q6k_lane(q6: Seq<u8>, base: int, column: int, a: Activation) -> Expr {
    Expr::Mul(
        Box::new(
            Expr::Mul(
                Box::new(
                    Expr::Mul(
                        Box::new(
                            Expr::Mul(
                                Box::new(Expr::Half(q6k_d(q6, base))),
                                Box::new(Expr::Int(q6k_scale(q6, base, column) as i32)),
                            ),
                        ),
                        Box::new(Expr::Int(q6k_quant(q6, base, column) as i32)),
                    ),
                ),
                Box::new(a.d),
            ),
        ),
        Box::new(Expr::Int(a.quant as i32)),
    )
}

/// The column of a row that lane `lane` of the `t`-th step covers. A block takes 64 steps of four
/// lanes: one for each half byte of each four bytes of low nibbles.
pub open spec fn q6k_step_column(t: int, lane: int) -> int {
    256 * (t / 64) + q6k_column((t % 64) / 2, t % 2, lane)
}

/// The product of a column of a row.
pub open spec fn q6k_row_lane(
    q6: Seq<u8>,
    q8: Seq<u8>,
    blocks: int,
    row: int,
    at: ActivationRowView,
    column: int,
) -> Expr {
    q6k_lane(
        q6,
        (row * blocks + column / 256) * 210,
        column % 256,
        at.activation(q8, column),
    )
}

/// What is accumulated for a row of weights and a row of activations.
pub open spec fn q6k_steps(
    q6: Seq<u8>,
    q8: Seq<u8>,
    blocks: int,
    row: int,
    at: ActivationRowView,
) -> Seq<StepView> {
    Seq::new(
        (blocks * 64) as nat,
        |t: int|
            StepView::AddLanes(
                Seq::new(
                    4,
                    |lane: int| q6k_row_lane(q6, q8, blocks, row, at, q6k_step_column(t, lane)),
                ),
            ),
    )
}

/// Whether a row of weights can be read.
pub open spec fn q6k_row_reachable(len: int, blocks: int, row: int) -> bool {
    reachable((row + 1) * blocks * 210, len)
}

/// Reads the activation of a column.
fn read_activation(q8: &[u8], blocks: usize, at: &ActivationRow, column: usize) -> (r: Activation)
    requires
        column < blocks * 256,
        at@.row_reachable(q8.len() as int, blocks as int),
    ensures
        r == at@.activation(q8@, column as int),
{
    match *at {
        ActivationRow::Blocks { row_base } => {
            let base: usize = row_base + (column / 32) * 36;
            Activation {
                d: Expr::Half(read_half(q8, base / 2)),
                quant: read_signed(q8, base + 4 + column % 32),
            }
        },
        ActivationRow::Interleaved { b_size, batch } => {
            proof {
                lemma_mmq_block(column as int / 128, 2 * blocks - 1, b_size as int);
            }
            let base: usize = ((column / 128) * b_size + batch) * 144;
            let slot: usize = (column / 32) % 4;
            Activation {
                d: Expr::Single(read_single(q8, (base + slot * 4) / 4)),
                quant: read_signed(q8, base + 16 + slot * 32 + column % 32),
            }
        },
    }
}

/// The lanes of a step cover four columns of one block in a row.
pub proof fn lemma_step_column(t: int, lane: int)
    requires
        0 <= t,
        0 <= lane < 4,
    ensures
        q6k_step_column(t, lane) == q6k_step_column(t, 0) + lane,
        q6k_step_column(t, lane) / 256 == t / 64,
        q6k_step_column(t, lane) % 256 == q6k_column((t % 64) / 2, t % 2, lane),
        q6k_step_column(t, lane) < 256 * (t / 64) + 256,
{
    let iqs = (t % 64) / 2;
    let part = t % 2;
    let c = q6k_column(iqs, part, lane);
    assert(0 <= iqs < 32 && 0 <= part < 2);
    assert(0 <= 128 * (iqs / 16) <= 128);
    assert(0 <= (iqs % 16) / 8 <= 1);
    assert(0 <= c < 256);
    assert((256 * (t / 64) + c) / 256 == t / 64 && (256 * (t / 64) + c) % 256 == c);
}

/// Builds the `t`-th step of [`q6k_steps`].
fn build_step(q6: &[u8], q8: &[u8], blocks: usize, row: usize, at: &ActivationRow, t: usize) -> (r:
    Step)
    requires
        t < blocks * 64,
        q6k_row_reachable(q6.len() as int, blocks as int, row as int),
        at@.row_reachable(q8.len() as int, blocks as int),
    ensures
        r@ == q6k_steps(q6@, q8@, blocks as int, row as int, at@)[t as int],
{
    let block: usize = t / 64;
    let iqs: usize = (t % 64) / 2;
    let part: usize = t % 2;
    proof {
        lemma_block_in_rows(row as int, row + 1, blocks as int, block as int, 210);
        lemma_row_reachable(q6.len() as int, blocks as int, 0, row as int, 210);
        lemma_step_column(t as int, 3);
    }
    let base: usize = (row * blocks + block) * 210;
    let d: u16 = read_q6k_d(q6, base);
    let scale: i8 = read_q6k_scale(q6, base, iqs, part);
    let first: usize = 256 * block + 128 * (iqs / 16) + 32 * ((iqs % 16) / 8 + 2 * part) + 4 * (iqs
        % 8);
    let mut lanes: Vec<Expr> = Vec::new();
    let mut lane: usize = 0;
    while lane < 4
        invariant
            lane <= 4,
            t < blocks * 64,
            block == t / 64,
            iqs == (t % 64) / 2,
            part == t % 2,
            base == (row * blocks + block) * 210,
            base + 210 <= q6.len(),
            d == q6k_d(q6@, base as int),
            forall|l: int|
                0 <= l < 4 ==> scale == #[trigger] q6k_scale(
                    q6@,
                    base as int,
                    q6k_column(iqs as int, part as int, l),
                ),
            first == q6k_step_column(t as int, 0),
            first + 4 <= blocks * 256 <= u32::MAX,
            at@.row_reachable(q8.len() as int, blocks as int),
            lanes@.len() == lane,
            forall|l: int|
                0 <= l < lane ==> lanes@[l] == q6k_row_lane(
                    q6@,
                    q8@,
                    blocks as int,
                    row as int,
                    at@,
                    q6k_step_column(t as int, l),
                ),
        decreases 4 - lane,
    {
        let quant: i32 = read_q6k_quant(q6, base, iqs, part, lane);
        let a = read_activation(q8, blocks, at, first + lane);
        proof {
            lemma_step_column(t as int, lane as int);
        }
        let weight = product(
            product(Expr::Half(d), Expr::Int(scale as i32)),
            Expr::Int(quant),
        );
        lanes.push(product(product(weight, a.d), Expr::Int(a.quant as i32)));
        lane = lane + 1;
    }
    let r = Step::AddLanes(lanes);
    assert(r@ =~= q6k_steps(q6@, q8@, blocks as int, row as int, at@)[t as int]);
    r
}

/// Builds [`q6k_steps`].
fn build_steps(q6: &[u8], q8: &[u8], blocks: usize, row: usize, at: &ActivationRow) -> (r:
    Vec<Step>)
    requires
        q6k_row_reachable(q6.len() as int, blocks as int, row as int),
        at@.row_reachable(q8.len() as int, blocks as int),
    ensures
        views(r@) == q6k_steps(q6@, q8@, blocks as int, row as int, at@),
{
    let ghost steps = q6k_steps(q6@, q8@, blocks as int, row as int, at@);
    let mut r: Vec<Step> = Vec::new();
    let mut t: usize = 0;
    proof {
        lemma_row_reachable(q6.len() as int, blocks as int, 0, row as int, 210);
    }
    while t < blocks * 64
        invariant
            t <= blocks * 64 <= i32::MAX,
            steps == q6k_steps(q6@, q8@, blocks as int, row as int, at@),
            q6k_row_reachable(q6.len() as int, blocks as int, row as int),
            at@.row_reachable(q8.len() as int, blocks as int),
            r@.len() == t,
            forall|j: int| 0 <= j < t ==> r@[j]@ == steps[j],
        decreases blocks * 64 - t,
    {
        r.push(build_step(q6, q8, blocks, row, at, t));
        t = t + 1;
    }
    assert(views(r@) =~= steps);
    r
}

/// What a kernel stores for a row of weights and a row of activations.
pub open spec fn q6k_output(
    q6: Seq<u8>,
    q8: Seq<u8>,
    ncols: int,
    row: int,
    at: ActivationRowView,
    index: int,
) -> OutputView {
    OutputView { index, steps: q6k_steps(q6, q8, blocks_in(ncols), row, at) }
}

/// What a decode kernel stores for a row.
pub open spec fn q6k_matvec_output(q6: Seq<u8>, q8: Seq<u8>, ncols: int, row: int) -> OutputView {
    q6k_output(q6, q8, ncols, row, ActivationRowView::Blocks { row_base: 0 }, row)
}

/// What the decode kernel for `count` rows stores: nothing unless all of them exist.
pub open spec fn q6k_matvec_rows_outputs(
    q6: Seq<u8>,
    q8: Seq<u8>,
    ncols: int,
    nrows: int,
    count: int,
    pid: (i32, i32),
) -> Seq<OutputView> {
    if count * pid.0 + count - 1 >= nrows {
        seq![]
    } else {
        Seq::new(count as nat, |k: int| q6k_matvec_output(q6, q8, ncols, count * pid.0 + k))
    }
}

/// What a program of the decode kernel for `count` rows needs to be able to read.
pub open spec fn q6k_matvec_rows_reachable(
    q6_len: int,
    q8_len: int,
    ncols: int,
    nrows: int,
    count: int,
    pid: (i32, i32),
) -> bool {
    let last = count * pid.0 + count - 1;
    &&& 0 <= pid.0
    &&& last <= i32::MAX
    &&& last < nrows ==> q6k_row_reachable(q6_len, blocks_in(ncols), last) && q8_row_reachable(
        q8_len,
        blocks_in(ncols),
        0,
    )
}

/// The outputs of `count` rows from `row_base` on.
fn build_rows(q6: &[u8], q8: &[u8], ncols: i32, row_base: i32, count: i32) -> (r: Vec<Output>)
    requires
        0 <= row_base,
        0 < count,
        row_base + count - 1 <= i32::MAX,
        q6k_row_reachable(q6.len() as int, blocks_in(ncols as int), row_base + count - 1),
        q8_row_reachable(q8.len() as int, blocks_in(ncols as int), 0),
    ensures
        views(r@) == Seq::new(
            count as nat,
            |k: int| q6k_matvec_output(q6@, q8@, ncols as int, row_base + k),
        ),
{
    let blocks: usize = count_blocks(ncols);
    let at = ActivationRow::Blocks { row_base: 0 };
    let mut r: Vec<Output> = Vec::new();
    let mut k: i32 = 0;
    while k < count
        invariant
            0 <= k <= count,
            0 <= row_base,
            row_base + count - 1 <= i32::MAX,
            blocks == blocks_in(ncols as int),
            at@ == (ActivationRowView::Blocks { row_base: 0 }),
            q6k_row_reachable(q6.len() as int, blocks as int, row_base + count - 1),
            q8_row_reachable(q8.len() as int, blocks as int, 0),
            r@.len() == k,
            forall|j: int|
                0 <= j < k ==> (#[trigger] r@[j])@ == q6k_matvec_output(
                    q6@,
                    q8@,
                    ncols as int,
                    row_base + j,
                ),
        decreases count - k,
    {
        let row: i32 = row_base + k;
        proof {
            lemma_row_reachable(
                q6.len() as int,
                blocks as int,
                row as int,
                row_base + count - 1,
                210,
            );
        }
        let steps = build_steps(q6, q8, blocks, row as usize, &at);
        r.push(Output { index: row, steps });
        k = k + 1;
    }
    assert(views(r@) =~= Seq::new(
        count as nat,
        |k: int| q6k_matvec_output(q6@, q8@, ncols as int, row_base + k),
    ));
    r
}

/// The decode kernel: one program per row of weights.
pub fn q6k_q8_1_matvec_b1_f32(
    q6: &[u8],
    q8: &[u8],
    ncols: i32,
    nrows: i32,
    pid: (i32, i32),
) -> (r: Vec<Output>)
    requires
        q6k_matvec_rows_reachable(
            q6.len() as int,
            q8.len() as int,
            ncols as int,
            nrows as int,
            1,
            pid,
        ),
    ensures
        views(r@) == q6k_matvec_rows_outputs(q6@, q8@, ncols as int, nrows as int, 1, pid),
{
    let row: i32 = pid.0;
    if row >= nrows {
        return Vec::new();
    }
    build_rows(q6, q8, ncols, row, 1)
}

/// The decode kernel for four rows of weights per program.
pub fn q6k_q8_1_matvec_b1_rows4_f32(
    q6: &[u8],
    q8: &[u8],
    ncols: i32,
    nrows: i32,
    pid: (i32, i32),
) -> (r: Vec<Output>)
    requires
        q6k_matvec_rows_reachable(
            q6.len() as int,
            q8.len() as int,
            ncols as int,
            nrows as int,
            4,
            pid,
        ),
    ensures
        views(r@) == q6k_matvec_rows_outputs(q6@, q8@, ncols as int, nrows as int, 4, pid),
{
    let row_base: i32 = pid.0 * 4;
    if row_base + 3 >= nrows {
        return Vec::new();
    }
    build_rows(q6, q8, ncols, row_base, 4)
}

/// The decode kernel for eight rows of weights per program.
pub fn q6k_q8_1_matvec_b1_rows8_f32(
    q6: &[u8],
    q8: &[u8],
    ncols: i32,
    nrows: i32,
    pid: (i32, i32),
) -> (r: Vec<Output>)
    requires
        q6k_matvec_rows_reachable(
            q6.len() as int,
            q8.len() as int,
            ncols as int,
            nrows as int,
            8,
            pid,
        ),
    ensures
        views(r@) == q6k_matvec_rows_outputs(q6@, q8@, ncols as int, nrows as int, 8, pid),
{
    let row_base: i32 = pid.0 * 8;
    if row_base + 7 >= nrows {
        return Vec::new();
    }
    build_rows(q6, q8, ncols, row_base, 8)
}

/// What a batched kernel stores for a row of weights and a row of activations.
pub open spec fn q6k_batched_outputs(
    q6: Seq<u8>,
    q8: Seq<u8>,
    ncols: int,
    nrows: int,
    b_size: int,
    at: ActivationRowView,
    pid: (i32, i32),
) -> Seq<OutputView> {
    if pid.0 >= nrows || pid.1 >= b_size {
        seq![]
    } else {
        seq![q6k_output(q6, q8, ncols, pid.0 as int, at, pid.1 * nrows + pid.0)]
    }
}

/// What a program of a batched kernel needs to be able to read.
pub open spec fn q6k_batched_reachable(
    q6_len: int,
    q8_len: int,
    ncols: int,
    nrows: int,
    b_size: int,
    at: ActivationRowView,
    pid: (i32, i32),
) -> bool {
    &&& 0 <= pid.0
    &&& 0 <= pid.1
    &&& pid.0 < nrows && pid.1 < b_size ==> {
        &&& pid.1 * nrows + pid.0 <= i32::MAX
        &&& q6k_row_reachable(q6_len, blocks_in(ncols), pid.0 as int)
        &&& at.row_reachable(q8_len, blocks_in(ncols))
    }
}

/// The row of activations of a program, where rows lie a stride apart.
pub open spec fn strided_row(q8_row_stride_bytes: int, pid: (i32, i32)) -> ActivationRowView {
    ActivationRowView::Blocks { row_base: pid.1 * q8_row_stride_bytes }
}

/// The row of activations of a program in the layout for matrix products.
pub open spec fn interleaved_row(b_size: int, pid: (i32, i32)) -> ActivationRowView {
    ActivationRowView::Interleaved { b_size, batch: pid.1 as int }
}

/// The output of a program of a batched kernel.
fn build_batched(
    q6: &[u8],
    q8: &[u8],
    ncols: i32,
    nrows: i32,
    at: &ActivationRow,
    pid: (i32, i32),
) -> (r: Vec<Output>)
    requires
        0 <= pid.0 < nrows,
        0 <= pid.1,
        pid.1 * nrows + pid.0 <= i32::MAX,
        q6k_row_reachable(q6.len() as int, blocks_in(ncols as int), pid.0 as int),
        at@.row_reachable(q8.len() as int, blocks_in(ncols as int)),
    ensures
        views(r@) == seq![
            q6k_output(q6@, q8@, ncols as int, pid.0 as int, at@, pid.1 * nrows + pid.0),
        ],
{
    proof {
        lemma_product_nonnegative(pid.1 as int, nrows as int);
    }
    let steps = build_steps(q6, q8, count_blocks(ncols), pid.0 as usize, at);
    let mut r: Vec<Output> = Vec::new();
    r.push(Output { index: pid.1 * nrows + pid.0, steps });
    assert(views(r@) =~= seq![
        q6k_output(q6@, q8@, ncols as int, pid.0 as int, at@, pid.1 * nrows + pid.0),
    ]);
    r
}

/// The batched kernel: one program per row of weights and row of activations.
pub fn q6k_q8_1_matmul_batched_f32(
    q6: &[u8],
    q8: &[u8],
    ncols: i32,
    nrows: i32,
    b_size: i32,
    q8_row_stride_bytes: i32,
    pid: (i32, i32),
) -> (r: Vec<Output>)
    requires
        q6k_batched_reachable(
            q6.len() as int,
            q8.len() as int,
            ncols as int,
            nrows as int,
            b_size as int,
            strided_row(q8_row_stride_bytes as int, pid),
            pid,
        ),
    ensures
        views(r@) == q6k_batched_outputs(
            q6@,
            q8@,
            ncols as int,
            nrows as int,
            b_size as int,
            strided_row(q8_row_stride_bytes as int, pid),
            pid,
        ),
{
    if pid.0 >= nrows || pid.1 >= b_size {
        return Vec::new();
    }
    let at = ActivationRow::Blocks { row_base: (pid.1 * q8_row_stride_bytes) as usize };
    build_batched(q6, q8, ncols, nrows, &at, pid)
}

/// The batched matrix product kernel: one program per row of weights and row of activations. The
/// layout fixes where a row of activations lies, so the stride is not used.
pub fn q6k_q8_1_mmq_matmul_batched_f32(
    q6: &[u8],
    q8: &[u8],
    ncols: i32,
    nrows: i32,
    b_size: i32,
    _q8_row_stride_bytes: i32,
    pid: (i32, i32),
) -> (r: Vec<Output>)
    requires
        q6k_batched_reachable(
            q6.len() as int,
            q8.len() as int,
            ncols as int,
            nrows as int,
            b_size as int,
            interleaved_row(b_size as int, pid),
            pid,
        ),
    ensures
        views(r@) == q6k_batched_outputs(
            q6@,
            q8@,
            ncols as int,
            nrows as int,
            b_size as int,
            interleaved_row(b_size as int, pid),
            pid,
        ),
{
    if pid.0 >= nrows || pid.1 >= b_size {
        return Vec::new();
    }
    let at = ActivationRow::Interleaved { b_size: b_size as usize, batch: pid.1 as usize };
    build_batched(q6, q8, ncols, nrows, &at, pid)
}

/// Taking several rows per program changes nothing about a row.
pub proof fn law_rows_equal_b1(
    q6: Seq<u8>,
    q8: Seq<u8>,
    ncols: int,
    nrows: int,
    count: int,
    pid: (i32, i32),
    k: int,
)
    requires
        0 <= pid.0,
        count == 4 || count == 8,
        count * pid.0 + count - 1 < nrows <= i32::MAX,
        0 <= k < count,
    ensures
        q6k_matvec_rows_outputs(q6, q8, ncols, nrows, count, pid)[k] == q6k_matvec_rows_outputs(
            q6,
            q8,
            ncols,
            nrows,
            1,
            ((count * pid.0 + k) as i32, 0),
        )[0],
{
}

} // verus!
