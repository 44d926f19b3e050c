//! The kernels that multiply Q4_K weights with Q8_1 activations.
//!
//! Each function is one tile program: given its place in the grid and the memory it reads, it
//! returns the outputs it stores.
use vstd::prelude::*;

use crate::blocks::{
    read_q4k_group, read_q4k_quant, read_q8_group, read_q8_mmq_group, read_signed, Q4Group,
    Q8Group,
};
use crate::expr::{difference, product, Expr, Output, Step};
use crate::rows::count_blocks;
use crate::tile::{mmai, zero_tile};

verus! {

use crate::blocks::{q4k_group, q8_group, q8_mmq_group, Q4GroupView, Q8GroupView};
use crate::expr::{lemma_sum_equal, sum, views, OutputView, StepView};
use crate::rows::{
    blocks_in, lemma_block_in_rows, lemma_blocks_bound, lemma_mmq_block,
    lemma_product_nonnegative, lemma_row_reachable, q8_batch_reachable, q8_row_reachable,
    reachable,
};
use crate::tile::mmai_term;

/// The `i`-th group of 32 columns of a row of weights.
pub open spec fn q4k_row_group(q4: Seq<u8>, blocks: int, row: int, i: int) -> Q4GroupView {
    q4k_group(q4, (row * blocks + i / 8) * 144, i % 8)
}

/// The `i`-th group of 32 columns of a row of activations that starts at a byte offset.
pub open spec fn q8_row_group(q8: Seq<u8>, row_base: int, i: int) -> Q8GroupView {
    q8_group(q8, row_base + i * 36)
}

/// The `i`-th group of 32 columns of a row of activations in the layout for matrix products,
/// where the blocks of all rows for the same columns lie together.
pub open spec fn q8_batch_group(q8: Seq<u8>, b_size: int, batch: int, i: int) -> Q8GroupView {
    q8_mmq_group(q8, ((i / 4) * b_size + batch) * 144, i % 4)
}

/// The term of a lane in [`dot`].
pub open spec fn dot_term(w: Seq<u8>, a: Seq<i8>) -> spec_fn(int) -> int {
    |lane: int| w[lane] * a[lane]
}

/// The integer dot product of 32 lanes.
pub open spec fn dot(w: Seq<u8>, a: Seq<i8>) -> int {
    sum(dot_term(w, a), 32)
}

/// The product of a dequantized weight and a dequantized activation.
pub open spec fn decode_lane(w: Q4GroupView, a: Q8GroupView, lane: int) -> Expr {
    Expr::Mul(
        Box::new(
            Expr::Sub(
                Box::new(
                    Expr::Mul(
                        Box::new(
                            Expr::Mul(
                                Box::new(Expr::Half(w.d)),
                                Box::new(Expr::Int(w.scale as i32)),
                            ),
                        ),
                        Box::new(Expr::Int(w.quants[lane] as i32)),
                    ),
                ),
                Box::new(
                    Expr::Mul(Box::new(Expr::Half(w.dmin)), Box::new(Expr::Int(w.min as i32))),
                ),
            ),
        ),
        Box::new(
            Expr::Mul(Box::new(Expr::Half(a.d)), Box::new(Expr::Int(a.quants[lane] as i32))),
        ),
    )
}

/// Adds the products of 32 dequantized weights and activations.
pub open spec fn decode_step(w: Q4GroupView, a: Q8GroupView) -> StepView {
    StepView::AddLanes(Seq::new(32, |lane: int| decode_lane(w, a, lane)))
}

/// Adds the scaled integer dot product, and subtracts the min times the stored sum of the
/// activations.
pub open spec fn factored_step(w: Q4GroupView, a: Q8GroupView) -> StepView {
    StepView::AddSub(
        Expr::Mul(
            Box::new(
                Expr::Mul(
                    Box::new(
                        Expr::Mul(
                            Box::new(Expr::Half(w.d)),
                            Box::new(Expr::Int(w.scale as i32)),
                        ),
                    ),
                    Box::new(Expr::Half(a.d)),
                ),
            ),
            Box::new(Expr::Int(dot(w.quants, a.quants) as i32)),
        ),
        Expr::Mul(
            Box::new(
                Expr::Mul(Box::new(Expr::Half(w.dmin)), Box::new(Expr::Int(w.min as i32))),
            ),
            Box::new(Expr::Half(a.sum)),
        ),
    )
}

/// What is accumulated for a row of weights and a row of activations, dequantized lane by lane.
pub open spec fn q4k_decode_steps(
    q4: Seq<u8>,
    q8: Seq<u8>,
    blocks: int,
    row: int,
    row_base: int,
) -> Seq<StepView> {
    Seq::new(
        (blocks * 8) as nat,
        |i: int| decode_step(q4k_row_group(q4, blocks, row, i), q8_row_group(q8, row_base, i)),
    )
}

/// What is accumulated for a row of weights and a row of activations with the stored sums.
pub open spec fn q4k_factored_steps(
    q4: Seq<u8>,
    q8: Seq<u8>,
    blocks: int,
    row: int,
    row_base: int,
) -> Seq<StepView> {
    Seq::new(
        (blocks * 8) as nat,
        |i: int| factored_step(q4k_row_group(q4, blocks, row, i), q8_row_group(q8, row_base, i)),
    )
}

/// What is accumulated with the stored sums in the layout for matrix products.
pub open spec fn q4k_mmq_steps(
    q4: Seq<u8>,
    q8: Seq<u8>,
    blocks: int,
    row: int,
    b_size: int,
    batch: int,
) -> Seq<StepView> {
    Seq::new(
        (blocks * 8) as nat,
        |i: int|
            factored_step(
                q4k_row_group(q4, blocks, row, i),
                q8_batch_group(q8, b_size, batch, i),
            ),
    )
}

/// Bounds of a partial dot product of nibbles and signed bytes.
pub proof fn lemma_dot_bounds(w: Seq<u8>, a: Seq<i8>, n: int)
    requires
        0 <= n <= 32,
        forall|l: int| 0 <= l < n ==> #[trigger] w[l] < 16,
    ensures
        -1920 * n <= sum(dot_term(w, a), n) <= 1905 * n,
    decreases n,
{
    if n > 0 {
        lemma_dot_bounds(w, a, n - 1);
        let x = w[n - 1] as int;
        let y = a[n - 1] as int;
        assert(-1920 <= x * y <= 1905) by (nonlinear_arith)
            requires
                0 <= x <= 15,
                -128 <= y <= 127,
        ;
    }
}

/// Computes [`dot`].
fn compute_dot(w: &Vec<u8>, a: &Vec<i8>) -> (r: i32)
    requires
        w@.len() == 32,
        a@.len() == 32,
        forall|l: int| 0 <= l < 32 ==> w@[l] < 16,
    ensures
        r == dot(w@, a@),
{
    let mut acc: i32 = 0;
    let mut lane: usize = 0;
    while lane < 32
        invariant
            lane <= 32,
            w@.len() == 32,
            a@.len() == 32,
            forall|l: int| 0 <= l < 32 ==> w@[l] < 16,
            acc == sum(dot_term(w@, a@), lane as int),
        decreases 32 - lane,
    {
        proof {
            lemma_dot_bounds(w@, a@, lane as int);
            lemma_dot_bounds(w@, a@, lane as int + 1);
            let x = w@[lane as int] as int;
            let y = a@[lane as int] as int;
            assert(-1920 <= x * y <= 1905) by (nonlinear_arith)
                requires
                    0 <= x <= 15,
                    -128 <= y <= 127,
            ;
        }
        acc = acc + w[lane] as i32 * a[lane] as i32;
        lane = lane + 1;
    }
    acc
}

/// Builds [`decode_step`].
fn build_decode_step(w: &Q4Group, a: &Q8Group) -> (r: Step)
    requires
        w.quants@.len() == 32,
        a.quants@.len() == 32,
    ensures
        r@ == decode_step(w@, a@),
{
    let mut lanes: Vec<Expr> = Vec::new();
    let mut lane: usize = 0;
    while lane < 32
        invariant
            lane <= 32,
            w.quants@.len() == 32,
            a.quants@.len() == 32,
            lanes@.len() == lane,
            forall|l: int| 0 <= l < lane ==> lanes@[l] == decode_lane(w@, a@, l),
        decreases 32 - lane,
    {
        let scaled = product(
            product(Expr::Half(w.d), Expr::Int(w.scale as i32)),
            Expr::Int(w.quants[lane] as i32),
        );
        let min = product(Expr::Half(w.dmin), Expr::Int(w.min as i32));
        let activation = product(Expr::Half(a.d), Expr::Int(a.quants[lane] as i32));
        lanes.push(product(difference(scaled, min), activation));
        lane = lane + 1;
    }
    assert(lanes@ =~= Seq::new(32, |l: int| decode_lane(w@, a@, l)));
    Step::AddLanes(lanes)
}

/// Builds [`factored_step`] around a dot product.
fn build_factored_step(w: &Q4Group, a: &Q8Group, dot_product: i32) -> (r: Step)
    requires
        dot_product == dot(w.quants@, a.quants@),
    ensures
        r@ == factored_step(w@, a@),
{
    let add = product(
        product(product(Expr::Half(w.d), Expr::Int(w.scale as i32)), Expr::Half(a.d)),
        Expr::Int(dot_product),
    );
    let sub = product(product(Expr::Half(w.dmin), Expr::Int(w.min as i32)), Expr::Half(a.sum));
    Step::AddSub(add, sub)
}

/// Whether a row of weights can be read.
pub open spec fn q4k_row_reachable(len: int, blocks: int, row: int) -> bool {
    reachable((row + 1) * blocks * 144, len)
}

/// Reads [`q4k_row_group`].
fn read_row_group(q4: &[u8], blocks: usize, row: usize, i: usize) -> (r: Q4Group)
    requires
        i < blocks * 8,
        q4k_row_reachable(q4.len() as int, blocks as int, row as int),
    ensures
        r@ == q4k_row_group(q4@, blocks as int, row as int, i as int),
        r.quants@.len() == 32,
        r.scale < 64,
        r.min < 64,
        forall|l: int| 0 <= l < 32 ==> r.quants@[l] < 16,
{
    proof {
        lemma_block_in_rows(row as int, row + 1, blocks as int, i as int / 8, 144);
    }
    read_q4k_group(q4, (row * blocks + i / 8) * 144, i % 8)
}

/// Reads [`q8_row_group`].
fn read_q8_row_group(q8: &[u8], blocks: usize, row_base: usize, i: usize) -> (r: Q8Group)
    requires
        i < blocks * 8,
        q8_row_reachable(q8.len() as int, blocks as int, row_base as int),
    ensures
        r@ == q8_row_group(q8@, row_base as int, i as int),
        r.quants@.len() == 32,
{
    read_q8_group(q8, row_base + i * 36)
}

/// Reads [`q8_batch_group`].
fn read_q8_batch_group(q8: &[u8], blocks: usize, b_size: usize, batch: usize, i: usize) -> (r:
    Q8Group)
    requires
        i < blocks * 8,
        q8_batch_reachable(q8.len() as int, blocks as int, b_size as int, batch as int),
    ensures
        r@ == q8_batch_group(q8@, b_size as int, batch as int, i as int),
        r.quants@.len() == 32,
{
    proof {
        lemma_mmq_block(i as int / 4, 2 * blocks - 1, b_size as int);
    }
    read_q8_mmq_group(q8, ((i / 4) * b_size + batch) * 144, i % 4)
}

/// Builds [`q4k_decode_steps`].
fn build_decode_steps(q4: &[u8], q8: &[u8], blocks: usize, row: usize, row_base: usize) -> (r:
    Vec<Step>)
    requires
        q4k_row_reachable(q4.len() as int, blocks as int, row as int),
        q8_row_reachable(q8.len() as int, blocks as int, row_base as int),
    ensures
        views(r@) == q4k_decode_steps(q4@, q8@, blocks as int, row as int, row_base as int),
{
    let ghost steps = q4k_decode_steps(q4@, q8@, blocks as int, row as int, row_base as int);
    let mut r: Vec<Step> = Vec::new();
    let mut i: usize = 0;
    while i < blocks * 8
        invariant
            i <= blocks * 8 <= i32::MAX,
            steps == q4k_decode_steps(q4@, q8@, blocks as int, row as int, row_base as int),
            q4k_row_reachable(q4.len() as int, blocks as int, row as int),
            q8_row_reachable(q8.len() as int, blocks as int, row_base as int),
            r@.len() == i,
            forall|j: int| 0 <= j < i ==> r@[j]@ == steps[j],
        decreases blocks * 8 - i,
    {
        let w = read_row_group(q4, blocks, row, i);
        let a = read_q8_row_group(q8, blocks, row_base, i);
        r.push(build_decode_step(&w, &a));
        i = i + 1;
    }
    assert(views(r@) =~= steps);
    r
}

/// Builds [`q4k_factored_steps`].
fn build_factored_steps(q4: &[u8], q8: &[u8], blocks: usize, row: usize, row_base: usize) -> (r:
    Vec<Step>)
    requires
        q4k_row_reachable(q4.len() as int, blocks as int, row as int),
        q8_row_reachable(q8.len() as int, blocks as int, row_base as int),
    ensures
        views(r@) == q4k_factored_steps(q4@, q8@, blocks as int, row as int, row_base as int),
{
    let ghost steps = q4k_factored_steps(q4@, q8@, blocks as int, row as int, row_base as int);
    let mut r: Vec<Step> = Vec::new();
    let mut i: usize = 0;
    while i < blocks * 8
        invariant
            i <= blocks * 8 <= i32::MAX,
            steps == q4k_factored_steps(q4@, q8@, blocks as int, row as int, row_base as int),
            q4k_row_reachable(q4.len() as int, blocks as int, row as int),
            q8_row_reachable(q8.len() as int, blocks as int, row_base as int),
            r@.len() == i,
            forall|j: int| 0 <= j < i ==> r@[j]@ == steps[j],
        decreases blocks * 8 - i,
    {
        let w = read_row_group(q4, blocks, row, i);
        let a = read_q8_row_group(q8, blocks, row_base, i);
        let dot_product: i32 = compute_dot(&w.quants, &a.quants);
        r.push(build_factored_step(&w, &a, dot_product));
        i = i + 1;
    }
    assert(views(r@) =~= steps);
    r
}

/// Builds [`q4k_mmq_steps`].
fn build_mmq_steps(
    q4: &[u8],
    q8: &[u8],
    blocks: usize,
    row: usize,
    b_size: usize,
    batch: usize,
) -> (r: Vec<Step>)
    requires
        q4k_row_reachable(q4.len() as int, blocks as int, row as int),
        q8_batch_reachable(q8.len() as int, blocks as int, b_size as int, batch as int),
    ensures
        views(r@) == q4k_mmq_steps(
            q4@,
            q8@,
            blocks as int,
            row as int,
            b_size as int,
            batch as int,
        ),
{
    let ghost steps = q4k_mmq_steps(
        q4@,
        q8@,
        blocks as int,
        row as int,
        b_size as int,
        batch as int,
    );
    let mut r: Vec<Step> = Vec::new();
    let mut i: usize = 0;
    proof {
        lemma_blocks_bound(blocks as int, row as int);
    }
    while i < blocks * 8
        invariant
            i <= blocks * 8 <= i32::MAX,
            steps == q4k_mmq_steps(
                q4@,
                q8@,
                blocks as int,
                row as int,
                b_size as int,
                batch as int,
            ),
            q4k_row_reachable(q4.len() as int, blocks as int, row as int),
            q8_batch_reachable(q8.len() as int, blocks as int, b_size as int, batch as int),
            r@.len() == i,
            forall|j: int| 0 <= j < i ==> r@[j]@ == steps[j],
        decreases blocks * 8 - i,
    {
        let w = read_row_group(q4, blocks, row, i);
        let a = read_q8_batch_group(q8, blocks, b_size, batch, i);
        let dot_product: i32 = compute_dot(&w.quants, &a.quants);
        r.push(build_factored_step(&w, &a, dot_product));
        i = i + 1;
    }
    assert(views(r@) =~= steps);
    r
}

/// What the decode kernel stores for its row.
pub open spec fn q4k_matvec_b1_outputs(
    q4: Seq<u8>,
    q8: Seq<u8>,
    ncols: int,
    nrows: int,
    pid: (i32, i32),
) -> Seq<OutputView> {
    if pid.0 >= nrows {
        seq![]
    } else {
        seq![q4k_matvec_output(q4, q8, ncols, pid.0 as int)]
    }
}

/// What a decode kernel stores for a row.
pub open spec fn q4k_matvec_output(q4: Seq<u8>, q8: Seq<u8>, ncols: int, row: int) -> OutputView {
    OutputView { index: row, steps: q4k_decode_steps(q4, q8, blocks_in(ncols), row, 0) }
}

/// What a program of the decode kernel needs to be able to read.
pub open spec fn q4k_matvec_b1_reachable(
    q4_len: int,
    q8_len: int,
    ncols: int,
    nrows: int,
    pid: (i32, i32),
) -> bool {
    &&& 0 <= pid.0
    &&& pid.0 < nrows ==> q4k_row_reachable(q4_len, blocks_in(ncols), pid.0 as int)
        && q8_row_reachable(q8_len, blocks_in(ncols), 0)
}

/// The decode kernel: one program per row of weights.
pub fn q4k_q8_1_matvec_b1_f32(
    q4: &[u8],
    q8: &[u8],
    ncols: i32,
    nrows: i32,
    pid: (i32, i32),
) -> (r: Vec<Output>)
    requires
        q4k_matvec_b1_reachable(
            q4.len() as int,
            q8.len() as int,
            ncols as int,
            nrows as int,
            pid,
        ),
    ensures
        views(r@) == q4k_matvec_b1_outputs(q4@, q8@, ncols as int, nrows as int, pid),
{
    let row: i32 = pid.0;
    let mut r: Vec<Output> = Vec::new();
    if row < nrows {
        let steps = build_decode_steps(q4, q8, count_blocks(ncols), row as usize, 0);
        r.push(Output { index: row, steps });
    }
    assert(views(r@) =~= q4k_matvec_b1_outputs(q4@, q8@, ncols as int, nrows as int, pid));
    r
}

/// What the decode kernel for four rows stores: nothing unless all four rows exist.
pub open spec fn q4k_matvec_b1_rows4_outputs(
    q4: Seq<u8>,
    q8: Seq<u8>,
    ncols: int,
    nrows: int,
    pid: (i32, i32),
) -> Seq<OutputView> {
    if 4 * pid.0 + 3 >= nrows {
        seq![]
    } else {
        Seq::new(4, |k: int| q4k_matvec_output(q4, q8, ncols, 4 * pid.0 + k))
    }
}

/// What a program of the decode kernel for four rows needs to be able to read.
pub open spec fn q4k_matvec_b1_rows4_reachable(
    q4_len: int,
    q8_len: int,
    ncols: int,
    nrows: int,
    pid: (i32, i32),
) -> bool {
    &&& 0 <= pid.0
    &&& 4 * pid.0 + 3 <= i32::MAX
    &&& 4 * pid.0 + 3 < nrows ==> q4k_row_reachable(q4_len, blocks_in(ncols), 4 * pid.0 + 3)
        && q8_row_reachable(q8_len, blocks_in(ncols), 0)
}

/// The decode kernel for four rows of weights per program.
pub fn q4k_q8_1_matvec_b1_rows4_f32(
    q4: &[u8],
    q8: &[u8],
    ncols: i32,
    nrows: i32,
    pid: (i32, i32),
) -> (r: Vec<Output>)
    requires
        q4k_matvec_b1_rows4_reachable(
            q4.len() as int,
            q8.len() as int,
            ncols as int,
            nrows as int,
            pid,
        ),
    ensures
        views(r@) == q4k_matvec_b1_rows4_outputs(q4@, q8@, ncols as int, nrows as int, pid),
{
    let ghost outputs = q4k_matvec_b1_rows4_outputs(q4@, q8@, ncols as int, nrows as int, pid);
    let row_base: i32 = pid.0 * 4;
    let mut r: Vec<Output> = Vec::new();
    if row_base + 3 >= nrows {
        assert(views(r@) =~= outputs);
        return r;
    }
    let blocks: usize = count_blocks(ncols);
    let mut k: i32 = 0;
    while k < 4
        invariant
            0 <= k <= 4,
            0 <= row_base,
            row_base == 4 * pid.0,
            row_base + 3 < nrows,
            blocks == blocks_in(ncols as int),
            q4k_row_reachable(q4.len() as int, blocks as int, row_base + 3),
            q8_row_reachable(q8.len() as int, blocks as int, 0),
            outputs == q4k_matvec_b1_rows4_outputs(q4@, q8@, ncols as int, nrows as int, pid),
            r@.len() == k,
            forall|j: int| 0 <= j < k ==> r@[j]@ == outputs[j],
        decreases 4 - k,
    {
        proof {
            lemma_row_reachable(q4.len() as int, blocks as int, row_base + k, row_base + 3, 144);
        }
        let steps = build_decode_steps(q4, q8, blocks, (row_base + k) as usize, 0);
        r.push(Output { index: row_base + k, steps });
        k = k + 1;
    }
    assert(views(r@) =~= outputs);
    r
}

/// What the batched kernel stores for a row of weights and a row of activations. Up to eight
/// rows of activations are dequantized lane by lane; for more, the stored sums are used.
pub open spec fn q4k_matmul_batched_outputs(
    q4: Seq<u8>,
    q8: Seq<u8>,
    ncols: int,
    nrows: int,
    b_size: int,
    q8_row_stride_bytes: int,
    pid: (i32, i32),
) -> Seq<OutputView> {
    let (row, batch) = (pid.0 as int, pid.1 as int);
    if row >= nrows || batch >= b_size {
        seq![]
    } else {
        seq![
            OutputView {
                index: batch * nrows + row,
                steps: if b_size > 8 {
                    q4k_factored_steps(
                        q4,
                        q8,
                        blocks_in(ncols),
                        row,
                        batch * q8_row_stride_bytes,
                    )
                } else {
                    q4k_decode_steps(q4, q8, blocks_in(ncols), row, batch * q8_row_stride_bytes)
                },
            },
        ]
    }
}

/// What a program of the batched kernel needs to be able to read.
pub open spec fn q4k_matmul_batched_reachable(
    q4_len: int,
    q8_len: int,
    ncols: int,
    nrows: int,
    b_size: int,
    q8_row_stride_bytes: int,
    pid: (i32, i32),
) -> bool {
    let (row, batch) = (pid.0 as int, pid.1 as int);
    &&& 0 <= row
    &&& 0 <= batch
    &&& row < nrows && batch < b_size ==> {
        &&& batch * nrows + row <= i32::MAX
        &&& q4k_row_reachable(q4_len, blocks_in(ncols), row)
        &&& q8_row_reachable(q8_len, blocks_in(ncols), batch * q8_row_stride_bytes)
    }
}

/// The batched kernel: one program per row of weights and row of activations.
pub fn q4k_q8_1_matmul_batched_f32(
    q4: &[u8],
    q8: &[u8],
    ncols: i32,
    nrows: i32,
    b_size: i32,
    q8_row_stride_bytes: i32,
    pid: (i32, i32),
) -> (r: Vec<Output>)
    requires
        q4k_matmul_batched_reachable(
            q4.len() as int,
            q8.len() as int,
            ncols as int,
            nrows as int,
            b_size as int,
            q8_row_stride_bytes as int,
            pid,
        ),
    ensures
        views(r@) == q4k_matmul_batched_outputs(
            q4@,
            q8@,
            ncols as int,
            nrows as int,
            b_size as int,
            q8_row_stride_bytes as int,
            pid,
        ),
{
    let row: i32 = pid.0;
    let batch: i32 = pid.1;
    let mut r: Vec<Output> = Vec::new();
    if row < nrows && batch < b_size {
        let blocks: usize = count_blocks(ncols);
        proof {
            lemma_product_nonnegative(batch as int, nrows as int);
        }
        let row_base: usize = (batch * q8_row_stride_bytes) as usize;
        let steps = if b_size > 8 {
            build_factored_steps(q4, q8, blocks, row as usize, row_base)
        } else {
            build_decode_steps(q4, q8, blocks, row as usize, row_base)
        };
        r.push(Output { index: batch * nrows + row, steps });
    }
    assert(views(r@) =~= q4k_matmul_batched_outputs(
        q4@,
        q8@,
        ncols as int,
        nrows as int,
        b_size as int,
        q8_row_stride_bytes as int,
        pid,
    ));
    r
}

/// What a matrix product kernel stores for a row of weights and a row of activations.
pub open spec fn q4k_mmq_output(
    q4: Seq<u8>,
    q8: Seq<u8>,
    ncols: int,
    nrows: int,
    b_size: int,
    row: int,
    batch: int,
) -> OutputView {
    OutputView {
        index: row + batch * nrows,
        steps: q4k_mmq_steps(q4, q8, blocks_in(ncols), row, b_size, batch),
    }
}

/// What a matrix product kernel needs to be able to read, for rows up to and with `row` and
/// `batch`.
pub open spec fn q4k_mmq_reachable(
    q4_len: int,
    q8_len: int,
    ncols: int,
    nrows: int,
    b_size: int,
    row: int,
    batch: int,
) -> bool {
    &&& row <= i32::MAX
    &&& batch <= i32::MAX
    &&& 0 <= nrows
    &&& 0 <= b_size
    &&& row + batch * nrows <= i32::MAX
    &&& q4k_row_reachable(q4_len, blocks_in(ncols), row)
    &&& q8_batch_reachable(q8_len, blocks_in(ncols), b_size, batch)
}

/// What the batched matrix product kernel stores.
pub open spec fn q4k_mmq_matmul_batched_outputs(
    q4: Seq<u8>,
    q8: Seq<u8>,
    ncols: int,
    nrows: int,
    b_size: int,
    pid: (i32, i32),
) -> Seq<OutputView> {
    if pid.0 >= nrows || pid.1 >= b_size {
        seq![]
    } else {
        seq![q4k_mmq_output(q4, q8, ncols, nrows, b_size, pid.0 as int, pid.1 as int)]
    }
}

/// What a program of the batched matrix product kernel needs to be able to read.
pub open spec fn q4k_mmq_matmul_batched_reachable(
    q4_len: int,
    q8_len: int,
    ncols: int,
    nrows: int,
    b_size: int,
    pid: (i32, i32),
) -> bool {
    &&& 0 <= pid.0
    &&& 0 <= pid.1
    &&& pid.0 < nrows && pid.1 < b_size ==> q4k_mmq_reachable(
        q4_len,
        q8_len,
        ncols,
        nrows,
        b_size,
        pid.0 as int,
        pid.1 as int,
    )
}

/// The batched matrix product kernel: one program per row of weights and row of activations. The
/// layout fixes where a row of activations lies, so the stride is not used.
pub fn q4k_q8_1_mmq_matmul_batched_f32(
    q4: &[u8],
    q8: &[u8],
    ncols: i32,
    nrows: i32,
    b_size: i32,
    _q8_row_stride_bytes: i32,
    pid: (i32, i32),
) -> (r: Vec<Output>)
    requires
        q4k_mmq_matmul_batched_reachable(
            q4.len() as int,
            q8.len() as int,
            ncols as int,
            nrows as int,
            b_size as int,
            pid,
        ),
    ensures
        views(r@) == q4k_mmq_matmul_batched_outputs(
            q4@,
            q8@,
            ncols as int,
            nrows as int,
            b_size as int,
            pid,
        ),
{
    let row: i32 = pid.0;
    let batch: i32 = pid.1;
    let mut r: Vec<Output> = Vec::new();
    if row < nrows && batch < b_size {
        let blocks: usize = count_blocks(ncols);
        proof {
            lemma_product_nonnegative(batch as int, nrows as int);
        }
        let steps = build_mmq_steps(
            q4,
            q8,
            blocks,
            row as usize,
            b_size as usize,
            batch as usize,
        );
        r.push(Output { index: batch * nrows + row, steps });
    }
    assert(views(r@) =~= q4k_mmq_matmul_batched_outputs(
        q4@,
        q8@,
        ncols as int,
        nrows as int,
        b_size as int,
        pid,
    ));
    r
}

/// What the tiled kernel stores: four rows of weights by four rows of activations, the rows of
/// weights running fastest.
pub open spec fn q4k_mmq_matmul_tiled_outputs(
    q4: Seq<u8>,
    q8: Seq<u8>,
    ncols: int,
    nrows: int,
    b_size: int,
    batch_start: int,
    pid: (i32, i32),
) -> Seq<OutputView> {
    Seq::new(
        16,
        |o: int|
            q4k_mmq_output(
                q4,
                q8,
                ncols,
                nrows,
                b_size,
                4 * pid.0 + o % 4,
                batch_start + 4 * pid.1 + o / 4,
            ),
    )
}

/// What a program of the tiled kernel needs to be able to read.
pub open spec fn q4k_mmq_matmul_tiled_reachable(
    q4_len: int,
    q8_len: int,
    ncols: int,
    nrows: int,
    b_size: int,
    batch_start: int,
    pid: (i32, i32),
) -> bool {
    &&& 0 <= pid.0
    &&& 0 <= pid.1
    &&& 0 <= batch_start
    &&& q4k_mmq_reachable(
        q4_len,
        q8_len,
        ncols,
        nrows,
        b_size,
        4 * pid.0 + 3,
        batch_start + 4 * pid.1 + 3,
    )
}

/// What can be read up to a row can be read for all rows before it.
pub proof fn lemma_mmq_reachable(
    q4_len: int,
    q8_len: int,
    ncols: int,
    nrows: int,
    b_size: int,
    row: int,
    batch: int,
    last_row: int,
    last_batch: int,
)
    requires
        q4k_mmq_reachable(q4_len, q8_len, ncols, nrows, b_size, last_row, last_batch),
        0 <= row <= last_row,
        0 <= batch <= last_batch,
    ensures
        q4k_mmq_reachable(q4_len, q8_len, ncols, nrows, b_size, row, batch),
        0 <= batch * nrows,
{
    lemma_row_reachable(q4_len, blocks_in(ncols), row, last_row, 144);
    assert(0 <= batch * nrows <= last_batch * nrows) by (nonlinear_arith)
        requires
            0 <= batch <= last_batch,
            0 <= nrows,
    ;
}

/// The tiled matrix product kernel: one program per four rows of weights and four rows of
/// activations, without a check against the number of rows.
pub fn q4k_q8_1_mmq_matmul_tiled_f32(
    q4: &[u8],
    q8: &[u8],
    ncols: i32,
    nrows: i32,
    b_size: i32,
    batch_start: i32,
    pid: (i32, i32),
) -> (r: Vec<Output>)
    requires
        q4k_mmq_matmul_tiled_reachable(
            q4.len() as int,
            q8.len() as int,
            ncols as int,
            nrows as int,
            b_size as int,
            batch_start as int,
            pid,
        ),
    ensures
        views(r@) == q4k_mmq_matmul_tiled_outputs(
            q4@,
            q8@,
            ncols as int,
            nrows as int,
            b_size as int,
            batch_start as int,
            pid,
        ),
{
    let ghost outputs = q4k_mmq_matmul_tiled_outputs(
        q4@,
        q8@,
        ncols as int,
        nrows as int,
        b_size as int,
        batch_start as int,
        pid,
    );
    let blocks: usize = count_blocks(ncols);
    let mut r: Vec<Output> = Vec::new();
    let mut o: i32 = 0;
    while o < 16
        invariant
            0 <= o <= 16,
            blocks == blocks_in(ncols as int),
            q4k_mmq_matmul_tiled_reachable(
                q4.len() as int,
                q8.len() as int,
                ncols as int,
                nrows as int,
                b_size as int,
                batch_start as int,
                pid,
            ),
            outputs == q4k_mmq_matmul_tiled_outputs(
                q4@,
                q8@,
                ncols as int,
                nrows as int,
                b_size as int,
                batch_start as int,
                pid,
            ),
            r@.len() == o,
            forall|j: int| 0 <= j < o ==> r@[j]@ == outputs[j],
        decreases 16 - o,
    {
        let row: i32 = pid.0 * 4 + o % 4;
        let batch: i32 = batch_start + pid.1 * 4 + o / 4;
        proof {
            lemma_mmq_reachable(
                q4.len() as int,
                q8.len() as int,
                ncols as int,
                nrows as int,
                b_size as int,
                row as int,
                batch as int,
                4 * pid.0 + 3,
                batch_start + 4 * pid.1 + 3,
            );
        }
        let steps = build_mmq_steps(
            q4,
            q8,
            blocks,
            row as usize,
            b_size as usize,
            batch as usize,
        );
        r.push(Output { index: row + batch * nrows, steps });
        o = o + 1;
    }
    assert(views(r@) =~= outputs);
    r
}

/// What the matrix unit kernel stores: sixteen rows of weights by sixteen rows of activations,
/// the rows of weights running fastest. It stores nothing where its first row does not exist.
pub open spec fn q4k_mmq_matmul_mmai_outputs(
    q4: Seq<u8>,
    q8: Seq<u8>,
    ncols: int,
    nrows: int,
    b_size: int,
    batch_start: int,
    pid: (i32, i32),
) -> Seq<OutputView> {
    if 16 * pid.0 >= nrows || batch_start + 16 * pid.1 >= b_size {
        seq![]
    } else {
        Seq::new(
            256,
            |o: int|
                q4k_mmq_output(
                    q4,
                    q8,
                    ncols,
                    nrows,
                    b_size,
                    16 * pid.0 + o % 16,
                    batch_start + 16 * pid.1 + o / 16,
                ),
        )
    }
}

/// What a program of the matrix unit kernel needs to be able to read.
pub open spec fn q4k_mmq_matmul_mmai_reachable(
    q4_len: int,
    q8_len: int,
    ncols: int,
    nrows: int,
    b_size: int,
    batch_start: int,
    pid: (i32, i32),
) -> bool {
    &&& 0 <= pid.0
    &&& 0 <= pid.1
    &&& 0 <= batch_start
    &&& 16 * pid.0 <= i32::MAX
    &&& batch_start + 16 * pid.1 <= i32::MAX
    &&& 16 * pid.0 < nrows && batch_start + 16 * pid.1 < b_size ==> q4k_mmq_reachable(
        q4_len,
        q8_len,
        ncols,
        nrows,
        b_size,
        16 * pid.0 + 15,
        batch_start + 16 * pid.1 + 15,
    )
}

/// The weights of a group of sixteen rows, row by row.
fn gather_weights(q4: &[u8], blocks: usize, row_base: usize, i: usize) -> (r: Vec<u8>)
    requires
        i < blocks * 8,
        row_base + 15 <= i32::MAX,
        q4k_row_reachable(q4.len() as int, blocks as int, row_base + 15),
    ensures
        r@.len() == 512,
        forall|j: int|
            0 <= j < 512 ==> #[trigger] r@[j] == q4k_row_group(
                q4@,
                blocks as int,
                row_base + j / 32,
                i as int,
            ).quants[j % 32],
{
    let mut r: Vec<u8> = Vec::new();
    let mut j: usize = 0;
    while j < 512
        invariant
            j <= 512,
            i < blocks * 8,
            row_base + 15 <= i32::MAX,
            q4k_row_reachable(q4.len() as int, blocks as int, row_base + 15),
            r@.len() == j,
            forall|l: int|
                0 <= l < j ==> #[trigger] r@[l] == q4k_row_group(
                    q4@,
                    blocks as int,
                    row_base + l / 32,
                    i as int,
                ).quants[l % 32],
        decreases 512 - j,
    {
        let row: usize = row_base + j / 32;
        proof {
            lemma_row_reachable(q4.len() as int, blocks as int, row as int, row_base + 15, 144);
            lemma_block_in_rows(row as int, row + 1, blocks as int, i as int / 8, 144);
        }
        r.push(read_q4k_quant(q4, (row * blocks + i / 8) * 144, i % 8, j % 32));
        j = j + 1;
    }
    r
}

/// The activations of a group of sixteen rows, lane by lane.
fn gather_activations(q8: &[u8], blocks: usize, b_size: usize, batch_base: usize, i: usize) -> (r:
    Vec<i8>)
    requires
        i < blocks * 8,
        batch_base + 15 <= i32::MAX,
        q8_batch_reachable(q8.len() as int, blocks as int, b_size as int, batch_base + 15),
    ensures
        r@.len() == 512,
        forall|j: int|
            0 <= j < 512 ==> #[trigger] r@[j] == q8_batch_group(
                q8@,
                b_size as int,
                batch_base + j % 16,
                i as int,
            ).quants[j / 16],
{
    let mut r: Vec<i8> = Vec::new();
    let mut j: usize = 0;
    while j < 512
        invariant
            j <= 512,
            i < blocks * 8,
            batch_base + 15 <= i32::MAX,
            q8_batch_reachable(q8.len() as int, blocks as int, b_size as int, batch_base + 15),
            r@.len() == j,
            forall|l: int|
                0 <= l < j ==> #[trigger] r@[l] == q8_batch_group(
                    q8@,
                    b_size as int,
                    batch_base + l % 16,
                    i as int,
                ).quants[l / 16],
        decreases 512 - j,
    {
        let batch: usize = batch_base + j % 16;
        proof {
            lemma_mmq_block(i as int / 4, 2 * blocks - 1, b_size as int);
        }
        let base: usize = ((i / 4) * b_size + batch) * 144;
        r.push(read_signed(q8, base + 16 + (i % 4) * 32 + j / 16));
        j = j + 1;
    }
    r
}

/// The dot products of a group, for sixteen rows of weights by sixteen rows of activations.
fn tile_dots(
    q4: &[u8],
    q8: &[u8],
    blocks: usize,
    row_base: usize,
    b_size: usize,
    batch_base: usize,
    i: usize,
) -> (r: Vec<i32>)
    requires
        i < blocks * 8,
        row_base + 15 <= i32::MAX,
        batch_base + 15 <= i32::MAX,
        q4k_row_reachable(q4.len() as int, blocks as int, row_base + 15),
        q8_batch_reachable(q8.len() as int, blocks as int, b_size as int, batch_base + 15),
    ensures
        r@.len() == 256,
        forall|o: int|
            0 <= o < 256 ==> #[trigger] r@[o] == dot(
                q4k_row_group(q4@, blocks as int, row_base + o / 16, i as int).quants,
                q8_batch_group(q8@, b_size as int, batch_base + o % 16, i as int).quants,
            ),
{
    let weights = gather_weights(q4, blocks, row_base, i);
    let activations = gather_activations(q8, blocks, b_size, batch_base, i);
    let r = mmai(&weights, &activations, &zero_tile());
    proof {
        assert forall|o: int| 0 <= o < 256 implies #[trigger] r@[o] == dot(
            q4k_row_group(q4@, blocks as int, row_base + o / 16, i as int).quants,
            q8_batch_group(q8@, b_size as int, batch_base + o % 16, i as int).quants,
        ) by {
            let w = q4k_row_group(q4@, blocks as int, row_base + o / 16, i as int).quants;
            let a = q8_batch_group(q8@, b_size as int, batch_base + o % 16, i as int).quants;
            let f = mmai_term(weights@, activations@, o / 16, o % 16);
            assert forall|k: int| 0 <= k < 32 implies #[trigger] f(k) == dot_term(w, a)(k) by {
                let x = (o / 16) * 32 + k;
                let y = k * 16 + o % 16;
                assert(x / 32 == o / 16 && x % 32 == k);
                assert(y / 16 == k && y % 16 == o % 16);
                assert(weights@[x] == w[k]);
                assert(activations@[y] == a[k]);
            }
            lemma_sum_equal(f, dot_term(w, a), 32);
        }
    }
    r
}

/// Builds [`q4k_mmq_steps`] around the dot products of all groups.
fn build_mmai_steps(
    q4: &[u8],
    q8: &[u8],
    blocks: usize,
    row: usize,
    b_size: usize,
    batch: usize,
    dots: &Vec<Vec<i32>>,
    place: usize,
) -> (r: Vec<Step>)
    requires
        place < 256,
        q4k_row_reachable(q4.len() as int, blocks as int, row as int),
        q8_batch_reachable(q8.len() as int, blocks as int, b_size as int, batch as int),
        dots@.len() == blocks * 8,
        forall|i: int|
            0 <= i < blocks * 8 ==> (#[trigger] dots@[i])@.len() == 256
                && dots@[i]@[place as int] == dot(
                q4k_row_group(q4@, blocks as int, row as int, i).quants,
                q8_batch_group(q8@, b_size as int, batch as int, i).quants,
            ),
    ensures
        views(r@) == q4k_mmq_steps(
            q4@,
            q8@,
            blocks as int,
            row as int,
            b_size as int,
            batch as int,
        ),
{
    let ghost steps = q4k_mmq_steps(
        q4@,
        q8@,
        blocks as int,
        row as int,
        b_size as int,
        batch as int,
    );
    let mut r: Vec<Step> = Vec::new();
    let mut i: usize = 0;
    while i < dots.len()
        invariant
            i <= dots@.len(),
            place < 256,
            dots@.len() == blocks * 8,
            steps == q4k_mmq_steps(
                q4@,
                q8@,
                blocks as int,
                row as int,
                b_size as int,
                batch as int,
            ),
            q4k_row_reachable(q4.len() as int, blocks as int, row as int),
            q8_batch_reachable(q8.len() as int, blocks as int, b_size as int, batch as int),
            forall|i: int|
                0 <= i < blocks * 8 ==> (#[trigger] dots@[i])@.len() == 256
                    && dots@[i]@[place as int] == dot(
                    q4k_row_group(q4@, blocks as int, row as int, i).quants,
                    q8_batch_group(q8@, b_size as int, batch as int, i).quants,
                ),
            r@.len() == i,
            forall|j: int| 0 <= j < i ==> r@[j]@ == steps[j],
        decreases dots@.len() - i,
    {
        let w = read_row_group(q4, blocks, row, i);
        let a = read_q8_batch_group(q8, blocks, b_size, batch, i);
        let dot_product: i32 = dots[i][place];
        r.push(build_factored_step(&w, &a, dot_product));
        i = i + 1;
    }
    assert(views(r@) =~= steps);
    r
}

/// The matrix unit kernel: one program per sixteen rows of weights and sixteen rows of
/// activations. The dot products of a group come from one product of tiles.
pub fn q4k_q8_1_mmq_matmul_mmai_16x16_f32(
    q4: &[u8],
    q8: &[u8],
    ncols: i32,
    nrows: i32,
    b_size: i32,
    batch_start: i32,
    pid: (i32, i32),
) -> (r: Vec<Output>)
    requires
        q4k_mmq_matmul_mmai_reachable(
            q4.len() as int,
            q8.len() as int,
            ncols as int,
            nrows as int,
            b_size as int,
            batch_start as int,
            pid,
        ),
    ensures
        views(r@) == q4k_mmq_matmul_mmai_outputs(
            q4@,
            q8@,
            ncols as int,
            nrows as int,
            b_size as int,
            batch_start as int,
            pid,
        ),
{
    let ghost outputs = q4k_mmq_matmul_mmai_outputs(
        q4@,
        q8@,
        ncols as int,
        nrows as int,
        b_size as int,
        batch_start as int,
        pid,
    );
    let row_base: i32 = pid.0 * 16;
    let batch_base: i32 = batch_start + pid.1 * 16;
    let mut r: Vec<Output> = Vec::new();
    if row_base >= nrows || batch_base >= b_size {
        assert(views(r@) =~= outputs);
        return r;
    }
    let blocks: usize = count_blocks(ncols);
    proof {
        lemma_blocks_bound(blocks as int, row_base + 15);
    }
    let mut dots: Vec<Vec<i32>> = Vec::new();
    let mut i: usize = 0;
    while i < blocks * 8
        invariant
            i <= blocks * 8 <= i32::MAX,
            0 <= row_base,
            0 <= batch_base,
            row_base + 15 <= i32::MAX,
            batch_base + 15 <= i32::MAX,
            0 <= b_size,
            q4k_row_reachable(q4.len() as int, blocks as int, row_base + 15),
            q8_batch_reachable(q8.len() as int, blocks as int, b_size as int, batch_base + 15),
            dots@.len() == i,
            forall|j: int, o: int|
                0 <= j < i && 0 <= o < 256 ==> #[trigger] dots@[j]@[o] == dot(
                    q4k_row_group(q4@, blocks as int, row_base + o / 16, j).quants,
                    q8_batch_group(q8@, b_size as int, batch_base + o % 16, j).quants,
                ),
            forall|j: int| 0 <= j < i ==> (#[trigger] dots@[j])@.len() == 256,
        decreases blocks * 8 - i,
    {
        let group_dots = tile_dots(
            q4,
            q8,
            blocks,
            row_base as usize,
            b_size as usize,
            batch_base as usize,
            i,
        );
        dots.push(group_dots);
        i = i + 1;
    }
    let mut o: i32 = 0;
    while o < 256
        invariant
            0 <= o <= 256,
            blocks == blocks_in(ncols as int),
            row_base == 16 * pid.0,
            batch_base == batch_start + 16 * pid.1,
            0 <= row_base < nrows,
            0 <= batch_base < b_size,
            q4k_mmq_reachable(
                q4.len() as int,
                q8.len() as int,
                ncols as int,
                nrows as int,
                b_size as int,
                row_base + 15,
                batch_base + 15,
            ),
            dots@.len() == blocks * 8,
            forall|j: int, o: int|
                0 <= j < blocks * 8 && 0 <= o < 256 ==> #[trigger] dots@[j]@[o] == dot(
                    q4k_row_group(q4@, blocks as int, row_base + o / 16, j).quants,
                    q8_batch_group(q8@, b_size as int, batch_base + o % 16, j).quants,
                ),
            forall|j: int| 0 <= j < blocks * 8 ==> (#[trigger] dots@[j])@.len() == 256,
            outputs == q4k_mmq_matmul_mmai_outputs(
                q4@,
                q8@,
                ncols as int,
                nrows as int,
                b_size as int,
                batch_start as int,
                pid,
            ),
            r@.len() == o,
            forall|j: int| 0 <= j < o ==> r@[j]@ == outputs[j],
        decreases 256 - o,
    {
        let row_local: i32 = o % 16;
        let batch_local: i32 = o / 16;
        let row: i32 = row_base + row_local;
        let batch: i32 = batch_base + batch_local;
        let place: usize = (row_local * 16 + batch_local) as usize;
        proof {
            lemma_mmq_reachable(
                q4.len() as int,
                q8.len() as int,
                ncols as int,
                nrows as int,
                b_size as int,
                row as int,
                batch as int,
                row_base + 15,
                batch_base + 15,
            );
            assert(place as int / 16 == row_local && place as int % 16 == batch_local);
        }
        let steps = build_mmai_steps(
            q4,
            q8,
            blocks,
            row as usize,
            b_size as usize,
            batch as usize,
            &dots,
            place,
        );
        r.push(Output { index: row + batch * nrows, steps });
        o = o + 1;
    }
    assert(views(r@) =~= outputs);
    r
}

/// Whichever lanes of a dot product are added first, what is added so far is an integer of less
/// than 24 bits, so single precision holds it exactly.
pub proof fn law_partial_dots_are_exact(
    w: Seq<u8>,
    a: Seq<i8>,
    picked: spec_fn(int) -> bool,
    n: int,
)
    requires
        0 <= n <= 32,
        forall|l: int| 0 <= l < n ==> #[trigger] w[l] < 16,
    ensures
        -0x100_0000 < sum(|l: int| if picked(l) { dot_term(w, a)(l) } else { 0 }, n) < 0x100_0000,
{
    lemma_picked_dot_bounds(w, a, picked, n);
}

/// Bounds of a sum of some of the terms of a dot product.
proof fn lemma_picked_dot_bounds(w: Seq<u8>, a: Seq<i8>, picked: spec_fn(int) -> bool, n: int)
    requires
        0 <= n <= 32,
        forall|l: int| 0 <= l < n ==> #[trigger] w[l] < 16,
    ensures
        -1920 * n <= sum(|l: int| if picked(l) { dot_term(w, a)(l) } else { 0 }, n) <= 1905 * n,
    decreases n,
{
    if n > 0 {
        lemma_picked_dot_bounds(w, a, picked, n - 1);
        let x = w[n - 1] as int;
        let y = a[n - 1] as int;
        assert(-1920 <= x * y <= 1905) by (nonlinear_arith)
            requires
                0 <= x <= 15,
                -128 <= y <= 127,
        ;
    }
}

/// Taking four rows per program changes nothing about a row.
pub proof fn law_rows4_equals_b1(
    q4: Seq<u8>,
    q8: Seq<u8>,
    ncols: int,
    nrows: int,
    pid: (i32, i32),
    k: int,
)
    requires
        0 <= pid.0,
        4 * pid.0 + 3 < nrows <= i32::MAX,
        0 <= k < 4,
    ensures
        q4k_matvec_b1_rows4_outputs(q4, q8, ncols, nrows, pid)[k] == q4k_matvec_b1_outputs(
            q4,
            q8,
            ncols,
            nrows,
            ((4 * pid.0 + k) as i32, 0),
        )[0],
{
}

/// Taking a tile of four by four rows per program changes nothing about an output.
pub proof fn law_tiled_equals_batched(
    q4: Seq<u8>,
    q8: Seq<u8>,
    ncols: int,
    nrows: int,
    b_size: int,
    batch_start: int,
    pid: (i32, i32),
    o: int,
)
    requires
        0 <= pid.0,
        0 <= pid.1,
        0 <= batch_start,
        4 * pid.0 + 3 < nrows <= i32::MAX,
        batch_start + 4 * pid.1 + 3 < b_size <= i32::MAX,
        0 <= o < 16,
    ensures
        q4k_mmq_matmul_tiled_outputs(q4, q8, ncols, nrows, b_size, batch_start, pid)[o]
            == q4k_mmq_matmul_batched_outputs(
            q4,
            q8,
            ncols,
            nrows,
            b_size,
            ((4 * pid.0 + o % 4) as i32, (batch_start + 4 * pid.1 + o / 4) as i32),
        )[0],
{
}

/// Taking a tile of sixteen by sixteen rows through the matrix unit changes nothing about an
/// output.
pub proof fn law_mmai_equals_batched(
    q4: Seq<u8>,
    q8: Seq<u8>,
    ncols: int,
    nrows: int,
    b_size: int,
    batch_start: int,
    pid: (i32, i32),
    o: int,
)
    requires
        0 <= pid.0,
        0 <= pid.1,
        0 <= batch_start,
        16 * pid.0 + 15 < nrows <= i32::MAX,
        batch_start + 16 * pid.1 + 15 < b_size <= i32::MAX,
        0 <= o < 256,
    ensures
        q4k_mmq_matmul_mmai_outputs(q4, q8, ncols, nrows, b_size, batch_start, pid)[o]
            == q4k_mmq_matmul_batched_outputs(
            q4,
            q8,
            ncols,
            nrows,
            b_size,
            ((16 * pid.0 + o % 16) as i32, (batch_start + 16 * pid.1 + o / 16) as i32),
        )[0],
{
}

} // verus!
