//! What the kernels compute from stored matrices, in any arithmetic.
//!
//! An arithmetic says how numbers are read, multiplied, added and subtracted. Rounding is its own
//! affair, so what holds in every arithmetic holds in single precision too, rounding by rounding.
use vstd::prelude::*;

verus! {

use crate::expr::{lemma_sum_equal, sum, Expr, OutputView, StepView};
use crate::launch::Kernel;
use crate::q4k::{
    decode_lane, decode_step, dot, dot_term, factored_step, lemma_dot_bounds, q4k_decode_steps,
    q4k_factored_steps, q4k_mmq_steps, q4k_row_group, q8_row_group,
};
use crate::q6k::{q6k_row_lane, q6k_step_column, q6k_steps, ActivationRowView};
use crate::storage::{
    holds, is_q8_at, law_q8_block_reads_back, law_stored_d4_reads_back, law_stored_ds4_reads_back,
    law_stored_q4k_reads_back, law_stored_q6k_reads_back, law_stored_q8_reads_back, store_d4,
    store_ds4, store_q4k, store_q6k, store_q8, Q4Block, Q6Block, Q8Half, Q8Single,
};

/// An arithmetic on numbers that are named by integers, for instance by their bits.
pub struct Arithmetic {
    pub zero: int,
    pub half: spec_fn(u16) -> int,
    pub single: spec_fn(u32) -> int,
    pub int: spec_fn(int) -> int,
    pub times: spec_fn(int, int) -> int,
    pub plus: spec_fn(int, int) -> int,
    pub minus: spec_fn(int, int) -> int,
    /// The sum of the lanes of a tile, in the order of the device.
    pub lanes: spec_fn(Seq<int>) -> int,
}

/// Evaluates an expression.
pub open spec fn evaluate(e: Expr, ar: Arithmetic) -> int
    decreases e,
{
    match e {
        Expr::Half(bits) => (ar.half)(bits),
        Expr::Single(bits) => (ar.single)(bits),
        Expr::Int(i) => (ar.int)(i as int),
        Expr::Mul(a, b) => (ar.times)(evaluate(*a, ar), evaluate(*b, ar)),
        Expr::Sub(a, b) => (ar.minus)(evaluate(*a, ar), evaluate(*b, ar)),
    }
}

/// An accumulator after a step.
pub open spec fn after_step(acc: int, step: StepView, ar: Arithmetic) -> int {
    match step {
        StepView::AddLanes(lanes) => (ar.plus)(
            acc,
            (ar.lanes)(Seq::new(lanes.len(), |l: int| evaluate(lanes[l], ar))),
        ),
        StepView::AddSub(a, b) => (ar.minus)(
            (ar.plus)(acc, evaluate(a, ar)),
            evaluate(b, ar),
        ),
    }
}

/// An accumulator that started from zero, after the first `n` steps.
pub open spec fn accumulated(steps: Seq<StepView>, n: int, ar: Arithmetic) -> int
    decreases n,
{
    if n <= 0 {
        ar.zero
    } else {
        after_step(accumulated(steps, n - 1, ar), steps[n - 1], ar)
    }
}

/// The number that an output ends up with.
pub open spec fn result(output: OutputView, ar: Arithmetic) -> int {
    accumulated(output.steps, output.steps.len() as int, ar)
}

/// Decoding `n` groups of a row of Q4_K weights: for every group, the sum of the products of the
/// dequantized weights and activations is added.
pub open spec fn q4k_decoded(
    m: spec_fn(int, int) -> Q4Block,
    a: spec_fn(int, int) -> Q8Half,
    row: int,
    batch: int,
    n: int,
    ar: Arithmetic,
) -> int
    decreases n,
{
    if n <= 0 {
        ar.zero
    } else {
        let i = n - 1;
        let b = m(row, i / 8);
        let g = i % 8;
        let x = a(batch, i);
        let min = (ar.times)((ar.half)(b.dmin), (ar.int)(b.mins[g]));
        let scale = (ar.times)((ar.half)(b.d), (ar.int)(b.scales[g]));
        (ar.plus)(
            q4k_decoded(m, a, row, batch, i, ar),
            (ar.lanes)(
                Seq::new(
                    32,
                    |l: int|
                        (ar.times)(
                            (ar.minus)((ar.times)(scale, (ar.int)(b.quants[32 * g + l])), min),
                            (ar.times)((ar.half)(x.d), (ar.int)(x.quants[l] as int)),
                        ),
                ),
            ),
        )
    }
}

/// Multiplying `n` groups of a row of Q4_K weights: for every group, the scaled integer dot
/// product is added, and the min times the stored sum subtracted.
pub open spec fn q4k_multiplied(
    m: spec_fn(int, int) -> Q4Block,
    a: spec_fn(int, int) -> Q8Half,
    row: int,
    batch: int,
    n: int,
    ar: Arithmetic,
) -> int
    decreases n,
{
    if n <= 0 {
        ar.zero
    } else {
        let i = n - 1;
        let b = m(row, i / 8);
        let g = i % 8;
        let x = a(batch, i);
        let scale = (ar.times)((ar.half)(b.d), (ar.int)(b.scales[g]));
        let min = (ar.times)((ar.half)(b.dmin), (ar.int)(b.mins[g]));
        let products = sum(|l: int| b.quants[32 * g + l] * x.quants[l], 32);
        (ar.minus)(
            (ar.plus)(
                q4k_multiplied(m, a, row, batch, i, ar),
                (ar.times)((ar.times)(scale, (ar.half)(x.d)), (ar.int)(products)),
            ),
            (ar.times)(min, (ar.half)(x.sum)),
        )
    }
}

/// The first of the four columns that the `t`-th step of a row of Q6_K weights takes: in every 128
/// columns, eight columns apart by halves, four of the first 32 and four of the third 32 in turns,
/// then of the second and the fourth.
pub open spec fn q6k_first_column(t: int) -> int {
    128 * (t / 32) + 32 * (t / 16 % 2) + 64 * (t % 2) + 4 * (t / 2 % 8)
}

/// Multiplying a row of Q6_K weights in `n` steps of four columns, given the number that the scale
/// of a column of activations stands for, and its quant.
pub open spec fn q6k_multiplied(
    m: spec_fn(int, int) -> Q6Block,
    scale: spec_fn(int) -> int,
    quant: spec_fn(int) -> int,
    row: int,
    n: int,
    ar: Arithmetic,
) -> int
    decreases n,
{
    if n <= 0 {
        ar.zero
    } else {
        let first = q6k_first_column(n - 1);
        let b = m(row, first / 256);
        (ar.plus)(
            q6k_multiplied(m, scale, quant, row, n - 1, ar),
            (ar.lanes)(
                Seq::new(
                    4,
                    |l: int|
                        {
                            let c = first + l;
                            let weight = (ar.times)(
                                (ar.times)(
                                    (ar.half)(b.d),
                                    (ar.int)(b.scales[(c % 256) / 16] as int),
                                ),
                                (ar.int)(b.quants[c % 256]),
                            );
                            (ar.times)((ar.times)(weight, scale(c)), (ar.int)(quant(c)))
                        },
                ),
            ),
        )
    }
}

/// The scales of a row of activations with half precision scales.
pub open spec fn half_scales(
    a: spec_fn(int, int) -> Q8Half,
    batch: int,
    ar: Arithmetic,
) -> spec_fn(int) -> int {
    |c: int| (ar.half)(a(batch, c / 32).d)
}

/// The quants of a row of activations with half precision scales.
pub open spec fn half_quants(a: spec_fn(int, int) -> Q8Half, batch: int) -> spec_fn(int) -> int {
    |c: int| a(batch, c / 32).quants[c % 32] as int
}

/// The scales of a row of activations with single precision scales.
pub open spec fn single_scales(
    a: spec_fn(int, int) -> Q8Single,
    batch: int,
    ar: Arithmetic,
) -> spec_fn(int) -> int {
    |c: int| (ar.single)(a(batch, c / 32).d)
}

/// The quants of a row of activations with single precision scales.
pub open spec fn single_quants(a: spec_fn(int, int) -> Q8Single, batch: int) -> spec_fn(
    int,
) -> int {
    |c: int| a(batch, c / 32).quants[c % 32] as int
}

/// A buffer holds a matrix of Q4_K weights.
pub open spec fn holds_q4k(
    w: Seq<u8>,
    m: spec_fn(int, int) -> Q4Block,
    nrows: int,
    ncols: int,
) -> bool {
    &&& forall|r: int, k: int| (#[trigger] m(r, k)).is_valid()
    &&& holds(w, store_q4k(m, nrows, ncols / 256))
}

/// A buffer holds a matrix of Q6_K weights.
pub open spec fn holds_q6k(
    w: Seq<u8>,
    m: spec_fn(int, int) -> Q6Block,
    nrows: int,
    ncols: int,
) -> bool {
    &&& forall|r: int, k: int| (#[trigger] m(r, k)).is_valid()
    &&& holds(w, store_q6k(m, nrows, ncols / 256))
}

/// A row of activations in Q8_1 blocks starts at a byte offset.
pub open spec fn is_row_at(
    q8: Seq<u8>,
    a: spec_fn(int, int) -> Q8Half,
    batch: int,
    groups: int,
    row_base: int,
) -> bool {
    &&& row_base % 2 == 0
    &&& forall|k: int|
        0 <= k < groups ==> #[trigger] is_q8_at(q8, row_base + 36 * k, a(batch, k)) && a(
            batch,
            k,
        ).quants.len() == 32
}

/// Stored rows of activations start where their strides say.
pub proof fn lemma_stored_rows(
    q8: Seq<u8>,
    a: spec_fn(int, int) -> Q8Half,
    batches: int,
    groups: int,
    batch: int,
    n: int,
)
    requires
        forall|r: int, k: int| (#[trigger] a(r, k)).quants.len() == 32,
        holds(q8, store_q8(a, batches, groups)),
        0 <= batch < batches,
        0 <= n <= groups,
    ensures
        is_row_at(q8, a, batch, n, batch * (36 * groups)),
{
    let row_base = batch * (36 * groups);
    assert(row_base == 36 * (batch * groups)) by (nonlinear_arith)
        requires
            row_base == batch * (36 * groups),
    ;
    assert(row_base % 2 == 0);
    assert forall|k: int| 0 <= k < n implies #[trigger] is_q8_at(
        q8,
        row_base + 36 * k,
        a(batch, k),
    ) && a(batch, k).quants.len() == 32 by {
        law_stored_q8_reads_back(q8, a, batches, groups, batch, k);
    }
}

/// A buffer holds rows of activations in Q8_1 blocks, `stride` bytes apart.
pub open spec fn holds_q8(
    q8: Seq<u8>,
    a: spec_fn(int, int) -> Q8Half,
    rows: int,
    stride: int,
) -> bool {
    &&& forall|r: int, k: int| (#[trigger] a(r, k)).quants.len() == 32
    &&& stride % 36 == 0
    &&& holds(q8, store_q8(a, rows, stride / 36))
}

/// A buffer holds rows of at least `ncols` activations for matrix products, with half precision
/// scales and sums.
pub open spec fn holds_ds4(
    q8: Seq<u8>,
    a: spec_fn(int, int) -> Q8Half,
    rows: int,
    ncols: int,
) -> bool {
    &&& forall|r: int, k: int| (#[trigger] a(r, k)).quants.len() == 32
    &&& holds(q8, store_ds4(a, rows, ncols / 128))
}

/// A buffer holds rows of at least `ncols` activations for matrix products, with single precision
/// scales.
pub open spec fn holds_d4(
    q8: Seq<u8>,
    a: spec_fn(int, int) -> Q8Single,
    rows: int,
    ncols: int,
) -> bool {
    &&& forall|r: int, k: int| (#[trigger] a(r, k)).quants.len() == 32
    &&& holds(q8, store_d4(a, rows, ncols / 128))
}

/// Decoding a row of stored weights and a row of stored activations.
pub proof fn lemma_decoded(
    w: Seq<u8>,
    q8: Seq<u8>,
    m: spec_fn(int, int) -> Q4Block,
    a: spec_fn(int, int) -> Q8Half,
    nrows: int,
    blocks: int,
    row: int,
    batch: int,
    row_base: int,
    n: int,
    ar: Arithmetic,
)
    requires
        forall|r: int, k: int| (#[trigger] m(r, k)).is_valid(),
        holds(w, store_q4k(m, nrows, blocks)),
        is_row_at(q8, a, batch, 8 * blocks, row_base),
        0 <= row < nrows,
        0 <= n <= 8 * blocks,
    ensures
        accumulated(
            q4k_decode_steps(w, q8, blocks, row, row_base),
            n,
            ar,
        ) == q4k_decoded(m, a, row, batch, n, ar),
    decreases n,
{
    let steps = q4k_decode_steps(w, q8, blocks, row, row_base);
    if n > 0 {
        let i = n - 1;
        lemma_decoded(w, q8, m, a, nrows, blocks, row, batch, row_base, i, ar);
        law_stored_q4k_reads_back(w, m, nrows, blocks, row, i);
        assert(is_q8_at(q8, row_base + 36 * i, a(batch, i)));
        law_q8_block_reads_back(q8, row_base, i, a(batch, i));
        let wg = q4k_row_group(w, blocks, row, i);
        let xg = q8_row_group(q8, row_base, i);
        let b = m(row, i / 8);
        let g = i % 8;
        let x = a(batch, i);
        assert(b.is_valid());
        assert(0 <= b.scales[g] < 64 && 0 <= b.mins[g] < 64);
        assert(steps[i] == decode_step(wg, xg));
        let lanes = Seq::new(32, |l: int| decode_lane(wg, xg, l));
        let values = Seq::new(lanes.len(), |l: int| evaluate(lanes[l], ar));
        let min = (ar.times)((ar.half)(b.dmin), (ar.int)(b.mins[g]));
        let scale = (ar.times)((ar.half)(b.d), (ar.int)(b.scales[g]));
        let expected = Seq::new(
            32,
            |l: int|
                (ar.times)(
                    (ar.minus)((ar.times)(scale, (ar.int)(b.quants[32 * g + l])), min),
                    (ar.times)((ar.half)(x.d), (ar.int)(x.quants[l] as int)),
                ),
        );
        assert forall|l: int| 0 <= l < 32 implies values[l] == expected[l] by {
            reveal_with_fuel(evaluate, 6);
            assert(0 <= b.quants[32 * g + l] < 16);
            assert(lanes[l] == decode_lane(wg, xg, l));
        }
        assert(values =~= expected);
    }
}

/// The integer dot product of a stored group.
proof fn lemma_stored_dot(b: Q4Block, g: int, x: Seq<i8>)
    requires
        b.is_valid(),
        0 <= g < 8,
        x.len() == 32,
    ensures
        ({
            let quants = Seq::new(32, |l: int| b.quants[32 * g + l] as u8);
            let products = sum(|l: int| b.quants[32 * g + l] * x[l], 32);
            &&& dot(quants, x) == products
            &&& (dot(quants, x) as i32) as int == products
        }),
{
    let quants = Seq::new(32, |l: int| b.quants[32 * g + l] as u8);
    let f = |l: int| b.quants[32 * g + l] * x[l];
    assert forall|l: int| 0 <= l < 32 implies #[trigger] f(l) == dot_term(quants, x)(l) by {
        assert(0 <= b.quants[32 * g + l] < 16);
    }
    lemma_sum_equal(f, dot_term(quants, x), 32);
    assert forall|l: int| 0 <= l < 32 implies #[trigger] quants[l] < 16 by {
        assert(0 <= b.quants[32 * g + l] < 16);
    }
    lemma_dot_bounds(quants, x, 32);
}

/// A step with the stored sum, for stored groups.
proof fn lemma_factored_step(
    acc: int,
    b: Q4Block,
    g: int,
    x: Q8Half,
    step: StepView,
    ar: Arithmetic,
)
    requires
        b.is_valid(),
        0 <= g < 8,
        x.quants.len() == 32,
        step == factored_step(
            (crate::blocks::Q4GroupView {
                d: b.d,
                dmin: b.dmin,
                scale: b.scales[g] as u8,
                min: b.mins[g] as u8,
                quants: Seq::new(32, |l: int| b.quants[32 * g + l] as u8),
            }),
            (crate::blocks::Q8GroupView { d: x.d, sum: x.sum, quants: x.quants }),
        ),
    ensures
        ({
            let scale = (ar.times)((ar.half)(b.d), (ar.int)(b.scales[g]));
            let min = (ar.times)((ar.half)(b.dmin), (ar.int)(b.mins[g]));
            let products = sum(|l: int| b.quants[32 * g + l] * x.quants[l], 32);
            after_step(acc, step, ar) == (ar.minus)(
                (ar.plus)(
                    acc,
                    (ar.times)((ar.times)(scale, (ar.half)(x.d)), (ar.int)(products)),
                ),
                (ar.times)(min, (ar.half)(x.sum)),
            )
        }),
{
    lemma_stored_dot(b, g, x.quants);
    assert(0 <= b.scales[g] < 64 && 0 <= b.mins[g] < 64);
    reveal_with_fuel(evaluate, 6);
}

/// Multiplying with the stored sums, rows of activations apart.
proof fn lemma_factored(
    w: Seq<u8>,
    q8: Seq<u8>,
    m: spec_fn(int, int) -> Q4Block,
    a: spec_fn(int, int) -> Q8Half,
    nrows: int,
    blocks: int,
    row: int,
    batch: int,
    row_base: int,
    n: int,
    ar: Arithmetic,
)
    requires
        forall|r: int, k: int| (#[trigger] m(r, k)).is_valid(),
        holds(w, store_q4k(m, nrows, blocks)),
        is_row_at(q8, a, batch, 8 * blocks, row_base),
        0 <= row < nrows,
        0 <= n <= 8 * blocks,
    ensures
        accumulated(
            q4k_factored_steps(w, q8, blocks, row, row_base),
            n,
            ar,
        ) == q4k_multiplied(m, a, row, batch, n, ar),
    decreases n,
{
    let steps = q4k_factored_steps(w, q8, blocks, row, row_base);
    if n > 0 {
        let i = n - 1;
        lemma_factored(w, q8, m, a, nrows, blocks, row, batch, row_base, i, ar);
        law_stored_q4k_reads_back(w, m, nrows, blocks, row, i);
        assert(is_q8_at(q8, row_base + 36 * i, a(batch, i)));
        law_q8_block_reads_back(q8, row_base, i, a(batch, i));
        assert(m(row, i / 8).is_valid());
        lemma_factored_step(
            accumulated(steps, i, ar),
            m(row, i / 8),
            i % 8,
            a(batch, i),
            steps[i],
            ar,
        );
    }
}

/// Multiplying with the stored sums in the layout for matrix products.
pub proof fn lemma_multiplied(
    w: Seq<u8>,
    q8: Seq<u8>,
    m: spec_fn(int, int) -> Q4Block,
    a: spec_fn(int, int) -> Q8Half,
    nrows: int,
    blocks: int,
    b_size: int,
    fours: int,
    row: int,
    batch: int,
    n: int,
    ar: Arithmetic,
)
    requires
        forall|r: int, k: int| (#[trigger] m(r, k)).is_valid(),
        forall|r: int, k: int| (#[trigger] a(r, k)).quants.len() == 32,
        holds(w, store_q4k(m, nrows, blocks)),
        holds(q8, store_ds4(a, b_size, fours)),
        0 <= row < nrows,
        0 <= batch < b_size,
        0 <= n <= 8 * blocks,
        2 * blocks <= fours,
    ensures
        accumulated(q4k_mmq_steps(w, q8, blocks, row, b_size, batch), n, ar) == q4k_multiplied(
            m,
            a,
            row,
            batch,
            n,
            ar,
        ),
    decreases n,
{
    let steps = q4k_mmq_steps(w, q8, blocks, row, b_size, batch);
    if n > 0 {
        let i = n - 1;
        lemma_multiplied(w, q8, m, a, nrows, blocks, b_size, fours, row, batch, i, ar);
        law_stored_q4k_reads_back(w, m, nrows, blocks, row, i);
        law_stored_ds4_reads_back(q8, a, b_size, fours, batch, i);
        assert(m(row, i / 8).is_valid());
        lemma_factored_step(
            accumulated(steps, i, ar),
            m(row, i / 8),
            i % 8,
            a(batch, i),
            steps[i],
            ar,
        );
    }
}

/// Where the steps of a row of Q6_K weights start.
#[verifier::spinoff_prover]
proof fn lemma_first_column(t: int, l: int)
    requires
        0 <= t,
        0 <= l < 4,
    ensures
        q6k_step_column(t, l) == q6k_first_column(t) + l,
        q6k_first_column(t) / 256 == t / 64,
        (q6k_first_column(t) + l) / 256 == t / 64,
{
    let block = t / 64;
    let half = t / 32 % 2;
    let run = t / 16 % 2;
    let quad = t / 2 % 8;
    let part = t % 2;
    assert(t == 2 * (t / 2) + part);
    assert(t / 2 == 8 * (t / 16) + quad);
    assert(t / 16 == 2 * (t / 32) + run);
    assert(t / 32 == 2 * block + half);
    assert(t == 64 * block + 32 * half + 16 * run + 2 * quad + part);
    let iqs = (t % 64) / 2;
    assert(t % 64 == 32 * half + 16 * run + 2 * quad + part);
    assert(iqs == 16 * half + 8 * run + quad);
    assert(iqs / 16 == half);
    assert(iqs % 16 == 8 * run + quad);
    assert((iqs % 16) / 8 == run);
    assert(iqs % 8 == quad);
    let within = 128 * half + 32 * run + 64 * part + 4 * quad;
    assert(q6k_first_column(t) == 256 * block + within);
    assert(0 <= within && within + 3 < 256);
}

/// The steps of a row of stored Q6_K weights, given how its activations are read.
#[verifier::spinoff_prover]
#[verifier::rlimit(40)]
pub proof fn lemma_q6k_multiplied(
    w: Seq<u8>,
    q8: Seq<u8>,
    m: spec_fn(int, int) -> Q6Block,
    at: ActivationRowView,
    scale: spec_fn(int) -> int,
    quant: spec_fn(int) -> int,
    nrows: int,
    blocks: int,
    row: int,
    n: int,
    ar: Arithmetic,
)
    requires
        forall|r: int, k: int| (#[trigger] m(r, k)).is_valid(),
        holds(w, store_q6k(m, nrows, blocks)),
        0 <= row < nrows,
        0 <= n <= 64 * blocks,
        forall|c: int|
            0 <= c < 256 * blocks ==> evaluate((#[trigger] at.activation(q8, c)).d, ar) == scale(c)
                && at.activation(q8, c).quant == quant(c),
    ensures
        accumulated(q6k_steps(w, q8, blocks, row, at), n, ar) == q6k_multiplied(
            m,
            scale,
            quant,
            row,
            n,
            ar,
        ),
    decreases n,
{
    let steps = q6k_steps(w, q8, blocks, row, at);
    if n > 0 {
        let t = n - 1;
        lemma_q6k_multiplied(w, q8, m, at, scale, quant, nrows, blocks, row, t, ar);
        let first = q6k_first_column(t);
        let b = m(row, first / 256);
        assert(b.is_valid());
        let lanes = Seq::new(
            4,
            |l: int| q6k_row_lane(w, q8, blocks, row, at, q6k_step_column(t, l)),
        );
        assert(steps[t] == StepView::AddLanes(lanes));
        let values = Seq::new(lanes.len(), |l: int| evaluate(lanes[l], ar));
        let expected = Seq::new(
            4,
            |l: int|
                {
                    let c = first + l;
                    let weight = (ar.times)(
                        (ar.times)((ar.half)(b.d), (ar.int)(b.scales[(c % 256) / 16] as int)),
                        (ar.int)(b.quants[c % 256]),
                    );
                    (ar.times)((ar.times)(weight, scale(c)), (ar.int)(quant(c)))
                },
        );
        assert forall|l: int| 0 <= l < 4 implies values[l] == expected[l] by {
            let c = first + l;
            lemma_first_column(t, l);
            assert(0 <= c < 256 * blocks);
            law_stored_q6k_reads_back(w, m, nrows, blocks, row, c);
            assert(0 <= c % 256 < 256);
            lemma_q6k_lane(w, q8, m, at, blocks, row, c, ar);
            assert(lanes[l] == q6k_row_lane(w, q8, blocks, row, at, c));
            assert(evaluate(at.activation(q8, c).d, ar) == scale(c));
        }
        assert(values =~= expected);
    }
}

/// The value of a lane of Q6_K weights.
proof fn lemma_q6k_lane(
    w: Seq<u8>,
    q8: Seq<u8>,
    m: spec_fn(int, int) -> Q6Block,
    at: ActivationRowView,
    blocks: int,
    row: int,
    c: int,
    ar: Arithmetic,
)
    requires
        ({
            let b = m(row, c / 256);
            let base = (row * blocks + c / 256) * 210;
            &&& crate::blocks::q6k_d(w, base) == b.d
            &&& crate::blocks::q6k_scale(w, base, c % 256) == b.scales[(c % 256) / 16]
            &&& crate::blocks::q6k_quant(w, base, c % 256) == b.quants[c % 256]
            &&& -32 <= b.quants[c % 256] < 32
        }),
    ensures
        ({
            let b = m(row, c / 256);
            let x = at.activation(q8, c);
            let weight = (ar.times)(
                (ar.times)((ar.half)(b.d), (ar.int)(b.scales[(c % 256) / 16] as int)),
                (ar.int)(b.quants[c % 256]),
            );
            evaluate(q6k_row_lane(w, q8, blocks, row, at, c), ar) == (ar.times)(
                (ar.times)(weight, evaluate(x.d, ar)),
                (ar.int)(x.quant as int),
            )
        }),
{
    reveal_with_fuel(evaluate, 6);
    let x = at.activation(q8, c);
    let d = x.d;
    assert(evaluate(d, ar) == evaluate(x.d, ar));
}

/// A program of the Q4_K decode kernel stores the product of its row, and nothing if there is no
/// such row.
pub proof fn law_q4k_decode_program(
    w: Seq<u8>,
    q8: Seq<u8>,
    m: spec_fn(int, int) -> Q4Block,
    a: spec_fn(int, int) -> Q8Half,
    stride: int,
    ncols: i32,
    nrows: i32,
    pid: (i32, i32),
    ar: Arithmetic,
)
    requires
        0 <= ncols,
        0 <= pid.0,
        holds_q4k(w, m, nrows as int, ncols as int),
        holds_q8(q8, a, 1, stride),
        8 * (ncols as int / 256) <= stride / 36,
    ensures
        ({
            let outputs = (Kernel::Q4kMatvecB1 { ncols, nrows }).outputs(w, q8, pid);
            &&& outputs.len() == (if 1 * pid.0 + 1 <= nrows {
                1int
            } else {
                0
            })
            &&& forall|k: int|
                0 <= k < outputs.len() ==> {
                    let row = 1 * pid.0 + k;
                    &&& (#[trigger] outputs[k]).index == row
                    &&& result(outputs[k], ar) == q4k_decoded(
                        m,
                        a,
                        row,
                        0,
                        8 * (ncols as int / 256),
                        ar,
                    )
                }
        }),
{
    let outputs = (Kernel::Q4kMatvecB1 { ncols, nrows }).outputs(w, q8, pid);
    let blocks = ncols as int / 256;
    let groups = stride / 36;
    assert(0 * (36 * groups) == 0);
    assert forall|k: int| 0 <= k < outputs.len() implies {
        let row = 1 * pid.0 + k;
        &&& (#[trigger] outputs[k]).index == row
        &&& result(outputs[k], ar) == q4k_decoded(m, a, row, 0, 8 * blocks, ar)
    } by {
        let row = 1 * pid.0 + k;
        lemma_stored_rows(q8, a, 1, groups, 0, 8 * blocks);
        lemma_decoded(
            w,
            q8,
            m,
            a,
            nrows as int,
            blocks,
            row,
            0,
            0,
            8 * blocks,
            ar,
        );
        assert(outputs[k].steps == q4k_decode_steps(w, q8, blocks, row, 0));
    }
}

/// A program of the Q4_K decode kernel for four rows stores the products of its four rows, and
/// nothing unless there are four.
pub proof fn law_q4k_decode_four_rows_program(
    w: Seq<u8>,
    q8: Seq<u8>,
    m: spec_fn(int, int) -> Q4Block,
    a: spec_fn(int, int) -> Q8Half,
    stride: int,
    ncols: i32,
    nrows: i32,
    pid: (i32, i32),
    ar: Arithmetic,
)
    requires
        0 <= ncols,
        0 <= pid.0,
        holds_q4k(w, m, nrows as int, ncols as int),
        holds_q8(q8, a, 1, stride),
        8 * (ncols as int / 256) <= stride / 36,
    ensures
        ({
            let outputs = (Kernel::Q4kMatvecB1Rows4 { ncols, nrows }).outputs(w, q8, pid);
            &&& outputs.len() == (if 4 * pid.0 + 4 <= nrows {
                4int
            } else {
                0
            })
            &&& forall|k: int|
                0 <= k < outputs.len() ==> {
                    let row = 4 * pid.0 + k;
                    &&& (#[trigger] outputs[k]).index == row
                    &&& result(outputs[k], ar) == q4k_decoded(
                        m,
                        a,
                        row,
                        0,
                        8 * (ncols as int / 256),
                        ar,
                    )
                }
        }),
{
    let outputs = (Kernel::Q4kMatvecB1Rows4 { ncols, nrows }).outputs(w, q8, pid);
    let blocks = ncols as int / 256;
    let groups = stride / 36;
    assert(0 * (36 * groups) == 0);
    assert forall|k: int| 0 <= k < outputs.len() implies {
        let row = 4 * pid.0 + k;
        &&& (#[trigger] outputs[k]).index == row
        &&& result(outputs[k], ar) == q4k_decoded(m, a, row, 0, 8 * blocks, ar)
    } by {
        let row = 4 * pid.0 + k;
        lemma_stored_rows(q8, a, 1, groups, 0, 8 * blocks);
        lemma_decoded(
            w,
            q8,
            m,
            a,
            nrows as int,
            blocks,
            row,
            0,
            0,
            8 * blocks,
            ar,
        );
        assert(outputs[k].steps == q4k_decode_steps(w, q8, blocks, row, 0));
    }
}

/// A program of the batched Q4_K kernel stores the product of its row of weights and its row of
/// activations, which starts as many strides into the buffer as there are rows before it:
/// decoded for up to eight rows of activations, with the stored sums for more.
pub proof fn law_q4k_batched_program(
    w: Seq<u8>,
    q8: Seq<u8>,
    m: spec_fn(int, int) -> Q4Block,
    a: spec_fn(int, int) -> Q8Half,
    ncols: i32,
    nrows: i32,
    b_size: i32,
    q8_row_stride_bytes: i32,
    pid: (i32, i32),
    ar: Arithmetic,
)
    requires
        0 <= ncols,
        0 <= pid.0,
        0 <= pid.1,
        holds_q4k(w, m, nrows as int, ncols as int),
        pid.1 < b_size ==> is_row_at(
            q8,
            a,
            pid.1 as int,
            8 * (ncols as int / 256),
            pid.1 * q8_row_stride_bytes,
        ),
    ensures
        ({
            let outputs = (Kernel::Q4kMatmulBatched {
                ncols,
                nrows,
                b_size,
                q8_row_stride_bytes,
            }).outputs(w, q8, pid);
            let (row, batch) = (pid.0 as int, pid.1 as int);
            let n = 8 * (ncols as int / 256);
            &&& outputs.len() == (if row < nrows && batch < b_size {
                1int
            } else {
                0
            })
            &&& row < nrows && batch < b_size ==> outputs[0].index == row + batch * nrows
            &&& row < nrows && batch < b_size && b_size <= 8 ==> result(outputs[0], ar)
                == q4k_decoded(m, a, row, batch, n, ar)
            &&& row < nrows && batch < b_size && b_size > 8 ==> result(outputs[0], ar)
                == q4k_multiplied(m, a, row, batch, n, ar)
        }),
{
    let outputs = (Kernel::Q4kMatmulBatched { ncols, nrows, b_size, q8_row_stride_bytes }).outputs(
        w,
        q8,
        pid,
    );
    let (row, batch) = (pid.0 as int, pid.1 as int);
    let blocks = ncols as int / 256;
    if row < nrows && batch < b_size {
        lemma_decoded(
            w,
            q8,
            m,
            a,
            nrows as int,
            blocks,
            row,
            batch,
            batch * q8_row_stride_bytes,
            8 * blocks,
            ar,
        );
        lemma_factored(
            w,
            q8,
            m,
            a,
            nrows as int,
            blocks,
            row,
            batch,
            batch * q8_row_stride_bytes,
            8 * blocks,
            ar,
        );
        assert(outputs.len() == 1);
    }
}

/// A program of the batched matrix product kernel stores the product of its row of weights and its
/// row of activations.
pub proof fn law_q4k_mmq_batched_program(
    w: Seq<u8>,
    q8: Seq<u8>,
    m: spec_fn(int, int) -> Q4Block,
    a: spec_fn(int, int) -> Q8Half,
    padded: int,
    ncols: i32,
    nrows: i32,
    b_size: i32,
    q8_row_stride_bytes: i32,
    pid: (i32, i32),
    ar: Arithmetic,
)
    requires
        0 <= ncols <= padded,
        0 <= pid.0,
        0 <= pid.1,
        holds_q4k(w, m, nrows as int, ncols as int),
        holds_ds4(q8, a, b_size as int, padded),
    ensures
        ({
            let outputs = (Kernel::Q4kMmqMatmulBatched {
                ncols,
                nrows,
                b_size,
                q8_row_stride_bytes,
            }).outputs(w, q8, pid);
            let (row, batch) = (pid.0 as int, pid.1 as int);
            &&& outputs.len() == (if row < nrows && batch < b_size {
                1int
            } else {
                0
            })
            &&& row < nrows && batch < b_size ==> outputs[0].index == row + batch * nrows && result(
                outputs[0],
                ar,
            ) == q4k_multiplied(m, a, row, batch, 8 * (ncols as int / 256), ar)
        }),
{
    let (row, batch) = (pid.0 as int, pid.1 as int);
    let blocks = ncols as int / 256;
    if row < nrows && batch < b_size {
        lemma_multiplied(
            w,
            q8,
            m,
            a,
            nrows as int,
            blocks,
            b_size as int,
            padded / 128,
            row,
            batch,
            8 * blocks,
            ar,
        );
    }
}

/// A program of the tiled kernel stores the products of four rows of weights and four rows of
/// activations, as long as the buffer has these rows.
pub proof fn law_q4k_tiled_program(
    w: Seq<u8>,
    q8: Seq<u8>,
    m: spec_fn(int, int) -> Q4Block,
    a: spec_fn(int, int) -> Q8Half,
    rows: int,
    padded: int,
    ncols: i32,
    nrows: i32,
    b_size: i32,
    batch_start: i32,
    pid: (i32, i32),
    ar: Arithmetic,
)
    requires
        0 <= ncols <= padded,
        0 <= pid.0,
        0 <= pid.1,
        0 <= batch_start,
        4 * pid.0 + 4 <= rows,
        batch_start + 4 * pid.1 + 4 <= b_size,
        holds_q4k(w, m, rows, ncols as int),
        holds_ds4(q8, a, b_size as int, padded),
    ensures
        ({
            let outputs = (Kernel::Q4kMmqMatmulTiled { ncols, nrows, b_size, batch_start }).outputs(
                w,
                q8,
                pid,
            );
            &&& outputs.len() == 16
            &&& forall|o: int|
                0 <= o < 16 ==> {
                    let row = 4 * pid.0 + o % 4;
                    let batch = batch_start + 4 * pid.1 + o / 4;
                    &&& (#[trigger] outputs[o]).index == row + batch * nrows
                    &&& result(outputs[o], ar) == q4k_multiplied(
                        m,
                        a,
                        row,
                        batch,
                        8 * (ncols as int / 256),
                        ar,
                    )
                }
        }),
{
    let outputs = (Kernel::Q4kMmqMatmulTiled { ncols, nrows, b_size, batch_start }).outputs(
        w,
        q8,
        pid,
    );
    let blocks = ncols as int / 256;
    assert forall|o: int| 0 <= o < 16 implies {
        let row = 4 * pid.0 + o % 4;
        let batch = batch_start + 4 * pid.1 + o / 4;
        &&& (#[trigger] outputs[o]).index == row + batch * nrows
        &&& result(outputs[o], ar) == q4k_multiplied(m, a, row, batch, 8 * blocks, ar)
    } by {
        let row = 4 * pid.0 + o % 4;
        let batch = batch_start + 4 * pid.1 + o / 4;
        lemma_multiplied(
            w,
            q8,
            m,
            a,
            rows,
            blocks,
            b_size as int,
            padded / 128,
            row,
            batch,
            8 * blocks,
            ar,
        );
        assert(outputs[o].steps == q4k_mmq_steps(w, q8, blocks, row, b_size as int, batch));
    }
}

/// A program of the matrix unit kernel stores the products of sixteen rows of weights and sixteen
/// rows of activations, if its first row of weights exists and the buffer has the others.
pub proof fn law_q4k_mmai_program(
    w: Seq<u8>,
    q8: Seq<u8>,
    m: spec_fn(int, int) -> Q4Block,
    a: spec_fn(int, int) -> Q8Half,
    rows: int,
    padded: int,
    ncols: i32,
    nrows: i32,
    b_size: i32,
    batch_start: i32,
    pid: (i32, i32),
    ar: Arithmetic,
)
    requires
        0 <= ncols <= padded,
        0 <= pid.0,
        0 <= pid.1,
        0 <= batch_start,
        16 * pid.0 + 16 <= rows,
        16 * pid.0 < nrows,
        batch_start + 16 * pid.1 + 16 <= b_size,
        holds_q4k(w, m, rows, ncols as int),
        holds_ds4(q8, a, b_size as int, padded),
    ensures
        ({
            let outputs = (Kernel::Q4kMmqMatmulMmai { ncols, nrows, b_size, batch_start }).outputs(
                w,
                q8,
                pid,
            );
            &&& outputs.len() == 256
            &&& forall|o: int|
                0 <= o < 256 ==> {
                    let row = 16 * pid.0 + o % 16;
                    let batch = batch_start + 16 * pid.1 + o / 16;
                    &&& (#[trigger] outputs[o]).index == row + batch * nrows
                    &&& result(outputs[o], ar) == q4k_multiplied(
                        m,
                        a,
                        row,
                        batch,
                        8 * (ncols as int / 256),
                        ar,
                    )
                }
        }),
{
    let outputs = (Kernel::Q4kMmqMatmulMmai { ncols, nrows, b_size, batch_start }).outputs(
        w,
        q8,
        pid,
    );
    let blocks = ncols as int / 256;
    assert forall|o: int| 0 <= o < 256 implies {
        let row = 16 * pid.0 + o % 16;
        let batch = batch_start + 16 * pid.1 + o / 16;
        &&& (#[trigger] outputs[o]).index == row + batch * nrows
        &&& result(outputs[o], ar) == q4k_multiplied(m, a, row, batch, 8 * blocks, ar)
    } by {
        let row = 16 * pid.0 + o % 16;
        let batch = batch_start + 16 * pid.1 + o / 16;
        lemma_multiplied(
            w,
            q8,
            m,
            a,
            rows,
            blocks,
            b_size as int,
            padded / 128,
            row,
            batch,
            8 * blocks,
            ar,
        );
        assert(outputs[o].steps == q4k_mmq_steps(w, q8, blocks, row, b_size as int, batch));
    }
}

/// A program of the matrix unit kernel whose first row of weights or of activations does not exist
/// stores nothing.
pub proof fn law_q4k_mmai_program_beyond_the_rows(
    w: Seq<u8>,
    q8: Seq<u8>,
    ncols: i32,
    nrows: i32,
    b_size: i32,
    batch_start: i32,
    pid: (i32, i32),
)
    requires
        16 * pid.0 >= nrows || batch_start + 16 * pid.1 >= b_size,
    ensures
        (Kernel::Q4kMmqMatmulMmai { ncols, nrows, b_size, batch_start }).outputs(
            w,
            q8,
            pid,
        ).len() == 0,
{
}

/// A row of stored Q6_K weights and a row of stored activations in Q8_1 blocks.
pub proof fn lemma_q6k_row(
    w: Seq<u8>,
    q8: Seq<u8>,
    m: spec_fn(int, int) -> Q6Block,
    a: spec_fn(int, int) -> Q8Half,
    nrows: int,
    blocks: int,
    row: int,
    batch: int,
    row_base: int,
    ar: Arithmetic,
)
    requires
        forall|r: int, k: int| (#[trigger] m(r, k)).is_valid(),
        holds(w, store_q6k(m, nrows, blocks)),
        is_row_at(q8, a, batch, 8 * blocks, row_base),
        0 <= blocks,
        0 <= row < nrows,
    ensures
        accumulated(
            q6k_steps(
                w,
                q8,
                blocks,
                row,
                ActivationRowView::Blocks { row_base },
            ),
            64 * blocks,
            ar,
        ) == q6k_multiplied(
            m,
            half_scales(a, batch, ar),
            half_quants(a, batch),
            row,
            64 * blocks,
            ar,
        ),
{
    let at = ActivationRowView::Blocks { row_base };
    let scale = half_scales(a, batch, ar);
    let quant = half_quants(a, batch);
    assert forall|c: int| 0 <= c < 256 * blocks implies evaluate(
        (#[trigger] at.activation(q8, c)).d,
        ar,
    ) == scale(c) && at.activation(q8, c).quant == quant(c) by {
        assert(is_q8_at(q8, row_base + 36 * (c / 32), a(batch, c / 32)));
        law_q8_block_reads_back(q8, row_base, c / 32, a(batch, c / 32));
        assert(c == 32 * (c / 32) + c % 32);
        assert(at.activation(q8, 32 * (c / 32) + c % 32).d == Expr::Half(a(batch, c / 32).d));
    }
    lemma_q6k_multiplied(w, q8, m, at, scale, quant, nrows, blocks, row, 64 * blocks, ar);
}

/// A program of the Q6_K decode kernel stores the product of its row, and nothing if there is no
/// such row.
pub proof fn law_q6k_decode_program(
    w: Seq<u8>,
    q8: Seq<u8>,
    m: spec_fn(int, int) -> Q6Block,
    a: spec_fn(int, int) -> Q8Half,
    stride: int,
    ncols: i32,
    nrows: i32,
    pid: (i32, i32),
    ar: Arithmetic,
)
    requires
        0 <= ncols,
        0 <= pid.0,
        holds_q6k(w, m, nrows as int, ncols as int),
        holds_q8(q8, a, 1, stride),
        8 * (ncols as int / 256) <= stride / 36,
    ensures
        ({
            let outputs = (Kernel::Q6kMatvecB1 { ncols, nrows }).outputs(w, q8, pid);
            &&& outputs.len() == (if 1 * pid.0 + 1 <= nrows {
                1int
            } else {
                0
            })
            &&& forall|k: int|
                0 <= k < outputs.len() ==> {
                    let row = 1 * pid.0 + k;
                    &&& (#[trigger] outputs[k]).index == row
                    &&& result(outputs[k], ar) == q6k_multiplied(
                        m,
                        half_scales(a, 0, ar),
                        half_quants(a, 0),
                        row,
                        64 * (ncols as int / 256),
                        ar,
                    )
                }
        }),
{
    let outputs = (Kernel::Q6kMatvecB1 { ncols, nrows }).outputs(w, q8, pid);
    let blocks = ncols as int / 256;
    let groups = stride / 36;
    assert(0 * (36 * groups) == 0);
    assert forall|k: int| 0 <= k < outputs.len() implies {
        let row = 1 * pid.0 + k;
        &&& (#[trigger] outputs[k]).index == row
        &&& result(outputs[k], ar) == q6k_multiplied(
            m,
            half_scales(a, 0, ar),
            half_quants(a, 0),
            row,
            64 * blocks,
            ar,
        )
    } by {
        let row = 1 * pid.0 + k;
        lemma_stored_rows(q8, a, 1, groups, 0, 8 * blocks);
        lemma_q6k_row(w, q8, m, a, nrows as int, blocks, row, 0, 0, ar);
        let at = ActivationRowView::Blocks { row_base: 0 };
        assert(outputs[k].steps == q6k_steps(w, q8, blocks, row, at));
    }
}

/// A program of the Q6_K decode kernel for four rows stores the products of its four rows, and
/// nothing unless there are four.
pub proof fn law_q6k_decode_four_rows_program(
    w: Seq<u8>,
    q8: Seq<u8>,
    m: spec_fn(int, int) -> Q6Block,
    a: spec_fn(int, int) -> Q8Half,
    stride: int,
    ncols: i32,
    nrows: i32,
    pid: (i32, i32),
    ar: Arithmetic,
)
    requires
        0 <= ncols,
        0 <= pid.0,
        holds_q6k(w, m, nrows as int, ncols as int),
        holds_q8(q8, a, 1, stride),
        8 * (ncols as int / 256) <= stride / 36,
    ensures
        ({
            let outputs = (Kernel::Q6kMatvecB1Rows4 { ncols, nrows }).outputs(w, q8, pid);
            &&& outputs.len() == (if 4 * pid.0 + 4 <= nrows {
                4int
            } else {
                0
            })
            &&& forall|k: int|
                0 <= k < outputs.len() ==> {
                    let row = 4 * pid.0 + k;
                    &&& (#[trigger] outputs[k]).index == row
                    &&& result(outputs[k], ar) == q6k_multiplied(
                        m,
                        half_scales(a, 0, ar),
                        half_quants(a, 0),
                        row,
                        64 * (ncols as int / 256),
                        ar,
                    )
                }
        }),
{
    let outputs = (Kernel::Q6kMatvecB1Rows4 { ncols, nrows }).outputs(w, q8, pid);
    let blocks = ncols as int / 256;
    let groups = stride / 36;
    assert(0 * (36 * groups) == 0);
    assert forall|k: int| 0 <= k < outputs.len() implies {
        let row = 4 * pid.0 + k;
        &&& (#[trigger] outputs[k]).index == row
        &&& result(outputs[k], ar) == q6k_multiplied(
            m,
            half_scales(a, 0, ar),
            half_quants(a, 0),
            row,
            64 * blocks,
            ar,
        )
    } by {
        let row = 4 * pid.0 + k;
        lemma_stored_rows(q8, a, 1, groups, 0, 8 * blocks);
        lemma_q6k_row(w, q8, m, a, nrows as int, blocks, row, 0, 0, ar);
        let at = ActivationRowView::Blocks { row_base: 0 };
        assert(outputs[k].steps == q6k_steps(w, q8, blocks, row, at));
    }
}

/// A program of the Q6_K decode kernel for eight rows stores the products of its eight rows, and
/// nothing unless there are eight.
pub proof fn law_q6k_decode_eight_rows_program(
    w: Seq<u8>,
    q8: Seq<u8>,
    m: spec_fn(int, int) -> Q6Block,
    a: spec_fn(int, int) -> Q8Half,
    stride: int,
    ncols: i32,
    nrows: i32,
    pid: (i32, i32),
    ar: Arithmetic,
)
    requires
        0 <= ncols,
        0 <= pid.0,
        holds_q6k(w, m, nrows as int, ncols as int),
        holds_q8(q8, a, 1, stride),
        8 * (ncols as int / 256) <= stride / 36,
    ensures
        ({
            let outputs = (Kernel::Q6kMatvecB1Rows8 { ncols, nrows }).outputs(w, q8, pid);
            &&& outputs.len() == (if 8 * pid.0 + 8 <= nrows {
                8int
            } else {
                0
            })
            &&& forall|k: int|
                0 <= k < outputs.len() ==> {
                    let row = 8 * pid.0 + k;
                    &&& (#[trigger] outputs[k]).index == row
                    &&& result(outputs[k], ar) == q6k_multiplied(
                        m,
                        half_scales(a, 0, ar),
                        half_quants(a, 0),
                        row,
                        64 * (ncols as int / 256),
                        ar,
                    )
                }
        }),
{
    let outputs = (Kernel::Q6kMatvecB1Rows8 { ncols, nrows }).outputs(w, q8, pid);
    let blocks = ncols as int / 256;
    let groups = stride / 36;
    assert(0 * (36 * groups) == 0);
    assert forall|k: int| 0 <= k < outputs.len() implies {
        let row = 8 * pid.0 + k;
        &&& (#[trigger] outputs[k]).index == row
        &&& result(outputs[k], ar) == q6k_multiplied(
            m,
            half_scales(a, 0, ar),
            half_quants(a, 0),
            row,
            64 * blocks,
            ar,
        )
    } by {
        let row = 8 * pid.0 + k;
        lemma_stored_rows(q8, a, 1, groups, 0, 8 * blocks);
        lemma_q6k_row(w, q8, m, a, nrows as int, blocks, row, 0, 0, ar);
        let at = ActivationRowView::Blocks { row_base: 0 };
        assert(outputs[k].steps == q6k_steps(w, q8, blocks, row, at));
    }
}

/// A program of the batched Q6_K kernel stores the product of its row of weights and its row of
/// activations, which starts as many strides into the buffer as there are rows before it.
pub proof fn law_q6k_batched_program(
    w: Seq<u8>,
    q8: Seq<u8>,
    m: spec_fn(int, int) -> Q6Block,
    a: spec_fn(int, int) -> Q8Half,
    ncols: i32,
    nrows: i32,
    b_size: i32,
    q8_row_stride_bytes: i32,
    pid: (i32, i32),
    ar: Arithmetic,
)
    requires
        0 <= ncols,
        0 <= pid.0,
        0 <= pid.1,
        holds_q6k(w, m, nrows as int, ncols as int),
        pid.1 < b_size ==> is_row_at(
            q8,
            a,
            pid.1 as int,
            8 * (ncols as int / 256),
            pid.1 * q8_row_stride_bytes,
        ),
    ensures
        ({
            let outputs = (Kernel::Q6kMatmulBatched {
                ncols,
                nrows,
                b_size,
                q8_row_stride_bytes,
            }).outputs(w, q8, pid);
            let (row, batch) = (pid.0 as int, pid.1 as int);
            &&& outputs.len() == (if row < nrows && batch < b_size {
                1int
            } else {
                0
            })
            &&& row < nrows && batch < b_size ==> outputs[0].index == row + batch * nrows && result(
                outputs[0],
                ar,
            ) == q6k_multiplied(
                m,
                half_scales(a, batch, ar),
                half_quants(a, batch),
                row,
                64 * (ncols as int / 256),
                ar,
            )
        }),
{
    let (row, batch) = (pid.0 as int, pid.1 as int);
    let blocks = ncols as int / 256;
    if row < nrows && batch < b_size {
        lemma_q6k_row(
            w,
            q8,
            m,
            a,
            nrows as int,
            blocks,
            row,
            batch,
            batch * q8_row_stride_bytes,
            ar,
        );
    }
}

/// A row of stored Q6_K weights and a row of stored activations with single precision scales.
pub proof fn lemma_q6k_mmq_row(
    w: Seq<u8>,
    q8: Seq<u8>,
    m: spec_fn(int, int) -> Q6Block,
    a: spec_fn(int, int) -> Q8Single,
    nrows: int,
    blocks: int,
    b_size: int,
    fours: int,
    row: int,
    batch: int,
    ar: Arithmetic,
)
    requires
        forall|r: int, k: int| (#[trigger] m(r, k)).is_valid(),
        forall|r: int, k: int| (#[trigger] a(r, k)).quants.len() == 32,
        holds(w, store_q6k(m, nrows, blocks)),
        holds(q8, store_d4(a, b_size, fours)),
        0 <= blocks,
        0 <= row < nrows,
        0 <= batch < b_size,
        2 * blocks <= fours,
    ensures
        accumulated(
            q6k_steps(w, q8, blocks, row, ActivationRowView::Interleaved { b_size, batch }),
            64 * blocks,
            ar,
        ) == q6k_multiplied(
            m,
            single_scales(a, batch, ar),
            single_quants(a, batch),
            row,
            64 * blocks,
            ar,
        ),
{
    let at = ActivationRowView::Interleaved { b_size, batch };
    let scale = single_scales(a, batch, ar);
    let quant = single_quants(a, batch);
    assert forall|c: int| 0 <= c < 256 * blocks implies evaluate(
        (#[trigger] at.activation(q8, c)).d,
        ar,
    ) == scale(c) && at.activation(q8, c).quant == quant(c) by {
        law_stored_d4_reads_back(q8, a, b_size, fours, batch, c);
    }
    lemma_q6k_multiplied(w, q8, m, at, scale, quant, nrows, blocks, row, 64 * blocks, ar);
}

/// A program of the batched Q6_K matrix product kernel stores the product of its row of weights and
/// its row of activations.
pub proof fn law_q6k_mmq_batched_program(
    w: Seq<u8>,
    q8: Seq<u8>,
    m: spec_fn(int, int) -> Q6Block,
    a: spec_fn(int, int) -> Q8Single,
    padded: int,
    ncols: i32,
    nrows: i32,
    b_size: i32,
    q8_row_stride_bytes: i32,
    pid: (i32, i32),
    ar: Arithmetic,
)
    requires
        0 <= ncols <= padded,
        0 <= pid.0,
        0 <= pid.1,
        holds_q6k(w, m, nrows as int, ncols as int),
        holds_d4(q8, a, b_size as int, padded),
    ensures
        ({
            let outputs = (Kernel::Q6kMmqMatmulBatched {
                ncols,
                nrows,
                b_size,
                q8_row_stride_bytes,
            }).outputs(w, q8, pid);
            let (row, batch) = (pid.0 as int, pid.1 as int);
            &&& outputs.len() == (if row < nrows && batch < b_size {
                1int
            } else {
                0
            })
            &&& row < nrows && batch < b_size ==> outputs[0].index == row + batch * nrows && result(
                outputs[0],
                ar,
            ) == q6k_multiplied(
                m,
                single_scales(a, batch, ar),
                single_quants(a, batch),
                row,
                64 * (ncols as int / 256),
                ar,
            )
        }),
{
    let (row, batch) = (pid.0 as int, pid.1 as int);
    let blocks = ncols as int / 256;
    if row < nrows && batch < b_size {
        lemma_q6k_mmq_row(
            w,
            q8,
            m,
            a,
            nrows as int,
            blocks,
            b_size as int,
            padded / 128,
            row,
            batch,
            ar,
        );
    }
}

/// The columns that a kernel is told.
pub open spec fn columns_of(kernel: Kernel) -> int {
    match kernel {
        Kernel::Q4kMatvecB1 { ncols, .. } => ncols as int,
        Kernel::Q4kMatvecB1Rows4 { ncols, .. } => ncols as int,
        Kernel::Q4kMatmulBatched { ncols, .. } => ncols as int,
        Kernel::Q4kMmqMatmulBatched { ncols, .. } => ncols as int,
        Kernel::Q4kMmqMatmulTiled { ncols, .. } => ncols as int,
        Kernel::Q4kMmqMatmulMmai { ncols, .. } => ncols as int,
        Kernel::Q6kMatvecB1 { ncols, .. } => ncols as int,
        Kernel::Q6kMatvecB1Rows4 { ncols, .. } => ncols as int,
        Kernel::Q6kMatvecB1Rows8 { ncols, .. } => ncols as int,
        Kernel::Q6kMatmulBatched { ncols, .. } => ncols as int,
        Kernel::Q6kMmqMatmulBatched { ncols, .. } => ncols as int,
    }
}

/// Without a whole block of columns there is nothing to add: every output is zero.
#[verifier::spinoff_prover]
pub proof fn law_no_blocks_add_up_to_zero(
    kernel: Kernel,
    w: Seq<u8>,
    q8: Seq<u8>,
    pid: (i32, i32),
    o: int,
    ar: Arithmetic,
)
    requires
        columns_of(kernel) < 256,
        0 <= o < kernel.outputs(w, q8, pid).len(),
    ensures
        result(kernel.outputs(w, q8, pid)[o], ar) == ar.zero,
{
    let output = kernel.outputs(w, q8, pid)[o];
    match kernel {
        Kernel::Q4kMatvecB1 { .. } => {
            assert(output.steps.len() == 0);
        },
        Kernel::Q4kMatvecB1Rows4 { .. } => {
            assert(output.steps.len() == 0);
        },
        Kernel::Q4kMatmulBatched { .. } => {
            assert(output.steps.len() == 0);
        },
        Kernel::Q4kMmqMatmulBatched { .. } => {
            assert(output.steps.len() == 0);
        },
        Kernel::Q4kMmqMatmulTiled { .. } => {
            assert(output.steps.len() == 0);
        },
        Kernel::Q4kMmqMatmulMmai { .. } => {
            assert(output.steps.len() == 0);
        },
        Kernel::Q6kMatvecB1 { .. } => {
            assert(output.steps.len() == 0);
        },
        Kernel::Q6kMatvecB1Rows4 { .. } => {
            assert(output.steps.len() == 0);
        },
        Kernel::Q6kMatvecB1Rows8 { .. } => {
            assert(output.steps.len() == 0);
        },
        Kernel::Q6kMatmulBatched { .. } => {
            assert(output.steps.len() == 0);
        },
        Kernel::Q6kMmqMatmulBatched { .. } => {
            assert(output.steps.len() == 0);
        },
    }
}

} // verus!
