//! What the kernels compute in exact arithmetic: dot products of dequantized rows.
use vstd::prelude::*;

use crate::plan::FwdRequest;

verus! {

use crate::blocks::{q6k_column, q6k_d, q6k_quant, q6k_scale, Q4GroupView, Q8GroupView};
use crate::expr::{
    lemma_sum_equal, lemma_sum_groups, lemma_sum_interleaved, lemma_sum_split, step_value,
    steps_value, sum, sum_from, value, Reading, StepView,
};
use crate::plan::GgmlDType;
use crate::q4k::{
    decode_lane, decode_step, dot_term, factored_step, lemma_dot_bounds, q4k_decode_steps,
    q4k_factored_steps, q4k_mmq_steps, q4k_row_group, q8_batch_group, q8_row_group,
};
use crate::q6k::{
    lemma_step_column, q6k_row_lane, q6k_step_column, q6k_steps, Activation, ActivationRowView,
};
use crate::rows::blocks_in;

/// The weight of a lane of a Q4_K group.
pub open spec fn q4k_weight(w: Q4GroupView, lane: int, reading: Reading) -> int {
    (reading.half)(w.d) * w.scale * w.quants[lane] - (reading.half)(w.dmin) * w.min
}

/// The activation of a lane of a Q8_1 group.
pub open spec fn q8_activation(a: Q8GroupView, lane: int, reading: Reading) -> int {
    (reading.half)(a.d) * a.quants[lane]
}

/// The product of a lane of a group.
pub open spec fn q4k_products(w: Q4GroupView, a: Q8GroupView, reading: Reading) -> spec_fn(
    int,
) -> int {
    |lane: int| q4k_weight(w, lane, reading) * q8_activation(a, lane, reading)
}

/// The product of a column of a row of weights and a row of activations given by their groups.
pub open spec fn q4k_column_products(
    weights: spec_fn(int) -> Q4GroupView,
    activations: spec_fn(int) -> Q8GroupView,
    reading: Reading,
) -> spec_fn(int) -> int {
    |column: int|
        q4k_weight(weights(column / 32), column % 32, reading) * q8_activation(
            activations(column / 32),
            column % 32,
            reading,
        )
}

/// The stored sum of a group is the sum of its dequantized activations.
pub open spec fn has_exact_sum(a: Q8GroupView, reading: Reading) -> bool {
    (reading.half)(a.sum) == (reading.half)(a.d) * sum(|lane: int| a.quants[lane] as int, 32)
}

/// A step that dequantizes lane by lane adds the dot product of its group.
proof fn lemma_decode_step_value(w: Q4GroupView, a: Q8GroupView, reading: Reading)
    ensures
        step_value(decode_step(w, a), reading) == sum(q4k_products(w, a, reading), 32),
{
    let lanes = Seq::new(32, |lane: int| decode_lane(w, a, lane));
    let f = |l: int| value(lanes[l], reading);
    let g = q4k_products(w, a, reading);
    assert forall|l: int| 0 <= l < 32 implies #[trigger] f(l) == g(l) by {
        reveal_with_fuel(value, 6);
        assert(lanes[l] == decode_lane(w, a, l));
    }
    lemma_sum_equal(f, g, 32);
}

/// Taking the common factors out of the dot product of a group.
proof fn lemma_factored_sum(w: Q4GroupView, a: Q8GroupView, reading: Reading, n: int)
    requires
        0 <= n,
    ensures
        sum(q4k_products(w, a, reading), n) == (reading.half)(w.d) * w.scale * (reading.half)(a.d)
            * sum(dot_term(w.quants, a.quants), n) - (reading.half)(w.dmin) * w.min * (
        (reading.half)(a.d) * sum(|lane: int| a.quants[lane] as int, n)),
    decreases n,
{
    let d = (reading.half)(w.d) * w.scale;
    let m = (reading.half)(w.dmin) * w.min;
    let e = (reading.half)(a.d);
    let quants = |lane: int| a.quants[lane] as int;
    if n > 0 {
        lemma_factored_sum(w, a, reading, n - 1);
        let x = w.quants[n - 1] as int;
        let y = a.quants[n - 1] as int;
        let s = sum(dot_term(w.quants, a.quants), n - 1);
        let t = sum(quants, n - 1);
        assert(sum(quants, n) == t + y);
        assert(sum(dot_term(w.quants, a.quants), n) == s + x * y);
        assert((d * x - m) * (e * y) == d * x * (e * y) - m * (e * y)) by (nonlinear_arith);
        assert(d * x * (e * y) == d * e * (x * y)) by (nonlinear_arith);
        assert(d * e * (s + x * y) == d * e * s + d * e * (x * y)) by (nonlinear_arith);
        assert(e * (t + y) == e * t + e * y) by (nonlinear_arith);
        assert(m * (e * t + e * y) == m * (e * t) + m * (e * y)) by (nonlinear_arith);
    } else {
        assert(d * e * 0 - m * (e * 0) == 0) by (nonlinear_arith);
    }
}

/// A step that uses the stored sum adds the dot product of its group, if the sum is exact.
proof fn lemma_factored_step_value(w: Q4GroupView, a: Q8GroupView, reading: Reading)
    requires
        forall|l: int| 0 <= l < 32 ==> #[trigger] w.quants[l] < 16,
        has_exact_sum(a, reading),
    ensures
        step_value(factored_step(w, a), reading) == sum(q4k_products(w, a, reading), 32),
{
    reveal_with_fuel(value, 6);
    lemma_dot_bounds(w.quants, a.quants, 32);
    lemma_factored_sum(w, a, reading, 32);
}

/// The steps of a row add up to the products of all its columns.
proof fn lemma_row_value(
    steps: Seq<StepView>,
    weights: spec_fn(int) -> Q4GroupView,
    activations: spec_fn(int) -> Q8GroupView,
    reading: Reading,
)
    requires
        forall|i: int|
            0 <= i < steps.len() ==> step_value(#[trigger] steps[i], reading) == sum(
                q4k_products(weights(i), activations(i), reading),
                32,
            ),
    ensures
        steps_value(steps, reading) == sum(
            q4k_column_products(weights, activations, reading),
            32 * (steps.len() as int),
        ),
{
    let f = |i: int| step_value(steps[i], reading);
    let c = q4k_column_products(weights, activations, reading);
    let g = |i: int| sum_from(c, 32 * i, 32);
    assert forall|i: int| 0 <= i < steps.len() implies #[trigger] f(i) == g(i) by {
        let p = q4k_products(weights(i), activations(i), reading);
        let q = |l: int| c(32 * i + l);
        assert forall|l: int| 0 <= l < 32 implies #[trigger] p(l) == q(l) by {
            assert((32 * i + l) / 32 == i && (32 * i + l) % 32 == l);
        }
        lemma_sum_equal(p, q, 32);
        assert(step_value(steps[i], reading) == sum(p, 32));
    }
    lemma_sum_equal(f, g, steps.len() as int);
    lemma_sum_groups(c, 32, steps.len() as int);
}

/// The dot product of a row of weights and a row of Q8_1 blocks.
pub open spec fn q4k_row_product(
    q4: Seq<u8>,
    q8: Seq<u8>,
    blocks: int,
    row: int,
    row_base: int,
    reading: Reading,
) -> int {
    sum(
        q4k_column_products(
            |i: int| q4k_row_group(q4, blocks, row, i),
            |i: int| q8_row_group(q8, row_base, i),
            reading,
        ),
        256 * blocks,
    )
}

/// The dot product of a row of weights and a row of activations in the layout for matrix
/// products.
pub open spec fn q4k_mmq_product(
    q4: Seq<u8>,
    q8: Seq<u8>,
    blocks: int,
    row: int,
    b_size: int,
    batch: int,
    reading: Reading,
) -> int {
    sum(
        q4k_column_products(
            |i: int| q4k_row_group(q4, blocks, row, i),
            |i: int| q8_batch_group(q8, b_size, batch, i),
            reading,
        ),
        256 * blocks,
    )
}

/// Dequantized lane by lane, a row accumulates the dot product of the dequantized weights and
/// activations.
pub proof fn law_decode_is_dot_product(
    q4: Seq<u8>,
    q8: Seq<u8>,
    blocks: int,
    row: int,
    row_base: int,
    reading: Reading,
)
    requires
        0 <= blocks,
    ensures
        steps_value(q4k_decode_steps(q4, q8, blocks, row, row_base), reading) == q4k_row_product(
            q4,
            q8,
            blocks,
            row,
            row_base,
            reading,
        ),
{
    let steps = q4k_decode_steps(q4, q8, blocks, row, row_base);
    let weights = |i: int| q4k_row_group(q4, blocks, row, i);
    let activations = |i: int| q8_row_group(q8, row_base, i);
    assert forall|i: int| 0 <= i < steps.len() implies step_value(#[trigger] steps[i], reading)
        == sum(q4k_products(weights(i), activations(i), reading), 32) by {
        lemma_decode_step_value(weights(i), activations(i), reading);
    }
    lemma_row_value(steps, weights, activations, reading);
}

/// With exact stored sums, the factored form accumulates the same as dequantizing lane by lane.
pub proof fn law_factored_equals_decode(
    q4: Seq<u8>,
    q8: Seq<u8>,
    blocks: int,
    row: int,
    row_base: int,
    reading: Reading,
)
    requires
        0 <= blocks,
        forall|i: int|
            0 <= i < 8 * blocks ==> has_exact_sum(
                #[trigger] q8_row_group(q8, row_base, i),
                reading,
            ),
    ensures
        steps_value(q4k_factored_steps(q4, q8, blocks, row, row_base), reading) == steps_value(
            q4k_decode_steps(q4, q8, blocks, row, row_base),
            reading,
        ),
{
    law_decode_is_dot_product(q4, q8, blocks, row, row_base, reading);
    let steps = q4k_factored_steps(q4, q8, blocks, row, row_base);
    let weights = |i: int| q4k_row_group(q4, blocks, row, i);
    let activations = |i: int| q8_row_group(q8, row_base, i);
    assert forall|i: int| 0 <= i < steps.len() implies step_value(#[trigger] steps[i], reading)
        == sum(q4k_products(weights(i), activations(i), reading), 32) by {
        assert(has_exact_sum(q8_row_group(q8, row_base, i), reading));
        lemma_factored_step_value(weights(i), activations(i), reading);
    }
    lemma_row_value(steps, weights, activations, reading);
}

/// With exact stored sums, the matrix product kernels accumulate the dot product of the
/// dequantized weights and activations.
pub proof fn law_mmq_is_dot_product(
    q4: Seq<u8>,
    q8: Seq<u8>,
    blocks: int,
    row: int,
    b_size: int,
    batch: int,
    reading: Reading,
)
    requires
        0 <= blocks,
        forall|i: int|
            0 <= i < 8 * blocks ==> has_exact_sum(
                #[trigger] q8_batch_group(q8, b_size, batch, i),
                reading,
            ),
    ensures
        steps_value(q4k_mmq_steps(q4, q8, blocks, row, b_size, batch), reading) == q4k_mmq_product(
            q4,
            q8,
            blocks,
            row,
            b_size,
            batch,
            reading,
        ),
{
    let steps = q4k_mmq_steps(q4, q8, blocks, row, b_size, batch);
    let weights = |i: int| q4k_row_group(q4, blocks, row, i);
    let activations = |i: int| q8_batch_group(q8, b_size, batch, i);
    assert forall|i: int| 0 <= i < steps.len() implies step_value(#[trigger] steps[i], reading)
        == sum(q4k_products(weights(i), activations(i), reading), 32) by {
        assert(has_exact_sum(q8_batch_group(q8, b_size, batch, i), reading));
        lemma_factored_step_value(weights(i), activations(i), reading);
    }
    lemma_row_value(steps, weights, activations, reading);
}

/// The weight of a column of a row of Q6_K blocks.
pub open spec fn q6k_weight(
    q6: Seq<u8>,
    blocks: int,
    row: int,
    column: int,
    reading: Reading,
) -> int {
    let base = (row * blocks + column / 256) * 210;
    (reading.half)(q6k_d(q6, base)) * q6k_scale(q6, base, column % 256) * q6k_quant(
        q6,
        base,
        column % 256,
    )
}

/// An activation.
pub open spec fn activation_value(a: Activation, reading: Reading) -> int {
    value(a.d, reading) * a.quant
}

/// The product of a column of a row of weights and a row of activations.
pub open spec fn q6k_column_products(
    q6: Seq<u8>,
    q8: Seq<u8>,
    blocks: int,
    row: int,
    at: ActivationRowView,
    reading: Reading,
) -> spec_fn(int) -> int {
    |column: int|
        q6k_weight(q6, blocks, row, column, reading) * activation_value(
            at.activation(q8, column),
            reading,
        )
}

/// The value of a lane is the product of its column.
proof fn lemma_q6k_lane_value(
    q6: Seq<u8>,
    q8: Seq<u8>,
    blocks: int,
    row: int,
    at: ActivationRowView,
    reading: Reading,
    column: int,
)
    ensures
        value(q6k_row_lane(q6, q8, blocks, row, at, column), reading) == q6k_column_products(
            q6,
            q8,
            blocks,
            row,
            at,
            reading,
        )(column),
{
    reveal_with_fuel(value, 6);
    let base = (row * blocks + column / 256) * 210;
    let a = at.activation(q8, column);
    let weight = q6k_weight(q6, blocks, row, column, reading);
    let d = value(a.d, reading);
    let quant = a.quant as int;
    assert(weight * d * quant == weight * (d * quant)) by (nonlinear_arith);
    assert(-128 <= q6k_scale(q6, base, column % 256) < 128);
    assert(-32 <= q6k_quant(q6, base, column % 256) < 32);
}

/// Which four columns of a block a step takes.
spec fn quad_of(u: int) -> int {
    q6k_column(u / 2, u % 2, 0) / 4
}

/// The steps of a block take each four columns once.
proof fn lemma_quads(f: spec_fn(int) -> int)
    ensures
        sum(|u: int| f(quad_of(u)), 64) == sum(f, 64),
{
    let g = |u: int| f(quad_of(u));
    lemma_quad_run(f, 0, 0);
    lemma_quad_run(f, 0, 1);
    lemma_quad_run(f, 1, 0);
    lemma_quad_run(f, 1, 1);
    lemma_sum_split(g, 0, 16);
    lemma_sum_split(g, 16, 16);
    lemma_sum_split(g, 32, 16);
    lemma_sum_split(g, 48, 16);
    lemma_sum_split(f, 0, 8);
    lemma_sum_split(f, 8, 8);
    lemma_sum_split(f, 16, 8);
    lemma_sum_split(f, 24, 8);
    lemma_sum_split(f, 32, 8);
    lemma_sum_split(f, 40, 8);
    lemma_sum_split(f, 48, 8);
    lemma_sum_split(f, 56, 8);
}

/// Sixteen steps take two runs of 32 columns.
proof fn lemma_quad_run(f: spec_fn(int) -> int, half: int, run: int)
    requires
        0 <= half < 2,
        0 <= run < 2,
    ensures
        ({
            let first = 32 * half + 8 * run;
            let start = 32 * half + 16 * run;
            sum_from(|u: int| f(quad_of(u)), start, 16) == sum_from(f, first, 8) + sum_from(
                f,
                first + 16,
                8,
            )
        }),
{
    let first = 32 * half + 8 * run;
    let start = 32 * half + 16 * run;
    let of_step = |u: int| f(quad_of(u));
    let g = |u: int| of_step(start + u);
    let h = |u: int| if u % 2 == 0 { f(first + u / 2) } else { f(first + 16 + u / 2) };
    assert forall|u: int| 0 <= u < 16 implies #[trigger] g(u) == h(u) by {
        let t = start + u;
        let iqs = t / 2;
        assert(iqs == 16 * half + 8 * run + u / 2);
        assert(t % 2 == u % 2);
        assert(iqs / 16 == half && (iqs % 16) / 8 == run && iqs % 8 == u / 2);
        assert(quad_of(t) == 32 * half + 8 * (run + 2 * (u % 2)) + u / 2);
    }
    lemma_sum_equal(g, h, 16);
    lemma_sum_interleaved(f, first, first + 16, 8);
}

/// The steps of a block add up to the products of all its columns.
proof fn lemma_block_value(
    q6: Seq<u8>,
    q8: Seq<u8>,
    blocks: int,
    row: int,
    at: ActivationRowView,
    reading: Reading,
    block: int,
)
    requires
        0 <= block < blocks,
    ensures
        ({
            let steps = q6k_steps(q6, q8, blocks, row, at);
            let f = q6k_column_products(q6, q8, blocks, row, at, reading);
            sum_from(|t: int| step_value(steps[t], reading), 64 * block, 64) == sum_from(
                f,
                256 * block,
                256,
            )
        }),
{
    let steps = q6k_steps(q6, q8, blocks, row, at);
    let f = q6k_column_products(q6, q8, blocks, row, at, reading);
    let in_block = |c: int| f(256 * block + c);
    let quad = |k: int| sum_from(in_block, 4 * k, 4);
    let s = |t: int| step_value(steps[t], reading);
    let g = |u: int| s(64 * block + u);
    let h = |u: int| quad(quad_of(u));
    assert forall|u: int| 0 <= u < 64 implies #[trigger] g(u) == h(u) by {
        let t = 64 * block + u;
        assert(t / 64 == block && t % 64 == u);
        let lanes = Seq::new(
            4,
            |lane: int| q6k_row_lane(q6, q8, blocks, row, at, q6k_step_column(t, lane)),
        );
        assert(steps[t] == StepView::AddLanes(lanes));
        let p = |l: int| value(lanes[l], reading);
        let q = |l: int| in_block(4 * quad_of(u) + l);
        assert forall|l: int| 0 <= l < 4 implies #[trigger] p(l) == q(l) by {
            let column = q6k_step_column(t, l);
            lemma_step_column(t, l);
            assert(q6k_column(u / 2, u % 2, 0) % 4 == 0);
            assert(column == 256 * block + 4 * quad_of(u) + l);
            lemma_q6k_lane_value(q6, q8, blocks, row, at, reading, column);
        }
        lemma_sum_equal(p, q, 4);
        assert(quad(quad_of(u)) == sum(q, 4));
    }
    lemma_sum_equal(g, h, 64);
    lemma_quads(quad);
    lemma_sum_groups(in_block, 4, 64);
}

/// A row of Q6_K weights accumulates the dot product of the dequantized weights and activations:
/// the order of the steps takes every column once.
pub proof fn law_q6k_is_dot_product(
    q6: Seq<u8>,
    q8: Seq<u8>,
    blocks: int,
    row: int,
    at: ActivationRowView,
    reading: Reading,
)
    requires
        0 <= blocks,
    ensures
        steps_value(q6k_steps(q6, q8, blocks, row, at), reading) == sum(
            q6k_column_products(q6, q8, blocks, row, at, reading),
            256 * blocks,
        ),
{
    let steps = q6k_steps(q6, q8, blocks, row, at);
    let f = q6k_column_products(q6, q8, blocks, row, at, reading);
    let s = |t: int| step_value(steps[t], reading);
    let g = |b: int| sum_from(s, 64 * b, 64);
    let h = |b: int| sum_from(f, 256 * b, 256);
    assert forall|b: int| 0 <= b < blocks implies #[trigger] g(b) == h(b) by {
        lemma_block_value(q6, q8, blocks, row, at, reading, b);
    }
    lemma_sum_equal(g, h, blocks);
    lemma_sum_groups(s, 64, blocks);
    lemma_sum_groups(f, 256, blocks);
}

impl FwdRequest {
    /// The dequantized weight of a row and column.
    pub open spec fn weight(self, w: Seq<u8>, row: int, column: int, reading: Reading) -> int {
        let blocks = blocks_in(self.ncols());
        if self.w_dtype == GgmlDType::Q4K {
            q4k_weight(q4k_row_group(w, blocks, row, column / 32), column % 32, reading)
        } else {
            q6k_weight(w, blocks, row, column, reading)
        }
    }

    /// The dequantized activation of a row and column.
    pub open spec fn activation(
        self,
        q8: Seq<u8>,
        batch: int,
        column: int,
        reading: Reading,
    ) -> int {
        let row_base = batch * self.q8_row_stride_bytes();
        if self.w_dtype == GgmlDType::Q4K {
            let group = if self.uses_mmq() {
                q8_batch_group(q8, self.b_size(), batch, column / 32)
            } else {
                q8_row_group(q8, row_base, column / 32)
            };
            q8_activation(group, column % 32, reading)
        } else {
            let at = if self.uses_mmq() {
                ActivationRowView::Interleaved { b_size: self.b_size(), batch }
            } else {
                ActivationRowView::Blocks { row_base }
            };
            activation_value(at.activation(q8, column), reading)
        }
    }

    /// The stored sums that are used for a row of activations are exact.
    pub open spec fn has_exact_sums(self, q8: Seq<u8>, batch: int, reading: Reading) -> bool {
        self.w_dtype == GgmlDType::Q4K && self.uses_mmq() ==> forall|i: int|
            0 <= i < self.ncols() / 32 ==> has_exact_sum(
                #[trigger] q8_batch_group(q8, self.b_size(), batch, i),
                reading,
            )
    }
}

/// In exact arithmetic, and with exact stored sums where they are used, an output of a product is
/// the dot product of its row of dequantized weights and its row of dequantized activations.
pub proof fn law_product_is_matrix_product(
    request: FwdRequest,
    w: Seq<u8>,
    q8: Seq<u8>,
    row: int,
    batch: int,
    reading: Reading,
)
    requires
        request.fits_kernels(),
        request.has_exact_sums(q8, batch, reading),
    ensures
        steps_value(request.expected_steps(w, q8, row, batch), reading) == sum(
            |column: int|
                request.weight(w, row, column, reading) * request.activation(
                    q8,
                    batch,
                    column,
                    reading,
                ),
            request.ncols(),
        ),
{
    let blocks = blocks_in(request.ncols());
    let row_base = batch * request.q8_row_stride_bytes();
    let b_size = request.b_size();
    let f = |column: int|
        request.weight(w, row, column, reading) * request.activation(q8, batch, column, reading);
    assert(request.ncols() == 256 * blocks);
    if request.w_dtype == GgmlDType::Q4K {
        let weights = |i: int| q4k_row_group(w, blocks, row, i);
        if request.uses_mmq() {
            law_mmq_is_dot_product(w, q8, blocks, row, b_size, batch, reading);
            let g = q4k_column_products(
                weights,
                |i: int| q8_batch_group(q8, b_size, batch, i),
                reading,
            );
            lemma_sum_equal(f, g, request.ncols());
        } else {
            law_decode_is_dot_product(w, q8, blocks, row, row_base, reading);
            let g = q4k_column_products(
                weights,
                |i: int| q8_row_group(q8, row_base, i),
                reading,
            );
            lemma_sum_equal(f, g, request.ncols());
        }
    } else {
        let at = if request.uses_mmq() {
            ActivationRowView::Interleaved { b_size, batch }
        } else {
            ActivationRowView::Blocks { row_base }
        };
        law_q6k_is_dot_product(w, q8, blocks, row, at, reading);
        lemma_sum_equal(
            f,
            q6k_column_products(w, q8, blocks, row, at, reading),
            request.ncols(),
        );
    }
}

} // verus!
