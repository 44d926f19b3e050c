//! What a product is for: it multiplies stored matrices.
use vstd::prelude::*;

use crate::plan::{FwdRequest, GgmlDType, Quantize};
use crate::settings::Settings;

verus! {

use crate::arithmetic::{
    accumulated, half_quants, half_scales, holds_d4, holds_ds4, holds_q4k, holds_q6k, holds_q8,
    lemma_decoded, lemma_multiplied, lemma_q6k_mmq_row, lemma_q6k_row,
    lemma_stored_rows, q4k_decoded, q4k_multiplied,
    q6k_multiplied, result, single_quants, single_scales, Arithmetic,
};
use crate::plan::law_padding;
use crate::product::{law_outputs_are_expected, Place};
use crate::storage::{Q4Block, Q6Block, Q8Half, Q8Single};

/// The matrices of a product: the weights in the type that they have, and the quantized
/// activations with the scales of either precision.
pub struct Matrices {
    pub q4k: spec_fn(int, int) -> Q4Block,
    pub q6k: spec_fn(int, int) -> Q6Block,
    pub halves: spec_fn(int, int) -> Q8Half,
    pub singles: spec_fn(int, int) -> Q8Single,
}

/// A buffer holds the weights of a type.
pub open spec fn holds_weights(
    w: Seq<u8>,
    dtype: GgmlDType,
    m: Matrices,
    nrows: int,
    ncols: int,
) -> bool {
    if dtype == GgmlDType::Q4K {
        holds_q4k(w, m.q4k, nrows, ncols)
    } else {
        holds_q6k(w, m.q6k, nrows, ncols)
    }
}

/// A buffer holds what a quantizer writes that is given these arguments.
pub open spec fn holds_quantized(q8: Seq<u8>, quantize: Quantize, m: Matrices) -> bool {
    match quantize {
        Quantize::Q8_1 { ncols, ncols_padded, b_size } => holds_q8(
            q8,
            m.halves,
            b_size as int,
            (ncols_padded as int / 32) * 36,
        ),
        Quantize::MmqDs4(args) => holds_ds4(q8, m.halves, args.rows as int, args.columns as int),
        Quantize::MmqD4(args) => holds_d4(q8, m.singles, args.rows as int, args.columns as int),
    }
}

/// The product of a row of weights and a row of activations, rounding by rounding. Up to eight rows
/// of activations are decoded, more are multiplied.
pub open spec fn multiplied(
    dtype: GgmlDType,
    m: Matrices,
    ncols: int,
    b_size: int,
    row: int,
    batch: int,
    ar: Arithmetic,
) -> int {
    if dtype == GgmlDType::Q4K {
        if b_size <= 8 {
            q4k_decoded(m.q4k, m.halves, row, batch, ncols / 32, ar)
        } else {
            q4k_multiplied(m.q4k, m.halves, row, batch, ncols / 32, ar)
        }
    } else {
        if b_size <= 8 {
            q6k_multiplied(
                m.q6k,
                half_scales(m.halves, batch, ar),
                half_quants(m.halves, batch),
                row,
                ncols / 4,
                ar,
            )
        } else {
            q6k_multiplied(
                m.q6k,
                single_scales(m.singles, batch, ar),
                single_quants(m.singles, batch),
                row,
                ncols / 4,
                ar,
            )
        }
    }
}

/// Given the stored weights, and the activations as the planned quantizer stores them, what is
/// expected of an output is the product of its row of weights and its row of activations.
pub proof fn law_expected_output_is_product(
    request: FwdRequest,
    settings: Settings,
    w: Seq<u8>,
    q8: Seq<u8>,
    m: Matrices,
    row: int,
    batch: int,
    ar: Arithmetic,
)
    requires
        request.fits_kernels(),
        holds_weights(w, request.w_dtype, m, request.nrows(), request.ncols()),
        holds_quantized(q8, request.planned(settings).quantize, m),
        0 <= row < request.nrows(),
        0 <= batch < request.b_size(),
    ensures
        ({
            let steps = request.expected_output(w, q8, row + batch * request.nrows());
            accumulated(steps, steps.len() as int, ar) == multiplied(
                request.w_dtype,
                m,
                request.ncols(),
                request.b_size(),
                row,
                batch,
                ar,
            )
        }),
{
    let ncols = request.ncols();
    let nrows = request.nrows();
    let b_size = request.b_size();
    let padded = request.ncols_padded();
    let blocks = ncols / 256;
    let stride = request.q8_row_stride_bytes();
    law_padding(ncols, request.matrix_row_padding as int);
    assert(8 * blocks == ncols / 32 && 64 * blocks == ncols / 4);
    assert(padded <= i32::MAX);
    vstd::arithmetic::div_mod::lemma_fundamental_div_mod_converse(
        row + batch * nrows,
        nrows,
        batch,
        row,
    );
    if request.w_dtype == GgmlDType::Q4K {
        if b_size <= 8 {
            let groups = padded / 32;
            assert(stride == 36 * groups && stride / 36 == groups);
            lemma_stored_rows(q8, m.halves, b_size, groups, batch, 8 * blocks);
            lemma_decoded(
                w,
                q8,
                m.q4k,
                m.halves,
                nrows,
                blocks,
                row,
                batch,
                batch * stride,
                8 * blocks,
                ar,
            );
        } else {
            lemma_multiplied(
                w,
                q8,
                m.q4k,
                m.halves,
                nrows,
                blocks,
                b_size,
                padded / 128,
                row,
                batch,
                8 * blocks,
                ar,
            );
        }
    } else {
        if b_size <= 8 {
            let groups = padded / 32;
            assert(stride == 36 * groups && stride / 36 == groups);
            lemma_stored_rows(q8, m.halves, b_size, groups, batch, 8 * blocks);
            lemma_q6k_row(
                w,
                q8,
                m.q6k,
                m.halves,
                nrows,
                blocks,
                row,
                batch,
                batch * stride,
                ar,
            );
        } else {
            lemma_q6k_mmq_row(
                w,
                q8,
                m.q6k,
                m.singles,
                nrows,
                blocks,
                b_size,
                padded / 128,
                row,
                batch,
                ar,
            );
        }
    }
}

/// Given the stored weights, and the activations as the planned quantizer stores them, every output
/// that a program of a planned launch stores is the product of its row of weights and its row of
/// activations.
pub proof fn law_launches_multiply_matrices(
    request: FwdRequest,
    settings: Settings,
    w: Seq<u8>,
    q8: Seq<u8>,
    m: Matrices,
    place: Place,
    ar: Arithmetic,
)
    requires
        request.fits_kernels(),
        holds_weights(w, request.w_dtype, m, request.nrows(), request.ncols()),
        holds_quantized(q8, request.planned(settings).quantize, m),
        request.has_place(settings, w, q8, place),
    ensures
        ({
            let output = request.output_at(settings, w, q8, place);
            let row = output.index % request.nrows();
            let batch = output.index / request.nrows();
            &&& 0 <= batch < request.b_size()
            &&& result(output, ar) == multiplied(
                request.w_dtype,
                m,
                request.ncols(),
                request.b_size(),
                row,
                batch,
                ar,
            )
        }),
{
    law_outputs_are_expected(request, settings, w, q8, place);
    let output = request.output_at(settings, w, q8, place);
    let nrows = request.nrows();
    let row = output.index % nrows;
    let batch = output.index / nrows;
    vstd::arithmetic::div_mod::lemma_fundamental_div_mod(output.index, nrows);
    assert(nrows * batch == batch * nrows) by (nonlinear_arith);
    law_expected_output_is_product(request, settings, w, q8, m, row, batch, ar);
}

} // verus!
