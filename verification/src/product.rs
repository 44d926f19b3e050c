//! What the launches of a planned product compute together.
use vstd::prelude::*;

use crate::expr::{Output, Step};
use crate::launch::Launch;
use crate::plan::{try_fwd, FwdPlan, FwdRequest, GgmlDType};
use crate::settings::Settings;

verus! {

use crate::expr::{views, OutputView, StepView};
use crate::launch::Kernel;
use crate::plan::law_padding;
use crate::q4k::{q4k_decode_steps, q4k_mmq_steps};
use crate::q6k::{q6k_steps, ActivationRowView};
use crate::rows::{
    blocks_in, lemma_row_reachable, q8_batch_reachable, q8_row_reachable, reachable,
};

/// A place where a product stores an output: an output of a program of one of its launches.
pub struct Place {
    pub tail: bool,
    pub x: int,
    pub y: int,
    pub output: int,
}

impl Kernel {
    /// How many rows of weights a program covers.
    pub open spec fn tile_rows(self) -> int {
        match self {
            Kernel::Q4kMatvecB1Rows4 { .. } => 4,
            Kernel::Q4kMmqMatmulTiled { .. } => 4,
            Kernel::Q4kMmqMatmulMmai { .. } => 16,
            Kernel::Q6kMatvecB1Rows4 { .. } => 4,
            Kernel::Q6kMatvecB1Rows8 { .. } => 8,
            _ => 1,
        }
    }

    /// How many rows of activations a program covers.
    pub open spec fn tile_batches(self) -> int {
        match self {
            Kernel::Q4kMmqMatmulTiled { .. } => 4,
            Kernel::Q4kMmqMatmulMmai { .. } => 16,
            _ => 1,
        }
    }

    /// The first row of activations that the programs cover.
    pub open spec fn first_batch(self) -> int {
        match self {
            Kernel::Q4kMmqMatmulTiled { batch_start, .. } => batch_start as int,
            Kernel::Q4kMmqMatmulMmai { batch_start, .. } => batch_start as int,
            _ => 0,
        }
    }
}

impl FwdRequest {
    /// The product is taken on, and its sizes fit the arguments of the kernels.
    pub open spec fn fits_kernels(self) -> bool {
        &&& self.has_kernels()
        &&& self.self_dims@.len() == 2
        &&& self.is_taken()
        &&& 0 < self.matrix_row_padding
        &&& self.nrows() <= i32::MAX
        &&& self.ncols() <= i32::MAX
        &&& self.b_size() <= i32::MAX
        &&& self.q8_row_stride_bytes() <= i32::MAX
    }

    /// What is accumulated for a row of weights and a row of activations, whichever kernels run.
    pub open spec fn expected_steps(self, w: Seq<u8>, q8: Seq<u8>, row: int, batch: int) -> Seq<
        StepView,
    > {
        let blocks = blocks_in(self.ncols());
        let row_base = batch * self.q8_row_stride_bytes();
        if self.w_dtype == GgmlDType::Q4K {
            if self.uses_mmq() {
                q4k_mmq_steps(w, q8, blocks, row, self.b_size(), batch)
            } else {
                q4k_decode_steps(w, q8, blocks, row, row_base)
            }
        } else {
            let at = if self.uses_mmq() {
                ActivationRowView::Interleaved { b_size: self.b_size(), batch }
            } else {
                ActivationRowView::Blocks { row_base }
            };
            q6k_steps(w, q8, blocks, row, at)
        }
    }

    /// One of the two launches.
    pub open spec fn launch(self, settings: Settings, tail: bool) -> Launch {
        if tail {
            self.tail_launch(settings)->0
        } else {
            self.main_launch(settings)
        }
    }

    /// The outputs of a program of one of the launches.
    pub open spec fn program_outputs(
        self,
        settings: Settings,
        w: Seq<u8>,
        q8: Seq<u8>,
        tail: bool,
        x: int,
        y: int,
    ) -> Seq<OutputView> {
        self.launch(settings, tail).kernel.outputs(w, q8, (x as i32, y as i32))
    }

    /// Whether a launch has a program.
    pub open spec fn has_program(self, settings: Settings, tail: bool, x: int, y: int) -> bool {
        let launch = self.launch(settings, tail);
        &&& tail ==> self.tail_launch(settings) is Some
        &&& 0 <= x < launch.grid.0
        &&& 0 <= y < launch.grid.1
    }

    /// Whether a place exists.
    pub open spec fn has_place(
        self,
        settings: Settings,
        w: Seq<u8>,
        q8: Seq<u8>,
        place: Place,
    ) -> bool {
        &&& self.has_program(settings, place.tail, place.x, place.y)
        &&& 0 <= place.output < self.program_outputs(
            settings,
            w,
            q8,
            place.tail,
            place.x,
            place.y,
        ).len()
    }

    /// The output at a place.
    pub open spec fn output_at(
        self,
        settings: Settings,
        w: Seq<u8>,
        q8: Seq<u8>,
        place: Place,
    ) -> OutputView {
        self.program_outputs(settings, w, q8, place.tail, place.x, place.y)[place.output]
    }
}

/// The row of weights and the row of activations of an output of a program.
pub open spec fn tile_row(kernel: Kernel, x: int, output: int) -> int {
    kernel.tile_rows() * x + output % kernel.tile_rows()
}

/// The row of activations of an output of a program.
pub open spec fn tile_batch(kernel: Kernel, y: int, output: int) -> int {
    kernel.first_batch() + kernel.tile_batches() * y + output / kernel.tile_rows()
}

/// The tiles of a launch cover all rows of weights, and the rows of activations that the launch is
/// for.
#[verifier::spinoff_prover]
proof fn lemma_grid(request: FwdRequest, settings: Settings, tail: bool)
    requires
        request.fits_kernels(),
        tail ==> request.tail_launch(settings) is Some,
    ensures
        ({
            let launch = request.launch(settings, tail);
            let kernel = launch.kernel;
            &&& kernel.tile_rows() * launch.grid.0 == request.nrows()
            &&& kernel.first_batch() == (if tail {
                request.main_b_size(settings)
            } else {
                0
            })
            &&& kernel.first_batch() + kernel.tile_batches() * launch.grid.1 == (if tail {
                request.b_size()
            } else {
                request.main_b_size(settings)
            })
        }),
{
    assert(0 <= request.b_size()) by {
        if request.rhs_dims@.len() == 3 {
            assert(0 <= request.rhs_dims@[0] * request.rhs_dims@[1]) by (nonlinear_arith);
        }
    }
}

/// A program stores a full tile, and accumulates what is expected of each output.
#[verifier::spinoff_prover]
proof fn lemma_program(
    request: FwdRequest,
    settings: Settings,
    w: Seq<u8>,
    q8: Seq<u8>,
    tail: bool,
    x: int,
    y: int,
)
    requires
        request.fits_kernels(),
        request.has_program(settings, tail, x, y),
    ensures
        ({
            let launch = request.launch(settings, tail);
            let kernel = launch.kernel;
            let outputs = request.program_outputs(settings, w, q8, tail, x, y);
            &&& outputs.len() == kernel.tile_rows() * kernel.tile_batches()
            &&& forall|o: int|
                0 <= o < outputs.len() ==> {
                    let row = tile_row(kernel, x, o);
                    let batch = tile_batch(kernel, y, o);
                    &&& (#[trigger] outputs[o]).index == row + batch * request.nrows()
                    &&& outputs[o].steps == request.expected_steps(w, q8, row, batch)
                }
        }),
{
    lemma_grid(request, settings, tail);
    let launch = request.launch(settings, tail);
    let kernel = launch.kernel;
    let outputs = request.program_outputs(settings, w, q8, tail, x, y);
    assert(0 * request.q8_row_stride_bytes() == 0);
    assert(0 * request.nrows() == 0);
    assert(0 <= y <= i32::MAX && 0 <= x <= i32::MAX);
    match kernel {
        Kernel::Q4kMatvecB1 { .. } => {
            assert(outputs.len() == 1);
        },
        Kernel::Q4kMatvecB1Rows4 { .. } => {
            assert(outputs.len() == 4);
        },
        Kernel::Q4kMatmulBatched { .. } => {
            assert(outputs.len() == 1);
        },
        Kernel::Q4kMmqMatmulBatched { .. } => {
            assert(outputs.len() == 1);
        },
        Kernel::Q4kMmqMatmulTiled { .. } => {
            assert(outputs.len() == 16);
        },
        Kernel::Q4kMmqMatmulMmai { .. } => {
            assert(outputs.len() == 256);
        },
        Kernel::Q6kMatvecB1 { .. } => {
            assert(outputs.len() == 1);
        },
        Kernel::Q6kMatvecB1Rows4 { .. } => {
            assert(outputs.len() == 4);
        },
        Kernel::Q6kMatvecB1Rows8 { .. } => {
            assert(outputs.len() == 8);
        },
        Kernel::Q6kMatmulBatched { .. } => {
            assert(outputs.len() == 1);
        },
        Kernel::Q6kMmqMatmulBatched { .. } => {
            assert(outputs.len() == 1);
        },
    }
}

/// The row of weights and the row of activations of an output of a program exist.
#[verifier::spinoff_prover]
proof fn lemma_tile_in_range(
    request: FwdRequest,
    settings: Settings,
    tail: bool,
    x: int,
    y: int,
    output: int,
)
    requires
        request.fits_kernels(),
        request.has_program(settings, tail, x, y),
        ({
            let kernel = request.launch(settings, tail).kernel;
            0 <= output < kernel.tile_rows() * kernel.tile_batches()
        }),
    ensures
        ({
            let kernel = request.launch(settings, tail).kernel;
            let row = tile_row(kernel, x, output);
            let batch = tile_batch(kernel, y, output);
            &&& 0 <= row < request.nrows()
            &&& 0 <= batch < request.b_size()
            &&& tail <==> batch >= request.main_b_size(settings)
            &&& x == row / kernel.tile_rows()
            &&& y == (batch - kernel.first_batch()) / kernel.tile_batches()
            &&& output == ((batch - kernel.first_batch()) % kernel.tile_batches())
                * kernel.tile_rows() + row % kernel.tile_rows()
        }),
{
    lemma_grid(request, settings, tail);
    let launch = request.launch(settings, tail);
    let kernel = launch.kernel;
    let rows = kernel.tile_rows();
    let batches = kernel.tile_batches();
    assert(rows == 1 || rows == 4 || rows == 8 || rows == 16);
    assert(batches == 1 || batches == 4 || batches == 16);
    assert(batches != 1 ==> batches == rows);
    if rows == 1 {
        assert(output == 0);
    } else if rows == 4 {
        assert(batches == 1 || batches == 4);
    } else if rows == 8 {
        assert(batches == 1);
    } else {
        assert(batches == 16);
    }
}

/// Whatever kernels run: every output that a product stores is that of a row of weights and a row
/// of activations, and accumulates what is expected of it. The settings have no part in it. The
/// second launch stores the outputs of the rows of activations that the first one leaves.
pub proof fn law_outputs_are_expected(
    request: FwdRequest,
    settings: Settings,
    w: Seq<u8>,
    q8: Seq<u8>,
    place: Place,
)
    requires
        request.fits_kernels(),
        request.has_place(settings, w, q8, place),
    ensures
        ({
            let output = request.output_at(settings, w, q8, place);
            let row = output.index % request.nrows();
            let batch = output.index / request.nrows();
            &&& 0 <= output.index < request.nrows() * request.b_size()
            &&& 0 <= row < request.nrows()
            &&& 0 <= batch < request.b_size()
            &&& output.steps == request.expected_steps(w, q8, row, batch)
            &&& place.tail <==> batch >= request.main_b_size(settings)
        }),
{
    lemma_program(request, settings, w, q8, place.tail, place.x, place.y);
    lemma_tile_in_range(request, settings, place.tail, place.x, place.y, place.output);
    let kernel = request.launch(settings, place.tail).kernel;
    let row = tile_row(kernel, place.x, place.output);
    let batch = tile_batch(kernel, place.y, place.output);
    lemma_index(row, batch, request.nrows(), request.b_size());
}

/// The index of an output tells its row and batch.
proof fn lemma_index(row: int, batch: int, nrows: int, b_size: int)
    requires
        0 <= row < nrows,
        0 <= batch < b_size,
    ensures
        0 <= row + batch * nrows < nrows * b_size,
        (row + batch * nrows) % nrows == row,
        (row + batch * nrows) / nrows == batch,
{
    assert(0 <= batch * nrows && batch * nrows + nrows <= nrows * b_size) by (nonlinear_arith)
        requires
            0 <= batch,
            batch + 1 <= b_size,
            0 < nrows,
    ;
    vstd::arithmetic::div_mod::lemma_fundamental_div_mod_converse(
        row + batch * nrows,
        nrows,
        batch,
        row,
    );
}

/// The place of a row of weights and a row of activations.
pub open spec fn place_of(request: FwdRequest, settings: Settings, row: int, batch: int) -> Place {
    let tail = batch >= request.main_b_size(settings);
    let kernel = request.launch(settings, tail).kernel;
    let local = batch - kernel.first_batch();
    Place {
        tail,
        x: row / kernel.tile_rows(),
        y: local / kernel.tile_batches(),
        output: (local % kernel.tile_batches()) * kernel.tile_rows() + row % kernel.tile_rows(),
    }
}

/// The place of a row of weights and a row of activations stores their output.
proof fn lemma_place_of(
    request: FwdRequest,
    settings: Settings,
    w: Seq<u8>,
    q8: Seq<u8>,
    row: int,
    batch: int,
)
    requires
        request.fits_kernels(),
        0 <= row < request.nrows(),
        0 <= batch < request.b_size(),
    ensures
        ({
            let place = place_of(request, settings, row, batch);
            &&& request.has_place(settings, w, q8, place)
            &&& request.output_at(settings, w, q8, place).index == row + batch * request.nrows()
        }),
{
    let place = place_of(request, settings, row, batch);
    let tail = place.tail;
    assert(tail ==> request.tail_launch(settings) is Some);
    lemma_grid(request, settings, tail);
    let launch = request.launch(settings, tail);
    let kernel = launch.kernel;
    let rows = kernel.tile_rows();
    let batches = kernel.tile_batches();
    let local = batch - kernel.first_batch();
    lemma_tile(rows, batches, launch.grid.0 as int, launch.grid.1 as int, row, local);
    lemma_program(request, settings, w, q8, tail, place.x, place.y);
}

/// Cutting rows into tiles.
proof fn lemma_tile(rows: int, batches: int, width: int, height: int, row: int, local: int)
    requires
        0 < rows,
        0 < batches,
        0 <= row < rows * width,
        0 <= local < batches * height,
    ensures
        ({
            let output = (local % batches) * rows + row % rows;
            &&& 0 <= row / rows < width
            &&& 0 <= local / batches < height
            &&& 0 <= output < rows * batches
            &&& rows * (row / rows) + output % rows == row
            &&& batches * (local / batches) + output / rows == local
        }),
{
    let rest = row % rows;
    let lead = local % batches;
    vstd::arithmetic::div_mod::lemma_fundamental_div_mod(row, rows);
    vstd::arithmetic::div_mod::lemma_fundamental_div_mod(local, batches);
    assert(0 <= row / rows < width) by (nonlinear_arith)
        requires
            0 < rows,
            0 <= row < rows * width,
            row == rows * (row / rows) + row % rows,
            0 <= row % rows < rows,
    ;
    assert(0 <= local / batches < height) by (nonlinear_arith)
        requires
            0 < batches,
            0 <= local < batches * height,
            local == batches * (local / batches) + local % batches,
            0 <= local % batches < batches,
    ;
    assert(0 <= lead * rows + rest < rows * batches) by (nonlinear_arith)
        requires
            0 <= rest < rows,
            0 <= lead < batches,
    ;
    vstd::arithmetic::div_mod::lemma_fundamental_div_mod_converse(
        lead * rows + rest,
        rows,
        lead,
        rest,
    );
}

/// Every output of a product is stored exactly once, by one program of one of its launches.
pub proof fn law_every_output_is_stored_once(
    request: FwdRequest,
    settings: Settings,
    w: Seq<u8>,
    q8: Seq<u8>,
    index: int,
)
    requires
        request.fits_kernels(),
        0 <= index < request.nrows() * request.b_size(),
    ensures
        exists|place: Place|
            request.has_place(settings, w, q8, place) && #[trigger] request.output_at(
                settings,
                w,
                q8,
                place,
            ).index == index,
        forall|a: Place, b: Place|
            request.has_place(settings, w, q8, a) && request.has_place(settings, w, q8, b)
                && #[trigger] request.output_at(settings, w, q8, a).index == index
                && #[trigger] request.output_at(settings, w, q8, b).index == index ==> a == b,
{
    let nrows = request.nrows();
    let row = index % nrows;
    let batch = index / nrows;
    assert(0 < nrows) by {
        if nrows == 0 {
            assert(0 * request.b_size() == 0);
        }
    }
    vstd::arithmetic::div_mod::lemma_fundamental_div_mod(index, nrows);
    assert(nrows * batch == batch * nrows) by (nonlinear_arith);
    assert(0 <= batch < request.b_size()) by {
        let b_size = request.b_size();
        assert(0 <= batch < b_size) by (nonlinear_arith)
            requires
                0 <= index < nrows * b_size,
                0 < nrows,
                index == nrows * batch + row,
                0 <= row < nrows,
        ;
    }
    lemma_place_of(request, settings, w, q8, row, batch);
    assert forall|a: Place, b: Place|
        request.has_place(settings, w, q8, a) && request.has_place(settings, w, q8, b)
            && #[trigger] request.output_at(settings, w, q8, a).index == index
            && #[trigger] request.output_at(settings, w, q8, b).index == index implies a == b by {
        lemma_only_place(request, settings, w, q8, a);
        lemma_only_place(request, settings, w, q8, b);
    }
}

/// A place is the place of the row of weights and the row of activations of its output.
proof fn lemma_only_place(
    request: FwdRequest,
    settings: Settings,
    w: Seq<u8>,
    q8: Seq<u8>,
    place: Place,
)
    requires
        request.fits_kernels(),
        request.has_place(settings, w, q8, place),
    ensures
        ({
            let index = request.output_at(settings, w, q8, place).index;
            place == place_of(
                request,
                settings,
                index % request.nrows(),
                index / request.nrows(),
            )
        }),
{
    lemma_program(request, settings, w, q8, place.tail, place.x, place.y);
    lemma_tile_in_range(request, settings, place.tail, place.x, place.y, place.output);
    let kernel = request.launch(settings, place.tail).kernel;
    let row = tile_row(kernel, place.x, place.output);
    let batch = tile_batch(kernel, place.y, place.output);
    lemma_index(row, batch, request.nrows(), request.b_size());
}

impl FwdRequest {
    /// Bytes of a block of weights.
    pub open spec fn block_bytes(self) -> int {
        if self.w_dtype == GgmlDType::Q4K {
            144
        } else {
            210
        }
    }

    /// The buffers hold the weights and the quantized activations, 32 bit offsets reach all of
    /// them, and 32 bit indices all outputs.
    pub open spec fn fits_buffers(self, w_len: int, q8_len: int) -> bool {
        &&& self.fits_kernels()
        &&& reachable(self.nrows() * blocks_in(self.ncols()) * self.block_bytes(), w_len)
        &&& reachable(self.b_size() * self.q8_row_stride_bytes(), q8_len)
        &&& self.nrows() * self.b_size() <= i32::MAX
    }
}

/// The rows of activations lie within the buffer for them.
proof fn lemma_activations_reachable(request: FwdRequest, q8_len: int, batch: int)
    requires
        request.fits_kernels(),
        reachable(request.b_size() * request.q8_row_stride_bytes(), q8_len),
        0 <= batch < request.b_size(),
    ensures
        ({
            let blocks = blocks_in(request.ncols());
            if request.uses_mmq() {
                q8_batch_reachable(q8_len, blocks, request.b_size(), batch)
            } else {
                q8_row_reachable(q8_len, blocks, batch * request.q8_row_stride_bytes())
            }
        }),
{
    let blocks = blocks_in(request.ncols());
    let b_size = request.b_size();
    let stride = request.q8_row_stride_bytes();
    law_padding(request.ncols(), request.matrix_row_padding as int);
    if request.uses_mmq() {
        assert(blocks * 2 * 144 <= stride);
        assert(((2 * blocks - 1) * b_size + batch + 1) * 144 <= b_size * stride)
            by (nonlinear_arith)
            requires
                0 <= blocks,
                batch + 1 <= b_size,
                0 < b_size,
                blocks * 2 * 144 <= stride,
        ;
    } else {
        assert(blocks * 8 * 36 <= stride);
        assert(0 <= batch * stride && batch * stride + stride <= b_size * stride)
            by (nonlinear_arith)
            requires
                0 <= batch,
                batch + 1 <= b_size,
                0 <= stride,
        ;
    }
}

/// The shapes of tiles.
proof fn lemma_tile_shape(kernel: Kernel)
    ensures
        ({
            let rows = kernel.tile_rows();
            let batches = kernel.tile_batches();
            let last = rows * batches - 1;
            &&& 0 <= last
            &&& last % rows == rows - 1
            &&& last / rows == batches - 1
        }),
{
    let rows = kernel.tile_rows();
    let batches = kernel.tile_batches();
    assert(rows >= 1 && batches >= 1);
    assert(rows * batches - 1 == (batches - 1) * rows + (rows - 1) && 0 <= rows * batches - 1)
        by (nonlinear_arith)
        requires
            rows >= 1,
            batches >= 1,
    ;
    vstd::arithmetic::div_mod::lemma_fundamental_div_mod_converse(
        rows * batches - 1,
        rows,
        batches - 1,
        rows - 1,
    );
}

/// Given buffers of the planned sizes, every program of every launch reads within them.
#[verifier::spinoff_prover]
pub proof fn law_programs_read_within_buffers(
    request: FwdRequest,
    settings: Settings,
    w_len: int,
    q8_len: int,
    tail: bool,
    x: int,
    y: int,
)
    requires
        request.fits_buffers(w_len, q8_len),
        request.has_program(settings, tail, x, y),
    ensures
        request.launch(settings, tail).kernel.reachable(w_len, q8_len, (x as i32, y as i32)),
{
    lemma_grid(request, settings, tail);
    let kernel = request.launch(settings, tail).kernel;
    let last = kernel.tile_rows() * kernel.tile_batches() - 1;
    lemma_tile_shape(kernel);
    lemma_tile_in_range(request, settings, tail, x, y, last);
    let row = tile_row(kernel, x, last);
    let batch = tile_batch(kernel, y, last);
    assert(row == kernel.tile_rows() * x + kernel.tile_rows() - 1);
    assert(batch == kernel.first_batch() + kernel.tile_batches() * y + kernel.tile_batches() - 1);
    lemma_row_reachable(
        w_len,
        blocks_in(request.ncols()),
        row,
        request.nrows() - 1,
        request.block_bytes(),
    );
    lemma_activations_reachable(request, q8_len, batch);
    lemma_index(row, batch, request.nrows(), request.b_size());
    assert(0 * request.q8_row_stride_bytes() == 0);
    let pid = (x as i32, y as i32);
    assert(0 <= x <= i32::MAX && 0 <= y <= i32::MAX);
    match kernel {
        Kernel::Q4kMatvecB1 { .. } => {
            assert(kernel.reachable(w_len, q8_len, pid));
        },
        Kernel::Q4kMatvecB1Rows4 { .. } => {
            assert(kernel.reachable(w_len, q8_len, pid));
        },
        Kernel::Q4kMatmulBatched { .. } => {
            assert(kernel.reachable(w_len, q8_len, pid));
        },
        Kernel::Q4kMmqMatmulBatched { .. } => {
            assert(kernel.reachable(w_len, q8_len, pid));
        },
        Kernel::Q4kMmqMatmulTiled { .. } => {
            assert(kernel.reachable(w_len, q8_len, pid));
        },
        Kernel::Q4kMmqMatmulMmai { .. } => {
            assert(kernel.reachable(w_len, q8_len, pid));
        },
        Kernel::Q6kMatvecB1 { .. } => {
            assert(kernel.reachable(w_len, q8_len, pid));
        },
        Kernel::Q6kMatvecB1Rows4 { .. } => {
            assert(kernel.reachable(w_len, q8_len, pid));
        },
        Kernel::Q6kMatvecB1Rows8 { .. } => {
            assert(kernel.reachable(w_len, q8_len, pid));
        },
        Kernel::Q6kMatmulBatched { .. } => {
            assert(kernel.reachable(w_len, q8_len, pid));
        },
        Kernel::Q6kMmqMatmulBatched { .. } => {
            assert(kernel.reachable(w_len, q8_len, pid));
        },
    }
}

impl FwdRequest {
    /// What is accumulated for the output with an index.
    pub open spec fn expected_output(self, w: Seq<u8>, q8: Seq<u8>, index: int) -> Seq<StepView> {
        self.expected_steps(w, q8, index % self.nrows(), index / self.nrows())
    }
}

/// Decides whether the programs of a planned product read within their buffers.
pub fn buffers_fit(request: &FwdRequest, plan: &FwdPlan, w_len: usize, q8_len: usize) -> (r: bool)
    requires
        request.has_kernels(),
        request.self_dims@.len() == 2,
        request.is_taken(),
        request.fits(),
        plan.nrows == request.nrows(),
        plan.ncols == request.ncols(),
        plan.b_size == request.b_size(),
        plan.q8_row_stride_bytes == request.q8_row_stride_bytes(),
    ensures
        r == request.fits_buffers(w_len as int, q8_len as int),
{
    let limit: usize = i32::MAX as usize;
    if plan.nrows > limit || plan.ncols > limit || plan.b_size > limit || plan.q8_row_stride_bytes
        > limit {
        return false;
    }
    let block_bytes: u64 = match request.w_dtype {
        GgmlDType::Q4K => 144,
        _ => 210,
    };
    let blocks: u64 = plan.ncols as u64 / 256;
    let rows: u64 = plan.nrows as u64;
    let batches: u64 = plan.b_size as u64;
    let stride: u64 = plan.q8_row_stride_bytes as u64;
    proof {
        lemma_product_bound(rows as int, blocks as int, 0x8000_0000, 0x80_0000);
        lemma_product_bound(batches as int, stride as int, 0x8000_0000, 0x8000_0000);
        lemma_product_bound(rows as int, batches as int, 0x8000_0000, 0x8000_0000);
    }
    let w_bytes: u64 = rows * blocks * block_bytes;
    let q8_bytes: u64 = batches * stride;
    let outputs: u64 = rows * batches;
    let limit: u64 = i32::MAX as u64;
    w_bytes <= w_len as u64 && w_bytes <= limit && q8_bytes <= q8_len as u64 && q8_bytes <= limit
        && outputs <= limit
}

/// A product of bounded numbers.
proof fn lemma_product_bound(a: int, b: int, a_end: int, b_end: int)
    requires
        0 <= a <= a_end,
        0 <= b <= b_end,
    ensures
        0 <= a * b <= a_end * b_end,
{
    assert(0 <= a * b <= a_end * b_end) by (nonlinear_arith)
        requires
            0 <= a <= a_end,
            0 <= b <= b_end,
    ;
}

/// An entry of the outputs is what is expected of it.
spec fn is_done(
    request: FwdRequest,
    w: Seq<u8>,
    q8: Seq<u8>,
    out: Seq<Vec<Step>>,
    index: int,
) -> bool {
    views(out[index]@) == request.expected_output(w, q8, index)
}

/// All outputs of a program are what is expected of them.
spec fn is_program_done(
    request: FwdRequest,
    settings: Settings,
    w: Seq<u8>,
    q8: Seq<u8>,
    out: Seq<Vec<Step>>,
    tail: bool,
    x: int,
    y: int,
) -> bool {
    forall|o: int|
        #![trigger request.program_outputs(settings, w, q8, tail, x, y)[o]]
        0 <= o < request.program_outputs(settings, w, q8, tail, x, y).len() ==> is_done(
            request,
            w,
            q8,
            out,
            request.program_outputs(settings, w, q8, tail, x, y)[o].index,
        )
}

/// Runs a program and stores its outputs.
fn store_program(
    request: &FwdRequest,
    settings: &Settings,
    launch: &Launch,
    tail: bool,
    w: &[u8],
    q8: &[u8],
    x: u32,
    y: u32,
    out: &mut Vec<Vec<Step>>,
)
    requires
        request.fits_buffers(w.len() as int, q8.len() as int),
        request.has_program(*settings, tail, x as int, y as int),
        *launch == request.launch(*settings, tail),
        old(out)@.len() == request.nrows() * request.b_size(),
    ensures
        final(out)@.len() == old(out)@.len(),
        forall|i: int|
            0 <= i < old(out)@.len() && is_done(*request, w@, q8@, old(out)@, i)
                ==> #[trigger] is_done(*request, w@, q8@, final(out)@, i),
        is_program_done(*request, *settings, w@, q8@, final(out)@, tail, x as int, y as int),
{
    proof {
        lemma_grid(*request, *settings, tail);
        law_programs_read_within_buffers(
            *request,
            *settings,
            w.len() as int,
            q8.len() as int,
            tail,
            x as int,
            y as int,
        );
    }
    let mut outputs: Vec<Output> = launch.kernel.run(w, q8, (x as i32, y as i32));
    let ghost expected = request.program_outputs(*settings, w@, q8@, tail, x as int, y as int);
    let ghost start = out@;
    proof {
        assert(views(outputs@) == expected);
        assert forall|o: int| 0 <= o < expected.len() implies (#[trigger] outputs@[o])@
            == expected[o] && 0 <= expected[o].index < start.len() && expected[o].steps
            == request.expected_output(w@, q8@, expected[o].index) by {
            let place = Place { tail, x: x as int, y: y as int, output: o };
            law_outputs_are_expected(*request, *settings, w@, q8@, place);
            assert(views(outputs@)[o] == expected[o]);
        }
    }
    while outputs.len() > 0
        invariant
            outputs@.len() <= expected.len(),
            out@.len() == start.len(),
            forall|o: int| 0 <= o < outputs@.len() ==> (#[trigger] outputs@[o])@ == expected[o],
            forall|o: int|
                0 <= o < expected.len() ==> 0 <= (#[trigger] expected[o]).index < start.len()
                    && expected[o].steps == request.expected_output(w@, q8@, expected[o].index),
            forall|i: int|
                0 <= i < start.len() && is_done(*request, w@, q8@, start, i)
                    ==> #[trigger] is_done(*request, w@, q8@, out@, i),
            forall|o: int|
                outputs@.len() <= o < expected.len() ==> is_done(
                    *request,
                    w@,
                    q8@,
                    out@,
                    (#[trigger] expected[o]).index,
                ),
        decreases outputs@.len(),
    {
        let ghost before = out@;
        let ghost last = outputs@.len() - 1;
        let output = outputs.pop();
        if let Some(output) = output {
            assert(output@ == expected[last]);
            let index: usize = output.index as usize;
            out.set(index, output.steps);
            assert forall|i: int| 0 <= i < start.len() && is_done(*request, w@, q8@, before, i)
                implies #[trigger] is_done(*request, w@, q8@, out@, i) by {}
        }
    }
}

/// Runs all programs of a launch and stores their outputs.
fn store_launch(
    request: &FwdRequest,
    settings: &Settings,
    launch: &Launch,
    tail: bool,
    w: &[u8],
    q8: &[u8],
    out: &mut Vec<Vec<Step>>,
)
    requires
        request.fits_buffers(w.len() as int, q8.len() as int),
        tail ==> request.tail_launch(*settings) is Some,
        *launch == request.launch(*settings, tail),
        old(out)@.len() == request.nrows() * request.b_size(),
    ensures
        final(out)@.len() == old(out)@.len(),
        forall|i: int|
            0 <= i < old(out)@.len() && is_done(*request, w@, q8@, old(out)@, i)
                ==> #[trigger] is_done(*request, w@, q8@, final(out)@, i),
        forall|x: int, y: int|
            request.has_program(*settings, tail, x, y) ==> #[trigger] is_program_done(
                *request,
                *settings,
                w@,
                q8@,
                final(out)@,
                tail,
                x,
                y,
            ),
{
    let ghost start = out@;
    let mut y: u32 = 0;
    while y < launch.grid.1
        invariant
            y <= launch.grid.1,
            request.fits_buffers(w.len() as int, q8.len() as int),
            tail ==> request.tail_launch(*settings) is Some,
            *launch == request.launch(*settings, tail),
            start.len() == request.nrows() * request.b_size(),
            out@.len() == start.len(),
            forall|i: int|
                0 <= i < start.len() && is_done(*request, w@, q8@, start, i)
                    ==> #[trigger] is_done(*request, w@, q8@, out@, i),
            forall|a: int, b: int|
                request.has_program(*settings, tail, a, b) && b < y
                    ==> #[trigger] is_program_done(*request, *settings, w@, q8@, out@, tail, a, b),
        decreases launch.grid.1 - y,
    {
        let mut x: u32 = 0;
        while x < launch.grid.0
            invariant
                x <= launch.grid.0,
                y < launch.grid.1,
                request.fits_buffers(w.len() as int, q8.len() as int),
                tail ==> request.tail_launch(*settings) is Some,
                *launch == request.launch(*settings, tail),
                start.len() == request.nrows() * request.b_size(),
                out@.len() == start.len(),
                forall|i: int|
                    0 <= i < start.len() && is_done(*request, w@, q8@, start, i)
                        ==> #[trigger] is_done(*request, w@, q8@, out@, i),
                forall|a: int, b: int|
                    request.has_program(*settings, tail, a, b) && (b < y || b == y && a < x)
                        ==> #[trigger] is_program_done(
                        *request,
                        *settings,
                        w@,
                        q8@,
                        out@,
                        tail,
                        a,
                        b,
                    ),
            decreases launch.grid.0 - x,
        {
            let ghost before = out@;
            store_program(request, settings, launch, tail, w, q8, x, y, out);
            proof {
                assert forall|a: int, b: int|
                    request.has_program(*settings, tail, a, b) && (b < y || b == y && a < x
                        + 1) implies #[trigger] is_program_done(
                    *request,
                    *settings,
                    w@,
                    q8@,
                    out@,
                    tail,
                    a,
                    b,
                ) by {
                    if b < y || a < x {
                        assert(is_program_done(
                            *request,
                            *settings,
                            w@,
                            q8@,
                            before,
                            tail,
                            a,
                            b,
                        ));
                        lemma_program_stays_done(
                            *request,
                            *settings,
                            w@,
                            q8@,
                            before,
                            out@,
                            tail,
                            a,
                            b,
                        );
                    }
                }
            }
            x = x + 1;
        }
        y = y + 1;
    }
}

/// What is done stays done while entries that are done stay done.
proof fn lemma_program_stays_done(
    request: FwdRequest,
    settings: Settings,
    w: Seq<u8>,
    q8: Seq<u8>,
    before: Seq<Vec<Step>>,
    after: Seq<Vec<Step>>,
    tail: bool,
    x: int,
    y: int,
)
    requires
        request.fits_kernels(),
        request.has_program(settings, tail, x, y),
        before.len() == request.nrows() * request.b_size(),
        is_program_done(request, settings, w, q8, before, tail, x, y),
        forall|i: int|
            0 <= i < before.len() && is_done(request, w, q8, before, i) ==> #[trigger] is_done(
                request,
                w,
                q8,
                after,
                i,
            ),
    ensures
        is_program_done(request, settings, w, q8, after, tail, x, y),
{
    let expected = request.program_outputs(settings, w, q8, tail, x, y);
    assert forall|o: int|
        #![trigger request.program_outputs(settings, w, q8, tail, x, y)[o]]
        0 <= o < expected.len() implies is_done(request, w, q8, after, expected[o].index) by {
        law_outputs_are_expected(
            request,
            settings,
            w,
            q8,
            Place { tail, x, y, output: o },
        );
        assert(is_done(request, w, q8, before, expected[o].index));
    }
}

/// Runs a product that is taken on: every output is what is expected of it.
pub fn run_product(request: &FwdRequest, settings: &Settings, w: &[u8], q8: &[u8]) -> (r: Vec<
    Vec<Step>,
>)
    requires
        request.fits_buffers(w.len() as int, q8.len() as int),
    ensures
        r@.len() == request.nrows() * request.b_size(),
        forall|index: int|
            0 <= index < r@.len() ==> views((#[trigger] r@[index])@) == request.expected_output(
                w@,
                q8@,
                index,
            ),
{
    let mut out: Vec<Vec<Step>> = Vec::new();
    if let Ok(Some(plan)) = try_fwd(request, settings) {
        while out.len() < plan.out_len
            invariant
                out@.len() <= plan.out_len,
            decreases plan.out_len - out@.len(),
        {
            out.push(Vec::new());
        }
        store_launch(request, settings, &plan.main, false, w, q8, &mut out);
        let ghost before = out@;
        if let Some(tail) = &plan.tail {
            store_launch(request, settings, tail, true, w, q8, &mut out);
        }
        proof {
            assert forall|index: int| 0 <= index < out@.len() implies views(
                (#[trigger] out@[index])@,
            ) == request.expected_output(w@, q8@, index) by {
                law_every_output_is_stored_once(*request, *settings, w@, q8@, index);
                let place = choose|place: Place|
                    request.has_place(*settings, w@, q8@, place) && #[trigger] request.output_at(
                        *settings,
                        w@,
                        q8@,
                        place,
                    ).index == index;
                if place.tail {
                    assert(is_program_done(
                        *request,
                        *settings,
                        w@,
                        q8@,
                        out@,
                        true,
                        place.x,
                        place.y,
                    ));
                } else {
                    assert(is_program_done(
                        *request,
                        *settings,
                        w@,
                        q8@,
                        before,
                        false,
                        place.x,
                        place.y,
                    ));
                    assert(is_done(*request, w@, q8@, before, index));
                }
                assert(is_done(*request, w@, q8@, out@, index));
            }
        }
    }
    out
}

/// Buffers fit exactly if the weights have their whole blocks, the scratch buffer has a row of
/// quantized activations for every row, and 32 bits reach all bytes and all outputs.
pub proof fn law_buffers_that_fit(
    request: FwdRequest,
    settings: Settings,
    w_len: int,
    q8_len: int,
)
    requires
        request.has_kernels(),
        request.self_dims@.len() == 2,
        request.is_taken(),
        0 < request.matrix_row_padding,
    ensures
        request.fits_buffers(w_len, q8_len) <==> {
            let plan = request.planned(settings);
            let w_bytes = if request.w_dtype == GgmlDType::Q4K {
                plan.nrows * (plan.ncols / 256) * 144
            } else {
                plan.nrows * (plan.ncols / 256) * 210
            };
            &&& plan.nrows <= i32::MAX
            &&& plan.ncols <= i32::MAX
            &&& plan.b_size <= i32::MAX
            &&& plan.q8_row_stride_bytes <= i32::MAX
            &&& plan.out_len <= i32::MAX
            &&& w_bytes <= i32::MAX
            &&& w_bytes <= w_len
            &&& plan.scratch_bytes <= i32::MAX
            &&& plan.scratch_bytes <= q8_len
        },
{
}

} // verus!
