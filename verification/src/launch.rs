//! The kernels as values: with which arguments they are launched, and what their programs store.
use vstd::prelude::*;

use crate::expr::Output;
use crate::q4k::{
    q4k_q8_1_matmul_batched_f32, q4k_q8_1_matvec_b1_f32, q4k_q8_1_matvec_b1_rows4_f32,
    q4k_q8_1_mmq_matmul_batched_f32, q4k_q8_1_mmq_matmul_mmai_16x16_f32,
    q4k_q8_1_mmq_matmul_tiled_f32,
};
use crate::q6k::{
    q6k_q8_1_matmul_batched_f32, q6k_q8_1_matvec_b1_f32, q6k_q8_1_matvec_b1_rows4_f32,
    q6k_q8_1_matvec_b1_rows8_f32, q6k_q8_1_mmq_matmul_batched_f32,
};

verus! {

use crate::expr::{views, OutputView};
use crate::q4k::{
    q4k_matmul_batched_outputs, q4k_matmul_batched_reachable, q4k_matvec_b1_outputs,
    q4k_matvec_b1_reachable, q4k_matvec_b1_rows4_outputs, q4k_matvec_b1_rows4_reachable,
    q4k_mmq_matmul_batched_outputs, q4k_mmq_matmul_batched_reachable, q4k_mmq_matmul_mmai_outputs,
    q4k_mmq_matmul_mmai_reachable, q4k_mmq_matmul_tiled_outputs, q4k_mmq_matmul_tiled_reachable,
};
use crate::q6k::{
    interleaved_row, q6k_batched_outputs, q6k_batched_reachable, q6k_matvec_rows_outputs,
    q6k_matvec_rows_reachable, strided_row,
};

/// A kernel and the arguments it takes besides its buffers.
#[derive(Debug, Clone, Copy, PartialEq, Eq, Structural)]
pub enum Kernel {
    Q4kMatvecB1 { ncols: i32, nrows: i32 },
    Q4kMatvecB1Rows4 { ncols: i32, nrows: i32 },
    Q4kMatmulBatched { ncols: i32, nrows: i32, b_size: i32, q8_row_stride_bytes: i32 },
    Q4kMmqMatmulBatched { ncols: i32, nrows: i32, b_size: i32, q8_row_stride_bytes: i32 },
    Q4kMmqMatmulTiled { ncols: i32, nrows: i32, b_size: i32, batch_start: i32 },
    Q4kMmqMatmulMmai { ncols: i32, nrows: i32, b_size: i32, batch_start: i32 },
    Q6kMatvecB1 { ncols: i32, nrows: i32 },
    Q6kMatvecB1Rows4 { ncols: i32, nrows: i32 },
    Q6kMatvecB1Rows8 { ncols: i32, nrows: i32 },
    Q6kMatmulBatched { ncols: i32, nrows: i32, b_size: i32, q8_row_stride_bytes: i32 },
    Q6kMmqMatmulBatched { ncols: i32, nrows: i32, b_size: i32, q8_row_stride_bytes: i32 },
}

/// Where the time of a launch is reported.
#[derive(Debug, Clone, Copy, PartialEq, Eq, Structural)]
pub enum TimingSlot {
    Q4kMmaiMain,
    Q4kMmaiTail,
    Q4kScalarMmq,
    Q4kTiledMmq,
    Q4kMatvecB1Rows4,
    Q6kMmq,
    Q6kMatvecB1Rows4,
    Q6kMatvecB1Rows8,
}

/// A kernel, the grid of programs that run it, and where its time is reported, if it is taken.
#[derive(Debug, Clone, Copy, PartialEq, Eq)]
pub struct Launch {
    pub kernel: Kernel,
    pub grid: (u32, u32, u32),
    pub timing: Option<TimingSlot>,
}

impl Kernel {
    /// What a program of the kernel stores.
    pub open spec fn outputs(self, w: Seq<u8>, q8: Seq<u8>, pid: (i32, i32)) -> Seq<OutputView> {
        match self {
            Kernel::Q4kMatvecB1 { ncols, nrows } => q4k_matvec_b1_outputs(
                w,
                q8,
                ncols as int,
                nrows as int,
                pid,
            ),
            Kernel::Q4kMatvecB1Rows4 { ncols, nrows } => q4k_matvec_b1_rows4_outputs(
                w,
                q8,
                ncols as int,
                nrows as int,
                pid,
            ),
            Kernel::Q4kMatmulBatched {
                ncols,
                nrows,
                b_size,
                q8_row_stride_bytes,
            } => q4k_matmul_batched_outputs(
                w,
                q8,
                ncols as int,
                nrows as int,
                b_size as int,
                q8_row_stride_bytes as int,
                pid,
            ),
            Kernel::Q4kMmqMatmulBatched {
                ncols,
                nrows,
                b_size,
                ..
            } => q4k_mmq_matmul_batched_outputs(
                w,
                q8,
                ncols as int,
                nrows as int,
                b_size as int,
                pid,
            ),
            Kernel::Q4kMmqMatmulTiled {
                ncols,
                nrows,
                b_size,
                batch_start,
            } => q4k_mmq_matmul_tiled_outputs(
                w,
                q8,
                ncols as int,
                nrows as int,
                b_size as int,
                batch_start as int,
                pid,
            ),
            Kernel::Q4kMmqMatmulMmai {
                ncols,
                nrows,
                b_size,
                batch_start,
            } => q4k_mmq_matmul_mmai_outputs(
                w,
                q8,
                ncols as int,
                nrows as int,
                b_size as int,
                batch_start as int,
                pid,
            ),
            Kernel::Q6kMatvecB1 { ncols, nrows } => q6k_matvec_rows_outputs(
                w,
                q8,
                ncols as int,
                nrows as int,
                1,
                pid,
            ),
            Kernel::Q6kMatvecB1Rows4 { ncols, nrows } => q6k_matvec_rows_outputs(
                w,
                q8,
                ncols as int,
                nrows as int,
                4,
                pid,
            ),
            Kernel::Q6kMatvecB1Rows8 { ncols, nrows } => q6k_matvec_rows_outputs(
                w,
                q8,
                ncols as int,
                nrows as int,
                8,
                pid,
            ),
            Kernel::Q6kMatmulBatched {
                ncols,
                nrows,
                b_size,
                q8_row_stride_bytes,
            } => q6k_batched_outputs(
                w,
                q8,
                ncols as int,
                nrows as int,
                b_size as int,
                strided_row(q8_row_stride_bytes as int, pid),
                pid,
            ),
            Kernel::Q6kMmqMatmulBatched { ncols, nrows, b_size, .. } => q6k_batched_outputs(
                w,
                q8,
                ncols as int,
                nrows as int,
                b_size as int,
                interleaved_row(b_size as int, pid),
                pid,
            ),
        }
    }

    /// Whether a program of the kernel can read what it needs.
    pub open spec fn reachable(self, w_len: int, q8_len: int, pid: (i32, i32)) -> bool {
        match self {
            Kernel::Q4kMatvecB1 { ncols, nrows } => q4k_matvec_b1_reachable(
                w_len,
                q8_len,
                ncols as int,
                nrows as int,
                pid,
            ),
            Kernel::Q4kMatvecB1Rows4 { ncols, nrows } => q4k_matvec_b1_rows4_reachable(
                w_len,
                q8_len,
                ncols as int,
                nrows as int,
                pid,
            ),
            Kernel::Q4kMatmulBatched {
                ncols,
                nrows,
                b_size,
                q8_row_stride_bytes,
            } => q4k_matmul_batched_reachable(
                w_len,
                q8_len,
                ncols as int,
                nrows as int,
                b_size as int,
                q8_row_stride_bytes as int,
                pid,
            ),
            Kernel::Q4kMmqMatmulBatched {
                ncols,
                nrows,
                b_size,
                ..
            } => q4k_mmq_matmul_batched_reachable(
                w_len,
                q8_len,
                ncols as int,
                nrows as int,
                b_size as int,
                pid,
            ),
            Kernel::Q4kMmqMatmulTiled {
                ncols,
                nrows,
                b_size,
                batch_start,
            } => q4k_mmq_matmul_tiled_reachable(
                w_len,
                q8_len,
                ncols as int,
                nrows as int,
                b_size as int,
                batch_start as int,
                pid,
            ),
            Kernel::Q4kMmqMatmulMmai {
                ncols,
                nrows,
                b_size,
                batch_start,
            } => q4k_mmq_matmul_mmai_reachable(
                w_len,
                q8_len,
                ncols as int,
                nrows as int,
                b_size as int,
                batch_start as int,
                pid,
            ),
            Kernel::Q6kMatvecB1 { ncols, nrows } => q6k_matvec_rows_reachable(
                w_len,
                q8_len,
                ncols as int,
                nrows as int,
                1,
                pid,
            ),
            Kernel::Q6kMatvecB1Rows4 { ncols, nrows } => q6k_matvec_rows_reachable(
                w_len,
                q8_len,
                ncols as int,
                nrows as int,
                4,
                pid,
            ),
            Kernel::Q6kMatvecB1Rows8 { ncols, nrows } => q6k_matvec_rows_reachable(
                w_len,
                q8_len,
                ncols as int,
                nrows as int,
                8,
                pid,
            ),
            Kernel::Q6kMatmulBatched {
                ncols,
                nrows,
                b_size,
                q8_row_stride_bytes,
            } => q6k_batched_reachable(
                w_len,
                q8_len,
                ncols as int,
                nrows as int,
                b_size as int,
                strided_row(q8_row_stride_bytes as int, pid),
                pid,
            ),
            Kernel::Q6kMmqMatmulBatched { ncols, nrows, b_size, .. } => q6k_batched_reachable(
                w_len,
                q8_len,
                ncols as int,
                nrows as int,
                b_size as int,
                interleaved_row(b_size as int, pid),
                pid,
            ),
        }
    }

    /// The name of the kernel.
    pub open spec fn kernel_name(self) -> Seq<char> {
        match self {
            Kernel::Q4kMatvecB1 { .. } => "q4k_q8_1_matvec_b1_f32"@,
            Kernel::Q4kMatvecB1Rows4 { .. } => "q4k_q8_1_matvec_b1_rows4_f32"@,
            Kernel::Q4kMatmulBatched { .. } => "q4k_q8_1_matmul_batched_f32"@,
            Kernel::Q4kMmqMatmulBatched { .. } => "q4k_q8_1_mmq_matmul_batched_f32"@,
            Kernel::Q4kMmqMatmulTiled { .. } => "q4k_q8_1_mmq_matmul_tiled_f32"@,
            Kernel::Q4kMmqMatmulMmai { .. } => "q4k_q8_1_mmq_matmul_mmai_16x16_f32"@,
            Kernel::Q6kMatvecB1 { .. } => "q6k_q8_1_matvec_b1_f32"@,
            Kernel::Q6kMatvecB1Rows4 { .. } => "q6k_q8_1_matvec_b1_rows4_f32"@,
            Kernel::Q6kMatvecB1Rows8 { .. } => "q6k_q8_1_matvec_b1_rows8_f32"@,
            Kernel::Q6kMatmulBatched { .. } => "q6k_q8_1_matmul_batched_f32"@,
            Kernel::Q6kMmqMatmulBatched { .. } => "q6k_q8_1_mmq_matmul_batched_f32"@,
        }
    }

    /// Tells the name of the kernel.
    pub fn name(&self) -> (r: &'static str)
        ensures
            r@ == self.kernel_name(),
    {
        match *self {
            Kernel::Q4kMatvecB1 { .. } => "q4k_q8_1_matvec_b1_f32",
            Kernel::Q4kMatvecB1Rows4 { .. } => "q4k_q8_1_matvec_b1_rows4_f32",
            Kernel::Q4kMatmulBatched { .. } => "q4k_q8_1_matmul_batched_f32",
            Kernel::Q4kMmqMatmulBatched { .. } => "q4k_q8_1_mmq_matmul_batched_f32",
            Kernel::Q4kMmqMatmulTiled { .. } => "q4k_q8_1_mmq_matmul_tiled_f32",
            Kernel::Q4kMmqMatmulMmai { .. } => "q4k_q8_1_mmq_matmul_mmai_16x16_f32",
            Kernel::Q6kMatvecB1 { .. } => "q6k_q8_1_matvec_b1_f32",
            Kernel::Q6kMatvecB1Rows4 { .. } => "q6k_q8_1_matvec_b1_rows4_f32",
            Kernel::Q6kMatvecB1Rows8 { .. } => "q6k_q8_1_matvec_b1_rows8_f32",
            Kernel::Q6kMatmulBatched { .. } => "q6k_q8_1_matmul_batched_f32",
            Kernel::Q6kMmqMatmulBatched { .. } => "q6k_q8_1_mmq_matmul_batched_f32",
        }
    }

    /// Runs a program of the kernel.
    pub fn run(&self, w: &[u8], q8: &[u8], pid: (i32, i32)) -> (r: Vec<Output>)
        requires
            self.reachable(w.len() as int, q8.len() as int, pid),
        ensures
            views(r@) == self.outputs(w@, q8@, pid),
    {
        match *self {
            Kernel::Q4kMatvecB1 { ncols, nrows } => q4k_q8_1_matvec_b1_f32(
                w,
                q8,
                ncols,
                nrows,
                pid,
            ),
            Kernel::Q4kMatvecB1Rows4 { ncols, nrows } => q4k_q8_1_matvec_b1_rows4_f32(
                w,
                q8,
                ncols,
                nrows,
                pid,
            ),
            Kernel::Q4kMatmulBatched {
                ncols,
                nrows,
                b_size,
                q8_row_stride_bytes,
            } => q4k_q8_1_matmul_batched_f32(
                w,
                q8,
                ncols,
                nrows,
                b_size,
                q8_row_stride_bytes,
                pid,
            ),
            Kernel::Q4kMmqMatmulBatched {
                ncols,
                nrows,
                b_size,
                q8_row_stride_bytes,
            } => q4k_q8_1_mmq_matmul_batched_f32(
                w,
                q8,
                ncols,
                nrows,
                b_size,
                q8_row_stride_bytes,
                pid,
            ),
            Kernel::Q4kMmqMatmulTiled {
                ncols,
                nrows,
                b_size,
                batch_start,
            } => q4k_q8_1_mmq_matmul_tiled_f32(
                w,
                q8,
                ncols,
                nrows,
                b_size,
                batch_start,
                pid,
            ),
            Kernel::Q4kMmqMatmulMmai {
                ncols,
                nrows,
                b_size,
                batch_start,
            } => q4k_q8_1_mmq_matmul_mmai_16x16_f32(
                w,
                q8,
                ncols,
                nrows,
                b_size,
                batch_start,
                pid,
            ),
            Kernel::Q6kMatvecB1 { ncols, nrows } => q6k_q8_1_matvec_b1_f32(
                w,
                q8,
                ncols,
                nrows,
                pid,
            ),
            Kernel::Q6kMatvecB1Rows4 { ncols, nrows } => q6k_q8_1_matvec_b1_rows4_f32(
                w,
                q8,
                ncols,
                nrows,
                pid,
            ),
            Kernel::Q6kMatvecB1Rows8 { ncols, nrows } => q6k_q8_1_matvec_b1_rows8_f32(
                w,
                q8,
                ncols,
                nrows,
                pid,
            ),
            Kernel::Q6kMatmulBatched {
                ncols,
                nrows,
                b_size,
                q8_row_stride_bytes,
            } => q6k_q8_1_matmul_batched_f32(
                w,
                q8,
                ncols,
                nrows,
                b_size,
                q8_row_stride_bytes,
                pid,
            ),
            Kernel::Q6kMmqMatmulBatched {
                ncols,
                nrows,
                b_size,
                q8_row_stride_bytes,
            } => q6k_q8_1_mmq_matmul_batched_f32(
                w,
                q8,
                ncols,
                nrows,
                b_size,
                q8_row_stride_bytes,
                pid,
            ),
        }
    }
}

/// Kernels go by the names of their functions, whatever their arguments.
pub proof fn law_kernel_names(kernel: Kernel)
    ensures
        kernel is Q4kMatvecB1 ==> kernel.kernel_name() == "q4k_q8_1_matvec_b1_f32"@,
        kernel is Q4kMatvecB1Rows4 ==> kernel.kernel_name() == "q4k_q8_1_matvec_b1_rows4_f32"@,
        kernel is Q4kMatmulBatched ==> kernel.kernel_name() == "q4k_q8_1_matmul_batched_f32"@,
        kernel is Q4kMmqMatmulBatched ==> kernel.kernel_name()
            == "q4k_q8_1_mmq_matmul_batched_f32"@,
        kernel is Q4kMmqMatmulTiled ==> kernel.kernel_name() == "q4k_q8_1_mmq_matmul_tiled_f32"@,
        kernel is Q4kMmqMatmulMmai ==> kernel.kernel_name()
            == "q4k_q8_1_mmq_matmul_mmai_16x16_f32"@,
        kernel is Q6kMatvecB1 ==> kernel.kernel_name() == "q6k_q8_1_matvec_b1_f32"@,
        kernel is Q6kMatvecB1Rows4 ==> kernel.kernel_name() == "q6k_q8_1_matvec_b1_rows4_f32"@,
        kernel is Q6kMatvecB1Rows8 ==> kernel.kernel_name() == "q6k_q8_1_matvec_b1_rows8_f32"@,
        kernel is Q6kMatmulBatched ==> kernel.kernel_name() == "q6k_q8_1_matmul_batched_f32"@,
        kernel is Q6kMmqMatmulBatched ==> kernel.kernel_name()
            == "q6k_q8_1_mmq_matmul_batched_f32"@,
{
}

} // verus!
