//! Which kernels a product of quantized weights and activations is made of.
use vstd::prelude::*;

use crate::blocks::{
    Q8_1_BLOCK_BYTES, Q8_1_BLOCK_SIZE, Q8_1_MMQ_BLOCK_BYTES, Q8_1_MMQ_BLOCK_SIZE, QK_K,
};
use crate::launch::{Kernel, Launch, TimingSlot};
use crate::settings::Settings;

verus! {

/// The type of quantized weights, as far as the kernels tell them apart.
#[derive(Debug, Clone, Copy, PartialEq, Eq, Structural)]
pub enum GgmlDType {
    Q4K,
    Q6K,
    Other,
}

/// The type of activations, as far as the kernels tell them apart.
#[derive(Debug, Clone, Copy, PartialEq, Eq, Structural)]
pub enum DType {
    F32,
    Other,
}

/// A product to be planned.
#[derive(Debug)]
pub struct FwdRequest {
    /// The type of the weights.
    pub w_dtype: GgmlDType,
    /// The type of the activations.
    pub rhs_dtype: DType,
    /// The dimensions of the weights.
    pub self_dims: Vec<usize>,
    /// The dimensions of the activations.
    pub rhs_dims: Vec<usize>,
    /// First and last offset of the activations, where they are contiguous.
    pub contiguous_offsets: Option<(usize, usize)>,
    /// To how many columns rows of activations are padded.
    pub matrix_row_padding: usize,
}

/// Why a product cannot be planned.
#[derive(Debug, Clone, Copy, PartialEq, Eq)]
pub enum FwdError {
    /// The weights are not a matrix.
    UnexpectedNumberOfDims { expected: usize, got: usize },
}

/// How the activations are quantized, and the arguments the quantizing kernel takes besides its
/// buffers.
#[derive(Debug, Clone, Copy, PartialEq, Eq)]
pub enum Quantize {
    /// Q8_1 blocks.
    Q8_1 { ncols: i32, ncols_padded: i32, b_size: i32 },
    /// Q8_1 blocks for matrix products with half precision scales and sums.
    MmqDs4(MmqArgs),
    /// Q8_1 blocks for matrix products with single precision scales.
    MmqD4(MmqArgs),
}

/// The arguments of the quantizing kernels for matrix products: the type tag of the weights, the
/// columns and strides of the source, and the dimensions of the result.
#[derive(Debug, Clone, Copy, PartialEq, Eq)]
pub struct MmqArgs {
    pub type_tag: i32,
    pub source_columns: i64,
    pub source_stride_1: i64,
    pub source_stride_2: i64,
    pub source_stride_3: i64,
    pub columns: i64,
    pub rows: i64,
    pub channels: i64,
    pub samples: i64,
}

/// A planned product.
#[derive(Debug)]
pub struct FwdPlan {
    pub nrows: usize,
    pub ncols: usize,
    pub b_size: usize,
    /// First and last offset of the activations.
    pub rhs_range: (usize, usize),
    pub ncols_padded: usize,
    pub q8_row_stride_bytes: usize,
    /// Bytes of the quantized activations.
    pub scratch_bytes: usize,
    /// Number of outputs.
    pub out_len: usize,
    pub quantize: Quantize,
    /// The launch that runs first, and how many rows of activations it covers.
    pub main: Launch,
    pub main_b_size: usize,
    /// The launch that covers the remaining rows of activations, if there are any.
    pub tail: Option<Launch>,
    pub tail_b_size: usize,
    pub out_shape: Vec<usize>,
}

/// The mathematical model of a [`FwdPlan`].
#[verifier::ext_equal]
pub struct FwdPlanView {
    pub nrows: int,
    pub ncols: int,
    pub b_size: int,
    pub rhs_range: (usize, usize),
    pub ncols_padded: int,
    pub q8_row_stride_bytes: int,
    pub scratch_bytes: int,
    pub out_len: int,
    pub quantize: Quantize,
    pub main: Launch,
    pub main_b_size: int,
    pub tail: Option<Launch>,
    pub tail_b_size: int,
    pub out_shape: Seq<usize>,
}

impl View for FwdPlan {
    type V = FwdPlanView;

    open spec fn view(&self) -> FwdPlanView {
        FwdPlanView {
            nrows: self.nrows as int,
            ncols: self.ncols as int,
            b_size: self.b_size as int,
            rhs_range: self.rhs_range,
            ncols_padded: self.ncols_padded as int,
            q8_row_stride_bytes: self.q8_row_stride_bytes as int,
            scratch_bytes: self.scratch_bytes as int,
            out_len: self.out_len as int,
            quantize: self.quantize,
            main: self.main,
            main_b_size: self.main_b_size as int,
            tail: self.tail,
            tail_b_size: self.tail_b_size as int,
            out_shape: self.out_shape@,
        }
    }
}

/// The least multiple of `q` that is not less than `p`.
pub open spec fn padded(p: int, q: int) -> int {
    if p % q == 0 {
        p
    } else {
        p - p % q + q
    }
}

/// Computes [`padded`].
pub fn pad(p: usize, q: usize) -> (r: usize)
    requires
        0 < q,
        padded(p as int, q as int) <= usize::MAX,
    ensures
        r == padded(p as int, q as int),
{
    let rest: usize = p % q;
    assert(p % q <= p) by (nonlinear_arith)
        requires
            0 < q,
    ;
    if rest == 0 {
        p
    } else {
        p - rest + q
    }
}

/// Padding gives the only multiple of `q` from `p` up to `p + q - 1`.
pub proof fn law_padding(p: int, q: int)
    requires
        0 <= p,
        0 < q,
    ensures
        padded(p, q) % q == 0,
        p <= padded(p, q) < p + q,
        forall|r: int| p <= r < p + q && #[trigger] (r % q) == 0 ==> r == padded(p, q),
{
    let r = padded(p, q);
    vstd::arithmetic::div_mod::lemma_mod_bound(p, q);
    vstd::arithmetic::div_mod::lemma_fundamental_div_mod(p, q);
    if p % q != 0 {
        assert(r == q * (p / q + 1)) by (nonlinear_arith)
            requires
                r == p - p % q + q,
                p == q * (p / q) + p % q,
        ;
        vstd::arithmetic::div_mod::lemma_mod_multiples_basic(p / q + 1, q);
        assert((p / q + 1) * q == q * (p / q + 1)) by (nonlinear_arith);
    }
    assert forall|s: int| p <= s < p + q && #[trigger] (s % q) == 0 implies s == r by {
        vstd::arithmetic::div_mod::lemma_fundamental_div_mod(s, q);
        vstd::arithmetic::div_mod::lemma_fundamental_div_mod(r, q);
        let a = s / q;
        let b = r / q;
        assert(a == b) by (nonlinear_arith)
            requires
                0 < q,
                s == q * a,
                r == q * b,
                -q < s - r < q,
        ;
    }
}

impl FwdRequest {
    /// Rows of weights.
    pub open spec fn nrows(self) -> int {
        self.self_dims@[0] as int
    }

    /// Columns of weights.
    pub open spec fn ncols(self) -> int {
        self.self_dims@[1] as int
    }

    /// Rows of activations: leading dimensions are taken together.
    pub open spec fn b_size(self) -> int {
        if self.rhs_dims@.len() == 3 {
            self.rhs_dims@[0] * self.rhs_dims@[1]
        } else {
            self.rhs_dims@[0] as int
        }
    }

    /// Whether kernels exist for the types.
    pub open spec fn has_kernels(self) -> bool {
        &&& self.w_dtype == GgmlDType::Q4K || self.w_dtype == GgmlDType::Q6K
        &&& self.rhs_dtype == DType::F32
    }

    /// Whether the product is taken on, given kernels for the types and a matrix of weights.
    pub open spec fn is_taken(self) -> bool {
        &&& self.ncols() % 256 == 0
        &&& self.rhs_dims@.len() == 2 || self.rhs_dims@.len() == 3
        &&& self.rhs_dims@.last() == self.ncols()
        &&& self.b_size() != 0
        &&& self.contiguous_offsets is Some
    }

    /// More than eight rows of activations are multiplied in the layout for matrix products.
    pub open spec fn uses_mmq(self) -> bool {
        self.b_size() > 8
    }

    /// Columns of a row of activations with padding.
    pub open spec fn ncols_padded(self) -> int {
        padded(self.ncols(), self.matrix_row_padding as int)
    }

    /// Bytes of a row of quantized activations.
    pub open spec fn q8_row_stride_bytes(self) -> int {
        if self.uses_mmq() {
            (self.ncols_padded() / 128) * 144
        } else {
            (self.ncols_padded() / 32) * 36
        }
    }

    /// All sizes fit the machine.
    pub open spec fn fits(self) -> bool {
        &&& 0 < self.matrix_row_padding
        &&& self.b_size() <= usize::MAX
        &&& self.ncols_padded() <= usize::MAX
        &&& self.q8_row_stride_bytes() <= usize::MAX
        &&& self.b_size() * self.q8_row_stride_bytes() <= usize::MAX
        &&& self.nrows() * self.b_size() <= usize::MAX
    }

    /// All sizes that planning computes fit the machine.
    pub open spec fn is_plannable(self) -> bool {
        self.has_kernels() && self.self_dims@.len() == 2 && self.ncols() % 256 == 0 ==> {
            &&& self.rhs_dims@.len() == 3 ==> self.b_size() <= usize::MAX
            &&& self.is_taken() ==> self.fits()
        }
    }

    /// How the activations are quantized.
    pub open spec fn quantize(self) -> Quantize {
        let args = MmqArgs {
            type_tag: 0,
            source_columns: self.ncols() as i64,
            source_stride_1: self.ncols() as i64,
            source_stride_2: 0,
            source_stride_3: 0,
            columns: self.ncols_padded() as i64,
            rows: self.b_size() as i64,
            channels: 1,
            samples: 1,
        };
        if !self.uses_mmq() {
            Quantize::Q8_1 {
                ncols: self.ncols() as i32,
                ncols_padded: self.ncols_padded() as i32,
                b_size: self.b_size() as i32,
            }
        } else if self.w_dtype == GgmlDType::Q4K {
            Quantize::MmqDs4(args)
        } else {
            Quantize::MmqD4(args)
        }
    }

    /// Whether the matrix unit kernel is picked.
    pub open spec fn uses_mmai(self, settings: Settings) -> bool {
        &&& self.w_dtype == GgmlDType::Q4K
        &&& settings.mmai_prefill
        &&& self.nrows() % 16 == 0
        &&& self.b_size() >= 16
        &&& self.b_size() % 4 == 0
    }

    /// How many rows of activations the first launch covers.
    pub open spec fn main_b_size(self, settings: Settings) -> int {
        if self.uses_mmai(settings) {
            (self.b_size() / 16) * 16
        } else {
            self.b_size()
        }
    }

    /// The first launch.
    pub open spec fn main_launch(self, settings: Settings) -> Launch {
        let nrows = self.nrows() as i32;
        let ncols = self.ncols() as i32;
        let b_size = self.b_size() as i32;
        let q8_row_stride_bytes = self.q8_row_stride_bytes() as i32;
        let by_row = (self.nrows() as u32, 1u32, 1u32);
        let by_four_rows = ((self.nrows() / 4) as u32, 1u32, 1u32);
        let by_row_and_batch = (self.nrows() as u32, self.b_size() as u32, 1u32);
        if self.w_dtype == GgmlDType::Q4K {
            if self.b_size() == 1 && settings.q4k_b1_rows4 && self.nrows() % 4 == 0 {
                Launch {
                    kernel: Kernel::Q4kMatvecB1Rows4 { ncols, nrows },
                    grid: by_four_rows,
                    timing: Some(TimingSlot::Q4kMatvecB1Rows4),
                }
            } else if self.b_size() == 1 {
                Launch {
                    kernel: Kernel::Q4kMatvecB1 { ncols, nrows },
                    grid: by_row,
                    timing: None,
                }
            } else if self.uses_mmai(settings) {
                Launch {
                    kernel: Kernel::Q4kMmqMatmulMmai { ncols, nrows, b_size, batch_start: 0 },
                    grid: ((self.nrows() / 16) as u32, (self.b_size() / 16) as u32, 1),
                    timing: Some(TimingSlot::Q4kMmaiMain),
                }
            } else if self.uses_mmq() && settings.tiled_prefill && self.nrows() % 4 == 0
                && self.b_size() % 4 == 0 {
                Launch {
                    kernel: Kernel::Q4kMmqMatmulTiled { ncols, nrows, b_size, batch_start: 0 },
                    grid: ((self.nrows() / 4) as u32, (self.b_size() / 4) as u32, 1),
                    timing: Some(TimingSlot::Q4kTiledMmq),
                }
            } else if self.uses_mmq() {
                Launch {
                    kernel: Kernel::Q4kMmqMatmulBatched {
                        ncols,
                        nrows,
                        b_size,
                        q8_row_stride_bytes,
                    },
                    grid: by_row_and_batch,
                    timing: Some(TimingSlot::Q4kScalarMmq),
                }
            } else {
                Launch {
                    kernel: Kernel::Q4kMatmulBatched { ncols, nrows, b_size, q8_row_stride_bytes },
                    grid: by_row_and_batch,
                    timing: None,
                }
            }
        } else {
            if self.b_size() == 1 && settings.q6k_b1_rows8 && self.nrows() % 8 == 0 {
                Launch {
                    kernel: Kernel::Q6kMatvecB1Rows8 { ncols, nrows },
                    grid: ((self.nrows() / 8) as u32, 1, 1),
                    timing: Some(TimingSlot::Q6kMatvecB1Rows8),
                }
            } else if self.b_size() == 1 && settings.q6k_b1_rows4 && self.nrows() % 4 == 0 {
                Launch {
                    kernel: Kernel::Q6kMatvecB1Rows4 { ncols, nrows },
                    grid: by_four_rows,
                    timing: Some(TimingSlot::Q6kMatvecB1Rows4),
                }
            } else if self.b_size() == 1 {
                Launch {
                    kernel: Kernel::Q6kMatvecB1 { ncols, nrows },
                    grid: by_row,
                    timing: None,
                }
            } else if self.uses_mmq() {
                Launch {
                    kernel: Kernel::Q6kMmqMatmulBatched {
                        ncols,
                        nrows,
                        b_size,
                        q8_row_stride_bytes,
                    },
                    grid: by_row_and_batch,
                    timing: Some(TimingSlot::Q6kMmq),
                }
            } else {
                Launch {
                    kernel: Kernel::Q6kMatmulBatched { ncols, nrows, b_size, q8_row_stride_bytes },
                    grid: by_row_and_batch,
                    timing: None,
                }
            }
        }
    }

    /// The launch for the rows of activations that the first launch leaves.
    pub open spec fn tail_launch(self, settings: Settings) -> Option<Launch> {
        let main_b_size = self.main_b_size(settings);
        let tail_b_size = self.b_size() - main_b_size;
        if tail_b_size != 0 {
            Some(
                Launch {
                    kernel: Kernel::Q4kMmqMatmulTiled {
                        ncols: self.ncols() as i32,
                        nrows: self.nrows() as i32,
                        b_size: self.b_size() as i32,
                        batch_start: main_b_size as i32,
                    },
                    grid: ((self.nrows() / 4) as u32, (tail_b_size / 4) as u32, 1),
                    timing: Some(TimingSlot::Q4kMmaiTail),
                },
            )
        } else {
            None
        }
    }

    /// The plan of a product that is taken on.
    pub open spec fn planned(self, settings: Settings) -> FwdPlanView {
        FwdPlanView {
            nrows: self.nrows(),
            ncols: self.ncols(),
            b_size: self.b_size(),
            rhs_range: self.contiguous_offsets->0,
            ncols_padded: self.ncols_padded(),
            q8_row_stride_bytes: self.q8_row_stride_bytes(),
            scratch_bytes: self.b_size() * self.q8_row_stride_bytes(),
            out_len: self.nrows() * self.b_size(),
            quantize: self.quantize(),
            main: self.main_launch(settings),
            main_b_size: self.main_b_size(settings),
            tail: self.tail_launch(settings),
            tail_b_size: self.b_size() - self.main_b_size(settings),
            out_shape: self.rhs_dims@.drop_last().push(self.self_dims@[0]),
        }
    }
}

/// The quantizing step of a product.
fn choose_quantize(request: &FwdRequest, ncols: usize, ncols_padded: usize, b_size: usize) -> (r:
    Quantize)
    requires
        request.has_kernels(),
        ncols == request.ncols(),
        ncols_padded == request.ncols_padded(),
        b_size == request.b_size(),
    ensures
        r == request.quantize(),
{
    if b_size <= 8 {
        return Quantize::Q8_1 {
            ncols: ncols as i32,
            ncols_padded: ncols_padded as i32,
            b_size: b_size as i32,
        };
    }
    let args = MmqArgs {
        type_tag: 0,
        source_columns: ncols as i64,
        source_stride_1: ncols as i64,
        source_stride_2: 0,
        source_stride_3: 0,
        columns: ncols_padded as i64,
        rows: b_size as i64,
        channels: 1,
        samples: 1,
    };
    match request.w_dtype {
        GgmlDType::Q4K => Quantize::MmqDs4(args),
        _ => Quantize::MmqD4(args),
    }
}

/// The launches of a product with Q4_K weights, and how many rows of activations each covers.
fn choose_q4k_launches(
    request: &FwdRequest,
    settings: &Settings,
    nrows: usize,
    ncols: usize,
    b_size: usize,
    q8_row_stride_bytes: usize,
) -> (r: (Launch, usize, Option<Launch>, usize))
    requires
        request.w_dtype == GgmlDType::Q4K,
        nrows == request.nrows(),
        ncols == request.ncols(),
        b_size == request.b_size(),
        q8_row_stride_bytes == request.q8_row_stride_bytes(),
    ensures
        r.0 == request.main_launch(*settings),
        r.1 == request.main_b_size(*settings),
        r.2 == request.tail_launch(*settings),
        r.3 == request.b_size() - request.main_b_size(*settings),
{
    let use_mmq_q8_layout = b_size > 8;
    if b_size == 1 {
        if settings.q4k_b1_rows4 && nrows.is_multiple_of(4) {
            let main = Launch {
                kernel: Kernel::Q4kMatvecB1Rows4 { ncols: ncols as i32, nrows: nrows as i32 },
                grid: ((nrows / 4) as u32, 1, 1),
                timing: Some(TimingSlot::Q4kMatvecB1Rows4),
            };
            (main, b_size, None, 0)
        } else {
            let main = Launch {
                kernel: Kernel::Q4kMatvecB1 { ncols: ncols as i32, nrows: nrows as i32 },
                grid: (nrows as u32, 1, 1),
                timing: None,
            };
            (main, b_size, None, 0)
        }
    } else if use_mmq_q8_layout && settings.mmai_prefill && nrows.is_multiple_of(16) && b_size >= 16
        && b_size.is_multiple_of(4) {
        let main_b_size: usize = (b_size / 16) * 16;
        let tail_b_size: usize = b_size - main_b_size;
        let main = Launch {
            kernel: Kernel::Q4kMmqMatmulMmai {
                ncols: ncols as i32,
                nrows: nrows as i32,
                b_size: b_size as i32,
                batch_start: 0,
            },
            grid: ((nrows / 16) as u32, (main_b_size / 16) as u32, 1),
            timing: Some(TimingSlot::Q4kMmaiMain),
        };
        let tail = if tail_b_size != 0 {
            Some(
                Launch {
                    kernel: Kernel::Q4kMmqMatmulTiled {
                        ncols: ncols as i32,
                        nrows: nrows as i32,
                        b_size: b_size as i32,
                        batch_start: main_b_size as i32,
                    },
                    grid: ((nrows / 4) as u32, (tail_b_size / 4) as u32, 1),
                    timing: Some(TimingSlot::Q4kMmaiTail),
                },
            )
        } else {
            None
        };
        (main, main_b_size, tail, tail_b_size)
    } else if use_mmq_q8_layout && settings.tiled_prefill && nrows.is_multiple_of(4)
        && b_size.is_multiple_of(4) {
        let main = Launch {
            kernel: Kernel::Q4kMmqMatmulTiled {
                ncols: ncols as i32,
                nrows: nrows as i32,
                b_size: b_size as i32,
                batch_start: 0,
            },
            grid: ((nrows / 4) as u32, (b_size / 4) as u32, 1),
            timing: Some(TimingSlot::Q4kTiledMmq),
        };
        (main, b_size, None, 0)
    } else if use_mmq_q8_layout {
        let main = Launch {
            kernel: Kernel::Q4kMmqMatmulBatched {
                ncols: ncols as i32,
                nrows: nrows as i32,
                b_size: b_size as i32,
                q8_row_stride_bytes: q8_row_stride_bytes as i32,
            },
            grid: (nrows as u32, b_size as u32, 1),
            timing: Some(TimingSlot::Q4kScalarMmq),
        };
        (main, b_size, None, 0)
    } else {
        let main = Launch {
            kernel: Kernel::Q4kMatmulBatched {
                ncols: ncols as i32,
                nrows: nrows as i32,
                b_size: b_size as i32,
                q8_row_stride_bytes: q8_row_stride_bytes as i32,
            },
            grid: (nrows as u32, b_size as u32, 1),
            timing: None,
        };
        (main, b_size, None, 0)
    }
}

/// The launch of a product with Q6_K weights.
fn choose_q6k_launch(
    request: &FwdRequest,
    settings: &Settings,
    nrows: usize,
    ncols: usize,
    b_size: usize,
    q8_row_stride_bytes: usize,
) -> (r: Launch)
    requires
        request.w_dtype == GgmlDType::Q6K,
        nrows == request.nrows(),
        ncols == request.ncols(),
        b_size == request.b_size(),
        q8_row_stride_bytes == request.q8_row_stride_bytes(),
    ensures
        r == request.main_launch(*settings),
{
    if b_size == 1 {
        if settings.q6k_b1_rows8 && nrows.is_multiple_of(8) {
            Launch {
                kernel: Kernel::Q6kMatvecB1Rows8 { ncols: ncols as i32, nrows: nrows as i32 },
                grid: ((nrows / 8) as u32, 1, 1),
                timing: Some(TimingSlot::Q6kMatvecB1Rows8),
            }
        } else if settings.q6k_b1_rows4 && nrows.is_multiple_of(4) {
            Launch {
                kernel: Kernel::Q6kMatvecB1Rows4 { ncols: ncols as i32, nrows: nrows as i32 },
                grid: ((nrows / 4) as u32, 1, 1),
                timing: Some(TimingSlot::Q6kMatvecB1Rows4),
            }
        } else {
            Launch {
                kernel: Kernel::Q6kMatvecB1 { ncols: ncols as i32, nrows: nrows as i32 },
                grid: (nrows as u32, 1, 1),
                timing: None,
            }
        }
    } else if b_size > 8 {
        Launch {
            kernel: Kernel::Q6kMmqMatmulBatched {
                ncols: ncols as i32,
                nrows: nrows as i32,
                b_size: b_size as i32,
                q8_row_stride_bytes: q8_row_stride_bytes as i32,
            },
            grid: (nrows as u32, b_size as u32, 1),
            timing: Some(TimingSlot::Q6kMmq),
        }
    } else {
        Launch {
            kernel: Kernel::Q6kMatmulBatched {
                ncols: ncols as i32,
                nrows: nrows as i32,
                b_size: b_size as i32,
                q8_row_stride_bytes: q8_row_stride_bytes as i32,
            },
            grid: (nrows as u32, b_size as u32, 1),
            timing: None,
        }
    }
}

/// The dimensions of the activations with the last one replaced.
fn replace_last(dims: &Vec<usize>, last: usize) -> (r: Vec<usize>)
    requires
        0 < dims@.len(),
    ensures
        r@ == dims@.drop_last().push(last),
{
    let mut r: Vec<usize> = Vec::new();
    let mut i: usize = 0;
    while i < dims.len() - 1
        invariant
            0 < dims@.len(),
            i <= dims@.len() - 1,
            r@ == dims@.take(i as int),
        decreases dims@.len() - i,
    {
        r.push(dims[i]);
        i = i + 1;
        assert(dims@.take(i as int) =~= dims@.take(i - 1).push(dims@[i - 1]));
    }
    assert(dims@.take(i as int) =~= dims@.drop_last());
    r.push(last);
    r
}

/// Whether a product of numbers fits.
fn product_fits(a: usize, b: usize) -> (r: bool)
    ensures
        r == (a * b <= usize::MAX),
{
    a.checked_mul(b).is_some()
}

/// Decides whether [`try_fwd`] can plan a product.
pub fn can_plan(request: &FwdRequest) -> (r: bool)
    ensures
        r == request.is_plannable(),
{
    let has_kernels = match request.w_dtype {
        GgmlDType::Q4K | GgmlDType::Q6K => match request.rhs_dtype {
            DType::F32 => true,
            _ => false,
        },
        _ => false,
    };
    let dims = &request.rhs_dims;
    if !has_kernels || request.self_dims.len() != 2 || !request.self_dims[1].is_multiple_of(QK_K) {
        return true;
    }
    let nrows: usize = request.self_dims[0];
    let ncols: usize = request.self_dims[1];
    if dims.len() != 2 && dims.len() != 3 {
        return true;
    }
    if dims.len() == 3 && !product_fits(dims[0], dims[1]) {
        return false;
    }
    let b_size: usize = if dims.len() == 3 {
        proof {
            assert(0 <= dims@[0] * dims@[1]) by (nonlinear_arith);
        }
        dims[0] * dims[1]
    } else {
        dims[0]
    };
    if dims[dims.len() - 1] != ncols || b_size == 0 || request.contiguous_offsets.is_none() {
        return true;
    }
    let padding: usize = request.matrix_row_padding;
    if padding == 0 {
        return false;
    }
    let rest: usize = ncols % padding;
    if rest != 0 {
        assert(ncols % padding <= ncols) by (nonlinear_arith)
            requires
                0 < padding,
        ;
        if (ncols - rest).checked_add(padding).is_none() {
            return false;
        }
    }
    let ncols_padded: usize = pad(ncols, padding);
    let (units, unit_bytes): (usize, usize) = if b_size > 8 {
        (ncols_padded / Q8_1_MMQ_BLOCK_SIZE, Q8_1_MMQ_BLOCK_BYTES)
    } else {
        (ncols_padded / Q8_1_BLOCK_SIZE, Q8_1_BLOCK_BYTES)
    };
    product_fits(units, unit_bytes) && product_fits(b_size, units * unit_bytes) && product_fits(
        nrows,
        b_size,
    )
}

/// Plans a product, or leaves it to other code.
pub fn try_fwd(request: &FwdRequest, settings: &Settings) -> (r: Result<Option<FwdPlan>, FwdError>)
    requires
        request.is_plannable(),
    ensures
        r is Err <==> request.has_kernels() && request.self_dims@.len() != 2,
        r matches Err(FwdError::UnexpectedNumberOfDims { expected, got }) ==> expected == 2 && got
            == request.self_dims@.len(),
        r is Ok ==> (r->Ok_0 is Some <==> request.has_kernels() && request.is_taken()),
        r matches Ok(Some(plan)) ==> plan@ == request.planned(*settings),
{
    match request.w_dtype {
        GgmlDType::Q4K | GgmlDType::Q6K => {},
        _ => {
            return Ok(None);
        },
    }
    match request.rhs_dtype {
        DType::F32 => {},
        _ => {
            return Ok(None);
        },
    }
    let rank: usize = request.self_dims.len();
    if rank != 2 {
        return Err(FwdError::UnexpectedNumberOfDims { expected: 2, got: rank });
    }
    let nrows: usize = request.self_dims[0];
    let ncols: usize = request.self_dims[1];
    if !ncols.is_multiple_of(QK_K) {
        return Ok(None);
    }
    let dims = &request.rhs_dims;
    if dims.len() != 2 && dims.len() != 3 {
        return Ok(None);
    }
    let b_size: usize = if dims.len() == 3 {
        proof {
            assert(0 <= dims@[0] * dims@[1]) by (nonlinear_arith);
        }
        dims[0] * dims[1]
    } else {
        dims[0]
    };
    if dims[dims.len() - 1] != ncols || b_size == 0 {
        return Ok(None);
    }
    let rhs_range = match request.contiguous_offsets {
        Some(offsets) => offsets,
        None => {
            return Ok(None);
        },
    };
    assert(request.is_taken());
    let ncols_padded: usize = pad(ncols, request.matrix_row_padding);
    let q8_row_stride_bytes: usize = if b_size > 8 {
        (ncols_padded / Q8_1_MMQ_BLOCK_SIZE) * Q8_1_MMQ_BLOCK_BYTES
    } else {
        (ncols_padded / Q8_1_BLOCK_SIZE) * Q8_1_BLOCK_BYTES
    };
    let quantize = choose_quantize(request, ncols, ncols_padded, b_size);
    let (main, main_b_size, tail, tail_b_size) = match request.w_dtype {
        GgmlDType::Q4K => choose_q4k_launches(
            request,
            settings,
            nrows,
            ncols,
            b_size,
            q8_row_stride_bytes,
        ),
        _ => {
            let main = choose_q6k_launch(
                request,
                settings,
                nrows,
                ncols,
                b_size,
                q8_row_stride_bytes,
            );
            (main, b_size, None, 0)
        },
    };
    let plan = FwdPlan {
        nrows,
        ncols,
        b_size,
        rhs_range,
        ncols_padded,
        q8_row_stride_bytes,
        scratch_bytes: b_size * q8_row_stride_bytes,
        out_len: nrows * b_size,
        quantize,
        main,
        main_b_size,
        tail,
        tail_b_size,
        out_shape: replace_last(dims, nrows),
    };
    assert(plan@ =~= request.planned(*settings));
    Ok(Some(plan))
}

/// The number of elements of a shape.
pub open spec fn element_count(dims: Seq<usize>) -> int
    decreases dims.len(),
{
    if dims.len() == 0 {
        1
    } else {
        element_count(dims.drop_last()) * dims.last()
    }
}

/// A plan is consistent: the shape of the outputs has as many elements as there are outputs, the
/// two launches share the rows of activations, and the second one runs exactly if the first one
/// leaves some, which are fewer than sixteen and a multiple of four.
pub proof fn law_plan_is_consistent(request: FwdRequest, settings: Settings)
    requires
        request.has_kernels(),
        request.self_dims@.len() == 2,
        request.is_taken(),
    ensures
        ({
            let plan = request.planned(settings);
            &&& element_count(plan.out_shape) == plan.out_len
            &&& plan.out_shape.len() == request.rhs_dims@.len()
            &&& plan.main_b_size + plan.tail_b_size == plan.b_size
            &&& 0 < plan.main_b_size
            &&& 0 <= plan.tail_b_size < 16
            &&& plan.tail_b_size % 4 == 0
            &&& plan.tail is Some <==> plan.tail_b_size != 0
        }),
{
    let plan = request.planned(settings);
    let dims = request.rhs_dims@;
    let out = plan.out_shape;
    reveal_with_fuel(element_count, 4);
    assert(out.drop_last() =~= dims.drop_last());
    let lead = dims.drop_last();
    if dims.len() == 3 {
        assert(lead.drop_last() =~= seq![dims[0]]);
        assert(lead.drop_last().drop_last() =~= seq![]);
        assert(element_count(lead) == dims[0] * dims[1]);
        assert(0 <= dims[0] * dims[1]) by (nonlinear_arith);
    } else {
        assert(lead =~= seq![dims[0]]);
        assert(lead.drop_last() =~= seq![]);
        assert(element_count(lead) == dims[0]);
    }
    let b_size = request.b_size();
    let nrows = request.nrows();
    assert(b_size * nrows == nrows * b_size) by (nonlinear_arith);
}

/// A product is planned exactly if there are kernels for its types, its weights are a matrix of
/// whole blocks, and its activations are a contiguous matrix or stack of matrices, not empty, with
/// as many columns as the weights.
pub proof fn law_what_is_planned(request: FwdRequest)
    ensures
        request.has_kernels() <==> request.w_dtype != GgmlDType::Other && request.rhs_dtype
            == DType::F32,
        request.is_taken() <==> {
            &&& request.rhs_dims@.len() == 2 || request.rhs_dims@.len() == 3
            &&& request.contiguous_offsets != None::<(usize, usize)>
            &&& request.self_dims@[1] as int % 256 == 0
            &&& request.rhs_dims@.last() == request.self_dims@[1]
            &&& element_count(request.rhs_dims@.drop_last()) != 0
        },
{
    lemma_b_size(request);
}

/// The rows of activations are the elements of the leading dimensions.
proof fn lemma_b_size(request: FwdRequest)
    ensures
        request.rhs_dims@.len() == 2 || request.rhs_dims@.len() == 3 ==> request.b_size()
            == element_count(request.rhs_dims@.drop_last()) && 0 <= request.b_size(),
{
    let dims = request.rhs_dims@;
    let lead = dims.drop_last();
    reveal_with_fuel(element_count, 4);
    if dims.len() == 3 {
        assert(lead.drop_last() =~= seq![dims[0]]);
        assert(lead.drop_last().drop_last() =~= seq![]);
        assert(0 <= dims[0] * dims[1]) by (nonlinear_arith);
    } else if dims.len() == 2 {
        assert(lead =~= seq![dims[0]]);
        assert(lead.drop_last() =~= seq![]);
    }
}

/// The sizes of a plan. Rows are padded to the next multiple of the padding. A row of quantized
/// activations has 36 bytes for every 32 columns, or 144 for every 128, and the scratch buffer has
/// one for every row. The outputs have the shape of the activations with the rows of weights as
/// columns.
pub proof fn law_plan_sizes(request: FwdRequest, settings: Settings)
    requires
        request.is_taken(),
        0 < request.matrix_row_padding,
    ensures
        ({
            let plan = request.planned(settings);
            let dims = request.rhs_dims@;
            let padding = request.matrix_row_padding as int;
            let stride = plan.q8_row_stride_bytes;
            &&& plan.nrows == request.self_dims@[0]
            &&& plan.ncols == request.self_dims@[1]
            &&& plan.b_size == element_count(dims.drop_last())
            &&& plan.b_size * plan.ncols == element_count(dims)
            &&& request.contiguous_offsets == Some(plan.rhs_range)
            &&& plan.ncols_padded % padding == 0
            &&& plan.ncols <= plan.ncols_padded < plan.ncols + padding
            &&& plan.b_size <= 8 ==> stride % 36 == 0 && 32 * (stride / 36) <= plan.ncols_padded
                < 32 * (stride / 36) + 32
            &&& plan.b_size > 8 ==> stride % 144 == 0 && 128 * (stride / 144) <= plan.ncols_padded
                < 128 * (stride / 144) + 128
            &&& plan.scratch_bytes == plan.b_size * stride
            &&& plan.out_len == plan.nrows * plan.b_size
            &&& plan.out_shape.len() == dims.len()
            &&& plan.out_shape.last() == plan.nrows
            &&& forall|i: int| 0 <= i < dims.len() - 1 ==> plan.out_shape[i] == dims[i]
        }),
{
    lemma_b_size(request);
    law_padding(request.ncols(), request.matrix_row_padding as int);
}

/// The quantizer and the kernels agree on where a row of quantized activations lies: the columns
/// that the quantizer pads a row to make up the stride that the kernels use. The quantizer takes
/// the rows one after the other, all columns of each.
pub proof fn law_quantizer_and_kernels_agree(request: FwdRequest, settings: Settings)
    requires
        request.has_kernels(),
        request.is_taken(),
        0 < request.matrix_row_padding,
        request.ncols_padded() <= i32::MAX,
        request.b_size() <= i32::MAX,
    ensures
        ({
            let plan = request.planned(settings);
            match plan.quantize {
                Quantize::Q8_1 { ncols, ncols_padded, b_size } => {
                    &&& plan.b_size <= 8
                    &&& ncols == request.self_dims@[1]
                    &&& ncols <= ncols_padded
                    &&& ncols_padded as int % request.matrix_row_padding as int == 0
                    &&& (ncols_padded as int / 32) * 36 == plan.q8_row_stride_bytes
                    &&& b_size == element_count(request.rhs_dims@.drop_last())
                },
                Quantize::MmqDs4(args) => {
                    &&& request.w_dtype == GgmlDType::Q4K
                    &&& agrees(request, plan, args)
                },
                Quantize::MmqD4(args) => {
                    &&& request.w_dtype == GgmlDType::Q6K
                    &&& agrees(request, plan, args)
                },
            }
        }),
{
    lemma_b_size(request);
    law_padding(request.ncols(), request.matrix_row_padding as int);
}

/// The arguments of a quantizer for matrix products agree with a plan.
pub open spec fn agrees(request: FwdRequest, plan: FwdPlanView, args: MmqArgs) -> bool {
    &&& plan.b_size > 8
    &&& args.type_tag == 0
    &&& args.source_columns == request.self_dims@[1]
    &&& args.source_stride_1 == request.self_dims@[1]
    &&& args.source_stride_2 == 0
    &&& args.source_stride_3 == 0
    &&& args.source_columns <= args.columns
    &&& args.columns as int % request.matrix_row_padding as int == 0
    &&& (args.columns as int / 128) * 144 == plan.q8_row_stride_bytes
    &&& args.rows == element_count(request.rhs_dims@.drop_last())
    &&& args.channels == 1
    &&& args.samples == 1
}

/// What a quantizer is given comes from the plan, whatever the sizes.
pub proof fn law_quantizer_arguments(request: FwdRequest, settings: Settings)
    requires
        request.has_kernels(),
    ensures
        ({
            let plan = request.planned(settings);
            match plan.quantize {
                Quantize::Q8_1 { ncols, ncols_padded, b_size } => {
                    &&& plan.b_size <= 8
                    &&& ncols == plan.ncols as i32
                    &&& ncols_padded == plan.ncols_padded as i32
                    &&& b_size == plan.b_size as i32
                },
                Quantize::MmqDs4(args) | Quantize::MmqD4(args) => {
                    &&& plan.b_size > 8
                    &&& (plan.quantize is MmqDs4 <==> request.w_dtype == GgmlDType::Q4K)
                    &&& args.source_columns == plan.ncols as i64
                    &&& args.source_stride_1 == plan.ncols as i64
                    &&& args.columns == plan.ncols_padded as i64
                    &&& args.rows == plan.b_size as i64
                },
            }
        }),
{
}

/// Which kernel runs first. One row of activations is decoded; up to eight are batched; more are
/// multiplied as matrices. Kernels that take several rows at once run only if they are switched on
/// and the rows come out even.
pub proof fn law_kernel_choice(request: FwdRequest, settings: Settings)
    requires
        request.has_kernels(),
        0 < request.b_size(),
    ensures
        ({
            let q4k = request.w_dtype == GgmlDType::Q4K;
            let nrows = request.self_dims@[0] as int;
            let b = request.b_size();
            let kernel = request.planned(settings).main.kernel;
            let mmai = q4k && b >= 16 && b % 4 == 0 && nrows % 16 == 0 && settings.mmai_prefill;
            let tiled = q4k && b > 8 && b % 4 == 0 && nrows % 4 == 0 && settings.tiled_prefill
                && !mmai;
            let q4k_rows4 = q4k && b == 1 && nrows % 4 == 0 && settings.q4k_b1_rows4;
            let q6k_rows8 = !q4k && b == 1 && nrows % 8 == 0 && settings.q6k_b1_rows8;
            let q6k_rows4 = !q4k && b == 1 && nrows % 4 == 0 && settings.q6k_b1_rows4
                && !q6k_rows8;
            &&& kernel is Q4kMmqMatmulMmai <==> mmai
            &&& kernel is Q4kMmqMatmulTiled <==> tiled
            &&& kernel is Q4kMmqMatmulBatched <==> q4k && b > 8 && !mmai && !tiled
            &&& kernel is Q4kMatmulBatched <==> q4k && 1 < b <= 8
            &&& kernel is Q4kMatvecB1Rows4 <==> q4k_rows4
            &&& kernel is Q4kMatvecB1 <==> q4k && b == 1 && !q4k_rows4
            &&& kernel is Q6kMmqMatmulBatched <==> !q4k && b > 8
            &&& kernel is Q6kMatmulBatched <==> !q4k && 1 < b <= 8
            &&& kernel is Q6kMatvecB1Rows8 <==> q6k_rows8
            &&& kernel is Q6kMatvecB1Rows4 <==> q6k_rows4
            &&& kernel is Q6kMatvecB1 <==> !q4k && b == 1 && !q6k_rows8 && !q6k_rows4
        }),
{
}

/// The launches get the sizes of the plan, whatever they are, and grids of whole tiles. The matrix
/// unit leaves the rows of activations that do not fill a tile of sixteen to a tiled launch that
/// starts where it stops.
pub proof fn law_launch_arguments(request: FwdRequest, settings: Settings)
    requires
        request.has_kernels(),
        request.b_size() > 0,
    ensures
        ({
            let plan = request.planned(settings);
            let main = plan.main;
            let (c, r, b) = (plan.ncols as i32, plan.nrows as i32, plan.b_size as i32);
            let s = plan.q8_row_stride_bytes as i32;
            &&& main.grid.2 == 1
            &&& match main.kernel {
                Kernel::Q4kMatvecB1 { ncols, nrows } | Kernel::Q6kMatvecB1 { ncols, nrows } => {
                    &&& ncols == c && nrows == r
                    &&& main.grid.0 == plan.nrows as u32 && main.grid.1 == 1
                },
                Kernel::Q4kMatvecB1Rows4 { ncols, nrows }
                | Kernel::Q6kMatvecB1Rows4 { ncols, nrows } => {
                    &&& ncols == c && nrows == r
                    &&& main.grid.0 == (plan.nrows / 4) as u32 && main.grid.1 == 1
                },
                Kernel::Q6kMatvecB1Rows8 { ncols, nrows } => {
                    &&& ncols == c && nrows == r
                    &&& main.grid.0 == (plan.nrows / 8) as u32 && main.grid.1 == 1
                },
                Kernel::Q4kMatmulBatched { ncols, nrows, b_size, q8_row_stride_bytes }
                | Kernel::Q4kMmqMatmulBatched { ncols, nrows, b_size, q8_row_stride_bytes }
                | Kernel::Q6kMatmulBatched { ncols, nrows, b_size, q8_row_stride_bytes }
                | Kernel::Q6kMmqMatmulBatched { ncols, nrows, b_size, q8_row_stride_bytes } => {
                    &&& ncols == c && nrows == r && b_size == b && q8_row_stride_bytes == s
                    &&& main.grid.0 == plan.nrows as u32 && main.grid.1 == plan.b_size as u32
                },
                Kernel::Q4kMmqMatmulTiled { ncols, nrows, b_size, batch_start } => {
                    &&& ncols == c && nrows == r && b_size == b && batch_start == 0
                    &&& main.grid.0 == (plan.nrows / 4) as u32
                    &&& main.grid.1 == (plan.b_size / 4) as u32
                },
                Kernel::Q4kMmqMatmulMmai { ncols, nrows, b_size, batch_start } => {
                    &&& ncols == c && nrows == r && b_size == b && batch_start == 0
                    &&& main.grid.0 == (plan.nrows / 16) as u32
                    &&& main.grid.1 == (plan.b_size / 16) as u32
                },
            }
            &&& plan.main_b_size == (if main.kernel is Q4kMmqMatmulMmai {
                plan.b_size - plan.b_size % 16
            } else {
                plan.b_size
            })
            &&& plan.tail_b_size == plan.b_size - plan.main_b_size
            &&& plan.tail is Some <==> plan.main_b_size < plan.b_size
            &&& plan.tail matches Some(tail) ==> {
                &&& tail.kernel == (Kernel::Q4kMmqMatmulTiled {
                    ncols: c,
                    nrows: r,
                    b_size: b,
                    batch_start: plan.main_b_size as i32,
                })
                &&& tail.grid == (
                    (plan.nrows / 4) as u32,
                    ((plan.b_size - plan.main_b_size) / 4) as u32,
                    1u32,
                )
            }
        }),
{
}

/// Where the times of launches are reported: a slot for every kernel but the plain decode and
/// batched ones, and another for the tiled kernel that runs second.
pub proof fn law_launch_times(request: FwdRequest, settings: Settings)
    requires
        request.has_kernels(),
        request.b_size() > 0,
    ensures
        ({
            let plan = request.planned(settings);
            &&& plan.main.timing == (match plan.main.kernel {
                Kernel::Q4kMmqMatmulMmai { .. } => Some(TimingSlot::Q4kMmaiMain),
                Kernel::Q4kMmqMatmulTiled { .. } => Some(TimingSlot::Q4kTiledMmq),
                Kernel::Q4kMmqMatmulBatched { .. } => Some(TimingSlot::Q4kScalarMmq),
                Kernel::Q4kMatvecB1Rows4 { .. } => Some(TimingSlot::Q4kMatvecB1Rows4),
                Kernel::Q6kMmqMatmulBatched { .. } => Some(TimingSlot::Q6kMmq),
                Kernel::Q6kMatvecB1Rows4 { .. } => Some(TimingSlot::Q6kMatvecB1Rows4),
                Kernel::Q6kMatvecB1Rows8 { .. } => Some(TimingSlot::Q6kMatvecB1Rows8),
                Kernel::Q4kMatvecB1 { .. } | Kernel::Q6kMatvecB1 { .. } => None,
                Kernel::Q4kMatmulBatched { .. } | Kernel::Q6kMatmulBatched { .. } => None,
            })
            &&& plan.tail matches Some(tail) ==> tail.timing == Some(TimingSlot::Q4kMmaiTail)
        }),
{
}

/// Planning is possible exactly if every size that is computed fits the machine.
pub proof fn law_plannable_sizes_fit(request: FwdRequest, settings: Settings)
    requires
        request.w_dtype != GgmlDType::Other,
        request.rhs_dtype == DType::F32,
        request.self_dims@.len() == 2,
        request.self_dims@[1] as int % 256 == 0,
    ensures
        request.is_plannable() <==> {
            let plan = request.planned(settings);
            let dims = request.rhs_dims@;
            &&& dims.len() == 3 ==> dims[0] * dims[1] <= usize::MAX
            &&& request.is_taken() ==> {
                &&& 0 < request.matrix_row_padding
                &&& plan.ncols_padded <= usize::MAX
                &&& plan.q8_row_stride_bytes <= usize::MAX
                &&& plan.scratch_bytes <= usize::MAX
                &&& plan.out_len <= usize::MAX
            }
        },
{
}

/// A product that is not taken on, or has no kernels, can always be answered.
pub proof fn law_nothing_to_plan(request: FwdRequest)
    requires
        request.w_dtype == GgmlDType::Other || request.rhs_dtype != DType::F32
            || request.self_dims@.len() != 2 || request.self_dims@[1] as int % 256 != 0,
    ensures
        request.is_plannable(),
{
}

/// The model of a plan keeps every field.
pub proof fn law_plan_model_keeps_everything(plan: FwdPlan)
    ensures
        plan@.nrows == plan.nrows,
        plan@.ncols == plan.ncols,
        plan@.b_size == plan.b_size,
        plan@.rhs_range == plan.rhs_range,
        plan@.ncols_padded == plan.ncols_padded,
        plan@.q8_row_stride_bytes == plan.q8_row_stride_bytes,
        plan@.scratch_bytes == plan.scratch_bytes,
        plan@.out_len == plan.out_len,
        plan@.quantize == plan.quantize,
        plan@.main == plan.main,
        plan@.main_b_size == plan.main_b_size,
        plan@.tail == plan.tail,
        plan@.tail_b_size == plan.tail_b_size,
        plan@.out_shape == plan.out_shape@,
{
}

} // verus!
