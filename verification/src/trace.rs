//! What is reported of a timed product.
//!
//! Times are single precision milliseconds, given by their bits.
use vstd::prelude::*;

use crate::blocks::{Q4K_BLOCK_BYTES, Q6K_BLOCK_BYTES, QK_K};
use crate::launch::TimingSlot;
use crate::plan::{FwdPlan, GgmlDType};

verus! {

use crate::launch::Launch;
use crate::plan::{FwdPlanView, FwdRequest};
use crate::settings::Settings;

/// The bytes of weights that a decode step reads: unknown unless whole blocks of a known type
/// make up the rows.
pub open spec fn decode_weight_bytes(dtype: GgmlDType, nrows: int, ncols: int) -> Option<int> {
    if ncols % 256 != 0 {
        None
    } else {
        match dtype {
            GgmlDType::Q4K => Some(nrows * (ncols / 256) * 144),
            GgmlDType::Q6K => Some(nrows * (ncols / 256) * 210),
            GgmlDType::Other => None,
        }
    }
}

/// Computes [`decode_weight_bytes`].
pub fn estimated_decode_weight_bytes(dtype: GgmlDType, nrows: usize, ncols: usize) -> (r: Option<
    usize,
>)
    requires
        decode_weight_bytes(dtype, nrows as int, ncols as int) matches Some(bytes) ==> bytes
            <= usize::MAX,
    ensures
        r is Some <==> decode_weight_bytes(dtype, nrows as int, ncols as int) is Some,
        r matches Some(bytes) ==> Some(bytes as int) == decode_weight_bytes(
            dtype,
            nrows as int,
            ncols as int,
        ),
{
    if !ncols.is_multiple_of(QK_K) {
        return None;
    }
    let block_bytes: usize = match dtype {
        GgmlDType::Q4K => Q4K_BLOCK_BYTES,
        GgmlDType::Q6K => Q6K_BLOCK_BYTES,
        GgmlDType::Other => {
            return None;
        },
    };
    let blocks: usize = ncols / QK_K;
    assert(0 <= nrows * blocks) by (nonlinear_arith);
    Some(nrows * blocks * block_bytes)
}

/// A digit as a character.
pub open spec fn digit(d: int) -> char {
    (d + 48) as char
}

/// A number in decimal.
pub open spec fn decimal(n: nat) -> Seq<char>
    decreases n,
{
    if n < 10 {
        seq![digit(n as int)]
    } else {
        decimal(n / 10).push(digit(n as int % 10))
    }
}

/// The number that decimal digits stand for.
pub open spec fn from_decimal(text: Seq<char>) -> int
    decreases text.len(),
{
    if text.len() == 0 {
        0
    } else {
        10 * from_decimal(text.drop_last()) + (text.last() as int - 48)
    }
}

/// A number can be read back from its decimal digits.
pub proof fn law_decimal_reads_back(n: nat)
    ensures
        from_decimal(decimal(n)) == n,
    decreases n,
{
    if n < 10 {
        assert(decimal(n).drop_last() =~= seq![]);
        assert(from_decimal(decimal(n).drop_last()) == 0);
    } else {
        law_decimal_reads_back(n / 10);
        assert(decimal(n).drop_last() =~= decimal(n / 10));
    }
}

/// The text of a digit.
fn digit_text(d: usize) -> (r: &'static str)
    requires
        d < 10,
    ensures
        r@ == seq![digit(d as int)],
{
    proof {
        reveal_strlit("0");
        reveal_strlit("1");
        reveal_strlit("2");
        reveal_strlit("3");
        reveal_strlit("4");
        reveal_strlit("5");
        reveal_strlit("6");
        reveal_strlit("7");
        reveal_strlit("8");
        reveal_strlit("9");
    }
    let r = match d {
        0 => "0",
        1 => "1",
        2 => "2",
        3 => "3",
        4 => "4",
        5 => "5",
        6 => "6",
        7 => "7",
        8 => "8",
        _ => "9",
    };
    assert(r@ =~= seq![digit(d as int)]);
    r
}

/// Writes a number in decimal.
fn decimal_text(n: usize) -> (r: String)
    ensures
        r@ == decimal(n as nat),
    decreases n,
{
    if n < 10 {
        return String::from_str(digit_text(n));
    }
    let mut text = decimal_text(n / 10);
    text.append(digit_text(n % 10));
    assert(text@ =~= decimal(n as nat));
    text
}

/// Writes a number in decimal, or that there is none.
pub fn fmt_usize(value: Option<usize>) -> (r: String)
    ensures
        r@ == (match value {
            Some(n) => decimal(n as nat),
            None => "n/a"@,
        }),
{
    match value {
        Some(n) => decimal_text(n),
        None => String::from_str("n/a"),
    }
}

/// The times of a product: of quantizing, of the two launches, and of everything.
#[derive(Debug, Clone, Copy)]
pub struct Timings {
    pub quantize: Option<u32>,
    pub main: Option<u32>,
    pub tail: Option<u32>,
    pub total: Option<u32>,
}

/// The time to report for a slot: that of the launch that reports to it.
pub open spec fn time_of_slot(plan: FwdPlanView, timings: Timings, slot: TimingSlot) -> Option<
    u32,
> {
    if plan.main.timing == Some(slot) {
        timings.main
    } else if plan.tail is Some && plan.tail->0.timing == Some(slot) {
        timings.tail
    } else {
        None
    }
}

/// Whether a launch reports to a slot.
fn reports_to(launch: &Launch, slot: TimingSlot) -> (r: bool)
    ensures
        r == (launch.timing == Some(slot)),
{
    match launch.timing {
        Some(timing) => timing == slot,
        None => false,
    }
}

/// Picks [`time_of_slot`].
pub fn slot_ms(plan: &FwdPlan, timings: &Timings, slot: TimingSlot) -> (r: Option<u32>)
    ensures
        r == time_of_slot(plan@, *timings, slot),
{
    if reports_to(&plan.main, slot) {
        return timings.main;
    }
    match &plan.tail {
        Some(tail) => {
            if reports_to(tail, slot) {
                timings.tail
            } else {
                None
            }
        },
        None => None,
    }
}

/// The time of a decode step: that of its kernel if it was taken, else the time of everything.
/// Products with more than one row of activations are no decode steps.
pub open spec fn decode_time(plan: FwdPlanView, timings: Timings) -> Option<u32> {
    if plan.b_size != 1 {
        None
    } else if time_of_slot(plan, timings, TimingSlot::Q4kMatvecB1Rows4) is Some {
        time_of_slot(plan, timings, TimingSlot::Q4kMatvecB1Rows4)
    } else if time_of_slot(plan, timings, TimingSlot::Q6kMatvecB1Rows8) is Some {
        time_of_slot(plan, timings, TimingSlot::Q6kMatvecB1Rows8)
    } else if time_of_slot(plan, timings, TimingSlot::Q6kMatvecB1Rows4) is Some {
        time_of_slot(plan, timings, TimingSlot::Q6kMatvecB1Rows4)
    } else {
        timings.total
    }
}

/// Picks [`decode_time`].
pub fn decode_matvec_gpu_ms(plan: &FwdPlan, timings: &Timings) -> (r: Option<u32>)
    ensures
        r == decode_time(plan@, *timings),
{
    if plan.b_size != 1 {
        return None;
    }
    let q4k_rows4 = slot_ms(plan, timings, TimingSlot::Q4kMatvecB1Rows4);
    if q4k_rows4.is_some() {
        return q4k_rows4;
    }
    let q6k_rows8 = slot_ms(plan, timings, TimingSlot::Q6kMatvecB1Rows8);
    if q6k_rows8.is_some() {
        return q6k_rows8;
    }
    let q6k_rows4 = slot_ms(plan, timings, TimingSlot::Q6kMatvecB1Rows4);
    if q6k_rows4.is_some() {
        return q6k_rows4;
    }
    timings.total
}

/// The name of the kernel of a decode step.
pub open spec fn decode_kernel_name(plan: FwdPlanView) -> Seq<char> {
    if plan.b_size == 1 {
        plan.main.kernel.kernel_name()
    } else {
        "n/a"@
    }
}

/// The kernel to report for a decode step.
pub fn decode_matvec_kernel(plan: &FwdPlan) -> (r: &'static str)
    ensures
        r@ == decode_kernel_name(plan@),
{
    if plan.b_size == 1 {
        plan.main.kernel.name()
    } else {
        "n/a"
    }
}

/// The name of the kernel of the launch that covers the remaining rows of activations.
pub open spec fn tail_kernel_name(plan: FwdPlanView) -> Seq<char> {
    match plan.tail {
        Some(tail) => tail.kernel.kernel_name(),
        None => "none"@,
    }
}

/// The name to report for the launch that covers the remaining rows of activations.
pub fn tail_kernel(plan: &FwdPlan) -> (r: &'static str)
    ensures
        r@ == tail_kernel_name(plan@),
{
    match &plan.tail {
        Some(tail) => tail.kernel.name(),
        None => "none",
    }
}

/// The bytes of weights that a decode step reads, of a plan.
pub open spec fn plan_weight_bytes(plan: FwdPlanView, dtype: GgmlDType) -> Option<int> {
    if plan.b_size == 1 {
        decode_weight_bytes(dtype, plan.nrows, plan.ncols)
    } else {
        None
    }
}

/// The bytes of weights to report for a decode step.
pub fn decode_bytes(plan: &FwdPlan, dtype: GgmlDType) -> (r: Option<usize>)
    requires
        decode_weight_bytes(dtype, plan@.nrows, plan@.ncols) matches Some(bytes) ==> bytes
            <= usize::MAX,
    ensures
        r is Some <==> plan_weight_bytes(plan@, dtype) is Some,
        r matches Some(bytes) ==> Some(bytes as int) == plan_weight_bytes(plan@, dtype),
{
    if plan.b_size == 1 {
        estimated_decode_weight_bytes(dtype, plan.nrows, plan.ncols)
    } else {
        None
    }
}

/// Q4_K weights take four and a half bits each, Q6_K weights six and nine sixteenths. Nothing is
/// known of other types, or of rows that are no whole blocks.
pub proof fn law_bytes_of_weights(dtype: GgmlDType, nrows: int, ncols: int)
    ensures
        decode_weight_bytes(dtype, nrows, ncols) is Some <==> dtype != GgmlDType::Other && ncols
            % 256 == 0,
        decode_weight_bytes(dtype, nrows, ncols) matches Some(bytes) ==> {
            &&& dtype == GgmlDType::Q4K ==> 16 * bytes == 9 * (nrows * ncols)
            &&& dtype == GgmlDType::Q6K ==> 128 * bytes == 105 * (nrows * ncols)
        },
{
    if ncols % 256 == 0 {
        let blocks = ncols / 256;
        assert(nrows * ncols == 256 * (nrows * blocks)) by (nonlinear_arith)
            requires
                ncols == 256 * blocks,
        ;
    }
}

/// Decimal digits are digits, and lead with a zero only for zero itself.
pub proof fn law_decimal_has_digits(n: nat)
    ensures
        decimal(n).len() >= 1,
        forall|i: int| 0 <= i < decimal(n).len() ==> '0' <= #[trigger] decimal(n)[i] <= '9',
        decimal(n)[0] == '0' ==> n == 0,
    decreases n,
{
    if n >= 10 {
        law_decimal_has_digits(n / 10);
    }
}

/// The time that is reported for a slot is that of a launch that reports to it, and none is if no
/// launch does.
pub proof fn law_times_of_slots(plan: FwdPlanView, timings: Timings, slot: TimingSlot)
    ensures
        plan.main.timing == Some(slot) ==> time_of_slot(plan, timings, slot) == timings.main,
        plan.main.timing != Some(slot) && plan.tail is Some && plan.tail->0.timing == Some(slot)
            ==> time_of_slot(plan, timings, slot) == timings.tail,
        plan.main.timing != Some(slot) && !(plan.tail is Some && plan.tail->0.timing == Some(slot))
            ==> time_of_slot(plan, timings, slot) == None::<u32>,
{
}

/// The time of a decode step is that of its kernel, if it was taken, and else that of everything.
/// Other products have none.
pub proof fn law_decode_times(
    request: FwdRequest,
    settings: Settings,
    timings: Timings,
)
    requires
        request.has_kernels(),
        request.b_size() > 0,
    ensures
        ({
            let plan = request.planned(settings);
            let time = decode_time(plan, timings);
            &&& plan.b_size != 1 ==> time == None::<u32>
            &&& plan.b_size == 1 && plan.main.timing is Some && timings.main is Some ==> time
                == timings.main
            &&& plan.b_size == 1 && (plan.main.timing is None || timings.main is None) ==> time
                == timings.total
        }),
{
}

/// A decode step reports the kernel that runs and the bytes of all its weights, and other products
/// report neither. The second kernel is reported exactly if one runs.
pub proof fn law_reported_of_a_plan(
    request: FwdRequest,
    settings: Settings,
)
    requires
        request.has_kernels(),
        request.is_taken(),
    ensures
        ({
            let plan = request.planned(settings);
            let bytes = plan_weight_bytes(plan, request.w_dtype);
            &&& plan.b_size == 1 ==> decode_kernel_name(plan) == plan.main.kernel.kernel_name()
            &&& plan.b_size != 1 ==> decode_kernel_name(plan) == "n/a"@
            &&& plan.tail == None::<Launch> ==> tail_kernel_name(plan) == "none"@
            &&& plan.tail matches Some(tail) ==> tail_kernel_name(plan)
                == "q4k_q8_1_mmq_matmul_tiled_f32"@
            &&& bytes is Some <==> plan.b_size == 1
            &&& bytes matches Some(n) ==> (request.w_dtype == GgmlDType::Q4K ==> 16 * n == 9 * (
            plan.nrows * plan.ncols)) && (request.w_dtype == GgmlDType::Q6K ==> 128 * n == 105 * (
            plan.nrows * plan.ncols))
        }),
{
    law_bytes_of_weights(request.w_dtype, request.nrows(), request.ncols());
}

} // verus!
