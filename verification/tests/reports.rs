use cutile_quant::launch::TimingSlot;
use cutile_quant::plan::{try_fwd, DType, FwdPlan, FwdRequest, GgmlDType};
use cutile_quant::schedule::{schedule, Action, Span};
use cutile_quant::scratch::ScratchWorkspace;
use cutile_quant::settings::Settings;
use cutile_quant::trace::{
    decode_bytes, decode_matvec_gpu_ms, decode_matvec_kernel, estimated_decode_weight_bytes,
    fmt_usize, slot_ms, tail_kernel, Timings,
};

#[test]
fn a_buffer_is_allocated_once_and_grows() {
    let mut workspace = ScratchWorkspace::new();
    assert_eq!(workspace.capacity(3), None);
    assert_eq!(workspace.allocation_for(3, 100), Some(100));
    assert!(workspace.q8_scratch_workspace_ensure(3, 100, true));
    assert_eq!(workspace.capacity(3), Some(100));
    // Enough already.
    assert_eq!(workspace.allocation_for(3, 100), None);
    assert!(workspace.q8_scratch_workspace_ensure(3, 40, false));
    assert_eq!(workspace.capacity(3), Some(100));
    // More.
    assert_eq!(workspace.allocation_for(3, 101), Some(101));
    assert!(workspace.q8_scratch_workspace_ensure(3, 101, true));
    assert_eq!(workspace.capacity(3), Some(101));
}

#[test]
fn a_failed_allocation_changes_nothing() {
    let mut workspace = ScratchWorkspace::new();
    assert!(!workspace.q8_scratch_workspace_ensure(1, 10, false));
    assert_eq!(workspace.capacity(1), None);
    assert!(workspace.q8_scratch_workspace_ensure(1, 10, true));
    assert!(!workspace.q8_scratch_workspace_ensure(1, 11, false));
    assert_eq!(workspace.capacity(1), Some(10));
}

#[test]
fn no_buffer_is_empty() {
    let mut workspace = ScratchWorkspace::new();
    assert_eq!(workspace.allocation_for(9, 0), Some(1));
    assert!(workspace.q8_scratch_workspace_ensure(9, 0, true));
    assert_eq!(workspace.capacity(9), Some(1));
    assert_eq!(workspace.allocation_for(9, 1), None);
}

#[test]
fn devices_have_buffers_of_their_own() {
    let mut workspace = ScratchWorkspace::new();
    assert!(workspace.q8_scratch_workspace_ensure(1, 10, true));
    assert!(workspace.q8_scratch_workspace_ensure(2, 20, true));
    assert!(workspace.q8_scratch_workspace_ensure(1, 30, true));
    assert_eq!((workspace.capacity(1), workspace.capacity(2)), (Some(30), Some(20)));
}

#[test]
fn numbers_are_written_in_decimal() {
    assert_eq!(fmt_usize(None), "n/a");
    for n in [0, 7, 10, 99, 100, 14_008_320, usize::MAX] {
        assert_eq!(fmt_usize(Some(n)), n.to_string());
    }
}

#[test]
fn decode_reads_all_blocks_of_weights() {
    assert_eq!(estimated_decode_weight_bytes(GgmlDType::Q4K, 9728, 2560), Some(14_008_320));
    assert_eq!(estimated_decode_weight_bytes(GgmlDType::Q6K, 9728, 2560), Some(20_428_800));
    assert_eq!(estimated_decode_weight_bytes(GgmlDType::Q4K, 9728, 2561), None);
    assert_eq!(estimated_decode_weight_bytes(GgmlDType::Other, 9728, 2560), None);
    assert_eq!(estimated_decode_weight_bytes(GgmlDType::Q4K, 0, 256), Some(0));
}

const ALL: Settings = Settings {
    tiled_prefill: true,
    mmai_prefill: true,
    q4k_b1_rows4: true,
    q6k_b1_rows4: true,
    q6k_b1_rows8: true,
};

fn plan(w_dtype: GgmlDType, nrows: usize, b_size: usize) -> FwdPlan {
    let request = FwdRequest {
        w_dtype,
        rhs_dtype: DType::F32,
        self_dims: vec![nrows, 512],
        rhs_dims: vec![b_size, 512],
        contiguous_offsets: Some((0, b_size * 512)),
        matrix_row_padding: 512,
    };
    match try_fwd(&request, &ALL) {
        Ok(Some(plan)) => plan,
        other => panic!("no plan: {other:?}"),
    }
}

const TIMINGS: Timings =
    Timings { quantize: Some(1), main: Some(2), tail: Some(3), total: Some(4) };

#[test]
fn launches_report_to_their_slots() {
    let prefill = plan(GgmlDType::Q4K, 64, 20);
    assert_eq!(slot_ms(&prefill, &TIMINGS, TimingSlot::Q4kMmaiMain), Some(2));
    assert_eq!(slot_ms(&prefill, &TIMINGS, TimingSlot::Q4kMmaiTail), Some(3));
    assert_eq!(slot_ms(&prefill, &TIMINGS, TimingSlot::Q4kTiledMmq), None);
    assert_eq!(slot_ms(&prefill, &TIMINGS, TimingSlot::Q6kMmq), None);
    assert_eq!(tail_kernel(&prefill), "q4k_q8_1_mmq_matmul_tiled_f32");
    let untimed = plan(GgmlDType::Q4K, 64, 4);
    assert_eq!(slot_ms(&untimed, &TIMINGS, TimingSlot::Q4kScalarMmq), None);
    assert_eq!(tail_kernel(&untimed), "none");
}

#[test]
fn decode_reports_its_kernel_or_everything() {
    let timed = plan(GgmlDType::Q6K, 16, 1);
    assert_eq!(decode_matvec_kernel(&timed), "q6k_q8_1_matvec_b1_rows8_f32");
    assert_eq!(decode_matvec_gpu_ms(&timed, &TIMINGS), Some(2));
    let missing = Timings { main: None, ..TIMINGS };
    assert_eq!(decode_matvec_gpu_ms(&timed, &missing), Some(4));
    assert_eq!(decode_bytes(&timed, GgmlDType::Q6K), Some(16 * 2 * 210));

    let four = plan(GgmlDType::Q6K, 12, 1);
    assert_eq!(decode_matvec_kernel(&four), "q6k_q8_1_matvec_b1_rows4_f32");
    assert_eq!(decode_matvec_gpu_ms(&four, &TIMINGS), Some(2));
    let q4k = plan(GgmlDType::Q4K, 12, 1);
    assert_eq!(decode_matvec_kernel(&q4k), "q4k_q8_1_matvec_b1_rows4_f32");
    assert_eq!(decode_matvec_gpu_ms(&q4k, &TIMINGS), Some(2));

    let plain = plan(GgmlDType::Q4K, 13, 1);
    assert_eq!(decode_matvec_kernel(&plain), "q4k_q8_1_matvec_b1_f32");
    assert_eq!(decode_matvec_gpu_ms(&plain, &TIMINGS), Some(4));
}

#[test]
fn products_with_more_rows_report_no_decode() {
    let batched = plan(GgmlDType::Q4K, 16, 2);
    assert_eq!(decode_matvec_kernel(&batched), "n/a");
    assert_eq!(decode_matvec_gpu_ms(&batched, &TIMINGS), None);
    assert_eq!(decode_bytes(&batched, GgmlDType::Q4K), None);
}

#[test]
fn memory_comes_first_and_quantizing_before_the_launches() {
    let prefill = plan(GgmlDType::Q4K, 64, 20);
    let tail = match prefill.tail {
        Some(tail) => tail,
        None => panic!("no tail"),
    };
    assert_eq!(
        schedule(&prefill, false),
        vec![
            Action::EnsureScratch(20 * 4 * 144),
            Action::AllocateOutputs(1280),
            Action::Quantize(prefill.quantize),
            Action::Launch(prefill.main),
            Action::Launch(tail),
        ]
    );
    let main_span = Span::Launch(TimingSlot::Q4kMmaiMain);
    let tail_span = Span::Launch(TimingSlot::Q4kMmaiTail);
    assert_eq!(
        schedule(&prefill, true),
        vec![
            Action::EnsureScratch(20 * 4 * 144),
            Action::AllocateOutputs(1280),
            Action::Start(Span::Total),
            Action::Start(Span::Quantize),
            Action::Quantize(prefill.quantize),
            Action::End(Span::Quantize),
            Action::Start(main_span),
            Action::Launch(prefill.main),
            Action::End(main_span),
            Action::Start(tail_span),
            Action::Launch(tail),
            Action::End(tail_span),
            Action::End(Span::Total),
        ]
    );
}

#[test]
fn plain_launches_are_not_measured() {
    let plain = plan(GgmlDType::Q4K, 13, 1);
    assert_eq!(
        schedule(&plain, true),
        vec![
            Action::EnsureScratch(576),
            Action::AllocateOutputs(13),
            Action::Start(Span::Total),
            Action::Start(Span::Quantize),
            Action::Quantize(plain.quantize),
            Action::End(Span::Quantize),
            Action::Launch(plain.main),
            Action::End(Span::Total),
        ]
    );
}
