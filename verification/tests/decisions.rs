use cutile_quant::launch::{Kernel, Launch, TimingSlot};
use cutile_quant::plan::{
    can_plan, pad, try_fwd, DType, FwdError, FwdPlan, FwdRequest, GgmlDType, MmqArgs, Quantize,
};
use cutile_quant::settings::{
    cutile_trace_enabled, mmai_prefill_enabled, q4k_b1_rows4_enabled, q6k_b1_rows4_enabled,
    q6k_b1_rows8_enabled, read_settings, text_is_on, tiled_prefill_enabled, Settings,
};

const OFF: Settings = Settings {
    tiled_prefill: false,
    mmai_prefill: false,
    q4k_b1_rows4: false,
    q6k_b1_rows4: false,
    q6k_b1_rows8: false,
};

fn request(w_dtype: GgmlDType, nrows: usize, ncols: usize, b_size: usize) -> FwdRequest {
    FwdRequest {
        w_dtype,
        rhs_dtype: DType::F32,
        self_dims: vec![nrows, ncols],
        rhs_dims: vec![1, b_size, ncols],
        contiguous_offsets: Some((0, b_size * ncols)),
        matrix_row_padding: 512,
    }
}

fn plan(w_dtype: GgmlDType, nrows: usize, b_size: usize, settings: &Settings) -> FwdPlan {
    match try_fwd(&request(w_dtype, nrows, 2560, b_size), settings) {
        Ok(Some(plan)) => plan,
        other => panic!("no plan: {other:?}"),
    }
}

#[test]
fn padding_gives_the_next_multiple() {
    assert_eq!(pad(0, 512), 0);
    assert_eq!(pad(1, 512), 512);
    assert_eq!(pad(512, 512), 512);
    assert_eq!(pad(2560, 512), 2560);
    assert_eq!(pad(2561, 512), 3072);
    assert_eq!(pad(7, 3), 9);
}

#[test]
fn other_types_are_left_to_other_code() {
    let other = request(GgmlDType::Other, 16, 256, 1);
    assert!(matches!(try_fwd(&other, &OFF), Ok(None)));
    let mut halves = request(GgmlDType::Q4K, 16, 256, 1);
    halves.rhs_dtype = DType::Other;
    assert!(matches!(try_fwd(&halves, &OFF), Ok(None)));
    // The types are looked at before the weights.
    let mut vector = request(GgmlDType::Other, 16, 256, 1);
    vector.self_dims = vec![256];
    assert!(matches!(try_fwd(&vector, &OFF), Ok(None)));
}

#[test]
fn weights_that_are_no_matrix_are_an_error() {
    let mut vector = request(GgmlDType::Q4K, 16, 256, 1);
    vector.self_dims = vec![256];
    match try_fwd(&vector, &OFF) {
        Err(error) => {
            assert_eq!(error, FwdError::UnexpectedNumberOfDims { expected: 2, got: 1 });
        }
        other => panic!("no error: {other:?}"),
    }
    vector.self_dims = vec![2, 16, 256];
    match try_fwd(&vector, &OFF) {
        Err(error) => {
            assert_eq!(error, FwdError::UnexpectedNumberOfDims { expected: 2, got: 3 });
        }
        other => panic!("no error: {other:?}"),
    }
}

#[test]
fn shapes_that_do_not_fit_are_left_to_other_code() {
    // No whole blocks.
    assert!(matches!(try_fwd(&request(GgmlDType::Q4K, 16, 255, 1), &OFF), Ok(None)));
    // Other columns than the weights.
    let mut narrow = request(GgmlDType::Q4K, 16, 256, 1);
    narrow.rhs_dims = vec![1, 1, 512];
    assert!(matches!(try_fwd(&narrow, &OFF), Ok(None)));
    // No rows.
    let mut empty = request(GgmlDType::Q4K, 16, 256, 1);
    empty.rhs_dims = vec![3, 0, 256];
    assert!(matches!(try_fwd(&empty, &OFF), Ok(None)));
    // One and four dimensions.
    let mut flat = request(GgmlDType::Q4K, 16, 256, 1);
    flat.rhs_dims = vec![256];
    assert!(matches!(try_fwd(&flat, &OFF), Ok(None)));
    flat.rhs_dims = vec![1, 1, 1, 256];
    assert!(matches!(try_fwd(&flat, &OFF), Ok(None)));
    // Not contiguous.
    let mut strided = request(GgmlDType::Q4K, 16, 256, 1);
    strided.contiguous_offsets = None;
    assert!(matches!(try_fwd(&strided, &OFF), Ok(None)));
}

#[test]
fn leading_dimensions_are_taken_together() {
    let mut batched = request(GgmlDType::Q6K, 16, 256, 1);
    batched.rhs_dims = vec![2, 3, 256];
    batched.contiguous_offsets = Some((64, 64 + 6 * 256));
    match try_fwd(&batched, &OFF) {
        Ok(Some(plan)) => {
            assert_eq!(plan.b_size, 6);
            assert_eq!(plan.out_len, 96);
            assert_eq!(plan.out_shape, vec![2, 3, 16]);
            assert_eq!(plan.rhs_range, (64, 1600));
        }
        other => panic!("no plan: {other:?}"),
    }
    batched.rhs_dims = vec![5, 256];
    match try_fwd(&batched, &OFF) {
        Ok(Some(plan)) => {
            assert_eq!(plan.b_size, 5);
            assert_eq!(plan.out_shape, vec![5, 16]);
        }
        other => panic!("no plan: {other:?}"),
    }
}

#[test]
fn up_to_eight_rows_are_quantized_in_plain_blocks() {
    let plan = plan(GgmlDType::Q4K, 4096, 8, &OFF);
    assert_eq!(plan.ncols_padded, 2560);
    assert_eq!(plan.q8_row_stride_bytes, 80 * 36);
    assert_eq!(plan.scratch_bytes, 8 * 80 * 36);
    assert_eq!(plan.out_len, 8 * 4096);
    assert_eq!(plan.quantize, Quantize::Q8_1 { ncols: 2560, ncols_padded: 2560, b_size: 8 });
}

#[test]
fn more_rows_are_quantized_for_matrix_products() {
    let args = MmqArgs {
        type_tag: 0,
        source_columns: 2560,
        source_stride_1: 2560,
        source_stride_2: 0,
        source_stride_3: 0,
        columns: 2560,
        rows: 9,
        channels: 1,
        samples: 1,
    };
    let q4k = plan(GgmlDType::Q4K, 4096, 9, &OFF);
    assert_eq!(q4k.q8_row_stride_bytes, 20 * 144);
    assert_eq!(q4k.scratch_bytes, 9 * 20 * 144);
    assert_eq!(q4k.quantize, Quantize::MmqDs4(args));
    let q6k = plan(GgmlDType::Q6K, 4096, 9, &OFF);
    assert_eq!(q6k.quantize, Quantize::MmqD4(args));
}

#[test]
fn one_row_is_decoded() {
    let q4k = plan(GgmlDType::Q4K, 9728, 1, &OFF);
    let kernel = Kernel::Q4kMatvecB1 { ncols: 2560, nrows: 9728 };
    assert_eq!(q4k.main, Launch { kernel, grid: (9728, 1, 1), timing: None });
    assert_eq!(q4k.tail, None);
    assert_eq!((q4k.main_b_size, q4k.tail_b_size), (1, 0));

    let rows4 = plan(GgmlDType::Q4K, 9728, 1, &Settings { q4k_b1_rows4: true, ..OFF });
    let kernel = Kernel::Q4kMatvecB1Rows4 { ncols: 2560, nrows: 9728 };
    let timing = Some(TimingSlot::Q4kMatvecB1Rows4);
    assert_eq!(rows4.main, Launch { kernel, grid: (2432, 1, 1), timing });

    let odd = plan(GgmlDType::Q4K, 9730, 1, &Settings { q4k_b1_rows4: true, ..OFF });
    assert_eq!(odd.main.kernel, Kernel::Q4kMatvecB1 { ncols: 2560, nrows: 9730 });
}

#[test]
fn eight_rows_go_before_four() {
    let both = Settings { q6k_b1_rows4: true, q6k_b1_rows8: true, ..OFF };
    let eight = plan(GgmlDType::Q6K, 9728, 1, &both);
    let kernel = Kernel::Q6kMatvecB1Rows8 { ncols: 2560, nrows: 9728 };
    let timing = Some(TimingSlot::Q6kMatvecB1Rows8);
    assert_eq!(eight.main, Launch { kernel, grid: (1216, 1, 1), timing });

    let four = plan(GgmlDType::Q6K, 12, 1, &both);
    let kernel = Kernel::Q6kMatvecB1Rows4 { ncols: 2560, nrows: 12 };
    let timing = Some(TimingSlot::Q6kMatvecB1Rows4);
    assert_eq!(four.main, Launch { kernel, grid: (3, 1, 1), timing });

    let one = plan(GgmlDType::Q6K, 13, 1, &both);
    let kernel = Kernel::Q6kMatvecB1 { ncols: 2560, nrows: 13 };
    assert_eq!(one.main, Launch { kernel, grid: (13, 1, 1), timing: None });
}

#[test]
fn a_few_rows_are_batched() {
    let all = Settings { tiled_prefill: true, mmai_prefill: true, ..OFF };
    let q4k = plan(GgmlDType::Q4K, 4096, 8, &all);
    let kernel = Kernel::Q4kMatmulBatched {
        ncols: 2560,
        nrows: 4096,
        b_size: 8,
        q8_row_stride_bytes: 2880,
    };
    assert_eq!(q4k.main, Launch { kernel, grid: (4096, 8, 1), timing: None });
    let q6k = plan(GgmlDType::Q6K, 4096, 2, &all);
    let kernel = Kernel::Q6kMatmulBatched {
        ncols: 2560,
        nrows: 4096,
        b_size: 2,
        q8_row_stride_bytes: 2880,
    };
    assert_eq!(q6k.main, Launch { kernel, grid: (4096, 2, 1), timing: None });
}

#[test]
fn many_rows_take_the_plain_matrix_product_by_default() {
    let q4k = plan(GgmlDType::Q4K, 4096, 372, &OFF);
    let kernel = Kernel::Q4kMmqMatmulBatched {
        ncols: 2560,
        nrows: 4096,
        b_size: 372,
        q8_row_stride_bytes: 2880,
    };
    let timing = Some(TimingSlot::Q4kScalarMmq);
    assert_eq!(q4k.main, Launch { kernel, grid: (4096, 372, 1), timing });
    let on = Settings { tiled_prefill: true, mmai_prefill: true, ..OFF };
    let q6k = plan(GgmlDType::Q6K, 1024, 372, &on);
    let kernel = Kernel::Q6kMmqMatmulBatched {
        ncols: 2560,
        nrows: 1024,
        b_size: 372,
        q8_row_stride_bytes: 2880,
    };
    let timing = Some(TimingSlot::Q6kMmq);
    assert_eq!(q6k.main, Launch { kernel, grid: (1024, 372, 1), timing });
}

#[test]
fn tiles_need_multiples_of_four() {
    let tiled = Settings { tiled_prefill: true, ..OFF };
    let q4k = plan(GgmlDType::Q4K, 4096, 372, &tiled);
    let kernel = Kernel::Q4kMmqMatmulTiled {
        ncols: 2560,
        nrows: 4096,
        b_size: 372,
        batch_start: 0,
    };
    let timing = Some(TimingSlot::Q4kTiledMmq);
    assert_eq!(q4k.main, Launch { kernel, grid: (1024, 93, 1), timing });
    assert_eq!(q4k.tail, None);
    let odd_batch = plan(GgmlDType::Q4K, 4096, 373, &tiled);
    assert_eq!(odd_batch.main.kernel.name(), "q4k_q8_1_mmq_matmul_batched_f32");
    let odd_rows = plan(GgmlDType::Q4K, 4095, 372, &tiled);
    assert_eq!(odd_rows.main.kernel.name(), "q4k_q8_1_mmq_matmul_batched_f32");
}

#[test]
fn the_matrix_unit_leaves_a_tail_to_tiles() {
    let mmai = Settings { mmai_prefill: true, tiled_prefill: true, ..OFF };
    let q4k = plan(GgmlDType::Q4K, 4096, 372, &mmai);
    let kernel = Kernel::Q4kMmqMatmulMmai {
        ncols: 2560,
        nrows: 4096,
        b_size: 372,
        batch_start: 0,
    };
    let timing = Some(TimingSlot::Q4kMmaiMain);
    assert_eq!(q4k.main, Launch { kernel, grid: (256, 23, 1), timing });
    assert_eq!((q4k.main_b_size, q4k.tail_b_size), (368, 4));
    let kernel = Kernel::Q4kMmqMatmulTiled {
        ncols: 2560,
        nrows: 4096,
        b_size: 372,
        batch_start: 368,
    };
    let timing = Some(TimingSlot::Q4kMmaiTail);
    assert_eq!(q4k.tail, Some(Launch { kernel, grid: (1024, 1, 1), timing }));

    let whole = plan(GgmlDType::Q4K, 64, 16, &mmai);
    assert_eq!(whole.main.grid, (4, 1, 1));
    assert_eq!(whole.tail, None);

    // Too few rows of activations, or rows that are no multiples.
    let name = |nrows, b_size| plan(GgmlDType::Q4K, nrows, b_size, &mmai).main.kernel.name();
    assert_eq!(name(64, 12), "q4k_q8_1_mmq_matmul_tiled_f32");
    assert_eq!(name(8, 16), "q4k_q8_1_mmq_matmul_tiled_f32");
    assert_eq!(name(64, 18), "q4k_q8_1_mmq_matmul_batched_f32");
}

#[test]
fn plans_are_consistent() {
    let mmai = Settings { mmai_prefill: true, ..OFF };
    for b_size in 1..70 {
        let plan = plan(GgmlDType::Q4K, 32, b_size, &mmai);
        assert_eq!(plan.out_shape.iter().product::<usize>(), plan.out_len);
        assert_eq!(plan.main_b_size + plan.tail_b_size, b_size);
        assert!(plan.tail_b_size < 16 && plan.tail_b_size % 4 == 0);
        assert_eq!(plan.tail.is_some(), plan.tail_b_size != 0);
    }
}

#[test]
fn sizes_that_do_not_fit_cannot_be_planned() {
    assert!(can_plan(&request(GgmlDType::Q4K, 4096, 2560, 372)));
    let mut huge = request(GgmlDType::Q4K, 4096, 2560, 372);
    huge.rhs_dims = vec![usize::MAX, 2, 2560];
    assert!(!can_plan(&huge));
    huge.rhs_dims = vec![usize::MAX, 2560];
    assert!(!can_plan(&huge));
    huge.rhs_dims = vec![1, 2560];
    assert!(can_plan(&huge));
    huge.matrix_row_padding = 0;
    assert!(!can_plan(&huge));
    // A product that is not taken on needs no sizes.
    huge.contiguous_offsets = None;
    assert!(can_plan(&huge));
    let mut other = request(GgmlDType::Other, 4096, 2560, 372);
    other.rhs_dims = vec![usize::MAX, 2, 2560];
    assert!(can_plan(&other));
}

fn environment(pairs: &[(&str, &str)]) -> Vec<(String, String)> {
    pairs.iter().map(|(n, v)| (n.to_string(), v.to_string())).collect()
}

#[test]
fn seven_texts_mean_on() {
    for text in ["1", "true", "TRUE", "yes", "YES", "on", "ON"] {
        assert!(text_is_on(&text.to_string()), "{text}");
    }
    for text in ["", "0", "True", "Yes", "On", "false", " 1", "1 ", "y"] {
        assert!(!text_is_on(&text.to_string()), "{text}");
    }
}

#[test]
fn each_setting_has_its_variable() {
    let none = environment(&[]);
    assert_eq!(read_settings(&none), OFF);
    assert!(!cutile_trace_enabled(&none));

    let tiled = environment(&[("PATH", "1"), ("PI_CANDLE_QUANT_CUTILE_TILED", "on")]);
    assert!(tiled_prefill_enabled(&tiled));
    assert_eq!(read_settings(&tiled), Settings { tiled_prefill: true, ..OFF });
    let mmai = environment(&[("PI_CANDLE_QUANT_CUTILE_MMAI", "1")]);
    assert!(mmai_prefill_enabled(&mmai));
    assert_eq!(read_settings(&mmai), Settings { mmai_prefill: true, ..OFF });
    let q4k = environment(&[("PI_CANDLE_QUANT_CUTILE_Q4K_B1_ROWS4", "1")]);
    assert!(q4k_b1_rows4_enabled(&q4k));
    assert_eq!(read_settings(&q4k), Settings { q4k_b1_rows4: true, ..OFF });
    let q6k4 = environment(&[("PI_CANDLE_QUANT_CUTILE_Q6K_B1_ROWS4", "yes")]);
    assert!(q6k_b1_rows4_enabled(&q6k4));
    assert_eq!(read_settings(&q6k4), Settings { q6k_b1_rows4: true, ..OFF });
    let q6k8 = environment(&[("PI_CANDLE_QUANT_CUTILE_Q6K_B1_ROWS8", "TRUE")]);
    assert!(q6k_b1_rows8_enabled(&q6k8));
    assert_eq!(read_settings(&q6k8), Settings { q6k_b1_rows8: true, ..OFF });
    let trace = environment(&[("PI_CANDLE_QUANT_TRACE", "1")]);
    assert!(cutile_trace_enabled(&trace));
    assert_eq!(read_settings(&trace), OFF);
}

#[test]
fn the_first_entry_of_a_variable_counts() {
    let twice = environment(&[
        ("PI_CANDLE_QUANT_CUTILE_TILED", "0"),
        ("PI_CANDLE_QUANT_CUTILE_TILED", "1"),
    ]);
    assert!(!tiled_prefill_enabled(&twice));
}
