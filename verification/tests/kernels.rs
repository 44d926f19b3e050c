use cutile_quant::expr::{Expr, Output, Step};
use cutile_quant::launch::Kernel;
use cutile_quant::plan::{try_fwd, DType, FwdRequest, GgmlDType};
use cutile_quant::product::{buffers_fit, run_product};
use cutile_quant::q4k::{
    q4k_q8_1_matmul_batched_f32, q4k_q8_1_matvec_b1_f32, q4k_q8_1_matvec_b1_rows4_f32,
    q4k_q8_1_mmq_matmul_batched_f32, q4k_q8_1_mmq_matmul_mmai_16x16_f32,
    q4k_q8_1_mmq_matmul_tiled_f32,
};
use cutile_quant::q6k::{
    q6k_q8_1_matmul_batched_f32, q6k_q8_1_matvec_b1_f32, q6k_q8_1_matvec_b1_rows4_f32,
    q6k_q8_1_matvec_b1_rows8_f32, q6k_q8_1_mmq_matmul_batched_f32,
};
use cutile_quant::settings::Settings;

// Numbers

fn half(bits: u16) -> f64 {
    let sign = if bits >> 15 == 1 { -1.0 } else { 1.0 };
    let exponent = (bits >> 10) & 31;
    let fraction = (bits & 1023) as f64;
    let magnitude = if exponent == 0 {
        fraction * 2f64.powi(-24)
    } else {
        (1024.0 + fraction) * 2f64.powi(exponent as i32 - 25)
    };
    sign * magnitude
}

fn to_half(value: f64) -> u16 {
    let mut best = 0u16;
    for bits in (0u16..0x7c00).step_by(1) {
        if (half(bits) - value.abs()).abs() < (half(best) - value.abs()).abs() {
            best = bits;
        }
    }
    if value < 0.0 {
        best | 0x8000
    } else {
        best
    }
}

fn evaluate(e: &Expr) -> f64 {
    match e {
        Expr::Half(bits) => half(*bits),
        Expr::Single(bits) => f32::from_bits(*bits) as f64,
        Expr::Int(i) => *i as f64,
        Expr::Mul(a, b) => evaluate(a) * evaluate(b),
        Expr::Sub(a, b) => evaluate(a) - evaluate(b),
    }
}

fn accumulate(steps: &[Step]) -> f64 {
    let mut acc = 0.0;
    for step in steps {
        match step {
            Step::AddLanes(lanes) => acc += lanes.iter().map(evaluate).sum::<f64>(),
            Step::AddSub(a, b) => acc = acc + evaluate(a) - evaluate(b),
        }
    }
    acc
}

fn close(a: f64, b: f64) -> bool {
    (a - b).abs() <= 1e-9 * a.abs().max(b.abs()).max(1.0)
}

// Dequantized weights and activations, column by column

fn half_at(mem: &[u8], at: usize) -> f64 {
    half(mem[at] as u16 | (mem[at + 1] as u16) << 8)
}

fn q4k_weight(w: &[u8], blocks: usize, row: usize, column: usize) -> f64 {
    let b = &w[(row * blocks + column / 256) * 144..];
    let g = (column % 256) / 32;
    let (scale, min) = if g < 4 {
        (b[4 + g] & 63, b[8 + g] & 63)
    } else {
        ((b[8 + g] & 15) | (b[g] >> 6) << 4, (b[8 + g] >> 4) | (b[4 + g] >> 6) << 4)
    };
    let byte = b[16 + 32 * (g / 2) + column % 32];
    let q = if g % 2 == 0 { byte & 15 } else { byte >> 4 };
    half_at(b, 0) * scale as f64 * q as f64 - half_at(b, 2) * min as f64
}

fn q6k_weight(w: &[u8], blocks: usize, row: usize, column: usize) -> f64 {
    let b = &w[(row * blocks + column / 256) * 210..];
    let c = column % 256;
    let (half_index, run, l) = (c / 128, c % 128 / 32, c % 32);
    let low = b[64 * half_index + 32 * (run % 2) + l];
    let high = (b[128 + 32 * half_index + l] >> (2 * run)) & 3;
    let nibble = if run < 2 { low & 15 } else { low >> 4 };
    let q = (nibble | high << 4) as i32 - 32;
    half_at(b, 208) * (b[192 + c / 16] as i8) as f64 * q as f64
}

fn q8_plain(q8: &[u8], row_base: usize, column: usize) -> f64 {
    let base = row_base + column / 32 * 36;
    half_at(q8, base) * (q8[base + 4 + column % 32] as i8) as f64
}

fn q8_mmq(q8: &[u8], b_size: usize, batch: usize, column: usize) -> (usize, f64) {
    let base = (column / 128 * b_size + batch) * 144;
    let slot = column / 32 % 4;
    (base + 4 * slot, (q8[base + 16 + 32 * slot + column % 32] as i8) as f64)
}

// Buffers

fn random(len: usize, seed: u64) -> Vec<u8> {
    let mut state = seed * 2 + 1;
    (0..len)
        .map(|_| {
            state = state.wrapping_mul(6364136223846793005).wrapping_add(1442695040888963407);
            (state >> 33) as u8
        })
        .collect()
}

fn put_half(mem: &mut [u8], at: usize, value: u16) {
    mem[at] = value as u8;
    mem[at + 1] = (value >> 8) as u8;
}

// Small finite scales, all positive.
fn scale_bits(i: usize) -> u16 {
    0x2800 + (i as u16 * 37) % 0x400
}

fn q4k_rows(nrows: usize, blocks: usize, seed: u64) -> Vec<u8> {
    let mut w = random(nrows * blocks * 144, seed);
    for i in 0..nrows * blocks {
        put_half(&mut w, i * 144, scale_bits(i));
        put_half(&mut w, i * 144 + 2, scale_bits(i + 5));
    }
    w
}

fn q6k_rows(nrows: usize, blocks: usize, seed: u64) -> Vec<u8> {
    let mut w = random(nrows * blocks * 210, seed);
    for i in 0..nrows * blocks {
        put_half(&mut w, i * 210 + 208, scale_bits(i));
    }
    w
}

fn q8_rows(rows: usize, stride: usize, seed: u64) -> Vec<u8> {
    let mut q8 = random(rows * stride, seed);
    for row in 0..rows {
        for i in 0..stride / 36 {
            put_half(&mut q8, row * stride + i * 36, scale_bits(i + row));
            put_half(&mut q8, row * stride + i * 36 + 2, scale_bits(i + 3));
        }
    }
    q8
}

// Blocks for matrix products with scales 1/4 and exact sums.
fn q8_ds4(blocks128: usize, b_size: usize, seed: u64) -> Vec<u8> {
    let mut q8 = random(blocks128 * b_size * 144, seed);
    for i in 0..blocks128 * b_size {
        for slot in 0..4 {
            let mut sum = 0i32;
            for lane in 0..32 {
                let at = i * 144 + 16 + slot * 32 + lane;
                let small = (q8[at] as i8 / 8) as i32;
                q8[at] = small as i8 as u8;
                sum += small;
            }
            put_half(&mut q8, i * 144 + 4 * slot, 0x3400);
            put_half(&mut q8, i * 144 + 4 * slot + 2, to_half(sum as f64 / 4.0));
        }
    }
    q8
}

fn q8_d4(blocks128: usize, b_size: usize, seed: u64) -> Vec<u8> {
    let mut q8 = random(blocks128 * b_size * 144, seed);
    for i in 0..blocks128 * b_size {
        for slot in 0..4 {
            let scale = (0.01f32 * (1 + slot + i) as f32).to_bits();
            q8[i * 144 + 4 * slot..i * 144 + 4 * slot + 4].copy_from_slice(&scale.to_le_bytes());
        }
    }
    q8
}

fn single(output: &[Output]) -> &Output {
    assert_eq!(output.len(), 1);
    &output[0]
}

#[test]
fn q4k_decode_is_the_dot_product_of_a_row() {
    let (nrows, blocks) = (5, 2);
    let w = q4k_rows(nrows, blocks, 1);
    let q8 = q8_rows(1, 36 * 16, 2);
    for row in 0..nrows {
        let outputs = q4k_q8_1_matvec_b1_f32(&w, &q8, 512, 5, (row as i32, 0));
        let output = single(&outputs);
        assert_eq!(output.index, row as i32);
        assert_eq!(output.steps.len(), 16);
        let expected: f64 =
            (0..512).map(|c| q4k_weight(&w, blocks, row, c) * q8_plain(&q8, 0, c)).sum();
        assert!(close(accumulate(&output.steps), expected));
    }
    assert!(q4k_q8_1_matvec_b1_f32(&w, &q8, 512, 5, (5, 0)).is_empty());
}

#[test]
fn a_decode_lane_is_nested_as_it_is_rounded() {
    let w = q4k_rows(1, 1, 3);
    let q8 = q8_rows(1, 36 * 8, 4);
    let outputs = q4k_q8_1_matvec_b1_f32(&w, &q8, 256, 1, (0, 0));
    let boxed = |a: Expr, b: Expr| Expr::Mul(Box::new(a), Box::new(b));
    let scale = (w[4] & 63) as i32;
    let min = (w[8] & 63) as i32;
    let weight = Expr::Sub(
        Box::new(boxed(
            boxed(Expr::Half(scale_bits(0)), Expr::Int(scale)),
            Expr::Int((w[16 + 9] & 15) as i32),
        )),
        Box::new(boxed(Expr::Half(scale_bits(5)), Expr::Int(min))),
    );
    let activation = boxed(Expr::Half(scale_bits(0)), Expr::Int(q8[4 + 9] as i8 as i32));
    match &single(&outputs).steps[0] {
        Step::AddLanes(lanes) => {
            assert_eq!(lanes.len(), 32);
            assert_eq!(lanes[9], boxed(weight, activation));
        }
        other => panic!("not lanes: {other:?}"),
    }
}

#[test]
fn four_rows_of_q4k_are_four_decodes() {
    let w = q4k_rows(8, 1, 5);
    let q8 = q8_rows(1, 36 * 8, 6);
    for pid in 0..2 {
        let tile = q4k_q8_1_matvec_b1_rows4_f32(&w, &q8, 256, 8, (pid, 0));
        assert_eq!(tile.len(), 4);
        for (k, output) in tile.iter().enumerate() {
            let row = 4 * pid + k as i32;
            let one = q4k_q8_1_matvec_b1_f32(&w, &q8, 256, 8, (row, 0));
            assert_eq!(output, single(&one));
        }
    }
    assert!(q4k_q8_1_matvec_b1_rows4_f32(&w, &q8, 256, 8, (2, 0)).is_empty());
    assert!(q4k_q8_1_matvec_b1_rows4_f32(&w, &q8, 256, 7, (1, 0)).is_empty());
}

#[test]
fn a_few_rows_of_q4k_are_decodes_of_their_rows() {
    let (nrows, stride) = (3, 36 * 16);
    let w = q4k_rows(nrows, 1, 7);
    let q8 = q8_rows(4, stride, 8);
    for row in 0..3 {
        for batch in 0..4 {
            let outputs = q4k_q8_1_matmul_batched_f32(
                &w,
                &q8,
                256,
                3,
                4,
                stride as i32,
                (row, batch),
            );
            let output = single(&outputs);
            assert_eq!(output.index, batch * 3 + row);
            let alone = &q8[batch as usize * stride..];
            let one = q4k_q8_1_matvec_b1_f32(&w, alone, 256, 3, (row, 0));
            assert_eq!(output.steps, single(&one).steps);
        }
    }
    assert!(q4k_q8_1_matmul_batched_f32(&w, &q8, 256, 3, 4, stride as i32, (3, 0)).is_empty());
    assert!(q4k_q8_1_matmul_batched_f32(&w, &q8, 256, 3, 4, stride as i32, (0, 4)).is_empty());
}

#[test]
fn many_rows_of_q4k_use_the_stored_sums() {
    let stride = 36 * 8;
    let w = q4k_rows(1, 1, 9);
    let q8 = q8_rows(9, stride, 10);
    let outputs = q4k_q8_1_matmul_batched_f32(&w, &q8, 256, 1, 9, stride as i32, (0, 3));
    let mut expected = 0.0;
    for g in 0..8 {
        let base = 3 * stride + g * 36;
        let b = &w;
        let (scale, min) = if g < 4 {
            (b[4 + g] & 63, b[8 + g] & 63)
        } else {
            ((b[8 + g] & 15) | (b[g] >> 6) << 4, (b[8 + g] >> 4) | (b[4 + g] >> 6) << 4)
        };
        let mut dot = 0i32;
        for lane in 0..32 {
            let byte = b[16 + 32 * (g / 2) + lane];
            let q = if g % 2 == 0 { byte & 15 } else { byte >> 4 };
            dot += q as i32 * (q8[base + 4 + lane] as i8) as i32;
        }
        expected += half_at(b, 0) * scale as f64 * half_at(&q8, base) * dot as f64;
        expected -= half_at(b, 2) * min as f64 * half_at(&q8, base + 2);
    }
    assert!(close(accumulate(&single(&outputs).steps), expected));
    assert!(matches!(single(&outputs).steps[0], Step::AddSub(_, _)));
}

#[test]
fn exact_sums_make_the_factored_form_equal() {
    let stride = 36 * 8;
    let w = q4k_rows(2, 1, 31);
    let mut q8 = q8_rows(9, stride, 32);
    for i in 0..9 * 8 {
        let mut sum = 0i32;
        for lane in 0..32 {
            let at = i * 36 + 4 + lane;
            let small = (q8[at] as i8 / 8) as i32;
            q8[at] = small as i8 as u8;
            sum += small;
        }
        put_half(&mut q8, i * 36, 0x3400);
        put_half(&mut q8, i * 36 + 2, to_half(sum as f64 / 4.0));
    }
    for row in 0..2 {
        for batch in 0..8 {
            let pid = (row, batch);
            let many = q4k_q8_1_matmul_batched_f32(&w, &q8, 256, 2, 9, stride as i32, pid);
            let few = q4k_q8_1_matmul_batched_f32(&w, &q8, 256, 2, 8, stride as i32, pid);
            assert!(close(accumulate(&single(&many).steps), accumulate(&single(&few).steps)));
        }
    }
}

#[test]
fn the_largest_dot_product_is_an_exact_single() {
    let mut w = vec![0xffu8; 144];
    put_half(&mut w, 0, 0x3c00);
    put_half(&mut w, 2, 0x3c00);
    let mut q8 = vec![0x80u8; 288];
    for slot in 0..2 {
        for group in 0..4 {
            put_half(&mut q8, slot * 144 + 4 * group, 0x3c00);
            put_half(&mut q8, slot * 144 + 4 * group + 2, 0x3c00);
        }
    }
    let outputs = q4k_q8_1_mmq_matmul_batched_f32(&w, &q8, 256, 1, 1, 0, (0, 0));
    for step in &single(&outputs).steps {
        match step {
            Step::AddSub(Expr::Mul(_, dot), _) => assert_eq!(**dot, Expr::Int(-61440)),
            other => panic!("not factored: {other:?}"),
        }
    }
    assert_eq!((-61440i32) as f32 as i32, -61440);
}

#[test]
fn exact_sums_make_the_matrix_product_a_dot_product() {
    let (nrows, blocks, b_size) = (2, 2, 10);
    let w = q4k_rows(nrows, blocks, 11);
    let q8 = q8_ds4(4, b_size, 12);
    for row in 0..nrows {
        for batch in 0..b_size {
            let outputs = q4k_q8_1_mmq_matmul_batched_f32(
                &w,
                &q8,
                512,
                2,
                10,
                0,
                (row as i32, batch as i32),
            );
            let output = single(&outputs);
            assert_eq!(output.index, (batch * nrows + row) as i32);
            let expected: f64 = (0..512)
                .map(|c| {
                    let (scale_at, q) = q8_mmq(&q8, b_size, batch, c);
                    q4k_weight(&w, blocks, row, c) * half_at(&q8, scale_at) * q
                })
                .sum();
            assert!(close(accumulate(&output.steps), expected));
        }
    }
    assert!(q4k_q8_1_mmq_matmul_batched_f32(&w, &q8, 512, 2, 10, 0, (2, 0)).is_empty());
    assert!(q4k_q8_1_mmq_matmul_batched_f32(&w, &q8, 512, 2, 10, 0, (0, 10)).is_empty());
}

#[test]
fn a_tile_of_four_by_four_is_sixteen_products() {
    let w = q4k_rows(8, 1, 13);
    let q8 = q8_ds4(2, 12, 14);
    let tile = q4k_q8_1_mmq_matmul_tiled_f32(&w, &q8, 256, 8, 12, 4, (1, 1));
    assert_eq!(tile.len(), 16);
    for (o, output) in tile.iter().enumerate() {
        let (row, batch) = (4 + o as i32 % 4, 8 + o as i32 / 4);
        let one = q4k_q8_1_mmq_matmul_batched_f32(&w, &q8, 256, 8, 12, 0, (row, batch));
        assert_eq!(output, single(&one));
    }
}

#[test]
fn a_tile_of_the_matrix_unit_is_256_products() {
    let w = q4k_rows(32, 1, 15);
    let q8 = q8_ds4(2, 20, 16);
    let tile = q4k_q8_1_mmq_matmul_mmai_16x16_f32(&w, &q8, 256, 32, 20, 0, (1, 0));
    assert_eq!(tile.len(), 256);
    for (o, output) in tile.iter().enumerate() {
        let (row, batch) = (16 + o as i32 % 16, o as i32 / 16);
        let one = q4k_q8_1_mmq_matmul_batched_f32(&w, &q8, 256, 32, 20, 0, (row, batch));
        assert_eq!(output, single(&one));
    }
    assert!(q4k_q8_1_mmq_matmul_mmai_16x16_f32(&w, &q8, 256, 32, 20, 0, (2, 0)).is_empty());
    assert!(q4k_q8_1_mmq_matmul_mmai_16x16_f32(&w, &q8, 256, 32, 20, 0, (0, 2)).is_empty());
    assert!(q4k_q8_1_mmq_matmul_mmai_16x16_f32(&w, &q8, 256, 32, 20, 20, (0, 0)).is_empty());
}

#[test]
fn q6k_decode_is_the_dot_product_of_a_row() {
    let (nrows, blocks) = (3, 2);
    let w = q6k_rows(nrows, blocks, 17);
    let q8 = q8_rows(1, 36 * 16, 18);
    for row in 0..nrows {
        let outputs = q6k_q8_1_matvec_b1_f32(&w, &q8, 512, 3, (row as i32, 0));
        let output = single(&outputs);
        assert_eq!(output.index, row as i32);
        assert_eq!(output.steps.len(), 128);
        let expected: f64 =
            (0..512).map(|c| q6k_weight(&w, blocks, row, c) * q8_plain(&q8, 0, c)).sum();
        assert!(close(accumulate(&output.steps), expected));
    }
    assert!(q6k_q8_1_matvec_b1_f32(&w, &q8, 512, 3, (3, 0)).is_empty());
}

#[test]
fn several_rows_of_q6k_are_several_decodes() {
    let w = q6k_rows(16, 1, 19);
    let q8 = q8_rows(1, 36 * 8, 20);
    for pid in 0..2 {
        let tile = q6k_q8_1_matvec_b1_rows8_f32(&w, &q8, 256, 16, (pid, 0));
        assert_eq!(tile.len(), 8);
        for (k, output) in tile.iter().enumerate() {
            let one = q6k_q8_1_matvec_b1_f32(&w, &q8, 256, 16, (8 * pid + k as i32, 0));
            assert_eq!(output, single(&one));
        }
    }
    let tile = q6k_q8_1_matvec_b1_rows4_f32(&w, &q8, 256, 16, (3, 0));
    assert_eq!(tile.len(), 4);
    for (k, output) in tile.iter().enumerate() {
        let one = q6k_q8_1_matvec_b1_f32(&w, &q8, 256, 16, (12 + k as i32, 0));
        assert_eq!(output, single(&one));
    }
    assert!(q6k_q8_1_matvec_b1_rows4_f32(&w, &q8, 256, 16, (4, 0)).is_empty());
    assert!(q6k_q8_1_matvec_b1_rows4_f32(&w, &q8, 256, 15, (3, 0)).is_empty());
    assert!(q6k_q8_1_matvec_b1_rows8_f32(&w, &q8, 256, 15, (1, 0)).is_empty());
}

#[test]
fn a_few_rows_of_q6k_are_decodes_of_their_rows() {
    let stride = 36 * 16;
    let w = q6k_rows(2, 1, 21);
    let q8 = q8_rows(3, stride, 22);
    let outputs = q6k_q8_1_matmul_batched_f32(&w, &q8, 256, 2, 3, stride as i32, (1, 2));
    let output = single(&outputs);
    assert_eq!(output.index, 5);
    let one = q6k_q8_1_matvec_b1_f32(&w, &q8[2 * stride..], 256, 2, (1, 0));
    assert_eq!(output.steps, single(&one).steps);
    assert!(q6k_q8_1_matmul_batched_f32(&w, &q8, 256, 2, 3, stride as i32, (2, 0)).is_empty());
    assert!(q6k_q8_1_matmul_batched_f32(&w, &q8, 256, 2, 3, stride as i32, (0, 3)).is_empty());
}

#[test]
fn q6k_matrix_products_use_single_precision_scales() {
    let (blocks, b_size) = (2, 9);
    let w = q6k_rows(2, blocks, 23);
    let q8 = q8_d4(4, b_size, 24);
    let outputs = q6k_q8_1_mmq_matmul_batched_f32(&w, &q8, 512, 2, 9, 0, (1, 7));
    let output = single(&outputs);
    assert_eq!(output.index, 15);
    let expected: f64 = (0..512)
        .map(|c| {
            let (at, q) = q8_mmq(&q8, b_size, 7, c);
            let bits = u32::from_le_bytes([q8[at], q8[at + 1], q8[at + 2], q8[at + 3]]);
            q6k_weight(&w, blocks, 1, c) * f32::from_bits(bits) as f64 * q
        })
        .sum();
    assert!(close(accumulate(&output.steps), expected));
    assert!(q6k_q8_1_mmq_matmul_batched_f32(&w, &q8, 512, 2, 9, 0, (2, 0)).is_empty());
    assert!(q6k_q8_1_mmq_matmul_batched_f32(&w, &q8, 512, 2, 9, 0, (0, 9)).is_empty());
}

#[test]
fn kernels_without_columns_store_zero() {
    let outputs = q4k_q8_1_matvec_b1_f32(&[], &[], 255, 1, (0, 0));
    assert!(single(&outputs).steps.is_empty());
    let outputs = q4k_q8_1_matvec_b1_f32(&[], &[], -256, 1, (0, 0));
    assert!(single(&outputs).steps.is_empty());
    let outputs = q6k_q8_1_matvec_b1_f32(&[], &[], 0, 1, (0, 0));
    assert!(single(&outputs).steps.is_empty());
}

#[test]
fn kernels_run_by_their_values() {
    let w = q6k_rows(4, 1, 25);
    let q8 = q8_rows(1, 36 * 8, 26);
    let kernel = Kernel::Q6kMatvecB1Rows4 { ncols: 256, nrows: 4 };
    assert_eq!(kernel.name(), "q6k_q8_1_matvec_b1_rows4_f32");
    assert_eq!(
        kernel.run(&w, &q8, (0, 0)),
        q6k_q8_1_matvec_b1_rows4_f32(&w, &q8, 256, 4, (0, 0))
    );
}

const OFF: Settings = Settings {
    tiled_prefill: false,
    mmai_prefill: false,
    q4k_b1_rows4: false,
    q6k_b1_rows4: false,
    q6k_b1_rows8: false,
};

fn request(w_dtype: GgmlDType, nrows: usize, ncols: usize, b_size: usize) -> FwdRequest {
    FwdRequest {
        w_dtype,
        rhs_dtype: DType::F32,
        self_dims: vec![nrows, ncols],
        rhs_dims: vec![1, b_size, ncols],
        contiguous_offsets: Some((0, b_size * ncols)),
        matrix_row_padding: 512,
    }
}

#[test]
fn the_settings_have_no_part_in_the_result() {
    let w = q4k_rows(16, 1, 27);
    let q8 = q8_ds4(4, 20, 28);
    let request = request(GgmlDType::Q4K, 16, 256, 20);
    let plain = run_product(&request, &OFF, &w, &q8);
    assert_eq!(plain.len(), 320);
    let tiled = run_product(&request, &Settings { tiled_prefill: true, ..OFF }, &w, &q8);
    assert_eq!(plain, tiled);
    let mmai = run_product(&request, &Settings { mmai_prefill: true, ..OFF }, &w, &q8);
    assert_eq!(plain, mmai);
    for (index, steps) in plain.iter().enumerate() {
        let (row, batch) = (index as i32 % 16, index as i32 / 16);
        let one = q4k_q8_1_mmq_matmul_batched_f32(&w, &q8, 256, 16, 20, 0, (row, batch));
        assert_eq!(*steps, single(&one).steps);
    }
}

#[test]
fn decode_variants_give_the_same_product() {
    let w = q6k_rows(8, 1, 29);
    let q8 = q8_rows(1, 36 * 16, 30);
    let request = request(GgmlDType::Q6K, 8, 256, 1);
    let plain = run_product(&request, &OFF, &w, &q8);
    assert_eq!(plain.len(), 8);
    assert_eq!(plain, run_product(&request, &Settings { q6k_b1_rows4: true, ..OFF }, &w, &q8));
    assert_eq!(plain, run_product(&request, &Settings { q6k_b1_rows8: true, ..OFF }, &w, &q8));
}

#[test]
fn every_output_is_stored_once() {
    let all = Settings {
        tiled_prefill: true,
        mmai_prefill: true,
        q4k_b1_rows4: true,
        q6k_b1_rows4: true,
        q6k_b1_rows8: true,
    };
    for dtype in [GgmlDType::Q4K, GgmlDType::Q6K] {
        for settings in [OFF, all, Settings { mmai_prefill: false, ..all }] {
            for (nrows, b_size) in [(16, 1), (12, 1), (7, 1), (5, 3), (16, 20), (4, 12), (3, 9)] {
                let request = request(dtype, nrows, 256, b_size);
                let plan = match try_fwd(&request, &settings) {
                    Ok(Some(plan)) => plan,
                    other => panic!("no plan: {other:?}"),
                };
                let w = vec![0u8; nrows * 210];
                let q8 = vec![0u8; plan.scratch_bytes];
                assert!(buffers_fit(&request, &plan, w.len(), q8.len()));
                let mut count = vec![0; plan.out_len];
                for launch in [Some(plan.main), plan.tail].into_iter().flatten() {
                    for x in 0..launch.grid.0 {
                        for y in 0..launch.grid.1 {
                            for output in launch.kernel.run(&w, &q8, (x as i32, y as i32)) {
                                count[output.index as usize] += 1;
                            }
                        }
                    }
                }
                assert!(count.iter().all(|c| *c == 1), "{dtype:?} {nrows} {b_size}");
            }
        }
    }
}

#[test]
fn buffers_of_the_planned_sizes_fit() {
    let request = request(GgmlDType::Q6K, 8, 256, 1);
    let plan = match try_fwd(&request, &OFF) {
        Ok(Some(plan)) => plan,
        other => panic!("no plan: {other:?}"),
    };
    assert!(buffers_fit(&request, &plan, 8 * 210, plan.scratch_bytes));
    assert!(!buffers_fit(&request, &plan, 8 * 210 - 1, plan.scratch_bytes));
    assert!(!buffers_fit(&request, &plan, 8 * 210, plan.scratch_bytes - 1));
}

#[test]
fn buffers_beyond_32_bit_offsets_do_not_fit() {
    let request = request(GgmlDType::Q4K, 1 << 24, 256, 1);
    let plan = match try_fwd(&request, &OFF) {
        Ok(Some(plan)) => plan,
        other => panic!("no plan: {other:?}"),
    };
    assert!(!buffers_fit(&request, &plan, usize::MAX, usize::MAX));
}

// Quantizing, for the comparison with plain products below.

fn quantize_q4k(weights: &[f32]) -> Vec<u8> {
    let mut out = Vec::new();
    for block in weights.chunks(256) {
        let mut scales = [0f32; 8];
        let mut mins = [0f32; 8];
        for g in 0..8 {
            let group = &block[32 * g..32 * g + 32];
            let low = group.iter().cloned().fold(0f32, f32::min);
            let high = group.iter().cloned().fold(f32::MIN, f32::max);
            scales[g] = (high - low) / 15.0;
            mins[g] = -low;
        }
        let d = to_half(scales.iter().cloned().fold(0f32, f32::max) as f64 / 63.0);
        let dmin = to_half(mins.iter().cloned().fold(0f32, f32::max) as f64 / 63.0);
        let ratio = |x: f32, unit: u16| {
            if half(unit) == 0.0 {
                0u8
            } else {
                (x as f64 / half(unit)).round().clamp(0.0, 63.0) as u8
            }
        };
        let ls: Vec<u8> = scales.iter().map(|s| ratio(*s, d)).collect();
        let lm: Vec<u8> = mins.iter().map(|m| ratio(*m, dmin)).collect();
        let mut bytes = vec![0u8; 144];
        put_half(&mut bytes, 0, d);
        put_half(&mut bytes, 2, dmin);
        for g in 0..4 {
            bytes[4 + g] = ls[g] | (ls[g + 4] >> 4) << 6;
            bytes[8 + g] = lm[g] | (lm[g + 4] >> 4) << 6;
            bytes[12 + g] = (ls[g + 4] & 15) | (lm[g + 4] & 15) << 4;
        }
        for g in 0..8 {
            let scale = half(d) * ls[g] as f64;
            let min = half(dmin) * lm[g] as f64;
            for l in 0..32 {
                let x = block[32 * g + l] as f64;
                let q = if scale == 0.0 {
                    0
                } else {
                    ((x + min) / scale).round().clamp(0.0, 15.0) as u8
                };
                bytes[16 + 32 * (g / 2) + l] |= q << (4 * (g % 2));
            }
        }
        out.extend(bytes);
    }
    out
}

fn quantize_q8_ds4(x: &[f32], ncols: usize, padded: usize, b_size: usize) -> Vec<u8> {
    let mut out = vec![0u8; padded / 128 * b_size * 144];
    for batch in 0..b_size {
        for g in 0..ncols / 32 {
            let group = &x[batch * ncols + 32 * g..batch * ncols + 32 * g + 32];
            let largest = group.iter().fold(0f32, |a, v| a.max(v.abs()));
            let base = (g / 4 * b_size + batch) * 144;
            let scale = largest / 127.0;
            put_half(&mut out, base + 4 * (g % 4), to_half(scale as f64));
            put_half(&mut out, base + 4 * (g % 4) + 2, to_half(group.iter().sum::<f32>() as f64));
            for l in 0..32 {
                let q = if scale == 0.0 { 0.0 } else { (group[l] / scale).round() };
                out[base + 16 + 32 * (g % 4) + l] = q as i8 as u8;
            }
        }
    }
    out
}

#[test]
fn cutile_q4k_q8_1_mmq_mmai_small_matches_candle_cuda_matmul() {
    let (nrows, ncols, b_size) = (64usize, 512usize, 16usize);
    let weights = (0..nrows * ncols)
        .map(|i| {
            let phase = (i % 257) as f32;
            (phase * 0.011).sin() * 3.0 + ((i / ncols) as f32 - 4.0) * 0.03
        })
        .collect::<Vec<_>>();
    let x = (0..b_size * ncols)
        .map(|i| ((i % 131) as f32 * 0.017).cos() * 2.0 - 0.75)
        .collect::<Vec<_>>();
    let w = quantize_q4k(&weights);
    let q8 = quantize_q8_ds4(&x, ncols, 512, b_size);

    let mut expected = Vec::new();
    for batch in 0..b_size {
        for row in 0..nrows {
            expected.push(
                (0..ncols)
                    .map(|c| q4k_weight(&w, 2, row, c) * x[batch * ncols + c] as f64)
                    .sum::<f64>(),
            );
        }
    }

    let settings = Settings { mmai_prefill: true, ..OFF };
    let request = request(GgmlDType::Q4K, nrows, ncols, b_size);
    let actual: Vec<f64> =
        run_product(&request, &settings, &w, &q8).iter().map(|s| accumulate(s)).collect();

    assert_eq!(expected.len(), b_size * nrows);
    assert_eq!(actual.len(), expected.len());
    let mut sum_sq_err = 0.0;
    let mut sum_sq_expected = 0.0;
    for (expected, actual) in expected.iter().zip(actual.iter()) {
        sum_sq_err += (expected - actual) * (expected - actual);
        sum_sq_expected += expected * expected;
    }
    let rmse = (sum_sq_err / expected.len() as f64).sqrt();
    let expected_rms = (sum_sq_expected / expected.len() as f64).sqrt();
    let normalized_rmse = rmse / expected_rms.max(1.0e-12);
    assert!(normalized_rmse <= 1.0e-2, "normalized_rmse={normalized_rmse}");
}
