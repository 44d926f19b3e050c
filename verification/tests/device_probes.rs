use cutile_quant::tile::{
    fill_blocks, fill_constant_f32, mmai, mmai_i8_16x16_probe, run_fill, run_mmai_probe, zero_tile,
    SMOKE_LEN, SMOKE_VALUE,
};

#[test]
fn cutile_borrowed_candle_stream_smoke_fills_candle_allocation() {
    let values: Vec<f32> =
        run_fill(SMOKE_VALUE, SMOKE_LEN as u32).into_iter().map(f32::from_bits).collect();
    assert_eq!(values.len(), 257);
    for (index, value) in values.iter().enumerate() {
        assert_eq!(*value, 3.25, "unexpected value at index {index}");
    }

    let values = run_fill(SMOKE_VALUE, SMOKE_LEN as u32);
    assert!(values.iter().all(|value| f32::from_bits(*value) == 3.25));
}

#[test]
fn cutile_borrowed_candle_stream_mmai_probe_works() {
    let values = run_mmai_probe();
    assert_eq!(values.len(), 16 * 16);
    for (index, value) in values.iter().enumerate() {
        assert_eq!(*value, 32, "unexpected mmai probe value at index {index}");
    }
}

#[test]
fn the_probe_stores_in_order() {
    let stores = mmai_i8_16x16_probe();
    for (index, store) in stores.iter().enumerate() {
        assert_eq!((store.index, store.value), (index as i32, 32));
    }
}

#[test]
fn programs_fill_runs_of_128_in_turns() {
    let stores = fill_constant_f32(7, 300, 2, 0);
    let indices: Vec<i32> = stores.iter().map(|s| s.index).collect();
    let expected: Vec<i32> = (0..128).chain(256..300).collect();
    assert_eq!(indices, expected);
    assert!(stores.iter().all(|s| s.bits == 7));
    let stores = fill_constant_f32(7, 300, 2, 1);
    let indices: Vec<i32> = stores.iter().map(|s| s.index).collect();
    let expected: Vec<i32> = (128..256).collect();
    assert_eq!(indices, expected);
    assert!(fill_constant_f32(7, 300, 4, 3).is_empty());
    assert!(fill_constant_f32(7, 0, 1, 0).is_empty());
    assert!(fill_constant_f32(7, -5, 1, 0).is_empty());
}

#[test]
fn any_number_of_programs_fills_every_element_once() {
    for grid in 1..6 {
        let mut count = vec![0; 700];
        for pid in 0..grid {
            for store in fill_constant_f32(1, 700, grid, pid) {
                count[store.index as usize] += 1;
            }
        }
        assert!(count.iter().all(|c| *c == 1), "grid {grid}");
    }
}

#[test]
fn blocks_are_rounded_up() {
    assert_eq!(fill_blocks(0), 0);
    assert_eq!(fill_blocks(1), 1);
    assert_eq!(fill_blocks(128), 1);
    assert_eq!(fill_blocks(257), 3);
    assert_eq!(run_fill(5, 0), Vec::<u32>::new());
}

#[test]
fn tiles_are_multiplied_as_unsigned_by_signed() {
    let lhs: Vec<u8> = (0..512).map(|i| (i * 37 % 256) as u8).collect();
    let rhs: Vec<i8> = (0..512).map(|i| (i * 53 % 256) as u8 as i8).collect();
    let acc: Vec<i32> = (0..256).map(|i| 1000 * i - 3).collect();
    let product = mmai(&lhs, &rhs, &acc);
    for row in 0..16 {
        for column in 0..16 {
            let mut expected = acc[row * 16 + column];
            for k in 0..32 {
                expected += lhs[row * 32 + k] as i32 * rhs[k * 16 + column] as i32;
            }
            assert_eq!(product[row * 16 + column], expected);
        }
    }
    assert_eq!(zero_tile(), vec![0; 256]);
}

#[test]
fn the_largest_products_fit() {
    let lhs = vec![255u8; 512];
    let rhs = vec![-128i8; 512];
    assert_eq!(mmai(&lhs, &rhs, &zero_tile()), vec![-1_044_480; 256]);
}
