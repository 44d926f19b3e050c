use cutile_quant::blocks::{
    read_half, read_q4k_group, read_q4k_quant, read_q4k_scale_min, read_q6k_d, read_q6k_quant,
    read_q6k_scale, read_q8_group, read_q8_mmq_group, read_signed, read_signed_bytes, read_single,
    Q8_1_MMQ_BLOCK_BYTES, Q8_1_MMQ_BLOCK_SIZE,
};

fn bytes(len: usize, seed: usize) -> Vec<u8> {
    (0..len).map(|i| ((i * 73 + seed * 31 + i / 7) % 256) as u8).collect()
}

#[test]
fn halves_and_singles_are_little_endian() {
    let mem = [0x34, 0x12, 0x78, 0x56, 0xef, 0xbe, 0xad, 0xde];
    assert_eq!(read_half(&mem, 0), 0x1234);
    assert_eq!(read_half(&mem, 1), 0x5678);
    assert_eq!(read_single(&mem, 1), 0xdead_beef);
}

#[test]
fn bytes_are_read_in_twos_complement() {
    let mem = [0u8, 1, 127, 128, 255];
    let read: Vec<i8> = (0..5).map(|i| read_signed(&mem, i)).collect();
    assert_eq!(read, vec![0, 1, 127, -128, -1]);
    let run = read_signed_bytes(&bytes(40, 1), 3);
    assert_eq!(run.len(), 32);
    assert_eq!(run[5], bytes(40, 1)[8] as i8);
}

#[test]
fn early_groups_have_a_byte_for_scale_and_min() {
    let mut block = vec![0u8; 144];
    block[4 + 2] = 0b1110_1010;
    block[8 + 2] = 0b0111_0001;
    assert_eq!(read_q4k_scale_min(&block, 0, 2), (0b10_1010, 0b11_0001));
}

#[test]
fn late_groups_join_their_top_bits() {
    let mut block = vec![0u8; 144];
    // Group 5: four bits of scale and min in byte 13, two more of the scale on top of byte 5 and
    // of the min on top of byte 9.
    block[13] = 0b1001_0110;
    block[5] = 0b1000_0000;
    block[9] = 0b1111_1111;
    assert_eq!(read_q4k_scale_min(&block, 0, 5), (0b10_0110, 0b11_1001));
}

#[test]
fn two_groups_share_bytes_of_nibbles() {
    let mut block = vec![0u8; 144];
    block[16 + 32 + 7] = 0xa5;
    assert_eq!(read_q4k_quant(&block, 0, 2, 7), 0x5);
    assert_eq!(read_q4k_quant(&block, 0, 3, 7), 0xa);
}

#[test]
fn a_q4k_group_is_read_whole() {
    let mem = bytes(300, 3);
    let group = read_q4k_group(&mem, 144, 7);
    assert_eq!(group.d, read_half(&mem, 72));
    assert_eq!(group.dmin, read_half(&mem, 73));
    assert_eq!((group.scale, group.min), read_q4k_scale_min(&mem, 144, 7));
    for lane in 0..32 {
        assert_eq!(group.quants[lane], mem[144 + 16 + 3 * 32 + lane] >> 4);
    }
}

#[test]
fn a_q8_block_has_scale_sum_and_quants() {
    let mem = bytes(80, 4);
    let group = read_q8_group(&mem, 36);
    assert_eq!(group.d, read_half(&mem, 18));
    assert_eq!(group.sum, read_half(&mem, 19));
    assert_eq!(group.quants, read_signed_bytes(&mem, 40));
}

#[test]
fn a_block_for_matrix_products_has_its_scales_first() {
    assert_eq!(Q8_1_MMQ_BLOCK_SIZE, 128);
    assert_eq!(Q8_1_MMQ_BLOCK_BYTES, 144);
    let mem = bytes(300, 5);
    let group = read_q8_mmq_group(&mem, 144, 2);
    assert_eq!(group.d, read_half(&mem, (144 + 8) / 2));
    assert_eq!(group.sum, read_half(&mem, (144 + 8) / 2 + 1));
    assert_eq!(group.quants, read_signed_bytes(&mem, 144 + 16 + 64));
}

// The weights of a Q6_K block in column order, unpacked the usual way.
fn unpack_q6k(block: &[u8]) -> Vec<i32> {
    let mut quants = vec![0i32; 256];
    for half in 0..2 {
        for l in 0..32 {
            let a = block[64 * half + l] as i32;
            let b = block[64 * half + 32 + l] as i32;
            let h = block[128 + 32 * half + l] as i32;
            quants[128 * half + l] = ((a & 15) | ((h & 3) << 4)) - 32;
            quants[128 * half + 32 + l] = ((b & 15) | (((h >> 2) & 3) << 4)) - 32;
            quants[128 * half + 64 + l] = ((a >> 4) | (((h >> 4) & 3) << 4)) - 32;
            quants[128 * half + 96 + l] = ((b >> 4) | (((h >> 6) & 3) << 4)) - 32;
        }
    }
    quants
}

#[test]
fn the_steps_of_a_q6k_block_read_every_column_once() {
    let mem = bytes(420, 6);
    let expected = unpack_q6k(&mem[210..]);
    let mut seen = vec![false; 256];
    for iqs in 0..32 {
        for part in 0..2 {
            for lane in 0..4 {
                let column =
                    128 * (iqs / 16) + 32 * ((iqs % 16) / 8 + 2 * part) + 4 * (iqs % 8) + lane;
                assert!(!seen[column]);
                seen[column] = true;
                assert_eq!(read_q6k_quant(&mem, 210, iqs, part, lane), expected[column]);
                let scale = mem[210 + 192 + column / 16] as i8;
                assert_eq!(read_q6k_scale(&mem, 210, iqs, part), scale);
            }
        }
    }
    assert!(seen.iter().all(|s| *s));
    assert_eq!(read_q6k_d(&mem, 210), read_half(&mem, 209));
}
