use bitsliced_op::{
    gather_bytes, gfni_bit_transpose_8x8, grab_128_lanes_a, grab_128_lanes_b, interleave_full,
    transpose_gfni, transpose_scalar,
};

/// A 512-bit group from its eight words, the most significant one first.
fn set_epi64(e7: u64, e6: u64, e5: u64, e4: u64, e3: u64, e2: u64, e1: u64, e0: u64) -> [u64; 8] {
    [e0, e1, e2, e3, e4, e5, e6, e7]
}

fn matrix(seed: u64) -> [u64; 64] {
    let mut rows = [0u64; 64];
    let mut state = seed;
    for row in rows.iter_mut() {
        state = state
            .wrapping_mul(6364136223846793005)
            .wrapping_add(1442695040888963407);
        *row = state ^ (state >> 27);
    }
    rows
}

#[test]
fn test_gather_bytes() {
    let mut input = [0u64; 64];
    input[0] = 0xFFFFFFFFFFFFFFFF;
    input[1] = 0xFF;

    let mut output = [0u64; 64];
    //gather byte with index i for every 8 rows into a u64
    for i in 0..8 {
        let shift = (7 - i) * 8;
        for j in 0..8 {
            let mut acc = 0u64;
            for jj in 0..8 {
                let row = input[j * 8 + jj];
                let byte = ((row >> shift) as u8) as u64;
                acc |= byte << (jj * 8);
            }
            output[i * 8 + j] = acc;
        }
    }

    let output2 = gather_bytes(&input);
    assert_eq!(output, output2);
}

#[test]
fn test_unpack() {
    let mut input = [0u64; 64];
    input[0] = 0xFFFFFFFFFFFFFFF0;
    input[1] = 0xFFFFFFFFFFFFFFF0;
    let transposed = transpose_gfni(&input);
    for i in 0..60 {
        assert_eq!(
            transposed[i],
            0b1100000000000000000000000000000000000000000000000000000000000000
        );
    }
    assert_eq!(transposed[60], 0);
    assert_eq!(transposed[61], 0);
    assert_eq!(transposed[62], 0);
    assert_eq!(transposed[63], 0);
}

#[test]
fn test_gfni() {
    let mut gfni_input = [0u64; 8];
    gfni_input[0] = 0xFF00000000000000;
    let input = set_epi64(
        gfni_input[7],
        gfni_input[6],
        gfni_input[5],
        gfni_input[4],
        gfni_input[3],
        gfni_input[2],
        gfni_input[1],
        gfni_input[0],
    );
    let output = gfni_bit_transpose_8x8(&input);
    let expected = set_epi64(
        0,
        0,
        0,
        0,
        0,
        0,
        0,
        0b0000000100000001000000010000000100000001000000010000000100000001 as u64,
    );
    assert_eq!(output == expected, true);
}

#[test]
fn test_interleave() {
    let a: u64 = 0b1100000011000000110000001100000011000000110000001100000011000000;
    let expected = 0b1100000000000000000000000000000000000000000000000000000000000000;

    let va = set_epi64(0, 0, 0, 0, 0, 0, 0, 0);
    let vb = set_epi64(0, 0, 0, a, 0, 0, 0, a);
    let interleaved = interleave_full(&va, &vb);
    for i in interleaved.0 {
        assert_eq!(expected, i);
    }
    for i in interleaved.1 {
        assert_eq!(expected, i);
    }
}

#[test]
fn test_grab_128_lanes() {
    let ones: u64 = 0xFFFFFFFFFFFFFFFF;
    let unique: u64 = 0xFF;
    let a = set_epi64(0, 0, ones, ones, 0, 0, ones, ones);
    let b = set_epi64(0, 0, unique, unique, 0, 0, unique, unique);
    let output = grab_128_lanes_a(&a, &b);
    let expected = set_epi64(unique, unique, ones, ones, unique, unique, ones, ones);
    assert_eq!(output == expected, true);
    let a = set_epi64(ones, ones, 0, 0, ones, ones, 0, 0);
    let b = set_epi64(unique, unique, 0, 0, unique, unique, 0, 0);
    let output = grab_128_lanes_b(&a, &b);
    let expected = set_epi64(unique, unique, ones, ones, unique, unique, ones, ones);
    assert_eq!(output == expected, true);
}

#[test]
fn staged_transpose_agrees_with_the_butterfly() {
    for seed in 0..16 {
        let m = matrix(seed);
        assert_eq!(transpose_gfni(&m), transpose_scalar(&m));
    }
    assert_eq!(transpose_gfni(&[0u64; 64]), [0u64; 64]);
    assert_eq!(transpose_gfni(&[u64::MAX; 64]), [u64::MAX; 64]);
}

#[test]
fn staged_transpose_is_its_own_inverse() {
    for seed in 20..28 {
        let m = matrix(seed);
        assert_eq!(transpose_gfni(&transpose_gfni(&m)), m);
    }
}

#[test]
fn staged_transpose_moves_every_single_entry() {
    for r in 0..64usize {
        for c in 0..64usize {
            let mut input = [0u64; 64];
            input[r] = 1u64 << (63 - c);
            let mut expected = [0u64; 64];
            expected[c] = 1u64 << (63 - r);
            assert_eq!(transpose_gfni(&input), expected);
        }
    }
}

#[test]
fn gather_collects_one_byte_column_per_word() {
    // Row n holds the byte n in every byte place, so the gathered word for
    // any byte column and group g lists rows 8g .. 8g + 7, lowest byte first.
    let mut input = [0u64; 64];
    for n in 0..64u64 {
        input[n as usize] = n * 0x0101_0101_0101_0101;
    }
    let gathered = gather_bytes(&input);
    for byte_index in 0..8usize {
        for group in 0..8u64 {
            let mut expected = 0u64;
            for lane in 0..8u64 {
                expected |= (group * 8 + lane) << (8 * lane);
            }
            assert_eq!(gathered[byte_index * 8 + group as usize], expected);
        }
    }
    // With distinct bytes in one row, byte column 0 is the most significant.
    let mut one_row = [0u64; 64];
    one_row[9] = 0x0807_0605_0403_0201;
    let gathered = gather_bytes(&one_row);
    for byte_index in 0..8u64 {
        assert_eq!(gathered[(byte_index * 8 + 1) as usize], (8 - byte_index) << 8);
    }
}

#[test]
fn block_transpose_moves_every_single_bit() {
    // Bit i of byte 7 - j goes to bit j of byte i.
    for i in 0..8u32 {
        for j in 0..8u32 {
            let mut group = [0u64; 8];
            group[3] = 1u64 << (8 * (7 - j) + i);
            let mut expected = [0u64; 8];
            expected[3] = 1u64 << (8 * i + j);
            assert_eq!(gfni_bit_transpose_8x8(&group), expected);
        }
    }
}

#[test]
fn grab_lanes_exact_values() {
    let a = [10u64, 11, 12, 13, 14, 15, 16, 17];
    let b = [20u64, 21, 22, 23, 24, 25, 26, 27];
    assert_eq!(grab_128_lanes_a(&a, &b), [10, 11, 20, 21, 14, 15, 24, 25]);
    assert_eq!(grab_128_lanes_b(&a, &b), [12, 13, 22, 23, 16, 17, 26, 27]);
}

#[test]
fn interleave_collects_bytes_of_sixteen_words() {
    // Word n of the run holds the bytes 16 * k + n, k = 0 .. 7 from the
    // least significant; the even words go to vb, the odd ones to va.
    let mut va = [0u64; 8];
    let mut vb = [0u64; 8];
    for n in 0..16u64 {
        let mut word = 0u64;
        for k in 0..8u64 {
            word |= (16 * k + n) << (8 * k);
        }
        if n % 2 == 0 {
            vb[(n / 2) as usize] = word;
        } else {
            va[(n / 2) as usize] = word;
        }
    }
    let (first, second) = interleave_full(&va, &vb);
    for m in 0..8u64 {
        let mut expected_first = 0u64;
        let mut expected_second = 0u64;
        for k in 0..8u64 {
            expected_first |= (16 * (7 - m) + (7 - k)) << (8 * k);
            expected_second |= (16 * (7 - m) + (15 - k)) << (8 * k);
        }
        assert_eq!(first[m as usize], expected_first);
        assert_eq!(second[m as usize], expected_second);
    }
}
