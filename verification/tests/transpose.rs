use bitsliced_op::{make_perm, transpose_scalar};

#[test]
fn test_transpose_scalar() {
    let mut input = [0u64; 64];
    input[0] = 0xFFFFFFFFFFFFFFF0;
    input[1] = 0xFFFFFFFFFFFFFFF0;

    let transposed = transpose_scalar(&input);
    for i in 0..60 {
        assert_eq!(
            transposed[i],
            0b1100000000000000000000000000000000000000000000000000000000000000
        );
    }
    assert_eq!(transposed[60], 0);
    assert_eq!(transposed[61], 0);
    assert_eq!(transposed[62], 0);
    assert_eq!(transposed[63], 0);
}

#[test]
fn transpose_moves_every_single_entry() {
    // A matrix with one entry set, in row r and column c (column 0 is the
    // most significant bit), becomes the one with row c, column r set.
    for r in 0..64usize {
        for c in 0..64usize {
            let mut input = [0u64; 64];
            input[r] = 1u64 << (63 - c);
            let mut expected = [0u64; 64];
            expected[c] = 1u64 << (63 - r);
            assert_eq!(transpose_scalar(&input), expected);
        }
    }
}

#[test]
fn transpose_keeps_the_diagonal() {
    let mut input = [0u64; 64];
    for r in 0..64 {
        input[r] = 1u64 << (63 - r);
    }
    assert_eq!(transpose_scalar(&input), input);
}

#[test]
fn transpose_turns_a_row_into_a_column() {
    let mut input = [0u64; 64];
    input[5] = u64::MAX;
    assert_eq!(transpose_scalar(&input), [1u64 << (63 - 5); 64]);
}

#[test]
fn perm_table_follows_its_formula() {
    let p = make_perm();
    for byte_index in 0..8usize {
        for lane in 0..8usize {
            assert_eq!(
                p[byte_index * 8 + lane] as usize,
                lane * 8 + (7 - byte_index)
            );
        }
    }
    assert_eq!(p[0], 7);
    assert_eq!(p[1], 15);
    assert_eq!(p[8], 6);
    assert_eq!(p[63], 56);
}
