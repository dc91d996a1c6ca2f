use bitsliced_op::{
    all_ones, bitsliced_add, bitsliced_add_inline, bitsliced_add_single,
    bitsliced_add_single_inline, bitsliced_modulo_power_of_two,
    bitsliced_modulo_power_of_two_inline, des_reduction, des_reduction_inline, splat,
    transpose_scalar, zero, RangeError,
};
use wide::u64x8;

/// A batch whose lane `lane` holds the 64 integers of `values` and whose
/// other lanes hold zeros.
fn batch_of(values: &[u64; 64], lane: usize) -> [u64x8; 64] {
    let planes = transpose_scalar(values);
    let mut batch = [zero(); 64];
    for i in 0..64 {
        let mut words = [0u64; 8];
        words[lane] = planes[i];
        batch[i] = u64x8::new(words);
    }
    batch
}

/// The 64 integers that lane `lane` of a batch holds.
fn values_of(batch: &[u64x8; 64], lane: usize) -> [u64; 64] {
    let mut planes = [0u64; 64];
    for i in 0..64 {
        planes[i] = batch[i].to_array()[lane];
    }
    transpose_scalar(&planes)
}

fn sample(seed: u64) -> [u64; 64] {
    let mut values = [0u64; 64];
    let mut state = seed;
    for value in values.iter_mut() {
        state = state
            .wrapping_mul(6364136223846793005)
            .wrapping_add(1442695040888963407);
        *value = state ^ (state >> 29);
    }
    values
}

#[test]
fn test_add_works() {
    let mut a = [zero(); 64];
    a[63] = all_ones();
    let mut b = [zero(); 64];
    b[63] = all_ones();
    let sum = bitsliced_add(&a, &b);
    assert_eq!(sum[63], zero());
    assert_eq!(sum[62], all_ones());
    for i in 0..62 {
        assert_eq!(sum[i], zero());
    }
}

#[test]
fn test_add_single_works() {
    let mut a = [zero(); 64];
    a[63] = all_ones();
    let sum = bitsliced_add_single(&a, 1);
    assert_eq!(sum[63], zero());
    assert_eq!(sum[62], all_ones());
    for i in 0..62 {
        assert_eq!(sum[i], zero());
    }
}

#[test]
fn test_add_inline_works() {
    let mut a = [zero(); 64];
    a[63] = all_ones();
    let mut b = [zero(); 64];
    b[63] = all_ones();
    bitsliced_add_inline(&mut a, &b);
    assert_eq!(a[63], zero());
    assert_eq!(a[62], all_ones());
    for i in 0..62 {
        assert_eq!(a[i], zero());
    }
}

#[test]
fn test_add_single_inline_works() {
    let mut a = [zero(); 64];
    a[63] = all_ones();
    bitsliced_add_single_inline(&mut a, 1);
    assert_eq!(a[63], zero());
    assert_eq!(a[62], all_ones());
    for i in 0..62 {
        assert_eq!(a[i], zero());
    }
}

#[test]
fn test_modulo_works() {
    let a = [all_ones(); 64];
    let res = bitsliced_modulo_power_of_two(&a, 56).unwrap();
    for i in 0..8 {
        assert_eq!(res[i], zero());
    }
    for i in 8..64 {
        assert_eq!(res[i], all_ones());
    }
}

#[test]
fn test_modulo_inline_works() {
    let mut a = [all_ones(); 64];
    let _ = bitsliced_modulo_power_of_two_inline(&mut a, 56).unwrap();
    for i in 0..8 {
        assert_eq!(a[i], zero());
    }
    for i in 8..64 {
        assert_eq!(a[i], all_ones());
    }
}

#[test]
fn splat_sets_every_lane() {
    assert_eq!(splat(7).to_array(), [7u64; 8]);
    assert_eq!(splat(0xDEAD_BEEF_0000_0001).to_array(), [0xDEAD_BEEF_0000_0001u64; 8]);
    assert_eq!(all_ones().to_array(), [u64::MAX; 8]);
    assert_eq!(zero().to_array(), [0u64; 8]);
}

#[test]
fn add_is_lane_wise() {
    // Lane l of plane 63 holds l + 1 in a and 3 * l in b; every other plane
    // is clear, so plane 63 is the exclusive or and plane 62 the conjunction.
    let mut a = [zero(); 64];
    let mut b = [zero(); 64];
    a[63] = u64x8::new([1, 2, 3, 4, 5, 6, 7, 8]);
    b[63] = u64x8::new([0, 3, 6, 9, 12, 15, 18, 21]);
    let sum = bitsliced_add(&a, &b);
    assert_eq!(
        sum[63].to_array(),
        [1 ^ 0, 2 ^ 3, 3 ^ 6, 4 ^ 9, 5 ^ 12, 6 ^ 15, 7 ^ 18, 8 ^ 21]
    );
    assert_eq!(
        sum[62].to_array(),
        [1 & 0, 2 & 3, 3 & 6, 4 & 9, 5 & 12, 6 & 15, 7 & 18, 8 & 21]
    );
    for i in 0..62 {
        assert_eq!(sum[i].to_array(), [0u64; 8]);
    }
}

#[test]
fn carry_ripples_through_all_planes() {
    // Every integer is 2^64 - 1; adding 1 wraps every one of them to 0.
    let a = [all_ones(); 64];
    let sum = bitsliced_add_single(&a, 1);
    for i in 0..64 {
        assert_eq!(sum[i], zero());
    }
    // Adding the batch to itself doubles: 2 * (2^64 - 1) mod 2^64 = 2^64 - 2.
    let doubled = bitsliced_add(&a, &a);
    assert_eq!(doubled[63], zero());
    for i in 0..63 {
        assert_eq!(doubled[i], all_ones());
    }
}

#[test]
fn carry_uses_the_majority_of_three() {
    // Integers at bit 0 of lane 0: a = 3, b = 1, so the sum is 4. Plane 63
    // raises a carry from a & b, plane 62 passes it on through carry & (a ^ b).
    let mut a = [zero(); 64];
    let mut b = [zero(); 64];
    a[63] = u64x8::new([1, 0, 0, 0, 0, 0, 0, 0]);
    a[62] = u64x8::new([1, 0, 0, 0, 0, 0, 0, 0]);
    b[63] = u64x8::new([1, 0, 0, 0, 0, 0, 0, 0]);
    let sum = bitsliced_add(&a, &b);
    assert_eq!(sum[63].to_array(), [0u64; 8]);
    assert_eq!(sum[62].to_array(), [0u64; 8]);
    assert_eq!(sum[61].to_array(), [1, 0, 0, 0, 0, 0, 0, 0]);
    for i in 0..61 {
        assert_eq!(sum[i].to_array(), [0u64; 8]);
    }
}

#[test]
fn add_matches_wrapping_add_of_every_integer() {
    let xs = sample(1);
    let ys = sample(2);
    for lane in [0usize, 3, 7] {
        let a = batch_of(&xs, lane);
        let b = batch_of(&ys, lane);
        let sum = bitsliced_add(&a, &b);
        let got = values_of(&sum, lane);
        for n in 0..64 {
            assert_eq!(got[n], xs[n].wrapping_add(ys[n]));
        }
        for other in 0..8 {
            if other != lane {
                assert_eq!(values_of(&sum, other), [0u64; 64]);
            }
        }
    }
}

#[test]
fn add_single_matches_wrapping_add_of_the_scalar() {
    let xs = sample(3);
    let a = batch_of(&xs, 5);
    for scalar in [0u64, 1, 0x8000_0000_0000_0000, 0x0123_4567_89AB_CDEF, u64::MAX] {
        let sum = bitsliced_add_single(&a, scalar);
        let got = values_of(&sum, 5);
        for n in 0..64 {
            assert_eq!(got[n], xs[n].wrapping_add(scalar));
        }
        // The other lanes held zeros, so they now hold the scalar.
        assert_eq!(values_of(&sum, 0), [scalar; 64]);
    }
}

#[test]
fn add_single_exact_value() {
    let mut xs = [0u64; 64];
    xs[0] = 0xFFFF_FFFF_FFFF_FFFF;
    xs[1] = 41;
    xs[63] = 0x00FF_FFFF_FFFF_FFFF;
    let sum = bitsliced_add_single(&batch_of(&xs, 0), 1);
    let got = values_of(&sum, 0);
    assert_eq!(got[0], 0);
    assert_eq!(got[1], 42);
    assert_eq!(got[2], 1);
    assert_eq!(got[63], 0x0100_0000_0000_0000);
}

#[test]
fn in_place_variants_agree_with_functional_ones() {
    let a = batch_of(&sample(4), 2);
    let b = batch_of(&sample(5), 2);

    let mut x = a;
    bitsliced_add_inline(&mut x, &b);
    assert_eq!(x, bitsliced_add(&a, &b));

    let mut y = a;
    bitsliced_add_single_inline(&mut y, 0xABCD_EF01_2345_6789);
    assert_eq!(y, bitsliced_add_single(&a, 0xABCD_EF01_2345_6789));

    for k in [0usize, 1, 13, 56, 63, 64] {
        let mut z = a;
        assert_eq!(bitsliced_modulo_power_of_two_inline(&mut z, k), Ok(()));
        assert_eq!(z, bitsliced_modulo_power_of_two(&a, k).unwrap());
    }

    let mut w = a;
    des_reduction_inline(&mut w, 99);
    assert_eq!(w, des_reduction(&a, 99));
}

#[test]
fn modulo_reduces_every_integer() {
    let xs = sample(6);
    let a = batch_of(&xs, 1);
    for k in [1usize, 8, 31, 56, 63] {
        let res = bitsliced_modulo_power_of_two(&a, k).unwrap();
        let got = values_of(&res, 1);
        for n in 0..64 {
            assert_eq!(got[n], xs[n] % (1u64 << k));
        }
    }
}

#[test]
fn modulo_exact_value() {
    let mut xs = [0u64; 64];
    xs[7] = 0x1234_5678_9ABC_DEF0;
    let res = bitsliced_modulo_power_of_two(&batch_of(&xs, 0), 16).unwrap();
    assert_eq!(values_of(&res, 0)[7], 0xDEF0);
}

#[test]
fn modulo_refuses_an_exponent_above_64() {
    let a = batch_of(&sample(7), 0);
    for k in [65usize, 66, 1000, usize::MAX] {
        assert_eq!(
            bitsliced_modulo_power_of_two(&a, k),
            Err(RangeError::ExponentTooLarge)
        );
        let mut b = a;
        assert_eq!(
            bitsliced_modulo_power_of_two_inline(&mut b, k),
            Err(RangeError::ExponentTooLarge)
        );
        assert_eq!(b, a);
    }
    assert_eq!(
        RangeError::ExponentTooLarge.message(),
        "k must be <= 64 for bitsliced modulo"
    );
}

#[test]
fn reduction_is_add_then_modulo_2_pow_56() {
    let xs = sample(8);
    let h = batch_of(&xs, 4);
    for index in [0u64, 1, 77, 0x00FF_FFFF_FFFF_FFFF, u64::MAX] {
        let res = des_reduction(&h, index);
        let got = values_of(&res, 4);
        for n in 0..64 {
            assert_eq!(got[n], xs[n].wrapping_add(index) % (1u64 << 56));
        }
        for plane in res.iter().take(8) {
            assert_eq!(*plane, zero());
        }
    }
}

#[test]
fn reduction_exact_value() {
    let mut xs = [0u64; 64];
    xs[0] = 0x00FF_FFFF_FFFF_FFFF;
    xs[1] = 0xAB00_0000_0000_0005;
    let mut h = batch_of(&xs, 0);
    des_reduction_inline(&mut h, 3);
    let got = values_of(&h, 0);
    assert_eq!(got[0], 2);
    assert_eq!(got[1], 8);
    assert_eq!(got[2], 3);
}
