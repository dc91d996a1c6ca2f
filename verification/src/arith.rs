//! Carry-propagate arithmetic on bit-plane batches.
//!
//! A batch is 64 vector words. Plane 0 holds the most significant bit of
//! every integer of the batch and plane 63 the least significant one; bit
//! `pos` of lane `lane` belongs to integer number `lane * 64 + pos`.

use vstd::prelude::*;
use vstd::arithmetic::div_mod::lemma_mod_mod;
use vstd::arithmetic::power2::{lemma2_to64_rest, pow2};
use wide::u64x8;
use crate::error::RangeError;
use crate::model::{
    adder_carry, adder_sum, bit_planes, carry_into, integer, scalar_planes, sum_planes,
    truncated_planes,
};
use crate::value::{
    lemma_scalar_planes_value, lemma_sum_planes_adds, lemma_truncated_planes_reduces,
};
use crate::vector::{all_ones, and, lanes, or, uniform_lanes, xor, zero};

verus! {

/// One full-adder step on three vector words: the sum and the carry-out.
fn calc_sum_carry(a: u64x8, b: u64x8, carry: u64x8) -> (res: (u64x8, u64x8))
    ensures
        lanes(res.0) == Seq::new(8, |l: int| adder_sum(lanes(a)[l], lanes(b)[l], lanes(carry)[l])),
        lanes(res.1) == Seq::new(
            8,
            |l: int| adder_carry(lanes(a)[l], lanes(b)[l], lanes(carry)[l]),
        ),
{
    let a_xor_b = xor(a, b);
    let sum = xor(a_xor_b, carry);
    let next_carry = or(and(a, b), and(carry, a_xor_b));
    (sum, next_carry)
}

/// Adds `b` to `a` in place, integer by integer, wrapping at 2^64.
pub fn bitsliced_add_inline(a: &mut [u64x8; 64], b: &[u64x8; 64])
    ensures
        bit_planes(*final(a)) == sum_planes(bit_planes(*old(a)), bit_planes(*b)),
        forall|n: int|
            0 <= n < 512 ==> #[trigger] integer(bit_planes(*final(a)), n)
                == (integer(bit_planes(*old(a)), n) + integer(bit_planes(*b), n))
                % 0x1_0000_0000_0000_0000,
{
    let ghost pa = bit_planes(*a);
    let ghost pb = bit_planes(*b);
    let mut carry = zero();
    let mut i: usize = 64;
    while i > 0
        invariant
            i <= 64,
            pa == bit_planes(*old(a)),
            pb == bit_planes(*b),
            forall|l: int| 0 <= l < 8 ==> lanes(carry)[l] == carry_into(pa, pb, i - 1, l),
            forall|j: int| 0 <= j < i ==> a[j] == old(a)[j],
            forall|j: int, l: int|
                i <= j < 64 && 0 <= l < 8 ==> #[trigger] lanes(a[j])[l] == sum_planes(pa, pb)[j][l],
        decreases i,
    {
        i -= 1;
        let res = calc_sum_carry(a[i], b[i], carry);
        a[i] = res.0;
        carry = res.1;
    }
    assert(bit_planes(*a) =~~= sum_planes(pa, pb));
    proof {
        assert forall|n: int| 0 <= n < 512 implies #[trigger] integer(bit_planes(*a), n)
            == (integer(pa, n) + integer(pb, n)) % 0x1_0000_0000_0000_0000 by {
            lemma_sum_planes_adds(pa, pb, n);
        }
    }
}

/// The sum of `a` and `b`, integer by integer, wrapping at 2^64.
pub fn bitsliced_add(a: &[u64x8; 64], b: &[u64x8; 64]) -> (sum: [u64x8; 64])
    ensures
        bit_planes(sum) == sum_planes(bit_planes(*a), bit_planes(*b)),
        forall|n: int|
            0 <= n < 512 ==> #[trigger] integer(bit_planes(sum), n)
                == (integer(bit_planes(*a), n) + integer(bit_planes(*b), n))
                % 0x1_0000_0000_0000_0000,
{
    let mut sum = *a;
    bitsliced_add_inline(&mut sum, b);
    sum
}

/// The broadcast of bit `63 - i` of `s`: the plane `i` of the batch whose
/// every integer is `s`.
fn scalar_plane(s: u64, i: usize) -> (v: u64x8)
    requires
        i < 64,
    ensures
        lanes(v) == scalar_planes(s)[i as int],
{
    let shift_right: u64 = 63 - i as u64;
    let current_bit: u64 = (s >> shift_right) & 1;
    if current_bit == 1 {
        all_ones()
    } else {
        zero()
    }
}

/// Adds the scalar `b` to every integer of `a` in place, wrapping at 2^64.
pub fn bitsliced_add_single_inline(a: &mut [u64x8; 64], b: u64)
    ensures
        bit_planes(*final(a)) == sum_planes(bit_planes(*old(a)), scalar_planes(b)),
        forall|n: int|
            0 <= n < 512 ==> #[trigger] integer(bit_planes(*final(a)), n)
                == (integer(bit_planes(*old(a)), n) + b) % 0x1_0000_0000_0000_0000,
{
    let ghost pa = bit_planes(*a);
    let ghost pb = scalar_planes(b);
    let mut carry = zero();
    let mut i: usize = 64;
    while i > 0
        invariant
            i <= 64,
            pa == bit_planes(*old(a)),
            pb == scalar_planes(b),
            forall|l: int| 0 <= l < 8 ==> lanes(carry)[l] == carry_into(pa, pb, i - 1, l),
            forall|j: int| 0 <= j < i ==> a[j] == old(a)[j],
            forall|j: int, l: int|
                i <= j < 64 && 0 <= l < 8 ==> #[trigger] lanes(a[j])[l] == sum_planes(pa, pb)[j][l],
        decreases i,
    {
        i -= 1;
        let b_i = scalar_plane(b, i);
        let res = calc_sum_carry(a[i], b_i, carry);
        a[i] = res.0;
        carry = res.1;
    }
    assert(bit_planes(*a) =~~= sum_planes(pa, pb));
    proof {
        assert forall|n: int| 0 <= n < 512 implies #[trigger] integer(bit_planes(*a), n)
            == (integer(pa, n) + b) % 0x1_0000_0000_0000_0000 by {
            lemma_sum_planes_adds(pa, pb, n);
            lemma_scalar_planes_value(b, n);
        }
    }
}

/// The batch `a` with the scalar `b` added to every integer, wrapping at
/// 2^64.
pub fn bitsliced_add_single(a: &[u64x8; 64], b: u64) -> (sum: [u64x8; 64])
    ensures
        bit_planes(sum) == sum_planes(bit_planes(*a), scalar_planes(b)),
        forall|n: int|
            0 <= n < 512 ==> #[trigger] integer(bit_planes(sum), n)
                == (integer(bit_planes(*a), n) + b) % 0x1_0000_0000_0000_0000,
{
    let mut sum = *a;
    bitsliced_add_single_inline(&mut sum, b);
    sum
}

/// Reduces every integer of `a` modulo 2^k in place. An exponent above 64 is
/// refused, and `a` is then left as it was.
pub fn bitsliced_modulo_power_of_two_inline(a: &mut [u64x8; 64], k: usize) -> (res: Result<
    (),
    RangeError,
>)
    ensures
        k <= 64 ==> res is Ok,
        k <= 64 ==> bit_planes(*final(a)) == truncated_planes(bit_planes(*old(a)), k as int),
        k <= 64 ==> forall|n: int|
            0 <= n < 512 ==> #[trigger] integer(bit_planes(*final(a)), n)
                == integer(bit_planes(*old(a)), n) % pow2(k as nat),
        k > 64 ==> res is Err && res->Err_0 == RangeError::ExponentTooLarge,
        k > 64 ==> *final(a) == *old(a),
{
    if k > 64 {
        return Err(RangeError::ExponentTooLarge);
    }
    let end: usize = 64 - k;
    let cleared = zero();
    let mut i: usize = 0;
    while i < end
        invariant
            i <= end <= 64,
            lanes(cleared) == uniform_lanes(0),
            forall|j: int| i <= j < 64 ==> a[j] == old(a)[j],
            forall|j: int| 0 <= j < i ==> a[j] == cleared,
        decreases end - i,
    {
        a[i] = cleared;
        i += 1;
    }
    assert(bit_planes(*a) =~~= truncated_planes(bit_planes(*old(a)), k as int));
    proof {
        assert forall|n: int| 0 <= n < 512 implies #[trigger] integer(bit_planes(*a), n)
            == integer(bit_planes(*old(a)), n) % pow2(k as nat) by {
            lemma_truncated_planes_reduces(bit_planes(*old(a)), k as nat, n);
        }
    }
    Ok(())
}

/// The batch `a` with every integer reduced modulo 2^k. An exponent above 64
/// is refused.
pub fn bitsliced_modulo_power_of_two(a: &[u64x8; 64], k: usize) -> (res: Result<
    [u64x8; 64],
    RangeError,
>)
    ensures
        k <= 64 ==> res is Ok,
        k <= 64 ==> bit_planes(res->Ok_0) == truncated_planes(bit_planes(*a), k as int),
        k <= 64 ==> forall|n: int|
            0 <= n < 512 ==> #[trigger] integer(bit_planes(res->Ok_0), n)
                == integer(bit_planes(*a), n) % pow2(k as nat),
        k > 64 ==> res is Err && res->Err_0 == RangeError::ExponentTooLarge,
{
    if k > 64 {
        return Err(RangeError::ExponentTooLarge);
    }
    let mut out = [zero(); 64];
    let start: usize = 64 - k;
    let mut i: usize = start;
    while i < 64
        invariant
            start <= i <= 64,
            forall|j: int, l: int|
                0 <= j < start && 0 <= l < 8 ==> #[trigger] lanes(out[j])[l] == 0,
            forall|j: int| start <= j < i ==> out[j] == a[j],
        decreases 64 - i,
    {
        out[i] = a[i];
        i += 1;
    }
    assert(bit_planes(out) =~~= truncated_planes(bit_planes(*a), k as int));
    proof {
        assert forall|n: int| 0 <= n < 512 implies #[trigger] integer(bit_planes(out), n)
            == integer(bit_planes(*a), n) % pow2(k as nat) by {
            lemma_truncated_planes_reduces(bit_planes(*a), k as nat, n);
        }
    }
    Ok(out)
}

/// Reducing modulo 2^64 and then modulo 2^56 is reducing modulo 2^56.
proof fn lemma_reduce_twice(x: int)
    ensures
        pow2(56) == 0x100_0000_0000_0000,
        (x % 0x1_0000_0000_0000_0000) % 0x100_0000_0000_0000 == x % 0x100_0000_0000_0000,
{
    lemma2_to64_rest();
    lemma_mod_mod(x, 0x100_0000_0000_0000, 0x100);
}

/// The chain-reduction step in place: every integer `h` of the batch becomes
/// `(h + i) mod 2^56`.
pub fn des_reduction_inline(h: &mut [u64x8; 64], i: u64)
    ensures
        bit_planes(*final(h)) == truncated_planes(
            sum_planes(bit_planes(*old(h)), scalar_planes(i)),
            56,
        ),
        forall|n: int|
            0 <= n < 512 ==> #[trigger] integer(bit_planes(*final(h)), n)
                == (integer(bit_planes(*old(h)), n) + i) % 0x100_0000_0000_0000,
{
    bitsliced_add_single_inline(h, i);
    let ghost added = bit_planes(*h);
    bitsliced_modulo_power_of_two_inline(h, 56).unwrap();
    proof {
        assert forall|n: int| 0 <= n < 512 implies #[trigger] integer(bit_planes(*h), n)
            == (integer(bit_planes(*old(h)), n) + i) % 0x100_0000_0000_0000 by {
            lemma_reduce_twice(integer(bit_planes(*old(h)), n) + i);
            assert(integer(added, n) == (integer(bit_planes(*old(h)), n) + i)
                % 0x1_0000_0000_0000_0000);
        }
    }
}

/// The chain-reduction step: the batch of `(h + i) mod 2^56` for every
/// integer `h` of the batch.
pub fn des_reduction(h: &[u64x8; 64], i: u64) -> (res: [u64x8; 64])
    ensures
        bit_planes(res) == truncated_planes(sum_planes(bit_planes(*h), scalar_planes(i)), 56),
        forall|n: int|
            0 <= n < 512 ==> #[trigger] integer(bit_planes(res), n)
                == (integer(bit_planes(*h), n) + i) % 0x100_0000_0000_0000,
{
    let mut sum = *h;
    des_reduction_inline(&mut sum, i);
    sum
}

} // verus!
