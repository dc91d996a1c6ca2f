//! Algebraic laws of the plane-level operations.

use vstd::prelude::*;
use crate::model::{carry_into, is_batch, scalar_planes, sum_planes, truncated_planes};

verus! {

/// The planes of the batch whose every integer is zero.
pub open spec fn zero_planes() -> Seq<Seq<u64>> {
    Seq::new(64, |i: int| Seq::new(8, |l: int| 0u64))
}

/// The carry chain does not depend on the order of the operands.
proof fn lemma_carry_commutes(a: Seq<Seq<u64>>, b: Seq<Seq<u64>>, i: int, l: int)
    ensures
        carry_into(a, b, i, l) == carry_into(b, a, i, l),
    decreases 63 - i,
{
    if i < 63 {
        lemma_carry_commutes(a, b, i + 1, l);
        let x = a[i + 1][l];
        let y = b[i + 1][l];
        let c = carry_into(a, b, i + 1, l);
        assert((x & y) | (c & (x ^ y)) == (y & x) | (c & (y ^ x))) by (bit_vector);
    }
}

/// Addition is commutative: the sum of `a` and `b` is the sum of `b` and
/// `a`, plane for plane.
pub proof fn lemma_sum_commutes(a: Seq<Seq<u64>>, b: Seq<Seq<u64>>)
    ensures
        sum_planes(a, b) == sum_planes(b, a),
{
    assert forall|i: int, l: int| 0 <= i < 64 && 0 <= l < 8 implies sum_planes(a, b)[i][l]
        == sum_planes(b, a)[i][l] by {
        lemma_carry_commutes(a, b, i, l);
        let x = a[i][l];
        let y = b[i][l];
        let c = carry_into(a, b, i, l);
        assert(x ^ y ^ c == y ^ x ^ c) by (bit_vector);
    }
    assert(sum_planes(a, b) =~~= sum_planes(b, a));
}

/// Adding the scalar zero never raises a carry.
proof fn lemma_no_carry_from_zero(a: Seq<Seq<u64>>, i: int, l: int)
    requires
        -1 <= i,
        0 <= l < 8,
    ensures
        carry_into(a, scalar_planes(0), i, l) == 0,
    decreases 63 - i,
{
    if i < 63 {
        lemma_no_carry_from_zero(a, i + 1, l);
        lemma_zero_plane(i + 1, l);
        let x = a[i + 1][l];
        assert((x & 0) | (0 & (x ^ 0)) == 0) by (bit_vector);
    }
}

/// Every word of the scalar zero's planes is zero.
proof fn lemma_zero_plane(i: int, l: int)
    requires
        0 <= i < 64,
        0 <= l < 8,
    ensures
        scalar_planes(0)[i][l] == 0,
{
    let p: u64 = (63 - i) as u64;
    assert((0u64 >> p) & 1 == 0) by (bit_vector);
}

/// Adding the scalar zero changes nothing.
pub proof fn lemma_add_zero(a: Seq<Seq<u64>>)
    requires
        is_batch(a),
    ensures
        sum_planes(a, scalar_planes(0)) == a,
{
    assert forall|i: int, l: int| 0 <= i < 64 && 0 <= l < 8 implies sum_planes(
        a,
        scalar_planes(0),
    )[i][l] == a[i][l] by {
        lemma_no_carry_from_zero(a, i, l);
        lemma_zero_plane(i, l);
        let x = a[i][l];
        assert(x ^ 0 ^ 0 == x) by (bit_vector);
    }
    assert(sum_planes(a, scalar_planes(0)) =~~= a);
}

/// Narrowing is idempotent: reducing modulo 2^k2 and then modulo 2^k1, with
/// `k1 <= k2`, is reducing modulo 2^k1.
pub proof fn lemma_truncate_narrows(a: Seq<Seq<u64>>, k1: int, k2: int)
    requires
        0 <= k1 <= k2 <= 64,
    ensures
        truncated_planes(truncated_planes(a, k2), k1) == truncated_planes(a, k1),
{
    assert(truncated_planes(truncated_planes(a, k2), k1) =~~= truncated_planes(a, k1));
}

/// Reducing modulo 2^64 changes nothing, and reducing modulo 2^0 leaves the
/// all-zero batch.
pub proof fn lemma_truncate_extremes(a: Seq<Seq<u64>>)
    requires
        is_batch(a),
    ensures
        truncated_planes(a, 64) == a,
        truncated_planes(a, 0) == zero_planes(),
{
    assert(truncated_planes(a, 64) =~~= a);
    assert(truncated_planes(a, 0) =~~= zero_planes());
}

} // verus!
