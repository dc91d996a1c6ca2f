//! Single bits of a 64-bit word, and the facts about them that the bit-plane
//! and bit-matrix proofs rest on.

use vstd::prelude::*;

verus! {

/// Whether bit `pos` of `w` is set; bit 0 is the least significant.
pub open spec fn bit(w: u64, pos: int) -> bool {
    (w >> (pos as u64)) & 1 == 1
}

/// The word with all bits set where `b` holds, and none where it does not.
pub open spec fn fill(b: bool) -> u64 {
    if b {
        u64::MAX
    } else {
        0
    }
}

/// Bitwise operators act on each bit position separately.
pub proof fn lemma_bit_ops(x: u64, y: u64, pos: int)
    requires
        0 <= pos < 64,
    ensures
        bit(x ^ y, pos) == (bit(x, pos) != bit(y, pos)),
        bit(x & y, pos) == (bit(x, pos) && bit(y, pos)),
        bit(x | y, pos) == (bit(x, pos) || bit(y, pos)),
{
    let p: u64 = pos as u64;
    assert((((x ^ y) >> p) & 1 == 1) == ((((x >> p) & 1) == 1) != (((y >> p) & 1) == 1)))
        by (bit_vector);
    assert((((x & y) >> p) & 1 == 1) == ((((x >> p) & 1) == 1) && (((y >> p) & 1) == 1)))
        by (bit_vector);
    assert((((x | y) >> p) & 1 == 1) == ((((x >> p) & 1) == 1) || (((y >> p) & 1) == 1)))
        by (bit_vector);
}

/// Every bit of `fill(b)` is `b`.
pub proof fn lemma_bit_fill(b: bool, pos: int)
    requires
        0 <= pos < 64,
    ensures
        bit(fill(b), pos) == b,
{
    let p: u64 = pos as u64;
    assert(p < 64 ==> (0xFFFF_FFFF_FFFF_FFFFu64 >> p) & 1 == 1) by (bit_vector);
    assert((0u64 >> p) & 1 == 0) by (bit_vector);
}

/// Two words that agree on their lowest `k` bits agree below bit `k` as
/// numbers; at `k == 64` they are equal.
proof fn lemma_agree_below(x: u64, y: u64, k: int)
    requires
        0 <= k <= 64,
        forall|pos: int| 0 <= pos < k ==> bit(x, pos) == bit(y, pos),
    ensures
        k < 64 ==> x & !(u64::MAX << (k as u64)) == y & !(u64::MAX << (k as u64)),
        k == 64 ==> x == y,
    decreases k,
{
    if k == 0 {
        assert(x & !(u64::MAX << 0u64) == y & !(u64::MAX << 0u64)) by (bit_vector);
    } else {
        lemma_agree_below(x, y, k - 1);
        let j: u64 = (k - 1) as u64;
        assert(bit(x, k - 1) == bit(y, k - 1));
        assert(((x >> j) & 1 == 1) == ((y >> j) & 1 == 1));
        let next: u64 = (j + 1) as u64;
        assert(j < 63 ==> x & !(u64::MAX << next) == y & !(u64::MAX << next)) by (bit_vector)
            requires
                j < 64,
                next == j + 1,
                x & !(u64::MAX << j) == y & !(u64::MAX << j),
                ((x >> j) & 1 == 1) == ((y >> j) & 1 == 1),
        ;
        assert(j == 63 ==> x == y) by (bit_vector)
            requires
                j < 64,
                x & !(u64::MAX << j) == y & !(u64::MAX << j),
                ((x >> j) & 1 == 1) == ((y >> j) & 1 == 1),
        ;
    }
}

/// A word is determined by its 64 bits.
pub proof fn lemma_bits_determine_word(x: u64, y: u64)
    requires
        forall|pos: int| 0 <= pos < 64 ==> bit(x, pos) == bit(y, pos),
    ensures
        x == y,
{
    lemma_agree_below(x, y, 64);
}

} // verus!
