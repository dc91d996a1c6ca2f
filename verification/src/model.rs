//! The mathematical model of a bit-plane batch.
//!
//! A batch is 64 vector words of 8 lanes. Plane 0 holds the most significant
//! bit of every integer of the batch and plane 63 the least significant one;
//! bit `pos` of lane `lane` belongs to integer number `lane * 64 + pos`.

use vstd::prelude::*;
use vstd::arithmetic::power2::pow2;
use wide::u64x8;
use crate::bits::{bit, fill};
use crate::vector::lanes;

verus! {

/// The planes of a batch as plain words: 64 planes of 8 lanes each.
pub open spec fn bit_planes(batch: [u64x8; 64]) -> Seq<Seq<u64>> {
    Seq::new(64, |i: int| Seq::new(8, |l: int| lanes(batch[i])[l]))
}

/// Whether `p` has the shape of a batch: 64 planes of 8 lanes each.
pub open spec fn is_batch(p: Seq<Seq<u64>>) -> bool {
    &&& p.len() == 64
    &&& forall|i: int| 0 <= i < 64 ==> (#[trigger] p[i]).len() == 8
}

/// The planes of every batch have the shape of a batch.
pub proof fn lemma_bit_planes_shape(batch: [u64x8; 64])
    ensures
        is_batch(bit_planes(batch)),
{
}

/// The sum bit of a full adder, on 64 bit positions at once.
pub open spec fn adder_sum(x: u64, y: u64, carry: u64) -> u64 {
    x ^ y ^ carry
}

/// The carry-out of a full adder, on 64 bit positions at once.
pub open spec fn adder_carry(x: u64, y: u64, carry: u64) -> u64 {
    (x & y) | (carry & (x ^ y))
}

/// The carry that enters plane `i` of lane `l` when `a` and `b` are added:
/// none at the least significant plane, elsewhere the carry-out of the plane
/// below.
pub open spec fn carry_into(a: Seq<Seq<u64>>, b: Seq<Seq<u64>>, i: int, l: int) -> u64
    decreases 63 - i,
{
    if i >= 63 {
        0
    } else {
        adder_carry(a[i + 1][l], b[i + 1][l], carry_into(a, b, i + 1, l))
    }
}

/// The planes of the ripple-carry sum of `a` and `b`.
pub open spec fn sum_planes(a: Seq<Seq<u64>>, b: Seq<Seq<u64>>) -> Seq<Seq<u64>> {
    Seq::new(
        64,
        |i: int| Seq::new(8, |l: int| adder_sum(a[i][l], b[i][l], carry_into(a, b, i, l))),
    )
}

/// The planes of the batch whose every integer is `s`.
pub open spec fn scalar_planes(s: u64) -> Seq<Seq<u64>> {
    Seq::new(64, |i: int| Seq::new(8, |l: int| fill(bit(s, 63 - i))))
}

/// The planes of `a` with every integer reduced modulo 2^k: the `64 - k` most
/// significant planes cleared, the `k` least significant ones kept.
pub open spec fn truncated_planes(a: Seq<Seq<u64>>, k: int) -> Seq<Seq<u64>> {
    Seq::new(
        64,
        |i: int|
            Seq::new(
                8,
                |l: int|
                    if i < 64 - k {
                        0u64
                    } else {
                        a[i][l]
                    },
            ),
    )
}

/// The value of the `k` least significant bits of the integer at bit `pos`
/// of lane `lane`: bit `b` of that integer stands in plane `63 - b`.
pub open spec fn low_bits_value(p: Seq<Seq<u64>>, lane: int, pos: int, k: nat) -> nat
    decreases k,
{
    if k == 0 {
        0
    } else {
        low_bits_value(p, lane, pos, (k - 1) as nat) + if bit(p[64 - k][lane], pos) {
            pow2((k - 1) as nat)
        } else {
            0
        }
    }
}

/// Integer number `n` of a batch, `0 <= n < 512`: the one at bit `n % 64` of
/// lane `n / 64`.
pub open spec fn integer(p: Seq<Seq<u64>>, n: int) -> nat {
    low_bits_value(p, n / 64, n % 64, 64)
}

} // verus!
