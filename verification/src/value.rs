//! What a bit-plane batch means: the 512 integers that its planes spell out,
//! and what the plane-level operations do to them.

use vstd::prelude::*;
use vstd::arithmetic::div_mod::{
    lemma_fundamental_div_mod_converse, lemma_mod_multiples_vanish, lemma_small_mod,
};
use vstd::arithmetic::power2::{
    lemma2_to64, lemma_pow2_adds, lemma_pow2_pos, lemma_pow2_unfold, pow2,
};
use crate::model::{
    adder_carry, adder_sum, carry_into, integer, is_batch, low_bits_value, scalar_planes,
    sum_planes, truncated_planes,
};
use crate::bits::{bit, fill, lemma_bit_fill, lemma_bit_ops, lemma_bits_determine_word};
use crate::transpose::{entry, is_transpose};

verus! {

/// The `k` least significant bits of an integer make a value below 2^k.
pub proof fn lemma_low_bits_bound(p: Seq<Seq<u64>>, lane: int, pos: int, k: nat)
    ensures
        low_bits_value(p, lane, pos, k) < pow2(k),
    decreases k,
{
    if k == 0 {
        lemma_pow2_pos(0);
    } else {
        lemma_low_bits_bound(p, lane, pos, (k - 1) as nat);
        lemma_pow2_unfold(k);
    }
}

/// The ripple-carry chain adds: below bit `k`, the sum's value together with
/// the carry that leaves bit `k - 1` is the sum of the two values.
proof fn lemma_ripple(a: Seq<Seq<u64>>, b: Seq<Seq<u64>>, lane: int, pos: int, k: nat)
    requires
        0 <= lane < 8,
        0 <= pos < 64,
        k <= 64,
    ensures
        low_bits_value(sum_planes(a, b), lane, pos, k) + (if bit(
            carry_into(a, b, 63 - k, lane),
            pos,
        ) {
            pow2(k)
        } else {
            0
        }) == low_bits_value(a, lane, pos, k) + low_bits_value(b, lane, pos, k),
    decreases k,
{
    if k == 0 {
        lemma_bit_fill(false, pos);
    } else {
        lemma_ripple(a, b, lane, pos, (k - 1) as nat);
        let i = 64 - k;
        let x = a[i][lane];
        let y = b[i][lane];
        let c = carry_into(a, b, i, lane);
        assert(sum_planes(a, b)[i][lane] == adder_sum(x, y, c));
        assert(carry_into(a, b, i - 1, lane) == adder_carry(x, y, c));
        lemma_bit_ops(x, y, pos);
        lemma_bit_ops(x ^ y, c, pos);
        lemma_bit_ops(c, x ^ y, pos);
        lemma_bit_ops(x & y, c & (x ^ y), pos);
        lemma_pow2_unfold(k);
    }
}

/// Plane-wise ripple-carry addition is addition modulo 2^64 of every integer
/// of the batch.
pub proof fn lemma_sum_planes_adds(a: Seq<Seq<u64>>, b: Seq<Seq<u64>>, n: int)
    requires
        0 <= n < 512,
    ensures
        integer(sum_planes(a, b), n) == (integer(a, n) + integer(b, n))
            % 0x1_0000_0000_0000_0000,
{
    let lane = n / 64;
    let pos = n % 64;
    lemma_ripple(a, b, lane, pos, 64);
    lemma_low_bits_bound(sum_planes(a, b), lane, pos, 64);
    lemma2_to64();
    let carried: int = if bit(carry_into(a, b, -1, lane), pos) {
        1
    } else {
        0
    };
    lemma_fundamental_div_mod_converse(
        (integer(a, n) + integer(b, n)) as int,
        0x1_0000_0000_0000_0000,
        carried,
        integer(sum_planes(a, b), n) as int,
    );
}

/// The value of the `k` lowest bits of an integer whose bits are those of
/// the word `s` is the word of the `k` lowest bits of `s`.
proof fn lemma_spelled_low_bits(p: Seq<Seq<u64>>, lane: int, pos: int, s: u64, k: nat)
    requires
        k <= 64,
        forall|i: int| 64 - k <= i < 64 ==> bit(p[i][lane], pos) == bit(s, 63 - i),
    ensures
        k < 64 ==> low_bits_value(p, lane, pos, k) == s & !(u64::MAX << (k as u64)),
        k == 64 ==> low_bits_value(p, lane, pos, k) == s,
    decreases k,
{
    if k == 0 {
        assert(s & !(u64::MAX << 0u64) == 0) by (bit_vector);
    } else {
        lemma_spelled_low_bits(p, lane, pos, s, (k - 1) as nat);
        let j: u64 = (k - 1) as u64;
        assert(bit(p[64 - k][lane], pos) == bit(s, j as int));
        let below: u64 = s & !(u64::MAX << j);
        let next: u64 = (j + 1) as u64;
        let weight: u64 = 1u64 << j;
        assert(weight == pow2(j as nat)) by {
            vstd::bits::lemma_u64_pow2_no_overflow(j as nat);
            vstd::bits::lemma_u64_shl_is_mul(1, j);
        }
        assert(j < 63 ==> (s & !(u64::MAX << next)) == below + (if (s >> j) & 1 == 1 {
            weight
        } else {
            0
        })) by (bit_vector)
            requires
                j < 64,
                next == j + 1,
                below == s & !(u64::MAX << j),
                weight == 1u64 << j,
        ;
        assert(j == 63 ==> s == below + (if (s >> j) & 1 == 1 {
            weight
        } else {
            0
        })) by (bit_vector)
            requires
                j < 64,
                below == s & !(u64::MAX << j),
                weight == 1u64 << j,
        ;
    }
}

/// An integer of a batch whose bit `b`, in plane `63 - b`, is bit `b` of the
/// word `s` is `s`.
pub proof fn lemma_integer_spelled(p: Seq<Seq<u64>>, n: int, s: u64)
    requires
        forall|i: int| 0 <= i < 64 ==> bit(p[i][n / 64], n % 64) == bit(s, 63 - i),
    ensures
        integer(p, n) == s,
{
    lemma_spelled_low_bits(p, n / 64, n % 64, s, 64);
}

/// Every integer of the batch that a scalar is broadcast to is that scalar.
pub proof fn lemma_scalar_planes_value(s: u64, n: int)
    requires
        0 <= n < 512,
    ensures
        integer(scalar_planes(s), n) == s,
{
    assert forall|i: int| 0 <= i < 64 implies bit(scalar_planes(s)[i][n / 64], n % 64) == bit(
        s,
        63 - i,
    ) by {
        assert(scalar_planes(s)[i][n / 64] == fill(bit(s, 63 - i)));
        lemma_bit_fill(bit(s, 63 - i), n % 64);
    }
    lemma_integer_spelled(scalar_planes(s), n, s);
}

/// The two layouts follow one convention: when lane `lane` of a batch holds
/// the transpose of a row-major block `m`, row `c` of the block is integer
/// number `lane * 64 + 63 - c` of the batch.
pub proof fn lemma_transposed_block_integers(
    m: Seq<u64>,
    t: Seq<u64>,
    p: Seq<Seq<u64>>,
    lane: int,
    c: int,
)
    requires
        is_transpose(t, m),
        0 <= lane < 8,
        0 <= c < 64,
        forall|i: int| 0 <= i < 64 ==> p[i][lane] == t[i],
    ensures
        integer(p, lane * 64 + 63 - c) == m[c],
{
    let n = lane * 64 + 63 - c;
    assert forall|i: int| 0 <= i < 64 implies bit(p[i][n / 64], n % 64) == bit(m[c], 63 - i) by {
        assert(entry(t, i, c) == entry(m, c, i));
    }
    lemma_integer_spelled(p, n, m[c]);
}

/// Below the kept planes a truncated batch spells what the batch did; the
/// cleared planes add nothing.
proof fn lemma_truncated_low_bits(a: Seq<Seq<u64>>, k: nat, lane: int, pos: int, m: nat)
    requires
        0 <= lane < 8,
        0 <= pos < 64,
        k <= 64,
        m <= 64,
    ensures
        low_bits_value(truncated_planes(a, k as int), lane, pos, m) == low_bits_value(
            a,
            lane,
            pos,
            if m <= k {
                m
            } else {
                k
            },
        ),
    decreases m,
{
    if m > 0 {
        lemma_truncated_low_bits(a, k, lane, pos, (m - 1) as nat);
        let i = 64 - m;
        assert(truncated_planes(a, k as int)[i][lane] == if m > k {
            0u64
        } else {
            a[i][lane]
        });
        lemma_bit_fill(false, pos);
    }
}

/// The value of the `m` lowest bits, reduced modulo 2^k, is the value of the
/// `k` lowest bits.
proof fn lemma_low_bits_mod(p: Seq<Seq<u64>>, lane: int, pos: int, k: nat, m: nat)
    requires
        k <= m,
    ensures
        low_bits_value(p, lane, pos, m) % pow2(k) == low_bits_value(p, lane, pos, k),
    decreases m,
{
    lemma_pow2_pos(k);
    if m == k {
        lemma_low_bits_bound(p, lane, pos, k);
        lemma_small_mod(low_bits_value(p, lane, pos, k), pow2(k));
    } else {
        lemma_low_bits_mod(p, lane, pos, k, (m - 1) as nat);
        let below = low_bits_value(p, lane, pos, (m - 1) as nat);
        if bit(p[64 - m][lane], pos) {
            lemma_pow2_adds(k, (m - 1 - k) as nat);
            lemma_mod_multiples_vanish(
                pow2((m - 1 - k) as nat) as int,
                below as int,
                pow2(k) as int,
            );
        }
    }
}

/// Clearing the `64 - k` most significant planes reduces every integer of
/// the batch modulo 2^k.
pub proof fn lemma_truncated_planes_reduces(a: Seq<Seq<u64>>, k: nat, n: int)
    requires
        0 <= n < 512,
        k <= 64,
    ensures
        integer(truncated_planes(a, k as int), n) == integer(a, n) % pow2(k),
{
    lemma_truncated_low_bits(a, k, n / 64, n % 64, 64);
    lemma_low_bits_mod(a, n / 64, n % 64, k, 64);
}

/// Two batches that agree on the value of the `k` lowest bits of an integer
/// agree on each of those bits.
proof fn lemma_low_bits_injective(
    x: Seq<Seq<u64>>,
    y: Seq<Seq<u64>>,
    lane: int,
    pos: int,
    k: nat,
)
    requires
        k <= 64,
        low_bits_value(x, lane, pos, k) == low_bits_value(y, lane, pos, k),
    ensures
        forall|i: int| 64 - k <= i < 64 ==> bit(x[i][lane], pos) == bit(y[i][lane], pos),
    decreases k,
{
    if k > 0 {
        lemma_low_bits_bound(x, lane, pos, (k - 1) as nat);
        lemma_low_bits_bound(y, lane, pos, (k - 1) as nat);
        lemma_low_bits_injective(x, y, lane, pos, (k - 1) as nat);
    }
}

/// A batch is determined by its 512 integers.
pub proof fn lemma_integers_determine_planes(x: Seq<Seq<u64>>, y: Seq<Seq<u64>>)
    requires
        is_batch(x),
        is_batch(y),
        forall|n: int| 0 <= n < 512 ==> integer(x, n) == integer(y, n),
    ensures
        x == y,
{
    assert forall|i: int, lane: int| 0 <= i < 64 && 0 <= lane < 8 implies x[i][lane]
        == y[i][lane] by {
        assert forall|pos: int| 0 <= pos < 64 implies bit(x[i][lane], pos) == bit(
            y[i][lane],
            pos,
        ) by {
            let n = lane * 64 + pos;
            assert(integer(x, n) == integer(y, n));
            lemma_low_bits_injective(x, y, lane, pos, 64);
        }
        lemma_bits_determine_word(x[i][lane], y[i][lane]);
    }
    assert(x =~~= y);
}


} // verus!
