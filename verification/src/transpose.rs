//! The 64x64 bit-matrix transpose between the row-major and the bit-plane
//! layout.
//!
//! A matrix is 64 words, one per row; column 0 of a row is the most
//! significant bit of its word and column 63 the least significant one.

use vstd::prelude::*;
use crate::bits::{bit, lemma_bits_determine_word};

verus! {

/// The entry in row `r` and column `c` of a matrix.
pub open spec fn entry(m: Seq<u64>, r: int, c: int) -> bool {
    bit(m[r], 63 - c)
}

/// Whether `t` is the transpose of `m`: both are 64 rows, and every entry of
/// `t` is the entry of `m` with row and column exchanged.
pub open spec fn is_transpose(t: Seq<u64>, m: Seq<u64>) -> bool {
    &&& t.len() == 64
    &&& m.len() == 64
    &&& forall|r: int, c: int|
        0 <= r < 64 && 0 <= c < 64 ==> #[trigger] entry(t, r, c) == entry(m, c, r)
}

/// The block size of round `round` of the butterfly: 32, 16, 8, 4, 2, 1, and
/// 0 once the six rounds are done.
spec fn round_block(round: int) -> u64 {
    if round == 0 {
        32
    } else if round == 1 {
        16
    } else if round == 2 {
        8
    } else if round == 3 {
        4
    } else if round == 4 {
        2
    } else if round == 5 {
        1
    } else {
        0
    }
}

/// The bit positions whose lower block of size `j` is exchanged in the round
/// of block size `j`: those with `pos & j == 0`.
spec fn round_mask(j: u64) -> u64 {
    if j == 32 {
        0x0000_0000_FFFF_FFFF
    } else if j == 16 {
        0x0000_FFFF_0000_FFFF
    } else if j == 8 {
        0x00FF_00FF_00FF_00FF
    } else if j == 4 {
        0x0F0F_0F0F_0F0F_0F0F
    } else if j == 2 {
        0x3333_3333_3333_3333
    } else if j == 1 {
        0x5555_5555_5555_5555
    } else {
        0
    }
}

/// The index bits that have been exchanged between row and column before
/// round `round`.
spec fn round_done(round: int) -> u64 {
    if round <= 0 {
        0
    } else if round == 1 {
        32
    } else if round == 2 {
        48
    } else if round == 3 {
        56
    } else if round == 4 {
        60
    } else if round == 5 {
        62
    } else {
        63
    }
}

/// The upper row of a pair after a round: the bits under `mask` come from
/// `j` positions higher in the lower row `y`.
spec fn upper_row(x: u64, y: u64, j: u64, mask: u64) -> u64 {
    x ^ ((x ^ (y >> j)) & mask)
}

/// The lower row of a pair after a round: the bits `j` positions above
/// `mask` come from under `mask` in the upper row `x`.
spec fn lower_row(x: u64, y: u64, j: u64, mask: u64) -> u64 {
    y ^ (((x ^ (y >> j)) & mask) << j)
}

/// Row `r` after the round of block size `j` on the matrix `prev`.
spec fn round_row(prev: Seq<u64>, r: u64, j: u64) -> u64 {
    if r & j == 0 {
        upper_row(prev[r as int], prev[(r | j) as int], j, round_mask(j))
    } else {
        lower_row(prev[(r & !j) as int], prev[r as int], j, round_mask(j))
    }
}

/// Row `r` while the round of block size `j` is under way, when the pairs
/// whose upper row is below `k` have been exchanged.
spec fn row_during(prev: Seq<u64>, r: u64, j: u64, k: u64) -> u64 {
    if (r & !j) < k {
        round_row(prev, r, j)
    } else {
        prev[r as int]
    }
}

/// The row index that entry `(r, c)` comes from once the index bits `s` have
/// been exchanged.
spec fn source_row(r: u64, c: u64, s: u64) -> u64 {
    (r & !s) | (c & s)
}

/// The column index that entry `(r, c)` comes from once the index bits `s`
/// have been exchanged.
spec fn source_col(r: u64, c: u64, s: u64) -> u64 {
    (c & !s) | (r & s)
}

/// Whether `j` is the block size of one of the six rounds.
spec fn is_block(j: u64) -> bool {
    j == 32 || j == 16 || j == 8 || j == 4 || j == 2 || j == 1
}

/// What a round does to the single bits of a pair of rows.
proof fn lemma_pair_bits(x: u64, y: u64, j: u64, p: u64)
    by (bit_vector)
    requires
        p < 64,
        is_block(j),
    ensures
        ((upper_row(x, y, j, round_mask(j)) >> p) & 1 == 1) == (if p & j == 0 {
            (y >> (p | j)) & 1 == 1
        } else {
            (x >> p) & 1 == 1
        }),
        ((lower_row(x, y, j, round_mask(j)) >> p) & 1 == 1) == (if p & j != 0 {
            (x >> (p & !j)) & 1 == 1
        } else {
            (y >> p) & 1 == 1
        }),
{
}

/// Where the entries of a round come from, in terms of the bit position
/// `p = 63 - c` of column `c`.
proof fn lemma_round_indices(r: u64, c: u64, j: u64, p: u64)
    by (bit_vector)
    requires
        r < 64,
        c < 64,
        p + c == 63,
        is_block(j),
    ensures
        source_row(r, c, j) < 64,
        source_col(r, c, j) < 64,
        (r | j) < 64,
        (p & j == 0) == (c & j != 0),
        r & j == 0 && c & j != 0 ==> source_row(r, c, j) == (r | j) && source_col(r, c, j) + (p
            | j) == 63,
        r & j != 0 && c & j == 0 ==> source_row(r, c, j) == (r & !j) && source_col(r, c, j) + (p
            & !j) == 63,
        (r & j == 0) == (c & j == 0) ==> source_row(r, c, j) == r && source_col(r, c, j) == c,
{
}

/// Exchanging the index bits `s` and then the index bit `j` is exchanging
/// the index bits `s | j`.
proof fn lemma_sources_compose(r: u64, c: u64, s: u64, j: u64)
    by (bit_vector)
    requires
        s & j == 0,
    ensures
        source_row(source_row(r, c, j), source_col(r, c, j), s) == source_row(r, c, s | j),
        source_col(source_row(r, c, j), source_col(r, c, j), s) == source_col(r, c, s | j),
{
}

/// Before the first round every entry is its own source.
proof fn lemma_sources_initial(r: u64, c: u64)
    by (bit_vector)
    ensures
        source_row(r, c, 0) == r,
        source_col(r, c, 0) == c,
{
}

/// Once all six index bits are exchanged, row and column have changed
/// places.
proof fn lemma_sources_final(r: u64, c: u64)
    by (bit_vector)
    requires
        r < 64,
        c < 64,
    ensures
        source_row(r, c, 63) == c,
        source_col(r, c, 63) == r,
{
}

/// How the rows pair up in the round of block size `j`.
proof fn lemma_pair_rows(r: u64, k: u64, j: u64)
    by (bit_vector)
    requires
        r < 64,
        k < 64,
        is_block(j),
    ensures
        (k | j) < 64,
        k & j == 0 ==> k & !j == k && (k | j) & !j == k && (k | j) & j != 0 && (k | j) != k,
        k & j == 0 ==> (r & !j == k <==> r == k || r == (k | j)),
        k & j != 0 ==> r & !j != k,
        r & j != 0 ==> (r & !j) & j == 0 && (r & !j) | j == r,
        (r & !j) < 64,
{
}

/// From one round to the next the block size halves, the mask is refined by
/// one shift, and the round's index bit joins those already exchanged.
proof fn lemma_next_round(round: int)
    requires
        0 <= round < 6,
    ensures
        is_block(round_block(round)),
        round_block(round + 1) == round_block(round) >> 1,
        round_mask(round_block(round + 1)) == round_mask(round_block(round)) ^ (round_mask(
            round_block(round),
        ) << round_block(round + 1)),
        round_done(round) & round_block(round) == 0,
        round_done(round + 1) == round_done(round) | round_block(round),
{
    assert(32u64 >> 1 == 16 && 16u64 >> 1 == 8 && 8u64 >> 1 == 4 && 4u64 >> 1 == 2 && 2u64 >> 1
        == 1 && 1u64 >> 1 == 0) by (bit_vector);
    assert(0x0000_0000_FFFF_FFFFu64 ^ (0x0000_0000_FFFF_FFFFu64 << 16) == 0x0000_FFFF_0000_FFFF
        && 0x0000_FFFF_0000_FFFFu64 ^ (0x0000_FFFF_0000_FFFFu64 << 8) == 0x00FF_00FF_00FF_00FF
        && 0x00FF_00FF_00FF_00FFu64 ^ (0x00FF_00FF_00FF_00FFu64 << 4) == 0x0F0F_0F0F_0F0F_0F0F
        && 0x0F0F_0F0F_0F0F_0F0Fu64 ^ (0x0F0F_0F0F_0F0F_0F0Fu64 << 2) == 0x3333_3333_3333_3333
        && 0x3333_3333_3333_3333u64 ^ (0x3333_3333_3333_3333u64 << 1) == 0x5555_5555_5555_5555
        && 0x5555_5555_5555_5555u64 ^ (0x5555_5555_5555_5555u64 << 0) == 0) by (bit_vector);
    assert(0u64 & 32 == 0 && 32u64 & 16 == 0 && 48u64 & 8 == 0 && 56u64 & 4 == 0 && 60u64 & 2
        == 0 && 62u64 & 1 == 0) by (bit_vector);
    assert(0u64 | 32 == 32 && 32u64 | 16 == 48 && 48u64 | 8 == 56 && 56u64 | 4 == 60 && 60u64
        | 2 == 62 && 62u64 | 1 == 63) by (bit_vector);
}

/// A round exchanges index bit `j` between the row and the column of every
/// entry.
proof fn lemma_round_entry(prev: Seq<u64>, now: Seq<u64>, j: u64, r: u64, c: u64)
    requires
        is_block(j),
        r < 64,
        c < 64,
        forall|q: u64| q < 64 ==> now[q as int] == #[trigger] row_during(prev, q, j, 64),
    ensures
        source_row(r, c, j) < 64,
        source_col(r, c, j) < 64,
        entry(now, r as int, c as int) == entry(
            prev,
            source_row(r, c, j) as int,
            source_col(r, c, j) as int,
        ),
{
    let p: u64 = (63 - c) as u64;
    lemma_round_indices(r, c, j, p);
    lemma_pair_rows(r, r, j);
    assert(now[r as int] == row_during(prev, r, j, 64));
    if r & j == 0 {
        lemma_pair_bits(prev[r as int], prev[(r | j) as int], j, p);
    } else {
        lemma_pair_bits(prev[(r & !j) as int], prev[r as int], j, p);
    }
}

/// The transpose of a 64x64 bit matrix, by six rounds of block exchanges.
pub fn transpose_scalar(input: &[u64; 64]) -> (out: [u64; 64])
    ensures
        is_transpose(out@, input@),
{
    let mut out = *input;
    let mut j: u64 = 32;
    let mut mask: u64 = 0x0000_0000_FFFF_FFFFu64;
    proof {
        assert forall|r: u64, c: u64| r < 64 && c < 64 implies #[trigger] entry(
            out@,
            r as int,
            c as int,
        ) == entry(input@, source_row(r, c, 0) as int, source_col(r, c, 0) as int) by {
            lemma_sources_initial(r, c);
        }
    }

    let mut round: u32 = 0;
    while round < 6
        invariant
            round <= 6,
            j == round_block(round as int),
            mask == round_mask(j),
            forall|r: u64, c: u64|
                r < 64 && c < 64 ==> #[trigger] entry(out@, r as int, c as int) == entry(
                    input@,
                    source_row(r, c, round_done(round as int)) as int,
                    source_col(r, c, round_done(round as int)) as int,
                ),
        decreases 6 - round,
    {
        let ghost prev = out@;
        proof {
            lemma_next_round(round as int);
        }
        let mut k: u64 = 0;
        while k < 64
            invariant
                k <= 64,
                is_block(j),
                mask == round_mask(j),
                prev.len() == 64,
                forall|r: u64| r < 64 ==> out@[r as int] == #[trigger] row_during(prev, r, j, k),
            decreases 64 - k,
        {
            let ghost before = out@;
            proof {
                lemma_pair_rows(k, k, j);
                assert(before[k as int] == row_during(prev, k, j, k));
                assert(before[(k | j) as int] == row_during(prev, (k | j), j, k));
            }
            if (k & j) == 0 {
                let x = out[k as usize];
                let y = out[(k | j) as usize];

                let t = (x ^ (y >> j)) & mask;
                out[k as usize] = x ^ t;
                out[(k | j) as usize] = y ^ (t << j);
            }
            proof {
                assert forall|r: u64| r < 64 implies out@[r as int] == #[trigger] row_during(
                    prev,
                    r,
                    j,
                    (k + 1) as u64,
                ) by {
                    lemma_pair_rows(r, k, j);
                    assert(before[r as int] == row_during(prev, r, j, k));
                }
            }
            k += 1;
        }
        proof {
            let s = round_done(round as int);
            assert forall|r: u64, c: u64| r < 64 && c < 64 implies #[trigger] entry(
                out@,
                r as int,
                c as int,
            ) == entry(
                input@,
                source_row(r, c, s | j) as int,
                source_col(r, c, s | j) as int,
            ) by {
                lemma_round_entry(prev, out@, j, r, c);
                lemma_sources_compose(r, c, s, j);
                let r0 = source_row(r, c, j);
                let c0 = source_col(r, c, j);
                assert(entry(prev, r0 as int, c0 as int) == entry(
                    input@,
                    source_row(r0, c0, s) as int,
                    source_col(r0, c0, s) as int,
                ));
            }
        }
        j = j >> 1;
        mask = mask ^ (mask << j);
        round += 1;
    }
    proof {
        assert forall|r: int, c: int| 0 <= r < 64 && 0 <= c < 64 implies #[trigger] entry(
            out@,
            r,
            c,
        ) == entry(input@, c, r) by {
            lemma_sources_final(r as u64, c as u64);
            assert(entry(out@, (r as u64) as int, (c as u64) as int) == entry(input@, c, r));
        }
    }
    out
}

/// A matrix has exactly one transpose: whatever computes a transpose of `m`,
/// by the butterfly or by the three stages, returns the same 64 words.
pub proof fn lemma_transpose_unique(t: Seq<u64>, u: Seq<u64>, m: Seq<u64>)
    requires
        is_transpose(t, m),
        is_transpose(u, m),
    ensures
        t == u,
{
    assert forall|r: int| 0 <= r < 64 implies t[r] == u[r] by {
        assert forall|pos: int| 0 <= pos < 64 implies bit(t[r], pos) == bit(u[r], pos) by {
            assert(entry(t, r, 63 - pos) == entry(m, 63 - pos, r));
            assert(entry(u, r, 63 - pos) == entry(m, 63 - pos, r));
        }
        lemma_bits_determine_word(t[r], u[r]);
    }
    assert(t =~= u);
}

/// Transposing is its own inverse: the transpose of the transpose of a
/// matrix is the matrix.
pub proof fn lemma_transpose_involution(m: Seq<u64>, t: Seq<u64>, u: Seq<u64>)
    requires
        is_transpose(t, m),
        is_transpose(u, t),
    ensures
        u == m,
{
    assert forall|r: int| 0 <= r < 64 implies u[r] == m[r] by {
        assert forall|pos: int| 0 <= pos < 64 implies bit(u[r], pos) == bit(m[r], pos) by {
            assert(entry(u, r, 63 - pos) == entry(t, 63 - pos, r));
            assert(entry(t, 63 - pos, r) == entry(m, r, 63 - pos));
        }
        lemma_bits_determine_word(u[r], m[r]);
    }
    assert(u =~= m);
}

/// The source byte of destination byte `d` in the gather stage: with
/// `d == byte_index * 8 + lane`, byte `lane * 8 + (7 - byte_index)`.
pub open spec fn perm_source(d: int) -> int {
    (d % 8) * 8 + (7 - d / 8)
}

/// The byte permutation of the gather stage, as a table of 64 source
/// indices.
pub fn make_perm() -> (p: [u8; 64])
    ensures
        forall|d: int| 0 <= d < 64 ==> #[trigger] p@[d] == perm_source(d),
{
    let mut p = [0u8; 64];
    let mut byte_index: usize = 0;
    while byte_index < 8
        invariant
            byte_index <= 8,
            forall|d: int| 0 <= d < byte_index * 8 ==> #[trigger] p@[d] == perm_source(d),
        decreases 8 - byte_index,
    {
        let mut lane: usize = 0;
        while lane < 8
            invariant
                byte_index < 8,
                lane <= 8,
                forall|d: int|
                    0 <= d < byte_index * 8 + lane ==> #[trigger] p@[d] == perm_source(d),
            decreases 8 - lane,
        {
            let dst = byte_index * 8 + lane;
            let src = lane * 8 + (7 - byte_index);
            p[dst] = src as u8;
            lane += 1;
        }
        byte_index += 1;
    }
    p
}

} // verus!
