//! The transpose in three stages, as a machine with 512-bit vectors runs
//! it: a byte gather, a bit transpose of every 8x8 block, and an interleave
//! network of unpack and lane-select steps.
//!
//! Here a 512-bit vector is a group of eight words, the least significant
//! one first, and every step is written out on plain words. The result is
//! proved to be the transpose, so it agrees with the butterfly on every
//! matrix.

use vstd::prelude::*;
use crate::bits::bit;
use crate::bytes::{byte_of, get_byte, lemma_byte_bits, lemma_word_of_bytes, pack_bytes, word_of};
use crate::transpose::{entry, is_transpose, make_perm, perm_source};

verus! {

/// The word that interleaves the four low units of `x` and `y`, a unit
/// being 1, 2 or 4 bytes: `x`'s first unit, `y`'s first unit, `x`'s second
/// unit, and so on. For a unit of 4 bytes there are two units to each.
#[verifier::opaque]
spec fn zip_low(x: u64, y: u64, unit: int) -> u64 {
    if unit == 1 {
        word_of(
            byte_of(x, 0),
            byte_of(y, 0),
            byte_of(x, 1),
            byte_of(y, 1),
            byte_of(x, 2),
            byte_of(y, 2),
            byte_of(x, 3),
            byte_of(y, 3),
        )
    } else if unit == 2 {
        word_of(
            byte_of(x, 0),
            byte_of(x, 1),
            byte_of(y, 0),
            byte_of(y, 1),
            byte_of(x, 2),
            byte_of(x, 3),
            byte_of(y, 2),
            byte_of(y, 3),
        )
    } else {
        word_of(
            byte_of(x, 0),
            byte_of(x, 1),
            byte_of(x, 2),
            byte_of(x, 3),
            byte_of(y, 0),
            byte_of(y, 1),
            byte_of(y, 2),
            byte_of(y, 3),
        )
    }
}

/// The word that interleaves the high units of `x` and `y` in the same way.
#[verifier::opaque]
spec fn zip_high(x: u64, y: u64, unit: int) -> u64 {
    if unit == 1 {
        word_of(
            byte_of(x, 4),
            byte_of(y, 4),
            byte_of(x, 5),
            byte_of(y, 5),
            byte_of(x, 6),
            byte_of(y, 6),
            byte_of(x, 7),
            byte_of(y, 7),
        )
    } else if unit == 2 {
        word_of(
            byte_of(x, 4),
            byte_of(x, 5),
            byte_of(y, 4),
            byte_of(y, 5),
            byte_of(x, 6),
            byte_of(x, 7),
            byte_of(y, 6),
            byte_of(y, 7),
        )
    } else {
        word_of(
            byte_of(x, 4),
            byte_of(x, 5),
            byte_of(x, 6),
            byte_of(x, 7),
            byte_of(y, 4),
            byte_of(y, 5),
            byte_of(y, 6),
            byte_of(y, 7),
        )
    }
}

/// The unpack of two groups at a unit of 1, 2 or 4 bytes: each 128-bit
/// half-pair of the result interleaves the units of the low words of that
/// half-pair of `a` and `b`, or of the high words if `high` is set.
spec fn unpacked(a: Seq<u64>, b: Seq<u64>, unit: int, high: bool) -> Seq<u64> {
    Seq::new(
        8,
        |l: int|
            {
                let src = if high {
                    l - l % 2 + 1
                } else {
                    l - l % 2
                };
                if l % 2 == 0 {
                    zip_low(a[src], b[src], unit)
                } else {
                    zip_high(a[src], b[src], unit)
                }
            },
    )
}

/// Unpacks the four low units of `x` and `y`.
fn zip_words_low(x: u64, y: u64, unit: usize) -> (w: u64)
    requires
        unit == 1 || unit == 2 || unit == 4,
    ensures
        w == zip_low(x, y, unit as int),
{
    let bytes = if unit == 1 {
        [
            get_byte(x, 0),
            get_byte(y, 0),
            get_byte(x, 1),
            get_byte(y, 1),
            get_byte(x, 2),
            get_byte(y, 2),
            get_byte(x, 3),
            get_byte(y, 3),
        ]
    } else if unit == 2 {
        [
            get_byte(x, 0),
            get_byte(x, 1),
            get_byte(y, 0),
            get_byte(y, 1),
            get_byte(x, 2),
            get_byte(x, 3),
            get_byte(y, 2),
            get_byte(y, 3),
        ]
    } else {
        [
            get_byte(x, 0),
            get_byte(x, 1),
            get_byte(x, 2),
            get_byte(x, 3),
            get_byte(y, 0),
            get_byte(y, 1),
            get_byte(y, 2),
            get_byte(y, 3),
        ]
    };
    reveal(zip_low);
    pack_bytes(&bytes)
}

/// Unpacks the four high units of `x` and `y`.
fn zip_words_high(x: u64, y: u64, unit: usize) -> (w: u64)
    requires
        unit == 1 || unit == 2 || unit == 4,
    ensures
        w == zip_high(x, y, unit as int),
{
    let bytes = if unit == 1 {
        [
            get_byte(x, 4),
            get_byte(y, 4),
            get_byte(x, 5),
            get_byte(y, 5),
            get_byte(x, 6),
            get_byte(y, 6),
            get_byte(x, 7),
            get_byte(y, 7),
        ]
    } else if unit == 2 {
        [
            get_byte(x, 4),
            get_byte(x, 5),
            get_byte(y, 4),
            get_byte(y, 5),
            get_byte(x, 6),
            get_byte(x, 7),
            get_byte(y, 6),
            get_byte(y, 7),
        ]
    } else {
        [
            get_byte(x, 4),
            get_byte(x, 5),
            get_byte(x, 6),
            get_byte(x, 7),
            get_byte(y, 4),
            get_byte(y, 5),
            get_byte(y, 6),
            get_byte(y, 7),
        ]
    };
    reveal(zip_high);
    pack_bytes(&bytes)
}

/// Unpacks two groups at a unit of 1, 2 or 4 bytes, from the low words of
/// every half-pair or from the high ones.
fn unpack(a: &[u64; 8], b: &[u64; 8], unit: usize, high: bool) -> (out: [u64; 8])
    requires
        unit == 1 || unit == 2 || unit == 4,
    ensures
        out@ == unpacked(a@, b@, unit as int, high),
{
    let mut out = [0u64; 8];
    let mut pair: usize = 0;
    while pair < 4
        invariant
            pair <= 4,
            unit == 1 || unit == 2 || unit == 4,
            forall|l: int| 0 <= l < 2 * pair ==> out@[l] == unpacked(a@, b@, unit as int, high)[l],
        decreases 4 - pair,
    {
        let src = if high {
            2 * pair + 1
        } else {
            2 * pair
        };
        out[2 * pair] = zip_words_low(a[src], b[src], unit);
        out[2 * pair + 1] = zip_words_high(a[src], b[src], unit);
        pair += 1;
    }
    assert(out@ =~= unpacked(a@, b@, unit as int, high));
    out
}

/// The first and third 128-bit pair of `a`, each followed by the same pair
/// of `b`.
pub fn grab_128_lanes_a(a: &[u64; 8], b: &[u64; 8]) -> (out: [u64; 8])
    ensures
        out@ == seq![a@[0], a@[1], b@[0], b@[1], a@[4], a@[5], b@[4], b@[5]],
{
    let out = [a[0], a[1], b[0], b[1], a[4], a[5], b[4], b[5]];
    assert(out@ =~= seq![a@[0], a@[1], b@[0], b@[1], a@[4], a@[5], b@[4], b@[5]]);
    out
}

/// The second and fourth 128-bit pair of `a`, each followed by the same
/// pair of `b`.
pub fn grab_128_lanes_b(a: &[u64; 8], b: &[u64; 8]) -> (out: [u64; 8])
    ensures
        out@ == seq![a@[2], a@[3], b@[2], b@[3], a@[6], a@[7], b@[6], b@[7]],
{
    let out = [a[2], a[3], b[2], b[3], a[6], a[7], b[6], b[7]];
    assert(out@ =~= seq![a@[2], a@[3], b@[2], b@[3], a@[6], a@[7], b@[6], b@[7]]);
    out
}

/// Row `m` of the eight that the interleave network makes of four words
/// `x0..x3` of its first operand and four words `y0..y3` of its second.
spec fn network_row(
    x0: u64,
    x1: u64,
    x2: u64,
    x3: u64,
    y0: u64,
    y1: u64,
    y2: u64,
    y3: u64,
    m: int,
) -> u64 {
    let lo0 = zip_low(x0, y0, 1);
    let lo1 = zip_high(x0, y0, 1);
    let lo2 = zip_low(x2, y2, 1);
    let lo3 = zip_high(x2, y2, 1);
    let hi0 = zip_low(x1, y1, 1);
    let hi1 = zip_high(x1, y1, 1);
    let hi2 = zip_low(x3, y3, 1);
    let hi3 = zip_high(x3, y3, 1);
    let a0 = zip_low(hi0, lo0, 2);
    let a1 = zip_high(hi0, lo0, 2);
    let b0 = zip_low(hi2, lo2, 2);
    let b1 = zip_high(hi2, lo2, 2);
    let a2 = zip_low(hi1, lo1, 2);
    let a3 = zip_high(hi1, lo1, 2);
    let b2 = zip_low(hi3, lo3, 2);
    let b3 = zip_high(hi3, lo3, 2);
    if m == 0 {
        zip_high(b3, a3, 4)
    } else if m == 1 {
        zip_low(b3, a3, 4)
    } else if m == 2 {
        zip_high(b2, a2, 4)
    } else if m == 3 {
        zip_low(b2, a2, 4)
    } else if m == 4 {
        zip_high(b1, a1, 4)
    } else if m == 5 {
        zip_low(b1, a1, 4)
    } else if m == 6 {
        zip_high(b0, a0, 4)
    } else {
        zip_low(b0, a0, 4)
    }
}

/// The word that collects byte `k` of eight words, the first word's byte
/// in the most significant place.
spec fn column_word(
    w0: u64,
    w1: u64,
    w2: u64,
    w3: u64,
    w4: u64,
    w5: u64,
    w6: u64,
    w7: u64,
    k: int,
) -> u64 {
    word_of(
        byte_of(w7, k),
        byte_of(w6, k),
        byte_of(w5, k),
        byte_of(w4, k),
        byte_of(w3, k),
        byte_of(w2, k),
        byte_of(w1, k),
        byte_of(w0, k),
    )
}

/// Row `m` of the network collects byte `7 - m` of its eight inputs, taken
/// alternately from the second and the first operand.
proof fn lemma_network_rows(
    x0: u64,
    x1: u64,
    x2: u64,
    x3: u64,
    y0: u64,
    y1: u64,
    y2: u64,
    y3: u64,
)
    by (bit_vector)
    ensures
        network_row(x0, x1, x2, x3, y0, y1, y2, y3, 0) == column_word(
            y0,
            x0,
            y1,
            x1,
            y2,
            x2,
            y3,
            x3,
            7,
        ),
        network_row(x0, x1, x2, x3, y0, y1, y2, y3, 1) == column_word(
            y0,
            x0,
            y1,
            x1,
            y2,
            x2,
            y3,
            x3,
            6,
        ),
        network_row(x0, x1, x2, x3, y0, y1, y2, y3, 2) == column_word(
            y0,
            x0,
            y1,
            x1,
            y2,
            x2,
            y3,
            x3,
            5,
        ),
        network_row(x0, x1, x2, x3, y0, y1, y2, y3, 3) == column_word(
            y0,
            x0,
            y1,
            x1,
            y2,
            x2,
            y3,
            x3,
            4,
        ),
        network_row(x0, x1, x2, x3, y0, y1, y2, y3, 4) == column_word(
            y0,
            x0,
            y1,
            x1,
            y2,
            x2,
            y3,
            x3,
            3,
        ),
        network_row(x0, x1, x2, x3, y0, y1, y2, y3, 5) == column_word(
            y0,
            x0,
            y1,
            x1,
            y2,
            x2,
            y3,
            x3,
            2,
        ),
        network_row(x0, x1, x2, x3, y0, y1, y2, y3, 6) == column_word(
            y0,
            x0,
            y1,
            x1,
            y2,
            x2,
            y3,
            x3,
            1,
        ),
        network_row(x0, x1, x2, x3, y0, y1, y2, y3, 7) == column_word(
            y0,
            x0,
            y1,
            x1,
            y2,
            x2,
            y3,
            x3,
            0,
        ),
{
}

/// The word at place `n` of a run of sixteen that was split into two
/// groups: the even places went to `vb`, the odd ones to `va`.
pub open spec fn interleave_source(va: Seq<u64>, vb: Seq<u64>, n: int) -> u64 {
    if n % 2 == 0 {
        vb[n / 2]
    } else {
        va[n / 2]
    }
}

/// Whether the eight `rows` collect the bytes of the eight words at places
/// `first .. first + 8` of the run that `va` and `vb` were split from: byte
/// `k` of row `m` is byte `7 - m` of the word at place `first + 7 - k`.
pub open spec fn collects(rows: Seq<u64>, va: Seq<u64>, vb: Seq<u64>, first: int) -> bool {
    &&& rows.len() == 8
    &&& forall|m: int, k: int|
        0 <= m < 8 && 0 <= k < 8 ==> #[trigger] byte_of(rows[m], k) == byte_of(
            interleave_source(va, vb, first + 7 - k),
            7 - m,
        )
}

/// The bytes of a column word are the bytes `k` of its eight words.
proof fn lemma_column_bytes(
    w0: u64,
    w1: u64,
    w2: u64,
    w3: u64,
    w4: u64,
    w5: u64,
    w6: u64,
    w7: u64,
    k: int,
    at: int,
)
    requires
        0 <= at < 8,
    ensures
        byte_of(column_word(w0, w1, w2, w3, w4, w5, w6, w7, k), at) == byte_of(
            if at == 7 {
                w0
            } else if at == 6 {
                w1
            } else if at == 5 {
                w2
            } else if at == 4 {
                w3
            } else if at == 3 {
                w4
            } else if at == 2 {
                w5
            } else if at == 1 {
                w6
            } else {
                w7
            },
            k,
        ),
{
    lemma_word_of_bytes(
        byte_of(w7, k),
        byte_of(w6, k),
        byte_of(w5, k),
        byte_of(w4, k),
        byte_of(w3, k),
        byte_of(w2, k),
        byte_of(w1, k),
        byte_of(w0, k),
    );
}

/// The interleave network: from two groups that hold the odd and the even
/// words of a run of sixteen, the sixteen rows that collect their bytes, the
/// rows of the first eight words and then those of the last eight.
pub fn interleave_full(va: &[u64; 8], vb: &[u64; 8]) -> (rows: ([u64; 8], [u64; 8]))
    ensures
        collects(rows.0@, va@, vb@, 0),
        collects(rows.1@, va@, vb@, 8),
{
    let lo = unpack(va, vb, 1, false);
    let hi = unpack(va, vb, 1, true);

    let lo_1 = unpack(&hi, &lo, 2, false);
    let hi_1 = unpack(&hi, &lo, 2, true);

    let a = grab_128_lanes_a(&lo_1, &hi_1);
    let b = grab_128_lanes_b(&lo_1, &hi_1);

    let lo_2 = unpack(&b, &a, 4, false);
    let hi_2 = unpack(&b, &a, 4, true);

    let row0 = [hi_2[3], hi_2[2], lo_2[3], lo_2[2], hi_2[1], hi_2[0], lo_2[1], lo_2[0]];
    let row1 = [hi_2[7], hi_2[6], lo_2[7], lo_2[6], hi_2[5], hi_2[4], lo_2[5], lo_2[4]];
    proof {
        lemma_network_rows(va[0], va[1], va[2], va[3], vb[0], vb[1], vb[2], vb[3]);
        lemma_network_rows(va[4], va[5], va[6], va[7], vb[4], vb[5], vb[6], vb[7]);
        assert forall|m: int| 0 <= m < 8 implies #[trigger] row0@[m] == network_row(
            va[0],
            va[1],
            va[2],
            va[3],
            vb[0],
            vb[1],
            vb[2],
            vb[3],
            m,
        ) && row1@[m] == network_row(va[4], va[5], va[6], va[7], vb[4], vb[5], vb[6], vb[7], m) by {
            assert(m == 0 || m == 1 || m == 2 || m == 3 || m == 4 || m == 5 || m == 6 || m == 7);
        }
        assert forall|m: int, k: int| 0 <= m < 8 && 0 <= k < 8 implies #[trigger] byte_of(
            row0@[m],
            k,
        ) == byte_of(interleave_source(va@, vb@, 7 - k), 7 - m) by {
            assert(m == 0 || m == 1 || m == 2 || m == 3 || m == 4 || m == 5 || m == 6 || m == 7);
            lemma_column_bytes(vb[0], va[0], vb[1], va[1], vb[2], va[2], vb[3], va[3], 7 - m, k);
        }
        assert forall|m: int, k: int| 0 <= m < 8 && 0 <= k < 8 implies #[trigger] byte_of(
            row1@[m],
            k,
        ) == byte_of(interleave_source(va@, vb@, 15 - k), 7 - m) by {
            assert(m == 0 || m == 1 || m == 2 || m == 3 || m == 4 || m == 5 || m == 6 || m == 7);
            lemma_column_bytes(vb[4], va[4], vb[5], va[5], vb[6], va[6], vb[7], va[7], 7 - m, k);
        }
    }
    (row0, row1)
}


/// The bit of a word that the block transpose moves to bit `p`: with
/// `p == 8 * i + j`, bit `8 * (7 - j) + i`, that is bit `i` of byte `7 - j`.
pub open spec fn block_source(p: int) -> int {
    8 * (7 - p % 8) + p / 8
}

/// Whether `t` is `w` with its 8x8 bit block transposed: bit `j` of byte `i`
/// of `t` is bit `i` of byte `7 - j` of `w`.
pub open spec fn is_block_transposed(t: u64, w: u64) -> bool {
    forall|p: int| 0 <= p < 64 ==> #[trigger] bit(t, p) == bit(w, block_source(p))
}

/// Setting bit `p` of a word to `b` by `|` leaves the other bits alone.
proof fn lemma_set_bit(t: u64, b: u64, p: u64, q: u64)
    by (bit_vector)
    requires
        p < 64,
        q < 64,
        b == 0 || b == 1,
    ensures
        (((t | (b << p)) >> q) & 1 == 1) == (((t >> q) & 1 == 1) || (q == p && b == 1)),
{
}

/// The 8x8 bit block of a word, transposed.
fn transpose_block(w: u64) -> (t: u64)
    ensures
        is_block_transposed(t, w),
{
    let mut t: u64 = 0;
    let mut p: u64 = 0;
    proof {
        assert forall|q: int| 0 <= q < 64 implies !#[trigger] bit(0, q) by {
            let qq: u64 = q as u64;
            assert((0u64 >> qq) & 1 == 0) by (bit_vector);
        }
    }
    while p < 64
        invariant
            p <= 64,
            forall|q: int|
                0 <= q < 64 ==> #[trigger] bit(t, q) == (q < p && bit(w, block_source(q))),
        decreases 64 - p,
    {
        let src: u64 = 8 * (7 - p % 8) + p / 8;
        let b: u64 = (w >> src) & 1;
        proof {
            assert(b == 0 || b == 1) by (bit_vector)
                requires
                    b == (w >> src) & 1,
            ;
            assert forall|q: int| 0 <= q < 64 implies #[trigger] bit(t | (b << p), q) == (q < p
                + 1 && bit(w, block_source(q))) by {
                lemma_set_bit(t, b, p, q as u64);
                assert(bit(t, q) == (q < p && bit(w, block_source(q))));
                assert(src == block_source(p as int));
            }
        }
        t = t | (b << p);
        p += 1;
    }
    t
}

/// The bit transpose of every 8x8 block of a group.
pub fn gfni_bit_transpose_8x8(x: &[u64; 8]) -> (out: [u64; 8])
    ensures
        forall|l: int| 0 <= l < 8 ==> is_block_transposed(#[trigger] out@[l], x@[l]),
{
    let mut out = [0u64; 8];
    let mut l: usize = 0;
    while l < 8
        invariant
            l <= 8,
            forall|d: int| 0 <= d < l ==> is_block_transposed(#[trigger] out@[d], x@[d]),
        decreases 8 - l,
    {
        out[l] = transpose_block(x[l]);
        l += 1;
    }
    out
}

/// Whether word `x` of `out` gathers its bytes from `input`: with
/// `x == byte_index * 8 + group`, its byte `lane` is byte `7 - byte_index`
/// of row `group * 8 + lane`.
pub open spec fn is_gathered(out: Seq<u64>, input: Seq<u64>, x: int) -> bool {
    forall|lane: int|
        0 <= lane < 8 ==> #[trigger] byte_of(out[x], lane) == byte_of(
            input[(x % 8) * 8 + lane],
            7 - x / 8,
        )
}

/// The byte gather: for every byte column and every group of eight rows,
/// the word of that column's bytes of those rows.
pub fn gather_bytes(input: &[u64; 64]) -> (out: [u64; 64])
    ensures
        forall|x: int| 0 <= x < 64 ==> #[trigger] is_gathered(out@, input@, x),
{
    let perm = make_perm();
    let mut out = [0u64; 64];
    let mut byte_index: usize = 0;
    while byte_index < 8
        invariant
            byte_index <= 8,
            forall|d: int| 0 <= d < 64 ==> #[trigger] perm@[d] == perm_source(d),
            forall|x: int| 0 <= x < byte_index * 8 ==> #[trigger] is_gathered(out@, input@, x),
        decreases 8 - byte_index,
    {
        let mut group: usize = 0;
        while group < 8
            invariant
                byte_index < 8,
                group <= 8,
                forall|d: int| 0 <= d < 64 ==> #[trigger] perm@[d] == perm_source(d),
                forall|x: int|
                    0 <= x < byte_index * 8 + group ==> #[trigger] is_gathered(out@, input@, x),
            decreases 8 - group,
        {
            let mut bytes = [0u8; 8];
            let mut lane: usize = 0;
            while lane < 8
                invariant
                    byte_index < 8,
                    group < 8,
                    lane <= 8,
                    forall|d: int| 0 <= d < 64 ==> #[trigger] perm@[d] == perm_source(d),
                    forall|l: int|
                        0 <= l < lane ==> #[trigger] bytes@[l] == byte_of(
                            input@[group * 8 + l],
                            7 - byte_index,
                        ),
                decreases 8 - lane,
            {
                let src = perm[byte_index * 8 + lane] as usize;
                assert(src == perm_source(byte_index * 8 + lane));
                bytes[lane] = get_byte(input[group * 8 + src / 8], src % 8);
                lane += 1;
            }
            let ghost before = out@;
            out[byte_index * 8 + group] = pack_bytes(&bytes);
            proof {
                assert forall|x: int|
                    0 <= x < byte_index * 8 + group + 1 implies #[trigger] is_gathered(
                    out@,
                    input@,
                    x,
                ) by {
                    if x < byte_index * 8 + group {
                        assert(is_gathered(before, input@, x));
                    }
                }
            }
            group += 1;
        }
        byte_index += 1;
    }
    out
}


/// Whether `w` is row `r` of the transpose of `m`: its bit `p` is the entry
/// of `m` in row `63 - p`, column `r`.
spec fn is_transposed_row(w: u64, m: Seq<u64>, r: int) -> bool {
    forall|p: int| 0 <= p < 64 ==> #[trigger] bit(w, p) == bit(m[63 - p], 63 - r)
}

/// One bit through the three stages: the rows that the network collects
/// from the block transposes of sixteen gathered words are rows of the
/// transpose.
proof fn lemma_staged_bit(
    input: Seq<u64>,
    gathered: Seq<u64>,
    tva: Seq<u64>,
    tvb: Seq<u64>,
    rows: Seq<u64>,
    i: int,
    first: int,
    m: int,
    p: int,
)
    requires
        i == 0 || i == 16 || i == 32 || i == 48,
        first == 0 || first == 8,
        0 <= m < 8,
        0 <= p < 64,
        forall|x: int| 0 <= x < 64 ==> #[trigger] is_gathered(gathered, input, x),
        forall|n: int|
            0 <= n < 16 ==> is_block_transposed(
                #[trigger] interleave_source(tva, tvb, n),
                gathered[i + n],
            ),
        collects(rows, tva, tvb, first),
    ensures
        bit(rows[m], p) == bit(input[63 - p], 63 - (i + first + m)),
{
    let k = p / 8;
    let q = p % 8;
    let n = first + 7 - k;
    let x = i + n;
    let through = interleave_source(tva, tvb, n);
    assert(byte_of(rows[m], k) == byte_of(through, 7 - m));
    lemma_byte_bits(rows[m], k, through, 7 - m, q);
    assert(is_block_transposed(through, gathered[x]));
    assert(bit(through, 8 * (7 - m) + q) == bit(gathered[x], block_source(8 * (7 - m) + q)));
    assert(block_source(8 * (7 - m) + q) == 8 * (7 - q) + (7 - m));
    assert(is_gathered(gathered, input, x));
    assert(x % 8 == 7 - k);
    assert(byte_of(gathered[x], 7 - q) == byte_of(input[(x % 8) * 8 + (7 - q)], 7 - x / 8));
    lemma_byte_bits(gathered[x], 7 - q, input[63 - p], 7 - x / 8, 7 - m);
}

/// The transpose of a 64x64 bit matrix in three stages: the byte gather,
/// then for every run of sixteen gathered words the bit transpose of their
/// 8x8 blocks and the interleave that collects the rows.
pub fn transpose_gfni(input: &[u64; 64]) -> (out: [u64; 64])
    ensures
        is_transpose(out@, input@),
{
    let mut output = gather_bytes(input);
    let ghost gathered = output@;
    let mut index: usize = 0;
    while index < 4
        invariant
            index <= 4,
            forall|x: int| 0 <= x < 64 ==> #[trigger] is_gathered(gathered, input@, x),
            forall|r: int| 16 * index <= r < 64 ==> output@[r] == gathered[r],
            forall|r: int|
                0 <= r < 16 * index ==> is_transposed_row(#[trigger] output@[r], input@, r),
        decreases 4 - index,
    {
        let i = index * 16;
        let va = [
            output[i + 1],
            output[i + 3],
            output[i + 5],
            output[i + 7],
            output[i + 9],
            output[i + 11],
            output[i + 13],
            output[i + 15],
        ];
        let vb = [
            output[i],
            output[i + 2],
            output[i + 4],
            output[i + 6],
            output[i + 8],
            output[i + 10],
            output[i + 12],
            output[i + 14],
        ];
        let gfni_va = gfni_bit_transpose_8x8(&va);
        let gfni_vb = gfni_bit_transpose_8x8(&vb);
        let interleaved = interleave_full(&gfni_va, &gfni_vb);
        proof {
            assert forall|n: int| 0 <= n < 16 implies is_block_transposed(
                #[trigger] interleave_source(gfni_va@, gfni_vb@, n),
                gathered[i + n],
            ) by {
                let half = n / 2;
                if n % 2 == 0 {
                    assert(is_block_transposed(gfni_vb@[half], vb@[half]));
                } else {
                    assert(is_block_transposed(gfni_va@[half], va@[half]));
                }
            }
        }
        let ghost before = output@;
        let mut m: usize = 0;
        while m < 8
            invariant
                m <= 8,
                i == index * 16,
                index < 4,
                forall|r: int|
                    0 <= r < 64 && !(i <= r < i + m || i + 8 <= r < i + 8 + m) ==> output@[r]
                        == before[r],
                forall|d: int| 0 <= d < m ==> output@[i + d] == interleaved.0@[d],
                forall|d: int| 0 <= d < m ==> output@[i + 8 + d] == interleaved.1@[d],
            decreases 8 - m,
        {
            output[i + m] = interleaved.0[m];
            output[i + 8 + m] = interleaved.1[m];
            m += 1;
        }
        proof {
            assert forall|r: int| 0 <= r < 16 * (index + 1) implies is_transposed_row(
                #[trigger] output@[r],
                input@,
                r,
            ) by {
                if r < i {
                    assert(output@[r] == before[r]);
                } else {
                    assert forall|p: int| 0 <= p < 64 implies #[trigger] bit(output@[r], p) == bit(
                        input@[63 - p],
                        63 - r,
                    ) by {
                        if r < i + 8 {
                            assert(output@[i + (r - i)] == interleaved.0@[r - i]);
                            lemma_staged_bit(
                                input@,
                                gathered,
                                gfni_va@,
                                gfni_vb@,
                                interleaved.0@,
                                i as int,
                                0,
                                r - i,
                                p,
                            );
                        } else {
                            assert(output@[i + 8 + (r - i - 8)] == interleaved.1@[r - i - 8]);
                            lemma_staged_bit(
                                input@,
                                gathered,
                                gfni_va@,
                                gfni_vb@,
                                interleaved.1@,
                                i as int,
                                8,
                                r - i - 8,
                                p,
                            );
                        }
                    }
                }
            }
        }
        index += 1;
    }
    proof {
        assert forall|r: int, c: int| 0 <= r < 64 && 0 <= c < 64 implies #[trigger] entry(
            output@,
            r,
            c,
        ) == entry(input@, c, r) by {
            assert(is_transposed_row(output@[r], input@, r));
            assert(bit(output@[r], 63 - c) == bit(input@[63 - (63 - c)], 63 - r));
        }
    }
    output
}


} // verus!
