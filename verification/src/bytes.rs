//! The eight bytes of a 64-bit word; byte 0 is the least significant.

use vstd::prelude::*;
use crate::bits::{bit, lemma_bits_determine_word};

verus! {

/// Byte `b` of `w`.
pub open spec fn byte_of(w: u64, b: int) -> u8 {
    ((w >> ((8 * b) as u64)) & 0xFF) as u8
}

/// The word whose bytes, least significant first, are `b0` to `b7`.
pub open spec fn word_of(b0: u8, b1: u8, b2: u8, b3: u8, b4: u8, b5: u8, b6: u8, b7: u8) -> u64 {
    (b0 as u64) | ((b1 as u64) << 8) | ((b2 as u64) << 16) | ((b3 as u64) << 24) | ((b4 as u64)
        << 32) | ((b5 as u64) << 40) | ((b6 as u64) << 48) | ((b7 as u64) << 56)
}

/// Byte `b` of `w`.
pub(crate) fn get_byte(w: u64, b: usize) -> (r: u8)
    requires
        b < 8,
    ensures
        r == byte_of(w, b as int),
{
    let shift: u64 = 8 * (b as u64);
    let low: u64 = (w >> shift) & 0xFF;
    assert(low < 256) by (bit_vector)
        requires
            low == (w >> shift) & 0xFF,
    ;
    low as u8
}

/// The word whose bytes, least significant first, are those of `bytes`.
pub(crate) fn pack_bytes(bytes: &[u8; 8]) -> (w: u64)
    ensures
        forall|b: int| 0 <= b < 8 ==> #[trigger] byte_of(w, b) == bytes@[b],
        w == word_of(
            bytes@[0],
            bytes@[1],
            bytes@[2],
            bytes@[3],
            bytes@[4],
            bytes@[5],
            bytes@[6],
            bytes@[7],
        ),
{
    let w = (bytes[0] as u64) | ((bytes[1] as u64) << 8) | ((bytes[2] as u64) << 16) | ((
    bytes[3] as u64) << 24) | ((bytes[4] as u64) << 32) | ((bytes[5] as u64) << 40) | ((
    bytes[6] as u64) << 48) | ((bytes[7] as u64) << 56);
    proof {
        lemma_word_of_bytes(
            bytes@[0],
            bytes@[1],
            bytes@[2],
            bytes@[3],
            bytes@[4],
            bytes@[5],
            bytes@[6],
            bytes@[7],
        );
    }
    w
}

/// The bytes of `word_of` are its arguments.
pub proof fn lemma_word_of_bytes(
    b0: u8,
    b1: u8,
    b2: u8,
    b3: u8,
    b4: u8,
    b5: u8,
    b6: u8,
    b7: u8,
)
    ensures
        byte_of(word_of(b0, b1, b2, b3, b4, b5, b6, b7), 0) == b0,
        byte_of(word_of(b0, b1, b2, b3, b4, b5, b6, b7), 1) == b1,
        byte_of(word_of(b0, b1, b2, b3, b4, b5, b6, b7), 2) == b2,
        byte_of(word_of(b0, b1, b2, b3, b4, b5, b6, b7), 3) == b3,
        byte_of(word_of(b0, b1, b2, b3, b4, b5, b6, b7), 4) == b4,
        byte_of(word_of(b0, b1, b2, b3, b4, b5, b6, b7), 5) == b5,
        byte_of(word_of(b0, b1, b2, b3, b4, b5, b6, b7), 6) == b6,
        byte_of(word_of(b0, b1, b2, b3, b4, b5, b6, b7), 7) == b7,
{
    let w = word_of(b0, b1, b2, b3, b4, b5, b6, b7);
    assert(((w >> 0) & 0xFF) == b0 && ((w >> 8) & 0xFF) == b1 && ((w >> 16) & 0xFF) == b2 && ((w
        >> 24) & 0xFF) == b3 && ((w >> 32) & 0xFF) == b4 && ((w >> 40) & 0xFF) == b5 && ((w
        >> 48) & 0xFF) == b6 && ((w >> 56) & 0xFF) == b7) by (bit_vector)
        requires
            w == (b0 as u64) | ((b1 as u64) << 8) | ((b2 as u64) << 16) | ((b3 as u64) << 24) | ((
            b4 as u64) << 32) | ((b5 as u64) << 40) | ((b6 as u64) << 48) | ((b7 as u64) << 56),
    ;
}

/// Bit `q` of byte `b` of a word is bit `8 * b + q` of the word, so two
/// words with a byte in common have the bits of that byte in common.
pub proof fn lemma_byte_bits(x: u64, bx: int, y: u64, by: int, q: int)
    requires
        0 <= bx < 8,
        0 <= by < 8,
        0 <= q < 8,
        byte_of(x, bx) == byte_of(y, by),
    ensures
        bit(x, 8 * bx + q) == bit(y, 8 * by + q),
{
    let sx: u64 = (8 * bx) as u64;
    let sy: u64 = (8 * by) as u64;
    let px: u64 = (8 * bx + q) as u64;
    let py: u64 = (8 * by + q) as u64;
    let lx: u64 = (x >> sx) & 0xFF;
    let ly: u64 = (y >> sy) & 0xFF;
    assert(lx < 256 && ly < 256) by (bit_vector)
        requires
            lx == (x >> sx) & 0xFF,
            ly == (y >> sy) & 0xFF,
    ;
    assert(lx == ly);
    let qq: u64 = q as u64;
    assert(((x >> px) & 1 == 1) == ((y >> py) & 1 == 1)) by (bit_vector)
        requires
            (x >> sx) & 0xFF == (y >> sy) & 0xFF,
            qq < 8,
            sx <= 56,
            sy <= 56,
            px == sx + qq,
            py == sy + qq,
    ;
}

/// A word is determined by its eight bytes.
pub proof fn lemma_bytes_determine_word(x: u64, y: u64)
    requires
        forall|b: int| 0 <= b < 8 ==> byte_of(x, b) == byte_of(y, b),
    ensures
        x == y,
{
    assert forall|pos: int| 0 <= pos < 64 implies bit(x, pos) == bit(y, pos) by {
        lemma_byte_bits(x, pos / 8, y, pos / 8, pos % 8);
    }
    lemma_bits_determine_word(x, y);
}


} // verus!
