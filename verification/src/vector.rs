//! The 512-bit vector word: eight independent 64-bit lanes with bitwise
//! operations only.

use vstd::prelude::*;
use wide::u64x8;

verus! {

/// `wide::u64x8`, carried through verified code as an opaque value.
#[verifier::external_type_specification]
#[verifier::external_body]
pub struct ExU64x8(u64x8);

/// The eight lanes of a vector word, lane 0 first, as `u64x8::to_array`
/// lists them.
pub uninterp spec fn lanes(v: u64x8) -> Seq<u64>;

/// The lanes of a word whose every lane is `n`.
pub open spec fn uniform_lanes(n: u64) -> Seq<u64> {
    Seq::new(8, |l: int| n)
}

/// `u64x8::splat`: a vector word with all eight lanes set to `n`.
#[verifier::external_body]
pub fn splat(n: u64) -> (v: u64x8)
    ensures
        lanes(v) == uniform_lanes(n),
{
    u64x8::splat(n)
}

/// `u64x8`'s `^`: the lane-wise exclusive or of two vector words.
#[verifier::external_body]
pub(crate) fn xor(a: u64x8, b: u64x8) -> (r: u64x8)
    ensures
        lanes(r) == Seq::new(8, |l: int| lanes(a)[l] ^ lanes(b)[l]),
{
    a ^ b
}

/// `u64x8`'s `&`: the lane-wise conjunction of two vector words.
#[verifier::external_body]
pub(crate) fn and(a: u64x8, b: u64x8) -> (r: u64x8)
    ensures
        lanes(r) == Seq::new(8, |l: int| lanes(a)[l] & lanes(b)[l]),
{
    a & b
}

/// `u64x8`'s `|`: the lane-wise disjunction of two vector words.
#[verifier::external_body]
pub(crate) fn or(a: u64x8, b: u64x8) -> (r: u64x8)
    ensures
        lanes(r) == Seq::new(8, |l: int| lanes(a)[l] | lanes(b)[l]),
{
    a | b
}

/// The vector word with every bit set.
pub fn all_ones() -> (v: u64x8)
    ensures
        lanes(v) == uniform_lanes(u64::MAX),
{
    splat(0xFFFF_FFFF_FFFF_FFFF)
}

/// The vector word with every bit clear.
pub fn zero() -> (v: u64x8)
    ensures
        lanes(v) == uniform_lanes(0),
{
    splat(0)
}

} // verus!
