//! Bit-sliced arithmetic on batches of 512 unsigned 64-bit integers, and the
//! 64x64 bit-matrix transpose that converts between the row-major and the
//! bit-plane layout.

pub mod arith;
pub mod bits;
pub mod bytes;
pub mod error;
pub mod laws;
pub mod model;
pub mod staged;
pub mod transpose;
pub mod value;
pub mod vector;

pub use arith::{
    bitsliced_add, bitsliced_add_inline, bitsliced_add_single, bitsliced_add_single_inline,
    bitsliced_modulo_power_of_two, bitsliced_modulo_power_of_two_inline, des_reduction,
    des_reduction_inline,
};
pub use error::RangeError;
pub use staged::{
    gather_bytes, gfni_bit_transpose_8x8, grab_128_lanes_a, grab_128_lanes_b, interleave_full,
    transpose_gfni,
};
pub use transpose::{make_perm, transpose_scalar};
pub use vector::{all_ones, lanes, splat, zero};
