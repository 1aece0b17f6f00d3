//! A compact, self-describing variable-length encoding of 64-bit unsigned
//! integers, together with a reversible folding of signed 64-bit integers
//! into the unsigned domain.
//!
//! An encoding occupies one to nine bytes. Values below [`ILINT_BASE`] are
//! their own one-byte encoding. Any other value is written as a header byte,
//! which alone fixes the total length, followed by the fixed-width
//! big-endian digits of the value minus [`ILINT_BASE`].
//!
//! * [`model`] holds the mathematical description of the format.
//! * [`codec`] holds the executable encoder and decoder, proved against it.
//! * [`sign`] holds the signed/unsigned folding.
//! * [`laws`] states and proves what holds of the format as a whole.
use vstd::prelude::*;

pub mod codec;
pub mod laws;
pub mod model;
pub mod sign;

pub use codec::{decode, decoded_size, encode, encoded_size};
pub use sign::{decode_sign, encode_sign};

verus! {

/// The boundary between one-byte and multi-byte encodings: every value
/// smaller than this is encoded as the single byte holding it.
pub const ILINT_BASE: u8 = 0xF8;

/// [`ILINT_BASE`] as a `u64`.
pub const ILINT_BASE_U64: u64 = 0xF8;

/// The largest payload that a nine-byte encoding may carry. Added to
/// [`ILINT_BASE_U64`] it gives exactly `u64::MAX`; any larger payload
/// stands for a value that no `u64` can hold.
pub const ILINT_MAX_TRAILING: u64 = 0xFFFF_FFFF_FFFF_FF07;

/// The ways in which encoding or decoding can fail.
#[derive(Debug, Clone, Copy, PartialEq, Eq, Structural)]
pub enum ErrorKind {
    /// The byte region supplied is shorter than the encoding requires.
    InsufficientBuffer,
    /// The encoded value is larger than `u64::MAX`.
    Overflow,
}

} // verus!
