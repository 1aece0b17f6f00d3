//! The folding of signed 64-bit integers into the unsigned domain, so that
//! values of small magnitude, of either sign, have short encodings.
use vstd::prelude::*;

use crate::laws::{lemma_sign_fold_bitwise, lemma_sign_unfold_bitwise};
use crate::model::{spec_decode_sign, spec_encode_sign};

verus! {

/// Folds a signed value into the unsigned value that stands for it.
///
/// Non-negative values map to the even numbers and negative values to the
/// odd ones, both in order of magnitude.
pub fn encode_sign(v: i64) -> (r: u64)
    ensures
        r == spec_encode_sign(v),
        r % 2 == 0 <==> v >= 0,
{
    proof {
        lemma_sign_fold_bitwise(v);
    }
    let tmp: u64 = v as u64;
    if tmp & 0x8000_0000_0000_0000 == 0 {
        tmp << 1
    } else {
        !(tmp << 1)
    }
}

/// Unfolds an unsigned value into the signed value that it stands for.
///
/// Even values give the non-negative numbers and odd values the negative
/// ones.
pub fn decode_sign(v: u64) -> (r: i64)
    ensures
        r == spec_decode_sign(v),
        r >= 0 <==> v % 2 == 0,
{
    proof {
        lemma_sign_unfold_bitwise(v);
    }
    if v & 0x1 == 0 {
        (v >> 1) as i64
    } else {
        (!(v >> 1)) as i64
    }
}

} // verus!
