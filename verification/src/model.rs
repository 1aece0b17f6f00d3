//! The mathematical description of the format, over unbounded naturals and
//! sequences of bytes. Everything executable in this crate is specified in
//! terms of the functions defined here.
use vstd::prelude::*;

use crate::{ErrorKind, ILINT_BASE, ILINT_MAX_TRAILING};

verus! {

/// `256` raised to the power `k`.
pub open spec fn pow256(k: nat) -> nat
    decreases k,
{
    if k == 0 {
        1
    } else {
        256 * pow256((k - 1) as nat)
    }
}

/// The number of base-256 digits needed to write `t`, counting at least one
/// digit (so zero takes one digit).
pub open spec fn payload_width(t: nat) -> nat
    decreases t,
{
    if t < 256 {
        1
    } else {
        1 + payload_width(t / 256)
    }
}

/// The natural number whose big-endian base-256 digits are `s`.
pub open spec fn be_value(s: Seq<u8>) -> nat
    decreases s.len(),
{
    if s.len() == 0 {
        0
    } else {
        be_value(s.drop_last()) * 256 + s.last() as nat
    }
}

/// The `width` least significant base-256 digits of `t`, most significant
/// first. Leading zero digits are kept: the result always has `width` bytes.
pub open spec fn be_bytes(t: nat, width: nat) -> Seq<u8>
    decreases width,
{
    if width == 0 {
        Seq::empty()
    } else {
        be_bytes(t / 256, (width - 1) as nat).push((t % 256) as u8)
    }
}

/// The number of bytes that the encoding of `value` occupies.
pub open spec fn spec_encoded_size(value: u64) -> nat {
    if value < ILINT_BASE {
        1
    } else {
        1 + payload_width((value - ILINT_BASE) as nat)
    }
}

/// The encoding of `value`: either the value itself as one byte, or a header
/// byte followed by the big-endian digits of `value - ILINT_BASE`.
pub open spec fn spec_encoding(value: u64) -> Seq<u8> {
    if value < ILINT_BASE {
        seq![value as u8]
    } else {
        let trailing = (value - ILINT_BASE) as nat;
        let width = payload_width(trailing);
        seq![(ILINT_BASE + width - 1) as u8] + be_bytes(trailing, width)
    }
}

/// The total length of an encoding, read off its first byte.
pub open spec fn spec_decoded_size(header: u8) -> nat {
    if header < ILINT_BASE {
        1
    } else {
        (header - ILINT_BASE + 2) as nat
    }
}

/// What decoding the front of `s` gives: the value and the number of bytes
/// that its encoding occupies, or the reason why there is none.
pub open spec fn spec_decode(s: Seq<u8>) -> Result<(u64, usize), ErrorKind> {
    if s.len() == 0 {
        Err(ErrorKind::InsufficientBuffer)
    } else {
        let size = spec_decoded_size(s[0]);
        if s.len() < size {
            Err(ErrorKind::InsufficientBuffer)
        } else if size == 1 {
            Ok((s[0] as u64, 1usize))
        } else {
            let trailing = be_value(s.subrange(1, size as int));
            if trailing > ILINT_MAX_TRAILING {
                Err(ErrorKind::Overflow)
            } else {
                Ok(((trailing + ILINT_BASE) as u64, size as usize))
            }
        }
    }
}

/// The unsigned value that stands for the signed `v`: non-negative values
/// are doubled, negative values take the odd numbers in order of magnitude.
pub open spec fn spec_encode_sign(v: i64) -> u64 {
    if v >= 0 {
        (2 * v) as u64
    } else {
        (-2 * v - 1) as u64
    }
}

/// The signed value that the unsigned `v` stands for.
pub open spec fn spec_decode_sign(v: u64) -> i64 {
    if v % 2 == 0 {
        (v / 2) as i64
    } else {
        (-(v / 2) - 1) as i64
    }
}

} // verus!
