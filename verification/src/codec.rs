//! The executable encoder and decoder.
use vstd::prelude::*;

use crate::laws::{
    lemma_be_bytes_index, lemma_be_bytes_len, lemma_be_value_bound, lemma_payload_width_threshold,
    lemma_pow256_monotonic, lemma_pow256_values,
};
use crate::model::{
    be_bytes, be_value, pow256, spec_decode, spec_decoded_size, spec_encoded_size, spec_encoding,
};
use crate::{ErrorKind, ILINT_BASE, ILINT_BASE_U64, ILINT_MAX_TRAILING};

verus! {

/// Returns the number of bytes that the encoding of `value` occupies.
pub fn encoded_size(value: u64) -> (size: usize)
    ensures
        size == spec_encoded_size(value),
        1 <= size <= 9,
        size == 1 <==> value < ILINT_BASE,
{
    proof {
        lemma_pow256_values();
        if value >= ILINT_BASE {
            let t = (value - ILINT_BASE) as nat;
            lemma_payload_width_threshold(t, 1);
            lemma_payload_width_threshold(t, 2);
            lemma_payload_width_threshold(t, 3);
            lemma_payload_width_threshold(t, 4);
            lemma_payload_width_threshold(t, 5);
            lemma_payload_width_threshold(t, 6);
            lemma_payload_width_threshold(t, 7);
            lemma_payload_width_threshold(t, 8);
        }
    }
    if value < ILINT_BASE_U64 {
        1
    } else if value <= 0xFF + ILINT_BASE_U64 {
        2
    } else if value <= 0xFFFF + ILINT_BASE_U64 {
        3
    } else if value <= 0x00FF_FFFF + ILINT_BASE_U64 {
        4
    } else if value <= 0xFFFF_FFFF + ILINT_BASE_U64 {
        5
    } else if value <= 0x00FF_FFFF_FFFF + ILINT_BASE_U64 {
        6
    } else if value <= 0xFFFF_FFFF_FFFF + ILINT_BASE_U64 {
        7
    } else if value <= 0x00FF_FFFF_FFFF_FFFF + ILINT_BASE_U64 {
        8
    } else {
        9
    }
}

/// The byte that a right shift by `8 * k` bits and a mask bring out of `v` is
/// the base-256 digit of `v` of weight `256^k`.
proof fn lemma_shifted_byte_is_digit(v: u64, k: nat)
    requires
        k < 8,
    ensures
        (v >> ((8 * k) as u64)) & 0xFF == (v as nat / pow256(k)) % 256,
{
    lemma_pow256_values();
    if k == 0 {
        assert((v >> 0u64) & 0xFF == (v / 0x1) % 256) by (bit_vector);
    } else if k == 1 {
        assert((v >> 8u64) & 0xFF == (v / 0x100) % 256) by (bit_vector);
    } else if k == 2 {
        assert((v >> 16u64) & 0xFF == (v / 0x1_0000) % 256) by (bit_vector);
    } else if k == 3 {
        assert((v >> 24u64) & 0xFF == (v / 0x100_0000) % 256) by (bit_vector);
    } else if k == 4 {
        assert((v >> 32u64) & 0xFF == (v / 0x1_0000_0000) % 256) by (bit_vector);
    } else if k == 5 {
        assert((v >> 40u64) & 0xFF == (v / 0x100_0000_0000) % 256) by (bit_vector);
    } else if k == 6 {
        assert((v >> 48u64) & 0xFF == (v / 0x1_0000_0000_0000) % 256) by (bit_vector);
    } else {
        assert((v >> 56u64) & 0xFF == (v / 0x100_0000_0000_0000) % 256) by (bit_vector);
    }
}

/// Writes the encoding of `value` to the front of `enc` and returns the
/// number of bytes written.
///
/// Fails with [`ErrorKind::InsufficientBuffer`], leaving `enc` as it was, if
/// `enc` is shorter than the encoding. On success only the bytes that hold
/// the encoding change.
pub fn encode(value: u64, enc: &mut [u8]) -> (r: Result<usize, ErrorKind>)
    ensures
        final(enc)@.len() == old(enc)@.len(),
        r is Ok <==> old(enc)@.len() >= spec_encoded_size(value),
        r is Err ==> {
            &&& r == Err::<usize, ErrorKind>(ErrorKind::InsufficientBuffer)
            &&& final(enc)@ == old(enc)@
        },
        r is Ok ==> {
            &&& r == Ok::<usize, ErrorKind>(spec_encoded_size(value) as usize)
            &&& final(enc)@ == spec_encoding(value) + old(enc)@.skip(
                spec_encoded_size(value) as int,
            )
        },
{
    let size: usize = encoded_size(value);
    if size > enc.len() {
        Err(ErrorKind::InsufficientBuffer)
    } else {
        if size == 1 {
            enc[0] = value as u8;
        } else {
            enc[0] = ILINT_BASE + ((size - 2) as u8);
            let v: u64 = value - ILINT_BASE_U64;
            let ghost digits = be_bytes(v as nat, (size - 1) as nat);
            let mut shift: u64 = 8 * ((size - 1) as u64);
            let mut i: usize = 1;
            while i < size
                invariant
                    2 <= size <= 9,
                    1 <= i <= size <= enc@.len(),
                    enc@.len() == old(enc)@.len(),
                    shift == 8 * (size - i),
                    digits == be_bytes(v as nat, (size - 1) as nat),
                    enc@[0] == ILINT_BASE + size - 2,
                    forall|j: int| 1 <= j < i ==> enc@[j] == digits[j - 1],
                    forall|j: int| size <= j < enc@.len() ==> enc@[j] == old(enc)@[j],
                decreases size - i,
            {
                shift -= 8;
                proof {
                    lemma_shifted_byte_is_digit(v, (size - 1 - i) as nat);
                    lemma_be_bytes_index(v as nat, (size - 1) as nat, i - 1);
                }
                enc[i] = ((v >> shift) & 0xFF) as u8;
                i += 1;
            }
            proof {
                lemma_be_bytes_len(v as nat, (size - 1) as nat);
            }
        }
        assert(enc@ =~= spec_encoding(value) + old(enc)@.skip(size as int));
        Ok(size)
    }
}

/// Returns the total length of an encoding, header included, from its
/// header alone.
pub fn decoded_size(header: u8) -> (size: usize)
    ensures
        size == spec_decoded_size(header),
        1 <= size <= 9,
        size == 1 <==> header < ILINT_BASE,
{
    if header < ILINT_BASE {
        1
    } else {
        (header - ILINT_BASE + 2) as usize
    }
}

/// Decodes the value whose encoding stands at the front of `value`, and
/// returns it with the number of bytes that the encoding occupies. Bytes
/// after the encoding are ignored.
///
/// Fails with [`ErrorKind::InsufficientBuffer`] if `value` is empty or
/// shorter than its first byte announces, and with [`ErrorKind::Overflow`]
/// if the encoding stands for a number above `u64::MAX`.
pub fn decode(value: &[u8]) -> (r: Result<(u64, usize), ErrorKind>)
    ensures
        r == spec_decode(value@),
{
    if value.is_empty() {
        return Err(ErrorKind::InsufficientBuffer);
    }
    let size: usize = decoded_size(value[0]);
    if size > value.len() {
        return Err(ErrorKind::InsufficientBuffer);
    }
    if size == 1 {
        Ok((value[0] as u64, 1))
    } else {
        let mut v: u64 = 0;
        let mut i: usize = 1;
        while i < size
            invariant
                1 <= i <= size <= 9,
                size <= value@.len(),
                v == be_value(value@.subrange(1, i as int)),
            decreases size - i,
        {
            let ghost read = value@.subrange(1, i as int);
            let ghost next = value@.subrange(1, i + 1);
            proof {
                lemma_be_value_bound(read);
                lemma_pow256_monotonic(read.len(), 7);
                lemma_pow256_values();
                assert(next.drop_last() =~= read);
                assert(next.last() == value@[i as int]);
            }
            assert(v <= 0x00FF_FFFF_FFFF_FFFF ==> (v << 8) == v * 256) by (bit_vector);
            v = (v << 8) + (value[i] as u64);
            i += 1;
        }
        if v > ILINT_MAX_TRAILING {
            Err(ErrorKind::Overflow)
        } else {
            Ok((v + ILINT_BASE_U64, size))
        }
    }
}

} // verus!
