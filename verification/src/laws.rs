//! What holds of the format: facts about base-256 digits, about the size of
//! an encoding, and about how encoding and decoding relate.
use vstd::prelude::*;

use crate::model::{
    be_bytes, be_value, payload_width, pow256, spec_decode, spec_decode_sign, spec_decoded_size,
    spec_encode_sign, spec_encoded_size, spec_encoding,
};
use crate::{ErrorKind, ILINT_BASE, ILINT_MAX_TRAILING};

verus! {

/// The powers of 256 that fit the format, written out.
pub proof fn lemma_pow256_values()
    ensures
        pow256(0) == 1,
        pow256(1) == 0x100,
        pow256(2) == 0x1_0000,
        pow256(3) == 0x100_0000,
        pow256(4) == 0x1_0000_0000,
        pow256(5) == 0x100_0000_0000,
        pow256(6) == 0x1_0000_0000_0000,
        pow256(7) == 0x100_0000_0000_0000,
        pow256(8) == 0x1_0000_0000_0000_0000,
{
    reveal_with_fuel(pow256, 9);
}

/// Every power of 256 is positive, and all but the first are at least 256.
pub proof fn lemma_pow256_positive(k: nat)
    ensures
        pow256(k) >= 1,
        k >= 1 ==> pow256(k) >= 256,
    decreases k,
{
    if k > 0 {
        lemma_pow256_positive((k - 1) as nat);
    }
}

/// The powers of 256 grow with the exponent.
pub proof fn lemma_pow256_monotonic(a: nat, b: nat)
    requires
        a <= b,
    ensures
        pow256(a) <= pow256(b),
    decreases b,
{
    if a < b {
        lemma_pow256_monotonic(a, (b - 1) as nat);
    }
}

/// A number has at most `k` base-256 digits exactly when it is below
/// `256^k`.
pub proof fn lemma_payload_width_threshold(t: nat, k: nat)
    requires
        k >= 1,
    ensures
        payload_width(t) <= k <==> t < pow256(k),
    decreases k,
{
    lemma_pow256_positive(k);
    if t >= 256 {
        if k >= 2 {
            lemma_payload_width_threshold(t / 256, (k - 1) as nat);
        } else {
            assert(pow256(1) == 256) by {
                reveal_with_fuel(pow256, 2);
            }
        }
    }
}

/// `be_bytes` yields exactly as many bytes as it is asked for.
pub proof fn lemma_be_bytes_len(t: nat, width: nat)
    ensures
        be_bytes(t, width).len() == width,
    decreases width,
{
    if width > 0 {
        lemma_be_bytes_len(t / 256, (width - 1) as nat);
    }
}

/// The byte at position `j` of `be_bytes(t, width)` is the base-256 digit of
/// `t` of weight `256^(width - 1 - j)`.
pub proof fn lemma_be_bytes_index(t: nat, width: nat, j: int)
    requires
        0 <= j < width,
    ensures
        be_bytes(t, width).len() == width,
        be_bytes(t, width)[j] == ((t / pow256((width - 1 - j) as nat)) % 256) as u8,
    decreases width,
{
    lemma_be_bytes_len(t, width);
    lemma_be_bytes_len(t / 256, (width - 1) as nat);
    let front = be_bytes(t / 256, (width - 1) as nat);
    assert(be_bytes(t, width) == front.push((t % 256) as u8));
    if j < width - 1 {
        let weight = pow256((width - 2 - j) as nat);
        lemma_be_bytes_index(t / 256, (width - 1) as nat, j);
        lemma_pow256_positive((width - 2 - j) as nat);
        vstd::arithmetic::div_mod::lemma_div_denominator(t as int, 256, weight as int);
        assert(pow256((width - 1 - j) as nat) == 256 * weight);
        assert((t / 256) / weight == t / (256 * weight));
        assert(be_bytes(t, width)[j] == front[j]);
    } else {
        assert(pow256(0) == 1);
        assert(t / 1 == t);
        assert(be_bytes(t, width)[j] == (t % 256) as u8);
    }
}

/// A sequence of `n` bytes, read big-endian, is a number below `256^n`.
pub proof fn lemma_be_value_bound(s: Seq<u8>)
    ensures
        be_value(s) < pow256(s.len()),
    decreases s.len(),
{
    if s.len() > 0 {
        lemma_be_value_bound(s.drop_last());
    }
}

/// Reading back the digits of a number that fits the width gives the number.
pub proof fn lemma_be_value_of_bytes(t: nat, width: nat)
    requires
        t < pow256(width),
    ensures
        be_value(be_bytes(t, width)) == t,
    decreases width,
{
    if width > 0 {
        let front = be_bytes(t / 256, (width - 1) as nat);
        lemma_be_value_of_bytes(t / 256, (width - 1) as nat);
        assert(be_bytes(t, width).drop_last() =~= front);
    }
}

/// Writing the digits of the number that a sequence of bytes stands for
/// gives the sequence back, leading zeros included.
pub proof fn lemma_be_bytes_of_value(s: Seq<u8>)
    ensures
        be_bytes(be_value(s), s.len()) == s,
    decreases s.len(),
{
    if s.len() > 0 {
        lemma_be_bytes_of_value(s.drop_last());
    }
    assert(be_bytes(be_value(s), s.len()) =~= s);
}

/// A larger number never has fewer base-256 digits.
pub proof fn lemma_payload_width_monotonic(a: nat, b: nat)
    requires
        a <= b,
    ensures
        payload_width(a) <= payload_width(b),
    decreases b,
{
    if a >= 256 {
        lemma_payload_width_monotonic(a / 256, b / 256);
    }
}

/// An encoding occupies between one and nine bytes, and exactly as many as
/// `spec_encoded_size` says.
pub proof fn lemma_encoded_size_range(value: u64)
    ensures
        1 <= spec_encoded_size(value) <= 9,
        spec_encoding(value).len() == spec_encoded_size(value),
{
    if value >= ILINT_BASE {
        let trailing = (value - ILINT_BASE) as nat;
        lemma_pow256_values();
        lemma_payload_width_threshold(trailing, 8);
        lemma_be_bytes_len(trailing, payload_width(trailing));
    }
}

/// The size of an encoding in terms of thresholds: for a payload of `k`
/// bytes, `1 <= k <= 8`, the encoding of `value` takes at most `k + 1` bytes
/// exactly when `value <= ILINT_BASE + (256^k - 1)`. Only values below
/// `ILINT_BASE` take a single byte.
pub proof fn lemma_encoded_size_thresholds(value: u64, k: nat)
    requires
        1 <= k <= 8,
    ensures
        spec_encoded_size(value) <= k + 1 <==> value <= ILINT_BASE + (pow256(k) - 1),
        spec_encoded_size(value) == 1 <==> value < ILINT_BASE,
{
    lemma_pow256_positive(k);
    if value >= ILINT_BASE {
        lemma_payload_width_threshold((value - ILINT_BASE) as nat, k);
    }
}

/// The size of an encoding never shrinks as the value grows.
pub proof fn lemma_encoded_size_monotonic(a: u64, b: u64)
    requires
        a <= b,
    ensures
        spec_encoded_size(a) <= spec_encoded_size(b),
{
    if a >= ILINT_BASE {
        lemma_payload_width_monotonic((a - ILINT_BASE) as nat, (b - ILINT_BASE) as nat);
    }
}

/// The first byte of the encoding of a value announces the size of that
/// encoding.
pub proof fn lemma_header_consistency(value: u64)
    ensures
        spec_decoded_size(spec_encoding(value)[0]) == spec_encoded_size(value),
{
    lemma_encoded_size_range(value);
}

/// A value below `ILINT_BASE` is encoded as the one byte that holds it.
pub proof fn lemma_single_byte(value: u64)
    requires
        value < ILINT_BASE,
    ensures
        spec_encoded_size(value) == 1,
        spec_encoding(value) == seq![value as u8],
{
}

/// Decoding the encoding of a value gives the value back, together with the
/// size of the encoding, whatever bytes follow the encoding.
pub proof fn lemma_round_trip(value: u64, tail: Seq<u8>)
    ensures
        spec_decode(spec_encoding(value) + tail) == Ok::<(u64, usize), ErrorKind>(
            (value, spec_encoded_size(value) as usize),
        ),
{
    let encoded = spec_encoding(value) + tail;
    lemma_encoded_size_range(value);
    if value >= ILINT_BASE {
        let trailing = (value - ILINT_BASE) as nat;
        let width = payload_width(trailing);
        lemma_payload_width_threshold(trailing, width);
        lemma_be_value_of_bytes(trailing, width);
        assert(encoded.subrange(1, 1 + width as int) =~= be_bytes(trailing, width));
    }
}

/// Decoding looks only at the bytes that the header announces: two
/// sequences that agree on those bytes decode alike.
pub proof fn lemma_decode_reads_prefix(s: Seq<u8>, t: Seq<u8>)
    requires
        s.len() > 0,
        s.len() >= spec_decoded_size(s[0]),
        t.len() >= spec_decoded_size(s[0]),
        s.subrange(0, spec_decoded_size(s[0]) as int) == t.subrange(
            0,
            spec_decoded_size(s[0]) as int,
        ),
    ensures
        spec_decode(s) == spec_decode(t),
{
    let size = spec_decoded_size(s[0]) as int;
    let head_s = s.subrange(0, size);
    let head_t = t.subrange(0, size);
    assert(s[0] == head_s[0]);
    assert(t[0] == head_t[0]);
    assert(s.subrange(1, size) =~= head_s.subrange(1, size));
    assert(t.subrange(1, size) =~= head_t.subrange(1, size));
}

/// The largest payload that decodes is `u64::MAX - ILINT_BASE`.
pub proof fn lemma_max_trailing()
    ensures
        ILINT_MAX_TRAILING + ILINT_BASE == u64::MAX,
{
}

/// Overflow is reported only for nine-byte encodings, and for those exactly
/// when the payload is above `ILINT_MAX_TRAILING`; any smaller payload
/// decodes to the payload plus `ILINT_BASE`.
pub proof fn lemma_overflow_detection(s: Seq<u8>)
    ensures
        spec_decode(s) == Err::<(u64, usize), ErrorKind>(ErrorKind::Overflow) <==> {
            &&& s.len() >= 9
            &&& s[0] == 0xFF
            &&& be_value(s.subrange(1, 9)) > ILINT_MAX_TRAILING
        },
        s.len() >= 9 && s[0] == 0xFF && be_value(s.subrange(1, 9)) <= ILINT_MAX_TRAILING
            ==> spec_decode(s) == Ok::<(u64, usize), ErrorKind>(
            ((be_value(s.subrange(1, 9)) + ILINT_BASE) as u64, 9usize),
        ),
{
    if s.len() > 0 && s[0] >= ILINT_BASE && s.len() >= spec_decoded_size(s[0]) {
        let size = spec_decoded_size(s[0]);
        if size < 9 {
            lemma_be_value_bound(s.subrange(1, size as int));
            lemma_pow256_monotonic((size - 1) as nat, 7);
            lemma_pow256_values();
        }
    }
}

/// The folding in terms of bits: a non-negative value is shifted left by
/// one, which leaves the low bit clear; a negative value is shifted
/// likewise and then complemented, which sets the low bit.
pub proof fn lemma_sign_fold_bitwise(v: i64)
    ensures
        v >= 0 <==> (v as u64) & 0x8000_0000_0000_0000 == 0,
        v >= 0 ==> spec_encode_sign(v) == (v as u64) << 1,
        v < 0 ==> spec_encode_sign(v) == !((v as u64) << 1),
{
    assert(v >= 0 <==> (v as u64) & 0x8000_0000_0000_0000 == 0) by (bit_vector);
    assert(v >= 0 ==> (v as u64) << 1 == 2 * v) by (bit_vector);
    assert(v < 0 ==> !((v as u64) << 1) == -2 * v - 1) by (bit_vector);
}

/// The unfolding in terms of bits: with the low bit clear the value is
/// shifted right by one; with the low bit set it is shifted likewise and
/// then complemented.
pub proof fn lemma_sign_unfold_bitwise(v: u64)
    ensures
        v % 2 == 0 <==> v & 1 == 0,
        v & 1 == 0 ==> spec_decode_sign(v) == (v >> 1) as i64,
        v & 1 != 0 ==> spec_decode_sign(v) == (!(v >> 1)) as i64,
{
    assert(v & 1 == 0 ==> v % 2 == 0 && (v >> 1) as i64 == v / 2) by (bit_vector);
    assert(v & 1 != 0 ==> v % 2 == 1 && (!(v >> 1)) as i64 == -(v / 2) - 1) by (bit_vector);
}

/// Unfolding the folding of a signed value gives the value back.
pub proof fn lemma_sign_round_trip(v: i64)
    ensures
        spec_decode_sign(spec_encode_sign(v)) == v,
{
}

/// Folding the unfolding of an unsigned value gives the value back: the
/// folding reaches every unsigned value.
pub proof fn lemma_unsign_round_trip(v: u64)
    ensures
        spec_encode_sign(spec_decode_sign(v)) == v,
{
}

} // verus!
