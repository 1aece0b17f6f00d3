use ilint::{
    decode, decoded_size, encode, encoded_size, ErrorKind, ILINT_BASE, ILINT_BASE_U64,
    ILINT_MAX_TRAILING,
};

const FILL: u8 = 0x5A;

/// Values on both sides of every size threshold, in ascending order.
fn threshold_values() -> Vec<u64> {
    let mut values: Vec<u64> = vec![0, 1, 0x7F, 0xF7, 0xF8, 0xF9];
    for k in 1u32..8 {
        let top: u64 = ILINT_BASE_U64 + ((1u64 << (8 * k)) - 1);
        values.push(top - 1);
        values.push(top);
        values.push(top + 1);
    }
    values.push(0x8000_0000_0000_0000);
    values.push(u64::MAX - 1);
    values.push(u64::MAX);
    values
}

fn encode_to_vec(value: u64) -> Vec<u8> {
    let mut buf: [u8; 9] = [0; 9];
    match encode(value, &mut buf) {
        Ok(size) => buf[0..size].to_vec(),
        Err(_) => panic!("nine bytes hold every encoding"),
    }
}

#[test]
fn constants_agree() {
    assert_eq!(ILINT_BASE_U64, 248);
    assert_eq!(u64::from(ILINT_BASE), ILINT_BASE_U64);
    assert_eq!(ILINT_MAX_TRAILING, u64::MAX - ILINT_BASE_U64);
}

#[test]
fn encoded_size_at_the_first_boundaries() {
    assert_eq!(encoded_size(247), 1);
    assert_eq!(encoded_size(248), 2);
    assert_eq!(encoded_size(503), 2);
    assert_eq!(encoded_size(504), 3);
}

#[test]
fn encode_writes_the_expected_bytes() {
    assert_eq!(encode_to_vec(0), vec![0x00]);
    assert_eq!(encode_to_vec(0xF7), vec![0xF7]);
    assert_eq!(encode_to_vec(0xF8), vec![0xF8, 0x00]);
    assert_eq!(encode_to_vec(503), vec![0xF8, 0xFF]);
    assert_eq!(encode_to_vec(504), vec![0xF9, 0x01, 0x00]);
    assert_eq!(encode_to_vec(0x021B), vec![0xF9, 0x01, 0x23]);
    assert_eq!(
        encode_to_vec(0x123_4567_89AB_CEE7),
        vec![0xFF, 0x01, 0x23, 0x45, 0x67, 0x89, 0xAB, 0xCD, 0xEF]
    );
    assert_eq!(
        encode_to_vec(u64::MAX),
        vec![0xFF, 0xFF, 0xFF, 0xFF, 0xFF, 0xFF, 0xFF, 0xFF, 0x07]
    );
}

#[test]
fn encode_keeps_leading_zero_digits() {
    // The payload width is fixed by the size, so the smallest nine-byte
    // value carries seven zero bytes after its first payload byte.
    assert_eq!(
        encode_to_vec(ILINT_BASE_U64 + 0x0100_0000_0000_0000),
        vec![0xFF, 0x01, 0x00, 0x00, 0x00, 0x00, 0x00, 0x00, 0x00]
    );
    assert_eq!(
        encode_to_vec(ILINT_BASE_U64 + 0x1_0000),
        vec![0xFA, 0x01, 0x00, 0x00]
    );
}

#[test]
fn decode_gives_the_largest_value() {
    let bytes: [u8; 9] = [0xFF, 0xFF, 0xFF, 0xFF, 0xFF, 0xFF, 0xFF, 0xFF, 0x07];
    assert_eq!(decode(&bytes), Ok((0xFFFF_FFFF_FFFF_FFFF, 9)));
}

#[test]
fn decode_accepts_padded_payloads() {
    // A payload wider than the value needs still decodes: the header alone
    // fixes the width.
    assert_eq!(decode(&[0xFA, 0x00, 0x00, 0x01]), Ok((249, 4)));
    assert_eq!(decode(&[0xF9, 0x00, 0x00]), Ok((248, 3)));
    assert_eq!(
        decode(&[0xFF, 0x00, 0x00, 0x00, 0x00, 0x00, 0x00, 0x00, 0x00]),
        Ok((248, 9))
    );
}

#[test]
fn decode_of_nothing_fails() {
    assert_eq!(decode(&[]), Err(ErrorKind::InsufficientBuffer));
}

#[test]
fn decode_ignores_what_follows_the_encoding() {
    assert_eq!(decode(&[0x10, 0xFF, 0xFF]), Ok((0x10, 1)));
    assert_eq!(decode(&[0xF9, 0x01, 0x23, 0xFF, 0xFF]), Ok((0x021B, 3)));
    assert_eq!(decode(&[0xF9, 0x01, 0x23, 0x00]), Ok((0x021B, 3)));
    let mut long: [u8; 12] = [0xFF; 12];
    long[8] = 0x07;
    assert_eq!(decode(&long), Ok((u64::MAX, 9)));
}

#[test]
fn round_trip_of_every_small_value() {
    for value in 0u64..70_000 {
        let mut buf: [u8; 9] = [FILL; 9];
        let size: usize = encoded_size(value);
        assert_eq!(encode(value, &mut buf), Ok(size));
        assert_eq!(decode(&buf), Ok((value, size)));
        assert_eq!(decode(&buf[0..size]), Ok((value, size)));
    }
}

#[test]
fn round_trip_of_large_values() {
    for value in threshold_values() {
        let mut buf: [u8; 9] = [FILL; 9];
        let size: usize = encoded_size(value);
        assert_eq!(encode(value, &mut buf), Ok(size));
        assert_eq!(decode(&buf), Ok((value, size)));
    }
    for bit in 0u32..64 {
        let value: u64 = 1u64 << bit;
        for candidate in [value - 1, value, value + 1] {
            let encoded = encode_to_vec(candidate);
            assert_eq!(decode(&encoded), Ok((candidate, encoded.len())));
        }
    }
}

#[test]
fn encoded_size_never_shrinks() {
    let values = threshold_values();
    for pair in values.windows(2) {
        assert!(pair[0] <= pair[1]);
        assert!(encoded_size(pair[0]) <= encoded_size(pair[1]));
    }
    let mut last: usize = 1;
    for value in 0u64..70_000 {
        let size: usize = encoded_size(value);
        assert!(last <= size);
        last = size;
    }
}

#[test]
fn encoded_size_stays_within_one_and_nine() {
    for value in threshold_values() {
        let size: usize = encoded_size(value);
        assert!(1 <= size && size <= 9);
    }
    for header in 0u8..=255 {
        let size: usize = decoded_size(header);
        assert!(1 <= size && size <= 9);
    }
}

#[test]
fn header_announces_the_encoded_size() {
    for value in threshold_values() {
        let encoded = encode_to_vec(value);
        assert_eq!(decoded_size(encoded[0]), encoded_size(value));
        assert_eq!(encoded.len(), encoded_size(value));
    }
}

#[test]
fn encode_rejects_every_shorter_buffer() {
    for value in threshold_values() {
        let size: usize = encoded_size(value);
        for len in 0..size {
            let mut buf: [u8; 9] = [FILL; 9];
            assert_eq!(
                encode(value, &mut buf[0..len]),
                Err(ErrorKind::InsufficientBuffer)
            );
            assert_eq!(buf, [FILL; 9]);
        }
        let mut exact: [u8; 9] = [FILL; 9];
        assert_eq!(encode(value, &mut exact[0..size]), Ok(size));
    }
}

#[test]
fn encode_touches_only_the_encoding() {
    for value in threshold_values() {
        let mut buf: [u8; 12] = [FILL; 12];
        let size: usize = encoded_size(value);
        assert_eq!(encode(value, &mut buf), Ok(size));
        assert_eq!(buf[0..size].to_vec(), encode_to_vec(value));
        for i in size..12 {
            assert_eq!(buf[i], FILL);
        }
    }
}

#[test]
fn single_byte_values_are_written_as_themselves() {
    for value in 0u64..0xF8 {
        assert_eq!(encoded_size(value), 1);
        let mut buf: [u8; 3] = [FILL; 3];
        assert_eq!(encode(value, &mut buf), Ok(1));
        assert_eq!(u64::from(buf[0]), value);
        assert_eq!(buf[1], FILL);
        assert_eq!(buf[2], FILL);
    }
}

#[test]
fn overflow_starts_right_above_the_largest_payload() {
    let mut bytes: [u8; 9] = [0xFF; 9];
    bytes[8] = 0x07;
    assert_eq!(decode(&bytes), Ok((u64::MAX, 9)));
    bytes[8] = 0x06;
    assert_eq!(decode(&bytes), Ok((u64::MAX - 1, 9)));
    bytes[8] = 0x08;
    assert_eq!(decode(&bytes), Err(ErrorKind::Overflow));
    bytes[8] = 0xFF;
    assert_eq!(decode(&bytes), Err(ErrorKind::Overflow));
    // A smaller digit further up brings the payload back below the bound.
    bytes[7] = 0xFE;
    assert_eq!(decode(&bytes), Ok((0xFFFF_FFFF_FFFF_FEFF + ILINT_BASE_U64, 9)));
}

#[test]
fn overflow_needs_a_nine_byte_header() {
    // The largest eight-byte encoding is far from the bound.
    assert_eq!(
        decode(&[0xFE, 0xFF, 0xFF, 0xFF, 0xFF, 0xFF, 0xFF, 0xFF]),
        Ok((0x00FF_FFFF_FFFF_FFFF + ILINT_BASE_U64, 8))
    );
    // Too short a buffer is reported before the payload is looked at.
    assert_eq!(
        decode(&[0xFF, 0xFF, 0xFF, 0xFF, 0xFF, 0xFF, 0xFF, 0xFF]),
        Err(ErrorKind::InsufficientBuffer)
    );
}

#[test]
fn decode_rejects_every_truncated_encoding() {
    for value in threshold_values() {
        let encoded = encode_to_vec(value);
        for len in 0..encoded.len() {
            assert_eq!(
                decode(&encoded[0..len]),
                Err(ErrorKind::InsufficientBuffer)
            );
        }
    }
}
