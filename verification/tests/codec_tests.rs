use protobench::codec::create_message;
use protobench::codec::index_from_message;
use protobench::codec::try_create_message;
use protobench::codec::DecodeError;
use protobench::codec::FILL_BYTE;
use protobench::ConfigError;

#[test]
fn round_trip_small_indices() {
    for idx in 0..50usize {
        let msg = create_message(idx, 16);
        assert_eq!(index_from_message(msg), Ok(idx as u64));
    }
}

#[test]
fn round_trip_various_sizes() {
    for size in [9usize, 10, 64, 1024] {
        let msg = create_message(123456789, size);
        assert_eq!(msg.len(), size);
        assert_eq!(index_from_message(msg), Ok(123456789));
    }
}

#[test]
fn round_trip_large_index() {
    let msg = create_message(usize::MAX, 32);
    assert_eq!(index_from_message(msg), Ok(usize::MAX as u64));
}

#[test]
fn encode_layout_is_index_then_fill() {
    let msg = create_message(1, 12);
    assert_eq!(msg.len(), 12);
    assert_eq!(&msg[0..8], &[1, 0, 0, 0, 0, 0, 0, 0]);
    for i in 8..12 {
        assert_eq!(msg[i], FILL_BYTE);
    }
}

#[test]
fn decode_rejects_short_payloads() {
    assert_eq!(index_from_message(vec![]), Err(DecodeError::TooShort));
    assert_eq!(index_from_message(vec![1, 2, 3]), Err(DecodeError::TooShort));
    assert_eq!(
        index_from_message(vec![0, 0, 0, 0, 0, 0, 0]),
        Err(DecodeError::TooShort)
    );
}

#[test]
fn decode_accepts_exactly_eight_bytes() {
    assert_eq!(index_from_message(vec![9, 0, 0, 0, 0, 0, 0, 0]), Ok(9));
}

#[test]
fn decode_ignores_what_trails_the_index() {
    let mut msg = create_message(42, 16);
    msg.extend_from_slice(&[0xFF, 0x00, 0x55]);
    assert_eq!(index_from_message(msg), Ok(42));
}

#[test]
fn decode_is_little_endian() {
    assert_eq!(
        index_from_message(vec![0x01, 0x02, 0, 0, 0, 0, 0, 0, FILL_BYTE]),
        Ok(0x0201)
    );
}

#[test]
fn try_create_rejects_sizes_without_room() {
    for size in [0usize, 1, 7, 8] {
        assert_eq!(
            try_create_message(3, size),
            Err(ConfigError::MessageSizeTooSmall)
        );
    }
}

#[test]
fn try_create_accepts_the_smallest_valid_size() {
    let msg = try_create_message(3, 9).unwrap();
    assert_eq!(msg.len(), 9);
    assert_eq!(index_from_message(msg), Ok(3));
}
