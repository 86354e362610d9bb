use rollback_arena::input::{
    decode, encode, fire, frame_checksum, DecodeError, Input, COORD_LIMIT, ENCODED_LEN,
};

fn inp(move_flag: bool, fire_flag: bool, x: i32, y: i32) -> Input {
    Input { move_flag, fire_flag, target_x: x, target_y: y }
}

#[test]
fn round_trip_basic() {
    let i = inp(true, false, 123, -456);
    let bytes = encode(&i);
    assert_eq!(bytes.len(), ENCODED_LEN);
    assert_eq!(decode(&bytes), Ok(i));
}

#[test]
fn round_trip_all_flag_combinations() {
    for (m, f) in [(false, false), (true, false), (false, true), (true, true)] {
        let i = inp(m, f, -77, 3000);
        assert_eq!(decode(&encode(&i)), Ok(i));
    }
}

#[test]
fn round_trip_extreme_targets() {
    let i = inp(true, true, COORD_LIMIT, -COORD_LIMIT);
    assert_eq!(decode(&encode(&i)), Ok(i));
    let j = inp(false, false, -COORD_LIMIT, COORD_LIMIT);
    assert_eq!(decode(&encode(&j)), Ok(j));
}

#[test]
fn encoded_bytes_are_exact() {
    let i = inp(true, true, 1, -1);
    let bytes = encode(&i);
    assert_eq!(
        bytes,
        vec![3u8, 1, 0, 0, 0, 255, 255, 255, 255]
    );
}

#[test]
fn decode_then_encode_is_byte_identical() {
    let bytes = vec![2u8, 5, 4, 3, 0, 200, 1, 255, 255];
    let i = decode(&bytes).expect("valid packet");
    assert_eq!(encode(&i), bytes);
}

#[test]
fn decode_rejects_wrong_length() {
    assert_eq!(decode(&vec![0u8; 8]), Err(DecodeError::WrongLength));
    assert_eq!(decode(&vec![0u8; 10]), Err(DecodeError::WrongLength));
    assert_eq!(decode(&Vec::new()), Err(DecodeError::WrongLength));
}

#[test]
fn decode_rejects_unknown_flags() {
    let mut bytes = encode(&inp(false, false, 0, 0));
    bytes[0] = 4;
    assert_eq!(decode(&bytes), Err(DecodeError::UnknownFlags));
    bytes[0] = 255;
    assert_eq!(decode(&bytes), Err(DecodeError::UnknownFlags));
}

#[test]
fn decode_rejects_target_out_of_range() {
    // 1048577 = COORD_LIMIT + 1, little-endian 0x00100001.
    let bytes = vec![0u8, 1, 0, 16, 0, 0, 0, 0, 0];
    assert_eq!(decode(&bytes), Err(DecodeError::TargetOutOfRange));
    // The same value aimed at y.
    let bytes = vec![0u8, 0, 0, 0, 0, 1, 0, 16, 0];
    assert_eq!(decode(&bytes), Err(DecodeError::TargetOutOfRange));
}

#[test]
fn fire_reads_the_fire_flag() {
    assert!(fire(&inp(false, true, 0, 0)));
    assert!(!fire(&inp(true, false, 0, 0)));
}

#[test]
fn frame_checksum_sums_both_encodings() {
    let zero = Input::idle();
    assert_eq!(frame_checksum(&zero, &zero), 0);
    // Flags 1 plus x-byte 1 on one side.
    let a = inp(true, false, 1, 0);
    assert_eq!(frame_checksum(&a, &zero), 2);
    assert_eq!(frame_checksum(&zero, &a), 2);
    // x = -1 encodes as four 255 bytes; flags contribute 2.
    let b = inp(false, true, -1, 0);
    assert_eq!(frame_checksum(&b, &zero), 2 + 4 * 255);
    // A differing pair is (very likely) told apart, the diagnostic's job.
    assert_ne!(frame_checksum(&a, &zero), frame_checksum(&b, &zero));
}

#[test]
fn idle_input_is_neutral() {
    let i = Input::idle();
    assert!(!i.move_flag);
    assert!(!i.fire_flag);
    assert_eq!(i.target_x, 0);
    assert_eq!(i.target_y, 0);
}
