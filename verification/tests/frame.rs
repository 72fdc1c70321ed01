use peer2peer::{encode_frame, payload_length, FrameError, MAX_PAYLOAD};

#[test]
fn frame_prefixes_big_endian_length() {
    let frame = encode_frame(&[10, 20, 30]).unwrap();
    assert_eq!(frame, vec![0, 3, 10, 20, 30]);
}

#[test]
fn frame_of_empty_payload() {
    assert_eq!(encode_frame(&[]).unwrap(), vec![0, 0]);
}

#[test]
fn frame_of_largest_payload() {
    let payload = vec![7u8; MAX_PAYLOAD];
    let frame = encode_frame(&payload).unwrap();
    assert_eq!(frame.len(), MAX_PAYLOAD + 2);
    assert_eq!(&frame[0..2], &[0xff, 0xff]);
    assert_eq!(&frame[2..], &payload[..]);
}

#[test]
fn frame_refuses_too_large_payload() {
    let payload = vec![0u8; MAX_PAYLOAD + 1];
    assert_eq!(encode_frame(&payload), Err(FrameError::TooLarge));
}

#[test]
fn header_announces_length() {
    assert_eq!(payload_length([1, 2]), 258);
    assert_eq!(payload_length([0, 0]), 0);
    assert_eq!(payload_length([0xff, 0xff]), 65535);
}

#[test]
fn frame_round_trip() {
    let payload: Vec<u8> = (0..300u32).map(|i| (i % 251) as u8).collect();
    let frame = encode_frame(&payload).unwrap();
    let n = payload_length([frame[0], frame[1]]);
    assert_eq!(n, 300);
    assert_eq!(&frame[2..2 + n], &payload[..]);
}
