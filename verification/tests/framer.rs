use master_and_servant::error::{EncodeError, FrameError};
use master_and_servant::framer::{
    frame_decode, frame_encode, frame_fits, frame_len_bound, TERMINATOR,
};

fn framed(payload: &[u8]) -> Vec<u8> {
    let mut out = vec![0xEEu8; frame_len_bound(payload.len()).unwrap()];
    let n = frame_encode(payload, &mut out).unwrap();
    out.truncate(n);
    out
}

#[test]
fn frames_of_small_payloads() {
    assert_eq!(framed(&[]), [1, 0]);
    assert_eq!(framed(&[0]), [1, 1, 0]);
    assert_eq!(framed(&[0, 0]), [1, 1, 1, 0]);
    assert_eq!(framed(&[1, 2, 3]), [4, 1, 2, 3, 0]);
    assert_eq!(framed(&[0x11, 0, 0x22]), [2, 0x11, 2, 0x22, 0]);
    assert_eq!(framed(&[0x11, 0x22, 0, 0x33]), [3, 0x11, 0x22, 2, 0x33, 0]);
}

#[test]
fn frame_of_a_full_run() {
    let payload = [0x5Au8; 254];
    let frame = framed(&payload);
    assert_eq!(frame.len(), 256);
    assert_eq!(frame[0], 0xFF);
    assert_eq!(&frame[1..255], &payload[..]);
    assert_eq!(frame[255], 0);
}

#[test]
fn frame_of_a_run_and_a_byte() {
    let payload = [0x5Au8; 255];
    let frame = framed(&payload);
    assert_eq!(frame.len(), 258);
    assert_eq!(frame[0], 0xFF);
    assert_eq!(&frame[255..], &[2, 0x5A, 0]);
}

#[test]
fn frame_length_bounds() {
    assert_eq!(frame_len_bound(0), Some(2));
    assert_eq!(frame_len_bound(1), Some(3));
    assert_eq!(frame_len_bound(8), Some(10));
    assert_eq!(frame_len_bound(36), Some(38));
    assert_eq!(frame_len_bound(254), Some(256));
    assert_eq!(frame_len_bound(255), Some(258));
    assert_eq!(frame_len_bound(508), Some(511));
    assert_eq!(frame_len_bound(usize::MAX), None);
    assert_eq!(frame_len_bound(usize::MAX - 2), None);
    assert!(frame_fits(0, 2));
    assert!(!frame_fits(0, 1));
    assert!(frame_fits(254, 256));
    assert!(!frame_fits(254, 255));
    assert!(frame_fits(255, 258));
    assert!(!frame_fits(255, 257));
    assert!(!frame_fits(usize::MAX, usize::MAX));
    assert!(!frame_fits(5, 0));
}

#[test]
fn framing_needs_room_for_the_longest_frame() {
    let mut out = [0xEEu8; 4];
    assert_eq!(frame_encode(&[1, 2, 3], &mut out), Err(EncodeError::BufferTooSmall));
    assert_eq!(out, [0xEE; 4]);
    let mut one = [0xEEu8; 1];
    assert_eq!(frame_encode(&[], &mut one), Err(EncodeError::BufferTooSmall));
    assert_eq!(one, [0xEE]);
    // A payload of zeros has a frame shorter than the bound, and is refused
    // all the same where the bound does not fit.
    let mut tight = [0xEEu8; 4];
    assert_eq!(frame_encode(&[0, 0, 0], &mut tight), Err(EncodeError::BufferTooSmall));
    let mut exact = [0xEEu8; 5];
    assert_eq!(frame_encode(&[1, 2, 3], &mut exact), Ok(5));
}

#[test]
fn framing_leaves_the_rest_of_the_buffer_alone() {
    let mut out = [0xEEu8; 8];
    assert_eq!(frame_encode(&[7, 0, 7], &mut out), Ok(5));
    assert_eq!(out, [2, 7, 2, 7, 0, 0xEE, 0xEE, 0xEE]);
}

#[test]
fn every_payload_comes_back_from_its_frame() {
    let mut payloads: Vec<Vec<u8>> = vec![
        vec![],
        vec![0],
        vec![0; 7],
        vec![1, 0, 2, 0, 0, 3],
        vec![0xFF; 253],
        vec![0xFF; 254],
        vec![0xFF; 255],
        vec![0; 300],
    ];
    payloads.push((0..=255u8).collect());
    payloads.push((0..600u32).map(|i| (i % 7) as u8).collect());
    let mut with_zero_after_run = vec![9u8; 254];
    with_zero_after_run.push(0);
    with_zero_after_run.extend_from_slice(&[9; 254]);
    payloads.push(with_zero_after_run);
    for payload in payloads {
        let frame = framed(&payload);
        assert!(frame.len() <= frame_len_bound(payload.len()).unwrap());
        assert_eq!(frame.last(), Some(&TERMINATOR));
        assert!(frame[..frame.len() - 1].iter().all(|&b| b != TERMINATOR));
        // Whatever stands behind the frame does not matter.
        let mut line = frame.clone();
        line.extend_from_slice(&[0xAB, 0, 0xCD]);
        assert_eq!(frame_decode(&mut line), Ok(payload.len()));
        assert_eq!(&line[..payload.len()], &payload[..]);
        assert_eq!(line.len(), frame.len() + 3);
    }
}

#[test]
fn a_run_that_claims_too_much_is_malformed() {
    assert_eq!(frame_decode(&mut [5, 1, 0]), Err(FrameError::Malformed));
    assert_eq!(frame_decode(&mut [0xFF]), Err(FrameError::Malformed));
    assert_eq!(frame_decode(&mut [2]), Err(FrameError::Malformed));
}

#[test]
fn a_lone_terminator_is_the_frame_of_nothing() {
    assert_eq!(frame_decode(&mut [0]), Ok(0));
    assert_eq!(frame_decode(&mut [0, 3, 1, 2, 0]), Ok(0));
    assert_eq!(frame_decode(&mut []), Ok(0));
}
