use master_and_servant::assembler::{Assembler, Event, Received};
use master_and_servant::error::{IntegrityError, LinkError};
use master_and_servant::packet::serialize_crc_cobs;
use master_and_servant::queue::ByteQueue;
use master_and_servant::error::QueueOverflow;
use master_and_servant::wire::{Relay, Request};

/// Feeds `bytes` and returns each frame that was handed off, with the index
/// of the byte that completed it, and the number of overflows.
fn feed<const N: usize>(
    assembler: &mut Assembler<N>,
    bytes: &[u8],
) -> (Vec<(usize, Vec<u8>)>, usize) {
    let mut frames = Vec::new();
    let mut overflows = 0;
    for (i, &b) in bytes.iter().enumerate() {
        match assembler.push(b) {
            Event::Pending => assert_ne!(b, 0),
            Event::Frame(n) => {
                assert_eq!(b, 0);
                assert_eq!(assembler.cursor(), 0);
                frames.push((i, assembler.bytes()[..n].to_vec()));
            }
            Event::Overflow => {
                assert_eq!(b, 0);
                assert_eq!(assembler.cursor(), 0);
                overflows += 1;
            }
        }
    }
    (frames, overflows)
}

#[test]
fn a_new_assembler_is_empty() {
    let assembler = Assembler::<8>::new();
    assert_eq!(assembler.cursor(), 0);
}

#[test]
fn bytes_are_collected_until_the_terminator() {
    let mut assembler = Assembler::<8>::new();
    assert_eq!(assembler.push(3), Event::Pending);
    assert_eq!(assembler.cursor(), 1);
    assert_eq!(assembler.push(7), Event::Pending);
    assert_eq!(assembler.cursor(), 2);
    assert_eq!(assembler.push(9), Event::Pending);
    assert_eq!(assembler.cursor(), 3);
    assert_eq!(assembler.push(0), Event::Frame(4));
    assert_eq!(assembler.cursor(), 0);
    assert_eq!(assembler.bytes()[..4], [3, 7, 9, 0]);
}

#[test]
fn consecutive_frames_are_handed_off_one_by_one() {
    let frames: [&[u8]; 5] = [&[2, 5, 0], &[1, 1, 0], &[0], &[9, 8, 7, 6, 5, 4, 3, 0], &[1, 0]];
    let stream: Vec<u8> = frames.concat();
    let mut assembler = Assembler::<8>::new();
    let (handed_off, overflows) = feed(&mut assembler, &stream);
    assert_eq!(overflows, 0);
    assert_eq!(handed_off.len(), 5);
    let mut end = 0;
    for (frame, (at, got)) in frames.iter().zip(&handed_off) {
        end += frame.len();
        assert_eq!(*at, end - 1);
        assert_eq!(&got[..], *frame);
    }
    assert_eq!(assembler.cursor(), 0);
}

#[test]
fn a_frame_in_progress_is_not_handed_off() {
    let mut assembler = Assembler::<8>::new();
    let (handed_off, overflows) = feed(&mut assembler, &[4, 4, 0, 5, 5, 5]);
    assert_eq!(handed_off, vec![(2, vec![4, 4, 0])]);
    assert_eq!(overflows, 0);
    assert_eq!(assembler.cursor(), 3);
    assembler.clear();
    assert_eq!(assembler.cursor(), 0);
    assert_eq!(assembler.push(0), Event::Frame(1));
}

#[test]
fn a_frame_that_fills_the_buffer_is_handed_off() {
    let mut assembler = Assembler::<4>::new();
    let (handed_off, overflows) = feed(&mut assembler, &[1, 2, 3, 0]);
    assert_eq!(handed_off, vec![(3, vec![1, 2, 3, 0])]);
    assert_eq!(overflows, 0);
}

#[test]
fn a_frame_one_byte_too_long_is_discarded_whole() {
    let mut assembler = Assembler::<4>::new();
    assert_eq!(assembler.push(1), Event::Pending);
    assert_eq!(assembler.push(2), Event::Pending);
    assert_eq!(assembler.push(3), Event::Pending);
    assert_eq!(assembler.push(4), Event::Pending);
    assert_eq!(assembler.cursor(), 4);
    assert_eq!(assembler.push(0), Event::Overflow);
    assert_eq!(assembler.cursor(), 0);
    // What was stored was not overwritten by the byte that did not fit.
    assert_eq!(*assembler.bytes(), [1, 2, 3, 4]);
    // The next frame is received as if nothing had happened.
    let (handed_off, overflows) = feed(&mut assembler, &[6, 6, 0]);
    assert_eq!(handed_off, vec![(2, vec![6, 6, 0])]);
    assert_eq!(overflows, 0);
}

#[test]
fn a_much_longer_frame_is_discarded_whole() {
    let mut assembler = Assembler::<4>::new();
    let mut stream = vec![7u8; 100];
    stream.push(0);
    stream.extend_from_slice(&[8, 0]);
    let (handed_off, overflows) = feed(&mut assembler, &stream);
    assert_eq!(handed_off, vec![(102, vec![8, 0])]);
    assert_eq!(overflows, 1);
}

#[test]
fn a_buffer_of_nothing_discards_every_frame() {
    let mut assembler = Assembler::<0>::new();
    assert_eq!(assembler.push(1), Event::Pending);
    assert_eq!(assembler.push(0), Event::Overflow);
    assert_eq!(assembler.push(0), Event::Overflow);
    assert_eq!(assembler.cursor(), 0);
}

#[test]
fn a_completed_frame_yields_its_value() {
    let request = Request::Update { dev_id: 0x12, pwm_hi_percentage: 12, relay: Relay::B };
    let mut frame = [0u8; 10];
    let n = serialize_crc_cobs(&request, &mut frame).unwrap();
    let mut assembler = Assembler::<10>::new();
    for &b in &frame[..n - 1] {
        assert_eq!(assembler.receive::<Request>(b), Received::Pending);
    }
    assert_eq!(assembler.receive::<Request>(0), Received::Value(request));
    assert_eq!(assembler.cursor(), 0);
    // A shorter frame behind a longer one: what the longer one left in the
    // buffer does no harm.
    let get = Request::Get { dev_id: 1 };
    let m = serialize_crc_cobs(&get, &mut frame).unwrap();
    assert!(m < n);
    for &b in &frame[..m - 1] {
        assert_eq!(assembler.receive::<Request>(b), Received::Pending);
    }
    assert_eq!(assembler.receive::<Request>(0), Received::Value(get));
}

#[test]
fn a_refused_or_overlong_frame_yields_no_value() {
    let mut assembler = Assembler::<10>::new();
    assert_eq!(
        assembler.receive::<Request>(0),
        Received::Rejected(LinkError::Integrity(IntegrityError::ChecksumMismatch))
    );
    for _ in 0..10 {
        assert_eq!(assembler.receive::<Request>(0x11), Received::Pending);
    }
    assert_eq!(assembler.receive::<Request>(0), Received::Overflow);
    assert_eq!(assembler.cursor(), 0);
}

#[test]
fn queue_hands_bytes_out_in_the_order_of_their_arrival() {
    let mut queue = ByteQueue::<3>::new();
    assert!(queue.is_empty());
    assert_eq!(queue.dequeue(), None);
    assert_eq!(queue.enqueue(1), Ok(()));
    assert_eq!(queue.enqueue(2), Ok(()));
    assert_eq!(queue.len(), 2);
    assert_eq!(queue.dequeue(), Some(1));
    assert_eq!(queue.enqueue(3), Ok(()));
    assert_eq!(queue.enqueue(4), Ok(()));
    assert!(queue.is_full());
    assert_eq!(queue.dequeue(), Some(2));
    assert_eq!(queue.dequeue(), Some(3));
    assert_eq!(queue.enqueue(5), Ok(()));
    assert_eq!(queue.dequeue(), Some(4));
    assert_eq!(queue.dequeue(), Some(5));
    assert_eq!(queue.dequeue(), None);
    assert!(queue.is_empty());
}

#[test]
fn a_full_queue_reports_the_byte_it_cannot_take() {
    let mut queue = ByteQueue::<2>::new();
    assert_eq!(queue.enqueue(1), Ok(()));
    assert_eq!(queue.enqueue(2), Ok(()));
    assert_eq!(queue.enqueue(3), Err(QueueOverflow));
    assert_eq!(queue.len(), 2);
    assert_eq!(queue.dequeue(), Some(1));
    assert_eq!(queue.dequeue(), Some(2));
    let mut none = ByteQueue::<0>::new();
    assert!(none.is_full());
    assert_eq!(none.enqueue(1), Err(QueueOverflow));
    assert_eq!(none.dequeue(), None);
}

#[test]
fn a_queue_can_go_round_many_times() {
    let mut queue = ByteQueue::<5>::new();
    let mut next_in = 0u8;
    let mut next_out = 0u8;
    for round in 0..200usize {
        for _ in 0..(round % 5) + 1 {
            if queue.enqueue(next_in).is_ok() {
                next_in = next_in.wrapping_add(1);
            }
        }
        for _ in 0..(round % 3) + 1 {
            if let Some(b) = queue.dequeue() {
                assert_eq!(b, next_out);
                next_out = next_out.wrapping_add(1);
            }
        }
    }
    while let Some(b) = queue.dequeue() {
        assert_eq!(b, next_out);
        next_out = next_out.wrapping_add(1);
    }
    assert_eq!(next_in, next_out);
}
