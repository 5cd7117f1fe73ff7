//! Reassembly of frames from a stream that arrives one byte at a time.
//!
//! The assembler collects bytes in a buffer of fixed size until the
//! terminator arrives. A frame that fits, terminator included, is handed off.
//! A frame that does not fit is never handed off in part: once the buffer is
//! full the assembler drops what follows, and at the frame's terminator it
//! reports the overflow and starts afresh. Either way the terminator leaves
//! the assembler empty, ready for the next frame.

use vstd::prelude::*;
use crate::codec::Wire;
use crate::error::LinkError;
use crate::framer::{delimited, TERMINATOR};
use crate::packet::{deserialize_crc_cobs, packed, unpacked};

verus! {

/// What one received byte led to.
#[derive(Clone, Copy, Debug, PartialEq, Eq, Structural)]
pub enum Event {
    /// The byte is part of a frame that is not complete yet.
    Pending,
    /// The byte completed a frame: it stands at the start of the buffer and
    /// has this many bytes, terminator included.
    Frame(usize),
    /// The byte ended a frame that was longer than the buffer. The frame was
    /// discarded.
    Overflow,
}

/// What one received byte led to, for a receiver that expects values of one
/// type.
#[derive(Debug, PartialEq, Eq)]
pub enum Received<T> {
    /// The byte is part of a frame that is not complete yet.
    Pending,
    /// The byte ended a frame that was longer than the buffer. The frame was
    /// discarded.
    Overflow,
    /// The byte completed a frame that carries this value.
    Value(T),
    /// The byte completed a frame that was refused, for this reason. The
    /// frame was discarded.
    Rejected(LinkError),
}

/// The bytes held for the frame in progress once `b` has arrived, in a buffer
/// of `cap` bytes that held `pending`.
pub open spec fn pending_after(pending: Seq<u8>, b: u8, cap: nat) -> Seq<u8> {
    if b == TERMINATOR {
        Seq::empty()
    } else if pending.len() < cap {
        pending.push(b)
    } else {
        pending
    }
}

/// What the arrival of `b` leads to, in a buffer of `cap` bytes that holds
/// `pending`.
pub open spec fn event_of(pending: Seq<u8>, b: u8, cap: nat) -> Event {
    if b != TERMINATOR {
        Event::Pending
    } else if pending.len() < cap {
        Event::Frame((pending.len() + 1) as usize)
    } else {
        Event::Overflow
    }
}

/// The content of a buffer that held `buffer`, `cursor` bytes of it for the
/// frame in progress, once `b` has arrived.
pub open spec fn buffer_after(buffer: Seq<u8>, cursor: nat, b: u8) -> Seq<u8> {
    if cursor < buffer.len() {
        buffer.update(cursor as int, b)
    } else {
        buffer
    }
}

/// What the arrival of `b` leads to for a receiver of values of type `T`, in
/// a buffer that holds `buffer`, the first `pending.len()` bytes of it for the
/// frame in progress.
pub open spec fn received<T: Wire>(pending: Seq<u8>, buffer: Seq<u8>, b: u8) -> Received<T> {
    match event_of(pending, b, buffer.len()) {
        Event::Pending => Received::Pending,
        Event::Overflow => Received::Overflow,
        Event::Frame(_) => match unpacked::<T>(buffer_after(buffer, pending.len(), b)) {
            Ok(v) => Received::Value(v),
            Err(e) => Received::Rejected(e),
        },
    }
}

/// A receive buffer of `N` bytes and the cursor into it.
pub struct Assembler<const N: usize> {
    buf: [u8; N],
    cursor: usize,
}

impl<const N: usize> View for Assembler<N> {
    type V = Seq<u8>;

    /// The bytes held for the frame in progress.
    closed spec fn view(&self) -> Seq<u8> {
        self.buf@.take(self.cursor as int)
    }
}

impl<const N: usize> Assembler<N> {
    #[verifier::type_invariant]
    spec fn inv(self) -> bool {
        self.cursor <= N
    }

    /// All that the buffer holds: the frame in progress, then what earlier
    /// frames left behind.
    pub closed spec fn buffer(&self) -> Seq<u8> {
        self.buf@
    }

    /// An empty assembler.
    pub fn new() -> (a: Self)
        ensures
            a@ == Seq::<u8>::empty(),
            a.buffer().len() == N,
    {
        Assembler { buf: [0u8;N], cursor: 0 }
    }

    /// Forgets the frame in progress.
    pub fn clear(&mut self)
        ensures
            final(self)@ == Seq::<u8>::empty(),
            final(self).buffer() == old(self).buffer(),
            final(self).buffer().len() == N,
    {
        self.cursor = 0;
        assert(self@ =~= Seq::<u8>::empty());
    }

    /// The number of bytes held for the frame in progress.
    pub fn cursor(&self) -> (c: usize)
        ensures
            c == self@.len(),
            c <= N,
            self@ == self.buffer().take(c as int),
            self.buffer().len() == N,
    {
        proof {
            use_type_invariant(self);
        }
        self.cursor
    }

    /// The buffer. After a frame was handed off it begins with that frame,
    /// until the next byte arrives.
    pub fn bytes(&self) -> (buf: &[u8; N])
        ensures
            buf@ == self.buffer(),
    {
        &self.buf
    }

    /// Takes one byte from the channel.
    ///
    /// The work done is the same for every byte: one store and two
    /// comparisons.
    pub fn push(&mut self, b: u8) -> (ev: Event)
        ensures
            final(self)@ == pending_after(old(self)@, b, N as nat),
            ev == event_of(old(self)@, b, N as nat),
            final(self).buffer() == buffer_after(old(self).buffer(), old(self)@.len(), b),
            ev matches Event::Frame(n) ==> final(self).buffer().take(n as int) == old(self)@.push(
                b,
            ),
    {
        proof {
            use_type_invariant(&*self);
        }
        let at = self.cursor;
        if at < N {
            self.buf[at] = b;
            if b == TERMINATOR {
                self.cursor = 0;
                assert(self.buf@.take(at + 1) =~= old(self)@.push(b));
                assert(self@ =~= Seq::<u8>::empty());
                Event::Frame(at + 1)
            } else {
                self.cursor = at + 1;
                assert(self@ =~= old(self)@.push(b));
                Event::Pending
            }
        } else if b == TERMINATOR {
            self.cursor = 0;
            assert(self@ =~= Seq::<u8>::empty());
            Event::Overflow
        } else {
            Event::Pending
        }
    }

    /// Takes one byte from the channel and, where it completes a frame, reads
    /// the value that the frame carries. The frame is decoded in place.
    ///
    /// A terminator that completes the frame of a value always yields that
    /// value, whatever earlier frames left behind in the buffer.
    pub fn receive<T: Wire>(&mut self, b: u8) -> (r: Received<T>)
        ensures
            final(self)@ == pending_after(old(self)@, b, N as nat),
            final(self).buffer().len() == N,
            r == received::<T>(old(self)@, old(self).buffer(), b),
            forall|v: T|
                b == TERMINATOR && old(self)@.len() < N && #[trigger] packed(v) == old(self)@.push(
                    b,
                ) ==> r == Received::Value(v),
    {
        match self.push(b) {
            Event::Pending => Received::Pending,
            Event::Overflow => Received::Overflow,
            Event::Frame(n) => {
                proof {
                    use_type_invariant(&*self);
                    assert(self@.len() == self.cursor);
                }
                let ghost held = self.buf@;
                assert forall|v: T| #[trigger] packed(v) == old(self)@.push(b) implies packed(
                    v,
                ).is_prefix_of(held) by {
                    assert(held.subrange(0, n as int) == held.take(n as int));
                }
                let r = deserialize_crc_cobs::<T>(&mut self.buf);
                assert(self@ =~= Seq::<u8>::empty());
                match r {
                    Ok(v) => Received::Value(v),
                    Err(e) => Received::Rejected(e),
                }
            },
        }
    }
}

/// Whether `bytes` holds no terminator.
pub open spec fn unterminated(bytes: Seq<u8>) -> bool {
    forall|i: int| 0 <= i < bytes.len() ==> bytes[i] != TERMINATOR
}

/// The bytes held for the frame in progress once all of `bytes` have arrived,
/// one after the other, in a buffer of `cap` bytes that held `pending`.
pub open spec fn pending_after_all(pending: Seq<u8>, bytes: Seq<u8>, cap: nat) -> Seq<u8>
    decreases bytes.len(),
{
    if bytes.len() == 0 {
        pending
    } else {
        pending_after_all(pending_after(pending, bytes[0], cap), bytes.drop_first(), cap)
    }
}

/// The frames handed off while `bytes` arrive, in the order of their arrival.
pub open spec fn handed_off(pending: Seq<u8>, bytes: Seq<u8>, cap: nat) -> Seq<Seq<u8>>
    decreases bytes.len(),
{
    if bytes.len() == 0 {
        Seq::empty()
    } else {
        let later = handed_off(pending_after(pending, bytes[0], cap), bytes.drop_first(), cap);
        if event_of(pending, bytes[0], cap) is Frame {
            seq![pending.push(bytes[0])] + later
        } else {
            later
        }
    }
}

/// The number of frames discarded for their length while `bytes` arrive.
pub open spec fn overflows(pending: Seq<u8>, bytes: Seq<u8>, cap: nat) -> nat
    decreases bytes.len(),
{
    if bytes.len() == 0 {
        0
    } else {
        let later = overflows(pending_after(pending, bytes[0], cap), bytes.drop_first(), cap);
        if event_of(pending, bytes[0], cap) is Overflow {
            1 + later
        } else {
            later
        }
    }
}

/// One byte that arrives alone leads to what the assembler's step says.
pub proof fn lemma_feed_one(pending: Seq<u8>, b: u8, cap: nat)
    ensures
        pending_after_all(pending, seq![b], cap) == pending_after(pending, b, cap),
        handed_off(pending, seq![b], cap) == if event_of(pending, b, cap) is Frame {
            seq![pending.push(b)]
        } else {
            Seq::<Seq<u8>>::empty()
        },
        overflows(pending, seq![b], cap) == if event_of(pending, b, cap) is Overflow {
            1nat
        } else {
            0nat
        },
{
    let one = seq![b];
    let next = pending_after(pending, b, cap);
    assert(one.drop_first() =~= Seq::<u8>::empty());
    assert(pending_after_all(next, one.drop_first(), cap) == next);
    assert(handed_off(next, one.drop_first(), cap) == Seq::<Seq<u8>>::empty());
    assert(overflows(next, one.drop_first(), cap) == 0);
    assert(seq![pending.push(b)] + Seq::<Seq<u8>>::empty() =~= seq![pending.push(b)]);
}

/// Bytes that arrive in two parts lead to what they lead to in one: the
/// second part meets the assembler as the first part left it.
pub proof fn lemma_feed_concat(pending: Seq<u8>, first: Seq<u8>, second: Seq<u8>, cap: nat)
    ensures
        pending_after_all(pending, first + second, cap) == pending_after_all(
            pending_after_all(pending, first, cap),
            second,
            cap,
        ),
        handed_off(pending, first + second, cap) == handed_off(pending, first, cap) + handed_off(
            pending_after_all(pending, first, cap),
            second,
            cap,
        ),
        overflows(pending, first + second, cap) == overflows(pending, first, cap) + overflows(
            pending_after_all(pending, first, cap),
            second,
            cap,
        ),
    decreases first.len(),
{
    if first.len() == 0 {
        assert(first + second =~= second);
        assert(Seq::<Seq<u8>>::empty() + handed_off(pending, second, cap) =~= handed_off(
            pending,
            second,
            cap,
        ));
    } else {
        let next = pending_after(pending, first[0], cap);
        assert((first + second).drop_first() =~= first.drop_first() + second);
        assert((first + second)[0] == first[0]);
        lemma_feed_concat(next, first.drop_first(), second, cap);
        let tail = handed_off(pending_after_all(pending, first, cap), second, cap);
        let later = handed_off(next, first.drop_first(), cap);
        assert((seq![pending.push(first[0])] + later) + tail =~= seq![pending.push(first[0])] + (
        later + tail));
    }
}

/// Bytes other than the terminator are collected as far as the buffer has
/// room, and nothing is handed off or discarded while they arrive.
pub proof fn lemma_feed_unterminated(pending: Seq<u8>, bytes: Seq<u8>, cap: nat)
    requires
        pending.len() <= cap,
        unterminated(bytes),
    ensures
        pending_after_all(pending, bytes, cap) == if pending.len() + bytes.len() <= cap {
            pending + bytes
        } else {
            (pending + bytes).take(cap as int)
        },
        handed_off(pending, bytes, cap) == Seq::<Seq<u8>>::empty(),
        overflows(pending, bytes, cap) == 0,
    decreases bytes.len(),
{
    if bytes.len() == 0 {
        assert(pending + bytes =~= pending);
    } else {
        let next = pending_after(pending, bytes[0], cap);
        lemma_feed_unterminated(next, bytes.drop_first(), cap);
        if pending.len() < cap {
            assert(next + bytes.drop_first() =~= pending + bytes);
        } else {
            assert((next + bytes.drop_first()).take(cap as int) =~= (pending + bytes).take(
                cap as int,
            ));
        }
    }
}

/// A frame that fits is handed off whole at its terminator, which leaves the
/// assembler empty.
pub proof fn lemma_feed_frame(frame: Seq<u8>, cap: nat)
    requires
        delimited(frame),
        frame.len() <= cap,
    ensures
        pending_after_all(Seq::empty(), frame, cap) == Seq::<u8>::empty(),
        handed_off(Seq::empty(), frame, cap) == seq![frame],
        overflows(Seq::empty(), frame, cap) == 0,
{
    let head = frame.drop_last();
    let last = seq![frame.last()];
    assert(frame =~= head + last);
    assert(Seq::<u8>::empty() + head =~= head);
    lemma_feed_unterminated(Seq::empty(), head, cap);
    lemma_feed_concat(Seq::empty(), head, last, cap);
    lemma_feed_one(head, TERMINATOR, cap);
    assert(head.push(TERMINATOR) =~= frame);
    assert(Seq::<Seq<u8>>::empty() + seq![frame] =~= seq![frame]);
}

/// A frame that is longer than the buffer is discarded at its terminator and
/// never handed off, and the terminator leaves the assembler empty.
pub proof fn lemma_feed_overlong_frame(frame: Seq<u8>, cap: nat)
    requires
        delimited(frame),
        frame.len() > cap,
    ensures
        pending_after_all(Seq::empty(), frame, cap) == Seq::<u8>::empty(),
        handed_off(Seq::empty(), frame, cap) == Seq::<Seq<u8>>::empty(),
        overflows(Seq::empty(), frame, cap) == 1,
{
    let head = frame.drop_last();
    let last = seq![frame.last()];
    assert(frame =~= head + last);
    assert(Seq::<u8>::empty() + head =~= head);
    lemma_feed_unterminated(Seq::empty(), head, cap);
    lemma_feed_concat(Seq::empty(), head, last, cap);
    let held = pending_after_all(Seq::empty(), head, cap);
    assert(held.len() == cap);
    lemma_feed_one(held, TERMINATOR, cap);
}

/// Frames that arrive one behind the other, each of them fitting the buffer,
/// are handed off one by one, each whole and in its turn, and none is
/// discarded. After the last of them the assembler is empty.
///
/// A frame here is any run of bytes other than the terminator, the empty run
/// included, with the terminator behind it.
pub proof fn lemma_feed_frames(frames: Seq<Seq<u8>>, cap: nat)
    requires
        forall|i: int| 0 <= i < frames.len() ==> delimited(#[trigger] frames[i]) && frames[i].len()
            <= cap,
    ensures
        pending_after_all(Seq::empty(), frames.flatten(), cap) == Seq::<u8>::empty(),
        handed_off(Seq::empty(), frames.flatten(), cap) == frames,
        overflows(Seq::empty(), frames.flatten(), cap) == 0,
    decreases frames.len(),
{
    if frames.len() > 0 {
        let first = frames.first();
        let rest = frames.drop_first();
        assert(forall|i: int| 0 <= i < rest.len() ==> rest[i] == frames[i + 1]);
        lemma_feed_frame(first, cap);
        lemma_feed_frames(rest, cap);
        lemma_feed_concat(Seq::empty(), first, rest.flatten(), cap);
        assert(seq![first] + rest =~= frames);
    }
}

/// While a frame is still arriving, exactly the frames that arrived whole
/// before it have been handed off, and the assembler holds what has arrived
/// of it.
pub proof fn lemma_feed_frames_then_part(frames: Seq<Seq<u8>>, part: Seq<u8>, cap: nat)
    requires
        forall|i: int| 0 <= i < frames.len() ==> delimited(#[trigger] frames[i]) && frames[i].len()
            <= cap,
        unterminated(part),
        part.len() <= cap,
    ensures
        pending_after_all(Seq::empty(), frames.flatten() + part, cap) == part,
        handed_off(Seq::empty(), frames.flatten() + part, cap) == frames,
        overflows(Seq::empty(), frames.flatten() + part, cap) == 0,
{
    lemma_feed_frames(frames, cap);
    lemma_feed_unterminated(Seq::empty(), part, cap);
    lemma_feed_concat(Seq::empty(), frames.flatten(), part, cap);
    assert(Seq::<u8>::empty() + part =~= part);
    assert(frames + Seq::<Seq<u8>>::empty() =~= frames);
}

} // verus!
