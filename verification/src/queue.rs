//! The bounded queue between the receive interrupt and the task that
//! assembles frames.
//!
//! The interrupt puts each byte that it reads into the queue, by value; the
//! task takes them out in the order of their arrival. A byte that finds the
//! queue full is not stored, and its loss is reported to whoever offered it.

use vstd::prelude::*;
use crate::error::QueueOverflow;

verus! {

/// The slot that holds the `i`-th byte of a queue whose first byte is in
/// slot `head`, in a ring of `cap` slots.
pub open spec fn slot(head: int, i: int, cap: int) -> int {
    if head + i < cap {
        head + i
    } else {
        head + i - cap
    }
}

/// A first-in, first-out queue of at most `N` bytes.
pub struct ByteQueue<const N: usize> {
    slots: [u8; N],
    head: usize,
    len: usize,
}

impl<const N: usize> View for ByteQueue<N> {
    type V = Seq<u8>;

    /// The bytes in the queue, the one that leaves next first.
    closed spec fn view(&self) -> Seq<u8> {
        Seq::new(self.len as nat, |i: int| self.slots@[slot(self.head as int, i, N as int)])
    }
}

impl<const N: usize> ByteQueue<N> {
    #[verifier::type_invariant]
    spec fn inv(self) -> bool {
        &&& self.len <= N
        &&& self.head <= N
        &&& N > 0 ==> self.head < N
    }

    /// An empty queue.
    pub fn new() -> (q: Self)
        ensures
            q@ == Seq::<u8>::empty(),
    {
        let q = ByteQueue { slots: [0u8;N], head: 0, len: 0 };
        assert(q@ =~= Seq::<u8>::empty());
        q
    }

    /// The number of bytes in the queue.
    pub fn len(&self) -> (n: usize)
        ensures
            n == self@.len(),
            n <= N,
    {
        proof {
            use_type_invariant(self);
        }
        self.len
    }

    /// Whether the queue holds no byte.
    pub fn is_empty(&self) -> (e: bool)
        ensures
            e <==> self@.len() == 0,
    {
        self.len == 0
    }

    /// Whether the queue has no room for another byte.
    pub fn is_full(&self) -> (f: bool)
        ensures
            f <==> self@.len() == N,
    {
        proof {
            use_type_invariant(self);
        }
        self.len == N
    }

    /// Puts `b` at the end of the queue. A full queue is left as it was, and
    /// the overflow is reported.
    pub fn enqueue(&mut self, b: u8) -> (r: Result<(), QueueOverflow>)
        ensures
            r is Ok <==> old(self)@.len() < N,
            r is Ok ==> final(self)@ == old(self)@.push(b),
            r is Err ==> final(self)@ == old(self)@,
    {
        proof {
            use_type_invariant(&*self);
        }
        if self.len == N {
            return Err(QueueOverflow);
        }
        let room = N - self.len;
        let tail = if self.head < room {
            self.head + self.len
        } else {
            self.head - room
        };
        self.slots[tail] = b;
        self.len = self.len + 1;
        assert(self@ =~= old(self)@.push(b));
        Ok(())
    }

    /// Takes the byte at the front of the queue, if there is one.
    pub fn dequeue(&mut self) -> (r: Option<u8>)
        ensures
            r is Some <==> old(self)@.len() > 0,
            r matches Some(b) ==> b == old(self)@.first() && final(self)@ == old(
                self,
            )@.drop_first(),
            r is None ==> final(self)@ == old(self)@,
    {
        proof {
            use_type_invariant(&*self);
        }
        if self.len == 0 {
            return None;
        }
        let b = self.slots[self.head];
        self.head = if self.head + 1 == N {
            0
        } else {
            self.head + 1
        };
        self.len = self.len - 1;
        assert(self@ =~= old(self)@.drop_first()) by {
            assert forall|i: int| 0 <= i < self.len implies self@[i] == old(self)@[i + 1] by {
                assert(slot(self.head as int, i, N as int) == slot(
                    old(self).head as int,
                    i + 1,
                    N as int,
                ));
            }
        }
        Some(b)
    }
}

} // verus!
