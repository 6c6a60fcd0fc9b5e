//! The bridging queue between one producer and one consumer.
use std::collections::VecDeque;
use vstd::prelude::*;

use crate::model::{bound_for, BridgeView, Deposit, Pulled};

verus! {

/// A FIFO queue between the worker that drives the upstream sequence and the
/// consumer-facing sequence. Every operation returns at once: where a side
/// would block, the operation says so and leaves the waiting to the caller.
pub struct Bridge<T> {
    buffer: VecDeque<T>,
    bound: Option<usize>,
    sender_open: bool,
    receiver_open: bool,
    sent: Ghost<Seq<T>>,
    delivered: Ghost<Seq<T>>,
}

impl<T> View for Bridge<T> {
    type V = BridgeView<T>;

    closed spec fn view(&self) -> BridgeView<T> {
        BridgeView {
            buffered: self.buffer@,
            bound: match self.bound {
                Some(n) => Some(n as nat),
                None => None,
            },
            sender_open: self.sender_open,
            receiver_open: self.receiver_open,
            sent: self.sent@,
            delivered: self.delivered@,
        }
    }
}

impl<T> Bridge<T> {
    /// A fresh, empty queue with both sides open. `None` asks for an
    /// unbounded queue; `Some(n)` for one that holds at most `n` items, where
    /// a request of zero is served with one slot.
    pub fn new(back_pressure: Option<usize>) -> (r: Self)
        ensures
            r@ == BridgeView::<T>::initial(bound_for(back_pressure)),
            r@.wf(),
    {
        let bound: Option<usize> = match back_pressure {
            None => None,
            Some(n) => Some(if n == 0 { 1 } else { n }),
        };
        let r = Bridge {
            buffer: VecDeque::new(),
            bound,
            sender_open: true,
            receiver_open: true,
            sent: Ghost(Seq::empty()),
            delivered: Ghost(Seq::empty()),
        };
        proof {
            assert(r@.delivered + r@.buffered =~= r@.sent);
            assert(r@.sent.take(0) =~= r@.delivered);
        }
        r
    }

    /// The producer offers `item`: it is delivered into the queue, handed
    /// back because the queue is full, or dropped because the queue is closed.
    pub fn deposit(&mut self, item: T) -> (r: Deposit<T>)
        requires
            old(self)@.wf(),
        ensures
            (final(self)@, r) == old(self)@.deposit_spec(item),
            final(self)@.wf(),
    {
        if !self.sender_open || !self.receiver_open {
            return Deposit::Closed;
        }
        let full = match self.bound {
            Some(n) => self.buffer.len() >= n,
            None => false,
        };
        if full {
            return Deposit::Full(item);
        }
        let ghost v = self@;
        self.sent = Ghost(self.sent@.push(item));
        self.buffer.push_back(item);
        proof {
            assert(self@.sent == v.delivered + self@.buffered);
            assert(self@.sent.take(self@.delivered.len() as int) =~= self@.delivered);
        }
        Deposit::Delivered
    }

    /// The upstream sequence is exhausted: the producer side closes, and the
    /// consumer sees the end once the queue is drained.
    pub fn finish(&mut self)
        requires
            old(self)@.wf(),
        ensures
            final(self)@ == old(self)@.finish_spec(),
            final(self)@.wf(),
    {
        self.sender_open = false;
    }

    /// The consumer asks for the next item: the front of the queue, or word
    /// that it must wait, or the end of the sequence.
    pub fn pull(&mut self) -> (r: Pulled<T>)
        requires
            old(self)@.wf(),
        ensures
            (final(self)@, r) == old(self)@.pull_spec(),
            final(self)@.wf(),
    {
        if !self.receiver_open {
            return Pulled::Ended;
        }
        let ghost v = self@;
        match self.buffer.pop_front() {
            Some(item) => {
                self.delivered = Ghost(self.delivered@.push(item));
                proof {
                    assert(v.delivered.push(item) + v.buffered.drop_first() =~= v.delivered
                        + v.buffered);
                    assert(self@.sent.take(self@.delivered.len() as int) =~= self@.delivered);
                }
                Pulled::Item(item)
            },
            None => {
                if self.sender_open {
                    Pulled::Pending
                } else {
                    Pulled::Ended
                }
            },
        }
    }

    /// The consumer goes away: buffered items are dropped, and every later
    /// deposit finds the queue closed.
    pub fn abandon(&mut self)
        requires
            old(self)@.wf(),
        ensures
            final(self)@ == old(self)@.abandon_spec(),
            final(self)@.wf(),
    {
        self.receiver_open = false;
        self.buffer.clear();
        proof {
            assert(self@.buffered =~= Seq::<T>::empty());
        }
    }

    /// How many items wait in the queue.
    pub fn len(&self) -> (r: usize)
        ensures
            r == self@.buffered.len(),
    {
        self.buffer.len()
    }
}

} // verus!
