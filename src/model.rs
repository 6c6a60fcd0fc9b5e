//! The mathematical model of the bridging queue and its transitions.
use vstd::prelude::*;

verus! {

/// What a deposit attempt by the producer came to.
pub enum Deposit<T> {
    /// The item now sits at the back of the queue.
    Delivered,
    /// The queue holds as many items as its bound allows: the item is handed
    /// back, and the producer waits until the consumer removes one.
    Full(T),
    /// The queue accepts no more items: the consumer has gone (or the
    /// producer side was closed already). The item is dropped.
    Closed,
}

/// What a pull by the consumer came to.
pub enum Pulled<T> {
    /// The item at the front of the queue.
    Item(T),
    /// The queue is empty and the producer may still deposit: the consumer
    /// waits.
    Pending,
    /// The queue is empty and the producer has finished: the sequence ends.
    Ended,
}

/// The abstract state of a bridging queue.
pub struct BridgeView<T> {
    /// Items deposited and not yet delivered, front first.
    pub buffered: Seq<T>,
    /// The most items the queue holds at once; `None` when unbounded.
    pub bound: Option<nat>,
    /// The producer side may still deposit.
    pub sender_open: bool,
    /// The consumer side is still there.
    pub receiver_open: bool,
    /// Every item the queue has accepted, in order.
    pub sent: Seq<T>,
    /// Every item handed to the consumer, in order.
    pub delivered: Seq<T>,
}

/// The bound that a requested backpressure gives: none for `None`, and at
/// least one slot otherwise (a request of zero slots is served with one).
pub open spec fn bound_for(back_pressure: Option<usize>) -> Option<nat> {
    match back_pressure {
        None => None,
        Some(n) => Some(if n == 0 { 1nat } else { n as nat }),
    }
}

/// `a` is a prefix of `b`.
pub open spec fn is_prefix<T>(a: Seq<T>, b: Seq<T>) -> bool {
    a.len() <= b.len() && b.take(a.len() as int) == a
}

impl<T> BridgeView<T> {
    /// A fresh queue: empty, both sides open.
    pub open spec fn initial(bound: Option<nat>) -> BridgeView<T> {
        BridgeView {
            buffered: Seq::empty(),
            bound,
            sender_open: true,
            receiver_open: true,
            sent: Seq::empty(),
            delivered: Seq::empty(),
        }
    }

    /// The queue holds as many items as its bound allows.
    pub open spec fn is_full(self) -> bool {
        match self.bound {
            Some(n) => self.buffered.len() >= n,
            None => false,
        }
    }

    /// The invariant of every reachable state.
    pub open spec fn wf(self) -> bool {
        &&& match self.bound {
            Some(n) => n >= 1 && self.buffered.len() <= n,
            None => true,
        }
        &&& !self.receiver_open ==> self.buffered.len() == 0
        &&& is_prefix(self.delivered, self.sent)
        &&& self.receiver_open ==> self.sent == self.delivered + self.buffered
    }

    /// The producer offers `item`.
    pub open spec fn deposit_spec(self, item: T) -> (BridgeView<T>, Deposit<T>) {
        if !self.sender_open || !self.receiver_open {
            (self, Deposit::Closed)
        } else if self.is_full() {
            (self, Deposit::Full(item))
        } else {
            (
                BridgeView {
                    buffered: self.buffered.push(item),
                    sent: self.sent.push(item),
                    ..self
                },
                Deposit::Delivered,
            )
        }
    }

    /// The upstream sequence is exhausted: the producer side closes.
    pub open spec fn finish_spec(self) -> BridgeView<T> {
        BridgeView { sender_open: false, ..self }
    }

    /// The consumer asks for the next item.
    pub open spec fn pull_spec(self) -> (BridgeView<T>, Pulled<T>) {
        if !self.receiver_open {
            (self, Pulled::Ended)
        } else if self.buffered.len() > 0 {
            (
                BridgeView {
                    buffered: self.buffered.drop_first(),
                    delivered: self.delivered.push(self.buffered[0]),
                    ..self
                },
                Pulled::Item(self.buffered[0]),
            )
        } else if self.sender_open {
            (self, Pulled::Pending)
        } else {
            (self, Pulled::Ended)
        }
    }

    /// The consumer goes away: what is buffered is dropped.
    pub open spec fn abandon_spec(self) -> BridgeView<T> {
        BridgeView { buffered: Seq::empty(), receiver_open: false, ..self }
    }
}

} // verus!
