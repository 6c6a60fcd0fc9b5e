//! Handing a sequence over to a pipeline stage.
use vstd::prelude::*;

use crate::bridge::Bridge;
use crate::model::{bound_for, BridgeView};

verus! {

/// A pipeline stage ready to run: the upstream sequence, which its worker
/// alone will drive, and the queue through which the consumer receives the
/// items.
pub struct Stage<I: Iterator> {
    pub upstream: I,
    pub bridge: Bridge<I::Item>,
}

/// Makes any sequence that can move to another thread the source of a
/// concurrent pipeline stage.
pub trait PPipe: Iterator + Sized {
    /// Hands this sequence to a new stage. `None` asks for an unbounded
    /// queue; `Some(n)` for backpressure, where the worker waits while `n`
    /// items are undelivered (a request of zero is served with one slot).
    fn ppipe(self, back_pressure: Option<usize>) -> (r: Stage<Self>)
        ensures
            r.upstream == self,
            r.bridge@ == BridgeView::<Self::Item>::initial(bound_for(back_pressure)),
            r.bridge@.wf(),
    ;
}

impl<T> PPipe for T where T: Iterator + Send + 'static, T::Item: Send + 'static {
    fn ppipe(self, back_pressure: Option<usize>) -> (r: Stage<T>) {
        Stage { upstream: self, bridge: Bridge::new(back_pressure) }
    }
}

} // verus!
