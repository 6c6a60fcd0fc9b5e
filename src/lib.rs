//! Turns a pull-based sequence into a stage of a concurrent pipeline.
//!
//! The bridge between the producing worker and the consuming side is a FIFO
//! queue, unbounded or bounded with backpressure. Every decision the queue
//! makes is a non-blocking, verified step; blocking and threads live with the
//! caller that runs the worker.
use vstd::prelude::*;

pub mod bridge;
pub mod laws;
pub mod model;
pub mod stage;

verus! {

} // verus!
