//! A first-in-first-out queue that holds each value at most once.
//!
//! [`FIFOSet`] keeps its values in the order in which they were first
//! pushed. Pushing a value that the queue already holds changes nothing;
//! popping hands out the value that has waited longest.
//!
//! - [`queue`] holds the queue and its operations, each with its contract.
//! - [`model`] holds the mathematics that the contracts are stated over:
//!   functions on sequences without repeated values.
//! - [`history`] describes runs of operations and proves what the queue
//!   holds after any of them.
//! - [`laws`] proves what follows for pushes, pops and removals, and for
//!   the queue's invariant.

pub mod history;
pub mod laws;
pub mod model;
pub mod queue;
mod std_calls;

pub use queue::FIFOSet;
