//! A single-producer single-consumer ring of fixed-size trade-order records,
//! in the byte layout that two processes share through one memory segment: a
//! control block followed by record slots. A `Queue` works on its own copy of
//! the segment; `slot_write`, `producer_write` and `consumer_write` give the
//! bytes each side publishes into the shared segment after an operation.
use vstd::prelude::*;

pub mod codec;
pub mod engine;
pub mod header;
pub mod queue;
pub mod stats;

pub use codec::{decode, encode, Order};
pub use header::OpenError;
pub use queue::{Queue, QueueError};

verus! {

} // verus!
