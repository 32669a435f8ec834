//! A cooperative green-thread scheduler: a fixed pool of slots, scheduled
//! round-robin, with the layout of the first stack frame of a new task.
//!
//! `slot` holds the parts of one slot, `frame` the first frame of a task,
//! `pool` the scheduler as a mathematical state machine, `runtime` the
//! scheduler itself, and `laws` what holds of whole runs.

pub mod slot;
pub mod pool;
pub mod frame;
pub mod runtime;
pub mod laws;

pub use frame::Launch;
pub use runtime::Runtime;
pub use slot::{State, Thread, ThreadContext};
