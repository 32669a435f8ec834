//! One slot of the pool: its lifecycle state, its saved registers and its
//! stack buffer.

use vstd::prelude::*;

verus! {

/// Size in bytes of the stack buffer that every slot owns.
pub const DEFAULT_STACK_SIZE: usize = 1024 * 1024 * 2;

/// Lifecycle state of a slot.
#[derive(Clone, Copy, Debug, PartialEq, Eq, Structural)]
pub enum State {
    /// Idle; the stack may be handed to a new task.
    Available,
    /// The one slot that is executing.
    Running,
    /// Paused, and resumable.
    Ready,
}

/// The registers that resume a paused computation: the stack pointer and the
/// six callee-saved general registers.
#[derive(Clone, Copy, Debug, PartialEq, Eq, Structural)]
pub struct ThreadContext {
    pub rsp: u64,
    pub r15: u64,
    pub r14: u64,
    pub r13: u64,
    pub r12: u64,
    pub rbx: u64,
    pub rbp: u64,
}

impl ThreadContext {
    /// The snapshot with every register zero.
    pub open spec fn zeroed() -> ThreadContext {
        ThreadContext { rsp: 0, r15: 0, r14: 0, r13: 0, r12: 0, rbx: 0, rbp: 0 }
    }
}

impl Default for ThreadContext {
    fn default() -> (ctx: ThreadContext)
        ensures
            ctx == ThreadContext::zeroed(),
    {
        ThreadContext { rsp: 0, r15: 0, r14: 0, r13: 0, r12: 0, rbx: 0, rbp: 0 }
    }
}

/// A slot: its place in the pool, its stack, its saved registers and its
/// lifecycle state.
pub struct Thread {
    pub id: usize,
    pub stack: Vec<u8>,
    pub ctx: ThreadContext,
    pub state: State,
}

impl Thread {
    /// An idle slot with a zeroed stack of `DEFAULT_STACK_SIZE` bytes.
    pub fn new(id: usize) -> (thread: Thread)
        ensures
            thread.id == id,
            thread.state == State::Available,
            thread.ctx == ThreadContext::zeroed(),
            thread.stack@ == Seq::new(DEFAULT_STACK_SIZE as nat, |i: int| 0u8),
    {
        let thread = Thread {
            id,
            stack: vec![0_u8; DEFAULT_STACK_SIZE],
            ctx: ThreadContext::default(),
            state: State::Available,
        };
        assert(thread.stack@ =~= Seq::new(DEFAULT_STACK_SIZE as nat, |i: int| 0u8));
        thread
    }
}

} // verus!
