//! The scheduler: a fixed pool of slots, the slot that runs, and the three
//! operations that move control round the pool.
//!
//! The scheduler decides; it does not transfer control. After `t_yield` or
//! `t_return` the caller compares `current()` with its value before the call
//! and, where it has changed, switches the processor from the one slot to
//! the other.

use vstd::prelude::*;
use crate::frame::{address_range, frame_offset, locate_frame, with_frame, write_frame, Launch};
use crate::pool::Pool;
use crate::slot::{State, Thread, ThreadContext, DEFAULT_STACK_SIZE};

verus! {

/// Number of slots of the pool that `Runtime::new` builds.
pub const MAX_THREADS: usize = 4;

/// The scheduler. It owns the slots, in a fixed order, and knows which of
/// them runs.
pub struct Runtime {
    threads: Vec<Thread>,
    current: usize,
}

impl View for Runtime {
    type V = Pool;

    /// The scheduling state: the lifecycle state of every slot and the
    /// current slot.
    closed spec fn view(&self) -> Pool {
        Pool {
            states: Seq::new(self.threads@.len(), |slot: int| self.threads@[slot].state),
            current: self.current as int,
        }
    }
}

impl Runtime {
    /// The saved registers of every slot.
    pub closed spec fn contexts(&self) -> Seq<ThreadContext> {
        Seq::new(self.threads@.len(), |slot: int| self.threads@[slot].ctx)
    }

    /// The bytes of the stack of every slot.
    pub closed spec fn stacks(&self) -> Seq<Seq<u8>> {
        Seq::new(self.threads@.len(), |slot: int| self.threads@[slot].stack@)
    }

    /// Every slot carries its own index as its identity.
    pub closed spec fn ids_in_order(&self) -> bool {
        forall|slot: int|
            0 <= slot < self.threads@.len() ==> (#[trigger] self.threads@[slot]).id == slot
    }

    /// Every slot has its identity, its saved registers and a stack of
    /// `DEFAULT_STACK_SIZE` bytes.
    pub open spec fn intact(&self) -> bool {
        &&& self.ids_in_order()
        &&& self.contexts().len() == self@.states.len()
        &&& self.stacks().len() == self@.states.len()
        &&& forall|slot: int|
            0 <= slot < self.stacks().len() ==> (#[trigger] self.stacks()[slot]).len()
                == DEFAULT_STACK_SIZE
    }

    /// The invariant of the scheduler: the pool is well formed and every
    /// slot is intact.
    pub open spec fn wf(&self) -> bool {
        &&& self@.wf()
        &&& self.intact()
    }

    /// The scheduler is as `with_pool_size(size)` builds it: slot 0 runs, the
    /// other slots are idle, every register is zero and every stack is
    /// `DEFAULT_STACK_SIZE` zero bytes.
    pub open spec fn as_new(&self, size: int) -> bool {
        &&& self.wf()
        &&& self@ == Pool::fresh(size)
        &&& forall|slot: int|
            0 <= slot < self.contexts().len() ==> #[trigger] self.contexts()[slot]
                == ThreadContext::zeroed()
        &&& forall|slot: int|
            0 <= slot < self.stacks().len() ==> #[trigger] self.stacks()[slot] == Seq::new(
                DEFAULT_STACK_SIZE as nat,
                |i: int| 0u8,
            )
    }

    /// `after` is `self` with a first frame for `launch` in `slot`, whose
    /// stack lies at address `base`: the frame is in the stack, the saved
    /// stack pointer is the frame's address, and nothing else is touched.
    pub open spec fn installed(
        &self,
        after: Runtime,
        slot: int,
        base: int,
        launch: Launch,
    ) -> bool {
        let at = frame_offset(base, DEFAULT_STACK_SIZE as int);
        &&& after.contexts() == self.contexts().update(
            slot,
            ThreadContext { rsp: (base + at) as u64, ..self.contexts()[slot] },
        )
        &&& after.stacks() == self.stacks().update(
            slot,
            with_frame(self.stacks()[slot], at, launch),
        )
    }

    /// A pool of `pool_size` slots, and of one slot where `pool_size` is 0.
    /// Slot 0 stands for the caller and runs; the others are idle, each with
    /// a zeroed stack.
    pub fn with_pool_size(pool_size: usize) -> (runtime: Runtime)
        ensures
            runtime.as_new(pool_size as int),
    {
        let mut base_thread = Thread::new(0);
        base_thread.state = State::Running;
        let mut threads: Vec<Thread> = Vec::new();
        threads.push(base_thread);
        let mut id: usize = 1;
        while id < pool_size
            invariant
                1 <= id,
                id == 1 || id <= pool_size,
                threads@.len() == id,
                threads@[0].state == State::Running,
                forall|slot: int|
                    1 <= slot < id ==> (#[trigger] threads@[slot]).state == State::Available,
                forall|slot: int|
                    0 <= slot < id ==> {
                        &&& (#[trigger] threads@[slot]).id == slot
                        &&& threads@[slot].ctx == ThreadContext::zeroed()
                        &&& threads@[slot].stack@ == Seq::new(
                            DEFAULT_STACK_SIZE as nat,
                            |i: int| 0u8,
                        )
                    },
            decreases pool_size - id,
        {
            threads.push(Thread::new(id));
            id += 1;
        }
        let runtime = Runtime { threads, current: 0 };
        assert(runtime@.states =~= Pool::fresh(pool_size as int).states);
        runtime
    }

    /// A pool of `MAX_THREADS` slots: slot 0 stands for the caller and runs,
    /// the others are idle.
    pub fn new() -> (runtime: Runtime)
        ensures
            runtime.as_new(MAX_THREADS as int),
    {
        Runtime::with_pool_size(MAX_THREADS)
    }

    /// Number of slots.
    pub fn pool_size(&self) -> (size: usize)
        ensures
            size == self@.states.len(),
    {
        self.threads.len()
    }

    /// Index of the slot that runs.
    pub fn current(&self) -> (slot: usize)
        ensures
            slot == self@.current,
    {
        self.current
    }

    /// The slot of index `slot`: its identity, its stack, its saved registers
    /// and its lifecycle state.
    pub fn thread(&self, slot: usize) -> (thread: &Thread)
        requires
            self.wf(),
            slot < self@.states.len(),
        ensures
            thread.id == slot,
            thread.state == self@.states[slot as int],
            thread.ctx == self.contexts()[slot as int],
            thread.stack@ == self.stacks()[slot as int],
    {
        &self.threads[slot]
    }

    /// The slot that the next spawn takes: the `Available` slot of the
    /// lowest index, or `None` where every slot is `Running` or `Ready`.
    pub fn available_slot(&self) -> (found: Option<usize>)
        ensures
            match found {
                Some(slot) => self@.available_slot() == Some(slot as int),
                None => self@.available_slot() is None,
            },
    {
        let mut slot: usize = 0;
        while slot < self.threads.len()
            invariant
                slot <= self.threads@.len(),
                forall|lower: int|
                    0 <= lower < slot ==> #[trigger] self@.states[lower] != State::Available,
            decreases self.threads@.len() - slot,
        {
            if self.threads[slot].state == State::Available {
                proof {
                    self@.lemma_available_slot_some(slot as int);
                }
                return Some(slot);
            }
            slot += 1;
        }
        proof {
            self@.lemma_available_slot();
        }
        None
    }

    /// Makes `slot` ready to run `launch` for the first time, its stack
    /// lying at address `base`.
    fn install(&mut self, slot: usize, base: usize, launch: Launch)
        requires
            old(self).wf(),
            old(self)@.available_slot() == Some(slot as int),
            base + DEFAULT_STACK_SIZE <= usize::MAX,
        ensures
            final(self).wf(),
            final(self)@ == old(self)@.spawn(),
            old(self).installed(*final(self), slot as int, base as int, launch),
            final(self).contexts()[slot as int].rsp % 16 == 0,
    {
        proof {
            old(self)@.lemma_available_slot();
            assert(old(self).stacks()[slot as int].len() == DEFAULT_STACK_SIZE);
        }
        let size: usize = self.threads[slot].stack.len();
        let at: usize = locate_frame(base, size);
        write_frame(&mut self.threads[slot].stack, at, launch);
        self.threads[slot].ctx.rsp = (base + at) as u64;
        self.threads[slot].state = State::Ready;
        proof {
            assert(self@.states =~= old(self)@.spawn().states);
            assert(self.contexts() =~= old(self).contexts().update(
                slot as int,
                ThreadContext { rsp: (base + at) as u64, ..old(self).contexts()[slot as int] },
            ));
            assert(self.stacks() =~= old(self).stacks().update(
                slot as int,
                with_frame(old(self).stacks()[slot as int], at as int, launch),
            ));
        }
    }

    /// Spawns a task into the first `Available` slot, whose stack the caller
    /// says lies at address `base`: lays out the first frame, points the
    /// saved stack pointer at it, and marks the slot `Ready`.
    pub fn spawn_at(&mut self, base: usize, launch: Launch)
        requires
            old(self).wf(),
            old(self)@.available_slot() is Some,
            base + DEFAULT_STACK_SIZE <= usize::MAX,
        ensures
            final(self).wf(),
            final(self)@ == old(self)@.spawn(),
            old(self).installed(
                *final(self),
                old(self)@.available_slot().unwrap(),
                base as int,
                launch,
            ),
            final(self).contexts()[old(self)@.available_slot().unwrap()].rsp % 16 == 0,
    {
        let slot: usize = self.available_slot().unwrap();
        self.install(slot, base, launch);
    }

    /// Spawns a task into the first `Available` slot: lays out the first
    /// frame in the slot's stack, points the saved stack pointer at it, and
    /// marks the slot `Ready`. Nothing runs yet.
    ///
    /// The frame lies where `spawn_at` puts it for the address of the slot's
    /// stack buffer, which only the running program knows.
    pub fn spawn(&mut self, launch: Launch)
        requires
            old(self).wf(),
            old(self)@.available_slot() is Some,
        ensures
            final(self).wf(),
            final(self)@ == old(self)@.spawn(),
            exists|base: int|
                0 <= base && base + DEFAULT_STACK_SIZE <= usize::MAX && #[trigger] old(
                    self,
                ).installed(*final(self), old(self)@.available_slot().unwrap(), base, launch),
            final(self).contexts()[old(self)@.available_slot().unwrap()].rsp % 16 == 0,
    {
        let slot: usize = self.available_slot().unwrap();
        proof {
            self@.lemma_available_slot();
            assert(self.stacks()[slot as int].len() == DEFAULT_STACK_SIZE);
        }
        let (base, _) = address_range(&self.threads[slot].stack);
        self.install(slot, base, launch);
        assert(old(self).installed(*self, slot as int, base as int, launch));
    }

    /// Looks for the next `Ready` slot, going round the pool from the slot
    /// after the current one, and makes it the running slot.
    fn reschedule(&mut self) -> (switched: bool)
        requires
            old(self)@.resting(),
            old(self).intact(),
        ensures
            final(self).intact(),
            final(self)@ == old(self)@.reschedule(),
            switched == (old(self)@.next_ready() is Some),
            final(self).contexts() == old(self).contexts(),
            final(self).stacks() == old(self).stacks(),
    {
        let size: usize = self.threads.len();
        let ghost pool = self@;
        let ghost mut steps: int = 0;
        let mut pos: usize = self.current;
        while self.threads[pos].state != State::Ready
            invariant
                *self == *old(self),
                self.intact(),
                pool == self@,
                pool.resting(),
                size == pool.states.len(),
                0 <= steps < size,
                pos < size,
                pos == if pool.current + steps < size {
                    pool.current + steps
                } else {
                    pool.current + steps - size
                },
                forall|slot: int|
                    pool.has_slot(slot) && slot != pool.current && pool.distance(slot) < steps
                        ==> #[trigger] pool.states[slot] != State::Ready,
            decreases size - steps,
        {
            pos += 1;
            if pos == size {
                pos = 0;
            }
            proof {
                steps = steps + 1;
            }
            if pos == self.current {
                proof {
                    assert forall|slot: int| pool.is_next_ready(slot) implies false by {
                        assert(pool.states[slot] == State::Ready);
                    }
                }
                return false;
            }
        }
        proof {
            pool.lemma_next_ready_some(pos as int);
        }
        if self.threads[self.current].state != State::Available {
            self.threads[self.current].state = State::Ready;
        }
        self.threads[pos].state = State::Running;
        self.current = pos;
        proof {
            assert(self@.states =~= pool.reschedule().states);
            assert(self.contexts() =~= old(self).contexts());
            assert(self.stacks() =~= old(self).stacks());
        }
        true
    }

    /// The running task gives way. Where another slot is `Ready`, the
    /// current slot becomes `Ready`, the nearest `Ready` slot after it in
    /// circular order becomes the running one, and the result is `true`.
    /// Where none is, nothing changes and the result is `false`: the caller
    /// goes on running.
    pub fn t_yield(&mut self) -> (switched: bool)
        requires
            old(self).wf(),
        ensures
            final(self).wf(),
            final(self)@ == old(self)@.reschedule(),
            switched == (old(self)@.next_ready() is Some),
            !switched ==> final(self)@ == old(self)@,
            final(self).contexts() == old(self).contexts(),
            final(self).stacks() == old(self).stacks(),
    {
        proof {
            old(self)@.lemma_reschedule_wf();
        }
        self.reschedule()
    }

    /// The task of the current slot has returned. Unless that is slot 0, the
    /// slot becomes `Available` and control passes to the nearest `Ready`
    /// slot, which always exists. For slot 0 nothing changes.
    pub fn t_return(&mut self)
        requires
            old(self).wf(),
        ensures
            final(self).wf(),
            final(self)@ == old(self)@.recycle(),
            old(self)@.current != 0 ==> final(self)@.current != old(self)@.current
                && final(self)@.states[old(self)@.current] == State::Available,
            final(self).contexts() == old(self).contexts(),
            final(self).stacks() == old(self).stacks(),
    {
        proof {
            old(self)@.lemma_recycle_wf();
        }
        if self.current != 0 {
            self.threads[self.current].state = State::Available;
            proof {
                assert(self@.states =~= old(self)@.released().states);
                assert(self.contexts() =~= old(self).contexts());
                assert(self.stacks() =~= old(self).stacks());
            }
            self.reschedule();
        }
    }
}

} // verus!
