//! The scheduler as a mathematical state machine: the lifecycle state of
//! every slot and the index of the slot that runs.

use vstd::prelude::*;
use crate::slot::State;

verus! {

/// The scheduling state of a pool: one lifecycle state per slot, and the
/// index of the slot that is executing.
pub struct Pool {
    pub states: Seq<State>,
    pub current: int,
}

impl Pool {
    /// Number of slots.
    pub open spec fn size(self) -> int {
        self.states.len() as int
    }

    /// Whether `slot` is an index into the pool.
    pub open spec fn has_slot(self, slot: int) -> bool {
        0 <= slot < self.states.len()
    }

    /// The invariant of a live scheduler: the current slot is the one and
    /// only `Running` slot, and slot 0, the caller's own execution, is never
    /// idle.
    pub open spec fn wf(self) -> bool {
        &&& self.has_slot(self.current)
        &&& self.states[self.current] == State::Running
        &&& forall|slot: int|
            self.has_slot(slot) && slot != self.current ==> #[trigger] self.states[slot]
                != State::Running
        &&& self.states[0] != State::Available
    }

    /// The state between the moment a finished task gives its slot back and
    /// the reschedule that follows: as `wf`, but the current slot may be
    /// `Available` instead of `Running`.
    pub open spec fn resting(self) -> bool {
        &&& self.has_slot(self.current)
        &&& self.states[self.current] != State::Ready
        &&& forall|slot: int|
            self.has_slot(slot) && slot != self.current ==> #[trigger] self.states[slot]
                != State::Running
        &&& self.states[0] != State::Available
    }

    /// How many steps after the current slot, going round the pool in index
    /// order, `slot` is reached: 1 for the next slot, `size()` for the
    /// current slot itself.
    pub open spec fn distance(self, slot: int) -> int {
        if slot > self.current {
            slot - self.current
        } else {
            slot - self.current + self.size()
        }
    }

    /// `slot` is another slot than the current one, it is `Ready`, and no
    /// `Ready` slot comes before it in circular order after the current one.
    pub open spec fn is_next_ready(self, slot: int) -> bool {
        &&& self.has_slot(slot)
        &&& slot != self.current
        &&& self.states[slot] == State::Ready
        &&& forall|other: int|
            self.has_slot(other) && other != self.current && #[trigger] self.states[other]
                == State::Ready ==> self.distance(slot) <= self.distance(other)
    }

    /// The slot that a reschedule hands control to, if there is one.
    pub open spec fn next_ready(self) -> Option<int> {
        if exists|slot: int| self.is_next_ready(slot) {
            Some(choose|slot: int| self.is_next_ready(slot))
        } else {
            None
        }
    }

    /// What the outgoing slot becomes when control leaves it: it stays
    /// `Available` if its task has finished, and is `Ready` otherwise.
    pub open spec fn paused(self) -> State {
        if self.states[self.current] == State::Available {
            State::Available
        } else {
            State::Ready
        }
    }

    /// One reschedule. With no `Ready` slot nothing changes; otherwise the
    /// current slot is paused and the next `Ready` slot runs.
    pub open spec fn reschedule(self) -> Pool {
        match self.next_ready() {
            None => self,
            Some(next) => Pool {
                states: self.states.update(self.current, self.paused()).update(
                    next,
                    State::Running,
                ),
                current: next,
            },
        }
    }

    /// The current slot with its task finished: marked `Available`.
    pub open spec fn released(self) -> Pool {
        Pool { states: self.states.update(self.current, State::Available), current: self.current }
    }

    /// What happens when the task of the current slot returns: the slot is
    /// released and a reschedule follows. Slot 0 is never recycled.
    pub open spec fn recycle(self) -> Pool {
        if self.current != 0 {
            self.released().reschedule()
        } else {
            self
        }
    }

    /// `slot` is `Available` and no slot of a lower index is.
    pub open spec fn is_first_available(self, slot: int) -> bool {
        &&& self.has_slot(slot)
        &&& self.states[slot] == State::Available
        &&& forall|lower: int|
            0 <= lower < slot ==> #[trigger] self.states[lower] != State::Available
    }

    /// The slot that the next spawn takes, if any slot is `Available`.
    pub open spec fn available_slot(self) -> Option<int> {
        if exists|slot: int| self.is_first_available(slot) {
            Some(choose|slot: int| self.is_first_available(slot))
        } else {
            None
        }
    }

    /// One spawn: the first `Available` slot becomes `Ready`. With no
    /// `Available` slot nothing changes.
    pub open spec fn spawn(self) -> Pool {
        match self.available_slot() {
            None => self,
            Some(slot) => Pool {
                states: self.states.update(slot, State::Ready),
                current: self.current,
            },
        }
    }

    /// A new pool of `size` slots, and of one slot where `size` is less:
    /// slot 0 runs, every other slot is `Available`.
    pub open spec fn fresh(size: int) -> Pool {
        Pool {
            states: Seq::new(
                (if size < 1 { 1 } else { size }) as nat,
                |slot: int| if slot == 0 { State::Running } else { State::Available },
            ),
            current: 0,
        }
    }

    /// A slot that meets `is_next_ready` is the one `next_ready` gives.
    pub proof fn lemma_next_ready_some(self, slot: int)
        requires
            self.is_next_ready(slot),
        ensures
            self.next_ready() == Some(slot),
    {
        let chosen = choose|s: int| self.is_next_ready(s);
        assert(self.is_next_ready(chosen));
        assert(self.distance(chosen) <= self.distance(slot));
        assert(self.distance(slot) <= self.distance(chosen));
    }

    /// `next_ready` is `None` exactly when no other slot is `Ready`, and
    /// otherwise names a slot that meets `is_next_ready`.
    pub proof fn lemma_next_ready(self)
        requires
            self.has_slot(self.current),
        ensures
            match self.next_ready() {
                None => forall|slot: int|
                    self.has_slot(slot) && slot != self.current ==> #[trigger] self.states[slot]
                        != State::Ready,
                Some(next) => self.is_next_ready(next),
            },
    {
        if self.next_ready() is None {
            assert forall|slot: int|
                self.has_slot(slot) && slot != self.current implies #[trigger] self.states[slot]
                != State::Ready by {
                if self.states[slot] == State::Ready {
                    self.lemma_ready_has_nearest(slot, self.distance(slot));
                }
            }
        }
    }

    /// Where some other slot is `Ready`, one of them is nearest.
    proof fn lemma_ready_has_nearest(self, slot: int, bound: int)
        requires
            self.has_slot(self.current),
            self.has_slot(slot),
            slot != self.current,
            self.states[slot] == State::Ready,
            self.distance(slot) <= bound,
        ensures
            exists|next: int| self.is_next_ready(next),
        decreases bound,
    {
        if self.is_next_ready(slot) {
        } else {
            let nearer = choose|other: int|
                self.has_slot(other) && other != self.current && #[trigger] self.states[other]
                    == State::Ready && self.distance(other) < self.distance(slot);
            self.lemma_ready_has_nearest(nearer, bound - 1);
        }
    }

    /// A slot that meets `is_first_available` is the one `available_slot`
    /// gives.
    pub proof fn lemma_available_slot_some(self, slot: int)
        requires
            self.is_first_available(slot),
        ensures
            self.available_slot() == Some(slot),
    {
        let chosen = choose|s: int| self.is_first_available(s);
        assert(self.is_first_available(chosen));
        if chosen < slot {
            assert(self.states[chosen] != State::Available);
        }
        if slot < chosen {
            assert(self.states[slot] != State::Available);
        }
    }

    /// `available_slot` is `None` exactly when no slot is `Available`, and
    /// otherwise names the lowest slot that is.
    pub proof fn lemma_available_slot(self)
        ensures
            match self.available_slot() {
                None => forall|slot: int|
                    self.has_slot(slot) ==> #[trigger] self.states[slot] != State::Available,
                Some(slot) => self.is_first_available(slot),
            },
    {
        if self.available_slot() is None {
            assert forall|slot: int| self.has_slot(slot) implies #[trigger] self.states[slot]
                != State::Available by {
                if self.states[slot] == State::Available {
                    self.lemma_available_has_first(slot);
                }
            }
        }
    }

    /// Where some slot is `Available`, one of them is lowest.
    proof fn lemma_available_has_first(self, slot: int)
        requires
            self.has_slot(slot),
            self.states[slot] == State::Available,
        ensures
            exists|first: int| self.is_first_available(first),
        decreases slot,
    {
        if self.is_first_available(slot) {
        } else {
            let lower = choose|lower: int|
                0 <= lower < slot && #[trigger] self.states[lower] == State::Available;
            self.lemma_available_has_first(lower);
        }
    }

    /// A reschedule keeps a well-formed pool well formed.
    pub proof fn lemma_reschedule_wf(self)
        requires
            self.wf(),
        ensures
            self.resting(),
            self.reschedule().wf(),
            self.next_ready() is None ==> self.reschedule() == self,
    {
        self.lemma_next_ready();
    }

    /// Recycling keeps a well-formed pool well formed, and a task slot that
    /// is recycled always hands control to another slot.
    pub proof fn lemma_recycle_wf(self)
        requires
            self.wf(),
        ensures
            self.recycle().wf(),
            self.current != 0 ==> {
                &&& self.released().resting()
                &&& self.released().next_ready() is Some
                &&& self.recycle().current != self.current
                &&& self.recycle().states[self.current] == State::Available
            },
    {
        if self.current != 0 {
            let released = self.released();
            assert(released.states[0] == State::Ready);
            released.lemma_next_ready();
        }
    }

    /// A spawn keeps a well-formed pool well formed.
    pub proof fn lemma_spawn_wf(self)
        requires
            self.wf(),
        ensures
            self.spawn().wf(),
    {
        self.lemma_available_slot();
    }
}

} // verus!
