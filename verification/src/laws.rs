//! Laws of the scheduler: what holds of whole runs, whatever the pool and
//! however long the run.

use vstd::prelude::*;
use vstd::arithmetic::div_mod::{lemma_add_mod_noop, lemma_small_mod};
use crate::frame::{
    frame_offset, lemma_frame_words, with_frame, word_at, Launch, FRAME_DEPTH, FRAME_SIZE,
    MIN_STACK_SIZE, STACK_ALIGNMENT,
};
use crate::pool::Pool;
use crate::runtime::Runtime;
use crate::slot::{State, DEFAULT_STACK_SIZE};

verus! {

/// `pool` after `count` spawns.
pub open spec fn spawned(pool: Pool, count: nat) -> Pool
    decreases count,
{
    if count == 0 {
        pool
    } else {
        spawned(pool, (count - 1) as nat).spawn()
    }
}

/// `pool` after `count` reschedules in a row: whichever slot gets control
/// yields at once.
pub open spec fn yielded(pool: Pool, count: nat) -> Pool
    decreases count,
{
    if count == 0 {
        pool
    } else {
        yielded(pool, (count - 1) as nat).reschedule()
    }
}

/// `pool` after `count` steps of a run in which no task ever yields: the
/// caller in slot 0 reschedules when it has control, and a task returns as
/// soon as it is entered.
pub open spec fn drained(pool: Pool, count: nat) -> Pool
    decreases count,
{
    if count == 0 {
        pool
    } else {
        let before = drained(pool, (count - 1) as nat);
        if before.current == 0 {
            before.reschedule()
        } else {
            before.recycle()
        }
    }
}

/// A pool of `size` slots with slot 0 running, a task that has not run in
/// each of the next `count` slots, and the rest idle.
pub open spec fn filled(size: int, count: int) -> Pool {
    Pool {
        states: Seq::new(
            size as nat,
            |slot: int|
                if slot == 0 {
                    State::Running
                } else if slot <= count {
                    State::Ready
                } else {
                    State::Available
                },
        ),
        current: 0,
    }
}

/// A pool of `size` slots in the middle of a run in which no task yields,
/// with the task of slot `entered` running: the caller in slot 0 waits, the
/// tasks before `entered` have returned, the tasks after it have not run.
pub open spec fn draining(size: int, entered: int) -> Pool {
    Pool {
        states: Seq::new(
            size as nat,
            |slot: int|
                if slot == 0 {
                    State::Ready
                } else if slot < entered {
                    State::Available
                } else if slot == entered {
                    State::Running
                } else {
                    State::Ready
                },
        ),
        current: entered,
    }
}

/// Spawning fills a new pool from slot 1 upward: after `count` spawns the
/// slots 1 to `count` hold a task each.
pub proof fn law_spawn_fills_in_order(size: int, count: nat)
    requires
        1 <= size,
        count <= size - 1,
    ensures
        spawned(Pool::fresh(size), count) == filled(size, count as int),
        count < size - 1 ==> filled(size, count as int).available_slot() == Some(count as int + 1),
        count == size - 1 ==> filled(size, count as int).available_slot() is None,
    decreases count,
{
    let pool = filled(size, count as int);
    if count == 0 {
        assert(Pool::fresh(size).states =~= pool.states);
    } else {
        law_spawn_fills_in_order(size, (count - 1) as nat);
        let before = filled(size, count - 1);
        assert(before.spawn().states =~= pool.states);
    }
    if count < size - 1 {
        assert(pool.states[count as int + 1] == State::Available);
        pool.lemma_available_slot_some(count as int + 1);
    } else {
        pool.lemma_available_slot();
        if pool.available_slot() is Some {
            assert(pool.states[pool.available_slot().unwrap()] == State::Available);
        }
    }
}

/// Exhaustion. Take a pool of `size` slots, spawn a task into every slot but
/// slot 0, and let each task return as soon as it is entered. Then the
/// first `size - 1` switches enter the tasks, one each, in slot order, and
/// in a pool of two slots or more one more switch brings control back to
/// slot 0. The pool is then as new: the next reschedule finds no `Ready`
/// slot and changes nothing, which ends the run.
pub proof fn law_exhaustion(size: int, count: nat)
    requires
        1 <= size,
        count <= size,
    ensures
        spawned(Pool::fresh(size), (size - 1) as nat) == filled(size, size - 1),
        count == 0 ==> drained(filled(size, size - 1), count) == filled(size, size - 1),
        1 <= count < size ==> drained(filled(size, size - 1), count) == draining(
            size,
            count as int,
        ),
        count == size ==> drained(filled(size, size - 1), count) == Pool::fresh(size),
        Pool::fresh(size).next_ready() is None,
        Pool::fresh(size).reschedule() == Pool::fresh(size),
    decreases count,
{
    let loaded = filled(size, size - 1);
    let fresh = Pool::fresh(size);
    law_spawn_fills_in_order(size, (size - 1) as nat);
    fresh.lemma_next_ready();
    if fresh.next_ready() is Some {
        assert(fresh.states[fresh.next_ready().unwrap()] == State::Ready);
    }
    if count == 0 {
    } else if count == 1 {
        assert(drained(loaded, 0) == loaded);
        if size == 1 {
            assert(loaded.states =~= fresh.states);
        } else {
            assert(loaded.states[1] == State::Ready);
            loaded.lemma_next_ready_some(1);
            assert(loaded.reschedule().states =~= draining(size, 1).states);
        }
    } else {
        law_exhaustion(size, (count - 1) as nat);
        let before = draining(size, count - 1);
        let released = before.released();
        if count < size {
            assert(released.states[count as int] == State::Ready);
            released.lemma_next_ready_some(count as int);
            assert(before.recycle().states =~= draining(size, count as int).states);
        } else {
            assert(released.states[0] == State::Ready);
            released.lemma_next_ready_some(0);
            assert(before.recycle().states =~= fresh.states);
        }
    }
}

/// No slot of `pool` is idle.
pub open spec fn all_active(pool: Pool) -> bool {
    forall|slot: int| pool.has_slot(slot) ==> #[trigger] pool.states[slot] != State::Available
}

/// Round robin. In a pool with no idle slot, where every slot that gets
/// control yields at once, control goes round the slots in index order:
/// after `count` reschedules the running slot lies `count` places after the
/// first one, counted round the pool, and every other slot is `Ready`.
pub proof fn law_round_robin(pool: Pool, count: nat)
    requires
        pool.wf(),
        all_active(pool),
    ensures
        yielded(pool, count).wf(),
        all_active(yielded(pool, count)),
        yielded(pool, count).size() == pool.size(),
        yielded(pool, count).current == (pool.current + count) % pool.size(),
    decreases count,
{
    let size = pool.size();
    if count == 0 {
        lemma_small_mod(pool.current as nat, size as nat);
    } else {
        law_round_robin(pool, (count - 1) as nat);
        let before = yielded(pool, (count - 1) as nat);
        let after = before.reschedule();
        let next = if before.current + 1 < size {
            before.current + 1
        } else {
            0
        };
        before.lemma_reschedule_wf();
        if size == 1 {
            before.lemma_next_ready();
        } else {
            assert(before.states[next] == State::Ready);
            before.lemma_next_ready_some(next);
        }
        assert(after.current == (before.current + 1) % size) by {
            if before.current + 1 < size {
                lemma_small_mod((before.current + 1) as nat, size as nat);
            } else {
                assert(size % size == 0) by (nonlinear_arith)
                    requires
                        size > 0,
                ;
            }
        }
        assert(after.current == (pool.current + count) % size) by {
            lemma_add_mod_noop(pool.current + count - 1, 1, size);
            if size > 1 {
                lemma_small_mod(1, size as nat);
            } else {
                assert(after.current == 0);
                assert((pool.current + count) % 1 == 0);
            }
        }
    }
}

/// Self-resumption. Where no slot but the running one has work, a
/// reschedule finds nothing and leaves the pool as it is: the running task
/// goes on.
pub proof fn law_self_resumption(pool: Pool)
    requires
        pool.wf(),
        forall|slot: int|
            pool.has_slot(slot) && slot != pool.current ==> #[trigger] pool.states[slot]
                != State::Ready,
    ensures
        pool.next_ready() is None,
        pool.reschedule() == pool,
{
    pool.lemma_next_ready();
    if pool.next_ready() is Some {
        assert(pool.states[pool.next_ready().unwrap()] == State::Ready);
    }
}

/// One running slot. Every operation keeps the invariant that the current
/// slot is the only `Running` one, and a reschedule changes the pool exactly
/// when some other slot is `Ready`.
pub proof fn law_one_running(pool: Pool)
    requires
        pool.wf(),
    ensures
        pool.spawn().wf(),
        pool.reschedule().wf(),
        pool.recycle().wf(),
        pool.next_ready() is Some <==> pool.reschedule().current != pool.current,
        pool.next_ready() is Some <==> exists|slot: int|
            pool.has_slot(slot) && #[trigger] pool.states[slot] == State::Ready,
{
    pool.lemma_spawn_wf();
    pool.lemma_reschedule_wf();
    pool.lemma_recycle_wf();
    pool.lemma_next_ready();
    if pool.next_ready() is Some {
        assert(pool.states[pool.next_ready().unwrap()] == State::Ready);
    }
}

/// In going from `before` to `after`, `slot` went from state `from` to
/// state `to`.
pub open spec fn moved(before: Pool, after: Pool, slot: int, from: State, to: State) -> bool {
    before.states[slot] == from && after.states[slot] == to
}

/// Lifecycle. The pool keeps its size, and a slot changes state only along
/// the arrows of its lifecycle: a spawn takes a slot from `Available` to
/// `Ready`; a reschedule takes the slot it stops from `Running` to `Ready`
/// and the slot it resumes from `Ready` to `Running`; a return takes the
/// slot that ends from `Running` to `Available` and the slot it resumes
/// from `Ready` to `Running`. Every other slot stays as it is.
pub proof fn law_lifecycle(pool: Pool, slot: int)
    requires
        pool.wf(),
        pool.has_slot(slot),
    ensures
        pool.spawn().size() == pool.size(),
        pool.reschedule().size() == pool.size(),
        pool.recycle().size() == pool.size(),
        pool.spawn().current == pool.current,
        ({
            let after = pool.spawn();
            ||| after.states[slot] == pool.states[slot]
            ||| pool.available_slot() == Some(slot) && moved(
                pool,
                after,
                slot,
                State::Available,
                State::Ready,
            )
        }),
        ({
            let after = pool.reschedule();
            ||| after.states[slot] == pool.states[slot]
            ||| slot == pool.current && moved(pool, after, slot, State::Running, State::Ready)
            ||| slot == after.current && moved(pool, after, slot, State::Ready, State::Running)
        }),
        ({
            let after = pool.recycle();
            ||| after.states[slot] == pool.states[slot]
            ||| slot == pool.current && moved(pool, after, slot, State::Running, State::Available)
            ||| slot == after.current && moved(pool, after, slot, State::Ready, State::Running)
        }),
{
    pool.lemma_available_slot();
    pool.lemma_next_ready();
    pool.lemma_recycle_wf();
    if pool.current != 0 {
        pool.released().lemma_next_ready();
    }
}

/// Slot reuse, in the pool. The slot of a task that has returned is idle
/// again, so the pool can take a new task; and where the freed slot is the
/// idle slot of the lowest index, the next spawn takes that very slot.
pub proof fn law_slot_reuse(pool: Pool)
    requires
        pool.wf(),
        pool.current != 0,
    ensures
        pool.recycle().states[pool.current] == State::Available,
        pool.recycle().available_slot() is Some,
        pool.recycle().available_slot().unwrap() <= pool.current,
        pool.recycle().is_first_available(pool.current) ==> pool.recycle().spawn().states[pool
            .current] == State::Ready,
{
    pool.lemma_recycle_wf();
    let after = pool.recycle();
    after.lemma_available_slot();
    if after.is_first_available(pool.current) {
        after.lemma_available_slot_some(pool.current);
    }
}

/// Slot reuse, in the frame. What a spawn leaves in a slot for the first
/// run of its task depends on where the stack lies and on the task alone.
/// Let two schedulers spawn the same task into the same slot, with the
/// stack at the same address; whatever the slots held before, the saved
/// stack pointers are equal and the three words of the two frames are
/// equal.
pub proof fn law_spawn_ignores_history(
    first: Runtime,
    first_after: Runtime,
    second: Runtime,
    second_after: Runtime,
    slot: int,
    base: int,
    launch: Launch,
)
    requires
        first.wf(),
        second.wf(),
        first@.has_slot(slot),
        second@.has_slot(slot),
        0 <= base,
        first.installed(first_after, slot, base, launch),
        second.installed(second_after, slot, base, launch),
    ensures
        ({
            let at = frame_offset(base, DEFAULT_STACK_SIZE as int);
            &&& 0 <= at
            &&& at + FRAME_SIZE <= DEFAULT_STACK_SIZE
            &&& first_after.contexts()[slot].rsp == second_after.contexts()[slot].rsp
            &&& first_after.contexts()[slot].rsp == (base + at) as u64
            &&& word_at(first_after.stacks()[slot], at) == launch.entry
            &&& word_at(second_after.stacks()[slot], at) == launch.entry
            &&& word_at(first_after.stacks()[slot], at + 8) == launch.skip
            &&& word_at(second_after.stacks()[slot], at + 8) == launch.skip
            &&& word_at(first_after.stacks()[slot], at + 16) == launch.guard
            &&& word_at(second_after.stacks()[slot], at + 16) == launch.guard
        }),
{
    let at = frame_offset(base, DEFAULT_STACK_SIZE as int);
    assert(first.stacks()[slot].len() == DEFAULT_STACK_SIZE);
    assert(second.stacks()[slot].len() == DEFAULT_STACK_SIZE);
    lemma_frame_words(first.stacks()[slot], at, launch);
    lemma_frame_words(second.stacks()[slot], at, launch);
}

/// First run. The frame that a spawn lays out takes a task through its
/// first run, wherever the stack lies. The frame starts on a 16-byte
/// boundary, as high in the stack as that allows, and holds the task's
/// entry: the return-style transfer that resumes the slot lands on the task
/// and leaves the stack pointer one word past the boundary, as a call would.
/// The word above holds the bridge stub, where the task lands when it
/// returns, and the word above that the recycling trampoline, which the
/// stub passes control to, again with the stack pointer one word past a
/// 16-byte boundary.
pub proof fn law_first_frame(bytes: Seq<u8>, base: int, launch: Launch)
    requires
        0 <= base,
        MIN_STACK_SIZE <= bytes.len(),
    ensures
        ({
            let at = frame_offset(base, bytes.len() as int);
            let stack = with_frame(bytes, at, launch);
            &&& 0 <= at
            &&& at + FRAME_DEPTH <= bytes.len()
            &&& bytes.len() - (at + FRAME_DEPTH) < STACK_ALIGNMENT
            &&& (base + at) % 16 == 0
            &&& word_at(stack, at) == launch.entry
            &&& (base + at + 8) % 16 == 8
            &&& word_at(stack, at + 8) == launch.skip
            &&& word_at(stack, at + 16) == launch.guard
            &&& (base + at + 24) % 16 == 8
        }),
{
    lemma_frame_words(bytes, frame_offset(base, bytes.len() as int), launch);
}

/// A run of the scheduler with its tasks: the pool, and for every slot the
/// number of times that its task still yields before it returns.
pub struct Run {
    pub pool: Pool,
    pub work: Seq<nat>,
}

impl Run {
    /// What the slot that has control does next. The caller in slot 0
    /// reschedules. A task with yields left makes one of them; a task with
    /// none left returns, and its slot is recycled.
    pub open spec fn step(self) -> Run {
        let slot = self.pool.current;
        if slot == 0 {
            Run { pool: self.pool.reschedule(), work: self.work }
        } else if self.work[slot] > 0 {
            Run {
                pool: self.pool.reschedule(),
                work: self.work.update(slot, (self.work[slot] - 1) as nat),
            }
        } else {
            Run { pool: self.pool.recycle(), work: self.work }
        }
    }

    /// The run after `count` steps.
    pub open spec fn steps(self, count: nat) -> Run
        decreases count,
    {
        if count == 0 {
            self
        } else {
            self.steps((count - 1) as nat).step()
        }
    }

    /// The run after `rounds` rounds of `size` steps each.
    pub open spec fn rounds(self, size: nat, rounds: nat) -> Run
        decreases rounds,
    {
        if rounds == 0 {
            self
        } else {
            self.rounds(size, (rounds - 1) as nat).steps(size)
        }
    }
}

/// A run over a pool of `size` slots in which every slot holds a task and
/// control is at slot `place`. The tasks before `place` have `left - 1`
/// yields to make, the task of `place` and those after it have `left`.
pub open spec fn circling(size: int, place: int, left: nat) -> Run {
    Run {
        pool: Pool {
            states: Seq::new(
                size as nat,
                |slot: int|
                    if slot == place {
                        State::Running
                    } else {
                        State::Ready
                    },
            ),
            current: place,
        },
        work: Seq::new(
            size as nat,
            |slot: int|
                if slot == 0 {
                    0nat
                } else if slot < place {
                    (left - 1) as nat
                } else {
                    left
                },
        ),
    }
}

/// One step of a run in which every task has yields left passes control to
/// the next slot, and from the last slot back to slot 0.
proof fn lemma_circling_step(size: int, place: int, left: nat)
    requires
        2 <= size,
        0 <= place < size,
        1 <= left,
    ensures
        circling(size, place, left).step() == if place + 1 < size {
            circling(size, place + 1, left)
        } else {
            circling(size, 0, (left - 1) as nat)
        },
{
    let run = circling(size, place, left);
    let next = if place + 1 < size {
        place + 1
    } else {
        0
    };
    let after = if place + 1 < size {
        circling(size, place + 1, left)
    } else {
        circling(size, 0, (left - 1) as nat)
    };
    assert(run.pool.states[next] == State::Ready);
    run.pool.lemma_next_ready_some(next);
    assert(run.step().pool.states =~= after.pool.states);
    assert(run.step().work =~= after.work);
}

/// Within a round in which every task has yields left, the switches enter
/// the slots in index order.
proof fn lemma_circling_steps(size: int, left: nat, count: nat)
    requires
        2 <= size,
        1 <= left,
        count <= size,
    ensures
        circling(size, 0, left).steps(count) == if count < size {
            circling(size, count as int, left)
        } else {
            circling(size, 0, (left - 1) as nat)
        },
    decreases count,
{
    if count > 0 {
        lemma_circling_steps(size, left, (count - 1) as nat);
        lemma_circling_step(size, count - 1, left);
    }
}

/// After `round` rounds every task has made `round` of its yields, and
/// control is back at slot 0.
proof fn lemma_circling_rounds(size: int, yields: nat, round: nat)
    requires
        2 <= size,
        round <= yields,
    ensures
        circling(size, 0, yields).rounds(size as nat, round) == circling(
            size,
            0,
            (yields - round) as nat,
        ),
    decreases round,
{
    if round > 0 {
        lemma_circling_rounds(size, yields, (round - 1) as nat);
        lemma_circling_steps(size, (yields - round + 1) as nat, size as nat);
    }
}

/// Once no task has yields left, the run is the one in which every task
/// returns as soon as it is entered.
proof fn lemma_last_round(size: int, count: nat)
    requires
        2 <= size,
        count <= size,
    ensures
        circling(size, 0, 0).steps(count) == (Run {
            pool: drained(filled(size, size - 1), count),
            work: circling(size, 0, 0).work,
        }),
    decreases count,
{
    let start = circling(size, 0, 0);
    if count == 0 {
        assert(start.pool.states =~= filled(size, size - 1).states);
    } else {
        lemma_last_round(size, (count - 1) as nat);
        law_exhaustion(size, (count - 1) as nat);
    }
}

/// Fairness. Take a pool of `size` slots with a task in every slot but slot
/// 0; let each task yield `yields` times and then return, and let the
/// caller in slot 0 reschedule whenever it has control. Then the run goes
/// in rounds of `size` switches, and in every round the switches enter the
/// slots 1, 2, and so on in index order and then come back to slot 0. In
/// the rounds before the last each task makes one yield; in the last round,
/// the one numbered `yields`, each task returns, and the pool is then as
/// new.
pub proof fn law_fair_run(size: int, yields: nat, round: nat, place: nat)
    requires
        2 <= size,
        round <= yields,
        place < size,
    ensures
        circling(size, 0, yields).pool == filled(size, size - 1),
        ({
            let run = circling(size, 0, yields).rounds(size as nat, round).steps(place);
            &&& run.pool.current == place
            &&& round < yields ==> run == circling(size, place as int, (yields - round) as nat)
            &&& round == yields && place > 0 ==> run.pool == draining(size, place as int)
        }),
        circling(size, 0, yields).rounds(size as nat, yields + 1).pool == Pool::fresh(size),
{
    assert(circling(size, 0, yields).pool.states =~= filled(size, size - 1).states);
    lemma_circling_rounds(size, yields, round);
    lemma_circling_rounds(size, yields, yields);
    if round < yields {
        lemma_circling_steps(size, (yields - round) as nat, place);
    } else {
        lemma_last_round(size, place);
        law_exhaustion(size, place);
    }
    lemma_last_round(size, size as nat);
    law_exhaustion(size, size as nat);
}

} // verus!
