use green_threads::frame::Launch;
use green_threads::runtime::{Runtime, MAX_THREADS};
use green_threads::slot::{State, ThreadContext, DEFAULT_STACK_SIZE};

fn states(runtime: &Runtime) -> Vec<State> {
    (0..runtime.pool_size()).map(|slot| runtime.thread(slot).state).collect()
}

fn task(number: u64) -> Launch {
    Launch { entry: 0x1000 + number, skip: 0x2000, guard: 0x3000 }
}

#[test]
fn new_pool_has_four_slots_and_the_caller_runs() {
    let runtime = Runtime::new();
    assert_eq!(MAX_THREADS, 4);
    assert_eq!(runtime.pool_size(), 4);
    assert_eq!(runtime.current(), 0);
    assert_eq!(
        states(&runtime),
        vec![State::Running, State::Available, State::Available, State::Available]
    );
    for slot in 0..4 {
        assert_eq!(runtime.thread(slot).id, slot);
        assert_eq!(runtime.thread(slot).ctx, ThreadContext::default());
        assert_eq!(runtime.thread(slot).stack.len(), DEFAULT_STACK_SIZE);
    }
}

#[test]
fn pool_of_a_given_size() {
    let runtime = Runtime::with_pool_size(6);
    assert_eq!(runtime.pool_size(), 6);
    assert_eq!(runtime.current(), 0);
    assert_eq!(runtime.thread(0).state, State::Running);
    for slot in 1..6 {
        assert_eq!(runtime.thread(slot).id, slot);
        assert_eq!(runtime.thread(slot).state, State::Available);
    }
}

#[test]
fn pool_always_has_the_slot_of_the_caller() {
    for size in [0usize, 1] {
        let runtime = Runtime::with_pool_size(size);
        assert_eq!(runtime.pool_size(), 1);
        assert_eq!(runtime.current(), 0);
        assert_eq!(states(&runtime), vec![State::Running]);
        assert_eq!(runtime.available_slot(), None);
    }
}

#[test]
fn spawn_takes_the_lowest_idle_slot() {
    let mut runtime = Runtime::new();
    assert_eq!(runtime.available_slot(), Some(1));
    runtime.spawn(task(1));
    assert_eq!(
        states(&runtime),
        vec![State::Running, State::Ready, State::Available, State::Available]
    );
    assert_eq!(runtime.available_slot(), Some(2));
    runtime.spawn(task(2));
    assert_eq!(runtime.available_slot(), Some(3));
    runtime.spawn(task(3));
    assert_eq!(
        states(&runtime),
        vec![State::Running, State::Ready, State::Ready, State::Ready]
    );
    assert_eq!(runtime.current(), 0);
}

#[test]
fn full_pool_has_no_slot_for_a_spawn() {
    let mut runtime = Runtime::new();
    for number in 1..4 {
        runtime.spawn(task(number));
    }
    assert_eq!(runtime.available_slot(), None);
    assert!(states(&runtime).iter().all(|state| *state != State::Available));
}

#[test]
fn spawn_runs_nothing() {
    let mut runtime = Runtime::new();
    runtime.spawn(task(1));
    assert_eq!(runtime.current(), 0);
    assert_eq!(runtime.thread(0).state, State::Running);
}

#[test]
fn yield_with_nothing_ready_changes_nothing() {
    let mut runtime = Runtime::new();
    let before = states(&runtime);
    assert!(!runtime.t_yield());
    assert_eq!(runtime.current(), 0);
    assert_eq!(states(&runtime), before);
    assert!(!runtime.t_yield());
    assert_eq!(states(&runtime), before);
}

#[test]
fn yield_in_a_pool_of_one_slot_changes_nothing() {
    let mut runtime = Runtime::with_pool_size(1);
    assert!(!runtime.t_yield());
    assert_eq!(runtime.current(), 0);
    assert_eq!(states(&runtime), vec![State::Running]);
}

#[test]
fn yield_passes_control_to_the_next_ready_slot() {
    let mut runtime = Runtime::new();
    runtime.spawn(task(1));
    runtime.spawn(task(2));
    assert!(runtime.t_yield());
    assert_eq!(runtime.current(), 1);
    assert_eq!(
        states(&runtime),
        vec![State::Ready, State::Running, State::Ready, State::Available]
    );
    assert!(runtime.t_yield());
    assert_eq!(runtime.current(), 2);
    assert_eq!(
        states(&runtime),
        vec![State::Ready, State::Ready, State::Running, State::Available]
    );
}

#[test]
fn yield_wraps_round_to_slot_zero() {
    let mut runtime = Runtime::new();
    runtime.spawn(task(1));
    runtime.spawn(task(2));
    assert!(runtime.t_yield());
    assert!(runtime.t_yield());
    assert!(runtime.t_yield());
    assert_eq!(runtime.current(), 0);
    assert_eq!(
        states(&runtime),
        vec![State::Running, State::Ready, State::Ready, State::Available]
    );
}

#[test]
fn yield_skips_idle_slots() {
    let mut runtime = Runtime::new();
    runtime.spawn(task(1));
    runtime.spawn(task(2));
    runtime.spawn(task(3));
    assert!(runtime.t_yield());
    assert!(runtime.t_yield());
    assert_eq!(runtime.current(), 2);
    runtime.t_return();
    assert_eq!(runtime.current(), 3);
    assert!(runtime.t_yield());
    assert_eq!(runtime.current(), 0);
    assert!(runtime.t_yield());
    assert_eq!(runtime.current(), 1);
    assert!(runtime.t_yield());
    assert_eq!(runtime.current(), 3);
    assert_eq!(
        states(&runtime),
        vec![State::Ready, State::Ready, State::Available, State::Running]
    );
}

#[test]
fn yield_leaves_contexts_and_stacks_alone() {
    let mut runtime = Runtime::new();
    runtime.spawn_at(0x8000, task(1));
    let ctx = runtime.thread(1).ctx;
    let stack = runtime.thread(1).stack.clone();
    assert!(runtime.t_yield());
    assert_eq!(runtime.thread(1).ctx, ctx);
    assert_eq!(runtime.thread(1).stack, stack);
    runtime.t_return();
    assert_eq!(runtime.thread(1).ctx, ctx);
    assert_eq!(runtime.thread(1).stack, stack);
}

#[test]
fn return_frees_the_slot_and_passes_control_on() {
    let mut runtime = Runtime::new();
    runtime.spawn(task(1));
    runtime.spawn(task(2));
    assert!(runtime.t_yield());
    runtime.t_return();
    assert_eq!(runtime.current(), 2);
    assert_eq!(
        states(&runtime),
        vec![State::Ready, State::Available, State::Running, State::Available]
    );
    runtime.t_return();
    assert_eq!(runtime.current(), 0);
    assert_eq!(
        states(&runtime),
        vec![State::Running, State::Available, State::Available, State::Available]
    );
}

#[test]
fn return_in_slot_zero_does_nothing() {
    let mut runtime = Runtime::new();
    runtime.spawn(task(1));
    let before = states(&runtime);
    runtime.t_return();
    assert_eq!(runtime.current(), 0);
    assert_eq!(states(&runtime), before);
}

#[test]
fn exactly_one_slot_runs_at_every_moment() {
    let mut runtime = Runtime::with_pool_size(5);
    let running = |runtime: &Runtime| {
        let all = states(runtime);
        assert_eq!(all.iter().filter(|state| **state == State::Running).count(), 1);
        assert_eq!(all[runtime.current()], State::Running);
        assert_ne!(all[0], State::Available);
    };
    running(&runtime);
    for number in 1..5 {
        runtime.spawn(task(number));
        running(&runtime);
    }
    for step in 0..40 {
        if runtime.current() != 0 && step % 7 == 3 {
            runtime.t_return();
        } else {
            runtime.t_yield();
        }
        running(&runtime);
        if step % 11 == 5 && runtime.available_slot().is_some() {
            runtime.spawn(task(step));
            running(&runtime);
        }
    }
}

#[test]
fn slots_change_state_only_along_the_lifecycle() {
    let mut runtime = Runtime::with_pool_size(4);
    let mut before = states(&runtime);
    for step in 0u64..60 {
        let spawned = step % 3 == 0 && runtime.available_slot().is_some();
        let returned = !spawned && step % 5 == 1;
        if spawned {
            runtime.spawn(task(step));
        } else if returned {
            runtime.t_return();
        } else {
            runtime.t_yield();
        }
        let after = states(&runtime);
        assert_eq!(after.len(), before.len());
        for slot in 0..after.len() {
            let allowed = match (before[slot], after[slot]) {
                (from, to) if from == to => true,
                (State::Available, State::Ready) => spawned,
                (State::Ready, State::Running) => !spawned,
                (State::Running, State::Ready) => !spawned && !returned,
                (State::Running, State::Available) => returned,
                _ => false,
            };
            assert!(allowed, "slot {} went from {:?} to {:?}", slot, before[slot], after[slot]);
        }
        before = after;
    }
}
