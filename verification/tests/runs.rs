use green_threads::frame::Launch;
use green_threads::runtime::Runtime;
use green_threads::slot::State;

#[derive(Clone, Copy)]
enum Op {
    Emit(&'static str),
    Yield,
}

/// A scheduler with the tasks it schedules played by scripts: a task
/// performs its operations in turn and returns when none is left.
struct Play {
    runtime: Runtime,
    scripts: Vec<Vec<Op>>,
    next: Vec<usize>,
    emitted: Vec<&'static str>,
    entered: Vec<usize>,
}

impl Play {
    fn new(pool_size: usize) -> Play {
        let runtime = Runtime::with_pool_size(pool_size);
        let slots = runtime.pool_size();
        Play {
            runtime,
            scripts: vec![Vec::new(); slots],
            next: vec![0; slots],
            emitted: Vec::new(),
            entered: Vec::new(),
        }
    }

    fn spawn(&mut self, script: Vec<Op>) -> usize {
        let slot = match self.runtime.available_slot() {
            Some(slot) => slot,
            None => panic!("not available thread."),
        };
        self.runtime.spawn(Launch { entry: slot as u64, skip: 2, guard: 3 });
        self.scripts[slot] = script;
        self.next[slot] = 0;
        slot
    }

    fn switched(&mut self, from: usize) {
        let to = self.runtime.current();
        if to != from {
            self.entered.push(to);
        }
    }

    /// Plays until the caller in slot 0 finds nothing left to run.
    fn run(&mut self) {
        loop {
            let slot = self.runtime.current();
            if slot == 0 {
                if !self.runtime.t_yield() {
                    return;
                }
                self.switched(slot);
            } else if self.next[slot] < self.scripts[slot].len() {
                let op = self.scripts[slot][self.next[slot]];
                self.next[slot] += 1;
                match op {
                    Op::Emit(text) => self.emitted.push(text),
                    Op::Yield => {
                        self.runtime.t_yield();
                        self.switched(slot);
                    }
                }
            } else {
                self.runtime.t_return();
                self.switched(slot);
            }
        }
    }

    fn states(&self) -> Vec<State> {
        (0..self.runtime.pool_size()).map(|slot| self.runtime.thread(slot).state).collect()
    }
}

fn as_new(size: usize) -> Vec<State> {
    let mut states = vec![State::Available; size];
    states[0] = State::Running;
    states
}

fn yielding(name: &'static str, yields: usize) -> Vec<Op> {
    let mut script = Vec::new();
    for _ in 0..yields {
        script.push(Op::Emit(name));
        script.push(Op::Yield);
    }
    script.push(Op::Emit(name));
    script
}

#[test]
fn two_tasks_interleave_at_the_yield() {
    let mut play = Play::new(4);
    let a = play.spawn(vec![Op::Emit("A0"), Op::Yield, Op::Emit("A1")]);
    let b = play.spawn(vec![Op::Emit("B0")]);
    assert_eq!((a, b), (1, 2));
    play.run();
    assert_eq!(play.emitted, vec!["A0", "B0", "A1"]);
    assert_eq!(play.entered, vec![1, 2, 0, 1, 0]);
    assert_eq!(play.runtime.current(), 0);
    assert_eq!(play.states(), as_new(4));
}

#[test]
fn tasks_that_return_at_once_are_entered_once_each() {
    for size in 2usize..=7 {
        let mut play = Play::new(size);
        for _ in 1..size {
            play.spawn(Vec::new());
        }
        play.run();
        let mut expected: Vec<usize> = (1..size).collect();
        expected.push(0);
        assert_eq!(play.entered, expected);
        let into_tasks = play.entered.iter().filter(|slot| **slot != 0).count();
        assert_eq!(into_tasks, size - 1);
        assert_eq!(play.entered.len(), size);
        assert_eq!(play.runtime.current(), 0);
        assert_eq!(play.states(), as_new(size));
        assert!(!play.runtime.t_yield());
    }
}

#[test]
fn run_of_an_empty_pool_ends_at_once() {
    for size in [1usize, 4] {
        let mut play = Play::new(size);
        play.run();
        assert!(play.entered.is_empty());
        assert!(play.emitted.is_empty());
        assert_eq!(play.states(), as_new(size));
    }
}

#[test]
fn three_tasks_take_turns_in_slot_order() {
    for yields in 0usize..=5 {
        let mut play = Play::new(4);
        play.spawn(yielding("1", yields));
        play.spawn(yielding("2", yields));
        play.spawn(yielding("3", yields));
        play.run();
        let mut emitted = Vec::new();
        let mut entered = Vec::new();
        for _ in 0..=yields {
            emitted.extend(["1", "2", "3"]);
            entered.extend([1usize, 2, 3, 0]);
        }
        assert_eq!(play.emitted, emitted);
        assert_eq!(play.entered, entered);
        assert_eq!(play.states(), as_new(4));
    }
}

#[test]
fn tasks_of_unequal_length_keep_the_slot_order() {
    let mut play = Play::new(4);
    play.spawn(yielding("1", 2));
    play.spawn(yielding("2", 0));
    play.spawn(yielding("3", 1));
    play.run();
    assert_eq!(play.emitted, vec!["1", "2", "3", "1", "3", "1"]);
    assert_eq!(play.entered, vec![1, 2, 3, 0, 1, 3, 0, 1, 0]);
    assert_eq!(play.states(), as_new(4));
}

#[test]
fn freed_slot_runs_a_new_task_of_its_own() {
    let mut play = Play::new(2);
    let first = play.spawn(vec![Op::Emit("old0"), Op::Yield, Op::Emit("old1")]);
    play.run();
    assert_eq!(play.emitted, vec!["old0", "old1"]);
    assert_eq!(play.runtime.thread(first).state, State::Available);
    play.emitted.clear();
    play.entered.clear();
    let second = play.spawn(vec![Op::Emit("new0"), Op::Yield, Op::Yield, Op::Emit("new1")]);
    assert_eq!(second, first);
    assert_eq!(play.runtime.thread(second).state, State::Ready);
    play.run();
    assert_eq!(play.emitted, vec!["new0", "new1"]);
    assert_eq!(play.entered, vec![1, 0, 1, 0, 1, 0]);
    assert_eq!(play.states(), as_new(2));
}

#[test]
fn slot_freed_in_the_middle_of_a_run_is_taken_again() {
    let mut play = Play::new(3);
    play.spawn(Vec::new());
    play.spawn(vec![Op::Emit("b"), Op::Yield, Op::Emit("b")]);
    assert!(play.runtime.t_yield());
    play.runtime.t_return();
    assert_eq!(play.runtime.current(), 2);
    assert_eq!(play.runtime.thread(1).state, State::Available);
    let again = play.spawn(vec![Op::Emit("c")]);
    assert_eq!(again, 1);
    play.run();
    assert_eq!(play.emitted, vec!["b", "c", "b"]);
    assert_eq!(play.states(), as_new(3));
}

#[test]
fn caller_alone_resumes_itself() {
    let mut play = Play::new(4);
    play.spawn(Vec::new());
    play.run();
    let before = play.states();
    for _ in 0..3 {
        assert!(!play.runtime.t_yield());
        assert_eq!(play.runtime.current(), 0);
        assert_eq!(play.states(), before);
    }
}

#[test]
fn pool_with_a_task_in_every_slot_has_none_idle() {
    let mut play = Play::new(4);
    play.spawn(Vec::new());
    play.spawn(Vec::new());
    play.spawn(Vec::new());
    assert_eq!(play.runtime.available_slot(), None);
    let all = play.states();
    assert!(all.iter().all(|state| *state == State::Running || *state == State::Ready));
}
