//! Preemptive round-robin scheduler driven by IRQ0: every `QUANTUM_TICKS`
//! timer ticks the running task is switched for the next one.
use vstd::prelude::*;

verus! {

/// Ticks a task runs before it is preempted (10 ms x 10 = 100 ms).
pub const QUANTUM_TICKS: u64 = 10;

/// Number of task slots: the main task and the two workers.
pub const MAX_TASKS: usize = 3;

/// A context switch to perform: save the context of task `from`, resume
/// task `to`.
#[derive(Debug, Clone, Copy, PartialEq, Eq, Structural)]
pub struct Switch {
    pub from: usize,
    pub to: usize,
}

/// Scheduling state: whether preemption is armed, the ticks spent in the
/// current slice, the running task, the number of tasks and the number of
/// switches performed.
pub struct Scheduler {
    enabled: bool,
    slice: u64,
    current: usize,
    count: usize,
    switches: u64,
}

impl Scheduler {
    pub closed spec fn enabled(&self) -> bool {
        self.enabled
    }

    pub closed spec fn slice(&self) -> int {
        self.slice as int
    }

    pub closed spec fn current(&self) -> int {
        self.current as int
    }

    pub closed spec fn count(&self) -> int {
        self.count as int
    }

    pub closed spec fn switch_count(&self) -> int {
        self.switches as int
    }

    /// The slice counter stays under the quantum and the running task is one
    /// of the tasks.
    pub open spec fn wf(&self) -> bool {
        &&& 0 <= self.slice() < QUANTUM_TICKS
        &&& 0 <= self.count() <= MAX_TASKS
        &&& 0 <= self.current()
        &&& self.count() > 0 ==> self.current() < self.count()
    }

    /// A disarmed scheduler with no task.
    pub fn new() -> (r: Self)
        ensures
            r.wf(),
            !r.enabled(),
            r.slice() == 0,
            r.current() == 0,
            r.count() == 0,
            r.switch_count() == 0,
    {
        Scheduler { enabled: false, slice: 0, current: 0, count: 0, switches: 0 }
    }

    /// Registers the running code as task 0 and the two workers as tasks 1
    /// and 2, then arms preemption.
    pub fn init(&mut self)
        requires
            old(self).wf(),
        ensures
            final(self).wf(),
            final(self).enabled(),
            final(self).slice() == 0,
            final(self).current() == 0,
            final(self).count() == MAX_TASKS,
            final(self).switch_count() == old(self).switch_count(),
    {
        self.count = 1;
        self.current = 0;
        self.slice = 0;
        self.enabled = false;
        self.count = MAX_TASKS;
        self.enabled = true;
    }

    /// Called on every timer interrupt. When preemption is armed, counts the
    /// tick; once the running task has used a whole quantum, starts a new
    /// slice and returns the switch to the next task in turn.
    pub fn on_timer_tick(&mut self) -> (r: Option<Switch>)
        requires
            old(self).wf(),
        ensures
            final(self).wf(),
            final(self).enabled() == old(self).enabled(),
            final(self).count() == old(self).count(),
            !old(self).enabled() ==> r is None && final(self).slice() == old(self).slice()
                && final(self).current() == old(self).current()
                && final(self).switch_count() == old(self).switch_count(),
            old(self).enabled() && old(self).slice() + 1 < QUANTUM_TICKS ==> r is None
                && final(self).slice() == old(self).slice() + 1
                && final(self).current() == old(self).current()
                && final(self).switch_count() == old(self).switch_count(),
            old(self).enabled() && old(self).slice() + 1 >= QUANTUM_TICKS ==> final(self).slice() == 0
                && (final(self).current(), final(self).switch_count(), r) == next_task(
                old(self).current(),
                old(self).count(),
                old(self).switch_count(),
            ),
            (final(self).slice(), final(self).current(), final(self).switch_count()) == after_tick(
                old(self).enabled(),
                old(self).count(),
                (old(self).slice(), old(self).current(), old(self).switch_count()),
            ),
            r == tick_switch(
                old(self).enabled(),
                old(self).count(),
                (old(self).slice(), old(self).current(), old(self).switch_count()),
            ),
    {
        if !self.enabled {
            return None;
        }
        let slice: u64 = self.slice + 1;
        if slice < QUANTUM_TICKS {
            self.slice = slice;
            return None;
        }
        self.slice = 0;
        self.schedule()
    }

    /// Picks the next task in turn; no switch with fewer than two tasks.
    fn schedule(&mut self) -> (r: Option<Switch>)
        requires
            old(self).wf(),
        ensures
            final(self).wf(),
            final(self).enabled() == old(self).enabled(),
            final(self).count() == old(self).count(),
            final(self).slice() == old(self).slice(),
            (final(self).current(), final(self).switch_count(), r) == next_task(
                old(self).current(),
                old(self).count(),
                old(self).switch_count(),
            ),
    {
        let n: usize = self.count;
        if n < 2 {
            return None;
        }
        let old_task: usize = self.current;
        let new_task: usize = (old_task + 1) % n;
        if new_task == old_task {
            return None;
        }
        self.current = new_task;
        self.switches = self.switches.wrapping_add(1);
        Some(Switch { from: old_task, to: new_task })
    }

    /// Whether preemption is armed.
    pub fn is_enabled(&self) -> (r: bool)
        ensures
            r == self.enabled(),
    {
        self.enabled
    }

    /// The running task.
    pub fn current_task(&self) -> (r: usize)
        ensures
            r == self.current(),
    {
        self.current
    }

    /// Number of context switches performed so far.
    pub fn switches(&self) -> (r: u64)
        ensures
            r == self.switch_count(),
    {
        self.switches
    }
}

/// Running task, switch count and switch after a quantum expires with
/// `count` tasks: the next task in turn (wrapping to task 0), unless there
/// are fewer than two tasks.
pub open spec fn next_task(current: int, count: int, switches: int) -> (int, int, Option<Switch>) {
    if count < 2 {
        (current, switches, None)
    } else {
        let next = (current + 1) % count;
        if next == current {
            (current, switches, None)
        } else {
            (next, (switches + 1) % 0x1_0000_0000_0000_0000, Some(Switch { from: current as usize, to: next as usize }))
        }
    }
}

/// Slice, running task and switch count after one timer tick from `st`.
pub open spec fn after_tick(enabled: bool, count: int, st: (int, int, int)) -> (int, int, int) {
    if !enabled {
        st
    } else if st.0 + 1 < QUANTUM_TICKS {
        (st.0 + 1, st.1, st.2)
    } else {
        (0, next_task(st.1, count, st.2).0, next_task(st.1, count, st.2).1)
    }
}

/// The switch a timer tick from `st` asks for, if any.
pub open spec fn tick_switch(enabled: bool, count: int, st: (int, int, int)) -> Option<Switch> {
    if enabled && st.0 + 1 >= QUANTUM_TICKS {
        next_task(st.1, count, st.2).2
    } else {
        None
    }
}

/// Slice, running task and switch count after `k` timer ticks from `st`.
pub open spec fn after_ticks(enabled: bool, count: int, st: (int, int, int), k: nat) -> (int, int, int)
    decreases k,
{
    if k == 0 {
        st
    } else {
        after_tick(enabled, count, after_ticks(enabled, count, st, (k - 1) as nat))
    }
}

/// A disarmed scheduler ignores every tick.
pub proof fn law_ticks_while_disarmed(count: int, st: (int, int, int), k: nat)
    ensures
        after_ticks(false, count, st, k) == st,
        tick_switch(false, count, after_ticks(false, count, st, k)) is None,
    decreases k,
{
    if k > 0 {
        law_ticks_while_disarmed(count, st, (k - 1) as nat);
    }
}

/// After `init` (armed, three tasks, task 0 running, fresh slice) and `k`
/// timer ticks, one switch has happened per quantum: the slice is `k % 10`,
/// task `(k / 10) % 3` runs and the switch count grew by `k / 10` (wrapping
/// at 2^64); the tick after them switches exactly when it completes a
/// quantum, from the running task to the next one.
pub proof fn law_ticks_after_init(s0: int, k: nat)
    requires
        0 <= s0 < 0x1_0000_0000_0000_0000,
    ensures
        after_ticks(true, 3, (0, 0, s0), k) == (
            (k % 10) as int,
            ((k / 10) % 3) as int,
            (s0 + k / 10) % 0x1_0000_0000_0000_0000,
        ),
        tick_switch(true, 3, after_ticks(true, 3, (0, 0, s0), k)) is Some <==> (k + 1) % 10 == 0,
        (k + 1) % 10 == 0 ==> tick_switch(true, 3, after_ticks(true, 3, (0, 0, s0), k)) == Some(
            Switch { from: ((k / 10) % 3) as usize, to: ((k / 10 + 1) % 3) as usize },
        ),
    decreases k,
{
    let m: int = 0x1_0000_0000_0000_0000;
    if k > 0 {
        law_ticks_after_init(s0, (k - 1) as nat);
        let a: int = (k - 1) / 10;
        assert(0 <= (k - 1) % 10 < 10);
        if (k - 1) % 10 + 1 < 10 {
            assert(k % 10 == (k - 1) % 10 + 1 && k / 10 == a) by (nonlinear_arith)
                requires
                    (k - 1) % 10 + 1 < 10,
                    a == (k - 1) / 10,
                    k >= 1,
            ;
        } else {
            assert(k % 10 == 0 && k / 10 == a + 1) by (nonlinear_arith)
                requires
                    (k - 1) % 10 == 9,
                    a == (k - 1) / 10,
                    k >= 1,
            ;
            assert((a % 3 + 1) % 3 == (a + 1) % 3 && (a % 3 + 1) % 3 != a % 3) by (nonlinear_arith)
                requires
                    a >= 0,
            ;
            assert(((s0 + a) % m + 1) % m == (s0 + a + 1) % m) by (nonlinear_arith)
                requires
                    m > 0,
            ;
        }
    }
    let b: int = (k / 10) as int;
    assert(0 <= k % 10 < 10 && b >= 0 && 0 <= b % 3 < 3) by (nonlinear_arith)
        requires
            b == k / 10,
    ;
    if (k + 1) % 10 == 0 {
        assert(k % 10 == 9) by (nonlinear_arith)
            requires
                (k + 1) % 10 == 0,
        ;
        assert((b % 3 + 1) % 3 == (b + 1) % 3 && (b % 3 + 1) % 3 != b % 3) by (nonlinear_arith)
            requires
                b >= 0,
        ;
    } else {
        assert(k % 10 != 9) by (nonlinear_arith)
            requires
                (k + 1) % 10 != 0,
        ;
    }
}

/// Task running after `k` expired quanta, starting from `current`.
pub open spec fn task_after(current: int, count: int, k: nat) -> int
    decreases k,
{
    if k == 0 {
        current
    } else {
        next_task(task_after(current, count, (k - 1) as nat), count, 0).0
    }
}

/// Round robin: with at least two tasks every expired quantum switches to
/// the next task in turn, so after `k` quanta task `(current + k) % count`
/// runs, and after `count` quanta every task has run and the first one is
/// back.
pub proof fn law_round_robin(current: int, count: int, k: nat)
    requires
        2 <= count,
        0 <= current < count,
    ensures
        task_after(current, count, k) == (current + k) % count,
        task_after(current, count, count as nat) == current,
{
    lemma_task_after(current, count, k);
    lemma_task_after(current, count, count as nat);
    assert((current + count) % count == current) by (nonlinear_arith)
        requires
            0 <= current < count,
    ;
}

proof fn lemma_task_after(current: int, count: int, k: nat)
    requires
        2 <= count,
        0 <= current < count,
    ensures
        task_after(current, count, k) == (current + k) % count,
    decreases k,
{
    if k > 0 {
        lemma_task_after(current, count, (k - 1) as nat);
        let prev = task_after(current, count, (k - 1) as nat);
        assert(0 <= prev < count) by (nonlinear_arith)
            requires
                prev == (current + k - 1) % count,
                count >= 2,
        ;
        assert((prev + 1) % count != prev) by (nonlinear_arith)
            requires
                0 <= prev < count,
                count >= 2,
        ;
        assert((prev + 1) % count == (current + k) % count) by (nonlinear_arith)
            requires
                prev == (current + k - 1) % count,
                count >= 2,
        ;
        assert(task_after(current, count, k) == next_task(prev, count, 0).0);
    } else {
        assert((current + 0) % count == current) by (nonlinear_arith)
            requires
                0 <= current < count,
        ;
    }
}

} // verus!
