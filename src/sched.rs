use vstd::prelude::*;

verus! {

/// Longest time a task runs before the timer preempts it, in nanoseconds.
pub const SCHEDULER_TICK: u64 = 100_000_000;

/// Shortest timer programming, so that the switch itself completes.
pub const MIN_TIMER_NS: u64 = 1000;

/// One sleeping task: when it may run again, and its process id.
#[derive(Debug, Clone, Copy, PartialEq, Eq, Structural)]
pub struct Delay {
    pub expiry: u64,
    pub pid: u64,
}

/// Whether the wake-ups of `s` are in order of expiry.
pub open spec fn sorted_by_expiry(s: Seq<Delay>) -> bool {
    forall|i: int, j: int| 0 <= i < j < s.len() ==> s[i].expiry <= s[j].expiry
}

/// Whether the first `k` wake-ups of `s` are due at `now` and the others are not.
pub open spec fn due_prefix(s: Seq<Delay>, now: u64, k: int) -> bool {
    &&& 0 <= k <= s.len()
    &&& forall|i: int| 0 <= i < k ==> s[i].expiry <= now
    &&& forall|i: int| k <= i < s.len() ==> s[i].expiry > now
}

/// The sleep queue: pending wake-ups, kept in order of expiry so that the earliest
/// comes first (ties in order of queueing).
pub struct Delays {
    pub entries: Vec<Delay>,
}

impl Delays {
    pub open spec fn view(&self) -> Seq<Delay> {
        self.entries@
    }

    pub open spec fn wf(&self) -> bool {
        sorted_by_expiry(self@)
    }

    pub fn new() -> (r: Self)
        ensures
            r.wf(),
            r@.len() == 0,
    {
        Delays { entries: Vec::new() }
    }

    /// Queues `pid` to wake `delay_ns` after `now`, behind every wake-up due no later.
    pub fn add(&mut self, pid: u64, delay_ns: u64, now: u64)
        requires
            old(self).wf(),
            now + delay_ns <= u64::MAX,
        ensures
            final(self).wf(),
            exists|k: int| #[trigger] due_prefix(old(self)@, (now + delay_ns) as u64, k)
                && final(self)@ == old(self)@.insert(k, Delay { expiry: (now + delay_ns) as u64, pid }),
    {
        let d = Delay { expiry: now + delay_ns, pid };
        let mut k: usize = 0;
        while k < self.entries.len() && self.entries[k].expiry <= d.expiry
            invariant
                self.wf(),
                k <= self@.len(),
                forall|i: int| 0 <= i < k ==> self@[i].expiry <= d.expiry,
            decreases self@.len() - k,
        {
            k = k + 1;
        }
        let ghost before = self@;
        assert(due_prefix(before, d.expiry, k as int));
        self.entries.insert(k, d);
        assert forall|i: int, j: int| 0 <= i < j < self@.len() implies self@[i].expiry <= self@[j].expiry by {
            if j < k {
            } else if j == k {
            } else if i < k {
                assert(self@[j] == before[j - 1]);
            } else if i == k {
                assert(self@[j] == before[j - 1]);
            } else {
                assert(self@[i] == before[i - 1]);
                assert(self@[j] == before[j - 1]);
            }
        }
    }

    /// Removes and returns, earliest first, the tasks whose time has come (`expiry <= now`).
    pub fn get_expired_timers(&mut self, now: u64) -> (r: Vec<u64>)
        requires
            old(self).wf(),
        ensures
            final(self).wf(),
            exists|k: int| #[trigger] due_prefix(old(self)@, now, k)
                && r@ == old(self)@.take(k).map_values(|d: Delay| d.pid)
                && final(self)@ == old(self)@.skip(k),
    {
        let ghost orig = self@;
        let mut k: usize = 0;
        let mut pids: Vec<u64> = Vec::new();
        while k < self.entries.len() && self.entries[k].expiry <= now
            invariant
                self@ == orig,
                k <= orig.len(),
                forall|i: int| 0 <= i < k ==> orig[i].expiry <= now,
                pids@ == orig.take(k as int).map_values(|d: Delay| d.pid),
            decreases orig.len() - k,
        {
            pids.push(self.entries[k].pid);
            k = k + 1;
            assert(pids@ =~= orig.take(k as int).map_values(|d: Delay| d.pid));
        }
        assert forall|i: int| k <= i < orig.len() implies orig[i].expiry > now by {
            assert(orig[k as int].expiry <= orig[i].expiry);
        }
        let mut kept: Vec<Delay> = Vec::new();
        let mut j: usize = k;
        while j < self.entries.len()
            invariant
                self@ == orig,
                k <= j <= orig.len(),
                kept@ == orig.subrange(k as int, j as int),
            decreases orig.len() - j,
        {
            kept.push(self.entries[j]);
            j = j + 1;
            assert(kept@ =~= orig.subrange(k as int, j as int));
        }
        self.entries = kept;
        assert(self@ =~= orig.skip(k as int));
        assert(due_prefix(orig, now, k as int));
        pids
    }

    /// Nanoseconds from `now` to the earliest wake-up, if any task sleeps.
    pub fn get_smallest_delay(&self, now: u64) -> (r: Option<u64>)
        requires
            self.wf(),
        ensures
            r is None <==> self@.len() == 0,
            r matches Some(v) ==> v == sat_sub(self@[0].expiry, now),
            self@.len() > 0 ==> forall|k: int| 0 <= k < self@.len() ==> self@[0].expiry <= #[trigger] self@[k].expiry,
    {
        if self.entries.len() == 0 {
            return None;
        }
        let e = self.entries[0].expiry;
        Some(if e > now { e - now } else { 0 })
    }
}

/// `a - b`, or 0 when `b` is larger.
pub open spec fn sat_sub(a: u64, b: u64) -> u64 {
    if a > b { (a - b) as u64 } else { 0 }
}

/// A wake-up whose expiry is still ahead of `now` stays queued: a task never becomes
/// ready before its delay has run out.
pub proof fn lemma_no_early_wake(q: Seq<Delay>, now: u64, k: int, i: int)
    requires
        due_prefix(q, now, k),
        0 <= i < q.len(),
        q[i].expiry > now,
    ensures
        k <= i,
        q.skip(k)[i - k] == q[i],
{
}

/// How long to program the LAPIC timer for: the next wake-up or the tick, whichever
/// is sooner, and never less than `MIN_TIMER_NS`.
pub open spec fn timer_ns(smallest_delay: Option<u64>) -> u64 {
    match smallest_delay {
        None => SCHEDULER_TICK,
        Some(d) => if d > SCHEDULER_TICK { SCHEDULER_TICK } else if d < MIN_TIMER_NS { MIN_TIMER_NS } else { d },
    }
}

/// Computes `timer_ns`.
pub fn next_timer_ns(smallest_delay: Option<u64>) -> (r: u64)
    ensures
        r == timer_ns(smallest_delay),
        MIN_TIMER_NS <= r <= SCHEDULER_TICK,
        smallest_delay is None ==> r == SCHEDULER_TICK,
        smallest_delay matches Some(d) ==> r == if d > SCHEDULER_TICK { SCHEDULER_TICK } else if d < MIN_TIMER_NS { MIN_TIMER_NS } else { d },
{
    let t = match smallest_delay {
        None => SCHEDULER_TICK,
        Some(d) => if d > SCHEDULER_TICK { SCHEDULER_TICK } else { d },
    };
    if t < MIN_TIMER_NS { MIN_TIMER_NS } else { t }
}

/// Scheduling state of a task.
#[derive(Debug, Clone, Copy, PartialEq, Eq, Structural)]
pub enum TaskState {
    Ready,
    Running,
    Waiting,
}

/// Position `k` steps after `cur` in a ring of `n`.
pub open spec fn ring(cur: int, k: int, n: int) -> int {
    if cur + k < n { cur + k } else { cur + k - n }
}

/// Round-robin choice: the first `Ready` task after `current`, wrapping around, or
/// `current` itself when no other task is ready.
pub fn next_ready(states: &Vec<TaskState>, current: usize) -> (r: usize)
    requires
        current < states@.len(),
    ensures
        r < states@.len(),
        r == current || states@[r as int] == TaskState::Ready,
        r != current ==> exists|k: int| 1 <= k < states@.len() && r == ring(current as int, k, states@.len() as int)
            && forall|m: int| 1 <= m < k ==> states@[ring(current as int, m, states@.len() as int)] != TaskState::Ready,
        r == current ==> forall|m: int| 1 <= m < states@.len()
            ==> states@[ring(current as int, m, states@.len() as int)] != TaskState::Ready,
{
    let n = states.len();
    let mut k: usize = 1;
    while k < n
        invariant
            n == states@.len(),
            current < n,
            1 <= k <= n,
            forall|m: int| 1 <= m < k ==> states@[ring(current as int, m, n as int)] != TaskState::Ready,
        decreases n - k,
    {
        let idx = if k < n - current { current + k } else { k - (n - current) };
        assert(idx == ring(current as int, k as int, n as int));
        if states[idx] == TaskState::Ready {
            return idx;
        }
        k = k + 1;
    }
    current
}

/// If some task other than the current one is ready, the choice is a ready task.
pub proof fn lemma_progress(states: Seq<TaskState>, current: int, j: int)
    requires
        0 <= current < states.len(),
        0 <= j < states.len(),
        j != current,
        states[j] == TaskState::Ready,
    ensures
        exists|m: int| 1 <= m < states.len() && states[ring(current, m, states.len() as int)] == TaskState::Ready,
{
    let n = states.len() as int;
    let m = if j > current { j - current } else { j - current + n };
    assert(ring(current, m, n) == j);
}

/// Whether `pid` occurs in `v`.
pub fn contains_pid(v: &Vec<u64>, pid: u64) -> (r: bool)
    ensures
        r == v@.contains(pid),
{
    let mut i: usize = 0;
    while i < v.len()
        invariant
            i <= v@.len(),
            forall|k: int| 0 <= k < i ==> v@[k] != pid,
        decreases v@.len() - i,
    {
        if v[i] == pid {
            return true;
        }
        i = i + 1;
    }
    false
}

/// The state of a task after a wake-up of the tasks in `woken`.
pub open spec fn woken_state(st: TaskState, pid: u64, woken: Seq<u64>) -> TaskState {
    if st == TaskState::Waiting && woken.contains(pid) { TaskState::Ready } else { st }
}

/// Moves every waiting task whose id is in `woken` to `Ready`.
pub fn wake(states: &mut Vec<TaskState>, pids: &Vec<u64>, woken: &Vec<u64>)
    requires
        old(states)@.len() == pids@.len(),
    ensures
        final(states)@.len() == old(states)@.len(),
        forall|i: int| 0 <= i < final(states)@.len() ==> final(states)@[i] == woken_state(old(states)@[i], pids@[i], woken@),
{
    let ghost before = states@;
    let mut i: usize = 0;
    while i < states.len()
        invariant
            states@.len() == before.len() == pids@.len(),
            i <= states@.len(),
            forall|k: int| 0 <= k < i ==> states@[k] == woken_state(before[k], pids@[k], woken@),
            forall|k: int| i <= k < states@.len() ==> states@[k] == before[k],
        decreases states@.len() - i,
    {
        if states[i] == TaskState::Waiting && contains_pid(woken, pids[i]) {
            states.set(i, TaskState::Ready);
        }
        i = i + 1;
    }
}

/// Whether no task but the current one is running.
pub open spec fn others_idle(s: Seq<TaskState>, cur: int) -> bool {
    forall|i: int| 0 <= i < s.len() && i != cur ==> s[i] != TaskState::Running
}

/// The states after switching from `cur` to `next`: a running `cur` goes back to ready,
/// and `next` runs if it is ready. Staying on `cur` runs it again if it is ready.
pub open spec fn switched(s: Seq<TaskState>, cur: int, next: int) -> Seq<TaskState> {
    if next == cur {
        if s[cur] == TaskState::Ready { s.update(cur, TaskState::Running) } else { s }
    } else {
        s.update(cur, if s[cur] == TaskState::Running { TaskState::Ready } else { s[cur] }).update(
            next,
            TaskState::Running,
        )
    }
}

/// The round-robin choice of `next_ready`, as a relation.
pub open spec fn round_robin(s: Seq<TaskState>, cur: int, r: int) -> bool {
    &&& 0 <= r < s.len()
    &&& r == cur || s[r] == TaskState::Ready
    &&& r != cur ==> exists|k: int| 1 <= k < s.len() && r == ring(cur, k, s.len() as int)
        && forall|m: int| 1 <= m < k ==> s[ring(cur, m, s.len() as int)] != TaskState::Ready
    &&& r == cur ==> forall|m: int| 1 <= m < s.len() ==> s[ring(cur, m, s.len() as int)] != TaskState::Ready
}

/// The process table: one state per process id, the running task, and the sleep queue.
pub struct Scheduler {
    pub pids: Vec<u64>,
    pub states: Vec<TaskState>,
    pub current: usize,
    pub delays: Delays,
}

impl Scheduler {
    pub open spec fn wf(&self) -> bool {
        &&& self.pids@.len() == self.states@.len()
        &&& self.current < self.states@.len()
        &&& self.pids@.no_duplicates()
        &&& self.delays.wf()
        &&& others_idle(self.states@, self.current as int)
    }

    /// A table holding only the task `pid`, running.
    pub fn new(pid: u64) -> (r: Self)
        ensures
            r.wf(),
            r.pids@ == seq![pid],
            r.states@ == seq![TaskState::Running],
            r.current == 0,
            r.delays@.len() == 0,
    {
        let mut pids: Vec<u64> = Vec::new();
        pids.push(pid);
        let mut states: Vec<TaskState> = Vec::new();
        states.push(TaskState::Running);
        Scheduler { pids, states, current: 0, delays: Delays::new() }
    }

    /// Adds a ready task; `false`, with nothing changed, when `pid` is already present.
    pub fn add_task(&mut self, pid: u64) -> (r: bool)
        requires
            old(self).wf(),
        ensures
            final(self).wf(),
            r == !old(self).pids@.contains(pid),
            r ==> final(self).pids@ == old(self).pids@.push(pid) && final(self).states@ == old(
                self,
            ).states@.push(TaskState::Ready),
            !r ==> final(self).pids@ == old(self).pids@ && final(self).states@ == old(self).states@,
            final(self).current == old(self).current,
            final(self).delays@ == old(self).delays@,
    {
        if contains_pid(&self.pids, pid) {
            return false;
        }
        self.pids.push(pid);
        self.states.push(TaskState::Ready);
        true
    }

    /// Chooses the next task round-robin and switches to it.
    pub fn schedule(&mut self) -> (r: usize)
        requires
            old(self).wf(),
        ensures
            final(self).wf(),
            round_robin(old(self).states@, old(self).current as int, r as int),
            final(self).current == r,
            final(self).states@ == switched(old(self).states@, old(self).current as int, r as int),
            old(self).states@[old(self).current as int] == TaskState::Running ==> final(self).states@[r as int]
                == TaskState::Running,
            final(self).pids@ == old(self).pids@,
            final(self).delays@ == old(self).delays@,
    {
        let cur = self.current;
        let next = next_ready(&self.states, cur);
        if next != cur {
            if self.states[cur] == TaskState::Running {
                self.states.set(cur, TaskState::Ready);
            }
            self.states.set(next, TaskState::Running);
            self.current = next;
        } else if self.states[cur] == TaskState::Ready {
            self.states.set(cur, TaskState::Running);
        }
        assert(self.states@ =~= switched(old(self).states@, cur as int, next as int));
        next
    }

    /// What a timer interrupt decides: acknowledge it with one end-of-interrupt, wake the
    /// tasks whose sleep has run out by `now`, switch round-robin, and program the timer
    /// for the next wake-up or the tick. Returns the chosen task's index.
    pub fn timer_tick(&mut self, lapic: &mut crate::timers::Lapic, now: u64) -> (r: usize)
        requires
            old(self).wf(),
            old(lapic).eoi_count < u64::MAX,
            old(lapic).timer_divider > 0,
            old(lapic).timer_freq <= u32::MAX as int * 128,
        ensures
            final(self).wf(),
            final(lapic).eoi_count == old(lapic).eoi_count + 1,
            exists|k: int| #[trigger] due_prefix(old(self).delays@, now, k)
                && final(self).delays@ == old(self).delays@.skip(k)
                && {
                    let w = Seq::new(
                        old(self).states@.len(),
                        |i: int| woken_state(old(self).states@[i], old(self).pids@[i],
                            old(self).delays@.take(k).map_values(|d: Delay| d.pid)),
                    );
                    &&& round_robin(w, old(self).current as int, r as int)
                    &&& final(self).states@ == switched(w, old(self).current as int, r as int)
                },
            final(self).current == r,
            final(self).pids@ == old(self).pids@,
            ({
                let ns = timer_ns(if final(self).delays@.len() == 0 { None } else {
                    Some(sat_sub(final(self).delays@[0].expiry, now)) });
                let c = crate::timers::initial_count_for(old(lapic).timer_freq, old(lapic).timer_divider, ns as u32);
                &&& c < u32::MAX ==> final(lapic).init_count == c
                &&& c >= u32::MAX ==> final(lapic).init_count == old(lapic).init_count
            }),
    {
        lapic.send_eoi();
        let expired = self.delays.get_expired_timers(now);
        let ghost k = choose|k: int| #[trigger] due_prefix(old(self).delays@, now, k)
            && expired@ == old(self).delays@.take(k).map_values(|d: Delay| d.pid)
            && self.delays@ == old(self).delays@.skip(k);
        wake(&mut self.states, &self.pids, &expired);
        proof {
            let w = Seq::new(
                old(self).states@.len(),
                |i: int| woken_state(old(self).states@[i], old(self).pids@[i], expired@),
            );
            assert(self.states@ =~= w);
            assert forall|i: int| 0 <= i < self.states@.len() && i != self.current implies self.states@[i]
                != TaskState::Running by {
                assert(old(self).states@[i] != TaskState::Running);
            }
        }
        let r = self.schedule();
        let delay = self.delays.get_smallest_delay(now);
        let ns = next_timer_ns(delay);
        lapic.set_timer_initial_count_in_ns(ns as u32);
        r
    }

    /// Gives up the processor: the same choice as a timer tick, without the acknowledgement.
    pub fn yield_now(&mut self) -> (r: usize)
        requires
            old(self).wf(),
        ensures
            final(self).wf(),
            round_robin(old(self).states@, old(self).current as int, r as int),
            final(self).states@ == switched(old(self).states@, old(self).current as int, r as int),
            final(self).current == r,
    {
        self.schedule()
    }

    /// Puts the current task to sleep until `now + ns` and switches away.
    pub fn delay(&mut self, ns: u64, now: u64) -> (r: usize)
        requires
            old(self).wf(),
            now + ns <= u64::MAX,
        ensures
            final(self).wf(),
            ({
                let s = old(self).states@.update(old(self).current as int, TaskState::Waiting);
                &&& round_robin(s, old(self).current as int, r as int)
                &&& final(self).states@ == switched(s, old(self).current as int, r as int)
            }),
            final(self).current == r,
            exists|k: int| #[trigger] due_prefix(old(self).delays@, (now + ns) as u64, k)
                && final(self).delays@ == old(self).delays@.insert(k, Delay {
                    expiry: (now + ns) as u64, pid: old(self).pids@[old(self).current as int] }),
    {
        let cur = self.current;
        self.states.set(cur, TaskState::Waiting);
        let pid = self.pids[cur];
        self.delays.add(pid, ns, now);
        self.schedule()
    }

    /// Moves the current task to `Waiting` and switches away.
    pub fn block(&mut self) -> (r: usize)
        requires
            old(self).wf(),
        ensures
            final(self).wf(),
            ({
                let s = old(self).states@.update(old(self).current as int, TaskState::Waiting);
                &&& round_robin(s, old(self).current as int, r as int)
                &&& final(self).states@ == switched(s, old(self).current as int, r as int)
            }),
            final(self).current == r,
            final(self).delays@ == old(self).delays@,
    {
        let cur = self.current;
        self.states.set(cur, TaskState::Waiting);
        self.schedule()
    }

    /// Makes the waiting task `pid` ready and reschedules; `None`, with nothing changed,
    /// when no task has that id.
    pub fn unblock(&mut self, pid: u64) -> (r: Option<usize>)
        requires
            old(self).wf(),
        ensures
            final(self).wf(),
            r is None <==> !old(self).pids@.contains(pid),
            r is None ==> final(self).states@ == old(self).states@ && final(self).current == old(self).current,
            r matches Some(n) ==> exists|i: int| 0 <= i < old(self).pids@.len() && old(self).pids@[i] == pid && ({
                let s = old(self).states@.update(i, woken_state(old(self).states@[i], pid, seq![pid]));
                &&& round_robin(s, old(self).current as int, n as int)
                &&& final(self).states@ == switched(s, old(self).current as int, n as int)
            }),
    {
        let mut i: usize = 0;
        while i < self.pids.len()
            invariant
                self.wf(),
                *self == *old(self),
                i <= self.pids@.len(),
                forall|j: int| 0 <= j < i ==> self.pids@[j] != pid,
            decreases self.pids@.len() - i,
        {
            if self.pids[i] == pid {
                if self.states[i] == TaskState::Waiting {
                    self.states.set(i, TaskState::Ready);
                }
                assert(seq![pid].contains(pid)) by { assert(seq![pid][0] == pid); }
                proof {
                    let s = old(self).states@.update(i as int, woken_state(old(self).states@[i as int], pid, seq![pid]));
                    assert(self.states@ =~= s);
                }
                let n = self.schedule();
                return Some(n);
            }
            i = i + 1;
        }
        None
    }
}

/// The counting interrupt-disable lock that guards the scheduler.
pub struct SchedulerLock {
    pub count: u64,
    /// Whether interrupts are enabled.
    pub interrupts: bool,
}

impl SchedulerLock {
    pub fn new() -> (r: Self)
        ensures
            r.count == 0,
            r.interrupts,
    {
        SchedulerLock { count: 0, interrupts: true }
    }

    /// Disables interrupts and counts one more holder.
    pub fn lock(&mut self)
        requires
            old(self).count < u64::MAX,
        ensures
            final(self).count == old(self).count + 1,
            !final(self).interrupts,
    {
        self.interrupts = false;
        self.count = self.count + 1;
    }

    /// Counts one holder less, re-enabling interrupts when none is left.
    pub fn unlock(&mut self)
        requires
            old(self).count > 0,
        ensures
            final(self).count == old(self).count - 1,
            final(self).interrupts == (final(self).count == 0 || old(self).interrupts),
    {
        self.count = self.count - 1;
        if self.count == 0 {
            self.interrupts = true;
        }
    }
}

/// Hands out process ids in increasing order.
pub struct PidCounter {
    pub next: u64,
}

impl PidCounter {
    pub fn new() -> (r: Self)
        ensures
            r.next == 0,
    {
        PidCounter { next: 0 }
    }

    pub fn get_new_pid(&mut self) -> (r: u64)
        requires
            old(self).next < u64::MAX,
        ensures
            r == old(self).next,
            final(self).next == old(self).next + 1,
    {
        let p = self.next;
        self.next = self.next + 1;
        p
    }
}

} // verus!
