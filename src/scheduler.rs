//! The per-core cooperative scheduler: a round robin over runnable tasks,
//! each gated by a ready flag and charged for the work it reports.
use vstd::prelude::*;
use std::collections::HashMap;

verus! {

/// A task the scheduler can run: one pass of a pipeline.
pub trait Executable {
    /// The task's own consistency.
    closed spec fn exec_inv(&self) -> bool {
        true
    }

    /// Runs once; returns the packets processed (or a comparable measure of
    /// work) and a queue depth.
    /// What one run may do: from this state to `after`, reporting `r`.
    closed spec fn ran(&self, after: Self, r: (u32, i32)) -> bool where Self: Sized {
        true
    }

    fn execute(&mut self) -> (r: (u32, i32)) where Self: Sized
        requires
            old(self).exec_inv(),
        ensures
            final(self).exec_inv(),
            old(self).ran(*final(self), r),
    ;
}

/// A cycle counter.
pub trait Clock {
    fn rdtsc(&mut self) -> u64;
}

/// `a + b`, wrapping around at the width of `u64`.
pub open spec fn wrapping_add_u64(a: u64, b: u64) -> u64 {
    if a + b > u64::MAX {
        (a + b - u64::MAX - 1) as u64
    } else {
        (a + b) as u64
    }
}

/// `a - b`, wrapping around at the width of `u64`.
pub open spec fn wrapping_sub_u64(a: u64, b: u64) -> u64 {
    if a >= b {
        (a - b) as u64
    } else {
        (a - b + u64::MAX + 1) as u64
    }
}

/// The counters of `before` after a run between `begin` and `end` that
/// reported `work`: work and cycles are charged only when work is positive.
pub open spec fn charged<T: Executable>(before: Runnable<T>, after: Runnable<T>, work: u32, begin: u64, end: u64) -> bool {
    &&& after.count == if work > 0 {
        wrapping_add_u64(before.count, work as u64)
    } else {
        before.count
    }
    &&& after.cycles == if work > 0 {
        wrapping_add_u64(before.cycles, wrapping_sub_u64(end, begin))
    } else {
        before.cycles
    }
    &&& after.last_run == end
    &&& after.is_ready == before.is_ready
    &&& after.uuid == before.uuid
    &&& after.name == before.name
}

/// A task with its counters and its ready flag.
pub struct Runnable<T: Executable> {
    pub task: T,
    pub uuid: u128,
    pub name: String,
    /// Cycles spent in runs that reported work.
    pub cycles: u64,
    /// Work reported.
    pub count: u64,
    pub last_run: u64,
    pub is_ready: bool,
}

impl<T: Executable> Runnable<T> {
    /// A task that is not ready yet, with its counters at zero.
    pub fn from_task(uuid: u128, name: String, task: T, now: u64) -> (r: Runnable<T>)
        ensures
            r.uuid == uuid,
            r.name@ == name@,
            r.task == task,
            r.cycles == 0,
            r.count == 0,
            r.last_run == now,
            !r.is_ready,
    {
        Runnable { task, uuid, name, cycles: 0, count: 0, last_run: now, is_ready: false }
    }

    pub fn ready(&mut self)
        ensures
            final(self).is_ready,
            final(self).count == old(self).count,
            final(self).cycles == old(self).cycles,
            final(self).uuid == old(self).uuid,
    {
        self.is_ready = true;
    }

    pub fn unready(&mut self)
        ensures
            !final(self).is_ready,
            final(self).count == old(self).count,
            final(self).cycles == old(self).cycles,
            final(self).uuid == old(self).uuid,
    {
        self.is_ready = false;
    }

    pub fn move_ready(self) -> (r: Self)
        ensures
            r.is_ready,
            r.count == self.count,
            r.uuid == self.uuid,
    {
        let mut s = self;
        s.is_ready = true;
        s
    }

    pub fn move_unready(self) -> (r: Self)
        ensures
            !r.is_ready,
            r.count == self.count,
            r.uuid == self.uuid,
    {
        let mut s = self;
        s.is_ready = false;
        s
    }

    pub fn is_ready(&self) -> (r: bool)
        ensures
            r == self.is_ready,
    {
        self.is_ready
    }

    /// Records a run between `begin` and `end` that reported `report`.
    pub fn charge(&mut self, report: (u32, i32), begin: u64, end: u64)
        ensures
            charged(*old(self), *final(self), report.0, begin, end),
            final(self).task == old(self).task,
    {
        if report.0 > 0 {
            self.count = self.count.wrapping_add(report.0 as u64);
            self.cycles = self.cycles.wrapping_add(end.wrapping_sub(begin));
        }
        self.last_run = end;
    }
}

/// Commands a scheduler takes from its control channel.
pub enum SchedulerCommand<T: Executable> {
    Add(u128, String, T),
    SetTaskState(u128, bool),
    SetTaskStateAll(bool),
    Execute,
    Shutdown,
    Handshake,
    GetPerformance,
}

/// What a scheduler answers on its reply channel.
pub enum SchedulerReply {
    /// Core, then for each task its id, name, cycles and count.
    PerformanceData(i32, Vec<(u128, String, u64, u64)>),
    /// The scheduler reached the barrier and will park.
    HandshakeReached,
}

/// A round-robin scheduler for one core.
pub struct StandaloneScheduler<T: Executable> {
    pub run_q: Vec<Runnable<T>>,
    /// Position in `run_q` of the task with each id (the last one added).
    pub uuid2index: HashMap<u128, usize>,
    pub next_task: usize,
    pub core: i32,
    pub execute_loop: bool,
    pub shutdown: bool,
}

/// The map from ids to positions knows every task, and names for each id a
/// task with that id.
pub open spec fn index_matches<T: Executable>(m: Map<u128, usize>, q: Seq<Runnable<T>>) -> bool {
    &&& forall|k: int| 0 <= k < q.len() ==> m.contains_key(#[trigger] q[k].uuid)
    &&& forall|u: u128| #[trigger] m.contains_key(u) ==> m[u] < q.len() && q[m[u] as int].uuid == u
}

/// Positions and ids are kept, so the map still matches.
pub proof fn lemma_index_kept<T: Executable>(m: Map<u128, usize>, q: Seq<Runnable<T>>, q2: Seq<Runnable<T>>)
    requires
        index_matches(m, q),
        q2.len() == q.len(),
        forall|k: int| 0 <= k < q.len() ==> (#[trigger] q2[k]).uuid == q[k].uuid,
    ensures
        index_matches(m, q2),
{
    assert forall|k: int| 0 <= k < q2.len() implies m.contains_key(#[trigger] q2[k].uuid) by {
        assert(q2[k].uuid == q[k].uuid);
    }
    assert forall|u: u128| #[trigger] m.contains_key(u) implies m[u] < q2.len() && q2[m[u] as int].uuid == u by {
        assert(q2[m[u] as int].uuid == q[m[u] as int].uuid);
    }
}

/// `b` is `a` but perhaps for its ready flag.
pub open spec fn same_but_ready<T: Executable>(a: Runnable<T>, b: Runnable<T>) -> bool {
    b == Runnable { is_ready: b.is_ready, ..a }
}

/// The ready flag of a task with id `uuid` (the last one added) became `ready` and `r`
/// holds its previous value; or there is no such task, `r` is `None` and no
/// flag changed. Counts and ids are kept.
pub open spec fn task_state_set<T: Executable>(
    before: Seq<Runnable<T>>,
    after: Seq<Runnable<T>>,
    uuid: u128,
    ready: bool,
    r: Option<bool>,
) -> bool {
    &&& after.len() == before.len()
    &&& forall|k: int| 0 <= k < before.len() ==> same_but_ready(before[k], #[trigger] after[k])
    &&& (r is None <==> forall|k: int| 0 <= k < before.len() ==> before[k].uuid != uuid)
    &&& r is None ==> forall|k: int| 0 <= k < before.len() ==> (#[trigger] after[k]).is_ready == before[k].is_ready
    &&& r matches Some(prev) ==> exists|i: int|
        0 <= i < before.len() && #[trigger] before[i].uuid == uuid && prev == before[i].is_ready && after[i].is_ready == ready && forall|k: int|
            0 <= k < before.len() && k != i ==> (#[trigger] after[k]).is_ready == before[k].is_ready
}

/// `d` lists, task by task, the id, name, cycles and count of `q`.
pub open spec fn performance_of<T: Executable>(q: Seq<Runnable<T>>, d: Seq<(u128, String, u64, u64)>) -> bool {
    &&& d.len() == q.len()
    &&& forall|k: int| 0 <= k < d.len() ==> (#[trigger] d[k]).0 == q[k].uuid && d[k].1@ == q[k].name@ && d[k].2
        == q[k].cycles && d[k].3 == q[k].count
}

/// Counts of tasks that are not ready are as they were.
pub open spec fn idle_counts_kept<T: Executable>(before: Seq<Runnable<T>>, after: Seq<Runnable<T>>) -> bool {
    &&& after.len() >= before.len()
    &&& forall|k: int| 0 <= k < before.len() && !before[k].is_ready ==> #[trigger] after[k].count == before[k].count
}

impl<T: Executable> StandaloneScheduler<T> {
    pub open spec fn wf(&self) -> bool {
        &&& self.next_task == 0 || self.next_task < self.run_q@.len()
        &&& forall|k: int| 0 <= k < self.run_q@.len() ==> (#[trigger] self.run_q@[k]).task.exec_inv()
        &&& index_matches(self.uuid2index@, self.run_q@)
    }

    pub fn new_with_capacity(core: i32, capacity: usize) -> (r: Self)
        ensures
            r.wf(),
            r.run_q@.len() == 0,
            r.next_task == 0,
            !r.execute_loop,
            r.shutdown,
    {
        StandaloneScheduler {
            run_q: Vec::with_capacity(capacity),
            uuid2index: HashMap::with_capacity(capacity),
            next_task: 0,
            core,
            execute_loop: false,
            shutdown: true,
        }
    }

    /// Appends a task; returns its position.
    pub fn add_runnable(&mut self, runnable: Runnable<T>) -> (r: usize)
        requires
            old(self).wf(),
            runnable.task.exec_inv(),
        ensures
            final(self).wf(),
            r == old(self).run_q@.len(),
            final(self).run_q@ == old(self).run_q@.push(runnable),
            final(self).next_task == old(self).next_task,
    {
        proof {
            broadcast use vstd::std_specs::hash::group_hash_axioms;
        }
        let index = self.run_q.len();
        let uuid = runnable.uuid;
        let ghost q0 = self.run_q@;
        let ghost m0 = self.uuid2index@;
        self.uuid2index.insert(uuid, index);
        self.run_q.push(runnable);
        proof {
            let q = self.run_q@;
            let m = self.uuid2index@;
            assert forall|k: int| 0 <= k < q.len() implies m.contains_key(#[trigger] q[k].uuid) by {
                if k < q0.len() {
                    assert(q[k] == q0[k]);
                    assert(m0.contains_key(q0[k].uuid));
                }
            }
            assert forall|u: u128| #[trigger] m.contains_key(u) implies m[u] < q.len() && q[m[u] as int].uuid == u by {
                if u != uuid {
                    assert(m0.contains_key(u));
                    assert(q[m0[u] as int] == q0[m0[u] as int]);
                }
            }
        }
        index
    }

    /// Sets the ready flag of every task.
    pub fn set_task_state_all(&mut self, ready: bool)
        requires
            old(self).wf(),
        ensures
            final(self).wf(),
            final(self).run_q@.len() == old(self).run_q@.len(),
            final(self).next_task == old(self).next_task,
            forall|k: int| 0 <= k < old(self).run_q@.len() ==> (#[trigger] final(self).run_q@[k]).is_ready == ready
                && same_but_ready(old(self).run_q@[k], final(self).run_q@[k]),
    {
        let mut i: usize = 0;
        while i < self.run_q.len()
            invariant
                i <= self.run_q@.len(),
                self.run_q@.len() == old(self).run_q@.len(),
                self.next_task == old(self).next_task,
                old(self).wf(),
                forall|k: int| 0 <= k < i ==> (#[trigger] self.run_q@[k]).is_ready == ready,
                forall|k: int| 0 <= k < self.run_q@.len() ==> (#[trigger] self.run_q@[k]).task == old(self).run_q@[k].task,
                forall|k: int| 0 <= k < self.run_q@.len() ==> same_but_ready(old(self).run_q@[k], #[trigger] self.run_q@[k]),
                self.uuid2index@ == old(self).uuid2index@,
            decreases self.run_q@.len() - i,
        {
            self.run_q[i].is_ready = ready;
            i += 1;
        }
        proof {
            assert forall|k: int| 0 <= k < self.run_q@.len() implies (#[trigger] self.run_q@[k]).uuid == old(self).run_q@[k].uuid by {
                assert(same_but_ready(old(self).run_q@[k], self.run_q@[k]));
            }
            lemma_index_kept(self.uuid2index@, old(self).run_q@, self.run_q@);
        }
    }

    /// Runs the task at the cursor if it is ready and charges it (see
    /// `Runnable::charge`) with what it reported; then moves the cursor on.
    /// Returns the time read after the run, whether the cursor wrapped around
    /// (the moment to look at the control channel), and the report (`None`
    /// when the task was not ready and did not run).
    pub fn execute_internal<C: Clock>(&mut self, begin: u64, clock: &mut C) -> (r: (u64, bool, Option<(u32, i32)>))
        requires
            old(self).wf(),
            old(self).run_q@.len() > 0,
        ensures
            final(self).wf(),
            final(self).run_q@.len() == old(self).run_q@.len(),
            final(self).next_task == if old(self).next_task + 1 == old(self).run_q@.len() {
                0
            } else {
                old(self).next_task + 1
            },
            r.1 == (final(self).next_task == 0),
            forall|k: int| 0 <= k < old(self).run_q@.len() && k != old(self).next_task ==> #[trigger] final(self).run_q@[k]
                == old(self).run_q@[k],
            !old(self).run_q@[old(self).next_task as int].is_ready ==> r.2 is None && final(self).run_q@[old(
                self,
            ).next_task as int] == old(self).run_q@[old(self).next_task as int],
            old(self).run_q@[old(self).next_task as int].is_ready ==> r.2 is Some && charged(
                old(self).run_q@[old(self).next_task as int],
                final(self).run_q@[old(self).next_task as int],
                (r.2->0).0,
                begin,
                r.0,
            ) && old(self).run_q@[old(self).next_task as int].task.ran(
                final(self).run_q@[old(self).next_task as int].task,
                r.2->0,
            ),
            forall|k: int| 0 <= k < old(self).run_q@.len() ==> (#[trigger] final(self).run_q@[k]).is_ready == old(self).run_q@[k].is_ready
                && final(self).run_q@[k].uuid == old(self).run_q@[k].uuid,
            idle_counts_kept(old(self).run_q@, final(self).run_q@),
    {
        let i = self.next_task;
        let (time, report) = if self.run_q[i].is_ready {
            let ghost t0 = self.run_q@[i as int].task;
            let report = self.run_q[i].task.execute();
            assert(t0.ran(self.run_q@[i as int].task, report));
            let end = clock.rdtsc();
            self.run_q[i].charge(report, begin, end);
            (end, Some(report))
        } else {
            (clock.rdtsc(), None)
        };
        let len = self.run_q.len();
        let next = i + 1;
        if next == len {
            self.next_task = 0;
            (time, true, report)
        } else {
            self.next_task = next;
            (time, false, report)
        }
    }

    /// Runs one step of the loop (see `execute_internal`), if there is a task.
    pub fn execute_one<C: Clock>(&mut self, clock: &mut C) -> (r: bool)
        requires
            old(self).wf(),
        ensures
            final(self).wf(),
            final(self).run_q@.len() == old(self).run_q@.len(),
            idle_counts_kept(old(self).run_q@, final(self).run_q@),
            forall|k: int| 0 <= k < old(self).run_q@.len() ==> (#[trigger] final(self).run_q@[k]).is_ready == old(self).run_q@[k].is_ready,
            forall|k: int| 0 <= k < old(self).run_q@.len() && !old(self).run_q@[k].is_ready ==> #[trigger] final(self).run_q@[k]
                == old(self).run_q@[k],
    {
        if self.run_q.len() > 0 {
            let begin = clock.rdtsc();
            let r = self.execute_internal(begin, clock);
            r.1
        } else {
            false
        }
    }

    /// The id, name, cycles and count of every task.
    pub fn performance(&self) -> (r: Vec<(u128, String, u64, u64)>)
        ensures
            performance_of(self.run_q@, r@),
    {
        let mut data: Vec<(u128, String, u64, u64)> = Vec::with_capacity(self.run_q.len());
        let mut i: usize = 0;
        while i < self.run_q.len()
            invariant
                i <= self.run_q@.len(),
                data@.len() == i,
                forall|k: int| 0 <= k < i ==> (#[trigger] data@[k]).0 == self.run_q@[k].uuid && data@[k].1@ == self.run_q@[k].name@
                    && data@[k].2 == self.run_q@[k].cycles && data@[k].3 == self.run_q@[k].count,
            decreases self.run_q@.len() - i,
        {
            let r = &self.run_q[i];
            data.push((r.uuid, r.name.clone(), r.cycles, r.count));
            i += 1;
        }
        data
    }

    /// Applies a control command. `Execute` starts the loop (`execute_loop`
    /// set), `Shutdown` ends it and the request handling; the reply, if the
    /// command has one, is returned.
    pub fn handle_request(&mut self, request: SchedulerCommand<T>, now: u64) -> (r: Option<SchedulerReply>)
        requires
            old(self).wf(),
            request matches SchedulerCommand::Add(_, _, t) ==> t.exec_inv(),
        ensures
            final(self).wf(),
            final(self).run_q@.len() >= old(self).run_q@.len(),
            idle_counts_kept(old(self).run_q@, final(self).run_q@),
            request is Shutdown ==> !final(self).execute_loop && final(self).shutdown,
            request is Execute ==> final(self).execute_loop,
            request matches SchedulerCommand::Add(u, _, _) ==> final(self).run_q@.len() == old(self).run_q@.len() + 1
                && final(self).run_q@.last().uuid == u && !final(self).run_q@.last().is_ready,
            (request is Handshake) == (r matches Some(SchedulerReply::HandshakeReached)),
            request is GetPerformance ==> (r matches Some(SchedulerReply::PerformanceData(c, d)) && c == old(self).core
                && performance_of(old(self).run_q@, d@)),
            !(request is Handshake) && !(request is GetPerformance) ==> r is None,
            request matches SchedulerCommand::SetTaskState(u, b) ==> exists|p: Option<bool>|
                task_state_set(old(self).run_q@, final(self).run_q@, u, b, p),
            request matches SchedulerCommand::SetTaskStateAll(b) ==> final(self).run_q@.len() == old(self).run_q@.len()
                && forall|k: int| 0 <= k < old(self).run_q@.len() ==> (#[trigger] final(self).run_q@[k]).is_ready == b,
            forall|k: int| 0 <= k < old(self).run_q@.len() ==> same_but_ready(old(self).run_q@[k], #[trigger] final(self).run_q@[k]),
            !(request is Add) ==> final(self).run_q@.len() == old(self).run_q@.len(),
            (request is SetTaskState || request is SetTaskStateAll) || forall|k: int|
                0 <= k < old(self).run_q@.len() ==> #[trigger] final(self).run_q@[k] == old(self).run_q@[k],
            request matches SchedulerCommand::Add(u, n, t) ==> ({
                let last = final(self).run_q@.last();
                &&& last.uuid == u && last.name@ == n@ && last.task == t && last.cycles == 0 && last.count == 0
                &&& last.last_run == now && !last.is_ready
            }),
    {
        match request {
            SchedulerCommand::Add(uuid, name, task) => {
                let runnable = Runnable::from_task(uuid, name, task, now);
                self.add_runnable(runnable);
                None
            },
            SchedulerCommand::Execute => {
                self.execute_loop = true;
                None
            },
            SchedulerCommand::Shutdown => {
                self.execute_loop = false;
                self.shutdown = true;
                None
            },
            SchedulerCommand::SetTaskState(uuid, state) => {
                self.set_task_state(uuid, state);
                None
            },
            SchedulerCommand::SetTaskStateAll(state) => {
                self.set_task_state_all(state);
                None
            },
            SchedulerCommand::GetPerformance => {
                let data = self.performance();
                Some(SchedulerReply::PerformanceData(self.core, data))
            },
            SchedulerCommand::Handshake => Some(SchedulerReply::HandshakeReached),
        }
    }

    /// Position of the task with id `uuid`, if any.
    pub fn find(&self, uuid: u128) -> (r: Option<usize>)
        requires
            self.wf(),
        ensures
            r matches Some(i) ==> i < self.run_q@.len() && self.run_q@[i as int].uuid == uuid,
            r is None ==> forall|k: int| 0 <= k < self.run_q@.len() ==> self.run_q@[k].uuid != uuid,
    {
        proof {
            broadcast use vstd::std_specs::hash::group_hash_axioms;
        }
        match self.uuid2index.get(&uuid) {
            Some(i) => Some(*i),
            None => {
                assert forall|k: int| 0 <= k < self.run_q@.len() implies self.run_q@[k].uuid != uuid by {
                    assert(self.uuid2index@.contains_key(self.run_q@[k].uuid));
                }
                None
            },
        }
    }

    /// Sets the ready flag of the task with id `uuid`; returns its previous
    /// value, or `None` when there is no such task.
    pub fn set_task_state(&mut self, uuid: u128, ready: bool) -> (r: Option<bool>)
        requires
            old(self).wf(),
        ensures
            final(self).wf(),
            final(self).run_q@.len() == old(self).run_q@.len(),
            final(self).next_task == old(self).next_task,
            forall|k: int| 0 <= k < old(self).run_q@.len() ==> (#[trigger] final(self).run_q@[k]).count == old(self).run_q@[k].count
                && final(self).run_q@[k].uuid == old(self).run_q@[k].uuid,
            task_state_set(old(self).run_q@, final(self).run_q@, uuid, ready, r),
    {
        match self.find(uuid) {
            Some(i) => {
                let prev = self.run_q[i].is_ready;
                self.run_q[i].is_ready = ready;
                Some(prev)
            },
            None => None,
        }
    }
}

/// While task `t` stays not ready, steps that keep the counts of tasks that
/// are not ready leave its count where it was: it cannot grow until the task
/// is enabled again.
pub proof fn lemma_idle_task_count_frozen<T: Executable>(states: Seq<Seq<Runnable<T>>>, t: int)
    requires
        states.len() > 0,
        0 <= t < states[0].len(),
        forall|i: int| 0 <= i < states.len() - 1 ==> idle_counts_kept(#[trigger] states[i], states[i + 1]),
        forall|i: int| 0 <= i < states.len() ==> t < (#[trigger] states[i]).len() && !states[i][t].is_ready,
    ensures
        forall|i: int| 0 <= i < states.len() ==> (#[trigger] states[i])[t].count == states[0][t].count,
{
    assert forall|i: int| 0 <= i < states.len() implies (#[trigger] states[i])[t].count == states[0][t].count by {
        lemma_idle_task_count_prefix(states, t, i);
    }
}

proof fn lemma_idle_task_count_prefix<T: Executable>(states: Seq<Seq<Runnable<T>>>, t: int, i: int)
    requires
        0 <= i < states.len(),
        0 <= t < states[0].len(),
        forall|j: int| 0 <= j < states.len() - 1 ==> idle_counts_kept(#[trigger] states[j], states[j + 1]),
        forall|j: int| 0 <= j < states.len() ==> t < (#[trigger] states[j]).len() && !states[j][t].is_ready,
    ensures
        states[i][t].count == states[0][t].count,
    decreases i,
{
    if i > 0 {
        lemma_idle_task_count_prefix(states, t, i - 1);
        assert(idle_counts_kept(states[i - 1], states[(i - 1) + 1]));
        assert(t < states[i - 1].len() && !states[i - 1][t].is_ready);
    }
}

} // verus!
