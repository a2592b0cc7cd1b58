//! Edge computing: tasks offloaded to nearby nodes, their queue and life
//! cycle, the results that come back, the balancer's bookkeeping and the
//! wire form of the edge messages.
use vstd::prelude::*;
use crate::util::{zeros, keyed_map, keys_unique, lemma_keyed_map_get, lemma_keyed_map_absent, lemma_keyed_map_update,
    lemma_keyed_map_insert_at, le_bytes, push_le};

verus! {

/// Task identifier.
pub type TaskId = u64;

/// The kinds of work a task asks for.
#[derive(Clone, Copy, PartialEq, Eq, Structural, Debug)]
pub enum TaskKind {
    Compute,
    MLInference,
    Render3D,
    DataProcessing,
    Compression,
    Encryption,
    QuantumOffload,
}

/// The name of a task kind.
pub open spec fn task_kind_text(k: TaskKind) -> Seq<char> {
    match k {
        TaskKind::Compute => "Compute"@,
        TaskKind::MLInference => "ML-Inference"@,
        TaskKind::Render3D => "Render3D"@,
        TaskKind::DataProcessing => "DataProcessing"@,
        TaskKind::Compression => "Compression"@,
        TaskKind::Encryption => "Encryption"@,
        TaskKind::QuantumOffload => "QuantumOffload"@,
    }
}

/// The expected run time of a task kind for a 1 KB payload, in ms.
pub open spec fn base_ms(k: TaskKind) -> u64 {
    match k {
        TaskKind::Compute => 50,
        TaskKind::MLInference => 200,
        TaskKind::Render3D => 500,
        TaskKind::DataProcessing => 30,
        TaskKind::Compression => 20,
        TaskKind::Encryption => 10,
        TaskKind::QuantumOffload => 2000,
    }
}

/// The position of a kind in a per-kind table.
pub open spec fn kind_index(k: TaskKind) -> int {
    match k {
        TaskKind::Compute => 0,
        TaskKind::MLInference => 1,
        TaskKind::Render3D => 2,
        TaskKind::DataProcessing => 3,
        TaskKind::Compression => 4,
        TaskKind::Encryption => 5,
        TaskKind::QuantumOffload => 6,
    }
}

impl TaskKind {
    /// The kind's name.
    pub fn name(&self) -> (s: &'static str)
        ensures
            s@ == task_kind_text(*self),
    {
        match self {
            TaskKind::Compute => "Compute",
            TaskKind::MLInference => "ML-Inference",
            TaskKind::Render3D => "Render3D",
            TaskKind::DataProcessing => "DataProcessing",
            TaskKind::Compression => "Compression",
            TaskKind::Encryption => "Encryption",
            TaskKind::QuantumOffload => "QuantumOffload",
        }
    }

    /// The expected run time for a 1 KB payload, in ms.
    pub fn base_duration_ms(&self) -> (ms: u64)
        ensures
            ms == base_ms(*self),
    {
        match self {
            TaskKind::Compute => 50,
            TaskKind::MLInference => 200,
            TaskKind::Render3D => 500,
            TaskKind::DataProcessing => 30,
            TaskKind::Compression => 20,
            TaskKind::Encryption => 10,
            TaskKind::QuantumOffload => 2000,
        }
    }

    /// The kind's position in a per-kind table.
    pub fn index(&self) -> (i: usize)
        ensures
            i == kind_index(*self),
    {
        match self {
            TaskKind::Compute => 0,
            TaskKind::MLInference => 1,
            TaskKind::Render3D => 2,
            TaskKind::DataProcessing => 3,
            TaskKind::Compression => 4,
            TaskKind::Encryption => 5,
            TaskKind::QuantumOffload => 6,
        }
    }
}

/// Where a task is in its life.
#[derive(Debug)]
pub enum TaskState {
    Queued,
    Dispatched { node_id: [u8; 32] },
    Running { node_id: [u8; 32], started_at: u64 },
    Completed { result_size: usize, duration_ms: u64 },
    Failed { reason: String },
    TimedOut,
}

/// A task to be run on an edge node.
#[derive(Debug)]
pub struct EdgeTask {
    pub id: TaskId,
    pub kind: TaskKind,
    pub payload: Vec<u8>,
    pub state: TaskState,
    /// 0 is lowest, 255 critical.
    pub priority: u8,
    /// The tick after which the task is overdue.
    pub deadline_ms: u64,
    pub created_at: u64,
    pub result: Option<Vec<u8>>,
}

impl EdgeTask {
    /// A queued task of priority 128, due ten times its kind's run time after `tick`.
    pub fn new(id: TaskId, payload: Vec<u8>, kind: TaskKind, tick: u64) -> (t: EdgeTask)
        requires
            tick + base_ms(kind) * 10 <= u64::MAX,
        ensures
            t.id == id && t.kind == kind && t.payload == payload,
            t.state is Queued,
            t.priority == 128,
            t.deadline_ms == tick + base_ms(kind) * 10,
            t.created_at == tick,
            t.result.is_none(),
    {
        let deadline = tick + kind.base_duration_ms() * 10;
        EdgeTask {
            id,
            kind,
            payload,
            state: TaskState::Queued,
            priority: 128,
            deadline_ms: deadline,
            created_at: tick,
            result: None,
        }
    }

    /// Whether `current_tick` is past the deadline.
    pub fn is_overdue(&self, current_tick: u64) -> (b: bool)
        ensures
            b == (current_tick > self.deadline_ms),
    {
        current_tick > self.deadline_ms
    }
}

/// `a - b`, or 0 when `b` is larger.
pub open spec fn sat_sub(a: u64, b: u64) -> u64 {
    if a >= b { (a - b) as u64 } else { 0 }
}

/// A task's state after one round of the queue, before the deadline check: a
/// queued task starts on the best node for its kind, if there is one; a running
/// task that has run its kind's time completes.
pub open spec fn advanced_state(t: EdgeTask, tick: u64, best: [Option<[u8; 32]>; 7]) -> TaskState {
    match t.state {
        TaskState::Queued => match best@[kind_index(t.kind)] {
            Some(n) => TaskState::Running { node_id: n, started_at: tick },
            None => TaskState::Queued,
        },
        TaskState::Running { node_id, started_at } => {
            if sat_sub(tick, started_at) >= base_ms(t.kind) {
                TaskState::Completed { result_size: t.payload@.len() as usize, duration_ms: sat_sub(tick, started_at) }
            } else {
                TaskState::Running { node_id, started_at }
            }
        },
        _ => t.state,
    }
}

/// Whether a running task completes in this round.
pub open spec fn completes(t: EdgeTask, tick: u64) -> bool {
    t.state matches TaskState::Running { started_at, .. } && sat_sub(tick, started_at) >= base_ms(t.kind)
}

/// Whether a task times out in this round: still queued or running after the
/// step and past its deadline.
pub open spec fn times_out(t: EdgeTask, tick: u64, best: [Option<[u8; 32]>; 7]) -> bool {
    let a = advanced_state(t, tick, best);
    tick > t.deadline_ms && (a is Queued || a is Running)
}

/// A task's state after one round of the queue.
pub open spec fn stepped_state(t: EdgeTask, tick: u64, best: [Option<[u8; 32]>; 7]) -> TaskState {
    if times_out(t, tick, best) { TaskState::TimedOut } else { advanced_state(t, tick, best) }
}

/// `n` is task `t` after one round of the queue: only the state changes, and a
/// task that completes gets a result of half its payload's size, in zeros.
pub open spec fn is_stepped(t: EdgeTask, n: EdgeTask, tick: u64, best: [Option<[u8; 32]>; 7]) -> bool {
    &&& n.id == t.id && n.kind == t.kind && n.payload == t.payload && n.priority == t.priority
    &&& n.deadline_ms == t.deadline_ms && n.created_at == t.created_at
    &&& n.state == stepped_state(t, tick, best)
    &&& if completes(t, tick) {
        n.result is Some && n.result->0@ == Seq::new(t.payload@.len() / 2, |i: int| 0u8)
    } else {
        n.result == t.result
    }
}

/// The sum of `f` over the tasks of `s`.
pub open spec fn sum_by(s: Seq<EdgeTask>, f: spec_fn(EdgeTask) -> nat) -> nat
    decreases s.len(),
{
    if s.len() == 0 { 0 } else { sum_by(s.drop_last(), f) + f(s.last()) }
}

/// A sum over a prefix is at most the sum over a longer prefix.
pub proof fn lemma_sum_by_prefix(s: Seq<EdgeTask>, f: spec_fn(EdgeTask) -> nat, i: int, j: int)
    requires
        0 <= i <= j <= s.len(),
    ensures
        sum_by(s.subrange(0, i), f) <= sum_by(s.subrange(0, j), f),
    decreases j - i,
{
    if i < j {
        lemma_sum_by_prefix(s, f, i, j - 1);
        assert(s.subrange(0, j).drop_last() =~= s.subrange(0, j - 1));
    }
}

/// How long a task that completes now has run, else 0.
pub open spec fn run_time(t: EdgeTask, tick: u64) -> nat {
    match t.state {
        TaskState::Running { started_at, .. } => if completes(t, tick) { sat_sub(tick, started_at) as nat } else { 0 },
        _ => 0,
    }
}

/// The payload size of a task that completes now, else 0.
pub open spec fn offloaded(t: EdgeTask, tick: u64) -> nat {
    if completes(t, tick) { t.payload@.len() } else { 0 }
}

/// The ids of the tasks of `s` that complete now, in order.
pub open spec fn done_ids(s: Seq<EdgeTask>, tick: u64) -> Seq<TaskId>
    decreases s.len(),
{
    if s.len() == 0 {
        Seq::empty()
    } else {
        done_ids(s.drop_last(), tick) + (if completes(s.last(), tick) { seq![s.last().id] } else { Seq::empty() })
    }
}

/// The totals kept by the edge subsystem.
#[derive(Clone, Copy, Debug)]
pub struct EdgeState {
    pub initialized: bool,
    pub active_nodes: usize,
    pub tasks_submitted: u64,
    pub tasks_completed: u64,
    pub tasks_failed: u64,
    pub bytes_offloaded: u64,
    pub total_compute_ms: u64,
}

impl EdgeState {
    /// All totals zero, not initialised.
    pub fn new() -> (s: EdgeState)
        ensures
            s == (EdgeState { initialized: false, active_nodes: 0, tasks_submitted: 0, tasks_completed: 0,
                tasks_failed: 0, bytes_offloaded: 0, total_compute_ms: 0 }),
    {
        EdgeState { initialized: false, active_nodes: 0, tasks_submitted: 0, tasks_completed: 0,
            tasks_failed: 0, bytes_offloaded: 0, total_compute_ms: 0 }
    }
}

/// One round for one task; also says whether it completed and timed out.
fn step_task(t: EdgeTask, tick: u64, best: &[Option<[u8; 32]>; 7]) -> (r: (EdgeTask, bool, bool))
    ensures
        is_stepped(t, r.0, tick, *best),
        r.1 == completes(t, tick),
        r.2 == times_out(t, tick, *best),
{
    let mut t = t;
    let ghost t0 = t;
    let mut done = false;
    match t.state {
        TaskState::Queued => {
            match best[t.kind.index()] {
                Some(n) => {
                    t.state = TaskState::Running { node_id: n, started_at: tick };
                },
                None => {},
            }
        },
        TaskState::Running { node_id, started_at } => {
            let elapsed = tick.saturating_sub(started_at);
            if elapsed >= t.kind.base_duration_ms() {
                let size = t.payload.len();
                t.result = Some(zeros(size / 2));
                t.state = TaskState::Completed { result_size: size, duration_ms: elapsed };
                done = true;
            }
        },
        _ => {},
    }
    let late = tick > t.deadline_ms;
    let live = match t.state {
        TaskState::Queued => true,
        TaskState::Running { .. } => true,
        _ => false,
    };
    let out = late && live;
    if out {
        t.state = TaskState::TimedOut;
    }
    (t, done, out)
}

/// The tasks, ordered by id, and the ids of those completed.
pub struct TaskQueue {
    tasks: Vec<EdgeTask>,
    completed: Vec<TaskId>,
    next_id: u64,
}

impl TaskQueue {
    /// The tasks, in id order.
    pub closed spec fn tasks(&self) -> Seq<EdgeTask> {
        self.tasks@
    }

    /// The ids of completed tasks, in completion order.
    pub closed spec fn completed(&self) -> Seq<TaskId> {
        self.completed@
    }

    /// The id the next submitted task gets.
    pub closed spec fn next_id(&self) -> u64 {
        self.next_id
    }

    /// The tasks by id.
    pub open spec fn task_map(&self) -> Map<TaskId, EdgeTask> {
        keyed_map(self.tasks().map_values(|t: EdgeTask| (t.id, t)))
    }

    /// Ids strictly increase.
    pub open spec fn wf(&self) -> bool {
        forall|i: int, j: int| 0 <= i < j < self.tasks().len() ==> (#[trigger] self.tasks()[i]).id < (#[trigger] self.tasks()[j]).id
    }

    /// No tasks; the first submitted gets id 1.
    pub fn new() -> (q: TaskQueue)
        ensures
            q.wf(),
            q.tasks().len() == 0,
            q.completed().len() == 0,
            q.next_id() == 1,
    {
        TaskQueue { tasks: Vec::new(), completed: Vec::new(), next_id: 1 }
    }

    /// Files `task` under its id, replacing a task with the same id; returns the id.
    pub fn enqueue(&mut self, task: EdgeTask) -> (id: TaskId)
        requires
            old(self).wf(),
        ensures
            id == task.id,
            final(self).wf(),
            final(self).task_map() == old(self).task_map().insert(id, task),
            final(self).completed() == old(self).completed(),
            final(self).next_id() == old(self).next_id(),
    {
        let id = task.id;
        let ghost es = self.tasks().map_values(|t: EdgeTask| (t.id, t));
        proof {
            assert forall|a: int, b: int| 0 <= a < b < es.len() implies es[a].0 != es[b].0 by {
                assert(self.tasks()[a].id < self.tasks()[b].id);
            }
        }
        let mut i: usize = 0;
        while i < self.tasks.len() && self.tasks[i].id < id
            invariant
                i <= self.tasks@.len(),
                forall|j: int| 0 <= j < i ==> (#[trigger] self.tasks@[j]).id < id,
            decreases self.tasks@.len() - i,
        {
            i = i + 1;
        }
        let ghost tk = task;
        if i < self.tasks.len() && self.tasks[i].id == id {
            self.tasks.set(i, task);
            proof {
                lemma_keyed_map_update(es, i as int, tk);
                assert(self.tasks().map_values(|t: EdgeTask| (t.id, t)) =~= es.update(i as int, (es[i as int].0, tk)));
            }
        } else {
            proof {
                assert forall|j: int| 0 <= j < es.len() implies es[j].0 != id by {
                    if j >= i {
                        assert(self.tasks@[i as int].id > id);
                        if j > i {
                            assert(self.tasks()[i as int].id < self.tasks()[j].id);
                        }
                    }
                }
                lemma_keyed_map_insert_at(es, i as int, (id, tk));
            }
            self.tasks.insert(i, task);
            proof {
                assert(self.tasks().map_values(|t: EdgeTask| (t.id, t)) =~= es.insert(i as int, (id, tk)));
            }
        }
        id
    }

    /// Makes a queued task from `payload` at `tick` with the next id and files it.
    pub fn submit(&mut self, payload: Vec<u8>, kind: TaskKind, tick: u64) -> (id: TaskId)
        requires
            old(self).wf(),
            old(self).next_id() < u64::MAX,
            tick + base_ms(kind) * 10 <= u64::MAX,
        ensures
            id == old(self).next_id(),
            final(self).next_id() == old(self).next_id() + 1,
            final(self).wf(),
            final(self).task_map().dom() == old(self).task_map().dom().insert(id),
            final(self).task_map()[id].payload == payload && final(self).task_map()[id].kind == kind,
            final(self).task_map()[id].state is Queued,
            final(self).task_map()[id].deadline_ms == tick + base_ms(kind) * 10,
            forall|k: TaskId| k != id && old(self).task_map().contains_key(k) ==> #[trigger] final(self).task_map()[k] == old(self).task_map()[k],
            final(self).completed() == old(self).completed(),
    {
        let id = self.next_id;
        self.next_id = self.next_id + 1;
        let task = EdgeTask::new(id, payload, kind, tick);
        self.enqueue(task);
        id
    }

    /// The queued tasks, in id order.
    pub fn get_queued(&self) -> (v: Vec<&EdgeTask>)
        ensures
            v@.map_values(|r: &EdgeTask| *r) == self.tasks().filter(|t: EdgeTask| t.state is Queued),
    {
        let ghost f = |t: EdgeTask| t.state is Queued;
        let mut v: Vec<&EdgeTask> = Vec::new();
        let mut i: usize = 0;
        while i < self.tasks.len()
            invariant
                i <= self.tasks@.len(),
                f == (|t: EdgeTask| t.state is Queued),
                v@.map_values(|r: &EdgeTask| *r) == self.tasks@.subrange(0, i as int).filter(f),
            decreases self.tasks@.len() - i,
        {
            let t = &self.tasks[i];
            proof {
                assert(self.tasks@.subrange(0, i + 1) =~= self.tasks@.subrange(0, i as int).push(*t));
                self.tasks@.subrange(0, i as int).lemma_filter_push(*t, f);
            }
            let ghost before = v@.map_values(|r: &EdgeTask| *r);
            let q = match t.state {
                TaskState::Queued => true,
                _ => false,
            };
            if q {
                v.push(t);
                assert(v@.map_values(|r: &EdgeTask| *r) =~= before.push(*t));
            }
            i = i + 1;
        }
        assert(self.tasks@.subrange(0, i as int) =~= self.tasks@);
        v
    }

    /// One round over every task in id order: queued tasks start on the best
    /// node for their kind (`best`, by kind), running tasks that have run their
    /// time complete and are counted, and tasks still queued or running past
    /// their deadline time out and are counted as failed.
    pub fn process(&mut self, state: &mut EdgeState, current_tick: u64, best: &[Option<[u8; 32]>; 7])
        requires
            old(self).wf(),
            old(state).tasks_completed + old(self).tasks().len() <= u64::MAX,
            old(state).tasks_failed + old(self).tasks().len() <= u64::MAX,
            old(state).total_compute_ms + sum_by(old(self).tasks(), |t: EdgeTask| run_time(t, current_tick)) <= u64::MAX,
            old(state).bytes_offloaded + sum_by(old(self).tasks(), |t: EdgeTask| offloaded(t, current_tick)) <= u64::MAX,
        ensures
            final(self).wf(),
            final(self).tasks().len() == old(self).tasks().len(),
            forall|i: int| 0 <= i < old(self).tasks().len() ==>
                is_stepped(old(self).tasks()[i], #[trigger] final(self).tasks()[i], current_tick, *best),
            final(self).completed() == old(self).completed() + done_ids(old(self).tasks(), current_tick),
            final(self).next_id() == old(self).next_id(),
            final(state).tasks_completed == old(state).tasks_completed + done_ids(old(self).tasks(), current_tick).len(),
            final(state).tasks_failed == old(state).tasks_failed
                + old(self).tasks().filter(|t: EdgeTask| times_out(t, current_tick, *best)).len(),
            final(state).total_compute_ms == old(state).total_compute_ms + sum_by(old(self).tasks(), |t: EdgeTask| run_time(t, current_tick)),
            final(state).bytes_offloaded == old(state).bytes_offloaded + sum_by(old(self).tasks(), |t: EdgeTask| offloaded(t, current_tick)),
            final(state).initialized == old(state).initialized && final(state).active_nodes == old(state).active_nodes,
            final(state).tasks_submitted == old(state).tasks_submitted,
    {
        let ghost fr = |t: EdgeTask| run_time(t, current_tick);
        let ghost fo = |t: EdgeTask| offloaded(t, current_tick);
        let ghost ft = |t: EdgeTask| times_out(t, current_tick, *best);
        let mut rest: Vec<EdgeTask> = Vec::new();
        std::mem::swap(&mut rest, &mut self.tasks);
        let count = rest.len();
        let ghost orig = rest@;
        let ghost s0 = *state;
        let ghost c0 = self.completed@;
        let mut i: usize = 0;
        while rest.len() > 0
            invariant
                i + rest@.len() == orig.len(),
                orig.len() == count,
                rest@ == orig.subrange(i as int, orig.len() as int),
                self.tasks@.len() == i,
                forall|j: int| 0 <= j < i ==> is_stepped(orig[j], #[trigger] self.tasks@[j], current_tick, *best),
                self.completed@ == c0 + done_ids(orig.subrange(0, i as int), current_tick),
                self.next_id == old(self).next_id,
                fr == (|t: EdgeTask| run_time(t, current_tick)),
                fo == (|t: EdgeTask| offloaded(t, current_tick)),
                ft == (|t: EdgeTask| times_out(t, current_tick, *best)),
                state.tasks_completed == s0.tasks_completed + done_ids(orig.subrange(0, i as int), current_tick).len(),
                state.tasks_failed == s0.tasks_failed + orig.subrange(0, i as int).filter(ft).len(),
                state.total_compute_ms == s0.total_compute_ms + sum_by(orig.subrange(0, i as int), fr),
                state.bytes_offloaded == s0.bytes_offloaded + sum_by(orig.subrange(0, i as int), fo),
                state.initialized == s0.initialized && state.active_nodes == s0.active_nodes,
                state.tasks_submitted == s0.tasks_submitted,
                s0.tasks_completed + orig.len() <= u64::MAX,
                s0.tasks_failed + orig.len() <= u64::MAX,
                s0.total_compute_ms + sum_by(orig, fr) <= u64::MAX,
                s0.bytes_offloaded + sum_by(orig, fo) <= u64::MAX,
            decreases rest@.len(),
        {
            let t = rest.remove(0);
            let ghost tg = t;
            proof {
                assert(orig[i as int] == tg);
                assert(orig.subrange(0, i + 1).drop_last() =~= orig.subrange(0, i as int));
                assert(orig.subrange(0, i + 1).last() == tg);
                orig.subrange(0, i as int).lemma_filter_push(tg, ft);
                assert(orig.subrange(0, i + 1) =~= orig.subrange(0, i as int).push(tg));
                lemma_sum_by_prefix(orig, fr, i + 1, orig.len() as int);
                lemma_sum_by_prefix(orig, fo, i + 1, orig.len() as int);
                assert(orig.subrange(0, orig.len() as int) =~= orig);
                lemma_done_ids_len(orig.subrange(0, i + 1), current_tick);
            }
            let duration: u64 = match &t.state {
                TaskState::Running { started_at, .. } => current_tick.saturating_sub(*started_at),
                _ => 0,
            };
            let size = t.payload.len() as u64;
            let id = t.id;
            let (n, done, out) = step_task(t, current_tick, best);
            if done {
                self.completed.push(id);
                state.tasks_completed = state.tasks_completed + 1;
                state.total_compute_ms = state.total_compute_ms + duration;
                state.bytes_offloaded = state.bytes_offloaded + size;
            }
            if out {
                state.tasks_failed = state.tasks_failed + 1;
            }
            self.tasks.push(n);
            i = i + 1;
            proof {
                assert(rest@ =~= orig.subrange(i as int, orig.len() as int));
            }
        }
        proof {
            assert(orig.subrange(0, i as int) =~= orig);
            assert forall|a: int, b: int| 0 <= a < b < self.tasks().len() implies
                (#[trigger] self.tasks()[a]).id < (#[trigger] self.tasks()[b]).id by {
                assert(orig[a].id < orig[b].id);
            }
        }
    }

    /// Counts by state: queued, running, completed (ever), failed or timed out, all.
    pub fn stats(&self) -> (s: TaskStats)
        ensures
            s.queued == self.tasks().filter(|t: EdgeTask| t.state is Queued).len(),
            s.running == self.tasks().filter(|t: EdgeTask| t.state is Running).len(),
            s.completed == self.completed().len(),
            s.failed == self.tasks().filter(|t: EdgeTask| t.state is Failed || t.state is TimedOut).len(),
            s.total == self.tasks().len(),
    {
        let ghost fq = |t: EdgeTask| t.state is Queued;
        let ghost fr = |t: EdgeTask| t.state is Running;
        let ghost ff = |t: EdgeTask| t.state is Failed || t.state is TimedOut;
        let mut q: usize = 0;
        let mut r: usize = 0;
        let mut f: usize = 0;
        let mut i: usize = 0;
        while i < self.tasks.len()
            invariant
                i <= self.tasks@.len(),
                fq == (|t: EdgeTask| t.state is Queued),
                fr == (|t: EdgeTask| t.state is Running),
                ff == (|t: EdgeTask| t.state is Failed || t.state is TimedOut),
                q == self.tasks@.subrange(0, i as int).filter(fq).len(),
                r == self.tasks@.subrange(0, i as int).filter(fr).len(),
                f == self.tasks@.subrange(0, i as int).filter(ff).len(),
                q <= i && r <= i && f <= i,
            decreases self.tasks@.len() - i,
        {
            let t = &self.tasks[i];
            proof {
                assert(self.tasks@.subrange(0, i + 1) =~= self.tasks@.subrange(0, i as int).push(*t));
                self.tasks@.subrange(0, i as int).lemma_filter_push(*t, fq);
                self.tasks@.subrange(0, i as int).lemma_filter_push(*t, fr);
                self.tasks@.subrange(0, i as int).lemma_filter_push(*t, ff);
            }
            match t.state {
                TaskState::Queued => { q = q + 1; },
                TaskState::Running { .. } => { r = r + 1; },
                TaskState::Failed { .. } => { f = f + 1; },
                TaskState::TimedOut => { f = f + 1; },
                _ => {},
            }
            i = i + 1;
        }
        assert(self.tasks@.subrange(0, i as int) =~= self.tasks@);
        TaskStats { queued: q, running: r, completed: self.completed.len(), failed: f, total: self.tasks.len() }
    }
}

/// The ids completing in a round are at most the tasks.
pub proof fn lemma_done_ids_len(s: Seq<EdgeTask>, tick: u64)
    ensures
        done_ids(s, tick).len() <= s.len(),
    decreases s.len(),
{
    if s.len() > 0 {
        lemma_done_ids_len(s.drop_last(), tick);
    }
}

/// Counts of tasks by state.
#[derive(Clone, Copy, Debug)]
pub struct TaskStats {
    pub queued: usize,
    pub running: usize,
    pub completed: usize,
    pub failed: usize,
    pub total: usize,
}

/// How the balancer picks nodes.
#[derive(Clone, Copy, PartialEq, Eq, Structural, Debug)]
pub enum BalanceStrategy {
    LeastLoaded,
    BestFit,
    RoundRobin,
    LowestLatency,
    LocalFirst,
}

/// The balancer's strategy and how many rebalancing rounds it has made.
#[derive(Clone, Copy, Debug)]
pub struct LoadBalancer {
    pub strategy: BalanceStrategy,
    pub decisions: u64,
}

impl LoadBalancer {
    /// Best-fit, no decisions yet.
    pub fn new() -> (b: LoadBalancer)
        ensures
            b.strategy == BalanceStrategy::BestFit,
            b.decisions == 0,
    {
        LoadBalancer { strategy: BalanceStrategy::BestFit, decisions: 0 }
    }

    /// Counts a rebalancing round.
    pub fn rebalance(&mut self)
        requires
            old(self).decisions < u64::MAX,
        ensures
            final(self).decisions == old(self).decisions + 1,
            final(self).strategy == old(self).strategy,
    {
        self.decisions = self.decisions + 1;
    }
}

/// Counts a rebalancing round.
pub fn rebalance(b: &mut LoadBalancer)
    requires
        old(b).decisions < u64::MAX,
    ensures
        final(b).decisions == old(b).decisions + 1,
        final(b).strategy == old(b).strategy,
{
    b.rebalance();
}

/// Changes the strategy.
pub fn set_strategy(b: &mut LoadBalancer, st: BalanceStrategy)
    ensures
        final(b).strategy == st,
        final(b).decisions == old(b).decisions,
{
    b.strategy = st;
}

/// The 32-bit wrapping sum of the bytes of `d`.
pub open spec fn byte_sum(d: Seq<u8>) -> u32
    decreases d.len(),
{
    if d.len() == 0 {
        0
    } else {
        let x = byte_sum(d.drop_last()) as int + d.last() as int;
        (if x > u32::MAX { x - 0x1_0000_0000 } else { x }) as u32
    }
}

/// What a node sends back for a task.
#[derive(Debug)]
pub struct TaskResult {
    pub task_id: TaskId,
    pub node_id: [u8; 32],
    pub data: Vec<u8>,
    pub duration_ms: u64,
    pub checksum: u32,
}

impl TaskResult {
    /// The 32-bit wrapping sum of the bytes.
    pub fn compute_checksum(data: &[u8]) -> (c: u32)
        ensures
            c == byte_sum(data@),
    {
        let mut acc: u32 = 0;
        let mut i: usize = 0;
        while i < data.len()
            invariant
                i <= data@.len(),
                acc == byte_sum(data@.subrange(0, i as int)),
            decreases data@.len() - i,
        {
            let b = data[i];
            assert(data@.subrange(0, i + 1).drop_last() =~= data@.subrange(0, i as int));
            if acc as u64 + b as u64 > 0xffff_ffff {
                acc = (acc as u64 + b as u64 - 0x1_0000_0000) as u32;
            } else {
                acc = acc + b as u32;
            }
            i = i + 1;
        }
        assert(data@.subrange(0, i as int) =~= data@);
        acc
    }

    /// A copy of the result.
    pub fn duplicate(&self) -> (r: TaskResult)
        ensures
            r.task_id == self.task_id && r.node_id == self.node_id && r.data@ == self.data@,
            r.duration_ms == self.duration_ms && r.checksum == self.checksum,
    {
        let mut data: Vec<u8> = Vec::new();
        crate::util::push_all(&mut data, self.data.as_slice());
        TaskResult { task_id: self.task_id, node_id: self.node_id, data, duration_ms: self.duration_ms, checksum: self.checksum }
    }
}

/// The results received, ordered by task id, and the bytes they carried.
pub struct ResultCollector {
    results: Vec<TaskResult>,
    total_bytes_received: u64,
}

impl ResultCollector {
    /// The payload bytes received so far.
    pub closed spec fn total_received(&self) -> u64 {
        self.total_bytes_received
    }

    /// The payload bytes received so far.
    pub fn total_bytes_received(&self) -> (n: u64)
        ensures
            n == self.total_received(),
    {
        self.total_bytes_received
    }

    /// The results, in task-id order.
    pub closed spec fn results(&self) -> Seq<TaskResult> {
        self.results@
    }

    /// Results by task id.
    pub open spec fn result_map(&self) -> Map<TaskId, TaskResult> {
        keyed_map(self.results().map_values(|r: TaskResult| (r.task_id, r)))
    }

    /// Task ids strictly increase.
    pub open spec fn wf(&self) -> bool {
        forall|i: int, j: int| 0 <= i < j < self.results().len() ==> (#[trigger] self.results()[i]).task_id < (#[trigger] self.results()[j]).task_id
    }

    /// No results.
    pub fn new() -> (c: ResultCollector)
        ensures
            c.wf(),
            c.result_map() == Map::<TaskId, TaskResult>::empty(),
            c.total_received() == 0,
    {
        let c = ResultCollector { results: Vec::new(), total_bytes_received: 0 };
        assert(c.results().map_values(|r: TaskResult| (r.task_id, r)) =~= Seq::<(TaskId, TaskResult)>::empty());
        c
    }

    /// Files `result` under its task id, replacing an earlier one, and counts its bytes.
    pub fn collect(&mut self, result: TaskResult)
        requires
            old(self).wf(),
            old(self).total_received() + result.data@.len() <= u64::MAX,
        ensures
            final(self).wf(),
            final(self).total_received() == old(self).total_received() + result.data@.len(),
            final(self).result_map() == old(self).result_map().insert(result.task_id, result),
    {
        let added = result.data.len() as u64;
        let id = result.task_id;
        let ghost es = self.results().map_values(|r: TaskResult| (r.task_id, r));
        proof {
            assert forall|a: int, b: int| 0 <= a < b < es.len() implies es[a].0 != es[b].0 by {
                assert(self.results()[a].task_id < self.results()[b].task_id);
            }
        }
        let mut i: usize = 0;
        while i < self.results.len() && self.results[i].task_id < id
            invariant
                i <= self.results@.len(),
                forall|j: int| 0 <= j < i ==> (#[trigger] self.results@[j]).task_id < id,
            decreases self.results@.len() - i,
        {
            i = i + 1;
        }
        let ghost rg = result;
        if i < self.results.len() && self.results[i].task_id == id {
            self.results.set(i, result);
            proof {
                lemma_keyed_map_update(es, i as int, rg);
                assert(self.results().map_values(|r: TaskResult| (r.task_id, r)) =~= es.update(i as int, (es[i as int].0, rg)));
            }
        } else {
            proof {
                assert forall|j: int| 0 <= j < es.len() implies es[j].0 != id by {
                    if j >= i {
                        assert(self.results@[i as int].task_id > id);
                        if j > i {
                            assert(self.results()[i as int].task_id < self.results()[j].task_id);
                        }
                    }
                }
                lemma_keyed_map_insert_at(es, i as int, (id, rg));
            }
            self.results.insert(i, result);
            proof {
                assert(self.results().map_values(|r: TaskResult| (r.task_id, r)) =~= es.insert(i as int, (id, rg)));
            }
        }
        self.total_bytes_received = self.total_bytes_received + added;
    }

    /// The result of `task_id`, if any.
    pub fn get(&self, task_id: TaskId) -> (r: Option<&TaskResult>)
        requires
            self.wf(),
        ensures
            match r {
                Some(x) => self.result_map().contains_key(task_id) && *x == self.result_map()[task_id],
                None => !self.result_map().contains_key(task_id),
            },
    {
        let ghost es = self.results().map_values(|r: TaskResult| (r.task_id, r));
        proof {
            assert forall|a: int, b: int| 0 <= a < b < es.len() implies es[a].0 != es[b].0 by {
                assert(self.results()[a].task_id < self.results()[b].task_id);
            }
        }
        let mut i: usize = 0;
        while i < self.results.len()
            invariant
                i <= self.results@.len(),
                es == self.results().map_values(|r: TaskResult| (r.task_id, r)),
                keys_unique(es),
                forall|j: int| 0 <= j < i ==> (#[trigger] es[j]).0 != task_id,
            decreases self.results@.len() - i,
        {
            if self.results[i].task_id == task_id {
                proof {
                    lemma_keyed_map_get(es, i as int);
                }
                return Some(&self.results[i]);
            }
            i = i + 1;
        }
        proof {
            lemma_keyed_map_absent(es, task_id);
        }
        None
    }
}

/// Files a result.
pub fn collect(c: &mut ResultCollector, result: TaskResult)
    requires
        old(c).wf(),
        old(c).total_received() + result.data@.len() <= u64::MAX,
    ensures
        final(c).wf(),
        final(c).total_received() == old(c).total_received() + result.data@.len(),
        final(c).result_map() == old(c).result_map().insert(result.task_id, result),
{
    c.collect(result);
}

/// A copy of the result of `task_id`, if any.
pub fn get_result(c: &ResultCollector, task_id: TaskId) -> (r: Option<TaskResult>)
    requires
        c.wf(),
    ensures
        match r {
            Some(x) => c.result_map().contains_key(task_id) && x.task_id == c.result_map()[task_id].task_id
                && x.data@ == c.result_map()[task_id].data@ && x.checksum == c.result_map()[task_id].checksum
                && x.node_id == c.result_map()[task_id].node_id && x.duration_ms == c.result_map()[task_id].duration_ms,
            None => !c.result_map().contains_key(task_id),
        },
{
    match c.get(task_id) {
        Some(x) => Some(x.duplicate()),
        None => None,
    }
}

/// The messages edge nodes exchange.
#[derive(Debug)]
pub enum EdgeMessage {
    Announce { profile_hash: u32 },
    TaskSubmit { task_id: TaskId, kind_id: u8, payload_size: u32 },
    TaskAccept { task_id: TaskId },
    TaskReject { task_id: TaskId, reason: String },
    TaskResult { task_id: TaskId, result_size: u32, checksum: u32 },
    Heartbeat { load_pct: u8, tasks_active: u32 },
}

/// The wire form of a message: an announcement is 0x01 and the profile hash,
/// a heartbeat 0x07, the load and the active task count (integers little
/// endian); every other message is the single byte 0xFF.
pub open spec fn message_bytes(m: EdgeMessage) -> Seq<u8> {
    match m {
        EdgeMessage::Announce { profile_hash } => seq![0x01u8] + le_bytes(profile_hash as u64, 4),
        EdgeMessage::Heartbeat { load_pct, tasks_active } => seq![0x07u8, load_pct] + le_bytes(tasks_active as u64, 4),
        _ => seq![0xFFu8],
    }
}

/// The wire form of a message.
pub fn serialize(msg: &EdgeMessage) -> (b: Vec<u8>)
    ensures
        b@ == message_bytes(*msg),
{
    let mut buf: Vec<u8> = Vec::new();
    match msg {
        EdgeMessage::Announce { profile_hash } => {
            buf.push(0x01);
            push_le(&mut buf, *profile_hash as u64, 4);
            assert(buf@ =~= message_bytes(*msg));
        },
        EdgeMessage::Heartbeat { load_pct, tasks_active } => {
            buf.push(0x07);
            buf.push(*load_pct);
            push_le(&mut buf, *tasks_active as u64, 4);
            assert(buf@ =~= message_bytes(*msg));
        },
        _ => {
            buf.push(0xFF);
            assert(buf@ =~= message_bytes(*msg));
        },
    }
    buf
}

/// Marks the subsystem initialised with `active_nodes` nodes available.
pub fn init(state: &mut EdgeState, active_nodes: usize)
    ensures
        *final(state) == (EdgeState { initialized: true, active_nodes, ..*old(state) }),
{
    state.initialized = true;
    state.active_nodes = active_nodes;
}

/// Submits a task (at tick 0) and counts it.
pub fn submit_task(queue: &mut TaskQueue, state: &mut EdgeState, payload: Vec<u8>, kind: TaskKind) -> (id: TaskId)
    requires
        old(queue).wf(),
        old(queue).next_id() < u64::MAX,
        old(state).tasks_submitted < u64::MAX,
    ensures
        id == old(queue).next_id(),
        final(queue).wf(),
        final(queue).task_map().dom() == old(queue).task_map().dom().insert(id),
        final(queue).task_map()[id].payload == payload && final(queue).task_map()[id].kind == kind,
        final(queue).task_map()[id].state is Queued,
        final(queue).task_map()[id].deadline_ms == base_ms(kind) * 10,
        *final(state) == (EdgeState { tasks_submitted: (old(state).tasks_submitted + 1) as u64, ..*old(state) }),
{
    let id = queue.submit(payload, kind, 0);
    state.tasks_submitted = state.tasks_submitted + 1;
    id
}

/// Every 500 ticks: one round of the task queue and a rebalancing round.
pub fn tick(queue: &mut TaskQueue, state: &mut EdgeState, balancer: &mut LoadBalancer, current_tick: u64,
    best: &[Option<[u8; 32]>; 7])
    requires
        old(queue).wf(),
        old(balancer).decisions < u64::MAX,
        old(state).tasks_completed + old(queue).tasks().len() <= u64::MAX,
        old(state).tasks_failed + old(queue).tasks().len() <= u64::MAX,
        old(state).total_compute_ms + sum_by(old(queue).tasks(), |t: EdgeTask| run_time(t, current_tick)) <= u64::MAX,
        old(state).bytes_offloaded + sum_by(old(queue).tasks(), |t: EdgeTask| offloaded(t, current_tick)) <= u64::MAX,
    ensures
        final(queue).wf(),
        current_tick % 500 != 0 ==> *final(queue) == *old(queue) && *final(state) == *old(state)
            && *final(balancer) == *old(balancer),
        current_tick % 500 == 0 ==> {
            &&& forall|i: int| 0 <= i < old(queue).tasks().len() ==>
                is_stepped(old(queue).tasks()[i], #[trigger] final(queue).tasks()[i], current_tick, *best)
            &&& final(queue).tasks().len() == old(queue).tasks().len()
            &&& final(queue).completed() == old(queue).completed() + done_ids(old(queue).tasks(), current_tick)
            &&& final(state).tasks_completed == old(state).tasks_completed + done_ids(old(queue).tasks(), current_tick).len()
            &&& final(balancer).decisions == old(balancer).decisions + 1
        },
{
    if current_tick % 500 != 0 {
        return;
    }
    queue.process(state, current_tick, best);
    balancer.rebalance();
}

/// Totals of the edge subsystem, with tasks completed per second of compute.
#[derive(Clone, Copy, Debug)]
pub struct EdgeStats {
    pub active_nodes: usize,
    pub tasks_submitted: u64,
    pub tasks_completed: u64,
    pub tasks_failed: u64,
    pub bytes_offloaded: u64,
    pub throughput_tasks_per_sec: u64,
}

/// The subsystem's totals; `active_nodes` is the current count of available nodes.
pub fn get_stats(state: &EdgeState, active_nodes: usize) -> (s: EdgeStats)
    requires
        state.tasks_completed * 1000 <= u64::MAX,
    ensures
        s.active_nodes == active_nodes,
        s.tasks_submitted == state.tasks_submitted,
        s.tasks_completed == state.tasks_completed,
        s.tasks_failed == state.tasks_failed,
        s.bytes_offloaded == state.bytes_offloaded,
        s.throughput_tasks_per_sec == (if state.total_compute_ms > 0 {
            (state.tasks_completed * 1000 / state.total_compute_ms as int) as u64
        } else {
            0
        }),
{
    EdgeStats {
        active_nodes,
        tasks_submitted: state.tasks_submitted,
        tasks_completed: state.tasks_completed,
        tasks_failed: state.tasks_failed,
        bytes_offloaded: state.bytes_offloaded,
        throughput_tasks_per_sec: if state.total_compute_ms > 0 {
            state.tasks_completed * 1000 / state.total_compute_ms
        } else {
            0
        },
    }
}

/// Where an edge node is.
#[derive(Clone, Copy, PartialEq, Eq, Structural, Debug)]
pub enum EdgeNodeState {
    Discovered,
    Online,
    Busy,
    Unavailable,
    Offline,
}

/// The instruction set of an edge node.
#[derive(Clone, Copy, PartialEq, Eq, Structural, Debug)]
pub enum NodeArch {
    X86_64,
    AArch64,
    RiscV64,
    WASM,
}

/// Whether a node in `state` running `tasks_active` tasks on `cpu_cores` cores
/// takes new work: it is online or busy and runs fewer than two tasks a core.
pub fn node_available(state: EdgeNodeState, tasks_active: u32, cpu_cores: u8) -> (b: bool)
    ensures
        b == ((state == EdgeNodeState::Online || state == EdgeNodeState::Busy) && tasks_active < cpu_cores * 2),
{
    (state == EdgeNodeState::Online || state == EdgeNodeState::Busy) && tasks_active < cpu_cores as u32 * 2
}

/// How many of the nodes are online or busy.
pub fn count_active(states: &[EdgeNodeState]) -> (n: usize)
    ensures
        n == states@.filter(|s: EdgeNodeState| s == EdgeNodeState::Online || s == EdgeNodeState::Busy).len(),
{
    let ghost f = |s: EdgeNodeState| s == EdgeNodeState::Online || s == EdgeNodeState::Busy;
    let mut n: usize = 0;
    let mut i: usize = 0;
    while i < states.len()
        invariant
            i <= states@.len(),
            f == (|s: EdgeNodeState| s == EdgeNodeState::Online || s == EdgeNodeState::Busy),
            n == states@.subrange(0, i as int).filter(f).len(),
            n <= i,
        decreases states@.len() - i,
    {
        proof {
            assert(states@.subrange(0, i + 1) =~= states@.subrange(0, i as int).push(states@[i as int]));
            states@.subrange(0, i as int).lemma_filter_push(states@[i as int], f);
        }
        if states[i] == EdgeNodeState::Online || states[i] == EdgeNodeState::Busy {
            n = n + 1;
        }
        i = i + 1;
    }
    assert(states@.subrange(0, i as int) =~= states@);
    n
}

/// Makes a queued task at tick 0 and files it; returns its id.
pub fn submit(queue: &mut TaskQueue, payload: Vec<u8>, kind: TaskKind) -> (id: TaskId)
    requires
        old(queue).wf(),
        old(queue).next_id() < u64::MAX,
    ensures
        id == old(queue).next_id(),
        final(queue).wf(),
        final(queue).task_map().dom() == old(queue).task_map().dom().insert(id),
        final(queue).task_map()[id].payload == payload && final(queue).task_map()[id].kind == kind,
        final(queue).task_map()[id].state is Queued,
{
    queue.submit(payload, kind, 0)
}

/// One round of the task queue.
pub fn process_queue(queue: &mut TaskQueue, state: &mut EdgeState, current_tick: u64, best: &[Option<[u8; 32]>; 7])
    requires
        old(queue).wf(),
        old(state).tasks_completed + old(queue).tasks().len() <= u64::MAX,
        old(state).tasks_failed + old(queue).tasks().len() <= u64::MAX,
        old(state).total_compute_ms + sum_by(old(queue).tasks(), |t: EdgeTask| run_time(t, current_tick)) <= u64::MAX,
        old(state).bytes_offloaded + sum_by(old(queue).tasks(), |t: EdgeTask| offloaded(t, current_tick)) <= u64::MAX,
    ensures
        final(queue).wf(),
        final(queue).tasks().len() == old(queue).tasks().len(),
        forall|i: int| 0 <= i < old(queue).tasks().len() ==>
            is_stepped(old(queue).tasks()[i], #[trigger] final(queue).tasks()[i], current_tick, *best),
        final(queue).completed() == old(queue).completed() + done_ids(old(queue).tasks(), current_tick),
        final(state).tasks_completed == old(state).tasks_completed + done_ids(old(queue).tasks(), current_tick).len(),
        final(state).tasks_failed == old(state).tasks_failed
            + old(queue).tasks().filter(|t: EdgeTask| times_out(t, current_tick, *best)).len(),
{
    queue.process(state, current_tick, best);
}

} // verus!
