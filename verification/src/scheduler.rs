//! The preemptive round-robin scheduler with five priority queues.
use vstd::prelude::*;
use vstd::string::*;

verus! {

pub type Pid = u64;

/// Default quantum in timer ticks.
pub const DEFAULT_QUANTUM: u32 = 10;
/// Quantum of high-priority tasks.
pub const HIGH_PRIORITY_QUANTUM: u32 = 5;
/// Quantum of critical tasks.
pub const MIN_QUANTUM: u32 = 2;
/// Stack size of a kernel task.
pub const STACK_SIZE: usize = 65536;

/// Why a process is blocked.
#[derive(Debug, Clone, Copy, PartialEq, Eq, Structural)]
pub enum BlockReason {
    WaitingIO,
    WaitingLock,
    WaitingSignal,
    WaitingChild(Pid),
}

/// The state of a process.
#[derive(Debug, Clone, Copy, PartialEq, Eq, Structural)]
pub enum ProcessState {
    Ready,
    Running,
    Blocked { reason: BlockReason },
    Sleeping { wake_at_tick: u64 },
    Dead { exit_code: i32 },
    New,
}

/// Scheduling priority, most urgent first.
#[derive(Debug, Clone, Copy, PartialEq, Eq, Structural)]
pub enum Priority {
    Critical,
    High,
    Normal,
    Low,
    Idle,
}

/// The quantum of a priority.
pub open spec fn quantum_of(p: Priority) -> u32 {
    match p {
        Priority::Critical => MIN_QUANTUM,
        Priority::High => HIGH_PRIORITY_QUANTUM,
        Priority::Normal => DEFAULT_QUANTUM,
        Priority::Low => (DEFAULT_QUANTUM * 2) as u32,
        Priority::Idle => u32::MAX,
    }
}

/// The queue a priority uses, 0 for the most urgent.
pub open spec fn prio_index(p: Priority) -> int {
    match p {
        Priority::Critical => 0,
        Priority::High => 1,
        Priority::Normal => 2,
        Priority::Low => 3,
        Priority::Idle => 4,
    }
}

impl Priority {
    /// The quantum of this priority.
    pub fn quantum(&self) -> (q: u32)
        ensures
            q == quantum_of(*self),
    {
        match self {
            Priority::Critical => MIN_QUANTUM,
            Priority::High => HIGH_PRIORITY_QUANTUM,
            Priority::Normal => DEFAULT_QUANTUM,
            Priority::Low => DEFAULT_QUANTUM * 2,
            Priority::Idle => u32::MAX,
        }
    }

    fn index(&self) -> (i: usize)
        ensures
            i == prio_index(*self),
    {
        match self {
            Priority::Critical => 0,
            Priority::High => 1,
            Priority::Normal => 2,
            Priority::Low => 3,
            Priority::Idle => 4,
        }
    }
}

/// Saved registers of a task. Only `kernel_rsp` is used by the context switch; the others
/// are an informative snapshot.
#[derive(Debug, Clone, Copy)]
pub struct CpuContext {
    pub r15: u64,
    pub r14: u64,
    pub r13: u64,
    pub r12: u64,
    pub r11: u64,
    pub r10: u64,
    pub r9: u64,
    pub r8: u64,
    pub rbp: u64,
    pub rdi: u64,
    pub rsi: u64,
    pub rdx: u64,
    pub rcx: u64,
    pub rbx: u64,
    pub rax: u64,
    pub rip: u64,
    pub cs: u64,
    pub rflags: u64,
    pub rsp: u64,
    pub ss: u64,
    pub kernel_rsp: u64,
}

impl CpuContext {
    /// The context of a new ring-0 task: entry point, stack top, kernel segments, IF set,
    /// and the stack pointer the context switch resumes from.
    pub fn new_kernel_task(entry_point: u64, stack_top: u64, kernel_rsp: u64) -> (c: CpuContext)
        ensures
            c.rip == entry_point && c.rsp == stack_top && c.cs == 0x08 && c.ss == 0x10,
            c.rflags == 0x200 && c.kernel_rsp == kernel_rsp,
            c.rax == 0 && c.rbx == 0 && c.rcx == 0 && c.rdx == 0 && c.rsi == 0 && c.rdi == 0 && c.rbp == 0,
    {
        CpuContext {
            r15: 0, r14: 0, r13: 0, r12: 0, r11: 0, r10: 0, r9: 0, r8: 0, rbp: 0, rdi: 0, rsi: 0,
            rdx: 0, rcx: 0, rbx: 0, rax: 0, rip: entry_point, cs: 0x08, rflags: 0x200,
            rsp: stack_top, ss: 0x10, kernel_rsp,
        }
    }
}

/// Usage counters of a process.
#[derive(Debug, Clone, Copy)]
pub struct ProcessStats {
    pub schedule_count: u64,
    pub preempt_count: u64,
    pub blocked_ticks: u64,
    pub max_continuous_ticks: u32,
    pub avg_cpu_usage: u8,
}

/// The process control block.
#[derive(Debug)]
pub struct ProcessControlBlock {
    pub pid: Pid,
    pub parent_pid: Pid,
    pub name: String,
    pub state: ProcessState,
    pub priority: Priority,
    pub context: CpuContext,
    pub cpu_ticks_total: u64,
    pub quantum_remaining: u32,
    pub created_at_tick: u64,
    pub stack: Vec<u8>,
    pub stats: ProcessStats,
}

impl ProcessControlBlock {
    /// A new kernel task: a zeroed 64 KiB stack, state `New`, the quantum of its priority.
    /// The stack address is machine-specific: the context's stack pointers are set from it
    /// by whoever places the task on the CPU.
    pub fn new_kernel_task(name: &str, entry: u64, priority: Priority, current_tick: u64, pid: Pid) -> (p: ProcessControlBlock)
        ensures
            p.pid == pid && p.parent_pid == 0 && p.name@ == name@ && p.state == ProcessState::New,
            p.priority == priority && p.context.rip == entry && p.cpu_ticks_total == 0,
            p.quantum_remaining == quantum_of(priority) && p.created_at_tick == current_tick,
            p.stack@.len() == STACK_SIZE,
            p.stats.schedule_count == 0 && p.stats.preempt_count == 0 && p.stats.blocked_ticks == 0,
    {
        let mut stack: Vec<u8> = Vec::new();
        let mut k: usize = 0;
        while k < STACK_SIZE
            invariant
                k <= STACK_SIZE,
                stack@.len() == k,
            decreases STACK_SIZE - k,
        {
            stack.push(0);
            k = k + 1;
        }
        ProcessControlBlock {
            pid,
            parent_pid: 0,
            name: String::from_str(name),
            state: ProcessState::New,
            priority,
            context: CpuContext::new_kernel_task(entry, 0, 0),
            cpu_ticks_total: 0,
            quantum_remaining: priority.quantum(),
            created_at_tick: current_tick,
            stack,
            stats: ProcessStats { schedule_count: 0, preempt_count: 0, blocked_ticks: 0, max_continuous_ticks: 0, avg_cpu_usage: 0 },
        }
    }

    /// Ready or New.
    pub fn is_runnable(&self) -> (b: bool)
        ensures
            b == (self.state == ProcessState::Ready || self.state == ProcessState::New),
    {
        match self.state {
            ProcessState::Ready | ProcessState::New => true,
            _ => false,
        }
    }

    /// Refills the quantum from the priority.
    pub fn reset_quantum(&mut self)
        ensures
            final(self).quantum_remaining == quantum_of(old(self).priority),
            final(self).pid == old(self).pid && final(self).state == old(self).state,
            final(self).priority == old(self).priority && final(self).cpu_ticks_total == old(self).cpu_ticks_total,
            final(self).stats == old(self).stats && final(self).name == old(self).name,
            final(self).created_at_tick == old(self).created_at_tick,
    {
        self.quantum_remaining = self.priority.quantum();
    }
}

/// Appending `pid` unless the queue holds it already.
pub open spec fn enqueue_spec(q: Seq<Pid>, pid: Pid) -> Seq<Pid> {
    if q.contains(pid) { q } else { q.push(pid) }
}

/// The five ready queues.
pub struct ReadyQueues {
    queues: Vec<Vec<Pid>>,
}

/// The index of the most urgent non-empty queue, 5 when all are empty.
pub open spec fn first_nonempty(qs: Seq<Seq<Pid>>) -> int {
    if qs[0].len() > 0 { 0 } else if qs[1].len() > 0 { 1 } else if qs[2].len() > 0 { 2 } else if qs[3].len() > 0 { 3 } else if qs[4].len() > 0 { 4 } else { 5 }
}

/// The sum of the queue lengths.
pub open spec fn total_len(qs: Seq<Seq<Pid>>) -> int {
    (qs[0].len() + qs[1].len() + qs[2].len() + qs[3].len() + qs[4].len()) as int
}

/// Whether `p` is more urgent than `q`: the priorities in order of urgency are
/// Critical, High, Normal, Low, Idle.
pub open spec fn more_urgent(p: Priority, q: Priority) -> bool {
    match p {
        Priority::Critical => q != Priority::Critical,
        Priority::High => q == Priority::Normal || q == Priority::Low || q == Priority::Idle,
        Priority::Normal => q == Priority::Low || q == Priority::Idle,
        Priority::Low => q == Priority::Idle,
        Priority::Idle => false,
    }
}

/// The queue served first is never that of a less urgent priority while a
/// more urgent priority has a pid waiting: a more urgent priority's queue
/// comes earlier, and the queue picked is the earliest non-empty one.
pub proof fn lemma_urgent_first(qs: Seq<Seq<Pid>>, p: Priority, q: Priority)
    requires
        qs.len() == 5,
        more_urgent(p, q),
        qs[prio_index(p)].len() > 0,
    ensures
        prio_index(p) < prio_index(q),
        first_nonempty(qs) <= prio_index(p),
        first_nonempty(qs) != prio_index(q),
{
}

/// Round robin within a priority: a pid put in a queue goes behind the pids
/// already waiting, which keep their order; a pid already waiting keeps its
/// place.
pub proof fn lemma_enqueue_behind(q: Seq<Pid>, pid: Pid)
    ensures
        enqueue_spec(q, pid).contains(pid),
        q.contains(pid) ==> enqueue_spec(q, pid) == q,
        !q.contains(pid) ==> {
            &&& enqueue_spec(q, pid).len() == q.len() + 1
            &&& enqueue_spec(q, pid).take(q.len() as int) == q
            &&& enqueue_spec(q, pid).last() == pid
        },
{
    if !q.contains(pid) {
        assert(q.push(pid).take(q.len() as int) =~= q);
        assert(q.push(pid)[q.len() as int] == pid);
    }
}

impl ReadyQueues {
    /// The queues, most urgent first.
    pub closed spec fn view(&self) -> Seq<Seq<Pid>> {
        self.queues@.map_values(|q: Vec<Pid>| q@)
    }

    /// Five queues, none holding a pid twice.
    pub closed spec fn wf(&self) -> bool {
        &&& self.queues@.len() == 5
        &&& forall|k: int| 0 <= k < 5 ==> self@[k].no_duplicates()
    }

    pub fn new() -> (r: ReadyQueues)
        ensures
            r.wf(),
            forall|k: int| 0 <= k < 5 ==> #[trigger] r@[k].len() == 0,
            r@.len() == 5,
    {
        let mut queues: Vec<Vec<Pid>> = Vec::new();
        let mut k: usize = 0;
        while k < 5
            invariant
                k <= 5,
                queues@.len() == k,
                forall|j: int| 0 <= j < k ==> queues@[j]@.len() == 0,
            decreases 5 - k,
        {
            queues.push(Vec::new());
            k = k + 1;
        }
        ReadyQueues { queues }
    }

    /// Appends `pid` to the queue of `priority` unless it is already there.
    pub fn enqueue(&mut self, pid: Pid, priority: Priority)
        requires
            old(self).wf(),
        ensures
            final(self).wf(),
            final(self)@ == old(self)@.update(prio_index(priority), enqueue_spec(old(self)@[prio_index(priority)], pid)),
    {
        let i = priority.index();
        let mut q = self.queues.remove(i);
        let mut found = false;
        let mut k: usize = 0;
        while k < q.len()
            invariant
                k <= q@.len(),
                found == q@.subrange(0, k as int).contains(pid),
            decreases q@.len() - k,
        {
            proof {
                let s = q@.subrange(0, k + 1);
                assert(s.drop_last() =~= q@.subrange(0, k as int));
                if q@[k as int] == pid {
                    assert(s[k as int] == pid);
                }
                if s.contains(pid) && !q@.subrange(0, k as int).contains(pid) {
                    let w = choose|w: int| 0 <= w < s.len() && s[w] == pid;
                    if w < k {
                        assert(q@.subrange(0, k as int)[w] == pid);
                    }
                }
            }
            if q[k] == pid {
                found = true;
            }
            k = k + 1;
        }
        assert(q@.subrange(0, q@.len() as int) =~= q@);
        let ghost oq = q@;
        assert(oq == old(self)@[i as int]);
        assert(oq.no_duplicates());
        if !found {
            q.push(pid);
            proof {
                assert forall|a: int, b: int| 0 <= a < b < q@.len() implies q@[a] != q@[b] by {
                    if b == q@.len() - 1 {
                        assert(oq[a] == q@[a]);
                    }
                }
            }
        }
        self.queues.insert(i, q);
        proof {
            assert(self.queues@.map_values(|q: Vec<Pid>| q@) =~= old(self)@.update(prio_index(priority), enqueue_spec(old(self)@[prio_index(priority)], pid)));
        }
    }

    /// Takes the front of the most urgent non-empty queue.
    pub fn dequeue(&mut self) -> (r: Option<Pid>)
        requires
            old(self).wf(),
        ensures
            final(self).wf(),
            first_nonempty(old(self)@) == 5 ==> r.is_none() && final(self)@ == old(self)@,
            first_nonempty(old(self)@) < 5 ==> {
                let i = first_nonempty(old(self)@);
                &&& r == Some(old(self)@[i][0])
                &&& final(self)@ == old(self)@.update(i, old(self)@[i].drop_first())
            },
    {
        let mut i: usize = 0;
        while i < 5
            invariant
                i <= 5,
                self.wf(),
                self@ == old(self)@,
                forall|j: int| 0 <= j < i ==> #[trigger] self@[j].len() == 0,
            decreases 5 - i,
        {
            if self.queues[i].len() > 0 {
                let mut q = self.queues.remove(i);
                let pid = q.remove(0);
                let ghost nq = q@;
                self.queues.insert(i, q);
                proof {
                    assert(nq =~= old(self)@[i as int].drop_first());
                    assert(self.queues@.map_values(|q: Vec<Pid>| q@) =~= old(self)@.update(i as int, old(self)@[i as int].drop_first()));
                    assert(first_nonempty(old(self)@) == i);
                }
                return Some(pid);
            }
            i = i + 1;
        }
        None
    }

    /// The number of queued pids.
    pub fn total(&self) -> (n: usize)
        requires
            self.wf(),
            total_len(self@) <= usize::MAX,
        ensures
            n == total_len(self@),
    {
        self.queues[0].len() + self.queues[1].len() + self.queues[2].len() + self.queues[3].len() + self.queues[4].len()
    }

    /// Whether queue 0 holds `pid`.
    fn critical_contains(&self, pid: Pid) -> (b: bool)
        requires
            self.wf(),
        ensures
            b == self@[0].contains(pid),
    {
        let q = &self.queues[0];
        assert(self@[0] == q@);
        let mut k: usize = 0;
        while k < q.len()
            invariant
                k <= q@.len(),
                self@[0] == q@,
                forall|j: int| 0 <= j < k ==> q@[j] != pid,
            decreases q@.len() - k,
        {
            if q[k] == pid {
                assert(q@[k as int] == pid);
                return true;
            }
            k = k + 1;
        }
        false
    }
}

/// Summary of the scheduler.
#[derive(Debug)]
pub struct SchedulerStats {
    pub total_processes: usize,
    pub running: usize,
    pub ready: usize,
    pub blocked: usize,
    pub sleeping: usize,
    pub dead: usize,
    pub context_switches: u64,
    pub current_tick: u64,
    pub current_pid: Option<Pid>,
    pub ready_in_queues: usize,
}

/// A line of the process listing.
#[derive(Debug)]
pub struct ProcessInfo {
    pub pid: Pid,
    pub name: String,
    pub state: String,
    pub priority: Priority,
    pub cpu_ticks: u64,
    pub schedule_count: u64,
}

/// The scheduler.
pub struct Scheduler {
    processes: Vec<ProcessControlBlock>,
    ready_queues: ReadyQueues,
    current_pid: Option<Pid>,
    tick: u64,
    context_switches: u64,
    initialized: bool,
    next_pid: u64,
}

/// The position of process `pid`.
pub open spec fn pindex(ps: Seq<ProcessControlBlock>, pid: Pid) -> Option<int> {
    if exists|i: int| 0 <= i < ps.len() && ps[i].pid == pid {
        Some(choose|i: int| 0 <= i < ps.len() && ps[i].pid == pid)
    } else {
        None
    }
}

/// The state after waking: sleepers whose time has come are Ready.
pub open spec fn woken(st: ProcessState, now: u64) -> ProcessState {
    match st {
        ProcessState::Sleeping { wake_at_tick } => if now >= wake_at_tick { ProcessState::Ready } else { st },
        _ => st,
    }
}

/// The queues after re-enqueuing every Ready process not in the critical queue of `crit`.
pub open spec fn requeue(qs: Seq<Seq<Pid>>, crit: Seq<Pid>, ps: Seq<ProcessControlBlock>) -> Seq<Seq<Pid>>
    decreases ps.len(),
{
    if ps.len() == 0 {
        qs
    } else {
        let q = requeue(qs, crit, ps.drop_last());
        let p = ps.last();
        if p.state == ProcessState::Ready && !crit.contains(p.pid) {
            q.update(prio_index(p.priority), enqueue_spec(q[prio_index(p.priority)], p.pid))
        } else {
            q
        }
    }
}

/// The number of processes satisfying a state test.
pub open spec fn count_state(ps: Seq<ProcessControlBlock>, f: spec_fn(ProcessState) -> bool) -> nat
    decreases ps.len(),
{
    if ps.len() == 0 { 0 } else { count_state(ps.drop_last(), f) + if f(ps.last().state) { 1nat } else { 0 } }
}

impl Scheduler {
    /// No per-process scheduling counter has reached its maximum.
    pub open spec fn counters_below_max(&self) -> bool {
        forall|i: int| 0 <= i < self@.len() ==> (#[trigger] self@[i]).stats.schedule_count < u64::MAX
            && self@[i].stats.preempt_count < u64::MAX && self@[i].stats.blocked_ticks < u64::MAX
    }

    /// Pids are unique and below `next_pid`; no process has used more CPU ticks than have
    /// passed; the queues are well formed.
    pub closed spec fn wf(&self) -> bool {
        &&& forall|i: int, j: int| 0 <= i < j < self.processes@.len() ==> self.processes@[i].pid != self.processes@[j].pid
        &&& forall|i: int| 0 <= i < self.processes@.len() ==> self.processes@[i].pid < self.next_pid
        &&& forall|i: int| 0 <= i < self.processes@.len() ==> self.processes@[i].cpu_ticks_total <= self.tick
        &&& self.ready_queues.wf()
        &&& self.next_pid >= 1
    }

    pub closed spec fn view(&self) -> Seq<ProcessControlBlock> {
        self.processes@
    }

    pub closed spec fn queues(&self) -> Seq<Seq<Pid>> {
        self.ready_queues@
    }

    pub closed spec fn current(&self) -> Option<Pid> {
        self.current_pid
    }

    pub closed spec fn now(&self) -> u64 {
        self.tick
    }

    pub closed spec fn switches(&self) -> u64 {
        self.context_switches
    }

    pub closed spec fn next_pid_spec(&self) -> u64 {
        self.next_pid
    }

    pub closed spec fn is_initialized(&self) -> bool {
        self.initialized
    }

    /// The process with pid `pid`.
    pub open spec fn proc_of(&self, pid: Pid) -> Option<ProcessControlBlock> {
        match pindex(self@, pid) {
            Some(i) => Some(self@[i]),
            None => None,
        }
    }

    /// The current tick.
    pub(crate) fn current_tick(&self) -> (t: u64)
        ensures
            t == self.now(),
    {
        self.tick
    }

    /// An empty scheduler: no processes, tick 0, pids from 1.
    pub fn new() -> (s: Scheduler)
        ensures
            s.wf(),
            s@.len() == 0,
            s.current().is_none(),
            s.now() == 0 && s.switches() == 0 && s.next_pid_spec() == 1 && !s.is_initialized(),
            forall|k: int| 0 <= k < 5 ==> #[trigger] s.queues()[k].len() == 0,
    {
        Scheduler {
            processes: Vec::new(),
            ready_queues: ReadyQueues::new(),
            current_pid: None,
            tick: 0,
            context_switches: 0,
            initialized: false,
            next_pid: 1,
        }
    }

    fn alloc_pid(&mut self) -> (pid: Pid)
        requires
            old(self).wf(),
            old(self).next_pid_spec() < u64::MAX,
        ensures
            final(self).wf(),
            pid == old(self).next_pid_spec(),
            final(self).next_pid_spec() == pid + 1,
            final(self)@ == old(self)@,
            final(self).queues() == old(self).queues(),
            final(self).current() == old(self).current(),
            final(self).now() == old(self).now(),
            final(self).switches() == old(self).switches(),
            final(self).is_initialized() == old(self).is_initialized(),
    {
        let pid = self.next_pid;
        self.next_pid = self.next_pid + 1;
        pid
    }

    fn find(&self, pid: Pid) -> (r: Option<usize>)
        requires
            self.wf(),
        ensures
            match r {
                Some(i) => i < self@.len() && self@[i as int].pid == pid && pindex(self@, pid) == Some(i as int),
                None => pindex(self@, pid).is_none(),
            },
    {
        let mut i: usize = 0;
        while i < self.processes.len()
            invariant
                self.wf(),
                i <= self.processes@.len(),
                forall|j: int| 0 <= j < i ==> self.processes@[j].pid != pid,
            decreases self.processes@.len() - i,
        {
            if self.processes[i].pid == pid {
                proof {
                    let k = choose|k: int| 0 <= k < self@.len() && self@[k].pid == pid;
                    assert(self@[k].pid == self@[i as int].pid);
                }
                return Some(i);
            }
            i = i + 1;
        }
        None
    }

    /// Creates the idle task and queues it.
    pub fn init(&mut self, idle_entry: u64)
        requires
            old(self).wf(),
            old(self).next_pid_spec() < u64::MAX,
        ensures
            final(self).wf(),
            final(self).is_initialized(),
            final(self)@.len() == old(self)@.len() + 1,
            final(self)@.last().pid == old(self).next_pid_spec(),
            final(self)@.last().priority == Priority::Idle,
            final(self)@.last().state == ProcessState::New,
            final(self).queues() == old(self).queues().update(4, enqueue_spec(old(self).queues()[4], old(self).next_pid_spec())),
    {
        let pid = self.alloc_pid();
        let idle = ProcessControlBlock::new_kernel_task("idle", idle_entry, Priority::Idle, self.tick, pid);
        self.processes.push(idle);
        self.ready_queues.enqueue(pid, Priority::Idle);
        self.initialized = true;
    }

    /// Creates a task, queues it and marks it Ready.
    pub fn spawn(&mut self, name: &str, entry: u64, priority: Priority) -> (pid: Pid)
        requires
            old(self).wf(),
            old(self).next_pid_spec() < u64::MAX,
        ensures
            final(self).wf(),
            pid == old(self).next_pid_spec(),
            final(self)@.len() == old(self)@.len() + 1,
            final(self)@.subrange(0, old(self)@.len() as int) == old(self)@,
            final(self)@.last().pid == pid && final(self)@.last().name@ == name@,
            final(self)@.last().priority == priority && final(self)@.last().state == ProcessState::Ready,
            final(self)@.last().quantum_remaining == quantum_of(priority),
            final(self).queues() == old(self).queues().update(prio_index(priority), enqueue_spec(old(self).queues()[prio_index(priority)], pid)),
            final(self).current() == old(self).current(),
            final(self).now() == old(self).now(),
    {
        let pid = self.alloc_pid();
        let mut pcb = ProcessControlBlock::new_kernel_task(name, entry, priority, self.tick, pid);
        pcb.state = ProcessState::Ready;
        self.processes.push(pcb);
        self.ready_queues.enqueue(pid, priority);
        assert(self.processes@.subrange(0, old(self)@.len() as int) =~= old(self)@);
        pid
    }

    fn wake_sleeping_processes(&mut self)
        requires
            old(self).wf(),
        ensures
            final(self).wf(),
            final(self)@.len() == old(self)@.len(),
            forall|i: int| 0 <= i < old(self)@.len() ==> {
                let o = #[trigger] old(self)@[i];
                let n = final(self)@[i];
                &&& n.state == woken(o.state, old(self).now())
                &&& n.pid == o.pid && n.priority == o.priority && n.cpu_ticks_total == o.cpu_ticks_total
                &&& n.quantum_remaining == o.quantum_remaining && n.stats == o.stats
                &&& n.name == o.name && n.created_at_tick == o.created_at_tick
            },
            final(self).queues() == requeue(old(self).queues(), old(self).queues()[0], final(self)@),
            final(self).current() == old(self).current(),
            final(self).now() == old(self).now(),
            final(self).switches() == old(self).switches(),
            final(self).next_pid_spec() == old(self).next_pid_spec(),
            final(self).is_initialized() == old(self).is_initialized(),
    {
        let now = self.tick;
        let mut i: usize = 0;
        while i < self.processes.len()
            invariant
                self.wf(),
                i <= self.processes@.len(),
                now == self.tick,
                self.processes@.len() == old(self).processes@.len(),
                self.tick == old(self).tick && self.context_switches == old(self).context_switches,
                self.next_pid == old(self).next_pid && self.ready_queues == old(self).ready_queues,
                self.current_pid == old(self).current_pid && self.initialized == old(self).initialized,
                forall|j: int| 0 <= j < self.processes@.len() ==> {
                    let o = #[trigger] old(self).processes@[j];
                    let n = self.processes@[j];
                    &&& n.state == (if j < i { woken(o.state, now) } else { o.state })
                    &&& n.pid == o.pid && n.priority == o.priority && n.cpu_ticks_total == o.cpu_ticks_total
                    &&& n.quantum_remaining == o.quantum_remaining && n.stats == o.stats
                    &&& n.name == o.name && n.created_at_tick == o.created_at_tick
                },
            decreases self.processes@.len() - i,
        {
            let wake = match self.processes[i].state {
                ProcessState::Sleeping { wake_at_tick } => now >= wake_at_tick,
                _ => false,
            };
            if wake {
                let mut p = self.processes.remove(i);
                p.state = ProcessState::Ready;
                self.processes.insert(i, p);
            }
            i = i + 1;
        }
        let crit = self.ready_queues.critical_contains_all();
        let mut k: usize = 0;
        while k < self.processes.len()
            invariant
                self.wf(),
                k <= self.processes@.len(),
                crit@ == old(self).ready_queues@[0],
                self.ready_queues@ == requeue(old(self).ready_queues@, crit@, self.processes@.subrange(0, k as int)),
                self.processes@.len() == old(self).processes@.len(),
                self.tick == old(self).tick && self.context_switches == old(self).context_switches,
                self.next_pid == old(self).next_pid,
                self.current_pid == old(self).current_pid && self.initialized == old(self).initialized,
                forall|j: int| 0 <= j < self.processes@.len() ==> {
                    let o = #[trigger] old(self).processes@[j];
                    let n = self.processes@[j];
                    &&& n.state == woken(o.state, now)
                    &&& n.pid == o.pid && n.priority == o.priority && n.cpu_ticks_total == o.cpu_ticks_total
                    &&& n.quantum_remaining == o.quantum_remaining && n.stats == o.stats
                    &&& n.name == o.name && n.created_at_tick == o.created_at_tick
                },
            decreases self.processes@.len() - k,
        {
            assert(self.processes@.subrange(0, k + 1).drop_last() =~= self.processes@.subrange(0, k as int));
            let pid = self.processes[k].pid;
            let prio = self.processes[k].priority;
            let ready = self.processes[k].state == ProcessState::Ready;
            if ready && !contains_pid(&crit, pid) {
                self.ready_queues.enqueue(pid, prio);
            }
            k = k + 1;
        }
        assert(self.processes@.subrange(0, self.processes@.len() as int) =~= self.processes@);
    }

    /// Advances the clock one tick: wakes sleepers, charges the current process one tick of
    /// CPU and of quantum, and says whether a switch is due (quantum used up, or no current
    /// process).
    pub fn tick(&mut self) -> (switch: bool)
        requires
            old(self).wf(),
            old(self).now() < u64::MAX,
        ensures
            final(self).wf(),
            final(self).now() == old(self).now() + 1,
            final(self)@.len() == old(self)@.len(),
            final(self).current() == old(self).current(),
            final(self).switches() == old(self).switches(),
            switch == match old(self).current() {
                None => true,
                Some(pid) => match pindex(old(self)@, pid) {
                    None => false,
                    Some(i) => old(self)@[i].quantum_remaining <= 1,
                },
            },
            match old(self).current() {
                Some(pid) => match pindex(old(self)@, pid) {
                    Some(i) => final(self)@[i].cpu_ticks_total == old(self)@[i].cpu_ticks_total + 1
                        && final(self)@[i].quantum_remaining == (if old(self)@[i].quantum_remaining > 0 { old(self)@[i].quantum_remaining - 1 } else { 0 }),
                    None => true,
                },
                None => true,
            },
            forall|i: int| 0 <= i < old(self)@.len() ==> #[trigger] final(self)@[i].state == woken(old(self)@[i].state, final(self).now()),
    {
        self.tick = self.tick + 1;
        let ghost mid = self.processes@;
        self.wake_sleeping_processes();
        match self.current_pid {
            None => true,
            Some(pid) => match self.find(pid) {
                None => {
                    proof {
                        assert(pindex(old(self)@, pid).is_none()) by {
                            if exists|i: int| 0 <= i < old(self)@.len() && old(self)@[i].pid == pid {
                                let i = choose|i: int| 0 <= i < old(self)@.len() && old(self)@[i].pid == pid;
                                assert(self@[i].pid == pid);
                            }
                        }
                    }
                    false
                },
                Some(i) => {
                    proof {
                        assert(old(self)@[i as int].pid == pid);
                        lemma_pindex_unique(old(self)@, pid, i as int);
                    }
                    let mut p = self.processes.remove(i);
                    p.cpu_ticks_total = p.cpu_ticks_total + 1;
                    if p.quantum_remaining > 0 {
                        p.quantum_remaining = p.quantum_remaining - 1;
                    }
                    let expired = p.quantum_remaining == 0;
                    self.processes.insert(i, p);
                    proof {
                        assert forall|a: int, b: int| 0 <= a < b < self.processes@.len() implies self.processes@[a].pid != self.processes@[b].pid by {
                            assert(self.processes@[a].pid == old(self).processes@[a].pid);
                            assert(self.processes@[b].pid == old(self).processes@[b].pid);
                        }
                    }
                    expired
                },
            },
        }
    }

    /// The queues after a still-Running current process is put back in its queue.
    pub open spec fn requeued(&self) -> Seq<Seq<Pid>> {
        match self.current() {
            Some(c) => match pindex(self@, c) {
                Some(i) => if self@[i].state == ProcessState::Running {
                    let pr = self@[i].priority;
                    self.queues().update(prio_index(pr), enqueue_spec(self.queues()[prio_index(pr)], c))
                } else {
                    self.queues()
                },
                None => self.queues(),
            },
            None => self.queues(),
        }
    }

    /// Where the current process stands when it is still Running.
    pub open spec fn running_current(&self) -> Option<int> {
        match self.current() {
            Some(c) => match pindex(self@, c) {
                Some(i) => if self@[i].state == ProcessState::Running { Some(i) } else { None },
                None => None,
            },
            None => None,
        }
    }

    fn requeue_current(&mut self)
        requires
            old(self).wf(),
            old(self).counters_below_max(),
        ensures
            forall|a: int| 0 <= a < old(self)@.len() && old(self).running_current() != Some(a)
                ==> final(self)@[a] == old(self)@[a],
            old(self).running_current() matches Some(i) ==> {
                &&& final(self)@[i].state == ProcessState::Ready
                &&& final(self)@[i].quantum_remaining == quantum_of(old(self)@[i].priority)
                &&& final(self)@[i].priority == old(self)@[i].priority
            },
            final(self).wf(),
            final(self)@.len() == old(self)@.len(),
            final(self).now() == old(self).now(),
            final(self).current() == old(self).current(),
            final(self).switches() == old(self).switches(),
            final(self).queues() == old(self).requeued(),
            forall|a: int| 0 <= a < old(self)@.len() ==> (#[trigger] final(self)@[a]).pid == old(self)@[a].pid
                && final(self)@[a].stats.schedule_count == old(self)@[a].stats.schedule_count,
    {
        match self.current_pid {
            Some(current) => match self.find(current) {
                Some(i) => {
                    if self.processes[i].state == ProcessState::Running {
                        let mut p = self.processes.remove(i);
                        p.state = ProcessState::Ready;
                        p.reset_quantum();
                        p.stats.preempt_count = p.stats.preempt_count + 1;
                        let prio = p.priority;
                        self.processes.insert(i, p);
                        self.ready_queues.enqueue(current, prio);
                        proof {
                            assert forall|a: int, b: int| 0 <= a < b < self.processes@.len() implies self.processes@[a].pid != self.processes@[b].pid by {
                                assert(self.processes@[a].pid == old(self).processes@[a].pid);
                                assert(self.processes@[b].pid == old(self).processes@[b].pid);
                            }
                        }
                    }
                },
                None => {},
            },
            None => {},
        }
    }

    /// Puts a still-Running current process back in its queue with a fresh quantum, then
    /// runs the front of the most urgent non-empty queue.
    pub fn schedule(&mut self) -> (next: Option<Pid>)
        requires
            old(self).wf(),
            old(self).counters_below_max(),
            old(self).switches() < u64::MAX,
        ensures
            final(self).wf(),
            final(self)@.len() == old(self)@.len(),
            final(self).now() == old(self).now(),
            ({
                let requeued = old(self).requeued();
                let f = first_nonempty(requeued);
                if f == 5 {
                    &&& next.is_none()
                    &&& final(self).queues() == requeued
                    &&& final(self).current() == old(self).current()
                    &&& final(self).switches() == old(self).switches()
                } else {
                    &&& next == Some(requeued[f][0])
                    &&& final(self).queues() == requeued.update(f, requeued[f].drop_first())
                    &&& final(self).current() == next
                    &&& final(self).switches() == old(self).switches() + 1
                    &&& final(self).proc_of(next.unwrap()).is_some() ==> final(self).proc_of(next.unwrap()).unwrap().state == ProcessState::Running
                }
            }),
            old(self).running_current() matches Some(i) ==> {
                let c = old(self)@[i];
                &&& final(self).proc_of(c.pid) is Some
                &&& final(self).proc_of(c.pid).unwrap().quantum_remaining == quantum_of(c.priority)
                &&& next != Some(c.pid) ==> final(self).proc_of(c.pid).unwrap().state == ProcessState::Ready
            },
    {
        let ghost ri = old(self).running_current();
        self.requeue_current();
        proof {
            if let Some(i) = ri {
                lemma_pindex_unique(self.processes@, old(self)@[i].pid, i);
            }
        }
        let next_pid = match self.ready_queues.dequeue() {
            Some(p) => p,
            None => return None,
        };
        match self.find(next_pid) {
            Some(j) => {
                let ghost mid = self.processes@;
                let mut p = self.processes.remove(j);
                p.state = ProcessState::Running;
                assert(p.stats.schedule_count == old(self)@[j as int].stats.schedule_count);
                p.stats.schedule_count = p.stats.schedule_count + 1;
                self.processes.insert(j, p);
                proof {
                    assert forall|a: int, b: int| 0 <= a < b < self.processes@.len() implies self.processes@[a].pid != self.processes@[b].pid by {
                        assert(self.processes@[a].pid == mid[a].pid);
                        assert(self.processes@[b].pid == mid[b].pid);
                    }
                    lemma_pindex_unique(self.processes@, next_pid, j as int);
                    if let Some(i) = ri {
                        if i != j {
                            assert(self.processes@[i] == mid[i]);
                        }
                        lemma_pindex_unique(self.processes@, old(self)@[i].pid, i);
                    }
                }
            },
            None => {},
        }
        self.current_pid = Some(next_pid);
        self.context_switches = self.context_switches + 1;
        Some(next_pid)
    }
}

/// With unique pids, the position of a pid is the one that holds it.
pub proof fn lemma_pindex_unique(s: Seq<ProcessControlBlock>, pid: Pid, i: int)
    requires
        forall|a: int, b: int| 0 <= a < b < s.len() ==> s[a].pid != s[b].pid,
        0 <= i < s.len(),
        s[i].pid == pid,
    ensures
        pindex(s, pid) == Some(i),
{
    let k = choose|k: int| 0 <= k < s.len() && s[k].pid == pid;
    assert(s[k].pid == s[i].pid);
}

fn contains_pid(v: &Vec<Pid>, pid: Pid) -> (b: bool)
    ensures
        b == v@.contains(pid),
{
    let mut k: usize = 0;
    while k < v.len()
        invariant
            k <= v@.len(),
            forall|j: int| 0 <= j < k ==> v@[j] != pid,
        decreases v@.len() - k,
    {
        if v[k] == pid {
            return true;
        }
        k = k + 1;
    }
    false
}

impl ReadyQueues {
    fn critical_contains_all(&self) -> (v: Vec<Pid>)
        requires
            self.wf(),
        ensures
            v@ == self@[0],
    {
        let q = &self.queues[0];
        assert(self@[0] == q@);
        let mut v: Vec<Pid> = Vec::new();
        let mut k: usize = 0;
        while k < q.len()
            invariant
                k <= q@.len(),
                v@ == q@.subrange(0, k as int),
            decreases q@.len() - k,
        {
            v.push(q[k]);
            k = k + 1;
        }
        v
    }
}


impl Scheduler {
    fn set_state(&mut self, i: usize, st: ProcessState)
        requires
            old(self).wf(),
            i < old(self)@.len(),
        ensures
            final(self).wf(),
            final(self)@ == old(self)@.update(i as int, final(self)@[i as int]),
            final(self)@[i as int].state == st,
            final(self)@[i as int].pid == old(self)@[i as int].pid,
            final(self)@[i as int].priority == old(self)@[i as int].priority,
            final(self)@[i as int].stats == old(self)@[i as int].stats,
            final(self)@[i as int].cpu_ticks_total == old(self)@[i as int].cpu_ticks_total,
            final(self)@[i as int].quantum_remaining == old(self)@[i as int].quantum_remaining,
            final(self).queues() == old(self).queues(),
            final(self).current() == old(self).current(),
            final(self).now() == old(self).now(),
            final(self).switches() == old(self).switches(),
            final(self).next_pid_spec() == old(self).next_pid_spec(),
    {
        let mut p = self.processes.remove(i);
        p.state = st;
        self.processes.insert(i, p);
        proof {
            assert forall|a: int, b: int| 0 <= a < b < self.processes@.len() implies self.processes@[a].pid != self.processes@[b].pid by {
                assert(self.processes@[a].pid == old(self).processes@[a].pid);
                assert(self.processes@[b].pid == old(self).processes@[b].pid);
            }
            assert(self.processes@ =~= old(self).processes@.update(i as int, self.processes@[i as int]));
        }
    }

    /// Blocks the current process for `reason` and counts a blocked tick.
    pub fn block_current(&mut self, reason: BlockReason)
        requires
            old(self).wf(),
            old(self).counters_below_max(),
        ensures
            final(self).wf(),
            final(self)@.len() == old(self)@.len(),
            final(self).queues() == old(self).queues(),
            final(self).current() == old(self).current(),
            match old(self).current() {
                Some(pid) => match pindex(old(self)@, pid) {
                    Some(i) => final(self)@[i].state == (ProcessState::Blocked { reason })
                        && final(self)@[i].stats.blocked_ticks == old(self)@[i].stats.blocked_ticks + 1
                        && forall|j: int| 0 <= j < old(self)@.len() && j != i ==> final(self)@[j] == old(self)@[j],
                    None => final(self)@ == old(self)@,
                },
                None => final(self)@ == old(self)@,
            },
    {
        if let Some(pid) = self.current_pid {
            if let Some(i) = self.find(pid) {
                let mut p = self.processes.remove(i);
                p.state = ProcessState::Blocked { reason };
                p.stats.blocked_ticks = p.stats.blocked_ticks + 1;
                self.processes.insert(i, p);
                proof {
                    assert forall|a: int, b: int| 0 <= a < b < self.processes@.len() implies self.processes@[a].pid != self.processes@[b].pid by {
                        assert(self.processes@[a].pid == old(self).processes@[a].pid);
                        assert(self.processes@[b].pid == old(self).processes@[b].pid);
                    }
                }
            }
        }
    }

    /// Makes a blocked process Ready and queues it.
    pub fn unblock(&mut self, pid: Pid)
        requires
            old(self).wf(),
        ensures
            final(self).wf(),
            final(self)@.len() == old(self)@.len(),
            final(self).current() == old(self).current(),
            match pindex(old(self)@, pid) {
                Some(i) => if old(self)@[i].state is Blocked {
                    &&& final(self)@[i].state == ProcessState::Ready
                    &&& final(self).queues() == old(self).queues().update(prio_index(old(self)@[i].priority),
                        enqueue_spec(old(self).queues()[prio_index(old(self)@[i].priority)], pid))
                } else {
                    final(self)@ == old(self)@ && final(self).queues() == old(self).queues()
                },
                None => final(self)@ == old(self)@ && final(self).queues() == old(self).queues(),
            },
    {
        if let Some(i) = self.find(pid) {
            if let ProcessState::Blocked { .. } = self.processes[i].state {
                let prio = self.processes[i].priority;
                self.set_state(i, ProcessState::Ready);
                self.ready_queues.enqueue(pid, prio);
            }
        }
    }

    /// Puts the current process to sleep until `ticks` from now.
    pub fn sleep_current(&mut self, ticks: u64)
        requires
            old(self).wf(),
            old(self).now() + ticks <= u64::MAX,
        ensures
            final(self).wf(),
            final(self)@.len() == old(self)@.len(),
            final(self).queues() == old(self).queues(),
            final(self).current() == old(self).current(),
            match old(self).current() {
                Some(pid) => match pindex(old(self)@, pid) {
                    Some(i) => final(self)@[i].state == (ProcessState::Sleeping { wake_at_tick: (old(self).now() + ticks) as u64 })
                        && forall|j: int| 0 <= j < old(self)@.len() && j != i ==> final(self)@[j] == old(self)@[j],
                    None => final(self)@ == old(self)@,
                },
                None => final(self)@ == old(self)@,
            },
    {
        if let Some(pid) = self.current_pid {
            let wake_at = self.tick + ticks;
            if let Some(i) = self.find(pid) {
                self.set_state(i, ProcessState::Sleeping { wake_at_tick: wake_at });
            }
        }
    }

    /// Marks `pid` Dead with `exit_code`; it stops being current.
    pub fn exit_process(&mut self, pid: Pid, exit_code: i32)
        requires
            old(self).wf(),
        ensures
            final(self).wf(),
            final(self)@.len() == old(self)@.len(),
            final(self).queues() == old(self).queues(),
            final(self).current() == (if old(self).current() == Some(pid) { None } else { old(self).current() }),
            match pindex(old(self)@, pid) {
                Some(i) => final(self)@[i].state == (ProcessState::Dead { exit_code }) && final(self)@[i].pid == pid
                    && forall|j: int| 0 <= j < old(self)@.len() && j != i ==> final(self)@[j] == old(self)@[j],
                None => final(self)@ == old(self)@,
            },
    {
        if let Some(i) = self.find(pid) {
            self.set_state(i, ProcessState::Dead { exit_code });
        }
        if self.current_pid == Some(pid) {
            self.current_pid = None;
        }
    }

    /// The process with pid `pid`.
    pub fn get_process(&self, pid: Pid) -> (r: Option<&ProcessControlBlock>)
        requires
            self.wf(),
        ensures
            match r {
                Some(p) => self.proc_of(pid) == Some(*p),
                None => self.proc_of(pid).is_none(),
            },
    {
        match self.find(pid) {
            Some(i) => Some(&self.processes[i]),
            None => None,
        }
    }

    /// Counts of processes by state, counters and the queued total.
    pub fn stats(&self) -> (st: SchedulerStats)
        requires
            self.wf(),
            total_len(self.queues()) <= usize::MAX,
        ensures
            st.total_processes == self@.len(),
            st.running == count_state(self@, |s: ProcessState| s == ProcessState::Running),
            st.ready == count_state(self@, |s: ProcessState| s == ProcessState::Ready),
            st.blocked == count_state(self@, |s: ProcessState| s is Blocked),
            st.sleeping == count_state(self@, |s: ProcessState| s is Sleeping),
            st.dead == count_state(self@, |s: ProcessState| s is Dead),
            st.context_switches == self.switches(),
            st.current_tick == self.now(),
            st.current_pid == self.current(),
            st.ready_in_queues == total_len(self.queues()),
    {
        let ps = &self.processes;
        let mut running: usize = 0;
        let mut ready: usize = 0;
        let mut blocked: usize = 0;
        let mut sleeping: usize = 0;
        let mut dead: usize = 0;
        let mut k: usize = 0;
        while k < ps.len()
            invariant
                k <= ps@.len(),
                ps@ == self@,
                running == count_state(ps@.subrange(0, k as int), |s: ProcessState| s == ProcessState::Running),
                ready == count_state(ps@.subrange(0, k as int), |s: ProcessState| s == ProcessState::Ready),
                blocked == count_state(ps@.subrange(0, k as int), |s: ProcessState| s is Blocked),
                sleeping == count_state(ps@.subrange(0, k as int), |s: ProcessState| s is Sleeping),
                dead == count_state(ps@.subrange(0, k as int), |s: ProcessState| s is Dead),
                running <= k && ready <= k && blocked <= k && sleeping <= k && dead <= k,
            decreases ps@.len() - k,
        {
            assert(ps@.subrange(0, k + 1).drop_last() =~= ps@.subrange(0, k as int));
            match ps[k].state {
                ProcessState::Running => { running = running + 1; },
                ProcessState::Ready => { ready = ready + 1; },
                ProcessState::Blocked { .. } => { blocked = blocked + 1; },
                ProcessState::Sleeping { .. } => { sleeping = sleeping + 1; },
                ProcessState::Dead { .. } => { dead = dead + 1; },
                ProcessState::New => {},
            }
            k = k + 1;
        }
        assert(ps@.subrange(0, ps@.len() as int) =~= ps@);
        SchedulerStats {
            total_processes: ps.len(),
            running,
            ready,
            blocked,
            sleeping,
            dead,
            context_switches: self.context_switches,
            current_tick: self.tick,
            current_pid: self.current_pid,
            ready_in_queues: self.ready_queues.total(),
        }
    }

    /// One line per process: pid, name, a state word (Running, Ready, New or Other),
    /// priority, CPU ticks and schedule count.
    pub fn list_processes(&self) -> (v: Vec<ProcessInfo>)
        requires
            self.wf(),
        ensures
            v@.len() == self@.len(),
            forall|i: int| 0 <= i < v@.len() ==> {
                let p = self@[i];
                let e = #[trigger] v@[i];
                &&& e.pid == p.pid && e.name@ == p.name@ && e.priority == p.priority
                &&& e.cpu_ticks == p.cpu_ticks_total && e.schedule_count == p.stats.schedule_count
                &&& e.state@ == state_word(p.state)
            },
    {
        let mut v: Vec<ProcessInfo> = Vec::new();
        let mut k: usize = 0;
        while k < self.processes.len()
            invariant
                k <= self@.len(),
                v@.len() == k,
                forall|i: int| 0 <= i < k ==> {
                    let p = self@[i];
                    let e = #[trigger] v@[i];
                    &&& e.pid == p.pid && e.name@ == p.name@ && e.priority == p.priority
                    &&& e.cpu_ticks == p.cpu_ticks_total && e.schedule_count == p.stats.schedule_count
                    &&& e.state@ == state_word(p.state)
                },
            decreases self@.len() - k,
        {
            let p = &self.processes[k];
            let st = match p.state {
                ProcessState::Running => String::from_str("Running"),
                ProcessState::Ready => String::from_str("Ready"),
                ProcessState::New => String::from_str("New"),
                _ => String::from_str("Other"),
            };
            v.push(ProcessInfo {
                pid: p.pid,
                name: p.name.clone(),
                state: st,
                priority: p.priority,
                cpu_ticks: p.cpu_ticks_total,
                schedule_count: p.stats.schedule_count,
            });
            k = k + 1;
        }
        v
    }

    /// Registers the code now running as a task: Running, no stack of its own, current.
    pub fn register_current(&mut self, name: &str, priority: Priority) -> (pid: Pid)
        requires
            old(self).wf(),
            old(self).next_pid_spec() < u64::MAX,
        ensures
            final(self).wf(),
            pid == old(self).next_pid_spec(),
            final(self)@.len() == old(self)@.len() + 1,
            final(self)@.subrange(0, old(self)@.len() as int) == old(self)@,
            final(self)@.last().pid == pid && final(self)@.last().state == ProcessState::Running,
            final(self)@.last().priority == priority && final(self)@.last().name@ == name@,
            final(self)@.last().stack@.len() == 0,
            final(self).current() == Some(pid),
            final(self).queues() == old(self).queues(),
    {
        let pid = self.alloc_pid();
        let pcb = ProcessControlBlock {
            pid,
            parent_pid: 0,
            name: String::from_str(name),
            state: ProcessState::Running,
            priority,
            context: CpuContext::new_kernel_task(0, 0, 0),
            cpu_ticks_total: 0,
            quantum_remaining: priority.quantum(),
            created_at_tick: self.tick,
            stack: Vec::new(),
            stats: ProcessStats { schedule_count: 0, preempt_count: 0, blocked_ticks: 0, max_continuous_ticks: 0, avg_cpu_usage: 0 },
        };
        self.processes.push(pcb);
        self.current_pid = Some(pid);
        assert(self.processes@.subrange(0, old(self)@.len() as int) =~= old(self)@);
        pid
    }
}

/// The word the process listing shows for a state.
pub open spec fn state_word(s: ProcessState) -> Seq<char> {
    match s {
        ProcessState::Running => "Running"@,
        ProcessState::Ready => "Ready"@,
        ProcessState::New => "New"@,
        _ => "Other"@,
    }
}

/// Creates the idle task of the scheduler.
pub fn init(sched: &mut Scheduler, idle_entry: u64)
    requires
        old(sched).wf(),
        old(sched).next_pid_spec() < u64::MAX,
    ensures
        final(sched).wf(),
        final(sched).is_initialized(),
        final(sched)@.len() == old(sched)@.len() + 1,
        final(sched)@.last().priority == Priority::Idle,
{
    sched.init(idle_entry)
}

/// Creates a task.
pub fn spawn(sched: &mut Scheduler, name: &str, entry: u64, priority: Priority) -> (pid: Pid)
    requires
        old(sched).wf(),
        old(sched).next_pid_spec() < u64::MAX,
    ensures
        final(sched).wf(),
        pid == old(sched).next_pid_spec(),
        final(sched)@.last().pid == pid && final(sched)@.last().state == ProcessState::Ready,
        final(sched)@.last().priority == priority,
{
    sched.spawn(name, entry, priority)
}

/// One timer tick; true when a switch is due.
pub fn timer_tick(sched: &mut Scheduler) -> (switch: bool)
    requires
        old(sched).wf(),
        old(sched).now() < u64::MAX,
    ensures
        final(sched).wf(),
        final(sched).now() == old(sched).now() + 1,
        old(sched).current().is_none() ==> switch,
{
    sched.tick()
}

/// Picks the next process.
pub fn schedule(sched: &mut Scheduler) -> (next: Option<Pid>)
    requires
        old(sched).wf(),
        old(sched).counters_below_max(),
        old(sched).switches() < u64::MAX,
    ensures
        final(sched).wf(),
        next.is_some() ==> final(sched).current() == next,
        next.is_none() <==> first_nonempty(old(sched).requeued()) == 5,
{
    sched.schedule()
}

/// Registers the running code as a task (called once, after `init`).
pub fn register_current_as_task(sched: &mut Scheduler, name: &str, priority: Priority) -> (pid: Pid)
    requires
        old(sched).wf(),
        old(sched).next_pid_spec() < u64::MAX,
    ensures
        final(sched).wf(),
        pid == old(sched).next_pid_spec(),
        final(sched).current() == Some(pid),
        final(sched)@.last().state == ProcessState::Running,
{
    sched.register_current(name, priority)
}

/// Ends the current process with `exit_code`.
pub fn exit_current(sched: &mut Scheduler, exit_code: i32)
    requires
        old(sched).wf(),
    ensures
        final(sched).wf(),
        final(sched).current().is_none(),
        match old(sched).current() {
            Some(pid) => match pindex(old(sched)@, pid) {
                Some(i) => final(sched)@[i].state == (ProcessState::Dead { exit_code }),
                None => final(sched)@ == old(sched)@,
            },
            None => final(sched)@ == old(sched)@,
        },
{
    if let Some(pid) = sched.current_pid {
        sched.exit_process(pid, exit_code);
    }
}

/// Puts the current process to sleep.
pub fn sleep(sched: &mut Scheduler, ticks: u64)
    requires
        old(sched).wf(),
        old(sched).now() + ticks <= u64::MAX,
    ensures
        final(sched).wf(),
        final(sched).current() == old(sched).current(),
{
    sched.sleep_current(ticks)
}

/// Summary of the scheduler.
pub fn get_stats(sched: &Scheduler) -> (st: SchedulerStats)
    requires
        sched.wf(),
        total_len(sched.queues()) <= usize::MAX,
    ensures
        st.total_processes == sched@.len(),
        st.current_tick == sched.now(),
        st.current_pid == sched.current(),
        st.context_switches == sched.switches(),
{
    sched.stats()
}

/// The process listing.
pub fn list_processes(sched: &Scheduler) -> (v: Vec<ProcessInfo>)
    requires
        sched.wf(),
    ensures
        v@.len() == sched@.len(),
{
    sched.list_processes()
}

/// Ends process `pid`; false when there is none.
pub fn kill(sched: &mut Scheduler, pid: Pid, exit_code: i32) -> (ok: bool)
    requires
        old(sched).wf(),
    ensures
        final(sched).wf(),
        ok == old(sched).proc_of(pid).is_some(),
        ok ==> final(sched).proc_of(pid).is_some() && final(sched).proc_of(pid).unwrap().state == (ProcessState::Dead { exit_code }),
        !ok ==> final(sched)@ == old(sched)@,
        forall|q: Pid| q != pid ==> #[trigger] final(sched).proc_of(q) == old(sched).proc_of(q),
{
    if sched.get_process(pid).is_some() {
        sched.exit_process(pid, exit_code);
        proof {
            let i = pindex(old(sched)@, pid).unwrap();
            assert(sched@[i].pid == pid);
            lemma_pindex_unique(sched@, pid, i);
            assert forall|q: Pid| q != pid implies #[trigger] sched.proc_of(q) == old(sched).proc_of(q) by {
                match pindex(old(sched)@, q) {
                    Some(j) => {
                        assert(j != i);
                        assert(sched@[j] == old(sched)@[j]);
                        lemma_pindex_unique(sched@, q, j);
                    },
                    None => {
                        if pindex(sched@, q).is_some() {
                            let j = pindex(sched@, q).unwrap();
                            assert(sched@[j].pid == q);
                            assert(j != i);
                            assert(old(sched)@[j] == sched@[j]);
                            assert(false);
                        }
                    },
                }
            }
        }
        true
    } else {
        false
    }
}

} // verus!
