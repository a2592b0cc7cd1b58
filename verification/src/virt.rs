//! Lightweight containers: namespaces, resource limits and their manager.
use vstd::prelude::*;
use vstd::string::*;
use crate::util::{push_dec, dec_of};
use crate::scheduler::{Scheduler, Pid, Priority, ProcessState, pindex};

verus! {

/// The runtime a container uses.
#[derive(Debug, Clone, Copy, PartialEq, Eq, Structural)]
pub enum RuntimeKind {
    Native,
    Wasm,
    LinuxCompat,
    AndroidCompat,
}

/// The name of a runtime.
pub open spec fn runtime_name(r: RuntimeKind) -> Seq<char> {
    match r {
        RuntimeKind::Native => "native"@,
        RuntimeKind::Wasm => "wasm"@,
        RuntimeKind::LinuxCompat => "linux"@,
        RuntimeKind::AndroidCompat => "android"@,
    }
}

impl RuntimeKind {
    pub fn as_str(&self) -> (s: &'static str)
        ensures
            s@ == runtime_name(*self),
    {
        match self {
            RuntimeKind::Native => "native",
            RuntimeKind::Wasm => "wasm",
            RuntimeKind::LinuxCompat => "linux",
            RuntimeKind::AndroidCompat => "android",
        }
    }
}

/// The state of a container.
#[derive(Debug)]
pub enum ContainerState {
    Created,
    Running,
    Paused,
    Stopped,
    Failed(String),
}

/// Resource limits of a container.
#[derive(Debug, Clone, Copy)]
pub struct ResourceLimits {
    pub max_heap: usize,
    pub cpu_ticks: u64,
    pub max_files: usize,
    pub max_procs: usize,
    pub net_access: bool,
    pub p2p_access: bool,
}

impl ResourceLimits {
    /// 64 MiB heap, 1000 ticks, 64 files, 8 processes, network but no P2P.
    pub fn default() -> (l: ResourceLimits)
        ensures
            l.max_heap == 64 * 1024 * 1024 && l.cpu_ticks == 1000 && l.max_files == 64 && l.max_procs == 8,
            l.net_access && !l.p2p_access,
    {
        ResourceLimits { max_heap: 64 * 1024 * 1024, cpu_ticks: 1000, max_files: 64, max_procs: 8, net_access: true, p2p_access: false }
    }

    /// 8 MiB heap, 100 ticks, 16 files, 2 processes, no network.
    pub fn minimal() -> (l: ResourceLimits)
        ensures
            l.max_heap == 8 * 1024 * 1024 && l.cpu_ticks == 100 && l.max_files == 16 && l.max_procs == 2,
            !l.net_access && !l.p2p_access,
    {
        ResourceLimits { max_heap: 8 * 1024 * 1024, cpu_ticks: 100, max_files: 16, max_procs: 2, net_access: false, p2p_access: false }
    }

    /// 256 MiB heap, 10000 ticks, 256 files, 32 processes, network and P2P.
    pub fn trusted() -> (l: ResourceLimits)
        ensures
            l.max_heap == 256 * 1024 * 1024 && l.cpu_ticks == 10000 && l.max_files == 256 && l.max_procs == 32,
            l.net_access && l.p2p_access,
    {
        ResourceLimits { max_heap: 256 * 1024 * 1024, cpu_ticks: 10000, max_files: 256, max_procs: 32, net_access: true, p2p_access: true }
    }
}

/// The file namespace of a container.
#[derive(Debug)]
pub struct FsNamespace {
    pub root: String,
    pub mounts: Vec<(String, String)>,
    pub files: Vec<(String, Vec<u8>)>,
}

/// The map held by a list of named entries, later entries replacing earlier ones.
pub open spec fn files_map(s: Seq<(String, Vec<u8>)>) -> Map<Seq<char>, Seq<u8>>
    decreases s.len(),
{
    if s.len() == 0 { Map::empty() } else { files_map(s.drop_last()).insert(s.last().0@, s.last().1@) }
}

proof fn lemma_files_update(s: Seq<(String, Vec<u8>)>, i: int, e: (String, Vec<u8>))
    requires
        forall|a: int, b: int| 0 <= a < b < s.len() ==> s[a].0@ != s[b].0@,
        0 <= i < s.len(),
        e.0@ == s[i].0@,
    ensures
        files_map(s.update(i, e)) == files_map(s).insert(e.0@, e.1@),
    decreases s.len(),
{
    let t = s.update(i, e);
    if i == s.len() - 1 {
        assert(t.drop_last() =~= s.drop_last());
        assert(files_map(t) =~= files_map(s).insert(e.0@, e.1@));
    } else {
        assert(t.drop_last() =~= s.drop_last().update(i, e));
        lemma_files_update(s.drop_last(), i, e);
        assert(files_map(t) =~= files_map(s).insert(e.0@, e.1@));
    }
}

proof fn lemma_files_get(s: Seq<(String, Vec<u8>)>, i: int)
    requires
        forall|a: int, b: int| 0 <= a < b < s.len() ==> s[a].0@ != s[b].0@,
        0 <= i < s.len(),
    ensures
        files_map(s).contains_key(s[i].0@),
        files_map(s)[s[i].0@] == s[i].1@,
    decreases s.len(),
{
    if i < s.len() - 1 {
        lemma_files_get(s.drop_last(), i);
    }
}

proof fn lemma_files_absent(s: Seq<(String, Vec<u8>)>, k: Seq<char>)
    requires
        forall|i: int| 0 <= i < s.len() ==> s[i].0@ != k,
    ensures
        !files_map(s).contains_key(k),
    decreases s.len(),
{
    if s.len() > 0 {
        lemma_files_absent(s.drop_last(), k);
    }
}

impl FsNamespace {
    /// Each file path occurs once.
    pub open spec fn wf(&self) -> bool {
        forall|a: int, b: int| 0 <= a < b < self.files@.len() ==> self.files@[a].0@ != self.files@[b].0@
    }

    /// The files of the namespace by path.
    pub open spec fn file_map(&self) -> Map<Seq<char>, Seq<u8>> {
        files_map(self.files@)
    }

    /// A namespace rooted at `root` with /proc and /sys mounted from the host.
    pub fn new(root: String) -> (ns: FsNamespace)
        ensures
            ns.wf(),
            ns.root == root,
            ns.mounts@.len() == 2,
            ns.mounts@[0].0@ == "/proc"@ && ns.mounts@[0].1@ == "/sys/proc"@,
            ns.mounts@[1].0@ == "/sys"@ && ns.mounts@[1].1@ == "/sys"@,
            ns.file_map() == Map::<Seq<char>, Seq<u8>>::empty(),
    {
        let mut mounts: Vec<(String, String)> = Vec::new();
        mounts.push((String::from_str("/proc"), String::from_str("/sys/proc")));
        mounts.push((String::from_str("/sys"), String::from_str("/sys")));
        FsNamespace { root, mounts, files: Vec::new() }
    }

    fn find(&self, path: &str) -> (r: Option<usize>)
        ensures
            match r {
                Some(i) => i < self.files@.len() && self.files@[i as int].0@ == path@,
                None => forall|i: int| 0 <= i < self.files@.len() ==> self.files@[i].0@ != path@,
            },
    {
        let key = String::from_str(path);
        let mut i: usize = 0;
        while i < self.files.len()
            invariant
                i <= self.files@.len(),
                key@ == path@,
                forall|j: int| 0 <= j < i ==> self.files@[j].0@ != path@,
            decreases self.files@.len() - i,
        {
            if self.files[i].0 == key {
                return Some(i);
            }
            i = i + 1;
        }
        None
    }

    /// Stores `data` at `path` inside the container.
    pub fn write(&mut self, path: &str, data: Vec<u8>)
        requires
            old(self).wf(),
        ensures
            final(self).wf(),
            final(self).file_map() == old(self).file_map().insert(path@, data@),
            final(self).root == old(self).root,
    {
        let e = (String::from_str(path), data);
        match self.find(path) {
            Some(i) => {
                proof {
                    lemma_files_update(self.files@, i as int, e);
                }
                self.files.set(i, e);
            },
            None => {
                self.files.push(e);
                assert(self.files@.drop_last() =~= old(self).files@);
            },
        }
    }

    /// The bytes stored at `path`.
    pub fn read(&self, path: &str) -> (r: Option<&[u8]>)
        requires
            self.wf(),
        ensures
            match r {
                Some(d) => self.file_map().contains_key(path@) && self.file_map()[path@] == d@,
                None => !self.file_map().contains_key(path@),
            },
    {
        match self.find(path) {
            Some(i) => {
                proof {
                    lemma_files_get(self.files@, i as int);
                }
                Some(self.files[i].1.as_slice())
            },
            None => {
                proof {
                    lemma_files_absent(self.files@, path@);
                }
                None
            },
        }
    }

    /// The host path of a container path: the root followed by the path.
    pub fn resolve(&self, path: &str) -> (s: String)
        ensures
            s@ == self.root@ + path@,
    {
        let mut s = self.root.clone();
        s.append(path);
        s
    }
}

/// A write followed by a read of the same path returns what was written.
pub proof fn lemma_namespace_read_after_write(before: Map<Seq<char>, Seq<u8>>, path: Seq<char>, data: Seq<u8>)
    ensures
        before.insert(path, data).contains_key(path),
        before.insert(path, data)[path] == data,
{
}

/// A container.
pub struct Container {
    pub id: u64,
    pub name: String,
    pub runtime: RuntimeKind,
    pub state: ContainerState,
    pub limits: ResourceLimits,
    pub fs: FsNamespace,
    pub pids: Vec<Pid>,
    pub env: Vec<(String, String)>,
    pub created_at: u64,
    pub cpu_used: u64,
    pub heap_used: usize,
}

/// Summary of a container.
#[derive(Debug)]
pub struct ContainerInfo {
    pub id: u64,
    pub name: String,
    pub runtime: &'static str,
    pub state: &'static str,
    pub pids: Vec<Pid>,
    pub cpu_used: u64,
    pub heap_mb: usize,
}

/// The word for a container state.
pub open spec fn state_name(s: ContainerState) -> Seq<char> {
    match s {
        ContainerState::Created => "created"@,
        ContainerState::Running => "running"@,
        ContainerState::Paused => "paused"@,
        ContainerState::Stopped => "stopped"@,
        ContainerState::Failed(_) => "failed"@,
    }
}

/// Whether a container is within its limits: heap within the heap limit, CPU within a
/// thousand times the tick limit.
pub open spec fn within_limits(c: Container) -> bool {
    c.heap_used <= c.limits.max_heap && c.cpu_used <= c.limits.cpu_ticks * 1000
}

impl Container {
    /// A created container with root `/containers/<id>` and CONTAINER_ID, RUNTIME and HOME set.
    pub fn new(id: u64, name: String, runtime: RuntimeKind, limits: ResourceLimits, tick: u64) -> (c: Container)
        ensures
            c.id == id && c.name == name && c.runtime == runtime && c.limits == limits,
            c.state is Created && c.pids@.len() == 0 && c.created_at == tick,
            c.cpu_used == 0 && c.heap_used == 0,
            c.fs.root@ == "/containers/"@ + dec_of(id as nat),
            c.fs.wf(),
            c.env@.len() == 3,
            c.env@[0].0@ == "CONTAINER_ID"@ && c.env@[0].1@ == dec_of(id as nat),
            c.env@[1].0@ == "RUNTIME"@ && c.env@[1].1@ == runtime_name(runtime),
            c.env@[2].0@ == "HOME"@ && c.env@[2].1@ == "/containers/"@ + dec_of(id as nat) + "/home"@,
    {
        let mut root = String::from_str("/containers/");
        push_dec(&mut root, id);
        let mut idtext = String::new();
        push_dec(&mut idtext, id);
        let mut home = root.clone();
        home.append("/home");
        let mut env: Vec<(String, String)> = Vec::new();
        env.push((String::from_str("CONTAINER_ID"), idtext));
        env.push((String::from_str("RUNTIME"), String::from_str(runtime.as_str())));
        env.push((String::from_str("HOME"), home));
        proof {
            assert(idtext@ =~= dec_of(id as nat));
        }
        Container {
            id,
            name,
            runtime,
            state: ContainerState::Created,
            limits,
            fs: FsNamespace::new(root),
            pids: Vec::new(),
            env,
            created_at: tick,
            cpu_used: 0,
            heap_used: 0,
        }
    }

    /// Runs the container: spawns its entry task at normal priority and records the pid.
    pub fn start(&mut self, sched: &mut Scheduler, entry: u64, tick: u64) -> (pid: Pid)
        requires
            old(sched).wf(),
            old(sched).next_pid_spec() < u64::MAX,
        ensures
            final(sched).wf(),
            final(self).state is Running,
            pid == old(sched).next_pid_spec(),
            final(self).pids@ == old(self).pids@.push(pid),
            final(sched)@.last().pid == pid && final(sched)@.last().priority == Priority::Normal,
            final(sched)@.last().name@ == old(self).name@,
            final(self).id == old(self).id && final(self).name == old(self).name,
    {
        self.state = ContainerState::Running;
        let pid = sched.spawn(self.name.as_str(), entry, Priority::Normal);
        self.pids.push(pid);
        pid
    }

    /// Ends every process of the container and marks it stopped.
    pub fn stop(&mut self, sched: &mut Scheduler)
        requires
            old(sched).wf(),
        ensures
            final(sched).wf(),
            final(self).state is Stopped,
            final(self).pids@.len() == 0,
            final(self).id == old(self).id && final(self).name == old(self).name,
            final(self).cpu_used == old(self).cpu_used && final(self).heap_used == old(self).heap_used,
            final(self).limits == old(self).limits,
            forall|k: int| 0 <= k < old(self).pids@.len() ==> {
                let pid = #[trigger] old(self).pids@[k];
                pindex(old(sched)@, pid).is_some() ==> final(sched).proc_of(pid).is_some()
                    && final(sched).proc_of(pid).unwrap().state == (ProcessState::Dead { exit_code: 0 })
            },
    {
        let mut k: usize = 0;
        while k < self.pids.len()
            invariant
                k <= self.pids@.len(),
                sched.wf(),
                self.pids@ == old(self).pids@,
                forall|j: int| 0 <= j < k ==> {
                    let pid = #[trigger] self.pids@[j];
                    pindex(old(sched)@, pid).is_some() ==> sched.proc_of(pid).is_some()
                        && sched.proc_of(pid).unwrap().state == (ProcessState::Dead { exit_code: 0 })
                },
                forall|q: Pid| pindex(old(sched)@, q).is_some() ==> #[trigger] sched.proc_of(q).is_some(),
            decreases self.pids@.len() - k,
        {
            let pid = self.pids[k];
            let ghost before = *sched;
            crate::scheduler::kill(sched, pid, 0);
            proof {
                assert forall|j: int| 0 <= j < k + 1 implies {
                    let p = #[trigger] self.pids@[j];
                    pindex(old(sched)@, p).is_some() ==> sched.proc_of(p).is_some()
                        && sched.proc_of(p).unwrap().state == (ProcessState::Dead { exit_code: 0 })
                } by {
                    let p = self.pids@[j];
                    if j < k && p != pid && pindex(old(sched)@, p).is_some() {
                        assert(sched.proc_of(p) == before.proc_of(p));
                    }
                }
                assert forall|q: Pid| pindex(old(sched)@, q).is_some() implies #[trigger] sched.proc_of(q).is_some() by {
                    if q != pid {
                        assert(sched.proc_of(q) == before.proc_of(q));
                    }
                }
            }
            k = k + 1;
        }
        self.pids.clear();
        self.state = ContainerState::Stopped;
    }

    /// Pauses the container.
    pub fn pause(&mut self)
        ensures
            final(self).state is Paused,
            final(self).id == old(self).id && final(self).pids == old(self).pids,
    {
        self.state = ContainerState::Paused;
    }

    /// Resumes a paused container; other states are kept.
    pub fn resume(&mut self)
        ensures
            (old(self).state is Paused) ==> (final(self).state is Running),
            !(old(self).state is Paused) ==> final(self).state == old(self).state,
            final(self).id == old(self).id && final(self).pids == old(self).pids,
    {
        let paused = match self.state {
            ContainerState::Paused => true,
            _ => false,
        };
        if paused {
            self.state = ContainerState::Running;
        }
    }

    /// Heap within its limit and CPU within a thousand times the tick limit.
    pub fn is_within_limits(&self) -> (b: bool)
        ensures
            b == within_limits(*self),
    {
        self.heap_used <= self.limits.max_heap && (self.cpu_used as u128) <= (self.limits.cpu_ticks as u128) * 1000
    }

    /// Id, name, runtime and state words, pids, CPU used and heap in MiB.
    pub fn info(&self) -> (i: ContainerInfo)
        ensures
            i.id == self.id && i.name@ == self.name@ && i.runtime@ == runtime_name(self.runtime),
            i.state@ == state_name(self.state) && i.pids@ == self.pids@ && i.cpu_used == self.cpu_used,
            i.heap_mb == self.heap_used / 1048576usize,
    {
        let st: &'static str = match &self.state {
            ContainerState::Created => "created",
            ContainerState::Running => "running",
            ContainerState::Paused => "paused",
            ContainerState::Stopped => "stopped",
            ContainerState::Failed(_) => "failed",
        };
        ContainerInfo {
            id: self.id,
            name: self.name.clone(),
            runtime: self.runtime.as_str(),
            state: st,
            pids: self.pids.clone(),
            cpu_used: self.cpu_used,
            heap_mb: self.heap_used / (1024 * 1024),
        }
    }
}

/// Container counts by state.
#[derive(Debug)]
pub struct ContainerStats {
    pub total: usize,
    pub running: usize,
    pub paused: usize,
    pub stopped: usize,
}

/// The containers and the next id.
pub struct ContainerManager {
    containers: Vec<Container>,
    next_id: u64,
}

/// The number of containers in a state.
pub open spec fn count_in(cs: Seq<Container>, f: spec_fn(ContainerState) -> bool) -> nat
    decreases cs.len(),
{
    if cs.len() == 0 { 0 } else { count_in(cs.drop_last(), f) + if f(cs.last().state) { 1nat } else { 0 } }
}

/// The containers kept by `remove(id)`: all but a stopped or created container with that id.
/// `j` is the first position of a container with id `id`.
pub open spec fn first_with_id(cs: Seq<Container>, id: u64, j: int) -> bool {
    &&& 0 <= j < cs.len()
    &&& cs[j].id == id
    &&& forall|k: int| 0 <= k < j ==> cs[k].id != id
}

pub open spec fn kept_by_remove(cs: Seq<Container>, id: u64) -> Seq<Container> {
    cs.filter(|c: Container| !(c.id == id && (c.state is Stopped || c.state is Created)))
}

impl ContainerManager {
    pub closed spec fn view(&self) -> Seq<Container> {
        self.containers@
    }

    pub closed spec fn next(&self) -> u64 {
        self.next_id
    }

    /// No containers; ids start at 1.
    pub fn new() -> (m: ContainerManager)
        ensures
            m@.len() == 0,
            m.next() == 1,
    {
        ContainerManager { containers: Vec::new(), next_id: 1 }
    }

    /// Creates a container (not started) and returns its id.
    pub fn create(&mut self, name: &str, runtime: RuntimeKind, limits: ResourceLimits, tick: u64) -> (id: u64)
        requires
            old(self).next() < u64::MAX,
        ensures
            id == old(self).next(),
            final(self).next() == id + 1,
            final(self)@.len() == old(self)@.len() + 1,
            final(self)@.subrange(0, old(self)@.len() as int) == old(self)@,
            final(self)@.last().id == id && final(self)@.last().name@ == name@,
            final(self)@.last().runtime == runtime && final(self)@.last().limits == limits,
            final(self)@.last().state is Created && final(self)@.last().created_at == tick,
    {
        let id = self.next_id;
        self.next_id = self.next_id + 1;
        let c = Container::new(id, String::from_str(name), runtime, limits, tick);
        self.containers.push(c);
        assert(self.containers@.subrange(0, old(self)@.len() as int) =~= old(self)@);
        id
    }

    fn find(&self, id: u64) -> (r: Option<usize>)
        ensures
            match r {
                Some(i) => i < self@.len() && self@[i as int].id == id && forall|j: int| 0 <= j < i ==> self@[j].id != id,
                None => forall|j: int| 0 <= j < self@.len() ==> self@[j].id != id,
            },
    {
        let mut i: usize = 0;
        while i < self.containers.len()
            invariant
                i <= self.containers@.len(),
                forall|j: int| 0 <= j < i ==> self.containers@[j].id != id,
            decreases self.containers@.len() - i,
        {
            if self.containers[i].id == id {
                return Some(i);
            }
            i = i + 1;
        }
        None
    }

    /// Starts the first container with id `id`.
    pub fn start(&mut self, sched: &mut Scheduler, id: u64, entry: u64, tick: u64) -> (r: Option<Pid>)
        requires
            old(sched).wf(),
            old(sched).next_pid_spec() < u64::MAX,
        ensures
            final(sched).wf(),
            final(self)@.len() == old(self)@.len(),
            final(self).next() == old(self).next(),
            r.is_some() <==> exists|j: int| 0 <= j < old(self)@.len() && old(self)@[j].id == id,
            r matches Some(pid) ==> pid == old(sched).next_pid_spec(),
            r.is_none() ==> final(self)@ == old(self)@ && *final(sched) == *old(sched),
            r matches Some(pid) ==> exists|j: int| 0 <= j < old(self)@.len() && first_with_id(old(self)@, id, j)
                && final(self)@[j].state is Running && final(self)@[j].pids@ == old(self)@[j].pids@.push(pid)
                && final(self)@[j].id == id
                && forall|k: int| 0 <= k < old(self)@.len() && k != j ==> final(self)@[k] == old(self)@[k],
    {
        match self.find(id) {
            None => None,
            Some(i) => {
                let mut c = self.containers.remove(i);
                let pid = c.start(sched, entry, tick);
                self.containers.insert(i, c);
                proof {
                    assert(first_with_id(old(self)@, id, i as int));
                    assert(forall|k: int| 0 <= k < old(self)@.len() && k != i ==> self@[k] == old(self)@[k]);
                }
                Some(pid)
            },
        }
    }

    /// Stops the first container with id `id`; false when there is none.
    pub fn stop(&mut self, sched: &mut Scheduler, id: u64) -> (ok: bool)
        requires
            old(sched).wf(),
        ensures
            final(sched).wf(),
            final(self)@.len() == old(self)@.len(),
            final(self).next() == old(self).next(),
            ok <==> exists|j: int| 0 <= j < old(self)@.len() && old(self)@[j].id == id,
            !ok ==> final(self)@ == old(self)@ && *final(sched) == *old(sched),
            ok ==> exists|j: int| 0 <= j < old(self)@.len() && first_with_id(old(self)@, id, j)
                && final(self)@[j].state is Stopped && final(self)@[j].pids@.len() == 0
                && final(self)@[j].id == id
                && forall|k: int| 0 <= k < old(self)@.len() && k != j ==> final(self)@[k] == old(self)@[k],
    {
        match self.find(id) {
            None => false,
            Some(i) => {
                let mut c = self.containers.remove(i);
                c.stop(sched);
                self.containers.insert(i, c);
                proof {
                    assert(first_with_id(old(self)@, id, i as int));
                    assert(forall|k: int| 0 <= k < old(self)@.len() && k != i ==> self@[k] == old(self)@[k]);
                }
                true
            },
        }
    }

    /// Removes the stopped or created containers with id `id`; true when one went.
    pub fn remove(&mut self, id: u64) -> (ok: bool)
        ensures
            final(self)@ == kept_by_remove(old(self)@, id),
            ok == (final(self)@.len() < old(self)@.len()),
            final(self).next() == old(self).next(),
    {
        let ghost old_cs = self.containers@;
        let mut kept: Vec<Container> = Vec::new();
        let before = self.containers.len();
        let mut all = Vec::new();
        std::mem::swap(&mut all, &mut self.containers);
        let mut k: usize = 0;
        let n = all.len();
        while all.len() > 0
            invariant
                k + all@.len() == n,
                n == old_cs.len(),
                all@ == old_cs.subrange(k as int, n as int),
                kept@ == kept_by_remove(old_cs.subrange(0, k as int), id),
            decreases all@.len(),
        {
            let c = all.remove(0);
            let drop = c.id == id && match c.state {
                ContainerState::Stopped | ContainerState::Created => true,
                _ => false,
            };
            proof {
                let f = |c: Container| !(c.id == id && (c.state is Stopped || c.state is Created));
                assert(old_cs.subrange(0, k + 1) =~= old_cs.subrange(0, k as int).push(c));
                old_cs.subrange(0, k as int).lemma_filter_push(c, f);
                assert(old_cs.subrange(k + 1, n as int) =~= all@);
            }
            if !drop {
                kept.push(c);
            }
            k = k + 1;
        }
        assert(old_cs.subrange(0, n as int) =~= old_cs);
        self.containers = kept;
        proof {
            lemma_filter_len(old_cs, id);
        }
        self.containers.len() < before
    }

    /// Summaries of all containers.
    pub fn list(&self) -> (v: Vec<ContainerInfo>)
        ensures
            v@.len() == self@.len(),
            forall|i: int| 0 <= i < v@.len() ==> (#[trigger] v@[i]).id == self@[i].id && v@[i].state@ == state_name(self@[i].state),
    {
        let mut v: Vec<ContainerInfo> = Vec::new();
        let mut k: usize = 0;
        while k < self.containers.len()
            invariant
                k <= self@.len(),
                v@.len() == k,
                forall|i: int| 0 <= i < k ==> (#[trigger] v@[i]).id == self@[i].id && v@[i].state@ == state_name(self@[i].state),
            decreases self@.len() - k,
        {
            v.push(self.containers[k].info());
            k = k + 1;
        }
        v
    }

    /// Counts by state.
    pub fn stats(&self) -> (st: ContainerStats)
        ensures
            st.total == self@.len(),
            st.running == count_in(self@, |s: ContainerState| s is Running),
            st.paused == count_in(self@, |s: ContainerState| s is Paused),
            st.stopped == count_in(self@, |s: ContainerState| s is Stopped),
    {
        let cs = &self.containers;
        let mut running: usize = 0;
        let mut paused: usize = 0;
        let mut stopped: usize = 0;
        let mut k: usize = 0;
        while k < cs.len()
            invariant
                k <= cs@.len(),
                cs@ == self@,
                running == count_in(cs@.subrange(0, k as int), |s: ContainerState| s is Running),
                paused == count_in(cs@.subrange(0, k as int), |s: ContainerState| s is Paused),
                stopped == count_in(cs@.subrange(0, k as int), |s: ContainerState| s is Stopped),
                running <= k && paused <= k && stopped <= k,
            decreases cs@.len() - k,
        {
            assert(cs@.subrange(0, k + 1).drop_last() =~= cs@.subrange(0, k as int));
            match cs[k].state {
                ContainerState::Running => { running = running + 1; },
                ContainerState::Paused => { paused = paused + 1; },
                ContainerState::Stopped => { stopped = stopped + 1; },
                _ => {},
            }
            k = k + 1;
        }
        assert(cs@.subrange(0, cs@.len() as int) =~= cs@);
        ContainerStats { total: cs.len(), running, paused, stopped }
    }

    /// Charges every running container one CPU tick; one that is then over its limits is
    /// stopped and marked failed.
    pub fn tick(&mut self, sched: &mut Scheduler, current_tick: u64)
        requires
            old(sched).wf(),
            forall|i: int| 0 <= i < old(self)@.len() ==> (#[trigger] old(self)@[i]).cpu_used < u64::MAX,
        ensures
            final(sched).wf(),
            final(self)@.len() == old(self)@.len(),
            forall|i: int| 0 <= i < old(self)@.len() ==> {
                let o = #[trigger] old(self)@[i];
                let n = final(self)@[i];
                &&& n.id == o.id
                &&& (o.state is Running) ==> n.cpu_used == o.cpu_used + 1
                    && (within_limits(Container { cpu_used: (o.cpu_used + 1) as u64, ..o }) ==> n.state is Running)
                    && (!within_limits(Container { cpu_used: (o.cpu_used + 1) as u64, ..o }) ==> n.state is Failed && n.pids@.len() == 0)
                &&& !(o.state is Running) ==> n.cpu_used == o.cpu_used && n.state == o.state
            },
    {
        let n = self.containers.len();
        let mut k: usize = 0;
        while k < n
            invariant
                k <= n,
                n == self.containers@.len(),
                n == old(self)@.len(),
                sched.wf(),
                forall|i: int| 0 <= i < old(self)@.len() ==> (#[trigger] old(self)@[i]).cpu_used < u64::MAX,
                forall|i: int| k <= i < n ==> self.containers@[i] == old(self)@[i],
                forall|i: int| 0 <= i < k ==> {
                    let o = #[trigger] old(self)@[i];
                    let c = self.containers@[i];
                    &&& c.id == o.id
                    &&& (o.state is Running) ==> c.cpu_used == o.cpu_used + 1
                        && (within_limits(Container { cpu_used: (o.cpu_used + 1) as u64, ..o }) ==> c.state is Running)
                        && (!within_limits(Container { cpu_used: (o.cpu_used + 1) as u64, ..o }) ==> c.state is Failed && c.pids@.len() == 0)
                    &&& !(o.state is Running) ==> c.cpu_used == o.cpu_used && c.state == o.state
                },
            decreases n - k,
        {
            let running = match self.containers[k].state {
                ContainerState::Running => true,
                _ => false,
            };
            if running {
                let mut c = self.containers.remove(k);
                assert(c == old(self)@[k as int]);
                c.cpu_used = c.cpu_used + 1;
                if !c.is_within_limits() {
                    c.stop(sched);
                    c.state = ContainerState::Failed(String::from_str("resource limit exceeded"));
                }
                self.containers.insert(k, c);
            }
            k = k + 1;
        }
    }
}

proof fn lemma_filter_len(cs: Seq<Container>, id: u64)
    ensures
        kept_by_remove(cs, id).len() <= cs.len(),
        kept_by_remove(cs, id).len() < cs.len() <==> exists|j: int| 0 <= j < cs.len() && cs[j].id == id
            && (cs[j].state is Stopped || cs[j].state is Created),
    decreases cs.len(),
{
    let f = |c: Container| !(c.id == id && (c.state is Stopped || c.state is Created));
    if cs.len() == 0 {
        assert(cs.filter(f) =~= Seq::<Container>::empty());
    } else {
        lemma_filter_len(cs.drop_last(), id);
        assert(cs.drop_last().push(cs.last()) =~= cs);
        cs.drop_last().lemma_filter_push(cs.last(), f);
        if exists|j: int| 0 <= j < cs.drop_last().len() && cs.drop_last()[j].id == id
            && (cs.drop_last()[j].state is Stopped || cs.drop_last()[j].state is Created) {
            let j = choose|j: int| 0 <= j < cs.drop_last().len() && cs.drop_last()[j].id == id
                && (cs.drop_last()[j].state is Stopped || cs.drop_last()[j].state is Created);
            assert(cs[j] == cs.drop_last()[j]);
        }
        if exists|j: int| 0 <= j < cs.len() && cs[j].id == id && (cs[j].state is Stopped || cs[j].state is Created) {
            let j = choose|j: int| 0 <= j < cs.len() && cs[j].id == id && (cs[j].state is Stopped || cs[j].state is Created);
            if j < cs.len() - 1 {
                assert(cs.drop_last()[j] == cs[j]);
            }
        }
    }
}

/// Announces the container engine; nothing to set up.
pub fn init() -> (m: ContainerManager)
    ensures
        m@.len() == 0,
        m.next() == 1,
{
    ContainerManager::new()
}

/// Creates a container in `mgr`, stamped with the scheduler's current tick.
pub fn create(mgr: &mut ContainerManager, sched: &Scheduler, name: &str, runtime: RuntimeKind, limits: ResourceLimits) -> (id: u64)
    requires
        old(mgr).next() < u64::MAX,
    ensures
        id == old(mgr).next(),
        final(mgr).next() == id + 1,
        final(mgr)@.len() == old(mgr)@.len() + 1,
        final(mgr)@.subrange(0, old(mgr)@.len() as int) == old(mgr)@,
        final(mgr)@.last().id == id && final(mgr)@.last().name@ == name@,
        final(mgr)@.last().runtime == runtime && final(mgr)@.last().limits == limits,
        final(mgr)@.last().state is Created && final(mgr)@.last().created_at == sched.now(),
{
    let tick = sched.current_tick();
    mgr.create(name, runtime, limits, tick)
}

/// Starts container `id` with its entry task, at the scheduler's current tick.
pub fn start(mgr: &mut ContainerManager, sched: &mut Scheduler, id: u64, entry: u64) -> (r: Option<Pid>)
    requires
        old(sched).wf(),
        old(sched).next_pid_spec() < u64::MAX,
    ensures
        final(sched).wf(),
        final(mgr)@.len() == old(mgr)@.len(),
        r.is_some() <==> exists|j: int| 0 <= j < old(mgr)@.len() && old(mgr)@[j].id == id,
        r matches Some(pid) ==> pid == old(sched).next_pid_spec(),
        r.is_none() ==> final(mgr)@ == old(mgr)@,
        r matches Some(pid) ==> exists|j: int| 0 <= j < old(mgr)@.len() && first_with_id(old(mgr)@, id, j)
            && final(mgr)@[j].state is Running && final(mgr)@[j].pids@ == old(mgr)@[j].pids@.push(pid)
            && forall|k: int| 0 <= k < old(mgr)@.len() && k != j ==> final(mgr)@[k] == old(mgr)@[k],
{
    let tick = sched.current_tick();
    mgr.start(sched, id, entry, tick)
}

/// Stops container `id`.
pub fn stop(mgr: &mut ContainerManager, sched: &mut Scheduler, id: u64) -> (ok: bool)
    requires
        old(sched).wf(),
    ensures
        final(sched).wf(),
        ok <==> exists|j: int| 0 <= j < old(mgr)@.len() && old(mgr)@[j].id == id,
        !ok ==> final(mgr)@ == old(mgr)@,
        ok ==> exists|j: int| 0 <= j < old(mgr)@.len() && first_with_id(old(mgr)@, id, j)
            && final(mgr)@[j].state is Stopped && final(mgr)@[j].pids@.len() == 0
            && forall|k: int| 0 <= k < old(mgr)@.len() && k != j ==> final(mgr)@[k] == old(mgr)@[k],
{
    mgr.stop(sched, id)
}

/// Removes container `id` when it is stopped or never started.
pub fn remove(mgr: &mut ContainerManager, id: u64) -> (ok: bool)
    ensures
        final(mgr)@ == kept_by_remove(old(mgr)@, id),
        ok == (final(mgr)@.len() < old(mgr)@.len()),
{
    mgr.remove(id)
}

/// Summaries of all containers.
pub fn list(mgr: &ContainerManager) -> (v: Vec<ContainerInfo>)
    ensures
        v@.len() == mgr@.len(),
        forall|i: int| 0 <= i < v@.len() ==> (#[trigger] v@[i]).id == mgr@[i].id && v@[i].state@ == state_name(mgr@[i].state),
{
    mgr.list()
}

/// Counts by state.
pub fn stats(mgr: &ContainerManager) -> (st: ContainerStats)
    ensures
        st.total == mgr@.len(),
        st.running == count_in(mgr@, |s: ContainerState| s is Running),
        st.paused == count_in(mgr@, |s: ContainerState| s is Paused),
        st.stopped == count_in(mgr@, |s: ContainerState| s is Stopped),
{
    mgr.stats()
}

/// One management tick over every container.
pub fn virt_tick(mgr: &mut ContainerManager, sched: &mut Scheduler, current_tick: u64)
    requires
        old(sched).wf(),
        forall|i: int| 0 <= i < old(mgr)@.len() ==> (#[trigger] old(mgr)@[i]).cpu_used < u64::MAX,
    ensures
        final(sched).wf(),
        final(mgr)@.len() == old(mgr)@.len(),
        forall|i: int| 0 <= i < old(mgr)@.len() ==> {
            let o = #[trigger] old(mgr)@[i];
            let n = final(mgr)@[i];
            &&& n.id == o.id
            &&& (o.state is Running) ==> n.cpu_used == o.cpu_used + 1
                && (within_limits(Container { cpu_used: (o.cpu_used + 1) as u64, ..o }) ==> n.state is Running)
                && (!within_limits(Container { cpu_used: (o.cpu_used + 1) as u64, ..o }) ==> n.state is Failed && n.pids@.len() == 0)
            &&& !(o.state is Running) ==> n.cpu_used == o.cpu_used && n.state == o.state
        },
{
    mgr.tick(sched, current_tick)
}

} // verus!
