//! Processes started from loaded modules or from kernel entry points, kept in
//! a registry beside the scheduler; and the symbol resolution that modules use.
use vstd::prelude::*;
use crate::elf_loader::{
    ElfError, ElfModuleManager, KernelSymbol, LoadedModule, find_export, image_of, kernel_lookup,
    kernel_view, load_error, resolve_kernel_symbol,
};
use crate::scheduler::{Pid, Priority, ProcessState, Scheduler, pindex};

verus! {

/// A symbol that the kernel exports to modules.
pub type KernelExport = KernelSymbol;

/// Why a module could not be run.
pub enum ExecError {
    Elf(ElfError),
    NoEntryPoint,
    MemoryFull,
}

/// A process started at run time.
#[derive(Clone)]
pub struct DynProcess {
    pub pid: Pid,
    pub name: String,
    pub elf_module: Option<String>,
    pub entry: u64,
}

/// The processes started at run time, in start order.
pub struct ProcessRegistry {
    processes: Vec<DynProcess>,
}

impl ProcessRegistry {
    /// The registered processes.
    pub closed spec fn view(&self) -> Seq<DynProcess> {
        self.processes@
    }

    /// No processes.
    pub fn new() -> (r: ProcessRegistry)
        ensures
            r@.len() == 0,
    {
        ProcessRegistry { processes: Vec::new() }
    }

    /// Records a process.
    pub fn register(&mut self, pid: Pid, name: String, elf_module: Option<String>, entry: u64)
        ensures
            final(self)@ == old(self)@.push(DynProcess { pid, name, elf_module, entry }),
    {
        self.processes.push(DynProcess { pid, name, elf_module, entry });
    }

    /// Forgets every record of `pid`; true when there was one.
    pub fn remove(&mut self, pid: Pid) -> (found: bool)
        ensures
            final(self)@ == old(self)@.filter(|p: DynProcess| p.pid != pid),
            found == exists|i: int| 0 <= i < old(self)@.len() && old(self)@[i].pid == pid,
    {
        let ghost f = |p: DynProcess| p.pid != pid;
        let mut all: Vec<DynProcess> = Vec::new();
        std::mem::swap(&mut all, &mut self.processes);
        let ghost old_ps = all@;
        let mut kept: Vec<DynProcess> = Vec::new();
        let mut k: usize = 0;
        let n = all.len();
        let mut found = false;
        while all.len() > 0
            invariant
                k + all@.len() == n,
                n == old_ps.len(),
                f == (|p: DynProcess| p.pid != pid),
                all@ == old_ps.subrange(k as int, n as int),
                kept@ == old_ps.subrange(0, k as int).filter(f),
                found == exists|i: int| 0 <= i < k && old_ps[i].pid == pid,
            decreases all@.len(),
        {
            let p = all.remove(0);
            assert(old_ps.subrange(0, k + 1) =~= old_ps.subrange(0, k as int).push(p));
            proof {
                old_ps.subrange(0, k as int).lemma_filter_push(p, f);
            }
            assert(old_ps.subrange(k + 1, n as int) =~= all@);
            assert(p == old_ps[k as int]);
            if p.pid != pid {
                kept.push(p);
            } else {
                found = true;
            }
            k = k + 1;
        }
        assert(old_ps.subrange(0, n as int) =~= old_ps);
        self.processes = kept;
        found
    }

    /// A copy of the records.
    pub fn list(&self) -> (v: Vec<DynProcess>)
        ensures
            v@.len() == self@.len(),
            forall|i: int| 0 <= i < v@.len() ==> (#[trigger] v@[i]).pid == self@[i].pid
                && v@[i].name@ == self@[i].name@ && v@[i].entry == self@[i].entry,
    {
        let mut v: Vec<DynProcess> = Vec::new();
        let mut i: usize = 0;
        while i < self.processes.len()
            invariant
                i <= self@.len(),
                v@.len() == i,
                forall|j: int| 0 <= j < i ==> (#[trigger] v@[j]).pid == self@[j].pid
                    && v@[j].name@ == self@[j].name@ && v@[j].entry == self@[j].entry,
            decreases self@.len() - i,
        {
            let p = &self.processes[i];
            v.push(DynProcess { pid: p.pid, name: p.name.clone(), elf_module: p.elf_module.clone(), entry: p.entry });
            i = i + 1;
        }
        v
    }

    /// The first record of `pid`.
    pub fn find(&self, pid: Pid) -> (r: Option<&DynProcess>)
        ensures
            match r {
                Some(p) => exists|i: int| 0 <= i < self@.len() && self@[i] == *p && p.pid == pid
                    && forall|j: int| 0 <= j < i ==> self@[j].pid != pid,
                None => forall|i: int| 0 <= i < self@.len() ==> self@[i].pid != pid,
            },
    {
        let mut i: usize = 0;
        while i < self.processes.len()
            invariant
                i <= self@.len(),
                forall|j: int| 0 <= j < i ==> self@[j].pid != pid,
            decreases self@.len() - i,
        {
            if self.processes[i].pid == pid {
                return Some(&self.processes[i]);
            }
            i = i + 1;
        }
        None
    }
}

/// Resolves `name`: the kernel's exports first, then the loaded modules.
pub fn resolve_symbol(exports: &[KernelExport], mgr: &ElfModuleManager, name: &str) -> (r: Option<u64>)
    requires
        mgr.wf(),
    ensures
        r == (match kernel_lookup(kernel_view(exports@), name@) {
            Some(a) => Some(a),
            None => find_export(mgr@, name@),
        }),
{
    let key = String::from_str(name);
    match resolve_kernel_symbol(exports, &key) {
        Some(a) => Some(a),
        None => mgr.find_symbol(name),
    }
}

/// Loads module `name` from `data` at `base_address` and runs it as a process
/// whose entry is the module's base address.
pub fn exec_elf(
    reg: &mut ProcessRegistry,
    mgr: &mut ElfModuleManager,
    sched: &mut Scheduler,
    name: &str,
    data: &[u8],
    base_address: u64,
    kernel: &[KernelExport],
) -> (r: Result<Pid, ExecError>)
    requires
        old(mgr).wf(),
        old(sched).wf(),
        old(sched).next_pid_spec() < u64::MAX,
    ensures
        final(mgr).wf(),
        final(sched).wf(),
        match r {
            Err(ExecError::Elf(e)) => load_error(data@) == Some(e) && final(reg)@ == old(reg)@,
            Err(_) => false,
            Ok(pid) => {
                &&& pid == old(sched).next_pid_spec()
                &&& final(sched)@.last().pid == pid && final(sched)@.last().name@ == name@
                &&& final(sched)@.last().priority == Priority::Normal
                &&& final(reg)@.len() == old(reg)@.len() + 1
                &&& final(reg)@.drop_last() == old(reg)@
                &&& final(reg)@.last().pid == pid && final(reg)@.last().name@ == name@
                &&& final(reg)@.last().elf_module matches Some(m) && m@ == name@
                &&& exists|i: int| 0 <= i < final(mgr)@.len() && final(mgr)@[i].name@ == name@
                    && final(reg)@.last().entry == final(mgr)@[i].base_address
                    && forall|j: int| 0 <= j < i ==> final(mgr)@[j].name@ != name@
            },
        },
{
    match mgr.load(name, data, base_address, kernel) {
        Err(e) => {
            return Err(ExecError::Elf(e));
        },
        Ok(()) => {},
    }
    proof {
        if forall|j: int| 0 <= j < old(mgr)@.len() ==> old(mgr)@[j].name@ != name@ {
            assert(mgr@[mgr@.len() - 1].name@ == name@);
        }
    }
    assert(exists|j: int| 0 <= j < mgr@.len() && mgr@[j].name@ == name@);
    let list = mgr.list();
    let key = String::from_str(name);
    let mut entry: Option<u64> = None;
    let mut i: usize = 0;
    while i < list.len() && entry.is_none()
        invariant
            i <= list@.len(),
            list@.len() == mgr@.len(),
            key@ == name@,
            forall|j: int| 0 <= j < list@.len() ==> (#[trigger] list@[j]).0@ == mgr@[j].name@
                && list@[j].1 == mgr@[j].base_address,
            entry.is_none() ==> forall|j: int| 0 <= j < i ==> mgr@[j].name@ != name@,
            entry matches Some(e) ==> i > 0 && mgr@[i - 1].name@ == name@ && e == mgr@[i - 1].base_address
                && forall|j: int| 0 <= j < i - 1 ==> mgr@[j].name@ != name@,
        decreases list@.len() - i,
    {
        if list[i].0 == key {
            entry = Some(list[i].1);
        }
        i = i + 1;
    }
    let entry = match entry {
        Some(e) => e,
        None => {
            return Err(ExecError::NoEntryPoint);
        },
    };
    let pid = sched.spawn(name, entry, Priority::Normal);
    reg.register(pid, String::from_str(name), Some(String::from_str(name)), entry);
    assert(reg@.drop_last() =~= old(reg)@);
    Ok(pid)
}

/// Ends process `pid` when the registry knows it: forgets it and marks it Dead
/// with exit code -1. False when it was not registered.
pub fn kill(reg: &mut ProcessRegistry, sched: &mut Scheduler, pid: Pid) -> (found: bool)
    requires
        old(sched).wf(),
    ensures
        final(sched).wf(),
        final(reg)@ == old(reg)@.filter(|p: DynProcess| p.pid != pid),
        found == exists|i: int| 0 <= i < old(reg)@.len() && old(reg)@[i].pid == pid,
        !found ==> *final(sched) == *old(sched),
        found ==> match pindex(old(sched)@, pid) {
            Some(i) => final(sched)@[i].state == (ProcessState::Dead { exit_code: -1i32 }),
            None => final(sched)@ == old(sched)@,
        },
{
    let found = reg.remove(pid);
    if found {
        sched.exit_process(pid, -1);
    }
    found
}

/// Starts a kernel task at `entry` and records it.
pub fn spawn_kernel_task(reg: &mut ProcessRegistry, sched: &mut Scheduler, name: &str, entry: u64, priority: Priority) -> (pid: Pid)
    requires
        old(sched).wf(),
        old(sched).next_pid_spec() < u64::MAX,
    ensures
        final(sched).wf(),
        pid == old(sched).next_pid_spec(),
        final(sched)@.last().pid == pid && final(sched)@.last().name@ == name@,
        final(sched)@.last().priority == priority,
        final(reg)@.len() == old(reg)@.len() + 1,
        final(reg)@.drop_last() == old(reg)@,
        final(reg)@.last().pid == pid && final(reg)@.last().name@ == name@,
        final(reg)@.last().elf_module.is_none() && final(reg)@.last().entry == entry,
{
    let pid = sched.spawn(name, entry, priority);
    reg.register(pid, String::from_str(name), None, entry);
    assert(reg@.drop_last() =~= old(reg)@);
    pid
}

/// The registered processes.
pub fn list_dynamic(reg: &ProcessRegistry) -> (v: Vec<DynProcess>)
    ensures
        v@.len() == reg@.len(),
        forall|i: int| 0 <= i < v@.len() ==> (#[trigger] v@[i]).pid == reg@[i].pid && v@[i].entry == reg@[i].entry,
{
    reg.list()
}

/// How many symbols the kernel exports.
pub fn kernel_symbol_count(exports: &[KernelExport]) -> (n: usize)
    ensures
        n == exports@.len(),
{
    exports.len()
}

/// The built-in demonstration module: there is none, so its bytes are empty.
pub fn demo_elf_bytes() -> (v: Vec<u8>)
    ensures
        v@.len() == 0,
{
    Vec::new()
}

} // verus!
