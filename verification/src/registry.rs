//! The module system: the interface every kernel module implements and the
//! registry that records each module once and follows its state.
use vstd::prelude::*;
use crate::discovery::same_text;

verus! {

/// Where a module is in its life.
#[derive(Debug)]
pub enum ModuleState {
    Registered,
    Loading,
    Active,
    Suspended,
    Failed(String),
    Unloaded,
}

/// Load priority of a module.
#[derive(Clone, Copy, PartialEq, Eq, Structural, Debug)]
pub enum ModulePriority {
    Critical,
    High,
    Normal,
    Low,
}

/// The rank of a priority: 0 loads first.
pub open spec fn priority_rank(p: ModulePriority) -> u8 {
    match p {
        ModulePriority::Critical => 0,
        ModulePriority::High => 1,
        ModulePriority::Normal => 2,
        ModulePriority::Low => 3,
    }
}

impl ModulePriority {
    /// The rank: 0 loads first.
    pub fn rank(&self) -> (r: u8)
        ensures
            r == priority_rank(*self),
    {
        match self {
            ModulePriority::Critical => 0,
            ModulePriority::High => 1,
            ModulePriority::Normal => 2,
            ModulePriority::Low => 3,
        }
    }
}

/// What a module reports about itself.
#[derive(Clone, Copy, Debug)]
pub struct ModuleStatusInfo {
    pub name: &'static str,
    pub version: &'static str,
    pub priority: ModulePriority,
    pub memory_usage_kb: usize,
}

/// The interface between the kernel and a module.
pub trait KernelModule {
    /// Unique name, such as "security.sandbox".
    fn name(&self) -> &'static str;

    /// Semantic version.
    fn version(&self) -> &'static str;

    /// What the module does.
    fn description(&self) -> &'static str;

    /// The modules this one needs.
    fn dependencies(&self) -> &'static [&'static str] {
        &[]
    }

    /// Load priority.
    fn priority(&self) -> ModulePriority {
        ModulePriority::Normal
    }

    /// Starts the module.
    fn init(&self) -> Result<(), &'static str>;

    /// Releases the module's resources.
    fn cleanup(&self);

    /// Name, version and priority, with no memory use reported.
    fn status_info(&self) -> ModuleStatusInfo {
        ModuleStatusInfo { name: self.name(), version: self.version(), priority: self.priority(), memory_usage_kb: 0 }
    }
}

/// A module as the registry knows it.
#[derive(Debug)]
pub struct ModuleEntry {
    pub name: &'static str,
    pub state: ModuleState,
    pub status: ModuleStatusInfo,
}

/// Counts of modules.
#[derive(Clone, Copy, Debug)]
pub struct RegistryStats {
    pub total: usize,
    pub active: usize,
    pub failed: usize,
}

/// Whether some entry of `s` is named `name`.
pub open spec fn named(s: Seq<ModuleEntry>, name: Seq<char>) -> bool {
    exists|i: int| 0 <= i < s.len() && (#[trigger] s[i]).name@ == name
}

/// The modules, in registration order, each name once.
pub struct ModuleRegistry {
    pub entries: Vec<ModuleEntry>,
}

impl ModuleRegistry {
    /// No two entries share a name.
    pub open spec fn wf(&self) -> bool {
        forall|i: int, j: int| 0 <= i < j < self.entries@.len() ==> (#[trigger] self.entries@[i]).name@ != (#[trigger] self.entries@[j]).name@
    }

    /// No modules.
    pub fn new() -> (r: ModuleRegistry)
        ensures
            r.wf(),
            r.entries@.len() == 0,
    {
        ModuleRegistry { entries: Vec::new() }
    }

    fn position(&self, name: &str) -> (r: Option<usize>)
        ensures
            match r {
                Some(i) => i < self.entries@.len() && self.entries@[i as int].name@ == name@
                    && forall|j: int| 0 <= j < i ==> (#[trigger] self.entries@[j]).name@ != name@,
                None => !named(self.entries@, name@),
            },
    {
        let mut i: usize = 0;
        while i < self.entries.len()
            invariant
                i <= self.entries@.len(),
                forall|j: int| 0 <= j < i ==> (#[trigger] self.entries@[j]).name@ != name@,
            decreases self.entries@.len() - i,
        {
            if same_text(self.entries[i].name, name) {
                return Some(i);
            }
            i = i + 1;
        }
        None
    }

    /// Records a module under `status`'s name as registered, unless a module of
    /// that name is known.
    pub fn register(&mut self, status: ModuleStatusInfo)
        requires
            old(self).wf(),
        ensures
            final(self).wf(),
            named(old(self).entries@, status.name@) ==> final(self).entries@ == old(self).entries@,
            !named(old(self).entries@, status.name@) ==> {
                &&& final(self).entries@.drop_last() == old(self).entries@
                &&& final(self).entries@.len() == old(self).entries@.len() + 1
                &&& final(self).entries@.last().name == status.name
                &&& final(self).entries@.last().state is Registered
                &&& final(self).entries@.last().status == status
            },
    {
        self.register_named(status.name, status);
    }

    /// Records a module named `name` with `status` as registered, unless a
    /// module of that name is known.
    fn register_named(&mut self, name: &'static str, status: ModuleStatusInfo)
        requires
            old(self).wf(),
        ensures
            final(self).wf(),
            named(old(self).entries@, name@) ==> final(self).entries@ == old(self).entries@,
            !named(old(self).entries@, name@) ==> {
                &&& final(self).entries@.drop_last() == old(self).entries@
                &&& final(self).entries@.len() == old(self).entries@.len() + 1
                &&& final(self).entries@.last().name == name
                &&& final(self).entries@.last().state is Registered
                &&& final(self).entries@.last().status == status
            },
    {
        match self.position(name) {
            Some(_) => {},
            None => {
                self.entries.push(ModuleEntry { name, state: ModuleState::Registered, status });
                proof {
                    assert(self.entries@.drop_last() =~= old(self).entries@);
                    assert forall|i: int, j: int| 0 <= i < j < self.entries@.len() implies
                        (#[trigger] self.entries@[i]).name@ != (#[trigger] self.entries@[j]).name@ by {
                        if j == self.entries@.len() - 1 {
                            assert(old(self).entries@[i] == self.entries@[i]);
                        }
                    }
                }
            },
        }
    }

    /// Sets the state of the module named `name`, if it is known.
    pub fn set_state(&mut self, name: &str, state: ModuleState)
        requires
            old(self).wf(),
        ensures
            final(self).wf(),
            final(self).entries@.len() == old(self).entries@.len(),
            forall|i: int| 0 <= i < old(self).entries@.len() ==> {
                let o = old(self).entries@[i];
                let n = #[trigger] final(self).entries@[i];
                &&& n.name == o.name && n.status == o.status
                &&& n.state == (if o.name@ == name@ { state } else { o.state })
            },
    {
        match self.position(name) {
            Some(i) => {
                let e = self.entries.remove(i);
                let ne = ModuleEntry { name: e.name, state, status: e.status };
                self.entries.insert(i, ne);
                proof {
                    assert forall|k: int| 0 <= k < old(self).entries@.len() implies {
                        let o = old(self).entries@[k];
                        let n = #[trigger] self.entries@[k];
                        &&& n.name == o.name && n.status == o.status
                        &&& n.state == (if o.name@ == name@ { state } else { o.state })
                    } by {
                        if k != i {
                            assert(self.entries@[k] == old(self).entries@[k]);
                            if old(self).entries@[k].name@ == name@ {
                                assert(old(self).entries@[k].name@ == old(self).entries@[i as int].name@);
                            }
                        }
                    }
                    assert forall|a: int, b: int| 0 <= a < b < self.entries@.len() implies
                        (#[trigger] self.entries@[a]).name@ != (#[trigger] self.entries@[b]).name@ by {
                        assert(self.entries@[a].name == old(self).entries@[a].name);
                        assert(self.entries@[b].name == old(self).entries@[b].name);
                    }
                }
            },
            None => {},
        }
    }

    /// The state of the module named `name`, if it is known.
    pub fn get_state(&self, name: &str) -> (r: Option<&ModuleState>)
        requires
            self.wf(),
        ensures
            match r {
                Some(s) => exists|i: int| 0 <= i < self.entries@.len() && (#[trigger] self.entries@[i]).name@ == name@
                    && self.entries@[i].state == *s,
                None => !named(self.entries@, name@),
            },
    {
        match self.position(name) {
            Some(i) => Some(&self.entries[i].state),
            None => None,
        }
    }

    /// The active modules, in registration order.
    pub fn active_modules(&self) -> (v: Vec<&ModuleEntry>)
        ensures
            v@.map_values(|r: &ModuleEntry| *r) == self.entries@.filter(|e: ModuleEntry| e.state is Active),
    {
        let ghost f = |e: ModuleEntry| e.state is Active;
        let mut v: Vec<&ModuleEntry> = Vec::new();
        let mut i: usize = 0;
        while i < self.entries.len()
            invariant
                i <= self.entries@.len(),
                f == (|e: ModuleEntry| e.state is Active),
                v@.map_values(|r: &ModuleEntry| *r) == self.entries@.subrange(0, i as int).filter(f),
            decreases self.entries@.len() - i,
        {
            let e = &self.entries[i];
            proof {
                assert(self.entries@.subrange(0, i + 1) =~= self.entries@.subrange(0, i as int).push(*e));
                self.entries@.subrange(0, i as int).lemma_filter_push(*e, f);
            }
            let ghost before = v@.map_values(|r: &ModuleEntry| *r);
            let active = match e.state {
                ModuleState::Active => true,
                _ => false,
            };
            if active {
                v.push(e);
                assert(v@.map_values(|r: &ModuleEntry| *r) =~= before.push(*e));
            }
            i = i + 1;
        }
        assert(self.entries@.subrange(0, i as int) =~= self.entries@);
        v
    }

    /// All, active and failed modules.
    pub fn stats(&self) -> (s: RegistryStats)
        ensures
            s.total == self.entries@.len(),
            s.active == self.entries@.filter(|e: ModuleEntry| e.state is Active).len(),
            s.failed == self.entries@.filter(|e: ModuleEntry| e.state is Failed).len(),
    {
        let ghost fa = |e: ModuleEntry| e.state is Active;
        let ghost ff = |e: ModuleEntry| e.state is Failed;
        let mut a: usize = 0;
        let mut f: usize = 0;
        let mut i: usize = 0;
        while i < self.entries.len()
            invariant
                i <= self.entries@.len(),
                fa == (|e: ModuleEntry| e.state is Active),
                ff == (|e: ModuleEntry| e.state is Failed),
                a == self.entries@.subrange(0, i as int).filter(fa).len(),
                f == self.entries@.subrange(0, i as int).filter(ff).len(),
                a <= i && f <= i,
            decreases self.entries@.len() - i,
        {
            let e = &self.entries[i];
            proof {
                assert(self.entries@.subrange(0, i + 1) =~= self.entries@.subrange(0, i as int).push(*e));
                self.entries@.subrange(0, i as int).lemma_filter_push(*e, fa);
                self.entries@.subrange(0, i as int).lemma_filter_push(*e, ff);
            }
            match e.state {
                ModuleState::Active => { a = a + 1; },
                ModuleState::Failed(_) => { f = f + 1; },
                _ => {},
            }
            i = i + 1;
        }
        assert(self.entries@.subrange(0, i as int) =~= self.entries@);
        RegistryStats { total: self.entries.len(), active: a, failed: f }
    }
}

/// Registers `module` under the name it gives, unless a module of that name
/// is known, and starts it: the entry of that name ends Active when `init`
/// succeeds and Failed with its message when it fails; every other entry is
/// left as it was. It is marked loading while `init` runs. Returns the name
/// and what `init` returned.
pub fn register_and_init<M: KernelModule>(reg: &mut ModuleRegistry, module: &M) -> (r: (&'static str, Result<(), &'static str>))
    requires
        old(reg).wf(),
    ensures
        final(reg).wf(),
        ({
            let n = r.0@;
            &&& named(old(reg).entries@, n) ==> final(reg).entries@.len() == old(reg).entries@.len()
            &&& !named(old(reg).entries@, n) ==> final(reg).entries@.len() == old(reg).entries@.len() + 1
                && final(reg).entries@.last().name == r.0
            &&& exists|i: int| 0 <= i < final(reg).entries@.len() && (#[trigger] final(reg).entries@[i]).name@ == n
                && match r.1 {
                    Ok(()) => final(reg).entries@[i].state is Active,
                    Err(e) => final(reg).entries@[i].state matches ModuleState::Failed(m) && m@ == e@,
                }
            &&& forall|i: int| 0 <= i < old(reg).entries@.len() && (#[trigger] old(reg).entries@[i]).name@ != n
                ==> final(reg).entries@[i] == old(reg).entries@[i]
        }),
{
    let name = module.name();
    let status = module.status_info();
    let ghost was = named(reg.entries@, name@);
    reg.register_named(name, status);
    proof {
        if !was {
            assert(reg.entries@[reg.entries@.len() - 1].name@ == name@);
        }
    }
    assert(named(reg.entries@, name@));
    let ghost k = choose|k: int| 0 <= k < reg.entries@.len() && (#[trigger] reg.entries@[k]).name@ == name@;
    reg.set_state(name, ModuleState::Loading);
    assert(reg.entries@[k].name@ == name@);
    let result = module.init();
    match result {
        Ok(()) => {
            reg.set_state(name, ModuleState::Active);
            assert(reg.entries@[k].name@ == name@);
        },
        Err(e) => {
            reg.set_state(name, ModuleState::Failed(String::from_str(e)));
            assert(reg.entries@[k].name@ == name@);
        },
    }
    (name, result)
}

} // verus!
