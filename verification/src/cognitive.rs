//! The rules of the cognitive engine: the conditions a usage pattern waits
//! for, the context they are checked against, and the actions it can take.
use vstd::prelude::*;

verus! {

/// Ticks in an hour at 60 Hz.
pub const TICKS_PER_HOUR: u64 = 216000;

/// A snapshot of the system to reason on.
#[derive(Debug)]
pub struct CognitiveContext {
    pub tick: u64,
    pub cpu_pct: u8,
    pub ram_pct: u8,
    pub peers_active: usize,
    pub dag_pending: usize,
    pub threats_active: usize,
    pub edge_nodes_free: usize,
    pub open_apps: Vec<String>,
    pub online_device_kinds: Vec<String>,
    pub battery_pct: Option<u8>,
}

impl Default for CognitiveContext {
    fn default() -> (c: CognitiveContext)
        ensures
            c.tick == 0 && c.cpu_pct == 0 && c.ram_pct == 0 && c.peers_active == 0 && c.dag_pending == 0,
            c.threats_active == 0 && c.edge_nodes_free == 0,
            c.open_apps@.len() == 0 && c.online_device_kinds@.len() == 0 && c.battery_pct.is_none(),
    {
        CognitiveContext {
            tick: 0,
            cpu_pct: 0,
            ram_pct: 0,
            peers_active: 0,
            dag_pending: 0,
            threats_active: 0,
            edge_nodes_free: 0,
            open_apps: Vec::new(),
            online_device_kinds: Vec::new(),
            battery_pct: None,
        }
    }
}

/// Whether `name` is among `names`.
pub open spec fn names_contain(names: Seq<String>, name: Seq<char>) -> bool {
    exists|i: int| 0 <= i < names.len() && #[trigger] names[i]@ == name
}

fn contains_name(names: &Vec<String>, name: &String) -> (r: bool)
    ensures
        r == names_contain(names@, name@),
{
    let mut i: usize = 0;
    while i < names.len()
        invariant
            i <= names@.len(),
            forall|j: int| 0 <= j < i ==> names@[j]@ != name@,
        decreases names@.len() - i,
    {
        if names[i] == *name {
            assert(names@[i as int]@ == name@);
            return true;
        }
        i = i + 1;
    }
    false
}

/// A condition a usage pattern waits for.
#[derive(Debug)]
pub enum PatternTrigger {
    /// The hour of the day, counted from tick 0.
    TimeOfDay { hour_approx: u64 },
    CpuHigh { threshold: u8 },
    RamHigh { threshold: u8 },
    AppOpened { name: String },
    PeersActive { min: usize },
    DagPending { min: usize },
    DeviceOnline { kind: String },
    ThreatDetected,
    /// Every `interval_ticks` ticks.
    Periodic { interval_ticks: u64 },
}

/// Whether a trigger holds in a context.
pub open spec fn trigger_holds(t: PatternTrigger, ctx: CognitiveContext) -> bool {
    match t {
        PatternTrigger::CpuHigh { threshold } => ctx.cpu_pct >= threshold,
        PatternTrigger::RamHigh { threshold } => ctx.ram_pct >= threshold,
        PatternTrigger::PeersActive { min } => ctx.peers_active >= min,
        PatternTrigger::DagPending { min } => ctx.dag_pending >= min,
        PatternTrigger::ThreatDetected => ctx.threats_active > 0,
        PatternTrigger::Periodic { interval_ticks } => ctx.tick % interval_ticks == 0,
        PatternTrigger::TimeOfDay { hour_approx } => (ctx.tick / TICKS_PER_HOUR) % 24 == hour_approx,
        PatternTrigger::AppOpened { name } => names_contain(ctx.open_apps@, name@),
        PatternTrigger::DeviceOnline { kind } => names_contain(ctx.online_device_kinds@, kind@),
    }
}

impl PatternTrigger {
    /// Whether the trigger holds in `ctx` (see `trigger_holds`). A periodic
    /// trigger needs a nonzero interval.
    pub fn evaluate(&self, ctx: &CognitiveContext) -> (r: bool)
        requires
            self matches PatternTrigger::Periodic { interval_ticks } ==> interval_ticks != 0,
        ensures
            r == trigger_holds(*self, *ctx),
    {
        match self {
            PatternTrigger::CpuHigh { threshold } => ctx.cpu_pct >= *threshold,
            PatternTrigger::RamHigh { threshold } => ctx.ram_pct >= *threshold,
            PatternTrigger::PeersActive { min } => ctx.peers_active >= *min,
            PatternTrigger::DagPending { min } => ctx.dag_pending >= *min,
            PatternTrigger::ThreatDetected => ctx.threats_active > 0,
            PatternTrigger::Periodic { interval_ticks } => ctx.tick % *interval_ticks == 0,
            PatternTrigger::TimeOfDay { hour_approx } => (ctx.tick / TICKS_PER_HOUR) % 24 == *hour_approx,
            PatternTrigger::AppOpened { name } => contains_name(&ctx.open_apps, name),
            PatternTrigger::DeviceOnline { kind } => contains_name(&ctx.online_device_kinds, kind),
        }
    }
}

/// Whether every trigger holds.
pub open spec fn all_hold(ts: Seq<PatternTrigger>, ctx: CognitiveContext) -> bool {
    forall|i: int| 0 <= i < ts.len() ==> trigger_holds(#[trigger] ts[i], ctx)
}

/// Whether all the triggers of a pattern hold; periodic ones need a nonzero interval.
pub fn all_triggers_hold(ts: &Vec<PatternTrigger>, ctx: &CognitiveContext) -> (r: bool)
    requires
        forall|i: int| 0 <= i < ts@.len() ==> (#[trigger] ts@[i] matches PatternTrigger::Periodic { interval_ticks }
            ==> interval_ticks != 0),
    ensures
        r == all_hold(ts@, *ctx),
{
    let mut i: usize = 0;
    while i < ts.len()
        invariant
            i <= ts@.len(),
            forall|j: int| 0 <= j < ts@.len() ==> (#[trigger] ts@[j] matches PatternTrigger::Periodic { interval_ticks }
                ==> interval_ticks != 0),
            forall|j: int| 0 <= j < i ==> trigger_holds(#[trigger] ts@[j], *ctx),
        decreases ts@.len() - i,
    {
        if !ts[i].evaluate(ctx) {
            return false;
        }
        i = i + 1;
    }
    true
}

/// Whether a pattern whose action last ran at `last_executed` may run again
/// at `tick` with cooldown `cooldown` (time going backwards counts as 0).
pub fn can_execute(tick: u64, last_executed: u64, cooldown: u64) -> (r: bool)
    ensures
        r == ((if tick >= last_executed { tick - last_executed } else { 0 }) >= cooldown),
{
    let elapsed = if tick >= last_executed { tick - last_executed } else { 0 };
    elapsed >= cooldown
}

/// An action the engine can take.
#[derive(Debug)]
pub enum AutoAction {
    PreloadApp { name: String },
    OffloadToEdge { task: String },
    ForcePeerSync,
    BackupToDag { path: String },
    Notify { title: String, body: String },
    AdjustPrivacy { level: String },
    IsolateThreats,
    RebalanceContainers,
    SyncToDevice { kind: String },
    GarbageCollect,
    Sequence(Vec<AutoAction>),
}

/// The short name of each action.
pub open spec fn action_name(a: AutoAction) -> Seq<char> {
    match a {
        AutoAction::PreloadApp { .. } => "preload-app"@,
        AutoAction::OffloadToEdge { .. } => "offload-edge"@,
        AutoAction::ForcePeerSync => "p2p-sync"@,
        AutoAction::BackupToDag { .. } => "backup-dag"@,
        AutoAction::Notify { .. } => "notify"@,
        AutoAction::AdjustPrivacy { .. } => "adjust-privacy"@,
        AutoAction::IsolateThreats => "isolate-threats"@,
        AutoAction::RebalanceContainers => "rebalance-ct"@,
        AutoAction::SyncToDevice { .. } => "sync-device"@,
        AutoAction::GarbageCollect => "gc"@,
        AutoAction::Sequence(_) => "sequence"@,
    }
}

impl AutoAction {
    /// The short name of the action.
    pub fn as_str(&self) -> (s: &'static str)
        ensures
            s@ == action_name(*self),
    {
        match self {
            AutoAction::PreloadApp { .. } => "preload-app",
            AutoAction::OffloadToEdge { .. } => "offload-edge",
            AutoAction::ForcePeerSync => "p2p-sync",
            AutoAction::BackupToDag { .. } => "backup-dag",
            AutoAction::Notify { .. } => "notify",
            AutoAction::AdjustPrivacy { .. } => "adjust-privacy",
            AutoAction::IsolateThreats => "isolate-threats",
            AutoAction::RebalanceContainers => "rebalance-ct",
            AutoAction::SyncToDevice { .. } => "sync-device",
            AutoAction::GarbageCollect => "gc",
            AutoAction::Sequence(_) => "sequence",
        }
    }
}

/// What a node of the knowledge graph stands for.
#[derive(Debug, Clone, Copy, PartialEq, Eq, Structural)]
pub enum NodeKind {
    App,
    Device,
    User,
    File,
    Service,
    Event,
    Concept,
}

/// How an episode ended.
#[derive(Debug, Clone, Copy, PartialEq, Eq, Structural)]
pub enum EpisodeOutcome {
    Success,
    Failure,
    Neutral,
}

/// Counters of the engine.
#[derive(Debug, Clone, Copy)]
pub struct CognitiveStats {
    pub cycles_run: u64,
    pub patterns_matched: u64,
    pub actions_executed: u64,
    pub suggestions_made: u64,
    pub episodes_stored: usize,
}

impl Default for CognitiveStats {
    fn default() -> (s: CognitiveStats)
        ensures
            s.cycles_run == 0 && s.patterns_matched == 0 && s.actions_executed == 0,
            s.suggestions_made == 0 && s.episodes_stored == 0,
    {
        CognitiveStats { cycles_run: 0, patterns_matched: 0, actions_executed: 0, suggestions_made: 0, episodes_stored: 0 }
    }
}

/// Whether a cycle runs at `tick`: at least `interval` ticks after the last
/// one (time going backwards counts as 0).
pub fn cycle_due(tick: u64, last_tick: u64, interval: u64) -> (r: bool)
    ensures
        r == ((if tick >= last_tick { tick - last_tick } else { 0 }) >= interval),
{
    let elapsed = if tick >= last_tick { tick - last_tick } else { 0 };
    elapsed >= interval
}

/// The position from which the last `n` entries of a log of `len` entries start.
pub fn recent_start(len: usize, n: usize) -> (s: usize)
    ensures
        s == (if len >= n { len - n } else { 0 }),
{
    if len >= n { len - n } else { 0 }
}

/// The action log keeps about this many entries: one more is dropped from the
/// front before each append once it holds more.
pub const ACTION_LOG_KEEP: usize = 51;

/// The memory keeps at most this many episodes.
pub const MAX_EPISODES: usize = 256;

/// `v` after appending `x`, the oldest entry dropped first when `v` already
/// holds `keep` entries or more.
pub open spec fn pushed_bounded<T>(v: Seq<T>, x: T, keep: nat) -> Seq<T> {
    (if v.len() >= keep && v.len() > 0 { v.drop_first() } else { v }).push(x)
}

/// Appends `x` to a log that keeps its newest `keep` entries: the oldest one
/// goes first when the log is full.
pub fn push_bounded<T>(v: &mut Vec<T>, x: T, keep: usize)
    requires
        keep > 0,
    ensures
        final(v)@ == pushed_bounded(old(v)@, x, keep as nat),
        old(v)@.len() <= keep ==> final(v)@.len() <= keep,
{
    if v.len() >= keep {
        v.remove(0);
    }
    v.push(x);
}

/// The position of the first pattern with id `id`, given the patterns' ids in
/// order; None when no pattern has it.
pub fn find_pattern(ids: &[u64], id: u64) -> (r: Option<usize>)
    ensures
        match r {
            Some(i) => i < ids@.len() && ids@[i as int] == id && forall|j: int| 0 <= j < i ==> ids@[j] != id,
            None => forall|j: int| 0 <= j < ids@.len() ==> ids@[j] != id,
        },
{
    let mut i: usize = 0;
    while i < ids.len()
        invariant
            i <= ids@.len(),
            forall|j: int| 0 <= j < i ==> ids@[j] != id,
        decreases ids@.len() - i,
    {
        if ids[i] == id {
            return Some(i);
        }
        i = i + 1;
    }
    None
}

/// The id a new pattern gets, and the counter after it: ids are handed out in
/// order, from 1.
pub fn next_pattern_id(next: &mut u64) -> (id: u64)
    requires
        *old(next) < u64::MAX,
    ensures
        id == *old(next),
        *final(next) == *old(next) + 1,
{
    let id = *next;
    *next = *next + 1;
    id
}

} // verus!
