//! The resource monitor: once a second it takes a snapshot of the counters of
//! every subsystem, raises and clears alerts, keeps a minute of history and
//! renders a text report. All arithmetic is on integers.
use vstd::prelude::*;
use crate::util::{push_dec, dec_of, string_push};

verus! {

/// The raw counters a snapshot is made from, as each subsystem reports them.
#[derive(Clone, Copy, Debug)]
pub struct SubsystemCounters {
    pub context_switches: u64,
    pub total_processes: usize,
    pub running: usize,
    pub ready: usize,
    pub blocked: usize,
    pub sleeping: usize,
    pub dead: usize,
    pub heap_used: usize,
    pub heap_free: usize,
    pub heap_total: usize,
    pub tx_bytes: u64,
    pub rx_bytes: u64,
    pub peers_active: usize,
    pub dag_total_blocks: usize,
    pub dag_file_blocks: usize,
    pub dag_merges: usize,
    pub dag_conflicts: usize,
    pub ct_total: usize,
    pub ct_running: usize,
    pub ct_stopped: usize,
    pub ia_inferences: u64,
    pub cogn_cycles: u64,
    pub cogn_actions: u64,
}

/// The state of every subsystem at one tick.
#[derive(Clone, Copy, Debug, Default)]
pub struct ResourceSnapshot {
    pub tick: u64,
    pub context_switches: u64,
    /// Context switches per second, estimated from the previous snapshot.
    pub cs_per_sec: u64,
    /// Estimated idle time in percent.
    pub cpu_idle_pct: u8,
    pub proc_total: usize,
    pub proc_running: usize,
    pub proc_ready: usize,
    pub proc_blocked: usize,
    pub proc_sleeping: usize,
    pub proc_dead: usize,
    pub heap_used_bytes: usize,
    pub heap_free_bytes: usize,
    pub heap_total_bytes: usize,
    pub heap_used_pct: u8,
    pub net_bytes_sent: u64,
    pub net_bytes_recv: u64,
    pub net_peers_active: usize,
    pub net_packets_out: u64,
    pub net_packets_in: u64,
    pub dag_total_blocks: usize,
    pub dag_file_blocks: usize,
    pub dag_merges: usize,
    pub dag_conflicts: usize,
    pub ct_total: usize,
    pub ct_running: usize,
    pub ct_stopped: usize,
    pub ia_inferences: u64,
    pub ia_cycles: u64,
    pub ia_actions: u64,
    /// Seconds since boot at 60 ticks a second.
    pub uptime_secs: u64,
    pub subsystems_ok: usize,
}

/// `a - b`, or 0 when `b` is larger.
pub open spec fn sat_sub(a: u64, b: u64) -> u64 {
    if a >= b { (a - b) as u64 } else { 0 }
}

/// Heap use in percent, computed on 64 bits and cut to a byte; 0 when the
/// heap size is unknown.
pub open spec fn heap_pct(used: usize, total: usize) -> u8 {
    if total > 0 { ((used * 100) / (total as int)) as u8 } else { 0 }
}

/// Context switches per second between `prev` and now: the switch delta times
/// 60 (saturating) over the tick delta (at least 1); 0 for the first snapshot.
pub open spec fn cs_rate(tick: u64, prev: Option<ResourceSnapshot>, cs: u64) -> u64 {
    match prev {
        Some(p) => {
            let dcs = sat_sub(cs, p.context_switches);
            let dt = if sat_sub(tick, p.tick) > 1 { sat_sub(tick, p.tick) } else { 1 };
            let scaled = if dcs * 60 > u64::MAX { u64::MAX } else { (dcs * 60) as u64 };
            (scaled / dt) as u64
        },
        None => 0,
    }
}

/// Idle percent estimated from the switch rate.
pub open spec fn idle_for(rate: u64) -> u8 {
    if rate == 0 { 95 } else if rate < 10 { 80 } else if rate < 50 { 60 } else if rate < 100 { 40 } else { 10 }
}

/// The snapshot taken at `tick` from counters `c`, after `prev`.
pub open spec fn captured(tick: u64, prev: Option<ResourceSnapshot>, c: SubsystemCounters) -> ResourceSnapshot {
    let rate = cs_rate(tick, prev, c.context_switches);
    ResourceSnapshot {
        tick,
        context_switches: c.context_switches,
        cs_per_sec: rate,
        cpu_idle_pct: idle_for(rate),
        proc_total: c.total_processes,
        proc_running: c.running,
        proc_ready: c.ready,
        proc_blocked: c.blocked,
        proc_sleeping: c.sleeping,
        proc_dead: c.dead,
        heap_used_bytes: c.heap_used,
        heap_free_bytes: c.heap_free,
        heap_total_bytes: c.heap_total,
        heap_used_pct: heap_pct(c.heap_used, c.heap_total),
        net_bytes_sent: c.tx_bytes,
        net_bytes_recv: c.rx_bytes,
        net_peers_active: c.peers_active,
        net_packets_out: 0,
        net_packets_in: 0,
        dag_total_blocks: c.dag_total_blocks,
        dag_file_blocks: c.dag_file_blocks,
        dag_merges: c.dag_merges,
        dag_conflicts: c.dag_conflicts,
        ct_total: c.ct_total,
        ct_running: c.ct_running,
        ct_stopped: c.ct_stopped,
        ia_inferences: c.ia_inferences,
        ia_cycles: c.cogn_cycles,
        ia_actions: c.cogn_actions,
        uptime_secs: tick / 60,
        subsystems_ok: 24,
    }
}

/// `n` copies of `c`.
pub open spec fn rep(c: char, n: nat) -> Seq<char> {
    Seq::new(n, |i: int| c)
}

/// A byte count as "<n> MB", "<n> KB" or "<n> B".
pub open spec fn bytes_text(b: usize) -> Seq<char> {
    if b >= 1048576 {
        dec_of((b as nat) / 1048576) + " MB"@
    } else if b >= 1024 {
        dec_of((b as nat) / 1024) + " KB"@
    } else {
        dec_of(b as nat) + " B"@
    }
}

/// A number in at least two digits, padded with a zero.
pub open spec fn pad2(n: nat) -> Seq<char> {
    if n < 10 { "0"@ + dec_of(n) } else { dec_of(n) }
}

/// A number right-aligned in at least three places.
pub open spec fn pad3(n: nat) -> Seq<char> {
    if n < 10 { "  "@ + dec_of(n) } else if n < 100 { " "@ + dec_of(n) } else { dec_of(n) }
}

/// Seconds as HH:MM:SS.
pub open spec fn uptime_text(secs: u64) -> Seq<char> {
    pad2((secs / 3600) as nat) + ":"@ + pad2(((secs % 3600) / 60) as nat) + ":"@ + pad2((secs % 60) as nat)
}

/// A bar of fixed width: `width` places, of which `pct` percent (at most all)
/// are filled, '#' for filled places and '.' for the rest, in brackets.
pub open spec fn bar_text(pct: u8, width: usize) -> Seq<char> {
    let p: int = if pct <= 100 { pct as int } else { 100 };
    let filled: int = (p * width) / 100;
    "["@ + rep('#', filled as nat) + rep('.', (width - filled) as nat) + "]"@
}

/// A bar has its fixed width whatever the percentage: `width` places and two
/// brackets.
pub proof fn lemma_bar_width(pct: u8, width: usize)
    ensures
        bar_text(pct, width).len() == width + 2,
{
    let p: int = if pct <= 100 { pct as int } else { 100 };
    assert(p * width <= 100 * width) by (nonlinear_arith)
        requires 0 <= p <= 100, width >= 0;
    assert((p * width) / 100 <= width) by (nonlinear_arith)
        requires p * width <= 100 * width, p * width >= 0;
    reveal_strlit("[");
    reveal_strlit("]");
}

/// Appends `t`.
fn put(out: &mut String, t: &str)
    ensures
        final(out)@ == old(out)@ + t@,
{
    out.append(t);
}

/// Appends `n` copies of `c`.
fn put_rep(out: &mut String, c: char, n: usize)
    ensures
        final(out)@ == old(out)@ + rep(c, n as nat),
{
    let ghost start = out@;
    let mut i: usize = 0;
    while i < n
        invariant
            i <= n,
            out@ == start + rep(c, i as nat),
        decreases n - i,
    {
        string_push(out, c);
        i = i + 1;
        assert(out@ =~= start + rep(c, i as nat));
    }
}

/// Appends `n` in at least two digits.
fn put_pad2(out: &mut String, n: u64)
    ensures
        final(out)@ == old(out)@ + pad2(n as nat),
{
    let ghost start = out@;
    if n < 10 {
        put(out, "0");
    }
    push_dec(out, n);
    assert(out@ =~= start + pad2(n as nat));
}

/// Appends `n` right-aligned in at least three places.
fn put_pad3(out: &mut String, n: u64)
    ensures
        final(out)@ == old(out)@ + pad3(n as nat),
{
    let ghost start = out@;
    if n < 10 {
        put(out, "  ");
    } else if n < 100 {
        put(out, " ");
    }
    push_dec(out, n);
    assert(out@ =~= start + pad3(n as nat));
}

/// Appends a byte count in MB, KB or bytes.
fn put_bytes(out: &mut String, b: usize)
    ensures
        final(out)@ == old(out)@ + bytes_text(b),
{
    let ghost start = out@;
    if b >= 1048576 {
        push_dec(out, (b / 1048576) as u64);
        put(out, " MB");
    } else if b >= 1024 {
        push_dec(out, (b / 1024) as u64);
        put(out, " KB");
    } else {
        push_dec(out, b as u64);
        put(out, " B");
    }
    assert(out@ =~= start + bytes_text(b));
}

/// Appends a bar of `width` places for `pct` percent.
fn put_bar(out: &mut String, pct: u8, width: usize)
    ensures
        final(out)@ == old(out)@ + bar_text(pct, width),
{
    let ghost start = out@;
    let p: u128 = if pct <= 100 { pct as u128 } else { 100 };
    assert(p * (width as u128) <= 100 * (width as u128)) by (nonlinear_arith)
        requires p <= 100;
    assert((p * (width as u128)) / 100 <= width) by (nonlinear_arith)
        requires p <= 100, p * (width as u128) <= 100 * (width as u128);
    let filled: usize = ((p * (width as u128)) / 100) as usize;
    let empty: usize = width - filled;
    put(out, "[");
    put_rep(out, '#', filled);
    put_rep(out, '.', empty);
    put(out, "]");
    assert(out@ =~= start + bar_text(pct, width));
}

impl ResourceSnapshot {
    /// The snapshot at `tick` from the counters `c`, with the switch rate taken
    /// against `prev`.
    pub fn capture(tick: u64, prev: Option<&ResourceSnapshot>, c: &SubsystemCounters) -> (s: ResourceSnapshot)
        requires
            c.heap_used * 100 <= u64::MAX,
        ensures
            s == captured(tick, match prev { Some(p) => Some(*p), None => None }, *c),
    {
        let heap_used_pct: u8 = if c.heap_total > 0 {
            ((c.heap_used as u64 * 100) / c.heap_total as u64) as u8
        } else {
            0
        };
        let cs_per_sec: u64 = match prev {
            Some(p) => {
                let delta_cs = c.context_switches.saturating_sub(p.context_switches);
                let dt = tick.saturating_sub(p.tick);
                let delta_tick = if dt > 1 { dt } else { 1 };
                let scaled: u64 = if delta_cs > u64::MAX / 60 { u64::MAX } else { delta_cs * 60 };
                scaled / delta_tick
            },
            None => 0,
        };
        let cpu_idle_pct: u8 = if cs_per_sec == 0 {
            95
        } else if cs_per_sec < 10 {
            80
        } else if cs_per_sec < 50 {
            60
        } else if cs_per_sec < 100 {
            40
        } else {
            10
        };
        ResourceSnapshot {
            tick,
            context_switches: c.context_switches,
            cs_per_sec,
            cpu_idle_pct,
            proc_total: c.total_processes,
            proc_running: c.running,
            proc_ready: c.ready,
            proc_blocked: c.blocked,
            proc_sleeping: c.sleeping,
            proc_dead: c.dead,
            heap_used_bytes: c.heap_used,
            heap_free_bytes: c.heap_free,
            heap_total_bytes: c.heap_total,
            heap_used_pct,
            net_bytes_sent: c.tx_bytes,
            net_bytes_recv: c.rx_bytes,
            net_peers_active: c.peers_active,
            net_packets_out: 0,
            net_packets_in: 0,
            dag_total_blocks: c.dag_total_blocks,
            dag_file_blocks: c.dag_file_blocks,
            dag_merges: c.dag_merges,
            dag_conflicts: c.dag_conflicts,
            ct_total: c.ct_total,
            ct_running: c.ct_running,
            ct_stopped: c.ct_stopped,
            ia_inferences: c.ia_inferences,
            ia_cycles: c.cogn_cycles,
            ia_actions: c.cogn_actions,
            uptime_secs: tick / 60,
            subsystems_ok: 24,
        }
    }

    /// A byte count as "<n> MB", "<n> KB" or "<n> B".
    pub fn fmt_bytes(b: usize) -> (s: String)
        ensures
            s@ == bytes_text(b),
    {
        let mut s = String::new();
        put_bytes(&mut s, b);
        s
    }

    /// Seconds as HH:MM:SS.
    pub fn fmt_uptime(secs: u64) -> (s: String)
        ensures
            s@ == uptime_text(secs),
    {
        let mut s = String::new();
        put_pad2(&mut s, secs / 3600);
        put(&mut s, ":");
        put_pad2(&mut s, (secs % 3600) / 60);
        put(&mut s, ":");
        put_pad2(&mut s, secs % 60);
        s
    }

    /// A bar of `width` places for `pct` percent.
    pub fn progress_bar(pct: u8, width: usize) -> (s: String)
        ensures
            s@ == bar_text(pct, width),
    {
        let mut s = String::new();
        put_bar(&mut s, pct, width);
        s
    }
}

/// The kinds of alert the monitor raises.
#[derive(Clone, Copy, PartialEq, Eq, Structural, Debug)]
pub enum AlertKind {
    /// Heap above 85%.
    HeapCritical,
    /// Heap above 70%.
    HeapHigh,
    TooManyProcs,
    /// No active peer.
    NoPeers,
    DagStale,
}

/// The label of an alert kind.
pub open spec fn alert_text(k: AlertKind) -> Seq<char> {
    match k {
        AlertKind::HeapCritical => "HEAP-CRITICO"@,
        AlertKind::HeapHigh => "HEAP-ALTO"@,
        AlertKind::TooManyProcs => "MUITOS-PROCS"@,
        AlertKind::NoPeers => "SEM-PEERS"@,
        AlertKind::DagStale => "DAG-PARADO"@,
    }
}

impl AlertKind {
    /// The kind's label.
    pub fn as_str(&self) -> (s: &'static str)
        ensures
            s@ == alert_text(*self),
    {
        match self {
            AlertKind::HeapCritical => "HEAP-CRITICO",
            AlertKind::HeapHigh => "HEAP-ALTO",
            AlertKind::TooManyProcs => "MUITOS-PROCS",
            AlertKind::NoPeers => "SEM-PEERS",
            AlertKind::DagStale => "DAG-PARADO",
        }
    }
}

/// An alert raised at `tick`; `cleared` once its condition has passed.
#[derive(Debug)]
pub struct ResourceAlert {
    pub kind: AlertKind,
    pub message: String,
    pub tick: u64,
    pub cleared: bool,
}

/// An alert as plain values: kind, message, tick, cleared.
pub type AlertView = (AlertKind, Seq<char>, u64, bool);

/// The plain values of an alert.
pub open spec fn alert_view(a: ResourceAlert) -> AlertView {
    (a.kind, a.message@, a.tick, a.cleared)
}

/// Whether an uncleared alert of `kind` is in `v`.
pub open spec fn has_active(v: Seq<AlertView>, kind: AlertKind) -> bool {
    exists|i: int| 0 <= i < v.len() && (#[trigger] v[i]).0 == kind && !v[i].3
}

/// `v` with every alert of `kind` cleared.
pub open spec fn cleared_all(v: Seq<AlertView>, kind: AlertKind) -> Seq<AlertView> {
    v.map_values(|a: AlertView| if a.0 == kind { (a.0, a.1, a.2, true) } else { a })
}

/// Raises an alert of `kind` unless one is active.
pub open spec fn raised(v: Seq<AlertView>, kind: AlertKind, msg: Seq<char>, tick: u64) -> Seq<AlertView> {
    if has_active(v, kind) { v } else { v.push((kind, msg, tick, false)) }
}

/// The message of the critical heap alert.
pub open spec fn critical_msg(s: ResourceSnapshot) -> Seq<char> {
    "Heap "@ + dec_of(s.heap_used_pct as nat) + "% usado ("@ + bytes_text(s.heap_free_bytes) + " livre)"@
}

/// The message of the high heap alert.
pub open spec fn high_msg(s: ResourceSnapshot) -> Seq<char> {
    "Heap "@ + dec_of(s.heap_used_pct as nat) + "% usado"@
}

/// The alerts after snapshot `s`: a critical heap alert above 85%, a high heap
/// alert above 70% up to 85%, a no-peers alert with no active peer; each kind
/// is cleared when its condition does not hold.
pub open spec fn alerts_after(v: Seq<AlertView>, s: ResourceSnapshot) -> Seq<AlertView> {
    let a1 = if s.heap_used_pct > 85 {
        raised(v, AlertKind::HeapCritical, critical_msg(s), s.tick)
    } else {
        cleared_all(v, AlertKind::HeapCritical)
    };
    let a2 = if s.heap_used_pct > 70 && s.heap_used_pct <= 85 {
        raised(a1, AlertKind::HeapHigh, high_msg(s), s.tick)
    } else {
        cleared_all(a1, AlertKind::HeapHigh)
    };
    if s.net_peers_active == 0 {
        raised(a2, AlertKind::NoPeers, "Nenhum peer P2P ativo"@, s.tick)
    } else {
        cleared_all(a2, AlertKind::NoPeers)
    }
}

/// The character for a heap percentage in the sparkline.
pub open spec fn spark_char(p: u8) -> char {
    let idx = (p * 8) / 100;
    if idx == 0 { '_' } else if idx == 1 { '▁' } else if idx == 2 { '▂' } else if idx == 3 { '▃' }
    else if idx == 4 { '▄' } else if idx == 5 { '▅' } else if idx == 6 { '▆' } else if idx == 7 { '▇' }
    else { '█' }
}

/// The sparkline of the last `n` snapshots of `h`.
pub open spec fn spark_text(h: Seq<ResourceSnapshot>, n: usize) -> Seq<char> {
    let from = if h.len() > n { h.len() - n } else { 0 };
    h.subrange(from, h.len() as int).map_values(|s: ResourceSnapshot| spark_char(s.heap_used_pct))
}

/// The heap trend: a dash with fewer than three past snapshots, else an arrow
/// up or down when the current use is more than 5 points above or below the
/// use three snapshots back, or a flat arrow.
pub open spec fn trend_text(h: Seq<ResourceSnapshot>, cur: Option<ResourceSnapshot>) -> Seq<char> {
    if h.len() < 3 {
        "—"@
    } else {
        let old = h[h.len() - 3].heap_used_pct;
        let new = match cur { Some(c) => c.heap_used_pct, None => 0u8 };
        if new > old + 5 { "↑"@ } else if old > new + 5 { "↓"@ } else { "→"@ }
    }
}

/// The monitor: the latest snapshot, up to `max_history` earlier ones, and
/// the alerts raised so far.
pub struct ResourceMonitor {
    pub history: Vec<ResourceSnapshot>,
    pub max_history: usize,
    pub current: Option<ResourceSnapshot>,
    /// Ticks between snapshots.
    pub interval: u64,
    pub last_capture: u64,
    pub alerts: Vec<ResourceAlert>,
}

impl ResourceMonitor {
    /// The alerts as plain values.
    pub open spec fn alerts_view(&self) -> Seq<AlertView> {
        self.alerts@.map_values(|a: ResourceAlert| alert_view(a))
    }

    /// A monitor keeping 60 snapshots, one every 60 ticks.
    pub fn new() -> (m: ResourceMonitor)
        ensures
            m.history@.len() == 0,
            m.max_history == 60,
            m.current.is_none(),
            m.interval == 60,
            m.last_capture == 0,
            m.alerts@.len() == 0,
    {
        ResourceMonitor {
            history: Vec::new(),
            max_history: 60,
            current: None,
            interval: 60,
            last_capture: 0,
            alerts: Vec::new(),
        }
    }

    fn has_alert(&self, kind: AlertKind) -> (b: bool)
        ensures
            b == has_active(self.alerts_view(), kind),
    {
        let mut i: usize = 0;
        while i < self.alerts.len()
            invariant
                i <= self.alerts@.len(),
                forall|j: int| 0 <= j < i ==> !((#[trigger] self.alerts_view()[j]).0 == kind && !self.alerts_view()[j].3),
            decreases self.alerts@.len() - i,
        {
            if self.alerts[i].kind == kind && !self.alerts[i].cleared {
                assert(self.alerts_view()[i as int].0 == kind);
                return true;
            }
            i = i + 1;
        }
        false
    }

    fn fire_alert(&mut self, kind: AlertKind, msg: String, tick: u64)
        ensures
            final(self).alerts_view() == old(self).alerts_view().push((kind, msg@, tick, false)),
            final(self).history == old(self).history && final(self).current == old(self).current,
            final(self).last_capture == old(self).last_capture && final(self).interval == old(self).interval,
            final(self).max_history == old(self).max_history,
    {
        self.alerts.push(ResourceAlert { kind, message: msg, tick, cleared: false });
        assert(self.alerts_view() =~= old(self).alerts_view().push((kind, msg@, tick, false)));
    }

    fn clear_alert(&mut self, kind: AlertKind)
        ensures
            final(self).alerts_view() == cleared_all(old(self).alerts_view(), kind),
            final(self).history == old(self).history && final(self).current == old(self).current,
            final(self).last_capture == old(self).last_capture && final(self).interval == old(self).interval,
            final(self).max_history == old(self).max_history,
    {
        let ghost v0 = self.alerts_view();
        let mut i: usize = 0;
        while i < self.alerts.len()
            invariant
                i <= self.alerts@.len(),
                self.alerts@.len() == v0.len(),
                self.history == old(self).history && self.current == old(self).current,
                self.last_capture == old(self).last_capture && self.interval == old(self).interval,
                self.max_history == old(self).max_history,
                forall|j: int| 0 <= j < i ==> #[trigger] self.alerts_view()[j] == cleared_all(v0, kind)[j],
                forall|j: int| i <= j < v0.len() ==> #[trigger] self.alerts_view()[j] == v0[j],
            decreases self.alerts@.len() - i,
        {
            let ghost pre = self.alerts_view();
            assert(pre[i as int] == v0[i as int]);
            assert(pre[i as int] == alert_view(self.alerts@[i as int]));
            if self.alerts[i].kind == kind {
                let a = &self.alerts[i];
                let na = ResourceAlert { kind: a.kind, message: a.message.clone(), tick: a.tick, cleared: true };
                self.alerts.set(i, na);
                assert(self.alerts_view() =~= pre.update(i as int, cleared_all(v0, kind)[i as int]));
            } else {
                assert(cleared_all(v0, kind)[i as int] == v0[i as int]);
            }
            i = i + 1;
        }
        assert(self.alerts_view() =~= cleared_all(v0, kind));
    }

    fn check_alerts(&mut self, snap: &ResourceSnapshot)
        ensures
            final(self).alerts_view() == alerts_after(old(self).alerts_view(), *snap),
            final(self).history == old(self).history && final(self).current == old(self).current,
            final(self).last_capture == old(self).last_capture && final(self).interval == old(self).interval,
            final(self).max_history == old(self).max_history,
    {
        if snap.heap_used_pct > 85 {
            if !self.has_alert(AlertKind::HeapCritical) {
                let mut msg = String::new();
                put(&mut msg, "Heap ");
                push_dec(&mut msg, snap.heap_used_pct as u64);
                put(&mut msg, "% usado (");
                put_bytes(&mut msg, snap.heap_free_bytes);
                put(&mut msg, " livre)");
                self.fire_alert(AlertKind::HeapCritical, msg, snap.tick);
            }
        } else {
            self.clear_alert(AlertKind::HeapCritical);
        }
        if snap.heap_used_pct > 70 && snap.heap_used_pct <= 85 {
            if !self.has_alert(AlertKind::HeapHigh) {
                let mut msg = String::new();
                put(&mut msg, "Heap ");
                push_dec(&mut msg, snap.heap_used_pct as u64);
                put(&mut msg, "% usado");
                self.fire_alert(AlertKind::HeapHigh, msg, snap.tick);
            }
        } else {
            self.clear_alert(AlertKind::HeapHigh);
        }
        if snap.net_peers_active == 0 {
            if !self.has_alert(AlertKind::NoPeers) {
                self.fire_alert(AlertKind::NoPeers, String::from_str("Nenhum peer P2P ativo"), snap.tick);
            }
        } else {
            self.clear_alert(AlertKind::NoPeers);
        }
    }

    /// At least `interval` ticks after the last snapshot, takes a new one from
    /// `c`, updates the alerts, and moves the previous snapshot into the
    /// history, dropping the oldest when the history is full. Earlier, does nothing.
    pub fn tick(&mut self, tick: u64, c: &SubsystemCounters)
        requires
            c.heap_used * 100 <= u64::MAX,
        ensures
            sat_sub(tick, old(self).last_capture) < old(self).interval ==> *final(self) == *old(self),
            sat_sub(tick, old(self).last_capture) >= old(self).interval ==> {
                let snap = captured(tick, old(self).current, *c);
                let kept = if old(self).history@.len() >= old(self).max_history && old(self).history@.len() > 0 {
                    old(self).history@.drop_first()
                } else {
                    old(self).history@
                };
                &&& final(self).last_capture == tick
                &&& final(self).current == Some(snap)
                &&& final(self).alerts_view() == alerts_after(old(self).alerts_view(), snap)
                &&& final(self).history@ == match old(self).current { Some(p) => kept.push(p), None => kept }
                &&& final(self).interval == old(self).interval && final(self).max_history == old(self).max_history
            },
    {
        if tick.saturating_sub(self.last_capture) < self.interval {
            return;
        }
        self.last_capture = tick;
        let snap = ResourceSnapshot::capture(tick, self.current.as_ref(), c);
        self.check_alerts(&snap);
        if self.history.len() >= self.max_history && self.history.len() > 0 {
            let _ = self.history.remove(0);
        }
        let ghost h1 = self.history@;
        match self.current {
            Some(p) => {
                self.history.push(p);
            },
            None => {},
        }
        self.current = Some(snap);
    }

    /// The heap trend over the last three snapshots.
    pub fn heap_trend(&self) -> (s: &'static str)
        ensures
            s@ == trend_text(self.history@, self.current),
    {
        if self.history.len() < 3 {
            return "—";
        }
        let n = self.history.len();
        let old = self.history[n - 3].heap_used_pct as u16;
        let new = match &self.current {
            Some(c) => c.heap_used_pct as u16,
            None => 0,
        };
        if new > old + 5 {
            "↑"
        } else if old > new + 5 {
            "↓"
        } else {
            "→"
        }
    }

    /// The latest snapshot.
    pub fn snapshot(&self) -> (r: Option<&ResourceSnapshot>)
        ensures
            match r { Some(p) => self.current == Some(*p), None => self.current.is_none() },
    {
        match &self.current {
            Some(p) => Some(p),
            None => None,
        }
    }

    /// The heap sparkline of the last `n` past snapshots.
    pub fn heap_sparkline(&self, n: usize) -> (s: String)
        ensures
            s@ == spark_text(self.history@, n),
    {
        let len = self.history.len();
        let from = if len > n { len - n } else { 0 };
        let mut s = String::new();
        let mut i = from;
        while i < len
            invariant
                from <= i <= len,
                len == self.history@.len(),
                s@ == self.history@.subrange(from as int, i as int).map_values(|x: ResourceSnapshot| spark_char(x.heap_used_pct)),
            decreases len - i,
        {
            let p = self.history[i].heap_used_pct;
            let idx = (p as usize * 8) / 100;
            let c = if idx == 0 { '_' } else if idx == 1 { '▁' } else if idx == 2 { '▂' } else if idx == 3 { '▃' }
                else if idx == 4 { '▄' } else if idx == 5 { '▅' } else if idx == 6 { '▆' } else if idx == 7 { '▇' }
                else { '█' };
            let ghost before = s@;
            string_push(&mut s, c);
            i = i + 1;
            assert(s@ =~= self.history@.subrange(from as int, i as int).map_values(|x: ResourceSnapshot| spark_char(x.heap_used_pct)));
        }
        s
    }
}

/// The CPU use shown in the report: 100 minus the idle percent, at least 0.
pub open spec fn cpu_used(s: ResourceSnapshot) -> u8 {
    if s.cpu_idle_pct <= 100 { (100 - s.cpu_idle_pct) as u8 } else { 0 }
}

/// The report's title box.
pub open spec fn header_text(s: ResourceSnapshot) -> Seq<char> {
    "╔"@ + rep('═', 48) + "╗\n"@ + "║  SOC-D Monitor — uptime: "@ + uptime_text(s.uptime_secs) + "  ║\n"@
        + "╚"@ + rep('═', 48) + "╝\n"@
}

/// The report's CPU section.
pub open spec fn cpu_text(s: ResourceSnapshot) -> Seq<char> {
    "\nCPU  "@ + bar_text(cpu_used(s), 20) + " "@ + pad3(cpu_used(s) as nat) + "%  (idle "@
        + pad3(s.cpu_idle_pct as nat) + "%)\n"@
        + "     ctx-switches/s: "@ + dec_of(s.cs_per_sec as nat) + "  total: "@ + dec_of(s.context_switches as nat) + "\n"@
        + "     procs: "@ + dec_of(s.proc_total as nat) + " total | "@ + dec_of(s.proc_running as nat) + " run | "@
        + dec_of(s.proc_ready as nat) + " ready | "@ + dec_of(s.proc_sleeping as nat) + " sleep | "@
        + dec_of(s.proc_dead as nat) + " dead\n"@
}

/// The report's memory section, with the trend and the sparkline of `h`.
pub open spec fn ram_text(h: Seq<ResourceSnapshot>, cur: Option<ResourceSnapshot>, s: ResourceSnapshot) -> Seq<char> {
    "\nRAM  "@ + bar_text(s.heap_used_pct, 20) + " "@ + pad3(s.heap_used_pct as nat) + "%  "@ + trend_text(h, cur) + " "@
        + (if h.len() == 0 { Seq::<char>::empty() } else { "["@ + spark_text(h, 20) + "]"@ }) + "\n"@
        + "     usado: "@ + bytes_text(s.heap_used_bytes) + "  livre: "@ + bytes_text(s.heap_free_bytes)
        + "  total: "@ + bytes_text(s.heap_total_bytes) + "\n"@
}

/// The report's network, graph, container and inference sections.
pub open spec fn counts_text(s: ResourceSnapshot) -> Seq<char> {
    "\nRED  peers: "@ + dec_of(s.net_peers_active as nat) + "  tx: "@ + bytes_text(s.net_bytes_sent as usize)
        + "  rx: "@ + bytes_text(s.net_bytes_recv as usize) + "\n"@
        + "\nDAG  "@ + dec_of(s.dag_total_blocks as nat) + " blocos  "@ + dec_of(s.dag_file_blocks as nat)
        + " ficheiros  "@ + dec_of(s.dag_merges as nat) + " merges\n"@
        + "\nCT   "@ + dec_of(s.ct_total as nat) + " total  "@ + dec_of(s.ct_running as nat) + " running  "@
        + dec_of(s.ct_stopped as nat) + " stopped\n"@
        + "\nIA   "@ + dec_of(s.ia_inferences as nat) + " inferencias  "@ + dec_of(s.ia_cycles as nat)
        + " ciclos cogn  "@ + dec_of(s.ia_actions as nat) + " acoes auto\n"@
}

/// The alerts not yet cleared.
pub open spec fn active_of(v: Seq<AlertView>) -> Seq<AlertView> {
    v.filter(|a: AlertView| !a.3)
}

/// One line per alert: label in brackets, then the message.
pub open spec fn alert_lines(v: Seq<AlertView>) -> Seq<char>
    decreases v.len(),
{
    if v.len() == 0 {
        Seq::empty()
    } else {
        alert_lines(v.drop_last()) + "  ["@ + alert_text(v.last().0) + "] "@ + v.last().1 + "\n"@
    }
}

/// The report's alert section: empty when no alert is active.
pub open spec fn alerts_text(v: Seq<AlertView>) -> Seq<char> {
    if active_of(v).len() == 0 {
        Seq::empty()
    } else {
        "\n"@ + rep('─', 48) + "\n"@ + "ALERTAS:\n"@ + alert_lines(active_of(v))
    }
}

/// The report's last lines.
pub open spec fn footer_text(s: ResourceSnapshot) -> Seq<char> {
    rep('─', 48) + "\n"@ + "subsistemas: "@ + dec_of(s.subsystems_ok as nat) + "/24 ok  |  tick: "@
        + dec_of(s.tick as nat) + "\n"@
}

/// The whole report, or a waiting line before the first snapshot.
pub open spec fn report_text(m: ResourceMonitor) -> Seq<char> {
    match m.current {
        None => "Monitor ainda a inicializar..."@,
        Some(s) => header_text(s) + cpu_text(s) + ram_text(m.history@, m.current, s) + counts_text(s)
            + alerts_text(m.alerts_view()) + footer_text(s),
    }
}

fn put_header(out: &mut String, s: &ResourceSnapshot)
    ensures
        final(out)@ == old(out)@ + header_text(*s),
{
    let mut t = String::from_str("╔");
    put_rep(&mut t, '═', 48);
    put(&mut t, "╗\n");
    put(&mut t, "║  SOC-D Monitor — uptime: ");
    let up = ResourceSnapshot::fmt_uptime(s.uptime_secs);
    put(&mut t, up.as_str());
    put(&mut t, "  ║\n");
    put(&mut t, "╚");
    put_rep(&mut t, '═', 48);
    put(&mut t, "╝\n");
    put(out, t.as_str());
}

fn put_cpu(out: &mut String, s: &ResourceSnapshot)
    ensures
        final(out)@ == old(out)@ + cpu_text(*s),
{
    let used: u8 = if s.cpu_idle_pct <= 100 { 100 - s.cpu_idle_pct } else { 0 };
    let mut t = String::from_str("\nCPU  ");
    put_bar(&mut t, used, 20);
    put(&mut t, " ");
    put_pad3(&mut t, used as u64);
    put(&mut t, "%  (idle ");
    put_pad3(&mut t, s.cpu_idle_pct as u64);
    put(&mut t, "%)\n");
    put(&mut t, "     ctx-switches/s: ");
    push_dec(&mut t, s.cs_per_sec);
    put(&mut t, "  total: ");
    push_dec(&mut t, s.context_switches);
    put(&mut t, "\n");
    put(&mut t, "     procs: ");
    push_dec(&mut t, s.proc_total as u64);
    put(&mut t, " total | ");
    push_dec(&mut t, s.proc_running as u64);
    put(&mut t, " run | ");
    push_dec(&mut t, s.proc_ready as u64);
    put(&mut t, " ready | ");
    push_dec(&mut t, s.proc_sleeping as u64);
    put(&mut t, " sleep | ");
    push_dec(&mut t, s.proc_dead as u64);
    put(&mut t, " dead\n");
    put(out, t.as_str());
}

fn put_counts(out: &mut String, s: &ResourceSnapshot)
    ensures
        final(out)@ == old(out)@ + counts_text(*s),
{
    let mut t = String::from_str("\nRED  peers: ");
    push_dec(&mut t, s.net_peers_active as u64);
    put(&mut t, "  tx: ");
    put_bytes(&mut t, s.net_bytes_sent as usize);
    put(&mut t, "  rx: ");
    put_bytes(&mut t, s.net_bytes_recv as usize);
    put(&mut t, "\n");
    put(&mut t, "\nDAG  ");
    push_dec(&mut t, s.dag_total_blocks as u64);
    put(&mut t, " blocos  ");
    push_dec(&mut t, s.dag_file_blocks as u64);
    put(&mut t, " ficheiros  ");
    push_dec(&mut t, s.dag_merges as u64);
    put(&mut t, " merges\n");
    put(&mut t, "\nCT   ");
    push_dec(&mut t, s.ct_total as u64);
    put(&mut t, " total  ");
    push_dec(&mut t, s.ct_running as u64);
    put(&mut t, " running  ");
    push_dec(&mut t, s.ct_stopped as u64);
    put(&mut t, " stopped\n");
    put(&mut t, "\nIA   ");
    push_dec(&mut t, s.ia_inferences);
    put(&mut t, " inferencias  ");
    push_dec(&mut t, s.ia_cycles);
    put(&mut t, " ciclos cogn  ");
    push_dec(&mut t, s.ia_actions);
    put(&mut t, " acoes auto\n");
    put(out, t.as_str());
}

fn put_footer(out: &mut String, s: &ResourceSnapshot)
    ensures
        final(out)@ == old(out)@ + footer_text(*s),
{
    let mut t = String::new();
    put_rep(&mut t, '─', 48);
    assert(t@ =~= rep('─', 48));
    put(&mut t, "\n");
    put(&mut t, "subsistemas: ");
    push_dec(&mut t, s.subsystems_ok as u64);
    put(&mut t, "/24 ok  |  tick: ");
    push_dec(&mut t, s.tick);
    put(&mut t, "\n");
    put(out, t.as_str());
}

impl ResourceMonitor {
    fn put_ram(&self, out: &mut String, s: &ResourceSnapshot)
        requires
            self.current == Some(*s),
        ensures
            final(out)@ == old(out)@ + ram_text(self.history@, self.current, *s),
    {
        let mut t = String::from_str("\nRAM  ");
        put_bar(&mut t, s.heap_used_pct, 20);
        put(&mut t, " ");
        put_pad3(&mut t, s.heap_used_pct as u64);
        put(&mut t, "%  ");
        put(&mut t, self.heap_trend());
        put(&mut t, " ");
        let spark = self.heap_sparkline(20);
        let mut b = String::new();
        if self.history.len() > 0 {
            b = String::from_str("[");
            put(&mut b, spark.as_str());
            put(&mut b, "]");
        } else {
            assert(b@ =~= Seq::<char>::empty());
        }
        put(&mut t, b.as_str());
        put(&mut t, "\n");
        put(&mut t, "     usado: ");
        put_bytes(&mut t, s.heap_used_bytes);
        put(&mut t, "  livre: ");
        put_bytes(&mut t, s.heap_free_bytes);
        put(&mut t, "  total: ");
        put_bytes(&mut t, s.heap_total_bytes);
        put(&mut t, "\n");
        put(out, t.as_str());
    }

    fn put_alerts(&self, out: &mut String)
        ensures
            final(out)@ == old(out)@ + alerts_text(self.alerts_view()),
    {
        let ghost start = out@;
        let ghost v = self.alerts_view();
        let ghost f = |a: AlertView| !a.3;
        let mut any = false;
        let mut lines = String::new();
        let mut i: usize = 0;
        while i < self.alerts.len()
            invariant
                i <= self.alerts@.len(),
                v == self.alerts_view(),
                f == (|a: AlertView| !a.3),
                lines@ == alert_lines(v.subrange(0, i as int).filter(f)),
                any == (v.subrange(0, i as int).filter(f).len() > 0),
            decreases self.alerts@.len() - i,
        {
            let a = &self.alerts[i];
            proof {
                assert(v.subrange(0, i + 1) =~= v.subrange(0, i as int).push(v[i as int]));
                v.subrange(0, i as int).lemma_filter_push(v[i as int], f);
                assert(v[i as int] == alert_view(*a));
            }
            if !a.cleared {
                let ghost before = lines@;
                put(&mut lines, "  [");
                put(&mut lines, a.kind.as_str());
                put(&mut lines, "] ");
                put(&mut lines, a.message.as_str());
                put(&mut lines, "\n");
                any = true;
                proof {
                    let w = v.subrange(0, i + 1).filter(f);
                    assert(w.drop_last() =~= v.subrange(0, i as int).filter(f));
                    assert(lines@ =~= alert_lines(w));
                }
            }
            i = i + 1;
        }
        assert(v.subrange(0, i as int) =~= v);
        if any {
            put(out, "\n");
            put_rep(out, '─', 48);
            put(out, "\n");
            put(out, "ALERTAS:\n");
            put(out, lines.as_str());
        }
        assert(out@ =~= start + alerts_text(v));
    }

    /// The text report of the latest snapshot, its history and the active alerts.
    pub fn report(&self) -> (r: String)
        ensures
            r@ == report_text(*self),
    {
        match &self.current {
            None => String::from_str("Monitor ainda a inicializar..."),
            Some(s) => {
                let mut out = String::new();
                put_header(&mut out, s);
                put_cpu(&mut out, s);
                self.put_ram(&mut out, s);
                put_counts(&mut out, s);
                self.put_alerts(&mut out);
                put_footer(&mut out, s);
                out
            },
        }
    }
}

/// Takes a snapshot when one is due.
pub fn monitor_tick(m: &mut ResourceMonitor, tick: u64, c: &SubsystemCounters)
    requires
        c.heap_used * 100 <= u64::MAX,
    ensures
        sat_sub(tick, old(m).last_capture) < old(m).interval ==> *final(m) == *old(m),
        sat_sub(tick, old(m).last_capture) >= old(m).interval ==> final(m).current == Some(captured(tick, old(m).current, *c))
            && final(m).alerts_view() == alerts_after(old(m).alerts_view(), captured(tick, old(m).current, *c))
            && final(m).last_capture == tick,
{
    m.tick(tick, c);
}

/// The monitor's report.
pub fn report(m: &ResourceMonitor) -> (r: String)
    ensures
        r@ == report_text(*m),
{
    m.report()
}

/// A copy of the latest snapshot.
pub fn snapshot(m: &ResourceMonitor) -> (r: Option<ResourceSnapshot>)
    ensures
        r == m.current,
{
    m.current
}

/// The CPU use of the latest snapshot, 0 before the first.
pub fn real_cpu_pct(m: &ResourceMonitor) -> (p: u8)
    ensures
        p == match m.current { Some(s) => cpu_used(s), None => 0u8 },
{
    match &m.current {
        Some(s) => if s.cpu_idle_pct <= 100 { 100 - s.cpu_idle_pct } else { 0 },
        None => 0,
    }
}

/// The heap use of the latest snapshot, 0 before the first.
pub fn real_ram_pct(m: &ResourceMonitor) -> (p: u8)
    ensures
        p == match m.current { Some(s) => s.heap_used_pct, None => 0u8 },
{
    match &m.current {
        Some(s) => s.heap_used_pct,
        None => 0,
    }
}

/// Copies of the alerts not yet cleared, oldest first.
pub fn active_alerts(m: &ResourceMonitor) -> (v: Vec<ResourceAlert>)
    ensures
        v@.map_values(|a: ResourceAlert| alert_view(a)) == active_of(m.alerts_view()),
{
    let ghost av = m.alerts_view();
    let ghost f = |a: AlertView| !a.3;
    let mut v: Vec<ResourceAlert> = Vec::new();
    let mut i: usize = 0;
    while i < m.alerts.len()
        invariant
            i <= m.alerts@.len(),
            av == m.alerts_view(),
            f == (|a: AlertView| !a.3),
            v@.map_values(|a: ResourceAlert| alert_view(a)) == av.subrange(0, i as int).filter(f),
        decreases m.alerts@.len() - i,
    {
        let a = &m.alerts[i];
        proof {
            assert(av.subrange(0, i + 1) =~= av.subrange(0, i as int).push(av[i as int]));
            av.subrange(0, i as int).lemma_filter_push(av[i as int], f);
            assert(av[i as int] == alert_view(*a));
        }
        let ghost before = v@.map_values(|x: ResourceAlert| alert_view(x));
        if !a.cleared {
            v.push(ResourceAlert { kind: a.kind, message: a.message.clone(), tick: a.tick, cleared: a.cleared });
            assert(v@.map_values(|x: ResourceAlert| alert_view(x)) =~= before.push(alert_view(*a)));
        }
        i = i + 1;
    }
    assert(av.subrange(0, i as int) =~= av);
    v
}

/// No two uncleared alerts share a kind.
pub open spec fn active_unique(v: Seq<AlertView>) -> bool {
    forall|i: int, j: int| 0 <= i < j < v.len() && !v[i].3 && !v[j].3 ==> #[trigger] v[i].0 != #[trigger] v[j].0
}

proof fn lemma_raised_unique(v: Seq<AlertView>, kind: AlertKind, msg: Seq<char>, tick: u64)
    requires
        active_unique(v),
    ensures
        active_unique(raised(v, kind, msg, tick)),
{
    if !has_active(v, kind) {
        let w = v.push((kind, msg, tick, false));
        assert forall|i: int, j: int| 0 <= i < j < w.len() && !w[i].3 && !w[j].3 implies #[trigger] w[i].0 != #[trigger] w[j].0 by {
            if j == v.len() {
                assert(w[i] == v[i]);
                if v[i].0 == kind {
                    assert(has_active(v, kind));
                }
            } else {
                assert(w[i] == v[i] && w[j] == v[j]);
            }
        }
    }
}

proof fn lemma_cleared_unique(v: Seq<AlertView>, kind: AlertKind)
    requires
        active_unique(v),
    ensures
        active_unique(cleared_all(v, kind)),
{
    let w = cleared_all(v, kind);
    assert forall|i: int, j: int| 0 <= i < j < w.len() && !w[i].3 && !w[j].3 implies #[trigger] w[i].0 != #[trigger] w[j].0 by {
        assert(w[i].0 == v[i].0 && w[j].0 == v[j].0);
        assert(!v[i].3 && !v[j].3);
    }
}

/// A monitor step never leaves two uncleared alerts of one kind: if none
/// were there before a snapshot, none are after it.
pub proof fn lemma_alerts_stay_unique(v: Seq<AlertView>, s: ResourceSnapshot)
    requires
        active_unique(v),
    ensures
        active_unique(alerts_after(v, s)),
{
    let a1 = if s.heap_used_pct > 85 {
        raised(v, AlertKind::HeapCritical, critical_msg(s), s.tick)
    } else {
        cleared_all(v, AlertKind::HeapCritical)
    };
    lemma_raised_unique(v, AlertKind::HeapCritical, critical_msg(s), s.tick);
    lemma_cleared_unique(v, AlertKind::HeapCritical);
    let a2 = if s.heap_used_pct > 70 && s.heap_used_pct <= 85 {
        raised(a1, AlertKind::HeapHigh, high_msg(s), s.tick)
    } else {
        cleared_all(a1, AlertKind::HeapHigh)
    };
    lemma_raised_unique(a1, AlertKind::HeapHigh, high_msg(s), s.tick);
    lemma_cleared_unique(a1, AlertKind::HeapHigh);
    lemma_raised_unique(a2, AlertKind::NoPeers, "Nenhum peer P2P ativo"@, s.tick);
    lemma_cleared_unique(a2, AlertKind::NoPeers);
}

} // verus!
