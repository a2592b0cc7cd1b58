//! The kernel's inference engine, integer part: the metric samples and their
//! ring buffer, the suggestion engine, the optimiser's bookkeeping and the
//! engine's counters.
use vstd::prelude::*;
use crate::util::{push_dec, dec_of};

verus! {

/// The raw counters a metric sample is made from.
#[derive(Clone, Copy, Debug)]
pub struct CollectInputs {
    pub heap_used: usize,
    pub heap_free: usize,
    pub heap_total: usize,
    pub running: usize,
    pub total_processes: usize,
    pub context_switches: u64,
    pub p2p_active: usize,
    pub tx_bytes: u64,
    pub rx_bytes: u64,
    pub sandbox_violations: usize,
}

/// The system's metrics at one tick.
#[derive(Clone, Copy, Debug, Default)]
pub struct MetricSample {
    pub tick: u64,
    pub cpu_idle_pct: u8,
    pub context_switches: u64,
    pub processes_running: u8,
    pub processes_total: u16,
    pub heap_used_kb: u32,
    pub heap_free_kb: u32,
    pub heap_usage_pct: u8,
    pub p2p_peers_active: u8,
    pub p2p_bytes_sent_kb: u32,
    pub p2p_bytes_recv_kb: u32,
    pub p2p_latency_avg_us: u32,
    pub sandbox_violations: u32,
    pub anomaly_score_max: u8,
    pub ia_last_prediction_confidence: u8,
    pub ia_last_optimization_gain: u8,
}

/// The sample taken at `tick` from `c`: counts cut to the field widths, heap
/// use in percent of the heap size (at least 1), idle 95% with nothing
/// running and 60% otherwise, a latency of 500 us.
pub open spec fn sample_of(tick: u64, c: CollectInputs) -> MetricSample {
    MetricSample {
        tick,
        cpu_idle_pct: if c.running == 0 { 95 } else { 60 },
        context_switches: c.context_switches,
        processes_running: c.running as u8,
        processes_total: c.total_processes as u16,
        heap_used_kb: (c.heap_used / 1024) as u32,
        heap_free_kb: (c.heap_free / 1024) as u32,
        heap_usage_pct: (c.heap_used * 100 / (if c.heap_total > 1 { c.heap_total as int } else { 1 })) as u8,
        p2p_peers_active: c.p2p_active as u8,
        p2p_bytes_sent_kb: (c.tx_bytes / 1024) as u32,
        p2p_bytes_recv_kb: (c.rx_bytes / 1024) as u32,
        p2p_latency_avg_us: 500,
        sandbox_violations: c.sandbox_violations as u32,
        anomaly_score_max: 0,
        ia_last_prediction_confidence: 0,
        ia_last_optimization_gain: 0,
    }
}

impl MetricSample {
    /// The sample at `tick` from the counters `c`.
    pub fn collect(tick: u64, c: &CollectInputs) -> (s: MetricSample)
        requires
            c.heap_used * 100 <= usize::MAX,
        ensures
            s == sample_of(tick, *c),
    {
        let total = if c.heap_total > 1 { c.heap_total } else { 1 };
        MetricSample {
            tick,
            cpu_idle_pct: if c.running == 0 { 95 } else { 60 },
            context_switches: c.context_switches,
            processes_running: c.running as u8,
            processes_total: c.total_processes as u16,
            heap_used_kb: (c.heap_used / 1024) as u32,
            heap_free_kb: (c.heap_free / 1024) as u32,
            heap_usage_pct: (c.heap_used * 100 / total) as u8,
            p2p_peers_active: c.p2p_active as u8,
            p2p_bytes_sent_kb: (c.tx_bytes / 1024) as u32,
            p2p_bytes_recv_kb: (c.rx_bytes / 1024) as u32,
            p2p_latency_avg_us: 500,
            sandbox_violations: c.sandbox_violations as u32,
            anomaly_score_max: 0,
            ia_last_prediction_confidence: 0,
            ia_last_optimization_gain: 0,
        }
    }
}

/// Counts of the collector.
#[derive(Clone, Copy, Debug)]
pub struct CollectorStats {
    pub total_samples: u64,
    pub buffer_size: usize,
    pub oldest_tick: u64,
    pub newest_tick: u64,
}

/// The last `capacity` samples in a ring: the buffer fills up, then the write
/// position goes round.
pub struct MetricsCollector {
    buffer: Vec<MetricSample>,
    capacity: usize,
    head: usize,
    count: usize,
    total_collected: u64,
}

impl MetricsCollector {
    /// The ring's slots.
    pub closed spec fn buffer(&self) -> Seq<MetricSample> {
        self.buffer@
    }

    /// Where the next sample goes.
    pub closed spec fn head(&self) -> int {
        self.head as int
    }

    /// How many samples the ring keeps.
    pub closed spec fn capacity(&self) -> int {
        self.capacity as int
    }

    /// How many samples are held.
    pub closed spec fn count(&self) -> int {
        self.count as int
    }

    /// Samples taken since the start.
    pub closed spec fn total(&self) -> u64 {
        self.total_collected
    }

    /// A positive capacity; until the ring is full the write position is its
    /// length; the count is the buffer's length.
    pub open spec fn wf(&self) -> bool {
        &&& self.capacity() > 0
        &&& self.buffer().len() <= self.capacity()
        &&& 0 <= self.head() < self.capacity()
        &&& self.buffer().len() < self.capacity() ==> self.head() == self.buffer().len()
        &&& self.count() == self.buffer().len()
    }

    /// An empty ring of `capacity` slots.
    pub fn new(capacity: usize) -> (c: MetricsCollector)
        requires
            capacity > 0,
        ensures
            c.wf(),
            c.buffer().len() == 0,
            c.capacity() == capacity,
            c.total() == 0,
    {
        MetricsCollector { buffer: Vec::new(), capacity, head: 0, count: 0, total_collected: 0 }
    }

    /// Writes `sample` at the write position and moves it on.
    pub fn push(&mut self, sample: MetricSample)
        requires
            old(self).wf(),
            old(self).total() < u64::MAX,
        ensures
            final(self).wf(),
            final(self).capacity() == old(self).capacity(),
            final(self).buffer() == (if old(self).buffer().len() < old(self).capacity() {
                old(self).buffer().push(sample)
            } else {
                old(self).buffer().update(old(self).head(), sample)
            }),
            final(self).head() == (if old(self).head() + 1 == old(self).capacity() { 0 } else { old(self).head() + 1 }),
            final(self).total() == old(self).total() + 1,
    {
        if self.buffer.len() < self.capacity {
            self.buffer.push(sample);
        } else {
            self.buffer.set(self.head, sample);
        }
        self.head = if self.head + 1 == self.capacity { 0 } else { self.head + 1 };
        self.count = if self.buffer.len() < self.capacity { self.buffer.len() } else { self.capacity };
        self.total_collected = self.total_collected + 1;
    }

    /// The sample written last, if any.
    pub fn latest(&self) -> (r: Option<&MetricSample>)
        requires
            self.wf(),
        ensures
            self.buffer().len() == 0 ==> r is None,
            self.buffer().len() > 0 ==> r is Some && *r->0 == self.buffer()[
                if self.head() == 0 { self.buffer().len() - 1 } else { self.head() - 1 }],
    {
        if self.buffer.len() == 0 {
            return None;
        }
        let idx = if self.head == 0 { self.buffer.len() - 1 } else { self.head - 1 };
        Some(&self.buffer[idx])
    }

    /// The last `n` samples held (all of them when fewer are held), oldest first.
    pub fn recent_samples(&self, n: usize) -> (v: Vec<MetricSample>)
        requires
            self.wf(),
        ensures
            ({
                let k = if n < self.count() { n as int } else { self.count() };
                let start = if self.count() < self.capacity() { 0 } else { self.head() };
                &&& v@.len() == k
                &&& forall|i: int| 0 <= i < k ==> #[trigger] v@[i]
                    == self.buffer()[(start + self.count() - k + i) % self.capacity()]
            }),
    {
        let k = if n < self.count { n } else { self.count };
        let start = if self.count < self.capacity { 0 } else { self.head };
        let mut v: Vec<MetricSample> = Vec::new();
        let mut i: usize = 0;
        while i < k
            invariant
                self.wf(),
                k <= self.count(),
                k == (if n < self.count() { n as int } else { self.count() }),
                start == (if self.count() < self.capacity() { 0 } else { self.head() }),
                i <= k,
                v@.len() == i,
                forall|j: int| 0 <= j < i ==> #[trigger] v@[j]
                    == self.buffer()[(start + self.count() - k + j) % self.capacity()],
            decreases k - i,
        {
            let off = (self.count - k) + i;
            let idx = if start >= self.capacity - off { start - (self.capacity - off) } else { start + off };
            proof {
                let x = start + off;
                if x >= self.capacity() {
                    vstd::arithmetic::div_mod::lemma_small_mod((x - self.capacity()) as nat, self.capacity() as nat);
                    vstd::arithmetic::div_mod::lemma_mod_add_multiples_vanish(x - self.capacity(), self.capacity());
                } else {
                    vstd::arithmetic::div_mod::lemma_small_mod(x as nat, self.capacity() as nat);
                }
                assert(idx == (start + self.count() - k + i) % self.capacity());
                if self.count() < self.capacity() {
                    assert(idx < self.buffer().len());
                }
            }
            v.push(self.buffer[idx]);
            i = i + 1;
        }
        v
    }

    /// Samples taken, samples held, and the ticks of the first and last slot.
    pub fn stats(&self) -> (s: CollectorStats)
        ensures
            s.total_samples == self.total(),
            s.buffer_size == self.count(),
            s.oldest_tick == (if self.buffer().len() > 0 { self.buffer()[0].tick } else { 0 }),
            s.newest_tick == (if self.buffer().len() > 0 { self.buffer().last().tick } else { 0 }),
    {
        let n = self.buffer.len();
        CollectorStats {
            total_samples: self.total_collected,
            buffer_size: self.count,
            oldest_tick: if n > 0 { self.buffer[0].tick } else { 0 },
            newest_tick: if n > 0 { self.buffer[n - 1].tick } else { 0 },
        }
    }
}

/// After a sample is pushed, the latest sample is that one.
pub proof fn lemma_latest_after_push(c0: MetricsCollector, c1: MetricsCollector, s: MetricSample)
    requires
        c0.wf(),
        c1.wf(),
        c1.capacity() == c0.capacity(),
        c1.buffer() == (if c0.buffer().len() < c0.capacity() { c0.buffer().push(s) } else { c0.buffer().update(c0.head(), s) }),
        c1.head() == (if c0.head() + 1 == c0.capacity() { 0 } else { c0.head() + 1 }),
    ensures
        c1.buffer().len() > 0,
        c1.buffer()[if c1.head() == 0 { c1.buffer().len() - 1 } else { c1.head() - 1 }] == s,
{
    if c0.buffer().len() < c0.capacity() {
        if c0.head() + 1 == c0.capacity() {
            assert(c1.head() == 0);
        } else {
            assert(c1.head() == c0.head() + 1);
        }
    } else {
        if c0.head() + 1 == c0.capacity() {
            assert(c1.head() == 0);
        } else {
            assert(c1.head() == c0.head() + 1);
        }
    }
}

/// Takes a sample at `tick` and pushes it.
pub fn collect(c: &mut MetricsCollector, tick: u64, inputs: &CollectInputs)
    requires
        old(c).wf(),
        old(c).total() < u64::MAX,
        inputs.heap_used * 100 <= usize::MAX,
    ensures
        final(c).wf(),
        final(c).total() == old(c).total() + 1,
        final(c).buffer().len() > 0,
        final(c).buffer()[if final(c).head() == 0 { final(c).buffer().len() - 1 } else { final(c).head() - 1 }]
            == sample_of(tick, *inputs),
{
    let s = MetricSample::collect(tick, inputs);
    let ghost c0 = *c;
    c.push(s);
    proof {
        lemma_latest_after_push(c0, *c, s);
    }
}

/// A copy of the latest sample.
pub fn get_latest(c: &MetricsCollector) -> (r: Option<MetricSample>)
    requires
        c.wf(),
    ensures
        c.buffer().len() == 0 ==> r is None,
        c.buffer().len() > 0 ==> r == Some(c.buffer()[if c.head() == 0 { c.buffer().len() - 1 } else { c.head() - 1 }]),
{
    match c.latest() {
        Some(s) => Some(*s),
        None => None,
    }
}

/// The collector's counts.
pub fn get_collector_stats(c: &MetricsCollector) -> (s: CollectorStats)
    ensures
        s.total_samples == c.total(),
        s.buffer_size == c.count(),
{
    c.stats()
}

/// The kinds of suggestion.
#[derive(Clone, Copy, PartialEq, Eq, Structural, Debug)]
pub enum SuggestionKind {
    Performance,
    Storage,
    Security,
    Network,
    Energy,
}

/// A suggestion to the user.
#[derive(Debug)]
pub struct Suggestion {
    pub id: u64,
    pub kind: SuggestionKind,
    pub title: String,
    pub description: String,
    /// 0 to 100.
    pub confidence: u8,
    pub tick: u64,
    pub auto_apply: bool,
}

/// A suggestion as plain values.
pub type SuggestionView = (u64, SuggestionKind, Seq<char>, Seq<char>, u8, u64, bool);

/// The plain values of a suggestion.
pub open spec fn suggestion_view(s: Suggestion) -> SuggestionView {
    (s.id, s.kind, s.title@, s.description@, s.confidence, s.tick, s.auto_apply)
}

/// The suggestions kept after adding `s`: the last ten.
pub open spec fn kept_after(v: Seq<SuggestionView>, s: SuggestionView) -> Seq<SuggestionView> {
    (if v.len() >= 10 { v.drop_first() } else { v }).push(s)
}

/// The engine's suggestions and counts.
pub struct SuggestEngine {
    pub suggestions: Vec<Suggestion>,
    pub total_generated: u64,
    pub accepted: u64,
    pub dismissed: u64,
    /// The id the next suggestion gets.
    pub next_id: u64,
}

/// The sync suggestion's description.
pub open spec fn sync_text(active: usize) -> Seq<char> {
    dec_of(active as nat) + " dispositivo(s) online. Sincronizar arquivos recentes?"@
}

/// The memory suggestion's description.
pub open spec fn memory_text(pct: u8) -> Seq<char> {
    "Heap em "@ + dec_of(pct as nat) + "%. Considere fechar processos em segundo plano."@
}

/// The suggestions after an evaluation at `tick`: every 60000 ticks, with an
/// active peer, a network suggestion to synchronise; with the latest heap use
/// above 80%, a performance suggestion to free memory.
pub open spec fn evaluated(v: Seq<SuggestionView>, id: u64, tick: u64, active: usize, heap: Option<u8>) -> Seq<SuggestionView> {
    let sync = tick % 60000 == 0 && active > 0;
    let v1 = if sync {
        kept_after(v, (id, SuggestionKind::Network, "Sincronizacao disponivel"@, sync_text(active), 80, tick, false))
    } else {
        v
    };
    let id1 = if sync { (id + 1) as u64 } else { id };
    match heap {
        Some(p) => if p > 80 {
            kept_after(v1, (id1, SuggestionKind::Performance, "Memoria em uso elevado"@, memory_text(p), 90, tick, true))
        } else {
            v1
        },
        None => v1,
    }
}

impl SuggestEngine {
    /// The suggestions as plain values.
    pub open spec fn view_seq(&self) -> Seq<SuggestionView> {
        self.suggestions@.map_values(|s: Suggestion| suggestion_view(s))
    }

    /// No suggestions; the first gets id 1.
    pub fn new() -> (e: SuggestEngine)
        ensures
            e.suggestions@.len() == 0 && e.total_generated == 0 && e.accepted == 0 && e.dismissed == 0 && e.next_id == 1,
    {
        SuggestEngine { suggestions: Vec::new(), total_generated: 0, accepted: 0, dismissed: 0, next_id: 1 }
    }

    fn add(&mut self, s: Suggestion)
        requires
            old(self).next_id < u64::MAX,
            old(self).total_generated < u64::MAX,
        ensures
            final(self).view_seq() == kept_after(old(self).view_seq(), suggestion_view(Suggestion { id: old(self).next_id, ..s })),
            final(self).next_id == old(self).next_id + 1,
            final(self).total_generated == old(self).total_generated + 1,
            final(self).accepted == old(self).accepted && final(self).dismissed == old(self).dismissed,
    {
        let mut s = s;
        s.id = self.next_id;
        self.next_id = self.next_id + 1;
        self.total_generated = self.total_generated + 1;
        let ghost v0 = self.view_seq();
        if self.suggestions.len() >= 10 {
            self.suggestions.remove(0);
            assert(self.view_seq() =~= v0.drop_first());
        }
        let ghost v1 = self.view_seq();
        self.suggestions.push(s);
        assert(self.view_seq() =~= v1.push(suggestion_view(s)));
    }

    /// Adds the suggestions that apply at `tick`, given how many peers are
    /// active and the latest heap use.
    pub fn evaluate(&mut self, tick: u64, active_peers: usize, latest_heap_pct: Option<u8>)
        requires
            old(self).next_id + 2 <= u64::MAX,
            old(self).total_generated + 2 <= u64::MAX,
        ensures
            final(self).view_seq() == evaluated(old(self).view_seq(), old(self).next_id, tick, active_peers, latest_heap_pct),
            final(self).accepted == old(self).accepted && final(self).dismissed == old(self).dismissed,
    {
        if tick % 60000 == 0 {
            if active_peers > 0 {
                let mut d = String::new();
                push_dec(&mut d, active_peers as u64);
                d.append(" dispositivo(s) online. Sincronizar arquivos recentes?");
                self.add(Suggestion {
                    id: self.next_id,
                    kind: SuggestionKind::Network,
                    title: String::from_str("Sincronizacao disponivel"),
                    description: d,
                    confidence: 80,
                    tick,
                    auto_apply: false,
                });
            }
        }
        match latest_heap_pct {
            Some(p) => {
                if p > 80 {
                    let mut d = String::from_str("Heap em ");
                    push_dec(&mut d, p as u64);
                    d.append("%. Considere fechar processos em segundo plano.");
                    self.add(Suggestion {
                        id: self.next_id,
                        kind: SuggestionKind::Performance,
                        title: String::from_str("Memoria em uso elevado"),
                        description: d,
                        confidence: 90,
                        tick,
                        auto_apply: true,
                    });
                }
            },
            None => {},
        }
    }

    /// The current suggestions, oldest first.
    pub fn list(&self) -> (s: &[Suggestion])
        ensures
            s@ == self.suggestions@,
    {
        self.suggestions.as_slice()
    }

    fn position(&self, id: u64) -> (r: Option<usize>)
        ensures
            match r {
                Some(i) => i < self.suggestions@.len() && self.suggestions@[i as int].id == id
                    && forall|j: int| 0 <= j < i ==> (#[trigger] self.suggestions@[j]).id != id,
                None => forall|j: int| 0 <= j < self.suggestions@.len() ==> (#[trigger] self.suggestions@[j]).id != id,
            },
    {
        let mut i: usize = 0;
        while i < self.suggestions.len()
            invariant
                i <= self.suggestions@.len(),
                forall|j: int| 0 <= j < i ==> (#[trigger] self.suggestions@[j]).id != id,
            decreases self.suggestions@.len() - i,
        {
            if self.suggestions[i].id == id {
                return Some(i);
            }
            i = i + 1;
        }
        None
    }

    /// Takes the first suggestion with `id` off the list and counts it
    /// accepted; false when there is none.
    pub fn accept(&mut self, id: u64) -> (found: bool)
        requires
            old(self).accepted < u64::MAX,
        ensures
            found <==> exists|j: int| 0 <= j < old(self).suggestions@.len() && (#[trigger] old(self).suggestions@[j]).id == id,
            found ==> final(self).accepted == old(self).accepted + 1 && final(self).suggestions@.len() == old(self).suggestions@.len() - 1,
            !found ==> final(self).accepted == old(self).accepted && final(self).suggestions@ == old(self).suggestions@,
            found ==> exists|i: int| 0 <= i < old(self).suggestions@.len() && (#[trigger] old(self).suggestions@[i]).id == id
                && final(self).suggestions@ == old(self).suggestions@.remove(i),
            final(self).dismissed == old(self).dismissed,
    {
        match self.position(id) {
            Some(pos) => {
                self.suggestions.remove(pos);
                self.accepted = self.accepted + 1;
                true
            },
            None => false,
        }
    }

    /// Takes the first suggestion with `id` off the list and counts it
    /// dismissed; false when there is none.
    pub fn dismiss(&mut self, id: u64) -> (found: bool)
        requires
            old(self).dismissed < u64::MAX,
        ensures
            found <==> exists|j: int| 0 <= j < old(self).suggestions@.len() && (#[trigger] old(self).suggestions@[j]).id == id,
            found ==> final(self).dismissed == old(self).dismissed + 1 && final(self).suggestions@.len() == old(self).suggestions@.len() - 1,
            !found ==> final(self).dismissed == old(self).dismissed && final(self).suggestions@ == old(self).suggestions@,
            found ==> exists|i: int| 0 <= i < old(self).suggestions@.len() && (#[trigger] old(self).suggestions@[i]).id == id
                && final(self).suggestions@ == old(self).suggestions@.remove(i),
            final(self).accepted == old(self).accepted,
    {
        match self.position(id) {
            Some(pos) => {
                self.suggestions.remove(pos);
                self.dismissed = self.dismissed + 1;
                true
            },
            None => false,
        }
    }
}

/// Adds the suggestions that apply at `tick`.
pub fn evaluate(e: &mut SuggestEngine, tick: u64, active_peers: usize, latest_heap_pct: Option<u8>)
    requires
        old(e).next_id + 2 <= u64::MAX,
        old(e).total_generated + 2 <= u64::MAX,
    ensures
        final(e).view_seq() == evaluated(old(e).view_seq(), old(e).next_id, tick, active_peers, latest_heap_pct),
{
    e.evaluate(tick, active_peers, latest_heap_pct);
}

/// Copies of the current suggestions.
pub fn get_suggestions(e: &SuggestEngine) -> (v: Vec<Suggestion>)
    ensures
        v@.map_values(|s: Suggestion| suggestion_view(s)) == e.view_seq(),
{
    let mut v: Vec<Suggestion> = Vec::new();
    let mut i: usize = 0;
    while i < e.suggestions.len()
        invariant
            i <= e.suggestions@.len(),
            v@.map_values(|s: Suggestion| suggestion_view(s)) == e.view_seq().take(i as int),
        decreases e.suggestions@.len() - i,
    {
        let s = &e.suggestions[i];
        let c = Suggestion {
            id: s.id,
            kind: s.kind,
            title: s.title.clone(),
            description: s.description.clone(),
            confidence: s.confidence,
            tick: s.tick,
            auto_apply: s.auto_apply,
        };
        let ghost before = v@.map_values(|x: Suggestion| suggestion_view(x));
        assert(suggestion_view(c) == e.view_seq()[i as int]);
        v.push(c);
        assert(v@.map_values(|x: Suggestion| suggestion_view(x)) =~= before.push(suggestion_view(c)));
        assert(e.view_seq().take(i + 1) =~= e.view_seq().take(i as int).push(e.view_seq()[i as int]));
        i = i + 1;
    }
    assert(e.view_seq().take(i as int) =~= e.view_seq());
    v
}

/// Priorities of a synchronisation.
#[derive(Clone, Copy, PartialEq, Eq, Structural, Debug)]
pub enum SyncPriority {
    Critical,
    High,
    Normal,
    Background,
}

/// What the optimiser can do.
#[derive(Clone, Copy, PartialEq, Eq, Structural, Debug)]
pub enum OptimizationAction {
    AdjustSchedulerQuantum { idle_boost: bool },
    TriggerSync { priority: SyncPriority },
    IsolateProcess { pid: u64 },
    TrimMemory,
    NoAction,
}

/// The optimiser's record: how many actions it took and the last decision.
#[derive(Clone, Copy, Debug)]
pub struct Optimizer {
    pub actions_applied: u64,
    pub last_action: OptimizationAction,
}

impl Optimizer {
    /// No actions yet.
    pub fn new() -> (o: Optimizer)
        ensures
            o.actions_applied == 0 && o.last_action == OptimizationAction::NoAction,
    {
        Optimizer { actions_applied: 0, last_action: OptimizationAction::NoAction }
    }

    /// Records a decision; every decision but "no action" counts as an action.
    pub fn record(&mut self, action: OptimizationAction)
        requires
            old(self).actions_applied < u64::MAX,
        ensures
            final(self).last_action == action,
            final(self).actions_applied == old(self).actions_applied + (if action == OptimizationAction::NoAction { 0int } else { 1int }),
    {
        if action != OptimizationAction::NoAction {
            self.actions_applied = self.actions_applied + 1;
        }
        self.last_action = action;
    }
}

/// How many actions the optimiser took.
pub fn actions_applied(o: &Optimizer) -> (n: u64)
    ensures
        n == o.actions_applied,
{
    o.actions_applied
}

/// The engine's counters.
#[derive(Clone, Copy, Debug)]
pub struct IaEngineState {
    pub initialized: bool,
    pub inferences_total: u64,
    pub optimizations_applied: u64,
    pub suggestions_generated: u64,
    pub last_inference_tick: u64,
    /// Estimated accuracy in percent.
    pub model_accuracy: u8,
}

impl IaEngineState {
    /// Not initialised, all counters zero.
    pub fn new() -> (s: IaEngineState)
        ensures
            s == (IaEngineState { initialized: false, inferences_total: 0, optimizations_applied: 0,
                suggestions_generated: 0, last_inference_tick: 0, model_accuracy: 0 }),
    {
        IaEngineState { initialized: false, inferences_total: 0, optimizations_applied: 0,
            suggestions_generated: 0, last_inference_tick: 0, model_accuracy: 0 }
    }
}

/// Marks the engine initialised with an estimated accuracy of 72%.
pub fn init(s: &mut IaEngineState)
    ensures
        *final(s) == (IaEngineState { initialized: true, model_accuracy: 72, ..*old(s) }),
{
    s.initialized = true;
    s.model_accuracy = 72;
}

/// Whether the engine runs at `tick`: once every 1000 ticks.
pub fn is_inference_tick(tick: u64) -> (b: bool)
    ensures
        b == (tick % 1000 == 0),
{
    tick % 1000 == 0
}

/// Counts an inference made at `tick`.
pub fn record_inference(s: &mut IaEngineState, tick: u64)
    requires
        old(s).inferences_total < u64::MAX,
    ensures
        *final(s) == (IaEngineState { inferences_total: (old(s).inferences_total + 1) as u64, last_inference_tick: tick, ..*old(s) }),
{
    s.inferences_total = s.inferences_total + 1;
    s.last_inference_tick = tick;
}

/// The engine's figures.
#[derive(Clone, Copy, Debug)]
pub struct IaStats {
    pub initialized: bool,
    pub inferences_total: u64,
    pub optimizations_applied: u64,
    pub suggestions_generated: u64,
    pub model_accuracy: u8,
    pub metrics_collected: u64,
    pub last_inference_tick: u64,
}

/// The engine's figures, with the samples the collector took.
pub fn get_stats(s: &IaEngineState, c: &MetricsCollector) -> (st: IaStats)
    ensures
        st == (IaStats {
            initialized: s.initialized,
            inferences_total: s.inferences_total,
            optimizations_applied: s.optimizations_applied,
            suggestions_generated: s.suggestions_generated,
            model_accuracy: s.model_accuracy,
            metrics_collected: c.total(),
            last_inference_tick: s.last_inference_tick,
        }),
{
    let cs = c.stats();
    IaStats {
        initialized: s.initialized,
        inferences_total: s.inferences_total,
        optimizations_applied: s.optimizations_applied,
        suggestions_generated: s.suggestions_generated,
        model_accuracy: s.model_accuracy,
        metrics_collected: cs.total_samples,
        last_inference_tick: s.last_inference_tick,
    }
}

/// Counts of the model runs and their latencies.
#[derive(Clone, Copy, Debug)]
pub struct InferenceEngine {
    pub initialized: bool,
    pub total_inferences: u64,
    pub total_latency_us: u64,
}

impl InferenceEngine {
    /// No run yet.
    pub fn new() -> (e: InferenceEngine)
        ensures
            !e.initialized && e.total_inferences == 0 && e.total_latency_us == 0,
    {
        InferenceEngine { initialized: false, total_inferences: 0, total_latency_us: 0 }
    }

    /// Counts one model run that took `latency_us` microseconds.
    pub fn record(&mut self, latency_us: u32)
        requires
            old(self).total_inferences < u64::MAX,
            old(self).total_latency_us + latency_us <= u64::MAX,
        ensures
            final(self).total_inferences == old(self).total_inferences + 1,
            final(self).total_latency_us == old(self).total_latency_us + latency_us,
            final(self).initialized == old(self).initialized,
    {
        self.total_inferences = self.total_inferences + 1;
        self.total_latency_us = self.total_latency_us + latency_us as u64;
    }

    /// The mean latency of a run, rounded down; 0 before any run.
    pub fn avg_latency_us(&self) -> (r: u64)
        ensures
            r == (if self.total_inferences == 0 { 0 } else { self.total_latency_us / self.total_inferences }),
    {
        if self.total_inferences == 0 {
            return 0;
        }
        self.total_latency_us / self.total_inferences
    }
}

/// The mean latency of a run of `e` (see `InferenceEngine::avg_latency_us`).
pub fn avg_latency_us(e: &InferenceEngine) -> (r: u64)
    ensures
        r == (if e.total_inferences == 0 { 0 } else { e.total_latency_us / e.total_inferences }),
{
    e.avg_latency_us()
}

} // verus!
