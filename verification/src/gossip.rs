//! Gossip: heartbeats out, messages in, each message taken once per origin
//! and version and passed on until it has travelled seven hops.
use vstd::prelude::*;
use crate::dag::same_hash;

verus! {

/// Ticks between heartbeats.
pub const HEARTBEAT_INTERVAL: u64 = 5_000;
/// Hops after which a message is no longer passed on.
pub const MAX_HOPS: u8 = 7;
/// Peers each message is sent to.
pub const FANOUT: usize = 3;
/// Most (origin, version) pairs remembered; beyond it the oldest 50 go.
pub const SEEN_CAPACITY: usize = 200;

/// What a gossip message says.
#[derive(Clone)]
pub enum GossipKind {
    Heartbeat { name: String, load_cpu: u8, load_mem: u8, storage_free_mb: u32 },
    FileAvailable { file_hash: [u8; 32], file_size: u64, path: String },
    FileRequest { file_hash: [u8; 32], requester_id: [u8; 32] },
    Departure,
}

/// A gossip message.
#[derive(Clone)]
pub struct GossipMessage {
    pub origin_id: [u8; 32],
    pub version: u64,
    pub kind: GossipKind,
    pub hops: u8,
    pub created_at: u64,
}

fn copy_kind(k: &GossipKind) -> (c: GossipKind)
    ensures
        same_kind(c, *k),
{
    match k {
        GossipKind::Heartbeat { name, load_cpu, load_mem, storage_free_mb } => GossipKind::Heartbeat {
            name: name.clone(),
            load_cpu: *load_cpu,
            load_mem: *load_mem,
            storage_free_mb: *storage_free_mb,
        },
        GossipKind::FileAvailable { file_hash, file_size, path } => GossipKind::FileAvailable {
            file_hash: *file_hash,
            file_size: *file_size,
            path: path.clone(),
        },
        GossipKind::FileRequest { file_hash, requester_id } => GossipKind::FileRequest {
            file_hash: *file_hash,
            requester_id: *requester_id,
        },
        GossipKind::Departure => GossipKind::Departure,
    }
}

/// The same content (texts compared by their characters).
pub open spec fn same_kind(a: GossipKind, b: GossipKind) -> bool {
    match (a, b) {
        (GossipKind::Heartbeat { name: n1, load_cpu: c1, load_mem: m1, storage_free_mb: s1 },
         GossipKind::Heartbeat { name: n2, load_cpu: c2, load_mem: m2, storage_free_mb: s2 }) =>
            n1@ == n2@ && c1 == c2 && m1 == m2 && s1 == s2,
        (GossipKind::FileAvailable { file_hash: h1, file_size: z1, path: p1 },
         GossipKind::FileAvailable { file_hash: h2, file_size: z2, path: p2 }) => h1 == h2 && z1 == z2 && p1@ == p2@,
        (GossipKind::FileRequest { file_hash: h1, requester_id: r1 },
         GossipKind::FileRequest { file_hash: h2, requester_id: r2 }) => h1 == h2 && r1 == r2,
        (GossipKind::Departure, GossipKind::Departure) => true,
        _ => false,
    }
}

/// The gossip state: what was seen, what waits to go out, and counters.
pub struct GossipEngine {
    running: bool,
    seen_messages: Vec<([u8; 32], u64)>,
    outbound: Vec<GossipMessage>,
    messages_sent: u64,
    messages_received: u64,
    messages_dropped: u64,
    last_heartbeat_tick: u64,
}

/// The message was seen already: same origin with this version or a newer one.
pub open spec fn already_seen(seen: Seq<([u8; 32], u64)>, origin: Seq<u8>, version: u64) -> bool {
    exists|i: int| 0 <= i < seen.len() && #[trigger] seen[i].0@ == origin && seen[i].1 >= version
}

/// The seen list after recording a pair: appended, and the oldest 50 dropped
/// once it holds more than 200.
pub open spec fn seen_after(seen: Seq<([u8; 32], u64)>, e: ([u8; 32], u64)) -> Seq<([u8; 32], u64)> {
    let s = seen.push(e);
    if s.len() > SEEN_CAPACITY { s.subrange(50, s.len() as int) } else { s }
}

/// A running engine owes a heartbeat once the interval has passed.
pub open spec fn heartbeat_due(g: GossipEngine, now: u64) -> bool {
    g.is_running() && (if now < g.last_heartbeat() { 0 } else { now - g.last_heartbeat() }) >= HEARTBEAT_INTERVAL
}

/// `m` is this node's heartbeat at `now` with the given loads.
pub open spec fn is_heartbeat(m: GossipMessage, node_id: [u8; 32], now: u64, load_mem: u8, free_mb: u32) -> bool {
    &&& m.origin_id == node_id && m.version == now && m.hops == 0 && m.created_at == now
    &&& m.kind matches GossipKind::Heartbeat { name, load_cpu, load_mem: lm, storage_free_mb }
        && name@ == "socd-node"@ && load_cpu == 5 && lm == load_mem && storage_free_mb == free_mb
}

impl GossipEngine {
    pub closed spec fn is_running(&self) -> bool {
        self.running
    }

    pub closed spec fn seen(&self) -> Seq<([u8; 32], u64)> {
        self.seen_messages@
    }

    pub closed spec fn queue(&self) -> Seq<GossipMessage> {
        self.outbound@
    }

    /// Sent, received and dropped counts.
    pub closed spec fn counters(&self) -> (u64, u64, u64) {
        (self.messages_sent, self.messages_received, self.messages_dropped)
    }

    pub closed spec fn last_heartbeat(&self) -> u64 {
        self.last_heartbeat_tick
    }

    /// Stopped, nothing seen or queued.
    pub fn new() -> (g: GossipEngine)
        ensures
            !g.is_running() && g.seen().len() == 0 && g.queue().len() == 0,
            g.counters() == (0u64, 0u64, 0u64) && g.last_heartbeat() == 0,
    {
        GossipEngine {
            running: false,
            seen_messages: Vec::new(),
            outbound: Vec::new(),
            messages_sent: 0,
            messages_received: 0,
            messages_dropped: 0,
            last_heartbeat_tick: 0,
        }
    }

    /// Starts the engine.
    pub fn start(&mut self)
        ensures
            final(self).is_running(),
            final(self).seen() == old(self).seen() && final(self).queue() == old(self).queue(),
            final(self).counters() == old(self).counters(),
            final(self).last_heartbeat() == old(self).last_heartbeat(),
    {
        self.running = true;
    }

    /// The queued messages, handed over to be sent; the queue empties.
    pub fn take_outbound(&mut self) -> (v: Vec<GossipMessage>)
        ensures
            v@ == old(self).queue(),
            final(self).queue().len() == 0,
            final(self).seen() == old(self).seen() && final(self).counters() == old(self).counters(),
            final(self).is_running() == old(self).is_running(),
            final(self).last_heartbeat() == old(self).last_heartbeat(),
    {
        let mut v: Vec<GossipMessage> = Vec::new();
        std::mem::swap(&mut v, &mut self.outbound);
        v
    }

    /// Once `HEARTBEAT_INTERVAL` ticks have passed since the last heartbeat, a
    /// running engine queues a heartbeat with the memory load of `heap_used` of
    /// `heap_total` bytes and `heap_free` free bytes.
    pub fn tick(&mut self, current_tick: u64, node_id: [u8; 32], heap_used: usize, heap_free: usize, heap_total: usize)
        requires
            old(self).counters().0 < u64::MAX,
            heap_used <= heap_total,
        ensures
            final(self).seen() == old(self).seen(),
            final(self).is_running() == old(self).is_running(),
            heartbeat_due(*old(self), current_tick) ==> final(self).queue().len() == old(self).queue().len() + 1,
            heartbeat_due(*old(self), current_tick) ==> final(self).queue().drop_last() == old(self).queue(),
            heartbeat_due(*old(self), current_tick) ==> is_heartbeat(final(self).queue().last(), node_id, current_tick,
                (heap_used * 100 / (if heap_total > 0 { heap_total as int } else { 1 })) as u8, (heap_free / 1024) as u32),
            heartbeat_due(*old(self), current_tick) ==> final(self).counters()
                == ((old(self).counters().0 + 1) as u64, old(self).counters().1, old(self).counters().2),
            heartbeat_due(*old(self), current_tick) ==> final(self).last_heartbeat() == current_tick,
            !heartbeat_due(*old(self), current_tick) ==> final(self).queue() == old(self).queue(),
            !heartbeat_due(*old(self), current_tick) ==> final(self).counters() == old(self).counters(),
            !heartbeat_due(*old(self), current_tick) ==> final(self).last_heartbeat() == old(self).last_heartbeat(),
    {
        if !self.running {
            return;
        }
        if current_tick.saturating_sub(self.last_heartbeat_tick) >= HEARTBEAT_INTERVAL {
            let total: u128 = if heap_total > 0 { heap_total as u128 } else { 1 };
            let mem_pct = ((heap_used as u128 * 100) / total) as u8;
            let msg = GossipMessage {
                origin_id: node_id,
                version: current_tick,
                kind: GossipKind::Heartbeat {
                    name: String::from_str("socd-node"),
                    load_cpu: 5,
                    load_mem: mem_pct,
                    storage_free_mb: (heap_free / 1024) as u32,
                },
                hops: 0,
                created_at: current_tick,
            };
            let ghost q0 = self.outbound@;
            self.outbound.push(msg);
            assert(self.outbound@.drop_last() =~= q0);
            self.messages_sent = self.messages_sent + 1;
            self.last_heartbeat_tick = current_tick;
        }
    }

    /// Takes in a message: a message already seen is dropped; otherwise it is
    /// remembered, counted, and queued again one hop further while it is under
    /// `MAX_HOPS` hops.
    pub fn receive(&mut self, msg: GossipMessage)
        requires
            old(self).counters().1 < u64::MAX,
            old(self).counters().2 < u64::MAX,
        ensures
            final(self).is_running() == old(self).is_running(),
            final(self).last_heartbeat() == old(self).last_heartbeat(),
            already_seen(old(self).seen(), msg.origin_id@, msg.version) ==> {
                &&& final(self).seen() == old(self).seen() && final(self).queue() == old(self).queue()
                &&& final(self).counters() == (old(self).counters().0, old(self).counters().1, (old(self).counters().2 + 1) as u64)
            },
            !already_seen(old(self).seen(), msg.origin_id@, msg.version) ==> {
                &&& final(self).seen() == seen_after(old(self).seen(), (msg.origin_id, msg.version))
                &&& final(self).counters() == (old(self).counters().0, (old(self).counters().1 + 1) as u64, old(self).counters().2)
                &&& msg.hops < MAX_HOPS ==> final(self).queue().len() == old(self).queue().len() + 1
                    && final(self).queue().drop_last() == old(self).queue()
                    && final(self).queue().last().hops == msg.hops + 1
                    && final(self).queue().last().origin_id == msg.origin_id
                    && final(self).queue().last().version == msg.version
                    && final(self).queue().last().created_at == msg.created_at
                    && same_kind(final(self).queue().last().kind, msg.kind)
                &&& msg.hops >= MAX_HOPS ==> final(self).queue() == old(self).queue()
            },
    {
        let mut seen = false;
        let mut i: usize = 0;
        while i < self.seen_messages.len() && !seen
            invariant
                i <= self.seen_messages@.len(),
                seen ==> already_seen(self.seen_messages@, msg.origin_id@, msg.version),
                !seen ==> forall|j: int| 0 <= j < i ==> !(#[trigger] self.seen_messages@[j].0@ == msg.origin_id@
                    && self.seen_messages@[j].1 >= msg.version),
            decreases self.seen_messages@.len() - i,
        {
            let e = self.seen_messages[i];
            if same_hash(&e.0, &msg.origin_id) && e.1 >= msg.version {
                seen = true;
            }
            i = i + 1;
        }
        if seen {
            self.messages_dropped = self.messages_dropped + 1;
            return;
        }
        let ghost s0 = self.seen_messages@;
        self.seen_messages.push((msg.origin_id, msg.version));
        if self.seen_messages.len() > SEEN_CAPACITY {
            let mut kept: Vec<([u8; 32], u64)> = Vec::new();
            let mut k: usize = 50;
            while k < self.seen_messages.len()
                invariant
                    50 <= k <= self.seen_messages@.len(),
                    kept@ == self.seen_messages@.subrange(50, k as int),
                decreases self.seen_messages@.len() - k,
            {
                kept.push(self.seen_messages[k]);
                k = k + 1;
                assert(kept@ =~= self.seen_messages@.subrange(50, k as int));
            }
            self.seen_messages = kept;
        }
        self.messages_received = self.messages_received + 1;
        if msg.hops < MAX_HOPS {
            let fwd = GossipMessage {
                origin_id: msg.origin_id,
                version: msg.version,
                kind: copy_kind(&msg.kind),
                hops: msg.hops + 1,
                created_at: msg.created_at,
            };
            let ghost q0 = self.outbound@;
            self.outbound.push(fwd);
            assert(self.outbound@.drop_last() =~= q0);
        }
    }
}

/// Starts gossiping.
pub fn init(g: &mut GossipEngine)
    ensures
        final(g).is_running(),
{
    g.start()
}

/// One gossip tick.
pub fn tick(g: &mut GossipEngine, current_tick: u64, node_id: [u8; 32], heap_used: usize, heap_free: usize, heap_total: usize)
    requires
        old(g).counters().0 < u64::MAX,
        heap_used <= heap_total,
    ensures
        final(g).seen() == old(g).seen(),
{
    g.tick(current_tick, node_id, heap_used, heap_free, heap_total)
}

} // verus!
