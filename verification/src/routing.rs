//! Routes to other nodes: one entry per destination, the shortest (then the
//! fastest) route kept.
use vstd::prelude::*;
use crate::dag::same_hash;
use crate::peer::{PeerInfo, same_peer};

verus! {

/// A route to `node_id` through the direct peer `next_hop`.
#[derive(Clone, Copy)]
pub struct RouteEntry {
    pub node_id: [u8; 32],
    pub next_hop: [u8; 32],
    pub hops: u8,
    pub latency_us: u32,
}

/// `a` is a better route than `b`: fewer hops, or as many and faster.
pub open spec fn better(a: RouteEntry, b: RouteEntry) -> bool {
    a.hops < b.hops || (a.hops == b.hops && a.latency_us < b.latency_us)
}

/// The routes.
pub struct RoutingTable {
    entries: Vec<RouteEntry>,
}

/// The XOR distance of the first four bytes of two ids.
pub open spec fn xor_dist(a: Seq<u8>, b: Seq<u8>) -> u32 {
    (((a[0] ^ b[0]) as u32) << 24u32) | (((a[1] ^ b[1]) as u32) << 16u32)
        | (((a[2] ^ b[2]) as u32) << 8u32) | ((a[3] ^ b[3]) as u32)
}

impl RoutingTable {
    /// The routes, in insertion order.
    pub closed spec fn view(&self) -> Seq<RouteEntry> {
        self.entries@
    }

    /// At most one route per destination.
    pub open spec fn wf(&self) -> bool {
        forall|i: int, j: int| 0 <= i < j < self@.len() ==> self@[i].node_id@ != self@[j].node_id@
    }

    /// No routes.
    pub fn new() -> (t: RoutingTable)
        ensures
            t.wf(),
            t@.len() == 0,
    {
        RoutingTable { entries: Vec::new() }
    }

    /// The XOR distance of the first four bytes of two ids.
    pub fn xor_distance(a: &[u8; 32], b: &[u8; 32]) -> (d: u32)
        ensures
            d == xor_dist(a@, b@),
    {
        let mut dist: u32 = 0;
        let mut i: usize = 0;
        while i < 4
            invariant
                i <= 4,
                a@.len() == 32 && b@.len() == 32,
                dist == (if i == 0 { 0u32 } else if i == 1 { ((a@[0] ^ b@[0]) as u32) << 24u32 }
                    else if i == 2 { (((a@[0] ^ b@[0]) as u32) << 24u32) | (((a@[1] ^ b@[1]) as u32) << 16u32) }
                    else if i == 3 { (((a@[0] ^ b@[0]) as u32) << 24u32) | (((a@[1] ^ b@[1]) as u32) << 16u32)
                        | (((a@[2] ^ b@[2]) as u32) << 8u32) }
                    else { xor_dist(a@, b@) }),
            decreases 4 - i,
        {
            let shift: u32 = 24 - (i as u32) * 8;
            let x = a[i] as u32;
            let y = b[i] as u32;
            let d0 = dist;
            dist = dist ^ (x << shift);
            dist = dist ^ (y << shift);
            proof {
                let a0 = a@[0];
                let b0 = b@[0];
                let a1 = a@[1];
                let b1 = b@[1];
                let a2 = a@[2];
                let b2 = b@[2];
                let a3 = a@[3];
                let b3 = b@[3];
                if i == 0 {
                    assert((0u32 ^ ((a0 as u32) << 24u32)) ^ ((b0 as u32) << 24u32) == ((a0 ^ b0) as u32) << 24u32) by (bit_vector);
                } else if i == 1 {
                    assert(((((a0 ^ b0) as u32) << 24u32) ^ ((a1 as u32) << 16u32)) ^ ((b1 as u32) << 16u32)
                        == (((a0 ^ b0) as u32) << 24u32) | (((a1 ^ b1) as u32) << 16u32)) by (bit_vector);
                } else if i == 2 {
                    assert((((((a0 ^ b0) as u32) << 24u32) | (((a1 ^ b1) as u32) << 16u32)) ^ ((a2 as u32) << 8u32)) ^ ((b2 as u32) << 8u32)
                        == (((a0 ^ b0) as u32) << 24u32) | (((a1 ^ b1) as u32) << 16u32) | (((a2 ^ b2) as u32) << 8u32)) by (bit_vector);
                } else {
                    assert((((((a0 ^ b0) as u32) << 24u32) | (((a1 ^ b1) as u32) << 16u32) | (((a2 ^ b2) as u32) << 8u32)) ^ ((a3 as u32) << 0u32)) ^ ((b3 as u32) << 0u32)
                        == (((a0 ^ b0) as u32) << 24u32) | (((a1 ^ b1) as u32) << 16u32) | (((a2 ^ b2) as u32) << 8u32) | ((a3 ^ b3) as u32)) by (bit_vector);
                }
            }
            i = i + 1;
        }
        dist
    }

    /// Adds a route, or replaces the route to the same destination when the new one is better.
    pub fn upsert(&mut self, entry: RouteEntry)
        requires
            old(self).wf(),
        ensures
            final(self).wf(),
            (forall|i: int| 0 <= i < old(self)@.len() ==> old(self)@[i].node_id@ != entry.node_id@)
                ==> final(self)@ == old(self)@.push(entry),
            forall|i: int| 0 <= i < old(self)@.len() && old(self)@[i].node_id@ == entry.node_id@ ==>
                final(self)@ == (if better(entry, old(self)@[i]) { old(self)@.update(i, entry) } else { old(self)@ }),
            final(self)@.len() >= old(self)@.len(),
            forall|i: int| 0 <= i < old(self)@.len() ==> #[trigger] final(self)@[i].node_id@ == old(self)@[i].node_id@,
            routes_to(final(self)@, entry.node_id@),
    {
        let mut i: usize = 0;
        while i < self.entries.len()
            invariant
                i <= self@.len(),
                self@ == old(self)@,
                self.wf(),
                forall|j: int| 0 <= j < i ==> self@[j].node_id@ != entry.node_id@,
            decreases self@.len() - i,
        {
            if same_hash(&self.entries[i].node_id, &entry.node_id) {
                let e = self.entries[i];
                if entry.hops < e.hops || (entry.hops == e.hops && entry.latency_us < e.latency_us) {
                    self.entries.set(i, entry);
                }
                assert(self@[i as int].node_id@ == entry.node_id@);
                return;
            }
            i = i + 1;
        }
        self.entries.push(entry);
        assert(self@[self@.len() - 1].node_id@ == entry.node_id@);
    }

    /// The next hop towards `destination`.
    pub fn next_hop(&self, destination: &[u8; 32]) -> (r: Option<[u8; 32]>)
        requires
            self.wf(),
        ensures
            match r {
                Some(h) => exists|i: int| 0 <= i < self@.len() && self@[i].node_id@ == destination@ && self@[i].next_hop == h,
                None => forall|i: int| 0 <= i < self@.len() ==> self@[i].node_id@ != destination@,
            },
    {
        let mut i: usize = 0;
        while i < self.entries.len()
            invariant
                i <= self@.len(),
                forall|j: int| 0 <= j < i ==> self@[j].node_id@ != destination@,
            decreases self@.len() - i,
        {
            if same_hash(&self.entries[i].node_id, destination) {
                return Some(self.entries[i].next_hop);
            }
            i = i + 1;
        }
        None
    }

    /// How many routes.
    pub fn entry_count(&self) -> (n: usize)
        ensures
            n == self@.len(),
    {
        self.entries.len()
    }
}

/// Some route leads to `id`.
pub open spec fn routes_to(s: Seq<RouteEntry>, id: Seq<u8>) -> bool {
    exists|i: int| 0 <= i < s.len() && #[trigger] s[i].node_id@ == id
}

/// Routes every active peer directly, one hop, at its measured latency.
pub fn init(t: &mut RoutingTable, active: &Vec<PeerInfo>)
    requires
        old(t).wf(),
    ensures
        final(t).wf(),
        forall|k: int| 0 <= k < active@.len() ==> routes_to(final(t)@, #[trigger] active@[k].node_id@),
{
    let mut k: usize = 0;
    while k < active.len()
        invariant
            k <= active@.len(),
            t.wf(),
            forall|j: int| 0 <= j < k ==> routes_to(t@, #[trigger] active@[j].node_id@),
        decreases active@.len() - k,
    {
        let ghost before = t@;
        let p = &active[k];
        t.upsert(RouteEntry { node_id: p.node_id, next_hop: p.node_id, hops: 1, latency_us: p.latency_us });
        proof {
            assert forall|j: int| 0 <= j < k + 1 implies routes_to(t@, #[trigger] active@[j].node_id@) by {
                if j < k {
                    assert(routes_to(before, active@[j].node_id@));
                    let i0 = choose|i: int| 0 <= i < before.len() && #[trigger] before[i].node_id@ == active@[j].node_id@;
                    assert(t@[i0].node_id@ == before[i0].node_id@);
                }
            }
        }
        k = k + 1;
    }
}

/// The next hop towards `destination`.
pub fn find_route(t: &RoutingTable, destination: &[u8; 32]) -> (r: Option<[u8; 32]>)
    requires
        t.wf(),
    ensures
        match r {
            Some(h) => exists|i: int| 0 <= i < t@.len() && t@[i].node_id@ == destination@ && t@[i].next_hop == h,
            None => forall|i: int| 0 <= i < t@.len() ==> t@[i].node_id@ != destination@,
        },
{
    t.next_hop(destination)
}

} // verus!
