//! The table of known peers, ordered by node id, with their trust scores.
use vstd::prelude::*;
use crate::util::{hex_of, push_hex_byte, lex_lt, lex_order, lemma_lex_irreflexive, lemma_lex_trans, keyed_map,
    keys_unique, lemma_keyed_map_insert_at, lemma_keyed_map_update, lemma_keyed_map_get, lemma_keyed_map_absent,
    strictly_sorted, lemma_sorted_unique};

verus! {

/// The protocol version this node speaks.
pub const PROTOCOL_VERSION: u32 = 1;

/// Why a peer was dropped.
#[derive(Clone, Copy, PartialEq, Eq, Structural, Debug)]
pub enum DisconnectReason {
    Timeout,
    InvalidData,
    ProtocolError,
    UserInitiated,
    NetworkError,
}

/// Where a peer stands.
#[derive(Clone, Debug)]
pub enum PeerState {
    Discovered,
    Connecting,
    Connected,
    Trusted,
    Disconnected { reason: DisconnectReason },
    Banned { reason: String },
}

/// Connected or trusted.
pub open spec fn is_active(s: PeerState) -> bool {
    s is Connected || s is Trusted
}

/// What is known of a peer.
#[derive(Clone)]
pub struct PeerInfo {
    pub node_id: [u8; 32],
    pub public_key: [u8; 32],
    pub name: String,
    pub address: String,
    pub port: u16,
    pub state: PeerState,
    pub trust_score: u8,
    pub latency_us: u32,
    pub last_seen_tick: u64,
    pub first_seen_tick: u64,
    pub bytes_synced: u64,
    pub protocol_version: u32,
    pub is_own_device: bool,
}

/// The same peer record: every field holds the same value.
pub open spec fn same_peer(a: PeerInfo, b: PeerInfo) -> bool {
    &&& a.node_id@ == b.node_id@ && a.public_key@ == b.public_key@
    &&& a.name@ == b.name@ && a.address@ == b.address@ && a.port == b.port
    &&& same_state(a.state, b.state)
    &&& a.trust_score == b.trust_score && a.latency_us == b.latency_us
    &&& a.last_seen_tick == b.last_seen_tick && a.first_seen_tick == b.first_seen_tick
    &&& a.bytes_synced == b.bytes_synced && a.protocol_version == b.protocol_version
    &&& a.is_own_device == b.is_own_device
}

/// The same state (a ban reason compared by its text).
pub open spec fn same_state(a: PeerState, b: PeerState) -> bool {
    match (a, b) {
        (PeerState::Banned { reason: x }, PeerState::Banned { reason: y }) => x@ == y@,
        (PeerState::Banned { .. }, _) => false,
        (_, PeerState::Banned { .. }) => false,
        _ => a == b,
    }
}

fn copy_state(s: &PeerState) -> (c: PeerState)
    ensures
        same_state(c, *s),
{
    match s {
        PeerState::Discovered => PeerState::Discovered,
        PeerState::Connecting => PeerState::Connecting,
        PeerState::Connected => PeerState::Connected,
        PeerState::Trusted => PeerState::Trusted,
        PeerState::Disconnected { reason } => PeerState::Disconnected { reason: *reason },
        PeerState::Banned { reason } => PeerState::Banned { reason: reason.clone() },
    }
}

/// The trust score after an exchange: a success adds 2 under 1 ms and 1 under
/// 10 ms (capped at 100) and averages the latency; a failure takes 5 off.
pub open spec fn score_after(score: u8, success: bool, latency_us: u32) -> u8 {
    if success {
        let bonus: int = if latency_us < 1000 { 2 } else if latency_us < 10_000 { 1 } else { 0 };
        let s = if score + bonus > 255 { 255 } else { score + bonus };
        (if s > 100 { 100 } else { s }) as u8
    } else {
        let s: int = if score < 5 { 0 } else { score - 5 };
        (if s > 100 { 100 } else { s }) as u8
    }
}

impl PeerInfo {
    /// The first four bytes of the node id in hexadecimal.
    pub fn short_id(&self) -> (s: String)
        ensures
            s@ == hex_of(self.node_id@.subrange(0, 4)),
    {
        let mut s = String::new();
        let mut i: usize = 0;
        while i < 4
            invariant
                i <= 4,
                self.node_id@.len() == 32,
                s@ == hex_of(self.node_id@.subrange(0, i as int)),
            decreases 4 - i,
        {
            push_hex_byte(&mut s, self.node_id[i]);
            i = i + 1;
            assert(self.node_id@.subrange(0, i as int).drop_last() =~= self.node_id@.subrange(0, i - 1));
        }
        s
    }

    /// Scores an exchange; a peer whose score falls to zero is disconnected for timeout.
    pub fn update_score(&mut self, success: bool, latency_us: u32)
        ensures
            final(self).trust_score == score_after(old(self).trust_score, success, latency_us),
            success ==> final(self).latency_us == old(self).latency_us / 2 + latency_us / 2,
            !success ==> final(self).latency_us == old(self).latency_us,
            !success && score_after(old(self).trust_score, success, latency_us) == 0 ==>
                final(self).state == (PeerState::Disconnected { reason: DisconnectReason::Timeout }),
            !(!success && score_after(old(self).trust_score, success, latency_us) == 0) ==> final(self).state == old(self).state,
            final(self).node_id == old(self).node_id && final(self).is_own_device == old(self).is_own_device,
            final(self).name == old(self).name && final(self).last_seen_tick == old(self).last_seen_tick,
    {
        if success {
            let bonus: u8 = if latency_us < 1000 { 2 } else if latency_us < 10_000 { 1 } else { 0 };
            self.trust_score = self.trust_score.saturating_add(bonus);
            self.latency_us = (self.latency_us / 2) + (latency_us / 2);
        } else {
            self.trust_score = self.trust_score.saturating_sub(5);
            if self.trust_score == 0 {
                self.state = PeerState::Disconnected { reason: DisconnectReason::Timeout };
            }
        }
        if self.trust_score > 100 {
            self.trust_score = 100;
        }
    }

    /// A copy of the record.
    pub fn duplicate(&self) -> (c: PeerInfo)
        ensures
            same_peer(c, *self),
    {
        PeerInfo {
            node_id: self.node_id,
            public_key: self.public_key,
            name: self.name.clone(),
            address: self.address.clone(),
            port: self.port,
            state: copy_state(&self.state),
            trust_score: self.trust_score,
            latency_us: self.latency_us,
            last_seen_tick: self.last_seen_tick,
            first_seen_tick: self.first_seen_tick,
            bytes_synced: self.bytes_synced,
            protocol_version: self.protocol_version,
            is_own_device: self.is_own_device,
        }
    }
}

/// Peers keyed by node id.
pub open spec fn peer_entries(ps: Seq<PeerInfo>) -> Seq<(Seq<u8>, PeerInfo)> {
    ps.map_values(|p: PeerInfo| (p.node_id@, p))
}

/// `t1` is `t0` after a sighting of `node_id`: a known peer is seen again and
/// marked discovered; a new one is added, with trust 80 when it is one of our
/// own devices and 30 otherwise.
pub open spec fn sighted(t0: PeerTable, t1: PeerTable, node_id: [u8; 32], public_key: [u8; 32], name: Seq<char>,
    address: Seq<char>, port: u16, is_own: bool) -> bool {
    &&& t1.wf()
    &&& t1.tick() == t0.tick()
    &&& t1.peer_map().dom() == t0.peer_map().dom().insert(node_id@)
    &&& forall|k: Seq<u8>| k != node_id@ && #[trigger] t0.peer_map().contains_key(k)
        ==> t1.peer_map()[k] == t0.peer_map()[k]
    &&& t0.peer_map().contains_key(node_id@) ==> {
        let o = t0.peer_map()[node_id@];
        let n = t1.peer_map()[node_id@];
        &&& n.last_seen_tick == t0.tick() && n.state is Discovered
        &&& n.trust_score == o.trust_score && n.name == o.name && n.is_own_device == o.is_own_device
        &&& n.public_key == o.public_key && n.port == o.port
    }
    &&& !t0.peer_map().contains_key(node_id@) ==> {
        let n = t1.peer_map()[node_id@];
        &&& n.node_id == node_id && n.public_key == public_key
        &&& n.name@ == name && n.address@ == address && n.port == port
        &&& n.state is Discovered && n.trust_score == (if is_own { 80u8 } else { 30u8 })
        &&& n.latency_us == 0 && n.last_seen_tick == t0.tick() && n.first_seen_tick == t0.tick()
        &&& n.bytes_synced == 0 && n.protocol_version == PROTOCOL_VERSION && n.is_own_device == is_own
    }
}

/// The known peers, ordered by node id.
pub struct PeerTable {
    peers: Vec<PeerInfo>,
    current_tick: u64,
}

impl PeerTable {
    /// The peers, in node-id order.
    pub closed spec fn view(&self) -> Seq<PeerInfo> {
        self.peers@
    }

    /// The tick stamped on sightings.
    pub closed spec fn tick(&self) -> u64 {
        self.current_tick
    }

    /// Peers by node id.
    pub open spec fn peer_map(&self) -> Map<Seq<u8>, PeerInfo> {
        keyed_map(peer_entries(self@))
    }

    /// Node ids strictly increase.
    pub open spec fn wf(&self) -> bool {
        strictly_sorted(self@.map_values(|p: PeerInfo| p.node_id@))
    }

    /// No peers.
    pub fn new() -> (t: PeerTable)
        ensures
            t.wf(),
            t@.len() == 0,
            t.tick() == 0,
    {
        PeerTable { peers: Vec::new(), current_tick: 0 }
    }

    fn slot(&self, id: &[u8; 32]) -> (r: (usize, bool))
        requires
            self.wf(),
        ensures
            r.0 <= self@.len(),
            forall|i: int| 0 <= i < r.0 ==> lex_lt(#[trigger] self@[i].node_id@, id@),
            r.1 ==> r.0 < self@.len() && self@[r.0 as int].node_id@ == id@,
            !r.1 ==> forall|i: int| r.0 <= i < self@.len() ==> lex_lt(id@, #[trigger] self@[i].node_id@),
            r.1 <==> self.peer_map().contains_key(id@),
            r.1 ==> self.peer_map()[id@] == self@[r.0 as int],
    {
        let ghost ks = self@.map_values(|p: PeerInfo| p.node_id@);
        proof {
            assert(peer_entries(self@).map_values(|e: (Seq<u8>, PeerInfo)| e.0) =~= ks);
            lemma_sorted_unique(peer_entries(self@));
        }
        let mut i: usize = 0;
        while i < self.peers.len()
            invariant
                i <= self.peers@.len(),
                ks == self@.map_values(|p: PeerInfo| p.node_id@),
                strictly_sorted(ks),
                keys_unique(peer_entries(self@)),
                forall|j: int| 0 <= j < i ==> lex_lt(#[trigger] self@[j].node_id@, id@),
            decreases self.peers@.len() - i,
        {
            let c = lex_order(self.peers[i].node_id.as_slice(), id.as_slice());
            if c == 0 {
                proof {
                    lemma_keyed_map_get(peer_entries(self@), i as int);
                }
                return (i, true);
            }
            if c > 0 {
                proof {
                    assert forall|j: int| i <= j < self@.len() implies lex_lt(id@, #[trigger] self@[j].node_id@) by {
                        if j > i {
                            assert(lex_lt(ks[i as int], ks[j]));
                            lemma_lex_trans(id@, ks[i as int], ks[j]);
                        }
                    }
                    assert forall|j: int| 0 <= j < peer_entries(self@).len() implies peer_entries(self@)[j].0 != id@ by {
                        lemma_lex_irreflexive(id@);
                    }
                    lemma_keyed_map_absent(peer_entries(self@), id@);
                }
                return (i, false);
            }
            i = i + 1;
        }
        proof {
            assert forall|j: int| 0 <= j < peer_entries(self@).len() implies peer_entries(self@)[j].0 != id@ by {
                lemma_lex_irreflexive(id@);
            }
            lemma_keyed_map_absent(peer_entries(self@), id@);
        }
        (i, false)
    }

    /// Puts `p` at position `pos`, where its id belongs.
    fn place(&mut self, pos: usize, p: PeerInfo)
        requires
            old(self).wf(),
            pos <= old(self)@.len(),
            forall|i: int| 0 <= i < pos ==> lex_lt(#[trigger] old(self)@[i].node_id@, p.node_id@),
            forall|i: int| pos <= i < old(self)@.len() ==> lex_lt(p.node_id@, #[trigger] old(self)@[i].node_id@),
        ensures
            final(self).wf(),
            final(self).peer_map() == old(self).peer_map().insert(p.node_id@, p),
            final(self)@ == old(self)@.insert(pos as int, p),
            final(self).tick() == old(self).tick(),
    {
        let ghost pe = peer_entries(self@);
        let ghost kv = self@.map_values(|q: PeerInfo| q.node_id@);
        let ghost pid = p.node_id@;
        let ghost pp = p;
        self.peers.insert(pos, p);
        proof {
            assert(pe.map_values(|e: (Seq<u8>, PeerInfo)| e.0) =~= kv);
            lemma_sorted_unique(pe);
            assert forall|j: int| 0 <= j < pe.len() implies pe[j].0 != pid by {
                lemma_lex_irreflexive(pid);
            }
            lemma_keyed_map_insert_at(pe, pos as int, (pid, pp));
            assert(peer_entries(self@) =~= pe.insert(pos as int, (pid, pp)));
            let kv1 = self@.map_values(|q: PeerInfo| q.node_id@);
            assert(kv1 =~= kv.insert(pos as int, pid));
            assert forall|i: int, j: int| 0 <= i < j < kv1.len() implies lex_lt(#[trigger] kv1[i], #[trigger] kv1[j]) by {
                if i < pos && j > pos {
                    lemma_lex_trans(kv1[i], pid, kv1[j]);
                }
            }
        }
    }

    /// Replaces the peer at `pos` by `p`, which has the same id.
    fn replace_at(&mut self, pos: usize, p: PeerInfo)
        requires
            old(self).wf(),
            pos < old(self)@.len(),
            old(self)@[pos as int].node_id@ == p.node_id@,
        ensures
            final(self).wf(),
            final(self).peer_map() == old(self).peer_map().insert(p.node_id@, p),
            final(self)@ == old(self)@.update(pos as int, p),
            final(self).tick() == old(self).tick(),
    {
        let ghost pe = peer_entries(self@);
        let ghost kv = self@.map_values(|q: PeerInfo| q.node_id@);
        let ghost pp = p;
        self.peers.set(pos, p);
        proof {
            assert(pe.map_values(|e: (Seq<u8>, PeerInfo)| e.0) =~= kv);
            lemma_sorted_unique(pe);
            lemma_keyed_map_update(pe, pos as int, pp);
            assert(peer_entries(self@) =~= pe.update(pos as int, (pe[pos as int].0, pp)));
            assert(self@.map_values(|q: PeerInfo| q.node_id@) =~= kv);
        }
    }

    /// Adds or replaces the record of `info.node_id`.
    pub fn upsert(&mut self, info: PeerInfo)
        requires
            old(self).wf(),
        ensures
            final(self).wf(),
            final(self).peer_map() == old(self).peer_map().insert(info.node_id@, info),
            final(self).tick() == old(self).tick(),
    {
        let (pos, found) = self.slot(&info.node_id);
        if found {
            self.replace_at(pos, info);
        } else {
            self.place(pos, info);
        }
    }

    /// Records a sighting: a known peer is seen again and marked discovered; a new
    /// one is added, with trust 80 when it is one of our own devices and 30 otherwise.
    pub fn add_discovered(&mut self, node_id: [u8; 32], public_key: [u8; 32], name: &str, address: &str, port: u16, is_own: bool)
        requires
            old(self).wf(),
        ensures
            final(self).wf(),
            final(self).tick() == old(self).tick(),
            final(self).peer_map().dom() == old(self).peer_map().dom().insert(node_id@),
            forall|k: Seq<u8>| k != node_id@ && #[trigger] old(self).peer_map().contains_key(k)
                ==> final(self).peer_map()[k] == old(self).peer_map()[k],
            old(self).peer_map().contains_key(node_id@) ==> {
                let o = old(self).peer_map()[node_id@];
                let n = final(self).peer_map()[node_id@];
                &&& n.last_seen_tick == old(self).tick() && n.state is Discovered
                &&& n.trust_score == o.trust_score && n.name == o.name && n.is_own_device == o.is_own_device
                &&& n.public_key == o.public_key && n.port == o.port
            },
            !old(self).peer_map().contains_key(node_id@) ==> {
                let n = final(self).peer_map()[node_id@];
                &&& n.node_id == node_id && n.public_key == public_key
                &&& n.name@ == name@ && n.address@ == address@ && n.port == port
                &&& n.state is Discovered && n.trust_score == (if is_own { 80u8 } else { 30u8 })
                &&& n.latency_us == 0 && n.last_seen_tick == old(self).tick() && n.first_seen_tick == old(self).tick()
                &&& n.bytes_synced == 0 && n.protocol_version == PROTOCOL_VERSION && n.is_own_device == is_own
            },
            sighted(*old(self), *final(self), node_id, public_key, name@, address@, port, is_own),
    {
        let (pos, found) = self.slot(&node_id);
        if found {
            let mut p = self.peers[pos].duplicate();
            p.last_seen_tick = self.current_tick;
            p.state = PeerState::Discovered;
            p.name = self.peers[pos].name.clone();
            self.replace_at(pos, p);
            assert(final(self).peer_map().dom() =~= old(self).peer_map().dom().insert(node_id@));
            return;
        }
        let p = PeerInfo {
            node_id,
            public_key,
            name: String::from_str(name),
            address: String::from_str(address),
            port,
            state: PeerState::Discovered,
            trust_score: if is_own { 80 } else { 30 },
            latency_us: 0,
            last_seen_tick: self.current_tick,
            first_seen_tick: self.current_tick,
            bytes_synced: 0,
            protocol_version: PROTOCOL_VERSION,
            is_own_device: is_own,
        };
        self.place(pos, p);
        assert(self.peer_map().dom() =~= old(self).peer_map().dom().insert(node_id@));
    }

    /// Marks a known peer connected and seen now.
    pub fn mark_connected(&mut self, node_id: &[u8; 32])
        requires
            old(self).wf(),
        ensures
            final(self).wf(),
            final(self).tick() == old(self).tick(),
            final(self).peer_map().dom() == old(self).peer_map().dom(),
            forall|k: Seq<u8>| k != node_id@ && #[trigger] old(self).peer_map().contains_key(k)
                ==> final(self).peer_map()[k] == old(self).peer_map()[k],
            old(self).peer_map().contains_key(node_id@) ==> {
                let n = final(self).peer_map()[node_id@];
                let o = old(self).peer_map()[node_id@];
                n.state is Connected && n.last_seen_tick == old(self).tick() && n.trust_score == o.trust_score
                    && n.is_own_device == o.is_own_device && n.node_id == o.node_id
            },
    {
        let (pos, found) = self.slot(node_id);
        if found {
            let mut p = self.peers[pos].duplicate();
            p.state = PeerState::Connected;
            p.last_seen_tick = self.current_tick;
            p.node_id = self.peers[pos].node_id;
            self.replace_at(pos, p);
            assert(self.peer_map().dom() =~= old(self).peer_map().dom());
        }
    }

    /// The record of `node_id`, if the peer is known.
    pub fn lookup(&self, node_id: &[u8; 32]) -> (r: Option<&PeerInfo>)
        requires
            self.wf(),
        ensures
            match r {
                Some(p) => self.peer_map().contains_key(node_id@) && *p == self.peer_map()[node_id@],
                None => !self.peer_map().contains_key(node_id@),
            },
    {
        let (pos, found) = self.slot(node_id);
        if found {
            Some(&self.peers[pos])
        } else {
            None
        }
    }

    /// Marks a known peer trusted, with a score of at least 70.
    pub fn mark_trusted(&mut self, node_id: &[u8; 32])
        requires
            old(self).wf(),
        ensures
            final(self).wf(),
            final(self).tick() == old(self).tick(),
            final(self).peer_map().dom() == old(self).peer_map().dom(),
            forall|k: Seq<u8>| k != node_id@ && #[trigger] old(self).peer_map().contains_key(k)
                ==> final(self).peer_map()[k] == old(self).peer_map()[k],
            old(self).peer_map().contains_key(node_id@) ==> {
                let n = final(self).peer_map()[node_id@];
                let o = old(self).peer_map()[node_id@];
                n.state is Trusted && n.trust_score == (if o.trust_score < 70 { 70u8 } else { o.trust_score })
                    && n.is_own_device == o.is_own_device && n.node_id == o.node_id
            },
    {
        let (pos, found) = self.slot(node_id);
        if found {
            let mut p = self.peers[pos].duplicate();
            p.state = PeerState::Trusted;
            if p.trust_score < 70 {
                p.trust_score = 70;
            }
            p.node_id = self.peers[pos].node_id;
            self.replace_at(pos, p);
            assert(self.peer_map().dom() =~= old(self).peer_map().dom());
        }
    }

    /// The connected and trusted peers, in node-id order.
    pub fn active_peers(&self) -> (v: Vec<&PeerInfo>)
        ensures
            v@.map_values(|r: &PeerInfo| *r) == self@.filter(|p: PeerInfo| is_active(p.state)),
    {
        let ghost f = |p: PeerInfo| is_active(p.state);
        let mut v: Vec<&PeerInfo> = Vec::new();
        let mut i: usize = 0;
        while i < self.peers.len()
            invariant
                i <= self@.len(),
                f == (|p: PeerInfo| is_active(p.state)),
                v@.map_values(|r: &PeerInfo| *r) == self@.subrange(0, i as int).filter(f),
            decreases self@.len() - i,
        {
            let p = &self.peers[i];
            proof {
                assert(self@.subrange(0, i + 1) =~= self@.subrange(0, i as int).push(*p));
                self@.subrange(0, i as int).lemma_filter_push(*p, f);
            }
            let active = match p.state {
                PeerState::Connected | PeerState::Trusted => true,
                _ => false,
            };
            let ghost before = v@.map_values(|r: &PeerInfo| *r);
            if active {
                v.push(p);
                assert(v@.map_values(|r: &PeerInfo| *r) =~= before.push(*p));
            }
            i = i + 1;
        }
        assert(self@.subrange(0, i as int) =~= self@);
        v
    }

    /// All peers, in node-id order.
    pub fn all_peers(&self) -> (v: Vec<&PeerInfo>)
        ensures
            v@.map_values(|r: &PeerInfo| *r) == self@,
    {
        let mut v: Vec<&PeerInfo> = Vec::new();
        let mut i: usize = 0;
        while i < self.peers.len()
            invariant
                i <= self@.len(),
                v@.map_values(|r: &PeerInfo| *r) == self@.subrange(0, i as int),
            decreases self@.len() - i,
        {
            let ghost before = v@.map_values(|r: &PeerInfo| *r);
            v.push(&self.peers[i]);
            assert(v@.map_values(|r: &PeerInfo| *r) =~= before.push(self@[i as int]));
            assert(self@.subrange(0, i + 1) =~= self@.subrange(0, i as int).push(self@[i as int]));
            i = i + 1;
        }
        assert(self@.subrange(0, i as int) =~= self@);
        v
    }

    /// The active own device with the highest trust score (the last of equals).
    pub fn best_sync_peer(&self) -> (r: Option<&PeerInfo>)
        ensures
            match r {
                Some(p) => exists|i: int| 0 <= i < self@.len() && self@[i] == *p && is_active(p.state) && p.is_own_device
                    && (forall|j: int| 0 <= j < self@.len() && is_active(#[trigger] self@[j].state) && self@[j].is_own_device
                        ==> self@[j].trust_score <= p.trust_score)
                    && (forall|j: int| i < j < self@.len() && is_active(#[trigger] self@[j].state) && self@[j].is_own_device
                        ==> self@[j].trust_score < p.trust_score),
                None => forall|j: int| 0 <= j < self@.len() ==> !(is_active(#[trigger] self@[j].state) && self@[j].is_own_device),
            },
    {
        let mut best: Option<usize> = None;
        let mut i: usize = 0;
        while i < self.peers.len()
            invariant
                i <= self@.len(),
                match best {
                    Some(b) => b < i && is_active(self@[b as int].state) && self@[b as int].is_own_device
                        && (forall|j: int| 0 <= j < i && is_active(#[trigger] self@[j].state) && self@[j].is_own_device
                            ==> self@[j].trust_score <= self@[b as int].trust_score)
                        && (forall|j: int| b < j < i && is_active(#[trigger] self@[j].state) && self@[j].is_own_device
                            ==> self@[j].trust_score < self@[b as int].trust_score),
                    None => forall|j: int| 0 <= j < i ==> !(is_active(#[trigger] self@[j].state) && self@[j].is_own_device),
                },
            decreases self@.len() - i,
        {
            let p = &self.peers[i];
            let active = match p.state {
                PeerState::Connected | PeerState::Trusted => true,
                _ => false,
            };
            if active && p.is_own_device {
                match best {
                    None => {
                        best = Some(i);
                    },
                    Some(b) => {
                        if p.trust_score >= self.peers[b].trust_score {
                            best = Some(i);
                        }
                    },
                }
            }
            i = i + 1;
        }
        match best {
            Some(b) => Some(&self.peers[b]),
            None => None,
        }
    }

    /// Known and active counts.
    pub fn counts(&self) -> (c: (usize, usize))
        ensures
            c.0 == self@.len(),
            c.1 == self@.filter(|p: PeerInfo| is_active(p.state)).len(),
    {
        let known = self.peers.len();
        let active = self.active_peers().len();
        (known, active)
    }
}

/// Known and active counts.
pub fn count_peers(t: &PeerTable) -> (c: (usize, usize))
    ensures
        c.0 == t@.len(),
        c.1 == t@.filter(|p: PeerInfo| is_active(p.state)).len(),
{
    t.counts()
}

/// Copies of all peers, in node-id order.
pub fn get_all_peers(t: &PeerTable) -> (v: Vec<PeerInfo>)
    ensures
        v@.len() == t@.len(),
        forall|i: int| 0 <= i < v@.len() ==> same_peer(#[trigger] v@[i], t@[i]),
{
    let refs = t.all_peers();
    let mut v: Vec<PeerInfo> = Vec::new();
    let mut i: usize = 0;
    while i < refs.len()
        invariant
            i <= refs@.len(),
            refs@.map_values(|r: &PeerInfo| *r) == t@,
            v@.len() == i,
            forall|j: int| 0 <= j < i ==> same_peer(#[trigger] v@[j], t@[j]),
        decreases refs@.len() - i,
    {
        assert(*refs@[i as int] == t@[i as int]);
        v.push(refs[i].duplicate());
        i = i + 1;
    }
    v
}

/// Copies of the active peers, in node-id order.
pub fn get_active_peers(t: &PeerTable) -> (v: Vec<PeerInfo>)
    ensures
        v@.len() == t@.filter(|p: PeerInfo| is_active(p.state)).len(),
        forall|i: int| 0 <= i < v@.len() ==> same_peer(#[trigger] v@[i], t@.filter(|p: PeerInfo| is_active(p.state))[i]),
{
    let refs = t.active_peers();
    let ghost want = t@.filter(|p: PeerInfo| is_active(p.state));
    let mut v: Vec<PeerInfo> = Vec::new();
    let mut i: usize = 0;
    while i < refs.len()
        invariant
            i <= refs@.len(),
            refs@.map_values(|r: &PeerInfo| *r) == want,
            v@.len() == i,
            forall|j: int| 0 <= j < i ==> same_peer(#[trigger] v@[j], want[j]),
        decreases refs@.len() - i,
    {
        assert(*refs@[i as int] == want[i as int]);
        v.push(refs[i].duplicate());
        i = i + 1;
    }
    v
}

/// The node ids of all peers, in order.
pub fn get_known_peers(t: &PeerTable) -> (v: Vec<[u8; 32]>)
    ensures
        v@.len() == t@.len(),
        forall|i: int| 0 <= i < v@.len() ==> (#[trigger] v@[i])@ == t@[i].node_id@,
{
    let refs = t.all_peers();
    let mut v: Vec<[u8; 32]> = Vec::new();
    let mut i: usize = 0;
    while i < refs.len()
        invariant
            i <= refs@.len(),
            refs@.map_values(|r: &PeerInfo| *r) == t@,
            v@.len() == i,
            forall|j: int| 0 <= j < i ==> (#[trigger] v@[j])@ == t@[j].node_id@,
        decreases refs@.len() - i,
    {
        assert(*refs@[i as int] == t@[i as int]);
        v.push(refs[i].node_id);
        i = i + 1;
    }
    v
}

} // verus!
