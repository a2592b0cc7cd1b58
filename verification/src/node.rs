//! This node's identity: keys, id, name, addresses and capabilities; and the
//! P2P subsystem's summary.
use vstd::prelude::*;
use crate::crypto::{KeyPair, ed25519_public_of, sha256_of, node_id_tag, pubkey_to_node_id};
use crate::util::{hex_of, push_hex_byte, string_push};
use crate::peer::{PeerTable, PeerInfo, is_active, PROTOCOL_VERSION};

verus! {

/// What a node offers.
#[derive(Clone, Copy, PartialEq, Eq, Structural, Debug)]
pub enum NodeCapability {
    Storage,
    Compute,
    Relay,
    Index,
    Gateway,
}

/// How an address is reached.
#[allow(non_camel_case_types)]
#[derive(Clone, Copy, PartialEq, Eq, Structural, Debug)]
pub enum AddressKind {
    IPv4,
    IPv6,
    mDNS,
    Relay,
}

/// An address of the node.
#[derive(Clone)]
pub struct NodeAddress {
    pub kind: AddressKind,
    pub addr: String,
    pub port: u16,
}

/// This node.
pub struct LocalNode {
    pub node_id: [u8; 32],
    pub public_key: [u8; 32],
    pub private_key: [u8; 64],
    pub name: String,
    pub protocol_version: u32,
    pub addresses: Vec<NodeAddress>,
    pub capabilities: Vec<NodeCapability>,
    pub started_at: u64,
    pub uptime_ticks: u64,
}

/// What the node tells others about itself.
pub struct NodeAnnouncement {
    pub node_id: [u8; 32],
    pub public_key: [u8; 32],
    pub name: String,
    pub protocol_version: u32,
    pub addresses: Vec<NodeAddress>,
    pub capabilities: Vec<NodeCapability>,
}

/// The same addresses, texts compared by their characters.
pub open spec fn same_addresses(a: Seq<NodeAddress>, b: Seq<NodeAddress>) -> bool {
    a.len() == b.len() && forall|i: int| 0 <= i < a.len() ==> (#[trigger] a[i]).kind == b[i].kind
        && a[i].addr@ == b[i].addr@ && a[i].port == b[i].port
}

/// The mDNS name of a node id: `socd-` and the first two bytes in hex, then `.local`.
pub open spec fn mdns_name(id: Seq<u8>) -> Seq<char> {
    seq!['s', 'o', 'c', 'd', '-'] + hex_of(id.subrange(0, 2)) + seq!['.', 'l', 'o', 'c', 'a', 'l']
}

fn push_text(s: &mut String, t: &str)
    ensures
        final(s)@ == old(s)@ + t@,
{
    s.append(t);
}

/// The node's private key holds its public key as its second half, as a
/// key pair's bytes do.
pub open spec fn keys_match(n: LocalNode) -> bool {
    n.private_key@.len() == 64 && n.private_key@.subrange(32, 64) == n.public_key@
}

impl LocalNode {
    /// A node made from the secret key `seed`: its id is the hash of its public
    /// key; it is called `socd-node`, announces itself over mDNS on port 7700 and
    /// offers storage and compute.
    pub fn generate(seed: [u8; 32]) -> (n: LocalNode)
        ensures
            n.public_key@ == ed25519_public_of(seed@),
            n.private_key@ == seed@ + ed25519_public_of(seed@),
            keys_match(n),
            n.node_id@ == sha256_of(n.public_key@ + node_id_tag()),
            n.name@ == "socd-node"@,
            n.protocol_version == PROTOCOL_VERSION,
            n.addresses@.len() == 1 && n.addresses@[0].kind == AddressKind::mDNS
                && n.addresses@[0].addr@ == mdns_name(n.node_id@) && n.addresses@[0].port == 7700,
            n.capabilities@ == seq![NodeCapability::Storage, NodeCapability::Compute],
            n.started_at == 0 && n.uptime_ticks == 0,
    {
        let kp = KeyPair::from_seed(seed);
        let public_key = kp.verifying_key;
        let mut pk: Vec<u8> = Vec::new();
        crate::util::push_all(&mut pk, kp.signing_key.as_slice());
        crate::util::push_all(&mut pk, kp.verifying_key.as_slice());
        assert(pk@.len() == 64);
        let private_key: [u8; 64] = [
            pk[0], pk[1], pk[2], pk[3], pk[4], pk[5], pk[6], pk[7], pk[8], pk[9], pk[10], pk[11], pk[12], pk[13], pk[14], pk[15],
            pk[16], pk[17], pk[18], pk[19], pk[20], pk[21], pk[22], pk[23], pk[24], pk[25], pk[26], pk[27], pk[28], pk[29], pk[30], pk[31],
            pk[32], pk[33], pk[34], pk[35], pk[36], pk[37], pk[38], pk[39], pk[40], pk[41], pk[42], pk[43], pk[44], pk[45], pk[46], pk[47],
            pk[48], pk[49], pk[50], pk[51], pk[52], pk[53], pk[54], pk[55], pk[56], pk[57], pk[58], pk[59], pk[60], pk[61], pk[62], pk[63],
        ];
        assert(private_key@ =~= pk@);
        assert(private_key@.subrange(32, 64) =~= public_key@);
        let node_id = pubkey_to_node_id(&public_key);
        let mut addr = String::new();
        push_text(&mut addr, "socd-");
        crate::util::push_hex_byte(&mut addr, node_id[0]);
        crate::util::push_hex_byte(&mut addr, node_id[1]);
        push_text(&mut addr, ".local");
        proof {
            reveal_strlit("socd-");
            reveal_strlit(".local");
            assert(node_id@.subrange(0, 2) =~= seq![node_id@[0], node_id@[1]]);
            assert(node_id@.subrange(0, 2).drop_last() =~= seq![node_id@[0]]);
            assert(seq![node_id@[0]].drop_last() =~= Seq::<u8>::empty());
            assert(hex_of(Seq::<u8>::empty()) =~= Seq::<char>::empty());
            assert(Seq::<char>::empty() + crate::util::hex_byte(node_id@[0]) =~= crate::util::hex_byte(node_id@[0]));
            assert(hex_of(seq![node_id@[0]]) == crate::util::hex_byte(node_id@[0]));
            assert(hex_of(node_id@.subrange(0, 2)) == crate::util::hex_byte(node_id@[0]) + crate::util::hex_byte(node_id@[1]));
            assert("socd-"@ =~= seq!['s', 'o', 'c', 'd', '-']);
            assert(".local"@ =~= seq!['.', 'l', 'o', 'c', 'a', 'l']);
        }
        assert(addr@ =~= mdns_name(node_id@));
        let mut addresses: Vec<NodeAddress> = Vec::new();
        addresses.push(NodeAddress { kind: AddressKind::mDNS, addr, port: 7700 });
        let mut capabilities: Vec<NodeCapability> = Vec::new();
        capabilities.push(NodeCapability::Storage);
        capabilities.push(NodeCapability::Compute);
        assert(capabilities@ =~= seq![NodeCapability::Storage, NodeCapability::Compute]);
        LocalNode {
            node_id,
            public_key,
            private_key,
            name: String::from_str("socd-node"),
            protocol_version: PROTOCOL_VERSION,
            addresses,
            capabilities,
            started_at: 0,
            uptime_ticks: 0,
        }
    }

    /// The node's announcement.
    pub fn to_announcement(&self) -> (a: NodeAnnouncement)
        ensures
            a.node_id == self.node_id && a.public_key == self.public_key && a.name@ == self.name@,
            a.protocol_version == self.protocol_version,
            same_addresses(a.addresses@, self.addresses@),
            a.capabilities@ == self.capabilities@,
    {
        let mut addresses: Vec<NodeAddress> = Vec::new();
        let mut i: usize = 0;
        while i < self.addresses.len()
            invariant
                i <= self.addresses@.len(),
                addresses@.len() == i,
                forall|j: int| 0 <= j < i ==> (#[trigger] addresses@[j]).kind == self.addresses@[j].kind
                    && addresses@[j].addr@ == self.addresses@[j].addr@ && addresses@[j].port == self.addresses@[j].port,
            decreases self.addresses@.len() - i,
        {
            let a = &self.addresses[i];
            addresses.push(NodeAddress { kind: a.kind, addr: a.addr.clone(), port: a.port });
            i = i + 1;
        }
        let mut caps: Vec<NodeCapability> = Vec::new();
        let mut k: usize = 0;
        while k < self.capabilities.len()
            invariant
                k <= self.capabilities@.len(),
                caps@ == self.capabilities@.subrange(0, k as int),
            decreases self.capabilities@.len() - k,
        {
            caps.push(self.capabilities[k]);
            k = k + 1;
            assert(caps@ =~= self.capabilities@.subrange(0, k as int));
        }
        assert(self.capabilities@.subrange(0, k as int) =~= self.capabilities@);
        NodeAnnouncement {
            node_id: self.node_id,
            public_key: self.public_key,
            name: self.name.clone(),
            protocol_version: self.protocol_version,
            addresses,
            capabilities: caps,
        }
    }
}

/// The node id, or zeros before the node exists.
pub fn get_node_id(node: &Option<LocalNode>) -> (id: [u8; 32])
    ensures
        match node {
            Some(n) => id == n.node_id,
            None => id@ == Seq::new(32, |i: int| 0u8),
        },
{
    match node {
        Some(n) => n.node_id,
        None => {
            let z = [0u8; 32];
            assert(z@ =~= Seq::new(32, |i: int| 0u8));
            z
        },
    }
}

/// The node's announcement, once the node exists.
pub fn get_announcement(node: &Option<LocalNode>) -> (a: Option<NodeAnnouncement>)
    ensures
        a.is_some() == node.is_some(),
        a matches Some(x) ==> x.node_id == node.unwrap().node_id && x.name@ == node.unwrap().name@,
{
    match node {
        Some(n) => Some(n.to_announcement()),
        None => None,
    }
}

/// Renames the node, once it exists.
pub fn set_name(node: &mut Option<LocalNode>, name: &str)
    ensures
        old(node).is_some() == final(node).is_some(),
        *final(node) matches Some(n) ==> n.name@ == name@ && n.node_id == old(node).unwrap().node_id,
{
    match node {
        Some(n) => {
            n.name = String::from_str(name);
        },
        None => {},
    }
}

/// Name, id and protocol version, once the node exists.
pub fn get_info(node: &Option<LocalNode>) -> (r: Option<(String, [u8; 32], u32)>)
    ensures
        r.is_some() == node.is_some(),
        r matches Some(x) ==> x.0@ == node.unwrap().name@ && x.1 == node.unwrap().node_id
            && x.2 == node.unwrap().protocol_version,
{
    match node {
        Some(n) => Some((n.name.clone(), n.node_id, n.protocol_version)),
        None => None,
    }
}

/// The public key, or zeros before the node exists.
pub fn get_public_key(node: &Option<LocalNode>) -> (k: [u8; 32])
    ensures
        match node {
            Some(n) => k == n.public_key,
            None => k@ == Seq::new(32, |i: int| 0u8),
        },
{
    match node {
        Some(n) => n.public_key,
        None => {
            let z = [0u8; 32];
            assert(z@ =~= Seq::new(32, |i: int| 0u8));
            z
        },
    }
}

/// The P2P subsystem's state.
pub struct P2PNetworkState {
    pub initialized: bool,
    pub online: bool,
    pub node_id: [u8; 32],
    pub peers_count: usize,
    pub bytes_sent: u64,
    pub bytes_received: u64,
    pub messages_routed: u64,
}

/// A summary of the P2P subsystem.
pub struct P2PStats {
    pub online: bool,
    pub node_id_short: String,
    pub peers_known: usize,
    pub peers_active: usize,
    pub bytes_sent: u64,
    pub bytes_received: u64,
    pub messages_routed: u64,
}

impl P2PNetworkState {
    /// Not yet started.
    pub fn new() -> (s: P2PNetworkState)
        ensures
            !s.initialized && !s.online && s.node_id@ == Seq::new(32, |i: int| 0u8),
            s.peers_count == 0 && s.bytes_sent == 0 && s.bytes_received == 0 && s.messages_routed == 0,
    {
        let z = [0u8; 32];
        assert(z@ =~= Seq::new(32, |i: int| 0u8));
        P2PNetworkState {
            initialized: false,
            online: false,
            node_id: z,
            peers_count: 0,
            bytes_sent: 0,
            bytes_received: 0,
            messages_routed: 0,
        }
    }
}

/// The P2P summary: the state's counters and the peer counts.
pub fn get_stats(state: &P2PNetworkState, peers: &PeerTable) -> (st: P2PStats)
    ensures
        st.online == state.online,
        st.node_id_short@ == hex_of(state.node_id@.subrange(0, 4)),
        st.peers_known == peers@.len(),
        st.peers_active == peers@.filter(|p: PeerInfo| is_active(p.state)).len(),
        st.bytes_sent == state.bytes_sent && st.bytes_received == state.bytes_received,
        st.messages_routed == state.messages_routed,
{
    let c = peers.counts();
    let mut s = String::new();
    let mut i: usize = 0;
    while i < 4
        invariant
            i <= 4,
            state.node_id@.len() == 32,
            s@ == hex_of(state.node_id@.subrange(0, i as int)),
        decreases 4 - i,
    {
        push_hex_byte(&mut s, state.node_id[i]);
        i = i + 1;
        assert(state.node_id@.subrange(0, i as int).drop_last() =~= state.node_id@.subrange(0, i - 1));
    }
    P2PStats {
        online: state.online,
        node_id_short: s,
        peers_known: c.0,
        peers_active: c.1,
        bytes_sent: state.bytes_sent,
        bytes_received: state.bytes_received,
        messages_routed: state.messages_routed,
    }
}

/// Brings the P2P subsystem up with the node's id.
pub fn init(state: &mut P2PNetworkState, node_id: [u8; 32])
    ensures
        final(state).initialized && final(state).online && final(state).node_id == node_id,
        final(state).bytes_sent == old(state).bytes_sent && final(state).bytes_received == old(state).bytes_received,
{
    state.initialized = true;
    state.online = true;
    state.node_id = node_id;
}

} // verus!
