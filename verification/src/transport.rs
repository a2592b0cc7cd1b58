//! The peer-to-peer transport over UDP: every datagram carries the sender's
//! node id in its first 32 bytes, then the payload.
use vstd::prelude::*;
use crate::discovery::{SOCD_PORT, split_on, parse_u16, split_chars, parse_u16_chars, chars_of};
use crate::ethernet::{lemma_eth_roundtrip, lemma_udp_roundtrip, EthernetFrame, Ipv4Packet, UdpPacket, ArpTable, ETH_TYPE_IPV4, IP_PROTO_UDP, eth_encode,
    ipv4_encode, udp_encode, ipv4_checksum_header, inet_checksum, arp_lookup};
use crate::net::{MacAddr, Ipv4Addr, ipv4_value};
use crate::node::{LocalNode, get_node_id};
use crate::peer::{PeerTable, PeerInfo};
use crate::util::{push_all, be16};

verus! {

/// The UDP port of the peer-to-peer protocol.
pub const P2P_UDP_PORT: u16 = SOCD_PORT;

/// A packet of the transport, sent or received.
#[derive(Debug)]
pub struct TransportPacket {
    pub src_node: [u8; 32],
    pub dst_node: [u8; 32],
    pub payload: Vec<u8>,
    pub packet_id: u64,
}

/// The queues and counters of the transport.
pub struct TransportLayer {
    pub tx_queue: Vec<TransportPacket>,
    pub rx_queue: Vec<TransportPacket>,
    pub packets_sent: u64,
    pub packets_received: u64,
    pub bytes_sent: u64,
    pub bytes_received: u64,
    /// Sends that could not go out on the network.
    pub wire_send_failures: u64,
    /// The id the next packet gets.
    pub next_id: u64,
}

/// This node's id, or zeros before the node exists.
pub open spec fn own_node_id(node: Option<LocalNode>) -> Seq<u8> {
    match node {
        Some(n) => n.node_id@,
        None => Seq::new(32, |i: int| 0u8),
    }
}

impl TransportLayer {
    /// Empty queues, zero counters, first id 1.
    pub fn new() -> (t: TransportLayer)
        ensures
            t.tx_queue@.len() == 0 && t.rx_queue@.len() == 0,
            t.packets_sent == 0 && t.packets_received == 0 && t.bytes_sent == 0 && t.bytes_received == 0,
            t.wire_send_failures == 0 && t.next_id == 1,
    {
        TransportLayer {
            tx_queue: Vec::new(),
            rx_queue: Vec::new(),
            packets_sent: 0,
            packets_received: 0,
            bytes_sent: 0,
            bytes_received: 0,
            wire_send_failures: 0,
            next_id: 1,
        }
    }

    /// Queues a packet from this node to `dst` and counts it; returns its id.
    /// Putting it on the network is `wire_datagram`'s part.
    pub fn send(&mut self, dst: [u8; 32], payload: Vec<u8>, node: &Option<LocalNode>) -> (id: u64)
        requires
            old(self).next_id < u64::MAX,
            old(self).packets_sent < u64::MAX,
            old(self).bytes_sent + payload@.len() <= u64::MAX,
        ensures
            id == old(self).next_id,
            final(self).next_id == old(self).next_id + 1,
            final(self).tx_queue@.len() == old(self).tx_queue@.len() + 1,
            final(self).tx_queue@.drop_last() == old(self).tx_queue@,
            ({
                let p = final(self).tx_queue@.last();
                p.src_node@ == own_node_id(*node) && p.dst_node == dst && p.payload == payload && p.packet_id == id
            }),
            final(self).packets_sent == old(self).packets_sent + 1,
            final(self).bytes_sent == old(self).bytes_sent + payload@.len(),
            final(self).rx_queue == old(self).rx_queue,
            final(self).packets_received == old(self).packets_received,
            final(self).bytes_received == old(self).bytes_received,
            final(self).wire_send_failures == old(self).wire_send_failures,
    {
        let id = self.next_id;
        self.next_id = self.next_id + 1;
        let len = payload.len();
        let src = get_node_id(node);
        self.tx_queue.push(TransportPacket { src_node: src, dst_node: dst, payload, packet_id: id });
        assert(self.tx_queue@.drop_last() =~= old(self).tx_queue@);
        self.packets_sent = self.packets_sent + 1;
        self.bytes_sent = self.bytes_sent + len as u64;
        id
    }

    /// Counts a packet that could not be put on the network.
    pub fn note_wire_failure(&mut self)
        requires
            old(self).wire_send_failures < u64::MAX,
        ensures
            final(self).wire_send_failures == old(self).wire_send_failures + 1,
            final(self).tx_queue == old(self).tx_queue && final(self).rx_queue == old(self).rx_queue,
            final(self).next_id == old(self).next_id,
    {
        self.wire_send_failures = self.wire_send_failures + 1;
    }

    /// Queues a packet received from `src` for this node and counts it.
    pub fn on_received(&mut self, src: [u8; 32], payload: Vec<u8>, node: &Option<LocalNode>)
        requires
            old(self).next_id < u64::MAX,
            old(self).packets_received < u64::MAX,
            old(self).bytes_received + payload@.len() <= u64::MAX,
        ensures
            final(self).next_id == old(self).next_id + 1,
            final(self).rx_queue@.len() == old(self).rx_queue@.len() + 1,
            final(self).rx_queue@.drop_last() == old(self).rx_queue@,
            ({
                let p = final(self).rx_queue@.last();
                p.src_node == src && p.dst_node@ == own_node_id(*node) && p.payload == payload
                    && p.packet_id == old(self).next_id
            }),
            final(self).packets_received == old(self).packets_received + 1,
            final(self).bytes_received == old(self).bytes_received + payload@.len(),
            final(self).tx_queue == old(self).tx_queue,
            final(self).packets_sent == old(self).packets_sent && final(self).bytes_sent == old(self).bytes_sent,
            final(self).wire_send_failures == old(self).wire_send_failures,
    {
        let len = payload.len();
        let id = self.next_id;
        self.next_id = self.next_id + 1;
        let dst = get_node_id(node);
        self.rx_queue.push(TransportPacket { src_node: src, dst_node: dst, payload, packet_id: id });
        assert(self.rx_queue@.drop_last() =~= old(self).rx_queue@);
        self.packets_received = self.packets_received + 1;
        self.bytes_received = self.bytes_received + len as u64;
    }

    /// Packets and bytes sent and received.
    pub fn stats(&self) -> (r: (u64, u64, u64, u64))
        ensures
            r == (self.packets_sent, self.packets_received, self.bytes_sent, self.bytes_received),
    {
        (self.packets_sent, self.packets_received, self.bytes_sent, self.bytes_received)
    }
}

/// `u8::from_str`: an optional '+' and digits, of value at most 255.
pub open spec fn parse_u8(s: Seq<char>) -> Option<u8> {
    match parse_u16(s) {
        Some(v) => if v <= 255 { Some(v as u8) } else { None },
        None => None,
    }
}

/// A dotted-quad address: exactly four dot-separated decimal bytes.
pub open spec fn parse_ipv4(s: Seq<char>) -> Option<Seq<u8>> {
    let parts = split_on(s, '.');
    if parts.len() != 4 || !(forall|i: int| 0 <= i < 4 ==> (#[trigger] parse_u8(parts[i])) is Some) {
        None
    } else {
        Some(seq![parse_u8(parts[0])->0, parse_u8(parts[1])->0, parse_u8(parts[2])->0, parse_u8(parts[3])->0])
    }
}

fn parse_u8_chars(s: &Vec<char>) -> (r: Option<u8>)
    ensures
        r == parse_u8(s@),
{
    match parse_u16_chars(s) {
        Some(v) => if v <= 255 { Some(v as u8) } else { None },
        None => None,
    }
}

/// Reads a dotted-quad address.
pub fn ipv4_from_str(s: &str) -> (r: Option<Ipv4Addr>)
    ensures
        match parse_ipv4(s@) {
            Some(b) => (r matches Some(a) && a.0@ == b),
            None => r is None,
        },
{
    let chars = chars_of(s);
    let parts = split_chars(&chars, '.');
    let ghost pv = parts@.map_values(|w: Vec<char>| w@);
    if parts.len() != 4 {
        return None;
    }
    assert(pv[0] == parts@[0]@ && pv[1] == parts@[1]@ && pv[2] == parts@[2]@ && pv[3] == parts@[3]@);
    let a = match parse_u8_chars(&parts[0]) { Some(v) => v, None => { assert(parse_u8(pv[0]) is None); return None; } };
    let b = match parse_u8_chars(&parts[1]) { Some(v) => v, None => { assert(parse_u8(pv[1]) is None); return None; } };
    let c = match parse_u8_chars(&parts[2]) { Some(v) => v, None => { assert(parse_u8(pv[2]) is None); return None; } };
    let d = match parse_u8_chars(&parts[3]) { Some(v) => v, None => { assert(parse_u8(pv[3]) is None); return None; } };
    proof {
        assert forall|i: int| 0 <= i < 4 implies (#[trigger] parse_u8(pv[i])) is Some by {
            if i == 0 {} else if i == 1 {} else if i == 2 {} else {}
        }
    }
    let ip = Ipv4Addr([a, b, c, d]);
    assert(ip.0@ =~= parse_ipv4(s@)->0);
    Some(ip)
}

/// `p` is a UDP datagram made by `UdpPacket::new(src_port, dst_port, payload)`.
pub open spec fn udp_made(p: UdpPacket, src_port: u16, dst_port: u16, payload: Seq<u8>) -> bool {
    p.src_port == src_port && p.dst_port == dst_port && p.checksum == 0
        && p.length == (8 + payload.len()) % 65536 && p.payload@ == payload
}

/// `p` is an IPv4 packet made by `Ipv4Packet::new(src, dst, proto, payload)`.
pub open spec fn ip_made(p: Ipv4Packet, src: Ipv4Addr, dst: Ipv4Addr, proto: u8, payload: Seq<u8>) -> bool {
    &&& p.version == 4 && p.ihl == 5 && p.dscp == 0 && p.ecn == 0
    &&& p.total_len == (20 + payload.len()) % 65536
    &&& p.id == 0x1234 && p.flags == 0x40 && p.frag_offset == 0 && p.ttl == 64
    &&& p.protocol == proto && p.src == src && p.dst == dst && p.payload@ == payload
    &&& p.checksum == inet_checksum(ipv4_checksum_header(p))
}

/// The frame that carries `payload` from this node to the peer `dst`: a UDP
/// datagram from the transport port to the peer's port, holding this node's
/// id and the payload, in an IPv4 packet from `src_ip` to the peer's address,
/// in an Ethernet frame to the peer's MAC address when the ARP table knows it
/// and to broadcast otherwise. None when the peer is unknown, its address is
/// not a dotted quad, or this node has no address yet.
pub fn wire_datagram(peers: &PeerTable, arp: &ArpTable, dst: [u8; 32], payload: &[u8], node: &Option<LocalNode>,
    src_ip: Option<Ipv4Addr>, src_mac: MacAddr) -> (r: Option<Vec<u8>>)
    requires
        peers.wf(),
        arp.wf(),
    ensures
        r is Some <==> (peers.peer_map().contains_key(dst@) && parse_ipv4(peers.peer_map()[dst@].address@) is Some
            && src_ip is Some),
        r is Some ==> {
            let peer = peers.peer_map()[dst@];
            exists|u: UdpPacket, ip: Ipv4Packet, dip: Ipv4Addr, dmac: MacAddr| {
                &&& dip.0@ == parse_ipv4(peer.address@)->0
                &&& udp_made(u, P2P_UDP_PORT, peer.port, own_node_id(*node) + payload@)
                &&& ip_made(ip, src_ip->0, dip, IP_PROTO_UDP, udp_encode(u))
                &&& (if arp@.contains_key(ipv4_value(dip.0@)) {
                    dmac == arp@[ipv4_value(dip.0@)]
                } else {
                    forall|i: int| 0 <= i < 6 ==> dmac.0@[i] == 0xff
                })
                &&& r->0@ == eth_encode(dmac.0@, src_mac.0@, ETH_TYPE_IPV4, ipv4_encode(ip))
            }
        },
{
    let peer = match peers.lookup(&dst) {
        Some(p) => p,
        None => return None,
    };
    let dst_ip = match ipv4_from_str(peer.address.as_str()) {
        Some(a) => a,
        None => return None,
    };
    let sip = match src_ip {
        Some(a) => a,
        None => return None,
    };
    let own = get_node_id(node);
    let mut wire: Vec<u8> = Vec::new();
    push_all(&mut wire, own.as_slice());
    push_all(&mut wire, payload);
    let ghost wv = wire@;
    let udp = UdpPacket::new(P2P_UDP_PORT, peer.port, wire);
    let ip = Ipv4Packet::new(sip, dst_ip, IP_PROTO_UDP, udp.serialize());
    let dst_mac = match arp_lookup(arp, &dst_ip) {
        Some(m) => m,
        None => MacAddr::broadcast(),
    };
    let ghost gm = dst_mac;
    let frame = EthernetFrame::new(dst_mac, src_mac, ETH_TYPE_IPV4, ip.serialize());
    let out = frame.serialize();
    proof {
        assert(dst_ip.0@ =~= parse_ipv4(peer.address@)->0);
        assert(own@ == own_node_id(*node));
        assert(wv =~= own_node_id(*node) + payload@);
        assert(udp_made(udp, P2P_UDP_PORT, peer.port, own_node_id(*node) + payload@));
        assert(ip_made(ip, sip, dst_ip, IP_PROTO_UDP, udp_encode(udp)));
        assert(out@ == eth_encode(gm.0@, src_mac.0@, ETH_TYPE_IPV4, ipv4_encode(ip)));
    }
    Some(out)
}

/// The peer-to-peer datagram in a raw frame: an IPv4 UDP datagram to the
/// transport port whose payload has at least 32 bytes; gives the sender's node
/// id and the rest of the payload.
pub open spec fn p2p_datagram(raw: Seq<u8>) -> Option<(Seq<u8>, Seq<u8>)> {
    if raw.len() < 14 || be16(raw[12], raw[13]) != ETH_TYPE_IPV4 {
        None
    } else {
        let ipb = raw.subrange(14, raw.len() as int);
        if ipb.len() < 20 || ipb.len() < (ipb[0] % 16) * 4 || ipb[9] != IP_PROTO_UDP {
            None
        } else {
            let udpb = ipb.subrange((ipb[0] % 16) * 4, ipb.len() as int);
            if udpb.len() < 8 || be16(udpb[2], udpb[3]) != P2P_UDP_PORT || udpb.len() - 8 < 32 {
                None
            } else {
                let pl = udpb.subrange(8, udpb.len() as int);
                Some((pl.take(32), pl.skip(32)))
            }
        }
    }
}

/// The peer-to-peer datagram in a raw frame, if it holds one: the sender's
/// node id and the payload.
pub fn extract_datagram(raw: &[u8]) -> (r: Option<([u8; 32], Vec<u8>)>)
    ensures
        match p2p_datagram(raw@) {
            Some((id, pl)) => (r matches Some(x) && x.0@ == id && x.1@ == pl),
            None => r is None,
        },
{
    let eth = match EthernetFrame::parse(raw) {
        Some(f) => f,
        None => return None,
    };
    if eth.ethertype != ETH_TYPE_IPV4 {
        return None;
    }
    let ip = match Ipv4Packet::parse(eth.payload.as_slice()) {
        Some(p) => p,
        None => return None,
    };
    if ip.protocol != IP_PROTO_UDP {
        return None;
    }
    let udp = match UdpPacket::parse(ip.payload.as_slice()) {
        Some(u) => u,
        None => return None,
    };
    if udp.dst_port != P2P_UDP_PORT {
        return None;
    }
    if udp.payload.len() < 32 {
        return None;
    }
    let mut idv: Vec<u8> = Vec::new();
    let mut i: usize = 0;
    while i < 32
        invariant
            i <= 32,
            udp.payload@.len() >= 32,
            idv@ == udp.payload@.take(i as int),
        decreases 32 - i,
    {
        idv.push(udp.payload[i]);
        i = i + 1;
        assert(idv@ =~= udp.payload@.take(i as int));
    }
    let id = crate::util::array32(&idv);
    let rest = crate::util::tail_vec(udp.payload.as_slice(), 32);
    assert(rest@ =~= udp.payload@.skip(32));
    Some((id, rest))
}

/// The datagrams of `frames` that belong to the transport, in order.
pub open spec fn datagrams_of(frames: Seq<Seq<u8>>) -> Seq<(Seq<u8>, Seq<u8>)>
    decreases frames.len(),
{
    if frames.len() == 0 {
        Seq::empty()
    } else {
        datagrams_of(frames.drop_last()) + match p2p_datagram(frames.last()) {
            Some(d) => seq![d],
            None => Seq::empty(),
        }
    }
}

/// Queues, as received, every transport datagram among the raw frames, in order.
pub fn poll_receive(t: &mut TransportLayer, frames: &Vec<Vec<u8>>, node: &Option<LocalNode>)
    requires
        old(t).next_id + frames@.len() <= u64::MAX,
        old(t).packets_received + frames@.len() <= u64::MAX,
        old(t).bytes_received + frames@.len() * 0x1_0000 <= u64::MAX,
        forall|i: int| 0 <= i < frames@.len() ==> (#[trigger] frames@[i])@.len() <= 0x1_0000,
    ensures
        ({
            let ds = datagrams_of(frames@.map_values(|f: Vec<u8>| f@));
            &&& final(t).rx_queue@.len() == old(t).rx_queue@.len() + ds.len()
            &&& final(t).rx_queue@.subrange(0, old(t).rx_queue@.len() as int) == old(t).rx_queue@
            &&& forall|j: int| 0 <= j < ds.len() ==> {
                let p = #[trigger] final(t).rx_queue@[old(t).rx_queue@.len() + j];
                p.src_node@ == ds[j].0 && p.payload@ == ds[j].1 && p.dst_node@ == own_node_id(*node)
            }
            &&& final(t).packets_received == old(t).packets_received + ds.len()
        }),
        final(t).tx_queue == old(t).tx_queue,
        final(t).packets_sent == old(t).packets_sent,
{
    let ghost fv = frames@.map_values(|f: Vec<u8>| f@);
    let ghost n0 = t.rx_queue@.len();
    let ghost q0 = t.rx_queue@;
    let mut i: usize = 0;
    while i < frames.len()
        invariant
            i <= frames@.len(),
            fv == frames@.map_values(|f: Vec<u8>| f@),
            forall|k: int| 0 <= k < frames@.len() ==> (#[trigger] frames@[k])@.len() <= 0x1_0000,
            datagrams_of(fv.take(i as int)).len() <= i,
            t.rx_queue@.len() == n0 + datagrams_of(fv.take(i as int)).len(),
            t.rx_queue@.subrange(0, n0 as int) == q0,
            forall|j: int| 0 <= j < datagrams_of(fv.take(i as int)).len() ==> {
                let p = #[trigger] t.rx_queue@[n0 + j];
                p.src_node@ == datagrams_of(fv.take(i as int))[j].0 && p.payload@ == datagrams_of(fv.take(i as int))[j].1
                    && p.dst_node@ == own_node_id(*node)
            },
            t.packets_received == old(t).packets_received + datagrams_of(fv.take(i as int)).len(),
            t.next_id == old(t).next_id + datagrams_of(fv.take(i as int)).len(),
            t.bytes_received <= old(t).bytes_received + i * 0x1_0000,
            old(t).next_id + frames@.len() <= u64::MAX,
            old(t).packets_received + frames@.len() <= u64::MAX,
            old(t).bytes_received + frames@.len() * 0x1_0000 <= u64::MAX,
            t.tx_queue == old(t).tx_queue,
            t.packets_sent == old(t).packets_sent,
        decreases frames@.len() - i,
    {
        let ghost before = t.rx_queue@;
        let ghost ds0 = datagrams_of(fv.take(i as int));
        assert(fv.take(i + 1).drop_last() =~= fv.take(i as int));
        assert(fv.take(i + 1).last() == frames@[i as int]@);
        match extract_datagram(frames[i].as_slice()) {
            Some((src, payload)) => {
                assert(payload@.len() <= 0x1_0000) by {
                    assert(frames@[i as int]@.len() <= 0x1_0000);
                }
                assert(t.bytes_received + payload@.len() <= u64::MAX);
                t.on_received(src, payload, node);
                proof {
                    let ds1 = datagrams_of(fv.take(i + 1));
                    assert(ds1 =~= ds0.push((src@, payload@)));
                    assert(t.rx_queue@.subrange(0, n0 as int) =~= before.subrange(0, n0 as int));
                    assert forall|j: int| 0 <= j < ds1.len() implies {
                        let p = #[trigger] t.rx_queue@[n0 + j];
                        p.src_node@ == ds1[j].0 && p.payload@ == ds1[j].1 && p.dst_node@ == own_node_id(*node)
                    } by {
                        if j < ds0.len() {
                            assert(t.rx_queue@[n0 + j] == before[n0 + j]);
                        }
                    }
                    assert(t.bytes_received <= old(t).bytes_received + (i + 1) * 0x1_0000);
                }
            },
            None => {
                assert(datagrams_of(fv.take(i + 1)) =~= ds0);
                assert(t.bytes_received <= old(t).bytes_received + (i + 1) * 0x1_0000);
            },
        }
        i = i + 1;
    }
    assert(fv.take(i as int) =~= fv);
}

/// Queues a packet to `dst` and makes the frame that carries it, when the peer
/// can be reached (see `wire_datagram`); returns the packet id and the frame.
pub fn send(t: &mut TransportLayer, peers: &PeerTable, arp: &ArpTable, dst: [u8; 32], payload: Vec<u8>,
    node: &Option<LocalNode>, src_ip: Option<Ipv4Addr>, src_mac: MacAddr) -> (r: (u64, Option<Vec<u8>>))
    requires
        peers.wf(),
        arp.wf(),
        old(t).next_id < u64::MAX,
        old(t).packets_sent < u64::MAX,
        old(t).bytes_sent + payload@.len() <= u64::MAX,
    ensures
        r.0 == old(t).next_id,
        final(t).packets_sent == old(t).packets_sent + 1,
        final(t).bytes_sent == old(t).bytes_sent + payload@.len(),
        final(t).tx_queue@.drop_last() == old(t).tx_queue@,
        final(t).tx_queue@.last().payload == payload,
        r.1 is Some <==> (peers.peer_map().contains_key(dst@) && parse_ipv4(peers.peer_map()[dst@].address@) is Some
            && src_ip is Some),
{
    let frame = wire_datagram(peers, arp, dst, payload.as_slice(), node, src_ip, src_mac);
    let id = t.send(dst, payload, node);
    (id, frame)
}

/// Packets and bytes sent and received.
pub fn get_stats(t: &TransportLayer) -> (r: (u64, u64, u64, u64))
    ensures
        r == (t.packets_sent, t.packets_received, t.bytes_sent, t.bytes_received),
{
    t.stats()
}

/// Sends that could not go out on the network.
pub fn get_wire_send_failures(t: &TransportLayer) -> (n: u64)
    ensures
        n == t.wire_send_failures,
{
    t.wire_send_failures
}

/// A frame that `wire_datagram` builds for a peer listening on the transport
/// port is read back by `extract_datagram` as the sender's id and the payload.
pub proof fn lemma_datagram_roundtrip(u: UdpPacket, ip: Ipv4Packet, src: Ipv4Addr, dst: Ipv4Addr,
    dmac: Seq<u8>, smac: Seq<u8>, id: Seq<u8>, payload: Seq<u8>)
    requires
        dmac.len() == 6,
        smac.len() == 6,
        id.len() == 32,
        src.0@.len() == 4,
        dst.0@.len() == 4,
        udp_made(u, P2P_UDP_PORT, P2P_UDP_PORT, id + payload),
        ip_made(ip, src, dst, IP_PROTO_UDP, udp_encode(u)),
    ensures
        p2p_datagram(eth_encode(dmac, smac, ETH_TYPE_IPV4, ipv4_encode(ip))) == Some((id, payload)),
{
    let raw = eth_encode(dmac, smac, ETH_TYPE_IPV4, ipv4_encode(ip));
    lemma_eth_roundtrip(dmac, smac, ETH_TYPE_IPV4, ipv4_encode(ip));
    let ipb = raw.subrange(14, raw.len() as int);
    assert(ipb == ipv4_encode(ip));
    assert(ipb[0] == 0x45u8);
    assert(ipb[9] == IP_PROTO_UDP);
    assert((ipb[0] % 16) * 4 == 20);
    let udpb = ipb.subrange(20, ipb.len() as int);
    assert(udpb =~= udp_encode(u));
    lemma_udp_roundtrip(u);
    let pl = udpb.subrange(8, udpb.len() as int);
    assert(pl =~= id + payload);
    assert(pl.take(32) =~= id);
    assert(pl.skip(32) =~= payload);
}

} // verus!
