//! Ethernet, IPv4, UDP and TCP codecs, the socket table with its TCP state machine,
//! and the ARP and DNS caches.
use vstd::prelude::*;
use crate::util::{be16, be32, hi8, lo8, push_all, split16, join16, tail_vec, keyed_map, keys_unique,
    lemma_keyed_map_get, lemma_keyed_map_absent, lemma_keyed_map_update};
use crate::net::{MacAddr, Ipv4Addr, SocketAddr, Protocol, socket_addr_eq, ipv4_value};

verus! {

pub const ETH_TYPE_IPV4: u16 = 0x0800;
pub const ETH_TYPE_ARP: u16 = 0x0806;
pub const ETH_TYPE_IPV6: u16 = 0x86DD;
pub const ETH_TYPE_VLAN: u16 = 0x8100;

pub const IP_PROTO_ICMP: u8 = 1;
pub const IP_PROTO_TCP: u8 = 6;
pub const IP_PROTO_UDP: u8 = 17;

pub const TCP_FIN: u8 = 0x01;
pub const TCP_SYN: u8 = 0x02;
pub const TCP_RST: u8 = 0x04;
pub const TCP_PSH: u8 = 0x08;
pub const TCP_ACK: u8 = 0x10;
pub const TCP_URG: u8 = 0x20;

/// The big-endian bytes of a 32-bit value.
pub open spec fn be32_bytes(v: u32) -> Seq<u8> {
    seq![(v / 0x1000000) as u8, ((v / 0x10000) % 256) as u8, ((v / 0x100) % 256) as u8, (v % 256) as u8]
}

fn push_u16(buf: &mut Vec<u8>, v: u16)
    ensures
        final(buf)@ == old(buf)@ + seq![hi8(v), lo8(v)],
{
    let (h, l) = split16(v);
    buf.push(h);
    buf.push(l);
    assert(buf@ =~= old(buf)@ + seq![hi8(v), lo8(v)]);
}

fn push_u32(buf: &mut Vec<u8>, v: u32)
    ensures
        final(buf)@ == old(buf)@ + be32_bytes(v),
{
    let b0 = (v >> 24) as u8;
    let b1 = ((v >> 16) & 0xff) as u8;
    let b2 = ((v >> 8) & 0xff) as u8;
    let b3 = (v & 0xff) as u8;
    assert(v >> 24 == v / 0x1000000) by (bit_vector);
    assert((v >> 16) & 0xff == (v / 0x10000) % 256) by (bit_vector);
    assert((v >> 8) & 0xff == (v / 0x100) % 256) by (bit_vector);
    assert(v & 0xff == v % 256) by (bit_vector);
    buf.push(b0);
    buf.push(b1);
    buf.push(b2);
    buf.push(b3);
    assert(buf@ =~= old(buf)@ + be32_bytes(v));
}

fn read_u32(data: &[u8], o: usize) -> (v: u32)
    requires
        o + 4 <= data@.len(),
    ensures
        v == be32(data@[o as int], data@[o + 1], data@[o + 2], data@[o + 3]),
{
    let b0 = data[o] as u32;
    let b1 = data[o + 1] as u32;
    let b2 = data[o + 2] as u32;
    let b3 = data[o + 3] as u32;
    b0 * 0x1000000 + b1 * 0x10000 + b2 * 0x100 + b3
}

// ─── Ethernet ───────────────────────────────────────────────

/// An Ethernet frame without its frame check sequence.
#[derive(Debug)]
pub struct EthernetFrame {
    pub dst: MacAddr,
    pub src: MacAddr,
    pub ethertype: u16,
    pub payload: Vec<u8>,
}

/// The wire bytes of a frame: destination, source, big-endian type, payload.
pub open spec fn eth_encode(dst: Seq<u8>, src: Seq<u8>, et: u16, payload: Seq<u8>) -> Seq<u8> {
    dst + src + seq![hi8(et), lo8(et)] + payload
}

impl EthernetFrame {
    pub fn new(dst: MacAddr, src: MacAddr, ethertype: u16, payload: Vec<u8>) -> (f: EthernetFrame)
        ensures
            f.dst == dst && f.src == src && f.ethertype == ethertype && f.payload == payload,
    {
        EthernetFrame { dst, src, ethertype, payload }
    }

    /// The wire bytes of the frame.
    pub fn serialize(&self) -> (buf: Vec<u8>)
        ensures
            buf@ == eth_encode(self.dst.0@, self.src.0@, self.ethertype, self.payload@),
    {
        let mut buf: Vec<u8> = Vec::new();
        push_all(&mut buf, &self.dst.0);
        push_all(&mut buf, &self.src.0);
        push_u16(&mut buf, self.ethertype);
        push_all(&mut buf, self.payload.as_slice());
        buf
    }

    /// Reads a frame; `None` when fewer than 14 bytes are given.
    pub fn parse(data: &[u8]) -> (r: Option<EthernetFrame>)
        ensures
            data@.len() < 14 <==> r.is_none(),
            r matches Some(f) ==> {
                &&& f.dst.0@ == data@.subrange(0, 6)
                &&& f.src.0@ == data@.subrange(6, 12)
                &&& f.ethertype == be16(data@[12], data@[13])
                &&& f.payload@ == data@.subrange(14, data@.len() as int)
            },
    {
        if data.len() < 14 {
            return None;
        }
        let dst = MacAddr([data[0], data[1], data[2], data[3], data[4], data[5]]);
        let src = MacAddr([data[6], data[7], data[8], data[9], data[10], data[11]]);
        assert(dst.0@ =~= data@.subrange(0, 6));
        assert(src.0@ =~= data@.subrange(6, 12));
        let ethertype = join16(data[12], data[13]);
        Some(EthernetFrame { dst, src, ethertype, payload: tail_vec(data, 14) })
    }
}

/// Parsing the bytes of a serialized frame gives back its fields.
pub proof fn lemma_eth_roundtrip(dst: Seq<u8>, src: Seq<u8>, et: u16, payload: Seq<u8>)
    requires
        dst.len() == 6,
        src.len() == 6,
    ensures
        ({
            let d = eth_encode(dst, src, et, payload);
            &&& d.len() >= 14
            &&& d.subrange(0, 6) == dst
            &&& d.subrange(6, 12) == src
            &&& be16(d[12], d[13]) == et
            &&& d.subrange(14, d.len() as int) == payload
        }),
{
    let d = eth_encode(dst, src, et, payload);
    assert(d.subrange(0, 6) =~= dst);
    assert(d.subrange(6, 12) =~= src);
    assert(d.subrange(14, d.len() as int) =~= payload);
    assert(d[12] == hi8(et) && d[13] == lo8(et));
}

// ─── ARP ────────────────────────────────────────────────────

/// The ARP cache: IPv4 value to MAC address.
pub struct ArpTable {
    entries: Vec<(u32, MacAddr)>,
}

/// Finds the position of key `k`.
fn find_key<V>(s: &Vec<(u32, V)>, k: u32) -> (r: Option<usize>)
    ensures
        match r {
            Some(i) => i < s@.len() && s@[i as int].0 == k,
            None => forall|i: int| 0 <= i < s@.len() ==> s@[i].0 != k,
        },
{
    let mut i: usize = 0;
    while i < s.len()
        invariant
            i <= s@.len(),
            forall|j: int| 0 <= j < i ==> s@[j].0 != k,
        decreases s@.len() - i,
    {
        if s[i].0 == k {
            return Some(i);
        }
        i = i + 1;
    }
    None
}

impl ArpTable {
    /// The cache as a map from IPv4 value to MAC address.
    pub closed spec fn view(&self) -> Map<u32, MacAddr> {
        keyed_map(self.entries@)
    }

    /// The cache invariant: one entry per address.
    pub closed spec fn wf(&self) -> bool {
        keys_unique(self.entries@)
    }

    pub fn new() -> (t: ArpTable)
        ensures
            t.wf(),
            t@ == Map::<u32, MacAddr>::empty(),
    {
        ArpTable { entries: Vec::new() }
    }

    /// Records (or replaces) the MAC address of `ip`.
    pub fn insert(&mut self, ip: Ipv4Addr, mac: MacAddr)
        requires
            old(self).wf(),
        ensures
            final(self).wf(),
            final(self)@ == old(self)@.insert(ipv4_value(ip.0@), mac),
    {
        let k = ip.to_u32();
        match find_key(&self.entries, k) {
            Some(i) => {
                proof {
                    lemma_keyed_map_update(self.entries@, i as int, mac);
                }
                self.entries.set(i, (k, mac));
            },
            None => {
                self.entries.push((k, mac));
                proof {
                    assert(self.entries@.drop_last() =~= old(self).entries@);
                }
            },
        }
    }

    /// The MAC address recorded for `ip`.
    pub fn lookup(&self, ip: &Ipv4Addr) -> (r: Option<MacAddr>)
        requires
            self.wf(),
        ensures
            r == (if self@.contains_key(ipv4_value(ip.0@)) { Some(self@[ipv4_value(ip.0@)]) } else { None::<MacAddr> }),
    {
        let k = ip.to_u32();
        match find_key(&self.entries, k) {
            Some(i) => {
                proof {
                    lemma_keyed_map_get(self.entries@, i as int);
                }
                Some(self.entries[i].1)
            },
            None => {
                proof {
                    lemma_keyed_map_absent(self.entries@, k);
                }
                None
            },
        }
    }
}

/// Records an address in the ARP cache.
pub fn arp_insert(table: &mut ArpTable, ip: Ipv4Addr, mac: MacAddr)
    requires
        old(table).wf(),
    ensures
        final(table).wf(),
        final(table)@ == old(table)@.insert(ipv4_value(ip.0@), mac),
{
    table.insert(ip, mac);
}

/// Looks an address up in the ARP cache.
pub fn arp_lookup(table: &ArpTable, ip: &Ipv4Addr) -> (r: Option<MacAddr>)
    requires
        table.wf(),
    ensures
        r == (if table@.contains_key(ipv4_value(ip.0@)) { Some(table@[ipv4_value(ip.0@)]) } else { None::<MacAddr> }),
{
    table.lookup(ip)
}

/// A lookup after an insert of the same address returns what was inserted.
pub proof fn lemma_arp_read_after_write(t: Map<u32, MacAddr>, ip: Ipv4Addr, mac: MacAddr)
    ensures
        t.insert(ipv4_value(ip.0@), mac).contains_key(ipv4_value(ip.0@)),
        t.insert(ipv4_value(ip.0@), mac)[ipv4_value(ip.0@)] == mac,
{
}

/// The cache of the network's initial state: the QEMU gateway 10.0.2.2.
pub fn init(table: &mut ArpTable)
    requires
        old(table).wf(),
    ensures
        final(table).wf(),
        final(table)@ == old(table)@.insert(0x0a000202u32, MacAddr([0x52u8, 0x55, 0x0A, 0x00, 0x02, 0x02])),
{
    let ip = Ipv4Addr([10u8, 0, 2, 2]);
    assert(ipv4_value(ip.0@) == 0x0a000202u32);
    table.insert(ip, MacAddr([0x52u8, 0x55, 0x0A, 0x00, 0x02, 0x02]));
}

// ─── Internet checksum ──────────────────────────────────────

/// The sum of the big-endian 16-bit words of `s`; an odd last byte counts as the high byte.
pub open spec fn word_sum(s: Seq<u8>) -> int
    decreases s.len(),
{
    if s.len() == 0 {
        0
    } else if s.len() == 1 {
        (s[0] as int) * 256
    } else {
        (s[0] as int) * 256 + (s[1] as int) + word_sum(s.subrange(2, s.len() as int))
    }
}

/// Folds the carries of a 32-bit sum into its low 16 bits.
pub open spec fn fold_carries(x: u32) -> u32
    decreases x,
{
    if x >> 16u32 == 0 {
        x
    } else {
        proof {
            assert(x >> 16u32 != 0 ==> (x & 0xffff) + (x >> 16u32) < x) by (bit_vector);
        }
        fold_carries(((x & 0xffff) + (x >> 16u32)) as u32)
    }
}

/// The one's-complement checksum of RFC 1071.
pub open spec fn inet_checksum(s: Seq<u8>) -> u16 {
    !(fold_carries(word_sum(s) as u32) as u16)
}

proof fn lemma_word_sum_bound(s: Seq<u8>)
    ensures
        0 <= word_sum(s) <= 65535 * ((s.len() + 1) / 2),
    decreases s.len(),
{
    if s.len() >= 2 {
        lemma_word_sum_bound(s.subrange(2, s.len() as int));
    }
}

/// The RFC 1071 checksum of `data`. The words are added up in 32 bits, which
/// cannot overflow for up to 131072 bytes.
pub fn internet_checksum(data: &[u8]) -> (c: u16)
    requires
        data@.len() <= 131072,
    ensures
        c == inet_checksum(data@),
{
    let mut sum: u32 = 0;
    let mut i: usize = 0;
    proof {
        assert(data@.subrange(0, data@.len() as int) =~= data@);
        lemma_word_sum_bound(data@);
    }
    while i + 1 < data.len()
        invariant
            i <= data@.len(),
            data@.len() <= 131072,
            i % 2 == 0,
            sum as int + word_sum(data@.subrange(i as int, data@.len() as int)) == word_sum(data@),
            sum as int <= 65535 * (i / 2),
        decreases data@.len() - i,
    {
        let ghost rest = data@.subrange(i as int, data@.len() as int);
        assert(rest.subrange(2, rest.len() as int) =~= data@.subrange(i + 2, data@.len() as int));
        assert(rest[0] == data@[i as int] && rest[1] == data@[i + 1]);
        sum = sum + (data[i] as u32) * 256 + data[i + 1] as u32;
        i = i + 2;
    }
    if i < data.len() {
        let ghost rest = data@.subrange(i as int, data@.len() as int);
        assert(rest.len() == 1 && rest[0] == data@[i as int]);
        sum = sum + (data[i] as u32) * 256;
    } else {
        assert(data@.subrange(i as int, data@.len() as int).len() == 0);
    }
    assert(sum as int == word_sum(data@));
    while sum >> 16 != 0
        invariant
            fold_carries(sum) == fold_carries(word_sum(data@) as u32),
        decreases sum,
    {
        assert(sum >> 16u32 != 0 ==> (sum & 0xffff) + (sum >> 16u32) < sum) by (bit_vector);
        assert((sum & 0xffff) + (sum >> 16u32) <= 0x1fffe) by (bit_vector);
        sum = (sum & 0xffff) + (sum >> 16);
    }
    !(sum as u16)
}

/// Replacing one aligned word changes the sum by the difference of the words.
proof fn lemma_word_sum_update(s: Seq<u8>, i: int, a: u8, b: u8)
    requires
        0 <= i,
        i % 2 == 0,
        i + 1 < s.len(),
    ensures
        word_sum(s.update(i, a).update(i + 1, b))
            == word_sum(s) - ((s[i] as int) * 256 + (s[i + 1] as int)) + ((a as int) * 256 + (b as int)),
    decreases i,
{
    let t = s.update(i, a).update(i + 1, b);
    if i == 0 {
        assert(t.subrange(2, t.len() as int) =~= s.subrange(2, s.len() as int));
    } else {
        let r = s.subrange(2, s.len() as int);
        lemma_word_sum_update(r, i - 2, a, b);
        assert(t.subrange(2, t.len() as int) =~= r.update(i - 2, a).update(i - 1, b));
    }
}

/// Folding the carries keeps the value modulo 65535, fits in 16 bits, and
/// leaves a non-zero sum non-zero.
proof fn lemma_fold_carries(x: u32)
    ensures
        fold_carries(x) <= 0xffff,
        fold_carries(x) % 65535 == x % 65535,
        x > 0 ==> fold_carries(x) > 0,
    decreases x,
{
    if x >> 16u32 == 0 {
        assert(x >> 16u32 == 0 ==> x <= 0xffff) by (bit_vector);
    } else {
        assert(x >> 16u32 != 0 ==> (x & 0xffff) + (x >> 16u32) < x) by (bit_vector);
        assert(x >> 16u32 != 0 ==> (x & 0xffff) + (x >> 16u32) > 0) by (bit_vector);
        assert(x & 0xffff == x % 65536) by (bit_vector);
        assert(x >> 16u32 == x / 65536) by (bit_vector);
        let q: int = (x / 65536) as int;
        let r: int = (x % 65536) as int;
        assert(x == 65535 * q + (q + r)) by (nonlinear_arith)
            requires q == x / 65536, r == x % 65536;
        vstd::arithmetic::div_mod::lemma_mod_multiples_vanish(q, q + r, 65535);
        lemma_fold_carries(((x & 0xffff) + (x >> 16u32)) as u32);
    }
}

/// A checksum written into the zero word it was computed over makes the
/// checksum of the result zero: the check a receiver makes (RFC 1071) passes.
pub proof fn lemma_checksum_verifies(s: Seq<u8>, i: int)
    requires
        0 <= i,
        i % 2 == 0,
        i + 1 < s.len(),
        s[i] == 0 && s[i + 1] == 0,
        s.len() <= 131072,
    ensures
        inet_checksum(s.update(i, hi8(inet_checksum(s))).update(i + 1, lo8(inet_checksum(s)))) == 0,
{
    let c = inet_checksum(s);
    let t = s.update(i, hi8(c)).update(i + 1, lo8(c));
    lemma_word_sum_bound(s);
    let sum = word_sum(s);
    assert(sum <= 65535 * 65536) by (nonlinear_arith)
        requires sum <= 65535 * ((s.len() + 1) / 2), s.len() <= 131072;
    let f = fold_carries(sum as u32);
    lemma_fold_carries(sum as u32);
    assert(c == 0xffff - f) by (bit_vector)
        requires c == !(f as u16), f <= 0xffff;
    assert((hi8(c) as int) * 256 + (lo8(c) as int) == c);
    lemma_word_sum_update(s, i, hi8(c), lo8(c));
    let total = sum + c;
    assert(word_sum(t) == total);
    assert(total % 65535 == 0) by (nonlinear_arith)
        requires total == sum + 0xffff - f, f % 65535 == sum % 65535, 0 <= f, 0 <= sum;
    if sum == 0 {
        assert(0u32 >> 16u32 == 0) by (bit_vector);
        assert(fold_carries(0u32) == 0);
    }
    assert(total > 0);
    lemma_fold_carries(total as u32);
    let g = fold_carries(total as u32);
    assert(g == 65535) by (nonlinear_arith)
        requires g % 65535 == 0, 0 < g <= 0xffff;
    assert(!(65535u32 as u16) == 0u16) by (bit_vector);
}

// ─── IPv4 ───────────────────────────────────────────────────

/// An IPv4 packet with its header fields.
#[derive(Debug)]
pub struct Ipv4Packet {
    pub version: u8,
    pub ihl: u8,
    pub dscp: u8,
    pub ecn: u8,
    pub total_len: u16,
    pub id: u16,
    pub flags: u8,
    pub frag_offset: u16,
    pub ttl: u8,
    pub protocol: u8,
    pub checksum: u16,
    pub src: Ipv4Addr,
    pub dst: Ipv4Addr,
    pub payload: Vec<u8>,
}

/// The header `serialize` sends, with the checksum field zero: the bytes the
/// header checksum is computed over.
pub open spec fn ipv4_checksum_header(p: Ipv4Packet) -> Seq<u8> {
    seq![0x45u8, 0u8, hi8(p.total_len), lo8(p.total_len), hi8(p.id), lo8(p.id), 0x40u8, 0u8, p.ttl,
        p.protocol, 0u8, 0u8] + p.src.0@ + p.dst.0@
}

/// The header checksum verifies (RFC 791): over the 20 header bytes that
/// `serialize` sends, with the checksum computed over them in its field, the
/// checksum comes out zero.
pub proof fn lemma_ipv4_checksum_verifies(p: Ipv4Packet)
    requires
        p.checksum == inet_checksum(ipv4_checksum_header(p)),
    ensures
        inet_checksum(ipv4_encode(p).take(20)) == 0,
{
    let h = ipv4_checksum_header(p);
    lemma_checksum_verifies(h, 10);
    assert(ipv4_encode(p).take(20) =~= h.update(10, hi8(p.checksum)).update(11, lo8(p.checksum)));
}

/// The wire bytes written by `Ipv4Packet::serialize`: version 4, IHL 5, DSCP/ECN 0,
/// flags "don't fragment", no fragment offset.
pub open spec fn ipv4_encode(p: Ipv4Packet) -> Seq<u8> {
    seq![0x45u8, 0u8, hi8(p.total_len), lo8(p.total_len), hi8(p.id), lo8(p.id), 0x40u8, 0u8, p.ttl,
        p.protocol, hi8(p.checksum), lo8(p.checksum)] + p.src.0@ + p.dst.0@ + p.payload@
}

impl Ipv4Packet {
    /// A packet with version 4, IHL 5, id 0x1234, "don't fragment", TTL 64 and its header
    /// checksum filled in.
    pub fn new(src: Ipv4Addr, dst: Ipv4Addr, proto: u8, payload: Vec<u8>) -> (p: Ipv4Packet)
        ensures
            p.version == 4 && p.ihl == 5 && p.dscp == 0 && p.ecn == 0,
            p.total_len == (20 + payload@.len()) % 65536,
            p.id == 0x1234 && p.flags == 0x40 && p.frag_offset == 0 && p.ttl == 64,
            p.protocol == proto && p.src == src && p.dst == dst && p.payload == payload,
            p.checksum == inet_checksum(ipv4_checksum_header(p)),
            inet_checksum(ipv4_encode(p).take(20)) == 0,
    {
        let total_len = (payload.len() % 65536) as u16;
        let total_len = total_len.wrapping_add(20);
        let mut pkt = Ipv4Packet {
            version: 4,
            ihl: 5,
            dscp: 0,
            ecn: 0,
            total_len,
            id: 0x1234,
            flags: 0x40,
            frag_offset: 0,
            ttl: 64,
            protocol: proto,
            checksum: 0,
            src,
            dst,
            payload,
        };
        let c = pkt.compute_checksum();
        pkt.checksum = c;
        proof {
            lemma_ipv4_checksum_verifies(pkt);
        }
        pkt
    }

    fn compute_checksum(&self) -> (c: u16)
        ensures
            c == inet_checksum(ipv4_checksum_header(*self)),
    {
        let (tl_h, tl_l) = split16(self.total_len);
        let (id_h, id_l) = split16(self.id);
        let header: [u8; 20] = [
            0x45u8,
            0,
            tl_h,
            tl_l,
            id_h,
            id_l,
            0x40,
            0,
            self.ttl,
            self.protocol,
            0,
            0,
            self.src.0[0],
            self.src.0[1],
            self.src.0[2],
            self.src.0[3],
            self.dst.0[0],
            self.dst.0[1],
            self.dst.0[2],
            self.dst.0[3],
        ];
        assert(header@ =~= ipv4_checksum_header(*self));
        internet_checksum(&header)
    }

    /// The wire bytes of the packet (see `ipv4_encode`).
    pub fn serialize(&self) -> (buf: Vec<u8>)
        ensures
            buf@ == ipv4_encode(*self),
    {
        let mut buf: Vec<u8> = Vec::new();
        buf.push(0x45);
        buf.push(0);
        push_u16(&mut buf, self.total_len);
        push_u16(&mut buf, self.id);
        buf.push(0x40);
        buf.push(0);
        buf.push(self.ttl);
        buf.push(self.protocol);
        push_u16(&mut buf, self.checksum);
        push_all(&mut buf, &self.src.0);
        push_all(&mut buf, &self.dst.0);
        push_all(&mut buf, self.payload.as_slice());
        assert(buf@ =~= ipv4_encode(*self));
        buf
    }

    /// Reads a packet; `None` when under 20 bytes or shorter than the header length.
    pub fn parse(data: &[u8]) -> (r: Option<Ipv4Packet>)
        ensures
            r.is_none() <==> (data@.len() < 20 || data@.len() < (data@[0] % 16) * 4),
            r matches Some(p) ==> {
                &&& p.version == data@[0] / 16 && p.ihl == data@[0] % 16
                &&& p.dscp == data@[1] / 4 && p.ecn == data@[1] % 4
                &&& p.total_len == be16(data@[2], data@[3]) && p.id == be16(data@[4], data@[5])
                &&& p.flags == data@[6] / 32 && p.frag_offset == be16(data@[6] % 32, data@[7])
                &&& p.ttl == data@[8] && p.protocol == data@[9]
                &&& p.checksum == be16(data@[10], data@[11])
                &&& p.src.0@ == data@.subrange(12, 16) && p.dst.0@ == data@.subrange(16, 20)
                &&& p.payload@ == data@.subrange((data@[0] % 16) * 4, data@.len() as int)
            },
    {
        if data.len() < 20 {
            return None;
        }
        let b0 = data[0];
        assert(b0 & 0x0f == b0 % 16) by (bit_vector);
        assert(b0 >> 4u8 == b0 / 16) by (bit_vector);
        let ihl = ((b0 & 0x0f) as usize) * 4;
        if data.len() < ihl {
            return None;
        }
        let b1 = data[1];
        assert(b1 >> 2u8 == b1 / 4) by (bit_vector);
        assert(b1 & 0x03 == b1 % 4) by (bit_vector);
        let b6 = data[6];
        assert(b6 >> 5u8 == b6 / 32) by (bit_vector);
        assert(b6 & 0x1f == b6 % 32) by (bit_vector);
        let src = Ipv4Addr([data[12], data[13], data[14], data[15]]);
        let dst = Ipv4Addr([data[16], data[17], data[18], data[19]]);
        assert(src.0@ =~= data@.subrange(12, 16));
        assert(dst.0@ =~= data@.subrange(16, 20));
        Some(Ipv4Packet {
            version: b0 >> 4,
            ihl: b0 & 0x0f,
            dscp: b1 >> 2,
            ecn: b1 & 0x03,
            total_len: join16(data[2], data[3]),
            id: join16(data[4], data[5]),
            flags: b6 >> 5,
            frag_offset: join16(b6 & 0x1f, data[7]),
            ttl: data[8],
            protocol: data[9],
            checksum: join16(data[10], data[11]),
            src,
            dst,
            payload: tail_vec(data, ihl),
        })
    }
}

// ─── UDP ────────────────────────────────────────────────────

/// A UDP datagram.
#[derive(Debug)]
pub struct UdpPacket {
    pub src_port: u16,
    pub dst_port: u16,
    pub length: u16,
    pub checksum: u16,
    pub payload: Vec<u8>,
}

/// The wire bytes written by `UdpPacket::serialize` (checksum field zero).
pub open spec fn udp_encode(p: UdpPacket) -> Seq<u8> {
    seq![hi8(p.src_port), lo8(p.src_port), hi8(p.dst_port), lo8(p.dst_port), hi8(p.length),
        lo8(p.length), 0u8, 0u8] + p.payload@
}

impl UdpPacket {
    /// A datagram whose length field counts the 8-byte header; checksum zero.
    pub fn new(src_port: u16, dst_port: u16, payload: Vec<u8>) -> (p: UdpPacket)
        ensures
            p.src_port == src_port && p.dst_port == dst_port && p.checksum == 0,
            p.length == (8 + payload@.len()) % 65536,
            p.payload == payload,
    {
        let length = ((payload.len() % 65536) as u16).wrapping_add(8);
        UdpPacket { src_port, dst_port, length, checksum: 0, payload }
    }

    pub fn serialize(&self) -> (buf: Vec<u8>)
        ensures
            buf@ == udp_encode(*self),
    {
        let mut buf: Vec<u8> = Vec::new();
        push_u16(&mut buf, self.src_port);
        push_u16(&mut buf, self.dst_port);
        push_u16(&mut buf, self.length);
        buf.push(0);
        buf.push(0);
        push_all(&mut buf, self.payload.as_slice());
        assert(buf@ =~= udp_encode(*self));
        buf
    }

    /// Reads a datagram; `None` when under 8 bytes.
    pub fn parse(data: &[u8]) -> (r: Option<UdpPacket>)
        ensures
            r.is_none() <==> data@.len() < 8,
            r matches Some(p) ==> {
                &&& p.src_port == be16(data@[0], data@[1]) && p.dst_port == be16(data@[2], data@[3])
                &&& p.length == be16(data@[4], data@[5]) && p.checksum == be16(data@[6], data@[7])
                &&& p.payload@ == data@.subrange(8, data@.len() as int)
            },
    {
        if data.len() < 8 {
            return None;
        }
        Some(UdpPacket {
            src_port: join16(data[0], data[1]),
            dst_port: join16(data[2], data[3]),
            length: join16(data[4], data[5]),
            checksum: join16(data[6], data[7]),
            payload: tail_vec(data, 8),
        })
    }
}

/// Parsing a serialized datagram gives back its ports, length and payload, with checksum zero.
pub proof fn lemma_udp_roundtrip(p: UdpPacket)
    ensures
        ({
            let d = udp_encode(p);
            &&& d.len() >= 8
            &&& be16(d[0], d[1]) == p.src_port && be16(d[2], d[3]) == p.dst_port
            &&& be16(d[4], d[5]) == p.length && be16(d[6], d[7]) == 0
            &&& d.subrange(8, d.len() as int) == p.payload@
        }),
{
    let d = udp_encode(p);
    assert(d.subrange(8, d.len() as int) =~= p.payload@);
    lemma_be16_split(p.src_port);
    lemma_be16_split(p.dst_port);
    lemma_be16_split(p.length);
}

/// Splitting a 16-bit value into bytes and joining them gives it back.
pub proof fn lemma_be16_split(v: u16)
    ensures
        be16(hi8(v), lo8(v)) == v,
{
    assert((v / 256) * 256 + v % 256 == v) by (nonlinear_arith);
}

// ─── TCP ────────────────────────────────────────────────────

/// A TCP segment.
#[derive(Debug)]
pub struct TcpSegment {
    pub src_port: u16,
    pub dst_port: u16,
    pub seq_num: u32,
    pub ack_num: u32,
    pub data_offset: u8,
    pub flags: u8,
    pub window: u16,
    pub checksum: u16,
    pub urgent_ptr: u16,
    pub payload: Vec<u8>,
}

/// The segment bytes with a zero checksum field.
pub open spec fn tcp_raw(s: TcpSegment) -> Seq<u8> {
    seq![hi8(s.src_port), lo8(s.src_port), hi8(s.dst_port), lo8(s.dst_port)] + be32_bytes(s.seq_num)
        + be32_bytes(s.ack_num) + seq![(s.data_offset << 4u8) as u8, s.flags, hi8(s.window), lo8(s.window), 0u8, 0u8, 0u8, 0u8]
        + s.payload@
}

/// The IPv4 pseudo header followed by the raw segment, over which the checksum runs.
pub open spec fn tcp_pseudo(s: TcpSegment, src: Seq<u8>, dst: Seq<u8>) -> Seq<u8> {
    let raw = tcp_raw(s);
    src + dst + seq![0u8, 6u8, hi8((raw.len() % 65536) as u16), lo8((raw.len() % 65536) as u16)] + raw
}

/// The wire bytes of a segment with its checksum over the pseudo header.
pub open spec fn tcp_encode(s: TcpSegment, src: Seq<u8>, dst: Seq<u8>) -> Seq<u8> {
    let c = inet_checksum(tcp_pseudo(s, src, dst));
    tcp_raw(s).update(16, hi8(c)).update(17, lo8(c))
}

/// The TCP checksum verifies (RFC 793): over the pseudo header and the
/// segment as `serialize` writes it, the checksum comes out zero.
pub proof fn lemma_tcp_checksum_verifies(seg: TcpSegment, src: Seq<u8>, dst: Seq<u8>)
    requires
        src.len() == 4,
        dst.len() == 4,
        seg.payload@.len() <= 131040,
    ensures
        ({
            let raw = tcp_raw(seg);
            inet_checksum(src + dst + seq![0u8, 6u8, hi8((raw.len() % 65536) as u16), lo8((raw.len() % 65536) as u16)]
                + tcp_encode(seg, src, dst)) == 0
        }),
{
    let raw = tcp_raw(seg);
    let pseudo = tcp_pseudo(seg, src, dst);
    assert(raw.len() == 20 + seg.payload@.len());
    assert(pseudo[28] == 0 && pseudo[29] == 0);
    lemma_checksum_verifies(pseudo, 28);
    let c = inet_checksum(pseudo);
    assert(src + dst + seq![0u8, 6u8, hi8((raw.len() % 65536) as u16), lo8((raw.len() % 65536) as u16)]
        + tcp_encode(seg, src, dst) =~= pseudo.update(28, hi8(c)).update(29, lo8(c)));
}

impl TcpSegment {
    fn make(src_port: u16, dst_port: u16, seq_num: u32, ack_num: u32, flags: u8, window: u16, payload: Vec<u8>) -> (s: TcpSegment)
        ensures
            s.src_port == src_port && s.dst_port == dst_port && s.seq_num == seq_num,
            s.ack_num == ack_num && s.data_offset == 5 && s.flags == flags && s.window == window,
            s.checksum == 0 && s.urgent_ptr == 0 && s.payload == payload,
    {
        TcpSegment { src_port, dst_port, seq_num, ack_num, data_offset: 5, flags, window, checksum: 0, urgent_ptr: 0, payload }
    }

    /// A SYN opening a connection.
    pub fn syn(src_port: u16, dst_port: u16, seq: u32) -> (s: TcpSegment)
        ensures
            s.src_port == src_port && s.dst_port == dst_port && s.seq_num == seq && s.ack_num == 0,
            s.data_offset == 5 && s.flags == TCP_SYN && s.window == 65535,
            s.checksum == 0 && s.urgent_ptr == 0 && s.payload@.len() == 0,
    {
        Self::make(src_port, dst_port, seq, 0, TCP_SYN, 65535, Vec::new())
    }

    /// A SYN+ACK answering a SYN.
    pub fn syn_ack(src: u16, dst: u16, seq: u32, ack: u32) -> (s: TcpSegment)
        ensures
            s.src_port == src && s.dst_port == dst && s.seq_num == seq && s.ack_num == ack,
            s.data_offset == 5 && s.flags == TCP_SYN | TCP_ACK && s.window == 65535,
            s.checksum == 0 && s.urgent_ptr == 0 && s.payload@.len() == 0,
    {
        Self::make(src, dst, seq, ack, TCP_SYN | TCP_ACK, 65535, Vec::new())
    }

    /// An ACK carrying `data`; PSH is set when there is data.
    pub fn ack(src: u16, dst: u16, seq: u32, ack: u32, data: Vec<u8>) -> (s: TcpSegment)
        ensures
            s.src_port == src && s.dst_port == dst && s.seq_num == seq && s.ack_num == ack,
            s.data_offset == 5 && s.window == 65535,
            s.flags == (if data@.len() > 0 { TCP_ACK | TCP_PSH } else { TCP_ACK }),
            s.checksum == 0 && s.urgent_ptr == 0 && s.payload == data,
    {
        let flags = if data.len() > 0 { TCP_ACK | TCP_PSH } else { TCP_ACK };
        Self::make(src, dst, seq, ack, flags, 65535, data)
    }

    /// A FIN+ACK closing our side.
    pub fn fin_ack(src: u16, dst: u16, seq: u32, ack: u32) -> (s: TcpSegment)
        ensures
            s.src_port == src && s.dst_port == dst && s.seq_num == seq && s.ack_num == ack,
            s.data_offset == 5 && s.flags == TCP_FIN | TCP_ACK && s.window == 65535,
            s.checksum == 0 && s.urgent_ptr == 0 && s.payload@.len() == 0,
    {
        Self::make(src, dst, seq, ack, TCP_FIN | TCP_ACK, 65535, Vec::new())
    }

    /// A RST with a zero window.
    pub fn rst(src: u16, dst: u16, seq: u32) -> (s: TcpSegment)
        ensures
            s.src_port == src && s.dst_port == dst && s.seq_num == seq && s.ack_num == 0,
            s.data_offset == 5 && s.flags == TCP_RST && s.window == 0,
            s.checksum == 0 && s.urgent_ptr == 0 && s.payload@.len() == 0,
    {
        Self::make(src, dst, seq, 0, TCP_RST, 0, Vec::new())
    }

    fn serialize_raw(&self) -> (buf: Vec<u8>)
        ensures
            buf@ == tcp_raw(*self),
    {
        let mut buf: Vec<u8> = Vec::new();
        push_u16(&mut buf, self.src_port);
        push_u16(&mut buf, self.dst_port);
        push_u32(&mut buf, self.seq_num);
        push_u32(&mut buf, self.ack_num);
        buf.push(self.data_offset << 4);
        buf.push(self.flags);
        push_u16(&mut buf, self.window);
        buf.push(0);
        buf.push(0);
        buf.push(0);
        buf.push(0);
        push_all(&mut buf, self.payload.as_slice());
        assert(buf@ =~= tcp_raw(*self));
        buf
    }

    /// The wire bytes with the checksum computed over the IPv4 pseudo header (RFC 793).
    /// The checksum adds up 16-bit words in 32 bits, which cannot overflow for
    /// a pseudo header of up to 131072 bytes (a payload of up to 131040); it
    /// can for a longer one.
    pub fn serialize(&self, src_ip: Ipv4Addr, dst_ip: Ipv4Addr) -> (buf: Vec<u8>)
        requires
            self.payload@.len() <= 131040,
        ensures
            buf@ == tcp_encode(*self, src_ip.0@, dst_ip.0@),
    {
        let mut buf = self.serialize_raw();
        let mut pseudo: Vec<u8> = Vec::new();
        push_all(&mut pseudo, &src_ip.0);
        push_all(&mut pseudo, &dst_ip.0);
        pseudo.push(0);
        pseudo.push(6);
        push_u16(&mut pseudo, (buf.len() % 65536) as u16);
        push_all(&mut pseudo, buf.as_slice());
        assert(pseudo@ =~= tcp_pseudo(*self, src_ip.0@, dst_ip.0@));
        let checksum = internet_checksum(pseudo.as_slice());
        let (h, l) = split16(checksum);
        buf.set(16, h);
        buf.set(17, l);
        buf
    }

    /// Reads a segment; `None` when under 20 bytes, or when the data offset gives a header
    /// shorter than 20 bytes or longer than the data.
    pub fn parse(data: &[u8]) -> (r: Option<TcpSegment>)
        ensures
            r.is_none() <==> (data@.len() < 20 || (data@[12] / 16) * 4 < 20 || data@.len() < (data@[12] / 16) * 4),
            r matches Some(s) ==> {
                &&& s.src_port == be16(data@[0], data@[1]) && s.dst_port == be16(data@[2], data@[3])
                &&& s.seq_num == be32(data@[4], data@[5], data@[6], data@[7])
                &&& s.ack_num == be32(data@[8], data@[9], data@[10], data@[11])
                &&& s.data_offset == data@[12] / 16 && s.flags == data@[13]
                &&& s.window == be16(data@[14], data@[15]) && s.checksum == be16(data@[16], data@[17])
                &&& s.urgent_ptr == be16(data@[18], data@[19])
                &&& s.payload@ == data@.subrange((data@[12] / 16) * 4, data@.len() as int)
            },
    {
        if data.len() < 20 {
            return None;
        }
        let b12 = data[12];
        assert(b12 >> 4u8 == b12 / 16) by (bit_vector);
        let data_offset = b12 >> 4;
        let header_len = (data_offset as usize) * 4;
        if header_len < 20 || data.len() < header_len {
            return None;
        }
        Some(TcpSegment {
            src_port: join16(data[0], data[1]),
            dst_port: join16(data[2], data[3]),
            seq_num: read_u32(data, 4),
            ack_num: read_u32(data, 8),
            data_offset,
            flags: data[13],
            window: join16(data[14], data[15]),
            checksum: join16(data[16], data[17]),
            urgent_ptr: join16(data[18], data[19]),
            payload: tail_vec(data, header_len),
        })
    }
}

/// The state of a TCP connection.
#[derive(Debug, PartialEq, Eq, Structural, Clone, Copy)]
pub enum TcpState {
    Closed,
    Listen,
    SynSent,
    SynReceived,
    Established,
    FinWait1,
    FinWait2,
    CloseWait,
    Closing,
    LastAck,
    TimeWait,
}

// ─── Sockets ────────────────────────────────────────────────

pub type SocketFd = u32;

/// The kind of a socket.
#[derive(Debug, PartialEq, Eq, Structural, Clone, Copy)]
pub enum SocketKind {
    TcpClient,
    TcpServer,
    Udp,
    Raw,
}

/// A socket and its buffers.
#[derive(Debug)]
pub struct Socket {
    pub fd: SocketFd,
    pub kind: SocketKind,
    pub local: Option<SocketAddr>,
    pub remote: Option<SocketAddr>,
    pub state: TcpState,
    pub rx_buf: Vec<u8>,
    pub tx_buf: Vec<u8>,
    pub nonblock: bool,
    /// Our next sequence number (TCP).
    pub seq_num: u32,
    /// The next byte we expect from the peer (TCP).
    pub ack_num: u32,
}

/// The first sequence number of a connection.
pub const INITIAL_SEQ: u32 = 0x1000_0000;

impl Socket {
    /// A closed socket with empty buffers and descriptor `fd`.
    pub fn new(kind: SocketKind, fd: SocketFd) -> (s: Socket)
        ensures
            s.fd == fd && s.kind == kind && s.local.is_none() && s.remote.is_none(),
            s.state == TcpState::Closed && s.rx_buf@.len() == 0 && s.tx_buf@.len() == 0,
            !s.nonblock && s.seq_num == INITIAL_SEQ && s.ack_num == 0,
    {
        Socket {
            fd,
            kind,
            local: None,
            remote: None,
            state: TcpState::Closed,
            rx_buf: Vec::new(),
            tx_buf: Vec::new(),
            nonblock: false,
            seq_num: INITIAL_SEQ,
            ack_num: 0,
        }
    }
}

/// The table of open sockets.
pub struct SocketTable {
    sockets: Vec<Socket>,
    next_fd: u32,
    next_ephemeral_port: u16,
}

/// Whether a socket accepts a segment for `local_port` from `remote`.
pub open spec fn owns(s: Socket, local_port: u16, remote: SocketAddr) -> bool {
    &&& s.local.is_some()
    &&& match s.local.unwrap() {
        SocketAddr::V4(_, p) => p == local_port,
        SocketAddr::V6(_, p) => p == local_port,
    }
    &&& (s.kind == SocketKind::TcpClient ==> (s.remote.is_none() || socket_addr_eq(s.remote.unwrap(), remote)))
}

/// A reply the TCP state machine asks to send: (source port, destination port, seq, ack).
pub type TcpReply = (u16, u16, u32, u32);

impl SocketTable {
    /// Descriptors are unique and all below `next_fd`; the ephemeral port is in range.
    pub closed spec fn wf(&self) -> bool {
        &&& forall|i: int, j: int| 0 <= i < j < self.sockets@.len() ==> self.sockets@[i].fd != self.sockets@[j].fd
        &&& forall|i: int| 0 <= i < self.sockets@.len() ==> self.sockets@[i].fd < self.next_fd
        &&& 49152 <= self.next_ephemeral_port <= 65000
    }

    /// The sockets in creation order.
    pub closed spec fn view(&self) -> Seq<Socket> {
        self.sockets@
    }

    /// The descriptor the next socket gets.
    pub closed spec fn next_fd_spec(&self) -> u32 {
        self.next_fd
    }

    /// The next ephemeral port.
    pub closed spec fn next_port(&self) -> u16 {
        self.next_ephemeral_port
    }

    /// The position of the socket with descriptor `fd`, if any.
    pub open spec fn index_of(&self, fd: SocketFd) -> Option<int> {
        if exists|i: int| 0 <= i < self@.len() && self@[i].fd == fd {
            Some(choose|i: int| 0 <= i < self@.len() && self@[i].fd == fd)
        } else {
            None
        }
    }

    /// An empty table; descriptors start at 3 and ephemeral ports at 49152.
    pub fn new() -> (t: SocketTable)
        ensures
            t.wf(),
            t@.len() == 0,
            t.next_fd_spec() == 3,
            t.next_port() == 49152,
    {
        SocketTable { sockets: Vec::new(), next_fd: 3, next_ephemeral_port: 49152 }
    }

    fn find(&self, fd: SocketFd) -> (r: Option<usize>)
        requires
            self.wf(),
        ensures
            match r {
                Some(i) => i < self@.len() && self@[i as int].fd == fd && self.index_of(fd) == Some(i as int),
                None => self.index_of(fd).is_none(),
            },
    {
        let mut i: usize = 0;
        while i < self.sockets.len()
            invariant
                self.wf(),
                i <= self.sockets@.len(),
                forall|j: int| 0 <= j < i ==> self.sockets@[j].fd != fd,
            decreases self.sockets@.len() - i,
        {
            if self.sockets[i].fd == fd {
                proof {
                    let k = choose|k: int| 0 <= k < self@.len() && self@[k].fd == fd;
                    assert(k == i);
                }
                return Some(i);
            }
            i = i + 1;
        }
        None
    }

    /// Opens a socket of `kind` and returns its descriptor.
    pub fn create(&mut self, kind: SocketKind) -> (fd: SocketFd)
        requires
            old(self).wf(),
            old(self).next_fd_spec() < u32::MAX,
        ensures
            final(self).wf(),
            fd == old(self).next_fd_spec(),
            final(self).next_fd_spec() == fd + 1,
            final(self).next_port() == old(self).next_port(),
            final(self)@.len() == old(self)@.len() + 1,
            final(self)@.subrange(0, old(self)@.len() as int) == old(self)@,
            final(self)@.last().fd == fd && final(self)@.last().kind == kind,
            final(self)@.last().state == TcpState::Closed,
            final(self)@.last().local.is_none() && final(self)@.last().remote.is_none(),
            final(self)@.last().rx_buf@.len() == 0,
    {
        let fd = self.next_fd;
        self.next_fd = self.next_fd + 1;
        self.sockets.push(Socket::new(kind, fd));
        assert(self.sockets@.subrange(0, old(self)@.len() as int) =~= old(self).sockets@);
        fd
    }

    /// Hands out the next ephemeral port, wrapping from 65000 back to 49152.
    pub fn alloc_ephemeral_port(&mut self) -> (p: u16)
        requires
            old(self).wf(),
        ensures
            final(self).wf(),
            p == old(self).next_port(),
            final(self).next_port() == (if p >= 65000 { 49152 } else { p + 1 }),
            final(self)@ == old(self)@,
            final(self).next_fd_spec() == old(self).next_fd_spec(),
    {
        let p = self.next_ephemeral_port;
        self.next_ephemeral_port = if p >= 65000 { 49152 } else { p + 1 };
        p
    }

    /// Binds `fd` to a local address; false when there is no such socket.
    pub fn bind(&mut self, fd: SocketFd, addr: SocketAddr) -> (ok: bool)
        requires
            old(self).wf(),
        ensures
            final(self).wf(),
            ok == old(self).index_of(fd).is_some(),
            final(self).next_fd_spec() == old(self).next_fd_spec(),
            final(self).next_port() == old(self).next_port(),
            final(self)@.len() == old(self)@.len(),
            forall|i: int| #![trigger final(self)@[i]] 0 <= i < old(self)@.len() ==> {
                let o = old(self)@[i];
                let n = final(self)@[i];
                if o.fd == fd {
                    n.local == Some(addr) && n.fd == o.fd && n.kind == o.kind && n.remote == o.remote
                        && n.state == o.state && n.rx_buf@ == o.rx_buf@
                } else {
                    n == o
                }
            },
    {
        match self.find(fd) {
            Some(i) => {
                let mut s = self.sockets.remove(i);
                s.local = Some(addr);
                self.sockets.insert(i, s);
                true
            },
            None => false,
        }
    }

    /// The first socket that owns a segment for `local_port` from `remote`.
    fn find_owner(&self, local_port: u16, remote: SocketAddr) -> (r: Option<usize>)
        ensures
            match r {
                Some(i) => i < self@.len() && owns(self@[i as int], local_port, remote)
                    && forall|j: int| 0 <= j < i ==> !owns(self@[j], local_port, remote),
                None => forall|j: int| 0 <= j < self@.len() ==> !owns(self@[j], local_port, remote),
            },
    {
        let mut i: usize = 0;
        while i < self.sockets.len()
            invariant
                i <= self.sockets@.len(),
                forall|j: int| 0 <= j < i ==> !owns(self.sockets@[j], local_port, remote),
            decreases self.sockets@.len() - i,
        {
            let s = &self.sockets[i];
            let port_ok = match s.local {
                Some(l) => l.port() == local_port,
                None => false,
            };
            if port_ok {
                let ok = match s.kind {
                    SocketKind::TcpClient => match s.remote {
                        None => true,
                        Some(r) => r.same(&remote),
                    },
                    _ => true,
                };
                if ok {
                    return Some(i);
                }
            }
            i = i + 1;
        }
        None
    }

    /// Moves up to `buf.len()` received bytes into `buf` and returns how many.
    pub fn recv(&mut self, fd: SocketFd, buf: &mut [u8]) -> (n: usize)
        requires
            old(self).wf(),
        ensures
            final(self).wf(),
            final(self).next_fd_spec() == old(self).next_fd_spec(),
            final(self).next_port() == old(self).next_port(),
            final(self)@.len() == old(self)@.len(),
            final(buf)@.len() == old(buf)@.len(),
            match old(self).index_of(fd) {
                None => n == 0 && final(self)@ == old(self)@ && final(buf)@ == old(buf)@,
                Some(i) => {
                    let rx = old(self)@[i].rx_buf@;
                    &&& n == (if old(buf)@.len() < rx.len() { old(buf)@.len() } else { rx.len() })
                    &&& final(buf)@ == rx.subrange(0, n as int) + old(buf)@.subrange(n as int, old(buf)@.len() as int)
                    &&& final(self)@[i].rx_buf@ == rx.subrange(n as int, rx.len() as int)
                    &&& final(self)@[i].fd == fd && final(self)@[i].state == old(self)@[i].state
                    &&& final(self)@[i].local == old(self)@[i].local && final(self)@[i].remote == old(self)@[i].remote
                    &&& final(self)@[i].kind == old(self)@[i].kind
                    &&& forall|j: int| 0 <= j < old(self)@.len() && j != i ==> final(self)@[j] == old(self)@[j]
                },
            },
    {
        match self.find(fd) {
            None => 0,
            Some(i) => {
                let mut s = self.sockets.remove(i);
                let rx_len = s.rx_buf.len();
                let n = if buf.len() < rx_len { buf.len() } else { rx_len };
                let mut k: usize = 0;
                while k < n
                    invariant
                        k <= n,
                        n <= buf@.len(),
                        n <= s.rx_buf@.len(),
                        buf@.len() == old(buf)@.len(),
                        buf@ == s.rx_buf@.subrange(0, k as int) + old(buf)@.subrange(k as int, old(buf)@.len() as int),
                    decreases n - k,
                {
                    buf[k] = s.rx_buf[k];
                    k = k + 1;
                    assert(buf@ =~= s.rx_buf@.subrange(0, k as int) + old(buf)@.subrange(k as int, old(buf)@.len() as int));
                }
                let rest = tail_vec(s.rx_buf.as_slice(), n);
                s.rx_buf = rest;
                self.sockets.insert(i, s);
                n
            },
        }
    }

    /// Applies a received TCP segment to the socket that owns it and says which ACK to send:
    /// RST closes; SYN+ACK completes a connect; data is appended and acknowledged; FIN moves
    /// to CLOSE-WAIT; FIN-WAIT states advance as RFC 793 describes.
    pub fn handle_tcp(&mut self, src_ip: Ipv4Addr, seg: &TcpSegment) -> (reply: Option<TcpReply>)
        requires
            old(self).wf(),
        ensures
            final(self).wf(),
            final(self).next_fd_spec() == old(self).next_fd_spec(),
            final(self).next_port() == old(self).next_port(),
            final(self)@.len() == old(self)@.len(),
            ({
                let remote = SocketAddr::V4(src_ip, seg.src_port);
                let owner = choose|i: int| 0 <= i < old(self)@.len() && owns(old(self)@[i], seg.dst_port, remote)
                    && forall|j: int| 0 <= j < i ==> !owns(old(self)@[j], seg.dst_port, remote);
                if exists|i: int| 0 <= i < old(self)@.len() && owns(old(self)@[i], seg.dst_port, remote)
                    && forall|j: int| 0 <= j < i ==> !owns(old(self)@[j], seg.dst_port, remote) {
                    &&& forall|j: int| 0 <= j < old(self)@.len() && j != owner ==> final(self)@[j] == old(self)@[j]
                    &&& tcp_effect(old(self)@[owner], final(self)@[owner], reply, remote, *seg)
                } else {
                    final(self)@ == old(self)@ && reply.is_none()
                }
            }),
    {
        let remote = SocketAddr::V4(src_ip, seg.src_port);
        match self.find_owner(seg.dst_port, remote) {
            None => None,
            Some(i) => {
                let s = self.sockets.remove(i);
                let (s2, reply) = tcp_transition(s, remote, seg);
                self.sockets.insert(i, s2);
                proof {
                    assert(self.sockets@ =~= old(self).sockets@.update(i as int, s2));
                }
                reply
            },
        }
    }

    /// Appends a received UDP payload to the socket that owns its port.
    pub fn handle_udp(&mut self, src_ip: Ipv4Addr, udp: &UdpPacket)
        requires
            old(self).wf(),
        ensures
            final(self).wf(),
            final(self).next_fd_spec() == old(self).next_fd_spec(),
            final(self).next_port() == old(self).next_port(),
            final(self)@.len() == old(self)@.len(),
            ({
                let remote = SocketAddr::V4(src_ip, udp.src_port);
                if exists|i: int| 0 <= i < old(self)@.len() && owns(old(self)@[i], udp.dst_port, remote) {
                    let owner = choose|i: int| 0 <= i < old(self)@.len() && owns(old(self)@[i], udp.dst_port, remote)
                        && forall|j: int| 0 <= j < i ==> !owns(old(self)@[j], udp.dst_port, remote);
                    &&& 0 <= owner < old(self)@.len()
                    &&& forall|j: int| 0 <= j < old(self)@.len() && j != owner ==> final(self)@[j] == old(self)@[j]
                    &&& final(self)@[owner].rx_buf@ == old(self)@[owner].rx_buf@ + udp.payload@
                    &&& final(self)@[owner].fd == old(self)@[owner].fd
                    &&& final(self)@[owner].state == old(self)@[owner].state
                    &&& final(self)@[owner].local == old(self)@[owner].local
                    &&& final(self)@[owner].remote == old(self)@[owner].remote
                } else {
                    final(self)@ == old(self)@
                }
            }),
    {
        let remote = SocketAddr::V4(src_ip, udp.src_port);
        match self.find_owner(udp.dst_port, remote) {
            None => {},
            Some(i) => {
                let mut s = self.sockets.remove(i);
                push_all(&mut s.rx_buf, udp.payload.as_slice());
                self.sockets.insert(i, s);
                proof {
                    let owner = choose|k: int| 0 <= k < old(self)@.len() && owns(old(self)@[k], udp.dst_port, remote)
                        && forall|j: int| 0 <= j < k ==> !owns(old(self)@[j], udp.dst_port, remote);
                    assert(owns(old(self)@[i as int], udp.dst_port, remote));
                    assert(owner == i);
                    assert(self.sockets@ =~= old(self).sockets@.update(i as int, s));
                }
            },
        }
    }

    /// Closes `fd` and removes it from the table.
    pub fn close(&mut self, fd: SocketFd)
        requires
            old(self).wf(),
        ensures
            final(self).wf(),
            final(self).next_fd_spec() == old(self).next_fd_spec(),
            final(self).next_port() == old(self).next_port(),
            match old(self).index_of(fd) {
                None => final(self)@ == old(self)@,
                Some(i) => final(self)@ == old(self)@.remove(i),
            },
            forall|i: int| 0 <= i < final(self)@.len() ==> final(self)@[i].fd != fd,
    {
        match self.find(fd) {
            None => {},
            Some(i) => {
                let _ = self.sockets.remove(i);
            },
        }
    }
}

/// One step of the TCP state machine: the socket after a segment, and the ACK to send.
pub open spec fn tcp_step(s: Socket, remote: SocketAddr, seg: TcpSegment) -> (Socket, Option<TcpReply>) {
    let s = if s.remote.is_none() { Socket { remote: Some(remote), ..s } } else { s };
    if seg.flags & TCP_RST != 0 {
        (Socket { state: TcpState::Closed, ..s }, None)
    } else {
        match s.state {
            TcpState::SynSent => {
                if seg.flags & (TCP_SYN | TCP_ACK) == (TCP_SYN | TCP_ACK) {
                    let ack = vstd::wrapping::u32_specs::wrapping_add(seg.seq_num, 1);
                    (Socket { ack_num: ack as u32, seq_num: seg.ack_num, state: TcpState::Established, ..s },
                        Some((seg.dst_port, seg.src_port, seg.ack_num, ack as u32)))
                } else {
                    (s, None)
                }
            },
            TcpState::Established => {
                let has_data = seg.payload@.len() > 0;
                let ack1 = if has_data { vstd::wrapping::u32_specs::wrapping_add(seg.seq_num, (seg.payload@.len() % 0x1_0000_0000) as u32) } else { s.ack_num };
                if seg.flags & TCP_FIN != 0 {
                    let ack2 = vstd::wrapping::u32_specs::wrapping_add(ack1, 1);
                    (Socket { ack_num: ack2, state: TcpState::CloseWait, ..s }, Some((seg.dst_port, seg.src_port, s.seq_num, ack2)))
                } else if has_data {
                    (Socket { ack_num: ack1, ..s }, Some((seg.dst_port, seg.src_port, s.seq_num, ack1)))
                } else {
                    (s, None)
                }
            },
            TcpState::FinWait1 => {
                if seg.flags & TCP_FIN != 0 {
                    (Socket { state: TcpState::TimeWait, ..s }, None)
                } else if seg.flags & TCP_ACK != 0 {
                    (Socket { state: TcpState::FinWait2, ..s }, None)
                } else {
                    (s, None)
                }
            },
            TcpState::FinWait2 => {
                if seg.flags & TCP_FIN != 0 {
                    let ack = vstd::wrapping::u32_specs::wrapping_add(seg.seq_num, 1);
                    (Socket { ack_num: ack, state: TcpState::Closed, ..s }, Some((seg.dst_port, seg.src_port, s.seq_num, ack)))
                } else {
                    (s, None)
                }
            },
            _ => (s, None),
        }
    }
}

/// In ESTABLISHED, a segment carrying data (and no reset or FIN) is
/// acknowledged up to the byte after it: the socket's acknowledgement number,
/// and the one of the ACK sent back, is the segment's sequence number plus
/// the bytes added to the receive buffer, modulo 2^32.
pub proof fn lemma_established_acks_data(s: Socket, remote: SocketAddr, seg: TcpSegment)
    requires
        s.state == TcpState::Established,
        seg.flags & TCP_RST == 0,
        seg.flags & TCP_FIN == 0,
        seg.payload@.len() > 0,
    ensures
        ({
            let (t, reply) = tcp_step(s, remote, seg);
            let added = tcp_rx(s, seg).len() - s.rx_buf@.len();
            &&& added == seg.payload@.len()
            &&& t.ack_num as int == (seg.seq_num as int + added) % 0x1_0000_0000
            &&& reply matches Some(r) && r.3 == t.ack_num
        }),
{
    let n = seg.payload@.len();
    let m = (n % 0x1_0000_0000) as u32;
    assert((seg.seq_num as int + n) % 0x1_0000_0000 == (seg.seq_num as int + m) % 0x1_0000_0000) by (nonlinear_arith)
        requires m == n % 0x1_0000_0000, n >= 0;
    let w = vstd::wrapping::u32_specs::wrapping_add(seg.seq_num, m);
    assert(w as int == (seg.seq_num as int + m) % 0x1_0000_0000);
}

/// A FIN in ESTABLISHED is acknowledged one past the data it carries.
pub proof fn lemma_established_acks_fin(s: Socket, remote: SocketAddr, seg: TcpSegment)
    requires
        s.state == TcpState::Established,
        seg.flags & TCP_RST == 0,
        seg.flags & TCP_FIN != 0,
    ensures
        ({
            let (t, reply) = tcp_step(s, remote, seg);
            let base: int = if seg.payload@.len() > 0 { seg.seq_num as int + seg.payload@.len() } else { s.ack_num as int };
            &&& t.state == TcpState::CloseWait
            &&& t.ack_num as int == (base + 1) % 0x1_0000_0000
            &&& reply matches Some(r) && r.3 == t.ack_num
        }),
{
    let n = seg.payload@.len();
    let m = (n % 0x1_0000_0000) as u32;
    assert((seg.seq_num as int + n) % 0x1_0000_0000 == (seg.seq_num as int + m) % 0x1_0000_0000) by (nonlinear_arith)
        requires m == n % 0x1_0000_0000, n >= 0;
    let a1: int = if n > 0 { (seg.seq_num as int + n) % 0x1_0000_0000 } else { s.ack_num as int };
    assert((a1 + 1) % 0x1_0000_0000 == ((if n > 0 { seg.seq_num as int + n } else { s.ack_num as int }) + 1) % 0x1_0000_0000)
        by (nonlinear_arith)
        requires n > 0 ==> a1 == (seg.seq_num as int + n) % 0x1_0000_0000, n == 0 ==> a1 == s.ack_num as int, n >= 0;
}

/// A reset closes the connection in any state and is not answered.
pub proof fn lemma_reset_closes(s: Socket, remote: SocketAddr, seg: TcpSegment)
    requires
        seg.flags & TCP_RST != 0,
    ensures
        tcp_step(s, remote, seg).0.state == TcpState::Closed,
        tcp_step(s, remote, seg).1 is None,
        tcp_rx(s, seg) == s.rx_buf@,
{
}

/// The handshake: a SYN+ACK answering our SYN establishes the connection; we
/// then expect the byte after the peer's SYN, send from the number it
/// acknowledged, and acknowledge its SYN.
pub proof fn lemma_syn_ack_establishes(s: Socket, remote: SocketAddr, seg: TcpSegment)
    requires
        s.state == TcpState::SynSent,
        seg.flags & TCP_RST == 0,
        seg.flags & (TCP_SYN | TCP_ACK) == (TCP_SYN | TCP_ACK),
    ensures
        ({
            let (t, reply) = tcp_step(s, remote, seg);
            &&& t.state == TcpState::Established
            &&& t.ack_num as int == (seg.seq_num as int + 1) % 0x1_0000_0000
            &&& t.seq_num == seg.ack_num
            &&& reply matches Some(r) && r.2 == seg.ack_num && r.3 == t.ack_num
                && r.0 == seg.dst_port && r.1 == seg.src_port
        }),
{
}

/// Data that arrives in ESTABLISHED is appended to the receive buffer, in
/// order, and nothing else is; a segment with no data leaves the connection
/// as it was and is not answered.
pub proof fn lemma_established_data(s: Socket, remote: SocketAddr, seg: TcpSegment)
    requires
        s.state == TcpState::Established,
        seg.flags & TCP_RST == 0,
    ensures
        tcp_rx(s, seg) == s.rx_buf@ + seg.payload@,
        seg.flags & TCP_FIN == 0 && seg.payload@.len() == 0 ==> tcp_step(s, remote, seg).1 is None
            && tcp_step(s, remote, seg).0.state == TcpState::Established
            && tcp_step(s, remote, seg).0.ack_num == s.ack_num,
{
    if seg.payload@.len() == 0 {
        assert(s.rx_buf@ + seg.payload@ =~= s.rx_buf@);
    }
}

/// The received bytes after a segment: data that arrives in ESTABLISHED (and is not reset)
/// is appended.
pub open spec fn tcp_rx(s: Socket, seg: TcpSegment) -> Seq<u8> {
    if seg.flags & TCP_RST == 0 && s.state == TcpState::Established && seg.payload@.len() > 0 {
        s.rx_buf@ + seg.payload@
    } else {
        s.rx_buf@
    }
}

/// Two sockets agree on every field but the receive buffer.
pub open spec fn same_but_rx(a: Socket, b: Socket) -> bool {
    a.fd == b.fd && a.kind == b.kind && a.local == b.local && a.remote == b.remote && a.state == b.state
        && a.tx_buf == b.tx_buf && a.nonblock == b.nonblock && a.seq_num == b.seq_num && a.ack_num == b.ack_num
}

/// The full effect of a segment on a socket.
pub open spec fn tcp_effect(old_s: Socket, new_s: Socket, reply: Option<TcpReply>, remote: SocketAddr, seg: TcpSegment) -> bool {
    &&& same_but_rx(new_s, tcp_step(old_s, remote, seg).0)
    &&& reply == tcp_step(old_s, remote, seg).1
    &&& new_s.rx_buf@ == tcp_rx(old_s, seg)
}

fn tcp_transition(s: Socket, remote: SocketAddr, seg: &TcpSegment) -> (r: (Socket, Option<TcpReply>))
    ensures
        tcp_effect(s, r.0, r.1, remote, *seg),
{
    let ghost s0 = s;
    let mut s = s;
    if s.remote.is_none() {
        s.remote = Some(remote);
    }
    if seg.flags & TCP_RST != 0 {
        s.state = TcpState::Closed;
        return (s, None);
    }
    match s.state {
        TcpState::SynSent => {
            if seg.flags & (TCP_SYN | TCP_ACK) == (TCP_SYN | TCP_ACK) {
                s.ack_num = seg.seq_num.wrapping_add(1);
                s.seq_num = seg.ack_num;
                s.state = TcpState::Established;
                let r = Some((seg.dst_port, seg.src_port, s.seq_num, s.ack_num));
                (s, r)
            } else {
                (s, None)
            }
        },
        TcpState::Established => {
            let has_data = seg.payload.len() > 0;
            if has_data {
                push_all(&mut s.rx_buf, seg.payload.as_slice());
                s.ack_num = seg.seq_num.wrapping_add((seg.payload.len() as u64 % 0x1_0000_0000) as u32);
            }
            if seg.flags & TCP_FIN != 0 {
                s.ack_num = s.ack_num.wrapping_add(1);
                s.state = TcpState::CloseWait;
                let r = Some((seg.dst_port, seg.src_port, s.seq_num, s.ack_num));
                (s, r)
            } else if has_data {
                let r = Some((seg.dst_port, seg.src_port, s.seq_num, s.ack_num));
                (s, r)
            } else {
                (s, None)
            }
        },
        TcpState::FinWait1 => {
            if seg.flags & TCP_FIN != 0 {
                s.state = TcpState::TimeWait;
            } else if seg.flags & TCP_ACK != 0 {
                s.state = TcpState::FinWait2;
            }
            (s, None)
        },
        TcpState::FinWait2 => {
            if seg.flags & TCP_FIN != 0 {
                s.ack_num = seg.seq_num.wrapping_add(1);
                s.state = TcpState::Closed;
                let r = Some((seg.dst_port, seg.src_port, s.seq_num, s.ack_num));
                (s, r)
            } else {
                (s, None)
            }
        },
        _ => (s, None),
    }
}

/// The socket kind used for a protocol.
pub open spec fn kind_for(proto: Protocol) -> SocketKind {
    match proto {
        Protocol::TCP => SocketKind::TcpClient,
        Protocol::UDP => SocketKind::Udp,
        _ => SocketKind::Raw,
    }
}

/// Opens a socket for `proto`: TCP gives a client socket, UDP a datagram socket, others raw.
pub fn socket_create(table: &mut SocketTable, proto: Protocol) -> (fd: SocketFd)
    requires
        old(table).wf(),
        old(table).next_fd_spec() < u32::MAX,
    ensures
        final(table).wf(),
        fd == old(table).next_fd_spec(),
        final(table)@.len() == old(table)@.len() + 1,
        final(table)@.subrange(0, old(table)@.len() as int) == old(table)@,
        final(table)@.last().fd == fd && final(table)@.last().kind == kind_for(proto),
        final(table)@.last().state == TcpState::Closed,
{
    let kind = match proto {
        Protocol::TCP => SocketKind::TcpClient,
        Protocol::UDP => SocketKind::Udp,
        _ => SocketKind::Raw,
    };
    table.create(kind)
}

/// Binds a socket to a local address.
pub fn socket_bind(table: &mut SocketTable, fd: SocketFd, addr: SocketAddr) -> (ok: bool)
    requires
        old(table).wf(),
    ensures
        final(table).wf(),
        ok == old(table).index_of(fd).is_some(),
        final(table)@.len() == old(table)@.len(),
        forall|i: int| 0 <= i < old(table)@.len() ==> (old(table)@[i].fd == fd ==> final(table)@[i].local == Some(addr))
            && (old(table)@[i].fd != fd ==> final(table)@[i] == old(table)@[i]),
{
    table.bind(fd, addr)
}

/// Reads received bytes of a socket.
pub fn socket_recv(table: &mut SocketTable, fd: SocketFd, buf: &mut [u8]) -> (n: usize)
    requires
        old(table).wf(),
    ensures
        final(table).wf(),
        final(buf)@.len() == old(buf)@.len(),
        match old(table).index_of(fd) {
            None => n == 0 && final(table)@ == old(table)@,
            Some(i) => {
                let rx = old(table)@[i].rx_buf@;
                &&& n == (if old(buf)@.len() < rx.len() { old(buf)@.len() } else { rx.len() })
                &&& final(buf)@.subrange(0, n as int) == rx.subrange(0, n as int)
                &&& final(table)@[i].rx_buf@ == rx.subrange(n as int, rx.len() as int)
            },
        },
{
    let n = table.recv(fd, buf);
    proof {
        match old(table).index_of(fd) {
            None => {},
            Some(i) => {
                let rx = old(table)@[i].rx_buf@;
                assert(buf@.subrange(0, n as int) =~= rx.subrange(0, n as int));
            },
        }
    }
    n
}

/// Delivers a received TCP segment and returns the ACK to send, if any.
pub fn dispatch_tcp(table: &mut SocketTable, src_ip: Ipv4Addr, seg: &TcpSegment) -> (reply: Option<TcpReply>)
    requires
        old(table).wf(),
    ensures
        final(table).wf(),
        final(table)@.len() == old(table)@.len(),
{
    table.handle_tcp(src_ip, seg)
}

/// Delivers a received UDP datagram to the socket bound to its port.
pub fn dispatch_udp(table: &mut SocketTable, src_ip: Ipv4Addr, udp: &UdpPacket)
    requires
        old(table).wf(),
    ensures
        final(table).wf(),
        final(table)@.len() == old(table)@.len(),
{
    table.handle_udp(src_ip, udp)
}

// ─── DNS ────────────────────────────────────────────────────

/// The DNS cache: name to address.
pub struct DnsCache {
    entries: Vec<(String, Ipv4Addr)>,
}

/// The mapping held by the cache entries.
pub open spec fn name_map(s: Seq<(String, Ipv4Addr)>) -> Map<Seq<char>, Ipv4Addr>
    decreases s.len(),
{
    if s.len() == 0 { Map::empty() } else { name_map(s.drop_last()).insert(s.last().0@, s.last().1) }
}

proof fn lemma_name_map_absent(s: Seq<(String, Ipv4Addr)>, k: Seq<char>)
    requires
        forall|i: int| 0 <= i < s.len() ==> s[i].0@ != k,
    ensures
        !name_map(s).contains_key(k),
    decreases s.len(),
{
    if s.len() > 0 {
        lemma_name_map_absent(s.drop_last(), k);
    }
}

proof fn lemma_name_map_get(s: Seq<(String, Ipv4Addr)>, i: int)
    requires
        forall|a: int, b: int| 0 <= a < b < s.len() ==> s[a].0@ != s[b].0@,
        0 <= i < s.len(),
    ensures
        name_map(s).contains_key(s[i].0@),
        name_map(s)[s[i].0@] == s[i].1,
    decreases s.len(),
{
    if i < s.len() - 1 {
        lemma_name_map_get(s.drop_last(), i);
    }
}

proof fn lemma_name_map_update(s: Seq<(String, Ipv4Addr)>, i: int, e: (String, Ipv4Addr))
    requires
        forall|a: int, b: int| 0 <= a < b < s.len() ==> s[a].0@ != s[b].0@,
        0 <= i < s.len(),
        e.0@ == s[i].0@,
    ensures
        name_map(s.update(i, e)) == name_map(s).insert(e.0@, e.1),
    decreases s.len(),
{
    let t = s.update(i, e);
    if i == s.len() - 1 {
        assert(t.drop_last() =~= s.drop_last());
        assert(name_map(t) =~= name_map(s).insert(e.0@, e.1));
    } else {
        assert(t.drop_last() =~= s.drop_last().update(i, e));
        lemma_name_map_update(s.drop_last(), i, e);
        assert(name_map(t) =~= name_map(s).insert(e.0@, e.1));
    }
}

impl DnsCache {
    /// The cache as a map from name to address.
    pub closed spec fn view(&self) -> Map<Seq<char>, Ipv4Addr> {
        name_map(self.entries@)
    }

    /// One entry per name.
    pub closed spec fn wf(&self) -> bool {
        forall|a: int, b: int| 0 <= a < b < self.entries@.len() ==> self.entries@[a].0@ != self.entries@[b].0@
    }

    pub fn new() -> (c: DnsCache)
        ensures
            c.wf(),
            c@ == Map::<Seq<char>, Ipv4Addr>::empty(),
    {
        DnsCache { entries: Vec::new() }
    }

    fn find(&self, name: &str) -> (r: Option<usize>)
        ensures
            match r {
                Some(i) => i < self.entries@.len() && self.entries@[i as int].0@ == name@,
                None => forall|i: int| 0 <= i < self.entries@.len() ==> self.entries@[i].0@ != name@,
            },
    {
        let key = String::from_str(name);
        let mut i: usize = 0;
        while i < self.entries.len()
            invariant
                i <= self.entries@.len(),
                key@ == name@,
                forall|j: int| 0 <= j < i ==> self.entries@[j].0@ != name@,
            decreases self.entries@.len() - i,
        {
            if self.entries[i].0 == key {
                return Some(i);
            }
            i = i + 1;
        }
        None
    }

    /// Records the address of `name`.
    pub fn insert(&mut self, name: &str, ip: Ipv4Addr)
        requires
            old(self).wf(),
        ensures
            final(self).wf(),
            final(self)@ == old(self)@.insert(name@, ip),
    {
        let e = (String::from_str(name), ip);
        match self.find(name) {
            Some(i) => {
                proof {
                    lemma_name_map_update(self.entries@, i as int, e);
                }
                self.entries.set(i, e);
            },
            None => {
                self.entries.push(e);
                assert(self.entries@.drop_last() =~= old(self).entries@);
            },
        }
    }

    /// The cached address of `name`.
    pub fn lookup(&self, name: &str) -> (r: Option<Ipv4Addr>)
        requires
            self.wf(),
        ensures
            r == (if self@.contains_key(name@) { Some(self@[name@]) } else { None::<Ipv4Addr> }),
    {
        match self.find(name) {
            Some(i) => {
                proof {
                    lemma_name_map_get(self.entries@, i as int);
                }
                Some(self.entries[i].1)
            },
            None => {
                proof {
                    lemma_name_map_absent(self.entries@, name@);
                }
                None
            },
        }
    }
}

/// Records a name in the DNS cache.
pub fn dns_insert(cache: &mut DnsCache, name: &str, ip: Ipv4Addr)
    requires
        old(cache).wf(),
    ensures
        final(cache).wf(),
        final(cache)@ == old(cache)@.insert(name@, ip),
{
    cache.insert(name, ip)
}

/// Resolves a name from the cache; there is no resolver behind it, so a miss is `None`.
pub fn dns_lookup(cache: &DnsCache, name: &str) -> (r: Option<Ipv4Addr>)
    requires
        cache.wf(),
    ensures
        r == (if cache@.contains_key(name@) { Some(cache@[name@]) } else { None::<Ipv4Addr> }),
{
    cache.lookup(name)
}

} // verus!
