//! Addresses and interfaces of the network stack.
use vstd::prelude::*;
use vstd::string::*;
use crate::util::{be32, dec_of, hex_byte, push_dec, push_hex_byte, string_push};

verus! {

/// A MAC address.
#[derive(Clone, Copy, Debug)]
pub struct MacAddr(pub [u8; 6]);

/// An IPv4 address, most significant byte first.
#[derive(Clone, Copy, Debug)]
pub struct Ipv4Addr(pub [u8; 4]);

/// An IPv6 address.
#[derive(Clone, Copy, Debug)]
pub struct Ipv6Addr(pub [u8; 16]);

/// The dotted text of an IPv4 address.
pub open spec fn ipv4_text(b: Seq<u8>) -> Seq<char> {
    dec_of(b[0] as nat) + seq!['.'] + dec_of(b[1] as nat) + seq!['.'] + dec_of(b[2] as nat)
        + seq!['.'] + dec_of(b[3] as nat)
}

/// The colon-separated hexadecimal text of a MAC address.
pub open spec fn mac_text(b: Seq<u8>) -> Seq<char> {
    hex_byte(b[0]) + seq![':'] + hex_byte(b[1]) + seq![':'] + hex_byte(b[2]) + seq![':']
        + hex_byte(b[3]) + seq![':'] + hex_byte(b[4]) + seq![':'] + hex_byte(b[5])
}

/// The text of an IPv6 address: eight groups of four hexadecimal digits.
pub open spec fn ipv6_text(b: Seq<u8>) -> Seq<char>
    recommends
        b.len() == 16,
{
    hex_byte(b[0]) + hex_byte(b[1]) + seq![':'] + hex_byte(b[2]) + hex_byte(b[3]) + seq![':']
        + hex_byte(b[4]) + hex_byte(b[5]) + seq![':'] + hex_byte(b[6]) + hex_byte(b[7]) + seq![':']
        + hex_byte(b[8]) + hex_byte(b[9]) + seq![':'] + hex_byte(b[10]) + hex_byte(b[11]) + seq![':']
        + hex_byte(b[12]) + hex_byte(b[13]) + seq![':'] + hex_byte(b[14]) + hex_byte(b[15])
}

impl MacAddr {
    /// The broadcast address ff:ff:ff:ff:ff:ff.
    pub fn broadcast() -> (m: MacAddr)
        ensures
            forall|i: int| 0 <= i < 6 ==> m.0@[i] == 0xff,
    {
        MacAddr([0xffu8, 0xff, 0xff, 0xff, 0xff, 0xff])
    }

    /// The all-zero address.
    pub fn zero() -> (m: MacAddr)
        ensures
            forall|i: int| 0 <= i < 6 ==> m.0@[i] == 0,
    {
        MacAddr([0u8, 0, 0, 0, 0, 0])
    }

    /// Whether every byte is 0xff.
    pub fn is_broadcast(&self) -> (b: bool)
        ensures
            b == (forall|i: int| 0 <= i < 6 ==> self.0@[i] == 0xff),
    {
        let a = self.0;
        a[0] == 0xff && a[1] == 0xff && a[2] == 0xff && a[3] == 0xff && a[4] == 0xff && a[5] == 0xff
    }

    /// Whether the group bit (lowest bit of the first byte) is set.
    pub fn is_multicast(&self) -> (b: bool)
        ensures
            b == (self.0@[0] % 2 == 1),
    {
        let x = self.0[0];
        assert((x & 1) == x % 2) by (bit_vector);
        x & 1 != 0
    }

    /// The address as `aa:bb:cc:dd:ee:ff`.
    pub fn to_string(&self) -> (s: String)
        ensures
            s@ == mac_text(self.0@),
    {
        let mut s = String::new();
        push_hex_byte(&mut s, self.0[0]);
        string_push(&mut s, ':');
        push_hex_byte(&mut s, self.0[1]);
        string_push(&mut s, ':');
        push_hex_byte(&mut s, self.0[2]);
        string_push(&mut s, ':');
        push_hex_byte(&mut s, self.0[3]);
        string_push(&mut s, ':');
        push_hex_byte(&mut s, self.0[4]);
        string_push(&mut s, ':');
        push_hex_byte(&mut s, self.0[5]);
        s
    }

    /// Byte-wise equality.
    pub fn same(&self, other: &MacAddr) -> (b: bool)
        ensures
            b == (self.0@ == other.0@),
    {
        let a = self.0;
        let c = other.0;
        let r = a[0] == c[0] && a[1] == c[1] && a[2] == c[2] && a[3] == c[3] && a[4] == c[4]
            && a[5] == c[5];
        if r {
            assert(self.0@ =~= other.0@);
        }
        r
    }
}

/// The numeric value of an IPv4 address.
pub open spec fn ipv4_value(b: Seq<u8>) -> u32 {
    be32(b[0], b[1], b[2], b[3])
}

impl Ipv4Addr {
    /// 127.0.0.1
    pub fn localhost() -> (a: Ipv4Addr)
        ensures
            a.0@ == seq![127u8, 0, 0, 1],
    {
        let a = Ipv4Addr([127u8, 0, 0, 1]);
        assert(a.0@ =~= seq![127u8, 0, 0, 1]);
        a
    }

    /// 255.255.255.255
    pub fn broadcast() -> (a: Ipv4Addr)
        ensures
            a.0@ == seq![255u8, 255, 255, 255],
    {
        let a = Ipv4Addr([255u8, 255, 255, 255]);
        assert(a.0@ =~= seq![255u8, 255, 255, 255]);
        a
    }

    /// 0.0.0.0
    pub fn any() -> (a: Ipv4Addr)
        ensures
            a.0@ == seq![0u8, 0, 0, 0],
    {
        let a = Ipv4Addr([0u8, 0, 0, 0]);
        assert(a.0@ =~= seq![0u8, 0, 0, 0]);
        a
    }

    /// The mDNS group 224.0.0.251.
    pub fn multicast_mdns() -> (a: Ipv4Addr)
        ensures
            a.0@ == seq![224u8, 0, 0, 251],
    {
        let a = Ipv4Addr([224u8, 0, 0, 251]);
        assert(a.0@ =~= seq![224u8, 0, 0, 251]);
        a
    }

    /// The address whose big-endian value is `v`.
    pub fn from_u32(v: u32) -> (a: Ipv4Addr)
        ensures
            ipv4_value(a.0@) == v,
            a.0@[0] == (v / 0x1000000) as u8,
            a.0@[1] == ((v / 0x10000) % 256) as u8,
            a.0@[2] == ((v / 0x100) % 256) as u8,
            a.0@[3] == (v % 256) as u8,
    {
        let b0 = (v >> 24) as u8;
        let b1 = ((v >> 16) & 0xff) as u8;
        let b2 = ((v >> 8) & 0xff) as u8;
        let b3 = (v & 0xff) as u8;
        assert(v >> 24 == v / 0x1000000) by (bit_vector);
        assert((v >> 16) & 0xff == (v / 0x10000) % 256) by (bit_vector);
        assert((v >> 8) & 0xff == (v / 0x100) % 256) by (bit_vector);
        assert(v & 0xff == v % 256) by (bit_vector);
        let a = Ipv4Addr([b0, b1, b2, b3]);
        assert(a.0@[0] == b0 && a.0@[1] == b1 && a.0@[2] == b2 && a.0@[3] == b3);
        assert((v / 0x1000000) * 0x1000000 + ((v / 0x10000) % 256) * 0x10000 + ((v / 0x100) % 256)
            * 0x100 + v % 256 == v) by (nonlinear_arith);
        a
    }

    /// The big-endian value of the address.
    pub fn to_u32(&self) -> (v: u32)
        ensures
            v == ipv4_value(self.0@),
    {
        let b0 = self.0[0] as u32;
        let b1 = self.0[1] as u32;
        let b2 = self.0[2] as u32;
        let b3 = self.0[3] as u32;
        b0 * 0x1000000 + b1 * 0x10000 + b2 * 0x100 + b3
    }

    /// The dotted-decimal text.
    pub fn to_string(&self) -> (s: String)
        ensures
            s@ == ipv4_text(self.0@),
    {
        let mut s = String::new();
        push_dec(&mut s, self.0[0] as u64);
        string_push(&mut s, '.');
        push_dec(&mut s, self.0[1] as u64);
        string_push(&mut s, '.');
        push_dec(&mut s, self.0[2] as u64);
        string_push(&mut s, '.');
        push_dec(&mut s, self.0[3] as u64);
        s
    }

    /// In 127.0.0.0/8.
    pub fn is_loopback(&self) -> (b: bool)
        ensures
            b == (self.0@[0] == 127),
    {
        self.0[0] == 127
    }

    /// In 10/8, 172.16/12 or 192.168/16.
    pub fn is_private(&self) -> (b: bool)
        ensures
            b == (self.0@[0] == 10 || (self.0@[0] == 172 && 16 <= self.0@[1] <= 31) || (
            self.0@[0] == 192 && self.0@[1] == 168)),
    {
        self.0[0] == 10 || (self.0[0] == 172 && self.0[1] >= 16 && self.0[1] <= 31) || (self.0[0]
            == 192 && self.0[1] == 168)
    }

    /// In 224.0.0.0/4.
    pub fn is_multicast(&self) -> (b: bool)
        ensures
            b == (224 <= self.0@[0] <= 239),
    {
        self.0[0] >= 224 && self.0[0] <= 239
    }

    /// Equal to 255.255.255.255.
    pub fn is_broadcast(&self) -> (b: bool)
        ensures
            b == (self.0@ == seq![255u8, 255, 255, 255]),
    {
        let r = self.0[0] == 255 && self.0[1] == 255 && self.0[2] == 255 && self.0[3] == 255;
        if r {
            assert(self.0@ =~= seq![255u8, 255, 255, 255]);
        }
        r
    }

    /// Byte-wise equality.
    pub fn same(&self, other: &Ipv4Addr) -> (b: bool)
        ensures
            b == (self.0@ == other.0@),
    {
        let r = self.0[0] == other.0[0] && self.0[1] == other.0[1] && self.0[2] == other.0[2]
            && self.0[3] == other.0[3];
        if r {
            assert(self.0@ =~= other.0@);
        }
        r
    }
}

/// Converting an address to its value and back gives the same address.
pub proof fn lemma_ipv4_roundtrip(a: Ipv4Addr, v: u32)
    ensures
        ({
            let x = ipv4_value(a.0@);
            &&& (x / 0x1000000) as u8 == a.0@[0]
            &&& ((x / 0x10000) % 256) as u8 == a.0@[1]
            &&& ((x / 0x100) % 256) as u8 == a.0@[2]
            &&& (x % 256) as u8 == a.0@[3]
        }),
{
    let b0 = a.0@[0] as int;
    let b1 = a.0@[1] as int;
    let b2 = a.0@[2] as int;
    let b3 = a.0@[3] as int;
    let x = b0 * 0x1000000 + b1 * 0x10000 + b2 * 0x100 + b3;
    assert(0 <= x < 0x100000000) by (nonlinear_arith)
        requires
            0 <= b0 < 256,
            0 <= b1 < 256,
            0 <= b2 < 256,
            0 <= b3 < 256,
            x == b0 * 0x1000000 + b1 * 0x10000 + b2 * 0x100 + b3,
    ;
    assert(x / 0x1000000 == b0 && (x / 0x10000) % 256 == b1 && (x / 0x100) % 256 == b2 && x % 256
        == b3) by (nonlinear_arith)
        requires
            0 <= b0 < 256,
            0 <= b1 < 256,
            0 <= b2 < 256,
            0 <= b3 < 256,
            x == b0 * 0x1000000 + b1 * 0x10000 + b2 * 0x100 + b3,
    ;
}

impl Ipv6Addr {
    /// ::1
    pub fn loopback() -> (a: Ipv6Addr)
        ensures
            forall|i: int| 0 <= i < 15 ==> a.0@[i] == 0,
            a.0@[15] == 1,
    {
        Ipv6Addr([0u8, 0, 0, 0, 0, 0, 0, 0, 0, 0, 0, 0, 0, 0, 0, 1])
    }

    /// Eight colon-separated groups of four hexadecimal digits.
    pub fn to_string(&self) -> (s: String)
        ensures
            s@ == ipv6_text(self.0@),
    {
        let mut s = String::new();
        let mut g: usize = 0;
        while g < 8
            invariant
                g <= 8,
                s@ == ipv6_prefix(self.0@, g as nat),
            decreases 8 - g,
        {
            if g > 0 {
                string_push(&mut s, ':');
            }
            push_hex_byte(&mut s, self.0[2 * g]);
            push_hex_byte(&mut s, self.0[2 * g + 1]);
            g = g + 1;
        }
        proof { lemma_ipv6_prefix_full(self.0@); }
        s
    }
}

/// The text of the first `g` groups of an IPv6 address.
pub open spec fn ipv6_prefix(b: Seq<u8>, g: nat) -> Seq<char>
    decreases g,
{
    if g == 0 {
        Seq::empty()
    } else if g == 1 {
        hex_byte(b[0]) + hex_byte(b[1])
    } else {
        ipv6_prefix(b, (g - 1) as nat) + seq![':'] + hex_byte(b[2 * g - 2]) + hex_byte(b[2 * g - 1])
    }
}

proof fn lemma_ipv6_prefix_full(b: Seq<u8>)
    ensures
        ipv6_prefix(b, 8) == ipv6_text(b),
{
    reveal_with_fuel(ipv6_prefix, 9);
    assert(ipv6_prefix(b, 8) =~= ipv6_text(b));
}

/// A socket address.
#[derive(Clone, Copy, Debug)]
pub enum SocketAddr {
    V4(Ipv4Addr, u16),
    V6(Ipv6Addr, u16),
}

impl SocketAddr {
    /// The port of either family.
    pub fn port(&self) -> (p: u16)
        ensures
            p == match self {
                SocketAddr::V4(_, q) => *q,
                SocketAddr::V6(_, q) => *q,
            },
    {
        match self {
            SocketAddr::V4(_, p) => *p,
            SocketAddr::V6(_, p) => *p,
        }
    }

    /// Same family, same address bytes and same port.
    pub fn same(&self, other: &SocketAddr) -> (b: bool)
        ensures
            b == socket_addr_eq(*self, *other),
    {
        match self {
            SocketAddr::V4(a, p) => match other {
                SocketAddr::V4(c, q) => *p == *q && a.same(c),
                _ => false,
            },
            SocketAddr::V6(a, p) => match other {
                SocketAddr::V6(c, q) => {
                    if *p != *q {
                        return false;
                    }
                    let mut i: usize = 0;
                    while i < 16
                        invariant
                            i <= 16,
                            socket_addr_eq(*self, *other) == (a.0@ == c.0@),
                            forall|j: int| 0 <= j < i ==> a.0@[j] == c.0@[j],
                        decreases 16 - i,
                    {
                        if a.0[i] != c.0[i] {
                            assert(a.0@[i as int] != c.0@[i as int]);
                            return false;
                        }
                        i = i + 1;
                    }
                    assert(a.0@ =~= c.0@);
                    true
                },
                _ => false,
            },
        }
    }
}

/// Equality of socket addresses by their bytes and ports.
pub open spec fn socket_addr_eq(x: SocketAddr, y: SocketAddr) -> bool {
    match (x, y) {
        (SocketAddr::V4(a, p), SocketAddr::V4(c, q)) => p == q && a.0@ == c.0@,
        (SocketAddr::V6(a, p), SocketAddr::V6(c, q)) => p == q && a.0@ == c.0@,
        _ => false,
    }
}

/// A transport protocol.
#[derive(Clone, Copy, Debug)]
pub enum Protocol {
    TCP,
    UDP,
    ICMP,
    ICMPv6,
    Raw(u8),
}

/// One network interface and its counters.
#[derive(Clone, Debug)]
pub struct NetworkInterface {
    pub name: String,
    pub mac: MacAddr,
    pub ipv4: Option<Ipv4Addr>,
    pub ipv6: Option<Ipv6Addr>,
    pub netmask: Ipv4Addr,
    pub gateway: Option<Ipv4Addr>,
    pub dns: Vec<Ipv4Addr>,
    pub mtu: u32,
    pub link_up: bool,
    pub rx_bytes: u64,
    pub tx_bytes: u64,
    pub rx_packets: u64,
    pub tx_packets: u64,
    pub rx_errors: u64,
    pub tx_errors: u64,
}

impl NetworkInterface {
    /// A down interface with no address, a /24 mask, MTU 1500 and zero counters.
    pub fn new(name: &str, mac: MacAddr) -> (i: NetworkInterface)
        ensures
            i.name@ == name@,
            i.mac == mac,
            i.ipv4.is_none(),
            i.ipv6.is_none(),
            i.netmask.0@ == seq![255u8, 255, 255, 0],
            i.gateway.is_none(),
            i.dns@.len() == 0,
            i.mtu == 1500,
            !i.link_up,
            i.rx_bytes == 0 && i.tx_bytes == 0 && i.rx_packets == 0 && i.tx_packets == 0,
            i.rx_errors == 0 && i.tx_errors == 0,
    {
        let nm = Ipv4Addr([255u8, 255, 255, 0]);
        assert(nm.0@ =~= seq![255u8, 255, 255, 0]);
        NetworkInterface {
            name: String::from_str(name),
            mac,
            ipv4: None,
            ipv6: None,
            netmask: nm,
            gateway: None,
            dns: Vec::new(),
            mtu: 1500,
            link_up: false,
            rx_bytes: 0,
            tx_bytes: 0,
            rx_packets: 0,
            tx_packets: 0,
            rx_errors: 0,
            tx_errors: 0,
        }
    }
}

/// Whether an interface can carry traffic to other hosts: link up and a non-loopback IPv4.
pub open spec fn routable(i: NetworkInterface) -> bool {
    i.link_up && i.ipv4.is_some() && i.ipv4.unwrap().0@[0] != 127
}

/// The IPv4 address of the first routable interface.
pub open spec fn primary_ip_of(ifs: Seq<NetworkInterface>) -> Option<Ipv4Addr>
    decreases ifs.len(),
{
    if ifs.len() == 0 {
        None
    } else if routable(ifs[0]) {
        ifs[0].ipv4
    } else {
        primary_ip_of(ifs.drop_first())
    }
}

/// The sum of one counter over the interfaces.
pub open spec fn sum_rx(ifs: Seq<NetworkInterface>) -> int
    decreases ifs.len(),
{
    if ifs.len() == 0 { 0 } else { sum_rx(ifs.drop_last()) + ifs.last().rx_bytes }
}

/// The sum of one counter over the interfaces.
pub open spec fn sum_tx(ifs: Seq<NetworkInterface>) -> int
    decreases ifs.len(),
{
    if ifs.len() == 0 { 0 } else { sum_tx(ifs.drop_last()) + ifs.last().tx_bytes }
}

/// The number of interfaces whose link is up.
pub open spec fn count_up(ifs: Seq<NetworkInterface>) -> nat
    decreases ifs.len(),
{
    if ifs.len() == 0 { 0 } else { count_up(ifs.drop_last()) + if ifs.last().link_up { 1nat } else { 0 } }
}

/// The interfaces of the node and its host name.
pub struct NetworkStack {
    pub initialized: bool,
    pub interfaces: Vec<NetworkInterface>,
    pub hostname: String,
}

/// Summary of the network stack.
#[derive(Clone, Debug)]
pub struct NetStats {
    pub initialized: bool,
    pub interfaces: usize,
    pub link_up: usize,
    pub primary_ip: Option<String>,
    pub hostname: String,
    pub total_rx_bytes: u64,
    pub total_tx_bytes: u64,
}

impl NetworkStack {
    /// An empty, uninitialized stack.
    pub fn new() -> (s: NetworkStack)
        ensures
            !s.initialized,
            s.interfaces@.len() == 0,
            s.hostname@.len() == 0,
    {
        NetworkStack { initialized: false, interfaces: Vec::new(), hostname: String::new() }
    }

    /// Adds the loopback interface and eth0 (10.0.0.15 on the QEMU network, two DNS servers),
    /// names the host and marks the stack initialized.
    pub fn init(&mut self)
        ensures
            final(self).initialized,
            final(self).interfaces@.len() == old(self).interfaces@.len() + 2,
            final(self).interfaces@.subrange(0, old(self).interfaces@.len() as int)
                == old(self).interfaces@,
            ({
                let n = old(self).interfaces@.len() as int;
                let lo = final(self).interfaces@[n];
                let eth = final(self).interfaces@[n + 1];
                &&& lo.name@ == "lo"@ && lo.ipv4 == Some(Ipv4Addr([127u8, 0, 0, 1])) && lo.link_up
                    && lo.mtu == 65536
                &&& eth.name@ == "eth0"@ && eth.mac.0@ == seq![0x52u8, 0x54, 0x00, 0x12, 0x34, 0x56]
                &&& eth.ipv4.is_some() && eth.ipv4.unwrap().0@ == seq![10u8, 0, 2, 15]
                &&& eth.gateway.is_some() && eth.gateway.unwrap().0@ == seq![10u8, 0, 2, 2]
                &&& eth.dns@.len() == 2 && eth.dns@[0].0@ == seq![8u8, 8, 8, 8] && eth.dns@[1].0@
                    == seq![1u8, 1, 1, 1]
                &&& eth.link_up && eth.mtu == 1500
            }),
            final(self).hostname@ == "socd-node"@,
    {
        let mut lo = NetworkInterface::new("lo", MacAddr::zero());
        lo.ipv4 = Some(Ipv4Addr([127u8, 0, 0, 1]));
        lo.link_up = true;
        lo.mtu = 65536;
        self.interfaces.push(lo);
        let mut eth0 = NetworkInterface::new("eth0", MacAddr([0x52u8, 0x54, 0x00, 0x12, 0x34, 0x56]));
        eth0.mtu = 1500;
        eth0.ipv4 = Some(Ipv4Addr([10u8, 0, 2, 15]));
        eth0.gateway = Some(Ipv4Addr([10u8, 0, 2, 2]));
        eth0.dns.push(Ipv4Addr([8u8, 8, 8, 8]));
        eth0.dns.push(Ipv4Addr([1u8, 1, 1, 1]));
        eth0.link_up = true;
        self.interfaces.push(eth0);
        self.hostname = String::from_str("socd-node");
        self.initialized = true;
        proof {
            let n = old(self).interfaces@.len() as int;
            assert(self.interfaces@.subrange(0, n) =~= old(self).interfaces@);
            assert(self.interfaces@[n + 1].mac.0@ =~= seq![0x52u8, 0x54, 0x00, 0x12, 0x34, 0x56]);
            assert(self.interfaces@[n + 1].ipv4.unwrap().0@ =~= seq![10u8, 0, 2, 15]);
            assert(self.interfaces@[n + 1].gateway.unwrap().0@ =~= seq![10u8, 0, 2, 2]);
            assert(self.interfaces@[n + 1].dns@[0].0@ =~= seq![8u8, 8, 8, 8]);
            assert(self.interfaces@[n + 1].dns@[1].0@ =~= seq![1u8, 1, 1, 1]);
        }
    }

    /// The first interface with the given name.
    pub fn get_interface(&self, name: &str) -> (r: Option<&NetworkInterface>)
        ensures
            match r {
                Some(i) => exists|k: int|
                    0 <= k < self.interfaces@.len() && self.interfaces@[k] == *i && i.name@ == name@
                        && forall|j: int| 0 <= j < k ==> self.interfaces@[j].name@ != name@,
                None => forall|j: int| 0 <= j < self.interfaces@.len() ==> self.interfaces@[j].name@ != name@,
            },
    {
        let key = String::from_str(name);
        let mut k: usize = 0;
        while k < self.interfaces.len()
            invariant
                k <= self.interfaces@.len(),
                key@ == name@,
                forall|j: int| 0 <= j < k ==> self.interfaces@[j].name@ != name@,
            decreases self.interfaces@.len() - k,
        {
            if self.interfaces[k].name == key {
                return Some(&self.interfaces[k]);
            }
            k = k + 1;
        }
        None
    }

    /// The IPv4 address of the first interface that is up and not loopback.
    pub fn primary_ip(&self) -> (r: Option<Ipv4Addr>)
        ensures
            r == primary_ip_of(self.interfaces@),
    {
        let mut k: usize = 0;
        assert(self.interfaces@.subrange(0, self.interfaces@.len() as int) =~= self.interfaces@);
        while k < self.interfaces.len()
            invariant
                k <= self.interfaces@.len(),
                primary_ip_of(self.interfaces@) == primary_ip_of(self.interfaces@.subrange(k as int, self.interfaces@.len() as int)),
            decreases self.interfaces@.len() - k,
        {
            let i = &self.interfaces[k];
            let ghost rest = self.interfaces@.subrange(k as int, self.interfaces@.len() as int);
            assert(rest[0] == self.interfaces@[k as int]);
            assert(rest.drop_first() =~= self.interfaces@.subrange(k + 1, self.interfaces@.len() as int));
            match i.ipv4 {
                Some(ip) => {
                    if i.link_up && !ip.is_loopback() {
                        return Some(ip);
                    }
                },
                None => {},
            }
            k = k + 1;
        }
        None
    }

    /// Counts, totals and the primary address as text.
    pub fn get_stats(&self) -> (st: NetStats)
        requires
            sum_rx(self.interfaces@) <= u64::MAX,
            sum_tx(self.interfaces@) <= u64::MAX,
        ensures
            st.initialized == self.initialized,
            st.interfaces == self.interfaces@.len(),
            st.link_up == count_up(self.interfaces@),
            st.hostname@ == self.hostname@,
            st.total_rx_bytes == sum_rx(self.interfaces@),
            st.total_tx_bytes == sum_tx(self.interfaces@),
            match primary_ip_of(self.interfaces@) {
                Some(ip) => st.primary_ip.is_some() && st.primary_ip.unwrap()@ == ipv4_text(ip.0@),
                None => st.primary_ip.is_none(),
            },
    {
        let mut rx: u64 = 0;
        let mut tx: u64 = 0;
        let mut up: usize = 0;
        let mut k: usize = 0;
        while k < self.interfaces.len()
            invariant
                k <= self.interfaces@.len(),
                sum_rx(self.interfaces@) <= u64::MAX,
                sum_tx(self.interfaces@) <= u64::MAX,
                rx == sum_rx(self.interfaces@.subrange(0, k as int)),
                tx == sum_tx(self.interfaces@.subrange(0, k as int)),
                up == count_up(self.interfaces@.subrange(0, k as int)),
            decreases self.interfaces@.len() - k,
        {
            let ghost s = self.interfaces@.subrange(0, k + 1);
            assert(s.drop_last() =~= self.interfaces@.subrange(0, k as int));
            proof {
                lemma_sum_prefix_le(self.interfaces@, k + 1);
            }
            rx = rx + self.interfaces[k].rx_bytes;
            tx = tx + self.interfaces[k].tx_bytes;
            if self.interfaces[k].link_up {
                up = up + 1;
            }
            k = k + 1;
        }
        assert(self.interfaces@.subrange(0, self.interfaces@.len() as int) =~= self.interfaces@);
        let pip = match self.primary_ip() {
            Some(ip) => Some(ip.to_string()),
            None => None,
        };
        NetStats {
            initialized: self.initialized,
            interfaces: self.interfaces.len(),
            link_up: up,
            primary_ip: pip,
            hostname: self.hostname.clone(),
            total_rx_bytes: rx,
            total_tx_bytes: tx,
        }
    }
}

/// Sums over a prefix do not exceed the sums over the whole.
proof fn lemma_sum_prefix_le(s: Seq<NetworkInterface>, k: int)
    requires
        0 <= k <= s.len(),
    ensures
        sum_rx(s.subrange(0, k)) <= sum_rx(s),
        sum_tx(s.subrange(0, k)) <= sum_tx(s),
        count_up(s.subrange(0, k)) <= s.len(),
    decreases s.len(),
{
    if k == s.len() {
        assert(s.subrange(0, k) =~= s);
        lemma_count_up_le(s);
    } else {
        assert(s.drop_last().subrange(0, k) =~= s.subrange(0, k));
        lemma_sum_prefix_le(s.drop_last(), k);
    }
}

proof fn lemma_count_up_le(s: Seq<NetworkInterface>)
    ensures
        count_up(s) <= s.len(),
    decreases s.len(),
{
    if s.len() > 0 {
        lemma_count_up_le(s.drop_last());
    }
}

/// The first routable IPv4 address of the stack (see `primary_ip_of`).
pub fn get_primary_ip(stack: &NetworkStack) -> (r: Option<Ipv4Addr>)
    ensures
        r == primary_ip_of(stack.interfaces@),
{
    stack.primary_ip()
}

} // verus!
