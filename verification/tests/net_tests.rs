use socd::net::{MacAddr, Ipv4Addr};
use socd::ethernet::{EthernetFrame, Ipv4Packet, UdpPacket, ArpTable, internet_checksum, ETH_TYPE_IPV4, IP_PROTO_UDP, TcpSegment};
use socd::transport::{ipv4_from_str, wire_datagram, extract_datagram, P2P_UDP_PORT};
use socd::peer::PeerTable;
use socd::virtio::{Virtqueue, VirtqUsedElem, VirtioNetDriver, QUEUE_SIZE};
use socd::virtio_real::{PciDevice, find_virtio_net, rx_payload_len, VirtioNetReal};

#[test]
fn mac_text_is_lower_hex_with_colons() {
    let m = MacAddr([0x52, 0x54, 0x00, 0x12, 0xab, 0xff]);
    assert_eq!(m.to_string(), "52:54:00:12:ab:ff");
}

#[test]
fn ipv4_text_and_value() {
    let a = Ipv4Addr([10, 0, 2, 15]);
    assert_eq!(a.to_string(), "10.0.2.15");
    assert_eq!(a.to_u32(), 0x0A00020F);
    assert_eq!(Ipv4Addr::from_u32(0xC0A80001).0, [192, 168, 0, 1]);
}

#[test]
fn ipv4_from_text() {
    assert_eq!(ipv4_from_str("192.168.1.20").map(|a| a.0), Some([192, 168, 1, 20]));
    assert!(ipv4_from_str("256.1.1.1").is_none());
    assert!(ipv4_from_str("1.2.3").is_none());
    assert!(ipv4_from_str("a.b.c.d").is_none());
}

#[test]
fn ethernet_frame_roundtrip() {
    let f = EthernetFrame::new(MacAddr([1, 2, 3, 4, 5, 6]), MacAddr([7, 8, 9, 10, 11, 12]), ETH_TYPE_IPV4, vec![0xde, 0xad]);
    let b = f.serialize();
    assert_eq!(b, vec![1, 2, 3, 4, 5, 6, 7, 8, 9, 10, 11, 12, 0x08, 0x00, 0xde, 0xad]);
    let g = EthernetFrame::parse(&b).unwrap();
    assert_eq!(g.dst.0, [1, 2, 3, 4, 5, 6]);
    assert_eq!(g.src.0, [7, 8, 9, 10, 11, 12]);
    assert_eq!(g.ethertype, ETH_TYPE_IPV4);
    assert_eq!(g.payload, vec![0xde, 0xad]);
    assert!(EthernetFrame::parse(&b[..13]).is_none());
}

#[test]
fn udp_roundtrip_and_length() {
    let u = UdpPacket::new(5353, 7700, vec![1, 2, 3]);
    assert_eq!(u.length, 11);
    let b = u.serialize();
    assert_eq!(b, vec![0x14, 0xe9, 0x1e, 0x14, 0, 11, 0, 0, 1, 2, 3]);
    let v = UdpPacket::parse(&b).unwrap();
    assert_eq!((v.src_port, v.dst_port, v.length), (5353, 7700, 11));
    assert_eq!(v.payload, vec![1, 2, 3]);
}

#[test]
fn checksum_of_known_header() {
    // The example header of RFC 1071 style computations: a zero checksum field.
    let hdr = [0x45u8, 0x00, 0x00, 0x73, 0x00, 0x00, 0x40, 0x00, 0x40, 0x11, 0x00, 0x00, 0xc0, 0xa8, 0x00, 0x01, 0xc0, 0xa8, 0x00, 0xc7];
    assert_eq!(internet_checksum(&hdr), 0xb861);
}

#[test]
fn ipv4_packet_has_valid_checksum() {
    let p = Ipv4Packet::new(Ipv4Addr([10, 0, 0, 1]), Ipv4Addr([10, 0, 0, 2]), IP_PROTO_UDP, vec![9; 4]);
    let b = p.serialize();
    assert_eq!(b.len(), 24);
    assert_eq!(internet_checksum(&b[..20]), 0);
    assert_eq!(b[6], 0x40);
    let q = Ipv4Packet::parse(&b).unwrap();
    assert_eq!((q.protocol, q.ttl, q.total_len), (IP_PROTO_UDP, 64, 24));
    assert_eq!(q.src.0, [10, 0, 0, 1]);
    assert_eq!(q.dst.0, [10, 0, 0, 2]);
    assert_eq!(q.payload, vec![9; 4]);
}

#[test]
fn arp_read_after_write() {
    let mut t = ArpTable::new();
    let ip = Ipv4Addr([10, 0, 2, 2]);
    assert!(t.lookup(&ip).is_none());
    t.insert(ip, MacAddr([0x52, 0x55, 10, 0, 2, 2]));
    assert_eq!(t.lookup(&ip).map(|m| m.0), Some([0x52, 0x55, 10, 0, 2, 2]));
}

#[test]
fn datagram_roundtrip_through_the_wire() {
    let mut peers = PeerTable::new();
    let id = [7u8; 32];
    peers.add_discovered(id, [8u8; 32], "peer", "10.0.2.16", P2P_UDP_PORT, false);
    let arp = ArpTable::new();
    let frame = wire_datagram(&peers, &arp, id, b"hello", &None, Some(Ipv4Addr([10, 0, 2, 15])),
        MacAddr([2, 0, 0, 0, 0, 1])).unwrap();
    assert_eq!(&frame[0..6], &[0xff; 6]);
    let (from, payload) = extract_datagram(&frame).unwrap();
    assert_eq!(from, [0u8; 32]);
    assert_eq!(payload, b"hello".to_vec());
}

#[test]
fn datagram_refused_without_peer_or_address() {
    let peers = PeerTable::new();
    let arp = ArpTable::new();
    assert!(wire_datagram(&peers, &arp, [1; 32], b"x", &None, Some(Ipv4Addr([10, 0, 2, 15])), MacAddr([0; 6])).is_none());
    let mut peers = PeerTable::new();
    peers.add_discovered([1; 32], [2; 32], "p", "10.0.2.16", 7700, false);
    assert!(wire_datagram(&peers, &arp, [1; 32], b"x", &None, None, MacAddr([0; 6])).is_none());
    assert!(extract_datagram(&[0u8; 10]).is_none());
}

#[test]
fn virtqueue_tx_places_buffer_in_slot() {
    let mut q = Virtqueue::new(4);
    assert_eq!(q.add_tx_buffer(vec![1, 2, 3]), Some(0));
    assert_eq!(q.add_tx_buffer(vec![4]), Some(1));
    assert_eq!(q.avail.idx, 2);
    assert_eq!(q.descs[1].len, 1);
    assert_eq!(q.buffers[0], vec![1, 2, 3]);
    assert_eq!(q.add_tx_buffer(vec![0; 65537]), None);
    assert_eq!(q.avail.idx, 2);
}

#[test]
fn virtqueue_drain_hands_out_used_buffers_cut() {
    let mut q = Virtqueue::new(4);
    q.add_rx_buffer(8);
    q.add_rx_buffer(8);
    q.used.ring[0] = VirtqUsedElem { id: 1, len: 3 };
    q.used.ring[1] = VirtqUsedElem { id: 1, len: 5 };
    q.used.idx = 2;
    let got = q.drain_used();
    assert_eq!(got, vec![vec![0u8; 3]]);
    assert_eq!(q.last_used, 2);
    assert!(q.buffers[1].is_empty());
    assert_eq!(q.buffers[0].len(), 8);
}

#[test]
fn driver_transmit_and_receive() {
    let mut d = VirtioNetDriver::new();
    assert!(!d.transmit(vec![1, 2, 3]));
    assert_eq!(d.tx_dropped, 1);
    d.init();
    assert!(d.link_up);
    assert_eq!(d.rxq.avail.idx, QUEUE_SIZE / 2);
    assert!(d.transmit(vec![1, 2, 3]));
    assert_eq!(d.tx_packets, 1);
    assert_eq!(d.tx_bytes, 15);
    assert_eq!(d.txq.buffers[0], vec![0, 0, 0, 0, 0, 0, 0, 0, 0, 0, 0, 0, 1, 2, 3]);
    assert!(!d.transmit(vec![0; 1515]));
    d.rxq.buffers[0] = (0u8..20).collect();
    d.rxq.used.ring[0] = VirtqUsedElem { id: 0, len: 16 };
    d.rxq.used.idx = 1;
    let frames = d.receive();
    assert_eq!(frames, vec![vec![12, 13, 14, 15]]);
    assert_eq!(d.rx_packets, 1);
    assert_eq!(d.rx_bytes, 4);
    assert_eq!(d.rxq.avail.idx, QUEUE_SIZE / 2 + 1);
}

#[test]
fn pci_io_base_and_search() {
    let dev = PciDevice { bus: 0, dev: 3, func: 0, vendor: 0x1AF4, device: 0x1000, class: 2, subclass: 0, bar0: 0xC041 };
    assert_eq!(dev.io_base(), Some(0xC040));
    let mem = PciDevice { bar0: 0xFEBF_0000, ..dev };
    assert_eq!(mem.io_base(), None);
    let other = PciDevice { vendor: 0x8086, device: 0x100E, ..dev };
    let found = find_virtio_net(&[other, dev, mem]).unwrap();
    assert_eq!(found.bar0, 0xC041);
    assert!(find_virtio_net(&[other]).is_none());
}

#[test]
fn rx_payload_lengths() {
    assert_eq!(rx_payload_len(0, 74), Some(64));
    assert_eq!(rx_payload_len(31, 5000), Some(2038));
    assert_eq!(rx_payload_len(32, 74), None);
    assert_eq!(rx_payload_len(0, 10), None);
}

#[test]
fn memory_driver_keeps_frames() {
    let mut d = VirtioNetReal::new();
    assert!(!d.transmit_real(vec![1]));
    assert_eq!(d.tx_dropped, 1);
    d.initialized = true;
    d.link_up = true;
    d.mac = [0x52, 0x54, 0, 0x12, 0x34, 0x56];
    assert_eq!(d.mac_string(), "52:54:00:12:34:56");
    assert!(d.transmit_real(vec![9, 9]));
    assert_eq!(d.tx_buffers[0].len(), 14);
    assert_eq!(d.tx_bytes, 2);
    d.inject_rx(vec![5, 6, 7]);
    assert_eq!(d.receive_real(), vec![vec![5, 6, 7]]);
    assert_eq!(d.rx_packets, 1);
    assert!(d.receive_real().is_empty());
}

#[test]
fn tcp_checksum_verifies_over_the_pseudo_header() {
    let src = Ipv4Addr([10, 0, 0, 1]);
    let dst = Ipv4Addr([10, 0, 0, 2]);
    let seg = TcpSegment::ack(40000, 80, 7, 9, b"GET / HTTP/1.0\r\n\r\n".to_vec());
    let wire = seg.serialize(Ipv4Addr(src.0), Ipv4Addr(dst.0));
    let mut pseudo = Vec::new();
    pseudo.extend_from_slice(&src.0);
    pseudo.extend_from_slice(&dst.0);
    pseudo.push(0);
    pseudo.push(6);
    pseudo.extend_from_slice(&(wire.len() as u16).to_be_bytes());
    pseudo.extend_from_slice(&wire);
    assert_eq!(internet_checksum(&pseudo), 0);
    assert_ne!(u16::from_be_bytes([wire[16], wire[17]]), 0);
}
