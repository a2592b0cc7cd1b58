//! The virtio-net driver over in-memory virtqueues: descriptor table,
//! available ring and used ring, and the driver that sends and receives
//! Ethernet frames through them.
use vstd::prelude::*;
use crate::net::MacAddr;
use crate::util::{zeros, push_all, tail_vec};

verus! {

/// Vendor id of virtio devices.
pub const VIRTIO_VENDOR_ID: u16 = 0x1AF4;
/// Device id of virtio-net.
pub const VIRTIO_NET_DEVICE_ID: u16 = 0x1000;
pub const VIRTIO_PCI_CAP_COMMON_CFG: u8 = 1;

pub const STATUS_RESET: u8 = 0x00;
pub const STATUS_ACKNOWLEDGE: u8 = 0x01;
pub const STATUS_DRIVER: u8 = 0x02;
pub const STATUS_DRIVER_OK: u8 = 0x04;
pub const STATUS_FEATURES_OK: u8 = 0x08;
pub const STATUS_FAILED: u8 = 0x80;

pub const VIRTIO_NET_F_CSUM: u32 = 1;
pub const VIRTIO_NET_F_GUEST_CSUM: u32 = 2;
pub const VIRTIO_NET_F_MAC: u32 = 32;
pub const VIRTIO_NET_F_STATUS: u32 = 65536;
pub const VIRTIO_NET_F_MRG_RXBUF: u32 = 32768;

/// The descriptor continues in `next`.
pub const VIRTQ_DESC_F_NEXT: u16 = 1;
/// The device writes the buffer (receive).
pub const VIRTQ_DESC_F_WRITE: u16 = 2;
/// The buffer holds a table of descriptors.
pub const VIRTQ_DESC_F_INDIRECT: u16 = 4;

/// Bytes of the header in front of every frame.
pub const NET_HEADER_LEN: usize = 12;
/// Slots of each queue of the driver.
pub const QUEUE_SIZE: u16 = 256;
/// The largest Ethernet frame the driver sends.
pub const MAX_FRAME: usize = 1514;

/// One descriptor. The buffer address is not recorded: buffers are found by
/// the slot they share with their descriptor.
#[derive(Debug, Clone, Copy, PartialEq, Eq, Structural)]
pub struct VirtqDesc {
    pub addr: u64,
    pub len: u32,
    pub flags: u16,
    pub next: u16,
}

impl Default for VirtqDesc {
    fn default() -> (d: VirtqDesc)
        ensures
            d == (VirtqDesc { addr: 0, len: 0, flags: 0, next: 0 }),
    {
        VirtqDesc { addr: 0, len: 0, flags: 0, next: 0 }
    }
}

/// The available ring (driver to device).
#[derive(Debug, Clone)]
pub struct VirtqAvail {
    pub flags: u16,
    pub idx: u16,
    pub ring: Vec<u16>,
}

/// One element of the used ring: the descriptor and how many bytes the device wrote.
#[derive(Debug, Clone, Copy, PartialEq, Eq, Structural)]
pub struct VirtqUsedElem {
    pub id: u32,
    pub len: u32,
}

impl Default for VirtqUsedElem {
    fn default() -> (e: VirtqUsedElem)
        ensures
            e == (VirtqUsedElem { id: 0, len: 0 }),
    {
        VirtqUsedElem { id: 0, len: 0 }
    }
}

/// The used ring (device to driver).
#[derive(Debug, Clone)]
pub struct VirtqUsed {
    pub flags: u16,
    pub idx: u16,
    pub ring: Vec<VirtqUsedElem>,
}

/// A virtqueue: descriptors, both rings, and the buffer of each slot.
pub struct Virtqueue {
    pub size: u16,
    pub descs: Vec<VirtqDesc>,
    pub avail: VirtqAvail,
    pub used: VirtqUsed,
    pub last_used: u16,
    pub buffers: Vec<Vec<u8>>,
}

/// The ring index after `i`, wrapping at 2^16.
pub open spec fn next_idx(i: u16) -> u16 {
    if i == u16::MAX { 0 } else { (i + 1) as u16 }
}

fn inc16(i: u16) -> (r: u16)
    ensures
        r == next_idx(i),
{
    if i == u16::MAX { 0 } else { i + 1 }
}

/// The plain bytes of each buffer.
pub open spec fn bufs_view(b: Seq<Vec<u8>>) -> Seq<Seq<u8>> {
    b.map_values(|v: Vec<u8>| v@)
}

/// `b` cut to at most `len` bytes.
pub open spec fn cut(b: Seq<u8>, len: u32) -> Seq<u8> {
    if len <= b.len() { b.subrange(0, len as int) } else { b }
}

/// Draining `n` used elements from position `pos` on: each names a slot whose
/// buffer, if not empty, is handed out cut to the length the device wrote and
/// left empty. Gives the buffers left and the frames handed out.
pub open spec fn drain_from(bufs: Seq<Seq<u8>>, out: Seq<Seq<u8>>, ring: Seq<VirtqUsedElem>, size: u16,
    pos: u16, n: nat) -> (Seq<Seq<u8>>, Seq<Seq<u8>>)
    decreases n,
{
    if n == 0 || size == 0 {
        (bufs, out)
    } else {
        let e = ring[(pos % size) as int];
        let idx = (e.id % (size as u32)) as int;
        if bufs[idx].len() > 0 {
            drain_from(bufs.update(idx, Seq::empty()), out.push(cut(bufs[idx], e.len)), ring, size,
                next_idx(pos), (n - 1) as nat)
        } else {
            drain_from(bufs, out, ring, size, next_idx(pos), (n - 1) as nat)
        }
    }
}

/// How many used elements lie between `from` and `to`.
pub open spec fn pending(from: u16, to: u16) -> nat {
    if to >= from { (to - from) as nat } else { (to + 65536 - from) as nat }
}

impl Virtqueue {
    /// Every table has one entry per slot, and there is at least one slot.
    pub open spec fn wf(&self) -> bool {
        &&& self.size > 0
        &&& self.descs@.len() == self.size
        &&& self.avail.ring@.len() == self.size
        &&& self.used.ring@.len() == self.size
        &&& self.buffers@.len() == self.size
    }

    /// An empty queue of `size` slots.
    pub fn new(size: u16) -> (q: Virtqueue)
        ensures
            q.size == size,
            q.descs@ == Seq::new(size as nat, |i: int| VirtqDesc { addr: 0, len: 0, flags: 0, next: 0 }),
            q.avail.flags == 0 && q.avail.idx == 0,
            q.avail.ring@ == Seq::new(size as nat, |i: int| 0u16),
            q.used.flags == 0 && q.used.idx == 0,
            q.used.ring@ == Seq::new(size as nat, |i: int| VirtqUsedElem { id: 0, len: 0 }),
            q.last_used == 0,
            bufs_view(q.buffers@) == Seq::new(size as nat, |i: int| Seq::<u8>::empty()),
            q.buffers@.len() == size,
    {
        let sz = size as usize;
        let mut descs: Vec<VirtqDesc> = Vec::new();
        let mut ring: Vec<u16> = Vec::new();
        let mut used: Vec<VirtqUsedElem> = Vec::new();
        let mut buffers: Vec<Vec<u8>> = Vec::new();
        let mut i: usize = 0;
        while i < sz
            invariant
                i <= sz,
                sz == size,
                descs@ == Seq::new(i as nat, |k: int| VirtqDesc { addr: 0, len: 0, flags: 0, next: 0 }),
                ring@ == Seq::new(i as nat, |k: int| 0u16),
                used@ == Seq::new(i as nat, |k: int| VirtqUsedElem { id: 0, len: 0 }),
                bufs_view(buffers@) == Seq::new(i as nat, |k: int| Seq::<u8>::empty()),
                buffers@.len() == i,
            decreases sz - i,
        {
            descs.push(VirtqDesc::default());
            ring.push(0);
            used.push(VirtqUsedElem::default());
            let ghost prev = bufs_view(buffers@);
            let e: Vec<u8> = Vec::new();
            assert(e@ =~= Seq::<u8>::empty());
            buffers.push(e);
            assert(bufs_view(buffers@) =~= prev.push(Seq::<u8>::empty()));
            i = i + 1;
            assert(descs@ =~= Seq::new(i as nat, |k: int| VirtqDesc { addr: 0, len: 0, flags: 0, next: 0 }));
            assert(ring@ =~= Seq::new(i as nat, |k: int| 0u16));
            assert(used@ =~= Seq::new(i as nat, |k: int| VirtqUsedElem { id: 0, len: 0 }));
            assert(bufs_view(buffers@) =~= Seq::new(i as nat, |k: int| Seq::<u8>::empty()));
        }
        Virtqueue {
            size,
            descs,
            avail: VirtqAvail { flags: 0, idx: 0, ring },
            used: VirtqUsed { flags: 0, idx: 0, ring: used },
            last_used: 0,
            buffers,
        }
    }

    /// Places `data` for sending in the slot the available index points at.
    /// Refused (`None`, nothing changed) above 65536 bytes.
    pub fn add_tx_buffer(&mut self, data: Vec<u8>) -> (r: Option<u16>)
        requires
            old(self).wf(),
        ensures
            final(self).wf(),
            ({
                let i = (old(self).avail.idx % old(self).size) as int;
                if data@.len() > 65536 {
                    r.is_none() && *final(self) == *old(self)
                } else {
                    &&& r == Some(i as u16)
                    &&& final(self).buffers@ == old(self).buffers@.update(i, data)
                    &&& final(self).descs@ == old(self).descs@.update(i,
                        VirtqDesc { addr: 0, len: data@.len() as u32, flags: 0, next: 0 })
                    &&& final(self).avail.ring@ == old(self).avail.ring@.update(i, i as u16)
                    &&& final(self).avail.idx == next_idx(old(self).avail.idx)
                    &&& final(self).avail.flags == old(self).avail.flags
                    &&& final(self).used == old(self).used
                    &&& final(self).last_used == old(self).last_used
                    &&& final(self).size == old(self).size
                }
            }),
    {
        let avail_idx = (self.avail.idx % self.size) as usize;
        if data.len() > 65536 {
            return None;
        }
        let len = data.len() as u32;
        self.buffers.set(avail_idx, data);
        self.descs.set(avail_idx, VirtqDesc { addr: 0, len, flags: 0, next: 0 });
        self.avail.ring.set(avail_idx, avail_idx as u16);
        self.avail.idx = inc16(self.avail.idx);
        Some(avail_idx as u16)
    }

    /// Places an empty buffer of `size` zero bytes for the device to fill.
    pub fn add_rx_buffer(&mut self, size: usize) -> (r: Option<u16>)
        requires
            old(self).wf(),
        ensures
            final(self).wf(),
            ({
                let i = (old(self).avail.idx % old(self).size) as int;
                &&& r == Some(i as u16)
                &&& bufs_view(final(self).buffers@) == bufs_view(old(self).buffers@).update(i,
                    Seq::new(size as nat, |k: int| 0u8))
                &&& final(self).descs@ == old(self).descs@.update(i,
                    VirtqDesc { addr: 0, len: (size as int % 0x1_0000_0000) as u32, flags: VIRTQ_DESC_F_WRITE, next: 0 })
                &&& final(self).avail.ring@ == old(self).avail.ring@.update(i, i as u16)
                &&& final(self).avail.idx == next_idx(old(self).avail.idx)
                &&& final(self).avail.flags == old(self).avail.flags
                &&& final(self).used == old(self).used
                &&& final(self).last_used == old(self).last_used
                &&& final(self).size == old(self).size
            }),
    {
        let avail_idx = (self.avail.idx % self.size) as usize;
        let buf = zeros(size);
        let ghost bv = buf@;
        self.buffers.set(avail_idx, buf);
        assert(bufs_view(self.buffers@) =~= bufs_view(old(self).buffers@).update(avail_idx as int, bv));
        let len = ((size as u64) % 0x1_0000_0000) as u32;
        self.descs.set(avail_idx, VirtqDesc { addr: 0, len, flags: VIRTQ_DESC_F_WRITE, next: 0 });
        self.avail.ring.set(avail_idx, avail_idx as u16);
        self.avail.idx = inc16(self.avail.idx);
        Some(avail_idx as u16)
    }

    /// Hands out the buffers the device has used since the last call, in the
    /// order of the used ring (see `drain_from`), and catches up with it.
    pub fn drain_used(&mut self) -> (received: Vec<Vec<u8>>)
        requires
            old(self).wf(),
        ensures
            final(self).wf(),
            ({
                let (bufs, out) = drain_from(bufs_view(old(self).buffers@), Seq::empty(), old(self).used.ring@,
                    old(self).size, old(self).last_used, pending(old(self).last_used, old(self).used.idx));
                &&& bufs_view(final(self).buffers@) == bufs
                &&& bufs_view(received@) == out
            }),
            final(self).last_used == old(self).used.idx,
            final(self).size == old(self).size,
            final(self).descs == old(self).descs,
            final(self).avail == old(self).avail,
            final(self).used == old(self).used,
    {
        let mut received: Vec<Vec<u8>> = Vec::new();
        let ghost target = drain_from(bufs_view(old(self).buffers@), Seq::empty(), old(self).used.ring@,
            old(self).size, old(self).last_used, pending(old(self).last_used, old(self).used.idx));
        assert(bufs_view(received@) =~= Seq::<Seq<u8>>::empty());
        while self.last_used != self.used.idx
            invariant
                self.wf(),
                self.size == old(self).size,
                self.descs == old(self).descs,
                self.avail == old(self).avail,
                self.used == old(self).used,
                target == drain_from(bufs_view(self.buffers@), bufs_view(received@), self.used.ring@, self.size,
                    self.last_used, pending(self.last_used, self.used.idx)),
            decreases pending(self.last_used, self.used.idx),
        {
            let slot = (self.last_used % self.size) as usize;
            let e = self.used.ring[slot];
            let idx = (e.id % (self.size as u32)) as usize;
            let len = e.len as usize;
            let ghost b0 = bufs_view(self.buffers@);
            let ghost r0 = bufs_view(received@);
            if self.buffers[idx].len() > 0 {
                let mut buf: Vec<u8> = Vec::new();
                self.buffers.set_and_swap(idx, &mut buf);
                buf.truncate(len);
                received.push(buf);
                assert(bufs_view(self.buffers@) =~= b0.update(idx as int, Seq::empty()));
                assert(bufs_view(received@) =~= r0.push(cut(b0[idx as int], e.len)));
            }
            self.last_used = inc16(self.last_used);
        }
        received
    }
}

/// The header in front of every frame on the wire of the device.
#[derive(Debug, Clone, Copy)]
pub struct VirtioNetHeader {
    pub flags: u8,
    pub gso_type: u8,
    pub hdr_len: u16,
    pub gso_size: u16,
    pub csum_start: u16,
    pub csum_offset: u16,
    pub num_buffers: u16,
}

impl Default for VirtioNetHeader {
    fn default() -> (h: VirtioNetHeader)
        ensures
            h == (VirtioNetHeader { flags: 0, gso_type: 0, hdr_len: 0, gso_size: 0, csum_start: 0,
                csum_offset: 0, num_buffers: 0 }),
    {
        VirtioNetHeader { flags: 0, gso_type: 0, hdr_len: 0, gso_size: 0, csum_start: 0, csum_offset: 0,
            num_buffers: 0 }
    }
}

/// The parts of a queue that adding a buffer changes.
pub open spec fn ring_view(q: Virtqueue) -> (Seq<VirtqDesc>, Seq<u16>, Seq<Seq<u8>>, u16) {
    (q.descs@, q.avail.ring@, bufs_view(q.buffers@), q.avail.idx)
}

/// Those parts after adding `n` receive buffers of `len` zero bytes.
pub open spec fn rx_add_n(r: (Seq<VirtqDesc>, Seq<u16>, Seq<Seq<u8>>, u16), size: u16, n: nat, len: usize)
    -> (Seq<VirtqDesc>, Seq<u16>, Seq<Seq<u8>>, u16)
    decreases n,
{
    if n == 0 || size == 0 {
        r
    } else {
        let i = (r.3 % size) as int;
        rx_add_n((
            r.0.update(i, VirtqDesc { addr: 0, len: (len as int % 0x1_0000_0000) as u32, flags: VIRTQ_DESC_F_WRITE, next: 0 }),
            r.1.update(i, i as u16),
            r.2.update(i, Seq::new(len as nat, |k: int| 0u8)),
            next_idx(r.3),
        ), size, (n - 1) as nat, len)
    }
}

/// `a + b` wrapping at 2^64.
pub open spec fn wadd(a: u64, b: u64) -> u64 {
    ((a + b) % 0x1_0000_0000_0000_0000) as u64
}

fn add_wrap(a: u64, b: u64) -> (r: u64)
    ensures
        r == wadd(a, b),
{
    if a <= u64::MAX - b { a + b } else { b - (u64::MAX - a) - 1 }
}

/// The frames handed to the stack: the used buffers longer than the header,
/// with the header taken off.
pub open spec fn strip_headers(raw: Seq<Seq<u8>>) -> Seq<Seq<u8>>
    decreases raw.len(),
{
    if raw.len() == 0 {
        Seq::empty()
    } else if raw.last().len() > NET_HEADER_LEN {
        strip_headers(raw.drop_last()).push(raw.last().subrange(NET_HEADER_LEN as int, raw.last().len() as int))
    } else {
        strip_headers(raw.drop_last())
    }
}

/// The bytes a list of frames adds to the receive count.
pub open spec fn payload_total(fs: Seq<Seq<u8>>) -> int
    decreases fs.len(),
{
    if fs.len() == 0 { 0 } else { payload_total(fs.drop_last()) + fs.last().len() }
}

/// The virtio-net driver.
pub struct VirtioNetDriver {
    pub initialized: bool,
    pub mac: MacAddr,
    pub link_up: bool,
    pub iobase: u16,
    pub txq: Virtqueue,
    pub rxq: Virtqueue,
    pub tx_packets: u64,
    pub rx_packets: u64,
    pub tx_bytes: u64,
    pub rx_bytes: u64,
    pub tx_dropped: u64,
}

impl VirtioNetDriver {
    /// Both queues are well formed.
    pub open spec fn wf(&self) -> bool {
        self.txq.wf() && self.rxq.wf()
    }

    /// A driver that is not yet up: MAC 52:54:00:12:34:56, I/O base 0xC000,
    /// two empty queues of `QUEUE_SIZE` slots, counters at 0.
    pub fn new() -> (d: VirtioNetDriver)
        ensures
            d.wf(),
            !d.initialized && !d.link_up,
            d.mac.0@ == seq![0x52u8, 0x54, 0x00, 0x12, 0x34, 0x56],
            d.iobase == 0xC000,
            d.txq.size == QUEUE_SIZE && d.rxq.size == QUEUE_SIZE,
            d.txq.avail.idx == 0 && d.rxq.avail.idx == 0,
            d.txq.used.idx == 0 && d.rxq.used.idx == 0,
            d.txq.last_used == 0 && d.rxq.last_used == 0,
            d.tx_packets == 0 && d.rx_packets == 0 && d.tx_bytes == 0 && d.rx_bytes == 0 && d.tx_dropped == 0,
    {
        VirtioNetDriver {
            initialized: false,
            mac: MacAddr([0x52, 0x54, 0x00, 0x12, 0x34, 0x56]),
            link_up: false,
            iobase: 0xC000,
            txq: Virtqueue::new(QUEUE_SIZE),
            rxq: Virtqueue::new(QUEUE_SIZE),
            tx_packets: 0,
            rx_packets: 0,
            tx_bytes: 0,
            rx_bytes: 0,
            tx_dropped: 0,
        }
    }

    fn add_rx_buffers(&mut self, n: usize)
        requires
            old(self).wf(),
        ensures
            final(self).wf(),
            ring_view(final(self).rxq) == rx_add_n(ring_view(old(self).rxq), old(self).rxq.size, n as nat, MAX_FRAME),
            final(self).rxq.size == old(self).rxq.size,
            final(self).rxq.used == old(self).rxq.used,
            final(self).rxq.last_used == old(self).rxq.last_used,
            final(self).rxq.avail.flags == old(self).rxq.avail.flags,
            final(self).txq == old(self).txq,
            final(self).initialized == old(self).initialized && final(self).link_up == old(self).link_up,
            final(self).mac == old(self).mac && final(self).iobase == old(self).iobase,
            final(self).tx_packets == old(self).tx_packets && final(self).rx_packets == old(self).rx_packets,
            final(self).tx_bytes == old(self).tx_bytes && final(self).rx_bytes == old(self).rx_bytes,
            final(self).tx_dropped == old(self).tx_dropped,
    {
        let mut k: usize = 0;
        while k < n
            invariant
                self.wf(),
                k <= n,
                self.rxq.size == old(self).rxq.size,
                self.rxq.used == old(self).rxq.used,
                self.rxq.last_used == old(self).rxq.last_used,
                self.rxq.avail.flags == old(self).rxq.avail.flags,
                self.txq == old(self).txq,
                self.initialized == old(self).initialized && self.link_up == old(self).link_up,
                self.mac == old(self).mac && self.iobase == old(self).iobase,
                self.tx_packets == old(self).tx_packets && self.rx_packets == old(self).rx_packets,
                self.tx_bytes == old(self).tx_bytes && self.rx_bytes == old(self).rx_bytes,
                self.tx_dropped == old(self).tx_dropped,
                rx_add_n(ring_view(old(self).rxq), old(self).rxq.size, n as nat, MAX_FRAME)
                    == rx_add_n(ring_view(self.rxq), self.rxq.size, (n - k) as nat, MAX_FRAME),
            decreases n - k,
        {
            let _ = self.rxq.add_rx_buffer(MAX_FRAME);
            k = k + 1;
        }
    }

    /// Brings the link up and gives the device half a queue of receive buffers.
    pub fn init(&mut self)
        requires
            old(self).wf(),
        ensures
            final(self).wf(),
            final(self).initialized && final(self).link_up,
            ring_view(final(self).rxq) == rx_add_n(ring_view(old(self).rxq), old(self).rxq.size,
                (QUEUE_SIZE / 2) as nat, MAX_FRAME),
            final(self).rxq.size == old(self).rxq.size,
            final(self).rxq.used == old(self).rxq.used,
            final(self).rxq.last_used == old(self).rxq.last_used,
            final(self).txq == old(self).txq,
            final(self).mac == old(self).mac && final(self).iobase == old(self).iobase,
            final(self).tx_packets == old(self).tx_packets && final(self).rx_packets == old(self).rx_packets,
            final(self).tx_bytes == old(self).tx_bytes && final(self).rx_bytes == old(self).rx_bytes,
            final(self).tx_dropped == old(self).tx_dropped,
    {
        self.link_up = true;
        self.initialized = true;
        self.add_rx_buffers((QUEUE_SIZE / 2) as usize);
    }

    /// Sends an Ethernet frame behind a zeroed header. Dropped (and counted)
    /// when the link is down or the frame is longer than `MAX_FRAME`.
    pub fn transmit(&mut self, frame: Vec<u8>) -> (sent: bool)
        requires
            old(self).wf(),
        ensures
            final(self).wf(),
            sent == (old(self).link_up && frame@.len() <= MAX_FRAME),
            sent ==> {
                let i = (old(self).txq.avail.idx % old(self).txq.size) as int;
                let data = Seq::new(NET_HEADER_LEN as nat, |k: int| 0u8) + frame@;
                &&& bufs_view(final(self).txq.buffers@) == bufs_view(old(self).txq.buffers@).update(i, data)
                &&& final(self).txq.descs@ == old(self).txq.descs@.update(i,
                    VirtqDesc { addr: 0, len: data.len() as u32, flags: 0, next: 0 })
                &&& final(self).txq.avail.ring@ == old(self).txq.avail.ring@.update(i, i as u16)
                &&& final(self).txq.avail.idx == next_idx(old(self).txq.avail.idx)
                &&& final(self).txq.size == old(self).txq.size
                &&& final(self).txq.used == old(self).txq.used
                &&& final(self).txq.last_used == old(self).txq.last_used
                &&& final(self).tx_packets == wadd(old(self).tx_packets, 1)
                &&& final(self).tx_bytes == wadd(old(self).tx_bytes, data.len() as u64)
                &&& final(self).tx_dropped == old(self).tx_dropped
            },
            !sent ==> final(self).txq == old(self).txq && final(self).tx_dropped == wadd(old(self).tx_dropped, 1)
                && final(self).tx_packets == old(self).tx_packets && final(self).tx_bytes == old(self).tx_bytes,
            final(self).rxq == old(self).rxq,
            final(self).rx_packets == old(self).rx_packets && final(self).rx_bytes == old(self).rx_bytes,
            final(self).link_up == old(self).link_up && final(self).initialized == old(self).initialized,
            final(self).mac == old(self).mac && final(self).iobase == old(self).iobase,
    {
        if !self.link_up || frame.len() > MAX_FRAME {
            self.tx_dropped = add_wrap(self.tx_dropped, 1);
            return false;
        }
        let mut buf = zeros(NET_HEADER_LEN);
        push_all(&mut buf, frame.as_slice());
        let len = buf.len() as u64;
        let ghost bv = buf@;
        match self.txq.add_tx_buffer(buf) {
            Some(_) => {
                assert(bufs_view(self.txq.buffers@) =~= bufs_view(old(self).txq.buffers@).update(
                    (old(self).txq.avail.idx % old(self).txq.size) as int, bv));
                self.tx_packets = add_wrap(self.tx_packets, 1);
                self.tx_bytes = add_wrap(self.tx_bytes, len);
                true
            },
            None => {
                self.tx_dropped = add_wrap(self.tx_dropped, 1);
                false
            },
        }
    }

    /// The frames the device has delivered since the last call, headers taken
    /// off (see `strip_headers`); each delivered frame is counted and its
    /// receive buffer given back.
    pub fn receive(&mut self) -> (frames: Vec<Vec<u8>>)
        requires
            old(self).wf(),
        ensures
            final(self).wf(),
            ({
                let (bufs, raw) = drain_from(bufs_view(old(self).rxq.buffers@), Seq::empty(),
                    old(self).rxq.used.ring@, old(self).rxq.size, old(self).rxq.last_used,
                    pending(old(self).rxq.last_used, old(self).rxq.used.idx));
                &&& bufs_view(frames@) == strip_headers(raw)
                &&& ring_view(final(self).rxq) == rx_add_n((old(self).rxq.descs@, old(self).rxq.avail.ring@, bufs,
                    old(self).rxq.avail.idx), old(self).rxq.size, frames@.len(), MAX_FRAME)
                &&& final(self).rx_packets == wadd(old(self).rx_packets, frames@.len() as u64)
                &&& final(self).rx_bytes == ((old(self).rx_bytes + payload_total(strip_headers(raw)))
                    % 0x1_0000_0000_0000_0000) as u64
            }),
            final(self).rxq.size == old(self).rxq.size,
            final(self).rxq.last_used == old(self).rxq.used.idx,
            final(self).rxq.used == old(self).rxq.used,
            final(self).txq == old(self).txq,
            final(self).tx_packets == old(self).tx_packets && final(self).tx_bytes == old(self).tx_bytes,
            final(self).tx_dropped == old(self).tx_dropped,
            final(self).link_up == old(self).link_up && final(self).initialized == old(self).initialized,
            final(self).mac == old(self).mac && final(self).iobase == old(self).iobase,
    {
        let raw = self.rxq.drain_used();
        let ghost rv = bufs_view(raw@);
        let ghost q1 = self.rxq;
        let mut frames: Vec<Vec<u8>> = Vec::new();
        let mut i: usize = 0;
        assert(rv.take(0) =~= Seq::<Seq<u8>>::empty());
        assert(bufs_view(frames@) =~= Seq::<Seq<u8>>::empty());
        let ghost p0 = self.rx_packets;
        let ghost b0 = self.rx_bytes;
        while i < raw.len()
            invariant
                self.wf(),
                rv == bufs_view(raw@),
                i <= raw@.len(),
                bufs_view(frames@) == strip_headers(rv.take(i as int)),
                self.rx_packets == wadd(p0, frames@.len() as u64),
                self.rx_bytes == ((b0 + payload_total(strip_headers(rv.take(i as int)))) % 0x1_0000_0000_0000_0000) as u64,
                frames@.len() <= i,
                self.rxq == q1,
                self.txq == old(self).txq,
                self.tx_packets == old(self).tx_packets && self.tx_bytes == old(self).tx_bytes,
                self.tx_dropped == old(self).tx_dropped,
                self.link_up == old(self).link_up && self.initialized == old(self).initialized,
                self.mac == old(self).mac && self.iobase == old(self).iobase,
            decreases raw@.len() - i,
        {
            assert(rv.take(i + 1).drop_last() =~= rv.take(i as int));
            assert(rv.take(i + 1).last() == raw@[i as int]@);
            if raw[i].len() > NET_HEADER_LEN {
                let f = tail_vec(raw[i].as_slice(), NET_HEADER_LEN);
                let ghost fv = f@;
                let ghost fs0 = bufs_view(frames@);
                let flen = f.len() as u64;
                frames.push(f);
                assert(bufs_view(frames@) =~= fs0.push(fv));
                let ghost tot = payload_total(strip_headers(rv.take(i as int)));
                proof {
                    vstd::arithmetic::div_mod::lemma_add_mod_noop(b0 + tot, flen as int, 0x1_0000_0000_0000_0000);
                    vstd::arithmetic::div_mod::lemma_add_mod_noop(self.rx_packets as int, 1, 0x1_0000_0000_0000_0000);
                    vstd::arithmetic::div_mod::lemma_add_mod_noop(p0 as int, fs0.len() as int, 0x1_0000_0000_0000_0000);
                    vstd::arithmetic::div_mod::lemma_add_mod_noop(p0 + fs0.len(), 1, 0x1_0000_0000_0000_0000);
                }
                self.rx_packets = add_wrap(self.rx_packets, 1);
                self.rx_bytes = add_wrap(self.rx_bytes, flen);
                assert(strip_headers(rv.take(i + 1)) == strip_headers(rv.take(i as int)).push(fv));
                assert(strip_headers(rv.take(i as int)).push(fv).drop_last() =~= strip_headers(rv.take(i as int)));
                assert(payload_total(strip_headers(rv.take(i + 1))) == tot + fv.len());
            }
            i = i + 1;
        }
        assert(rv.take(raw@.len() as int) =~= rv);
        self.add_rx_buffers(frames.len());
        frames
    }
}

/// Brings the driver up (see `VirtioNetDriver::init`).
pub fn init(d: &mut VirtioNetDriver)
    requires
        old(d).wf(),
    ensures
        final(d).wf(),
        final(d).initialized && final(d).link_up,
        ring_view(final(d).rxq) == rx_add_n(ring_view(old(d).rxq), old(d).rxq.size, (QUEUE_SIZE / 2) as nat, MAX_FRAME),
        final(d).txq == old(d).txq,
{
    d.init();
}

/// Sends a frame (see `VirtioNetDriver::transmit`).
pub fn transmit(d: &mut VirtioNetDriver, frame: Vec<u8>) -> (sent: bool)
    requires
        old(d).wf(),
    ensures
        final(d).wf(),
        sent == (old(d).link_up && frame@.len() <= MAX_FRAME),
        sent ==> final(d).tx_packets == wadd(old(d).tx_packets, 1),
        !sent ==> final(d).tx_dropped == wadd(old(d).tx_dropped, 1) && final(d).txq == old(d).txq,
{
    d.transmit(frame)
}

/// The frames received (see `VirtioNetDriver::receive`).
pub fn receive(d: &mut VirtioNetDriver) -> (frames: Vec<Vec<u8>>)
    requires
        old(d).wf(),
    ensures
        final(d).wf(),
        ({
            let (bufs, raw) = drain_from(bufs_view(old(d).rxq.buffers@), Seq::empty(), old(d).rxq.used.ring@,
                old(d).rxq.size, old(d).rxq.last_used, pending(old(d).rxq.last_used, old(d).rxq.used.idx));
            bufs_view(frames@) == strip_headers(raw)
        }),
{
    d.receive()
}

/// The MAC address of the device.
pub fn get_mac(d: &VirtioNetDriver) -> (m: MacAddr)
    ensures
        m == d.mac,
{
    d.mac
}

/// Whether the link is up.
pub fn is_up(d: &VirtioNetDriver) -> (up: bool)
    ensures
        up == d.link_up,
{
    d.link_up
}

/// Packets and bytes sent and received: (tx packets, rx packets, tx bytes, rx bytes).
pub fn get_stats(d: &VirtioNetDriver) -> (r: (u64, u64, u64, u64))
    ensures
        r == (d.tx_packets, d.rx_packets, d.tx_bytes, d.rx_bytes),
{
    (d.tx_packets, d.rx_packets, d.tx_bytes, d.rx_bytes)
}

} // verus!
