//! The bookkeeping of the PCI virtio-net driver: finding the device among
//! the PCI functions, its I/O base, and sending and receiving frames in the
//! mode where the frames stay in memory.
use vstd::prelude::*;
use crate::net::{MacAddr, mac_text};
use crate::util::{zeros, push_all};
use crate::virtio::wadd;

verus! {

pub const VIRTIO_VENDOR: u16 = 0x1AF4;
pub const VIRTIO_NET_DEV: u16 = 0x1000;
/// Receive and transmit packet buffers of the device rings.
pub const RING_BUFFERS: usize = 32;
/// Bytes of one packet buffer.
pub const PKT_BUF_SIZE: usize = 2048;
/// Bytes of the legacy header in front of a frame in a packet buffer.
pub const VNET_HDR_LEN: usize = 10;
/// Bytes of zeros in front of a frame kept in memory.
pub const SIM_HDR_LEN: usize = 12;

/// A function found on the PCI bus.
#[derive(Debug, Clone, Copy)]
pub struct PciDevice {
    pub bus: u8,
    pub dev: u8,
    pub func: u8,
    pub vendor: u16,
    pub device: u16,
    pub class: u8,
    pub subclass: u8,
    pub bar0: u32,
}

impl PciDevice {
    /// The I/O base address of an I/O BAR0 (bit 0 set): its low 16 bits
    /// without the two flag bits.
    pub fn io_base(&self) -> (r: Option<u16>)
        ensures
            r == (if self.bar0 & 1 != 0 { Some((self.bar0 & 0xFFFC) as u16) } else { None::<u16> }),
    {
        if self.bar0 & 0x1 != 0 {
            Some((self.bar0 & 0xFFFC) as u16)
        } else {
            None
        }
    }
}

/// Whether a function is a virtio-net device.
pub open spec fn is_virtio_net(d: PciDevice) -> bool {
    d.vendor == VIRTIO_VENDOR && d.device == VIRTIO_NET_DEV
}

/// The first virtio-net device among the functions found.
pub fn find_virtio_net(devices: &[PciDevice]) -> (r: Option<PciDevice>)
    ensures
        match r {
            Some(d) => exists|i: int| 0 <= i < devices@.len() && devices@[i] == d && is_virtio_net(d)
                && forall|j: int| 0 <= j < i ==> !is_virtio_net(#[trigger] devices@[j]),
            None => forall|j: int| 0 <= j < devices@.len() ==> !is_virtio_net(#[trigger] devices@[j]),
        },
{
    let mut i: usize = 0;
    while i < devices.len()
        invariant
            i <= devices@.len(),
            forall|j: int| 0 <= j < i ==> !is_virtio_net(#[trigger] devices@[j]),
        decreases devices@.len() - i,
    {
        let d = devices[i];
        if d.vendor == VIRTIO_VENDOR && d.device == VIRTIO_NET_DEV {
            assert(devices@[i as int] == d);
            return Some(d);
        }
        i = i + 1;
    }
    None
}

/// The bytes of a received device buffer to hand out: the payload after the
/// header, at most what a packet buffer holds; `None` for a descriptor
/// outside the pool or a length not past the header.
pub fn rx_payload_len(desc_id: u32, len: u32) -> (r: Option<usize>)
    ensures
        match r {
            Some(n) => desc_id < RING_BUFFERS && len > VNET_HDR_LEN
                && n == (if len - VNET_HDR_LEN <= PKT_BUF_SIZE - VNET_HDR_LEN { len - VNET_HDR_LEN }
                    else { PKT_BUF_SIZE - VNET_HDR_LEN }),
            None => !(desc_id < RING_BUFFERS && len > VNET_HDR_LEN),
        },
{
    if (desc_id as u64) < (RING_BUFFERS as u64) && (len as u64) > (VNET_HDR_LEN as u64) {
        let p = (len as u64) - (VNET_HDR_LEN as u64);
        let cap = (PKT_BUF_SIZE - VNET_HDR_LEN) as u64;
        Some(if p <= cap { p as usize } else { cap as usize })
    } else {
        None
    }
}

/// The sum of the lengths of `fs`.
pub open spec fn total_len(fs: Seq<Seq<u8>>) -> int
    decreases fs.len(),
{
    if fs.len() == 0 { 0 } else { total_len(fs.drop_last()) + fs.last().len() }
}

pub open spec fn frames_view(fs: Seq<Vec<u8>>) -> Seq<Seq<u8>> {
    fs.map_values(|f: Vec<u8>| f@)
}

/// The driver state. With `dma` off, sent frames are kept in `tx_buffers`
/// and received ones come from `rx_buffers`; with it on, the rings of the
/// device carry them and `tx_next` names the next transmit buffer.
pub struct VirtioNetReal {
    pub initialized: bool,
    pub iobase: u16,
    pub mac: [u8; 6],
    pub link_up: bool,
    pub dma: bool,
    pub rx_used_seen: u16,
    pub tx_next: u16,
    pub tx_buffers: Vec<Vec<u8>>,
    pub rx_buffers: Vec<Vec<u8>>,
    pub tx_packets: u64,
    pub rx_packets: u64,
    pub tx_bytes: u64,
    pub rx_bytes: u64,
    pub tx_dropped: u64,
}

fn add_wrap(a: u64, b: u64) -> (r: u64)
    ensures
        r == wadd(a, b),
{
    if a <= u64::MAX - b { a + b } else { b - (u64::MAX - a) - 1 }
}

impl VirtioNetReal {
    /// A driver that found no device yet.
    pub fn new() -> (d: VirtioNetReal)
        ensures
            !d.initialized && !d.link_up && !d.dma,
            d.iobase == 0 && d.mac@ == seq![0u8, 0, 0, 0, 0, 0],
            d.rx_used_seen == 0 && d.tx_next == 0,
            d.tx_buffers@.len() == 0 && d.rx_buffers@.len() == 0,
            d.tx_packets == 0 && d.rx_packets == 0 && d.tx_bytes == 0 && d.rx_bytes == 0 && d.tx_dropped == 0,
    {
        VirtioNetReal {
            initialized: false,
            iobase: 0,
            mac: [0, 0, 0, 0, 0, 0],
            link_up: false,
            dma: false,
            rx_used_seen: 0,
            tx_next: 0,
            tx_buffers: Vec::new(),
            rx_buffers: Vec::new(),
            tx_packets: 0,
            rx_packets: 0,
            tx_bytes: 0,
            rx_bytes: 0,
            tx_dropped: 0,
        }
    }

    /// Sends a frame. Dropped (and counted) when the driver is not up or the
    /// frame is longer than 1514 bytes. Kept in memory behind twelve zero
    /// bytes without DMA; with DMA it takes the transmit buffer `tx_next`
    /// (modulo the pool), whose bytes the caller writes.
    pub fn transmit_real(&mut self, frame: Vec<u8>) -> (sent: bool)
        ensures
            sent == (old(self).initialized && old(self).link_up && frame@.len() <= 1514),
            !sent ==> final(self).tx_dropped == wadd(old(self).tx_dropped, 1)
                && final(self).tx_buffers == old(self).tx_buffers && final(self).tx_next == old(self).tx_next
                && final(self).tx_packets == old(self).tx_packets && final(self).tx_bytes == old(self).tx_bytes,
            sent ==> final(self).tx_packets == wadd(old(self).tx_packets, 1)
                && final(self).tx_bytes == wadd(old(self).tx_bytes, frame@.len() as u64)
                && final(self).tx_dropped == old(self).tx_dropped,
            sent && !old(self).dma ==> frames_view(final(self).tx_buffers@) == frames_view(old(self).tx_buffers@).push(
                Seq::new(SIM_HDR_LEN as nat, |k: int| 0u8) + frame@) && final(self).tx_next == old(self).tx_next,
            sent && old(self).dma ==> final(self).tx_buffers == old(self).tx_buffers
                && final(self).tx_next == crate::virtio::next_idx(old(self).tx_next),
            final(self).rx_buffers == old(self).rx_buffers,
            final(self).rx_packets == old(self).rx_packets && final(self).rx_bytes == old(self).rx_bytes,
            final(self).rx_used_seen == old(self).rx_used_seen,
            final(self).initialized == old(self).initialized && final(self).link_up == old(self).link_up,
            final(self).dma == old(self).dma && final(self).mac == old(self).mac && final(self).iobase == old(self).iobase,
    {
        if !self.initialized || !self.link_up {
            self.tx_dropped = add_wrap(self.tx_dropped, 1);
            return false;
        }
        if frame.len() > 1514 {
            self.tx_dropped = add_wrap(self.tx_dropped, 1);
            return false;
        }
        let flen = frame.len() as u64;
        if !self.dma {
            let mut buf = zeros(SIM_HDR_LEN);
            push_all(&mut buf, frame.as_slice());
            let ghost bv = buf@;
            let ghost before = frames_view(self.tx_buffers@);
            self.tx_buffers.push(buf);
            assert(frames_view(self.tx_buffers@) =~= before.push(bv));
        } else {
            self.tx_next = if self.tx_next == u16::MAX { 0 } else { self.tx_next + 1 };
        }
        self.tx_packets = add_wrap(self.tx_packets, 1);
        self.tx_bytes = add_wrap(self.tx_bytes, flen);
        true
    }

    /// Without DMA, hands out every frame kept for receiving and counts them;
    /// nothing before the driver is up. With DMA the frames come from the
    /// device ring and are counted by `record_rx`.
    pub fn receive_real(&mut self) -> (frames: Vec<Vec<u8>>)
        ensures
            (!old(self).initialized || old(self).dma) ==> frames@.len() == 0 && *final(self) == *old(self),
            (old(self).initialized && !old(self).dma) ==> {
                &&& frames@ == old(self).rx_buffers@
                &&& final(self).rx_buffers@.len() == 0
                &&& final(self).rx_packets == wadd(old(self).rx_packets, old(self).rx_buffers@.len() as u64)
                &&& final(self).rx_bytes == old(self).rx_bytes
                &&& final(self).tx_buffers == old(self).tx_buffers
                &&& final(self).tx_packets == old(self).tx_packets && final(self).tx_bytes == old(self).tx_bytes
                &&& final(self).tx_dropped == old(self).tx_dropped
            },
    {
        if !self.initialized || self.dma {
            return Vec::new();
        }
        let mut frames: Vec<Vec<u8>> = Vec::new();
        std::mem::swap(&mut frames, &mut self.rx_buffers);
        self.rx_packets = add_wrap(self.rx_packets, frames.len() as u64);
        frames
    }

    /// Counts frames taken from the device ring.
    pub fn record_rx(&mut self, frames: &Vec<Vec<u8>>)
        ensures
            final(self).rx_packets == wadd(old(self).rx_packets, frames@.len() as u64),
            final(self).rx_bytes == ((old(self).rx_bytes + total_len(frames_view(frames@))) % 0x1_0000_0000_0000_0000) as u64,
            final(self).tx_buffers == old(self).tx_buffers && final(self).rx_buffers == old(self).rx_buffers,
            final(self).tx_packets == old(self).tx_packets && final(self).tx_bytes == old(self).tx_bytes,
            final(self).tx_dropped == old(self).tx_dropped,
    {
        let ghost fv = frames_view(frames@);
        let ghost b0 = self.rx_bytes;
        let mut i: usize = 0;
        assert(fv.take(0) =~= Seq::<Seq<u8>>::empty());
        while i < frames.len()
            invariant
                fv == frames_view(frames@),
                i <= frames@.len(),
                self.rx_bytes == ((b0 + total_len(fv.take(i as int))) % 0x1_0000_0000_0000_0000) as u64,
                self.rx_packets == old(self).rx_packets,
                self.tx_buffers == old(self).tx_buffers && self.rx_buffers == old(self).rx_buffers,
                self.tx_packets == old(self).tx_packets && self.tx_bytes == old(self).tx_bytes,
                self.tx_dropped == old(self).tx_dropped,
            decreases frames@.len() - i,
        {
            let ghost t = total_len(fv.take(i as int));
            assert(fv.take(i + 1).drop_last() =~= fv.take(i as int));
            assert(fv.take(i + 1).last() == frames@[i as int]@);
            proof {
                vstd::arithmetic::div_mod::lemma_add_mod_noop(b0 + t, frames@[i as int]@.len() as int,
                    0x1_0000_0000_0000_0000);
            }
            self.rx_bytes = add_wrap(self.rx_bytes, frames[i].len() as u64);
            i = i + 1;
        }
        assert(fv.take(frames@.len() as int) =~= fv);
        self.rx_packets = add_wrap(self.rx_packets, frames.len() as u64);
    }

    /// Keeps a frame for the next receive without DMA.
    pub fn inject_rx(&mut self, frame: Vec<u8>)
        ensures
            final(self).rx_buffers@ == old(self).rx_buffers@.push(frame),
            final(self).tx_buffers == old(self).tx_buffers,
            final(self).rx_packets == old(self).rx_packets && final(self).rx_bytes == old(self).rx_bytes,
    {
        self.rx_buffers.push(frame);
    }

    /// The MAC address as `aa:bb:cc:dd:ee:ff`.
    pub fn mac_string(&self) -> (s: String)
        ensures
            s@ == mac_text(self.mac@),
    {
        MacAddr(self.mac).to_string()
    }
}

/// Sends a frame through the driver (see `VirtioNetReal::transmit_real`).
pub fn transmit(d: &mut VirtioNetReal, frame: Vec<u8>) -> (sent: bool)
    ensures
        sent == (old(d).initialized && old(d).link_up && frame@.len() <= 1514),
{
    d.transmit_real(frame)
}

/// Whether the link is up.
pub fn is_up(d: &VirtioNetReal) -> (up: bool)
    ensures
        up == d.link_up,
{
    d.link_up
}

/// The MAC address.
pub fn mac(d: &VirtioNetReal) -> (m: [u8; 6])
    ensures
        m == d.mac,
{
    d.mac
}

/// (tx packets, rx packets, tx bytes, rx bytes).
pub fn stats(d: &VirtioNetReal) -> (r: (u64, u64, u64, u64))
    ensures
        r == (d.tx_packets, d.rx_packets, d.tx_bytes, d.rx_bytes),
{
    (d.tx_packets, d.rx_packets, d.tx_bytes, d.rx_bytes)
}

} // verus!
