//! Node discovery over multicast DNS: the DNS message format (without name
//! compression, which no node of this system emits), the discovery query and
//! announcement, and the engine that decides when to query and what a
//! received packet means.
use vstd::prelude::*;
use vstd::string::StringSliceAdditionalSpecFns;
use crate::util::{be16, be32, hi8, lo8, split16, join16, utf8_to_string, string_push, push_all, push_dec, dec_of, copy_bytes};
use crate::peer::{PROTOCOL_VERSION, PeerTable};
use crate::node::{LocalNode, get_node_id, get_info};
use crate::net::{Ipv4Addr, ipv4_text};
use crate::util::{array32, hex_string, hex_of};
use crate::peer::sighted;
use crate::xdev::zero_id;

verus! {

/// The service this system announces.
pub const SOCD_SERVICE_TYPE: &'static str = "_socd._tcp.local";

/// The port of the peer-to-peer protocol itself.
pub const SOCD_PORT: u16 = 7700;

/// The multicast DNS port.
pub const MDNS_PORT: u16 = 5353;

/// Ticks between discovery queries.
pub const REDISCOVERY_INTERVAL_TICKS: u64 = 30_000;

/// A 16-bit value, big endian.
pub open spec fn u16_be(v: u16) -> Seq<u8> {
    seq![hi8(v), lo8(v)]
}

/// A 32-bit value, big endian.
pub open spec fn u32_be(v: u32) -> Seq<u8> {
    seq![(v / 0x1000000) as u8, ((v / 0x10000) % 256) as u8, ((v / 0x100) % 256) as u8, (v % 256) as u8]
}

/// The 16-bit big-endian value at `o`.
pub open spec fn rd16(d: Seq<u8>, o: int) -> u16 {
    be16(d[o], d[o + 1])
}

/// Appends `v` big endian.
fn put16(buf: &mut Vec<u8>, v: u16)
    ensures
        final(buf)@ == old(buf)@ + u16_be(v),
{
    let (hi, lo) = split16(v);
    buf.push(hi);
    buf.push(lo);
    assert(buf@ =~= old(buf)@ + u16_be(v));
}

/// Appends `v` big endian.
fn put32(buf: &mut Vec<u8>, v: u32)
    ensures
        final(buf)@ == old(buf)@ + u32_be(v),
{
    buf.push((v / 0x1000000) as u8);
    buf.push(((v / 0x10000) % 256) as u8);
    buf.push(((v / 0x100) % 256) as u8);
    buf.push((v % 256) as u8);
    assert(buf@ =~= old(buf)@ + u32_be(v));
}

/// The fixed part of a DNS message.
#[derive(Clone, Copy, PartialEq, Eq, Structural, Debug)]
pub struct MdnsHeader {
    pub id: u16,
    pub flags: u16,
    pub qdcount: u16,
    pub ancount: u16,
    pub nscount: u16,
    pub arcount: u16,
}

/// The 12 bytes of a header.
pub open spec fn header_bytes(h: MdnsHeader) -> Seq<u8> {
    u16_be(h.id) + u16_be(h.flags) + u16_be(h.qdcount) + u16_be(h.ancount) + u16_be(h.nscount) + u16_be(h.arcount)
}

/// The header read at `o` (12 bytes are there).
pub open spec fn header_at(d: Seq<u8>, o: int) -> MdnsHeader {
    MdnsHeader {
        id: rd16(d, o),
        flags: rd16(d, o + 2),
        qdcount: rd16(d, o + 4),
        ancount: rd16(d, o + 6),
        nscount: rd16(d, o + 8),
        arcount: rd16(d, o + 10),
    }
}

impl MdnsHeader {
    /// A query with one question.
    pub fn query() -> (h: MdnsHeader)
        ensures
            h == (MdnsHeader { id: 0, flags: 0, qdcount: 1, ancount: 0, nscount: 0, arcount: 0 }),
    {
        MdnsHeader { id: 0, flags: 0x0000, qdcount: 1, ancount: 0, nscount: 0, arcount: 0 }
    }

    /// An authoritative answer with one answer and one additional record.
    pub fn response() -> (h: MdnsHeader)
        ensures
            h == (MdnsHeader { id: 0, flags: 0x8400, qdcount: 0, ancount: 1, nscount: 0, arcount: 1 }),
    {
        MdnsHeader { id: 0, flags: 0x8400, qdcount: 0, ancount: 1, nscount: 0, arcount: 1 }
    }

    fn encode(&self, buf: &mut Vec<u8>)
        ensures
            final(buf)@ == old(buf)@ + header_bytes(*self),
    {
        put16(buf, self.id);
        put16(buf, self.flags);
        put16(buf, self.qdcount);
        put16(buf, self.ancount);
        put16(buf, self.nscount);
        put16(buf, self.arcount);
        assert(buf@ =~= old(buf)@ + header_bytes(*self));
    }

    fn decode(d: &[u8], off: &mut usize) -> (r: Option<MdnsHeader>)
        ensures
            r is Some <==> *old(off) + 12 <= d@.len(),
            r is Some ==> r->0 == header_at(d@, *old(off) as int) && *final(off) == *old(off) + 12,
            r is None ==> *final(off) == *old(off),
    {
        if d.len() < 12 || *off > d.len() - 12 {
            return None;
        }
        let o = *off;
        let h = MdnsHeader {
            id: join16(d[o], d[o + 1]),
            flags: join16(d[o + 2], d[o + 3]),
            qdcount: join16(d[o + 4], d[o + 5]),
            ancount: join16(d[o + 6], d[o + 7]),
            nscount: join16(d[o + 8], d[o + 9]),
            arcount: join16(d[o + 10], d[o + 11]),
        };
        *off = o + 12;
        Some(h)
    }
}

/// DNS record types.
#[derive(Clone, Copy, PartialEq, Eq, Structural, Debug)]
pub enum DnsRecordType {
    A,
    AAAA,
    PTR,
    SRV,
    TXT,
}

/// The wire code of a record type.
pub open spec fn type_code(t: DnsRecordType) -> u16 {
    match t {
        DnsRecordType::A => 1,
        DnsRecordType::AAAA => 28,
        DnsRecordType::PTR => 12,
        DnsRecordType::SRV => 33,
        DnsRecordType::TXT => 16,
    }
}

/// The record type of a wire code, if it is one of the five known.
pub open spec fn type_of_code(v: u16) -> Option<DnsRecordType> {
    if v == 1 {
        Some(DnsRecordType::A)
    } else if v == 28 {
        Some(DnsRecordType::AAAA)
    } else if v == 12 {
        Some(DnsRecordType::PTR)
    } else if v == 33 {
        Some(DnsRecordType::SRV)
    } else if v == 16 {
        Some(DnsRecordType::TXT)
    } else {
        None
    }
}

impl DnsRecordType {
    /// The wire code.
    pub fn code(&self) -> (v: u16)
        ensures
            v == type_code(*self),
    {
        match self {
            DnsRecordType::A => 1,
            DnsRecordType::AAAA => 28,
            DnsRecordType::PTR => 12,
            DnsRecordType::SRV => 33,
            DnsRecordType::TXT => 16,
        }
    }

    /// The type of a wire code.
    pub fn from_u16(v: u16) -> (r: Option<DnsRecordType>)
        ensures
            r == type_of_code(v),
    {
        if v == 1 {
            Some(DnsRecordType::A)
        } else if v == 28 {
            Some(DnsRecordType::AAAA)
        } else if v == 12 {
            Some(DnsRecordType::PTR)
        } else if v == 33 {
            Some(DnsRecordType::SRV)
        } else if v == 16 {
            Some(DnsRecordType::TXT)
        } else {
            None
        }
    }
}

/// The pieces of `b` between dots, as `str::split('.')` gives them: an empty
/// input is one empty piece, and two dots in a row give an empty piece.
pub open spec fn split_dot(b: Seq<u8>) -> Seq<Seq<u8>>
    decreases b.len(),
{
    if b.len() == 0 {
        seq![Seq::empty()]
    } else {
        let s = split_dot(b.drop_last());
        if b.last() == 0x2Eu8 {
            s.push(Seq::empty())
        } else {
            s.update(s.len() - 1, s.last().push(b.last()))
        }
    }
}

pub proof fn lemma_split_dot_nonempty(b: Seq<u8>)
    ensures
        split_dot(b).len() >= 1,
    decreases b.len(),
{
    if b.len() > 0 {
        lemma_split_dot_nonempty(b.drop_last());
    }
}

/// The shortest of a label's length and 63.
pub open spec fn label_len(l: Seq<u8>) -> int {
    if l.len() < 63 { l.len() as int } else { 63 }
}

/// The wire form of the labels: each non-empty one as its length and its
/// first 63 bytes at most; empty ones are skipped.
pub open spec fn labels_enc(ls: Seq<Seq<u8>>) -> Seq<u8>
    decreases ls.len(),
{
    if ls.len() == 0 {
        Seq::empty()
    } else {
        let l = ls.last();
        labels_enc(ls.drop_last()) + (if l.len() == 0 {
            Seq::empty()
        } else {
            seq![label_len(l) as u8] + l.take(label_len(l))
        })
    }
}

/// The wire form of a dotted name: its labels, then a zero byte.
pub open spec fn name_enc(n: Seq<char>) -> Seq<u8> {
    labels_enc(split_dot(vstd::utf8::encode_utf8(n))) + seq![0u8]
}

/// Appends the wire form of the dotted name `name`.
fn encode_name(buf: &mut Vec<u8>, name: &str)
    ensures
        final(buf)@ == old(buf)@ + name_enc(name@),
{
    let b = name.as_bytes();
    let ghost bs = b@;
    assert(bs == vstd::utf8::encode_utf8(name@));
    let mut start: usize = 0;
    let mut i: usize = 0;
    proof {
        assert(bs.take(0) =~= Seq::<u8>::empty());
    }
    while i < b.len()
        invariant
            bs == b@,
            start <= i <= b@.len(),
            split_dot(bs.take(i as int)).len() >= 1,
            split_dot(bs.take(i as int)).last() == bs.subrange(start as int, i as int),
            buf@ == old(buf)@ + labels_enc(split_dot(bs.take(i as int)).drop_last()),
        decreases b@.len() - i,
    {
        let ghost ls = split_dot(bs.take(i as int));
        assert(bs.take(i + 1).drop_last() =~= bs.take(i as int));
        if b[i] == 0x2E {
            let len = i - start;
            if len > 0 {
                let n = if len < 63 { len } else { 63 };
                buf.push(n as u8);
                let mut k: usize = 0;
                while k < n
                    invariant
                        k <= n,
                        n <= len,
                        start + len == i,
                        i < b@.len(),
                        bs == b@,
                        buf@ == old(buf)@ + labels_enc(ls.drop_last()) + seq![n as u8] + bs.subrange(start as int, start + k),
                    decreases n - k,
                {
                    buf.push(b[start + k]);
                    k = k + 1;
                    assert(buf@ =~= old(buf)@ + labels_enc(ls.drop_last()) + seq![n as u8] + bs.subrange(start as int, start + k));
                }
            }
            proof {
                let ls1 = split_dot(bs.take(i + 1));
                assert(ls1 == ls.push(Seq::<u8>::empty()));
                assert(ls1.drop_last() =~= ls);
                assert(ls.drop_last() =~= ls.drop_last());
                assert(ls.last() == bs.subrange(start as int, i as int));
                assert(ls.last().take(label_len(ls.last())) =~= bs.subrange(start as int, start + label_len(ls.last())));
                assert(buf@ =~= old(buf)@ + labels_enc(ls1.drop_last()));
                assert(bs.subrange(i + 1, i + 1) =~= Seq::<u8>::empty());
            }
            start = i + 1;
        } else {
            proof {
                let ls1 = split_dot(bs.take(i + 1));
                assert(ls1 == ls.update(ls.len() - 1, ls.last().push(bs[i as int])));
                assert(ls1.drop_last() =~= ls.drop_last());
                assert(bs.subrange(start as int, i + 1) =~= ls.last().push(bs[i as int]));
            }
        }
        i = i + 1;
    }
    let ghost ls = split_dot(bs.take(i as int));
    let len = i - start;
    if len > 0 {
        let n = if len < 63 { len } else { 63 };
        buf.push(n as u8);
        let mut k: usize = 0;
        while k < n
            invariant
                k <= n,
                n <= len,
                start + len == i,
                i <= b@.len(),
                bs == b@,
                buf@ == old(buf)@ + labels_enc(ls.drop_last()) + seq![n as u8] + bs.subrange(start as int, start + k),
            decreases n - k,
        {
            buf.push(b[start + k]);
            k = k + 1;
            assert(buf@ =~= old(buf)@ + labels_enc(ls.drop_last()) + seq![n as u8] + bs.subrange(start as int, start + k));
        }
    }
    buf.push(0);
    proof {
        assert(bs.take(i as int) =~= bs);
        assert(ls.last().take(label_len(ls.last())) =~= bs.subrange(start as int, start + label_len(ls.last())));
        assert(buf@ =~= old(buf)@ + name_enc(name@));
    }
}

/// The labels of the name at `o` and where the name ends: each label is a
/// length byte below 64 and that many bytes, up to a zero byte. None when the
/// data ends first or a length byte has either of its top bits set.
pub open spec fn name_parse(d: Seq<u8>, o: int) -> Option<(Seq<Seq<u8>>, int)>
    decreases d.len() - o,
{
    if o < 0 || o >= d.len() {
        None
    } else if d[o] == 0 {
        Some((Seq::empty(), o + 1))
    } else if d[o] >= 64 || o + 1 + d[o] > d.len() {
        None
    } else {
        match name_parse(d, o + 1 + d[o]) {
            Some((ls, e)) => Some((seq![d.subrange(o + 1, o + 1 + d[o])] + ls, e)),
            None => None,
        }
    }
}

/// Labels joined with dots, each decoded as UTF-8.
pub open spec fn join_labels(ls: Seq<Seq<u8>>) -> Seq<char>
    decreases ls.len(),
{
    if ls.len() == 0 {
        Seq::empty()
    } else if ls.len() == 1 {
        vstd::utf8::decode_utf8(ls[0])
    } else {
        join_labels(ls.drop_last()) + seq!['.'] + vstd::utf8::decode_utf8(ls.last())
    }
}

/// The dotted name at `o` and where it ends; None when the labels are malformed
/// or one of them is not UTF-8.
pub open spec fn name_decode(d: Seq<u8>, o: int) -> Option<(Seq<char>, int)> {
    match name_parse(d, o) {
        Some((ls, e)) => if forall|i: int| 0 <= i < ls.len() ==> vstd::utf8::valid_utf8(#[trigger] ls[i]) {
            Some((join_labels(ls), e))
        } else {
            None
        },
        None => None,
    }
}

/// Reads the dotted name at `*off` and moves past it.
fn decode_name(d: &[u8], off: &mut usize) -> (r: Option<String>)
    ensures
        match name_decode(d@, *old(off) as int) {
            Some((n, e)) => r is Some && r->0@ == n && *final(off) == e,
            None => r is None,
        },
{
    let ghost o0 = *old(off) as int;
    let ghost dv = d@;
    let mut name = String::new();
    let ghost mut acc: Seq<Seq<u8>> = Seq::empty();
    let mut first = true;
    let dlen = d.len();
    proof {
        assert(name@ =~= join_labels(acc));
    }
    loop
        invariant
            dv == d@,
            o0 == *old(off) as int,
            dlen == d@.len(),
            first == (acc.len() == 0),
            name@ == join_labels(acc),
            forall|i: int| 0 <= i < acc.len() ==> vstd::utf8::valid_utf8(#[trigger] acc[i]),
            name_parse(dv, o0) == match name_parse(dv, *off as int) {
                Some((ls, e)) => Some((acc + ls, e)),
                None => None::<(Seq<Seq<u8>>, int)>,
            },
        decreases d@.len() - *off,
    {
        let o = *off;
        if o >= d.len() {
            assert(name_parse(dv, o as int) is None);
            return None;
        }
        let len = d[o] as usize;
        if len == 0 {
            *off = o + 1;
            proof {
                assert(name_parse(dv, o as int) == Some((Seq::<Seq<u8>>::empty(), o + 1)));
                assert(acc + Seq::<Seq<u8>>::empty() =~= acc);
                assert(name_parse(dv, o0) == Some((acc, o + 1)));
            }
            return Some(name);
        }
        if len >= 64 || len > d.len() - o - 1 {
            assert(name_parse(dv, o as int) is None);
            return None;
        }
        let ghost lab = dv.subrange(o + 1, o + 1 + len);
        proof {
            assert(name_parse(dv, o as int) == match name_parse(dv, o + 1 + len) {
                Some((ls, e)) => Some((seq![lab] + ls, e)),
                None => None::<(Seq<Seq<u8>>, int)>,
            });
            match name_parse(dv, o + 1 + len) {
                Some((ls, e)) => {
                    assert(acc + (seq![lab] + ls) =~= acc.push(lab) + ls);
                },
                None => {},
            }
        }
        let mut label: Vec<u8> = Vec::new();
        let mut k: usize = 0;
        while k < len
            invariant
                k <= len,
                o + 1 + len <= dlen,
                dlen == d@.len(),
                dv == d@,
                label@ == dv.subrange(o + 1, o + 1 + k),
            decreases len - k,
        {
            label.push(d[o + 1 + k]);
            k = k + 1;
            assert(label@ =~= dv.subrange(o + 1, o + 1 + k));
        }
        match utf8_to_string(label.as_slice()) {
            Some(part) => {
                let ghost before = name@;
                if !first {
                    string_push(&mut name, '.');
                }
                name.append(part.as_str());
                proof {
                    let acc1 = acc.push(lab);
                    assert(acc1.drop_last() =~= acc);
                    if acc.len() == 0 {
                        assert(name@ =~= join_labels(acc1));
                    } else {
                        assert(name@ =~= join_labels(acc1));
                    }
                    acc = acc1;
                }
                first = false;
                *off = o + 1 + len;
            },
            None => {
                proof {
                    match name_parse(dv, o + 1 + len) {
                        Some((ls, e)) => {
                            let all = acc.push(lab) + ls;
                            assert(all[acc.len() as int] == lab);
                        },
                        None => {},
                    }
                }
                return None;
            },
        }
    }
}

/// A DNS record.
#[derive(Debug)]
pub struct DnsRecord {
    pub name: String,
    pub rtype: DnsRecordType,
    pub ttl: u32,
    pub data: Vec<u8>,
}

/// A record as plain values: name, type, time to live, data.
pub type RecordView = (Seq<char>, DnsRecordType, u32, Seq<u8>);

/// The plain values of a record.
pub open spec fn record_view(r: DnsRecord) -> RecordView {
    (r.name@, r.rtype, r.ttl, r.data@)
}

/// The wire form of a record, class IN; the data length is cut to 16 bits.
pub open spec fn record_enc(r: RecordView) -> Seq<u8> {
    name_enc(r.0) + u16_be(type_code(r.1)) + u16_be(1) + u32_be(r.2) + u16_be(r.3.len() as u16) + r.3
}

/// The record at `o` and where it ends; None when it is cut short or its type
/// is unknown. The class is not looked at.
pub open spec fn record_parse(d: Seq<u8>, o: int) -> Option<(RecordView, int)> {
    match name_decode(d, o) {
        None => None,
        Some((n, p)) => if p + 10 > d.len() {
            None
        } else {
            match type_of_code(rd16(d, p)) {
                None => None,
                Some(t) => {
                    let ttl = be32(d[p + 4], d[p + 5], d[p + 6], d[p + 7]);
                    let len = rd16(d, p + 8);
                    if p + 10 + len > d.len() {
                        None
                    } else {
                        Some(((n, t, ttl, d.subrange(p + 10, p + 10 + len)), p + 10 + len))
                    }
                }
            }
        },
    }
}

impl DnsRecord {
    fn encode(&self, buf: &mut Vec<u8>)
        ensures
            final(buf)@ == old(buf)@ + record_enc(record_view(*self)),
    {
        let ghost b0 = buf@;
        encode_name(buf, self.name.as_str());
        put16(buf, self.rtype.code());
        put16(buf, 1);
        put32(buf, self.ttl);
        put16(buf, self.data.len() as u16);
        push_all(buf, self.data.as_slice());
        assert(buf@ =~= b0 + record_enc(record_view(*self)));
    }

    fn decode(d: &[u8], off: &mut usize) -> (r: Option<DnsRecord>)
        ensures
            match record_parse(d@, *old(off) as int) {
                Some((v, e)) => r is Some && record_view(r->0) == v && *final(off) == e,
                None => r is None,
            },
    {
        let name = match decode_name(d, off) {
            Some(n) => n,
            None => return None,
        };
        let p = *off;
        if p > d.len() || d.len() - p < 10 {
            return None;
        }
        let rtype = match DnsRecordType::from_u16(join16(d[p], d[p + 1])) {
            Some(t) => t,
            None => return None,
        };
        let ttl: u32 = (d[p + 4] as u32) * 0x1000000 + (d[p + 5] as u32) * 0x10000 + (d[p + 6] as u32) * 0x100 + (d[p + 7] as u32);
        let len = join16(d[p + 8], d[p + 9]) as usize;
        let q = p + 10;
        if len > d.len() - q {
            return None;
        }
        let mut data: Vec<u8> = Vec::new();
        let mut k: usize = 0;
        let dlen = d.len();
        while k < len
            invariant
                k <= len,
                dlen == d@.len(),
                q + len <= dlen,
                data@ == d@.subrange(q as int, q + k),
            decreases len - k,
        {
            data.push(d[q + k]);
            k = k + 1;
            assert(data@ =~= d@.subrange(q as int, q + k));
        }
        *off = q + len;
        Some(DnsRecord { name, rtype, ttl, data })
    }
}

/// A question.
#[derive(Debug)]
pub struct MdnsQuestion {
    pub name: String,
    pub qtype: DnsRecordType,
    /// Whether a unicast answer is asked for (top bit of the class).
    pub unicast_response: bool,
}

/// A question as plain values: name, type, unicast bit.
pub type QuestionView = (Seq<char>, DnsRecordType, bool);

/// The plain values of a question.
pub open spec fn question_view(q: MdnsQuestion) -> QuestionView {
    (q.name@, q.qtype, q.unicast_response)
}

/// The wire form of a question: class IN, with the top bit for a unicast answer.
pub open spec fn question_enc(q: QuestionView) -> Seq<u8> {
    name_enc(q.0) + u16_be(type_code(q.1)) + u16_be(if q.2 { 0x8001u16 } else { 0x0001u16 })
}

/// The question at `o` and where it ends.
pub open spec fn question_parse(d: Seq<u8>, o: int) -> Option<(QuestionView, int)> {
    match name_decode(d, o) {
        None => None,
        Some((n, p)) => if p + 4 > d.len() {
            None
        } else {
            match type_of_code(rd16(d, p)) {
                None => None,
                Some(t) => Some(((n, t, rd16(d, p + 2) >= 0x8000), p + 4)),
            }
        },
    }
}

impl MdnsQuestion {
    fn encode(&self, buf: &mut Vec<u8>)
        ensures
            final(buf)@ == old(buf)@ + question_enc(question_view(*self)),
    {
        let ghost b0 = buf@;
        encode_name(buf, self.name.as_str());
        put16(buf, self.qtype.code());
        let qclass: u16 = if self.unicast_response { 0x8001 } else { 0x0001 };
        put16(buf, qclass);
        assert(buf@ =~= b0 + question_enc(question_view(*self)));
    }

    fn decode(d: &[u8], off: &mut usize) -> (r: Option<MdnsQuestion>)
        ensures
            match question_parse(d@, *old(off) as int) {
                Some((v, e)) => r is Some && question_view(r->0) == v && *final(off) == e,
                None => r is None,
            },
    {
        let name = match decode_name(d, off) {
            Some(n) => n,
            None => return None,
        };
        let p = *off;
        if p > d.len() || d.len() - p < 4 {
            return None;
        }
        let qtype = match DnsRecordType::from_u16(join16(d[p], d[p + 1])) {
            Some(t) => t,
            None => return None,
        };
        let qclass = join16(d[p + 2], d[p + 3]);
        *off = p + 4;
        Some(MdnsQuestion { name, qtype, unicast_response: qclass >= 0x8000 })
    }
}

/// A whole DNS message.
#[derive(Debug)]
pub struct MdnsPacket {
    pub header: MdnsHeader,
    pub questions: Vec<MdnsQuestion>,
    pub answers: Vec<DnsRecord>,
    pub additional: Vec<DnsRecord>,
}

/// The wire form of questions, in order.
pub open spec fn questions_enc(qs: Seq<QuestionView>) -> Seq<u8>
    decreases qs.len(),
{
    if qs.len() == 0 { Seq::empty() } else { questions_enc(qs.drop_last()) + question_enc(qs.last()) }
}

/// The wire form of records, in order.
pub open spec fn records_enc(rs: Seq<RecordView>) -> Seq<u8>
    decreases rs.len(),
{
    if rs.len() == 0 { Seq::empty() } else { records_enc(rs.drop_last()) + record_enc(rs.last()) }
}

/// `n` questions read from `o` on, and where they end.
pub open spec fn questions_parse(d: Seq<u8>, o: int, n: nat) -> Option<(Seq<QuestionView>, int)>
    decreases n,
{
    if n == 0 {
        Some((Seq::empty(), o))
    } else {
        match questions_parse(d, o, (n - 1) as nat) {
            Some((qs, p)) => match question_parse(d, p) {
                Some((q, e)) => Some((qs.push(q), e)),
                None => None,
            },
            None => None,
        }
    }
}

/// `n` records read from `o` on, and where they end.
pub open spec fn records_parse(d: Seq<u8>, o: int, n: nat) -> Option<(Seq<RecordView>, int)>
    decreases n,
{
    if n == 0 {
        Some((Seq::empty(), o))
    } else {
        match records_parse(d, o, (n - 1) as nat) {
            Some((rs, p)) => match record_parse(d, p) {
                Some((r, e)) => Some((rs.push(r), e)),
                None => None,
            },
            None => None,
        }
    }
}

/// A message as plain values: header, questions, answers, additional records.
pub type PacketView = (MdnsHeader, Seq<QuestionView>, Seq<RecordView>, Seq<RecordView>);

/// The plain values of a message.
pub open spec fn packet_view(p: MdnsPacket) -> PacketView {
    (
        p.header,
        p.questions@.map_values(|q: MdnsQuestion| question_view(q)),
        p.answers@.map_values(|r: DnsRecord| record_view(r)),
        p.additional@.map_values(|r: DnsRecord| record_view(r)),
    )
}

/// The wire form of a message: the header's id and flags with the counts of
/// its lists (cut to 16 bits) and no authority records, then the lists.
pub open spec fn packet_enc(p: PacketView) -> Seq<u8> {
    header_bytes(MdnsHeader {
        id: p.0.id,
        flags: p.0.flags,
        qdcount: p.1.len() as u16,
        ancount: p.2.len() as u16,
        nscount: 0,
        arcount: p.3.len() as u16,
    }) + questions_enc(p.1) + records_enc(p.2) + records_enc(p.3)
}

/// The message in `d`: the header, then as many questions, answers, authority
/// records (read and dropped) and additional records as it counts.
pub open spec fn packet_parse(d: Seq<u8>) -> Option<PacketView> {
    if d.len() < 12 {
        None
    } else {
        let h = header_at(d, 0);
        match questions_parse(d, 12, h.qdcount as nat) {
            None => None,
            Some((qs, p1)) => match records_parse(d, p1, h.ancount as nat) {
                None => None,
                Some((an, p2)) => match records_parse(d, p2, h.nscount as nat) {
                    None => None,
                    Some((_ns, p3)) => match records_parse(d, p3, h.arcount as nat) {
                        None => None,
                        Some((ar, _p4)) => Some((h, qs, an, ar)),
                    },
                },
            },
        }
    }
}

/// The announcement of node `node_name` with id `node_id_hex` at `port`: a PTR
/// answer from the service type to the instance, then the instance's SRV and
/// TXT records.
pub open spec fn announcement_view(node_name: Seq<char>, node_id_hex: Seq<char>, port: u16) -> PacketView {
    (MdnsHeader { id: 0, flags: 0x8400, qdcount: 0, ancount: 1, nscount: 0, arcount: 1 },
        Seq::<QuestionView>::empty(),
        seq![(SOCD_SERVICE_TYPE@, DnsRecordType::PTR, 4500u32, vstd::utf8::encode_utf8(service_name_text(node_name)))],
        seq![
            (service_name_text(node_name), DnsRecordType::SRV, 120u32, vstd::utf8::encode_utf8(srv_text(node_name, port))),
            (service_name_text(node_name), DnsRecordType::TXT, 4500u32, vstd::utf8::encode_utf8(txt_text(node_id_hex))),
        ])
}

/// The text of a service instance: the node name, a dot, the service type.
pub open spec fn service_name_text(node_name: Seq<char>) -> Seq<char> {
    node_name + "."@ + SOCD_SERVICE_TYPE@
}

/// The text of the SRV data: "0 0 <port> <name>.local".
pub open spec fn srv_text(node_name: Seq<char>, port: u16) -> Seq<char> {
    "0 0 "@ + dec_of(port as nat) + " "@ + node_name + ".local"@
}

/// The text of the TXT data: "socd=1", the node id and the protocol version, one per line.
pub open spec fn txt_text(node_id_hex: Seq<char>) -> Seq<char> {
    "socd=1\nid="@ + node_id_hex + "\nproto="@ + dec_of(PROTOCOL_VERSION as nat)
}

/// Reads `n` records from `*off` on.
fn decode_records(d: &[u8], off: &mut usize, n: u16) -> (r: Option<Vec<DnsRecord>>)
    ensures
        match records_parse(d@, *old(off) as int, n as nat) {
            Some((rs, e)) => r is Some && r->0@.map_values(|x: DnsRecord| record_view(x)) == rs && *final(off) == e,
            None => r is None,
        },
{
    let mut v: Vec<DnsRecord> = Vec::new();
    let mut i: u16 = 0;
    proof {
        assert(v@.map_values(|x: DnsRecord| record_view(x)) =~= Seq::<RecordView>::empty());
    }
    while i < n
        invariant
            i <= n,
            records_parse(d@, *old(off) as int, i as nat) == Some((v@.map_values(|x: DnsRecord| record_view(x)), *off as int)),
        decreases n - i,
    {
        let ghost before = v@.map_values(|x: DnsRecord| record_view(x));
        match DnsRecord::decode(d, off) {
            Some(rec) => {
                v.push(rec);
                assert(v@.map_values(|x: DnsRecord| record_view(x)) =~= before.push(record_view(rec)));
            },
            None => {
                proof {
                    lemma_records_parse_none(d@, *old(off) as int, (i + 1) as nat, n as nat);
                }
                return None;
            },
        }
        i = i + 1;
    }
    Some(v)
}

/// Once reading the first `k` records fails, reading more fails too.
proof fn lemma_records_parse_none(d: Seq<u8>, o: int, k: nat, n: nat)
    requires
        k <= n,
        records_parse(d, o, k) is None,
    ensures
        records_parse(d, o, n) is None,
    decreases n - k,
{
    if k < n {
        lemma_records_parse_none(d, o, k + 1, n);
    }
}

/// Once reading the first `k` questions fails, reading more fails too.
proof fn lemma_questions_parse_none(d: Seq<u8>, o: int, k: nat, n: nat)
    requires
        k <= n,
        questions_parse(d, o, k) is None,
    ensures
        questions_parse(d, o, n) is None,
    decreases n - k,
{
    if k < n {
        lemma_questions_parse_none(d, o, k + 1, n);
    }
}

impl MdnsPacket {
    /// The query for the service: one PTR question for "_socd._tcp.local".
    pub fn discovery_query() -> (p: MdnsPacket)
        ensures
            packet_view(p) == query_view(),
    {
        let mut questions: Vec<MdnsQuestion> = Vec::new();
        questions.push(MdnsQuestion { name: String::from_str(SOCD_SERVICE_TYPE), qtype: DnsRecordType::PTR, unicast_response: false });
        let p = MdnsPacket { header: MdnsHeader::query(), questions, answers: Vec::new(), additional: Vec::new() };
        assert(packet_view(p).1 =~= seq![(SOCD_SERVICE_TYPE@, DnsRecordType::PTR, false)]);
        assert(packet_view(p).2 =~= Seq::<RecordView>::empty());
        assert(packet_view(p).3 =~= Seq::<RecordView>::empty());
        p
    }

    /// This node's announcement: a PTR answer from the service type to the
    /// instance "<node_name>._socd._tcp.local", then an SRV record with the
    /// port and a TXT record with the node id and protocol version.
    pub fn announcement(node_name: &str, node_id_hex: &str, port: u16) -> (p: MdnsPacket)
        ensures
            packet_view(p) == announcement_view(node_name@, node_id_hex@, port),
    {
        let mut service = String::from_str(node_name);
        service.append(".");
        service.append(SOCD_SERVICE_TYPE);
        let mut srv = String::from_str("0 0 ");
        push_dec(&mut srv, port as u64);
        srv.append(" ");
        srv.append(node_name);
        srv.append(".local");
        let mut txt = String::from_str("socd=1\nid=");
        txt.append(node_id_hex);
        txt.append("\nproto=");
        push_dec(&mut txt, PROTOCOL_VERSION as u64);
        let mut answers: Vec<DnsRecord> = Vec::new();
        answers.push(DnsRecord {
            name: String::from_str(SOCD_SERVICE_TYPE),
            rtype: DnsRecordType::PTR,
            ttl: 4500,
            data: copy_bytes(service.as_str().as_bytes()),
        });
        let mut additional: Vec<DnsRecord> = Vec::new();
        additional.push(DnsRecord {
            name: service.clone(),
            rtype: DnsRecordType::SRV,
            ttl: 120,
            data: copy_bytes(srv.as_str().as_bytes()),
        });
        additional.push(DnsRecord {
            name: service,
            rtype: DnsRecordType::TXT,
            ttl: 4500,
            data: copy_bytes(txt.as_str().as_bytes()),
        });
        let p = MdnsPacket { header: MdnsHeader::response(), questions: Vec::new(), answers, additional };
        assert(packet_view(p).1 =~= Seq::<QuestionView>::empty());
        assert(packet_view(p).2 =~= seq![(SOCD_SERVICE_TYPE@, DnsRecordType::PTR, 4500u32, vstd::utf8::encode_utf8(service_name_text(node_name@)))]);
        assert(packet_view(p).3 =~= seq![
            (service_name_text(node_name@), DnsRecordType::SRV, 120u32, vstd::utf8::encode_utf8(srv_text(node_name@, port))),
            (service_name_text(node_name@), DnsRecordType::TXT, 4500u32, vstd::utf8::encode_utf8(txt_text(node_id_hex@))),
        ]);
        p
    }

    /// The wire form of the message.
    pub fn serialize(&self) -> (b: Vec<u8>)
        ensures
            b@ == packet_enc(packet_view(*self)),
    {
        let mut buf: Vec<u8> = Vec::new();
        let header = MdnsHeader {
            id: self.header.id,
            flags: self.header.flags,
            qdcount: self.questions.len() as u16,
            ancount: self.answers.len() as u16,
            nscount: 0,
            arcount: self.additional.len() as u16,
        };
        header.encode(&mut buf);
        let ghost v = packet_view(*self);
        let ghost h = buf@;
        let mut i: usize = 0;
        while i < self.questions.len()
            invariant
                i <= self.questions@.len(),
                v == packet_view(*self),
                buf@ == h + questions_enc(v.1.subrange(0, i as int)),
            decreases self.questions@.len() - i,
        {
            self.questions[i].encode(&mut buf);
            i = i + 1;
            assert(v.1.subrange(0, i as int).drop_last() =~= v.1.subrange(0, i - 1));
        }
        assert(v.1.subrange(0, i as int) =~= v.1);
        let ghost h1 = buf@;
        let mut i: usize = 0;
        while i < self.answers.len()
            invariant
                i <= self.answers@.len(),
                v == packet_view(*self),
                buf@ == h1 + records_enc(v.2.subrange(0, i as int)),
            decreases self.answers@.len() - i,
        {
            self.answers[i].encode(&mut buf);
            i = i + 1;
            assert(v.2.subrange(0, i as int).drop_last() =~= v.2.subrange(0, i - 1));
        }
        assert(v.2.subrange(0, i as int) =~= v.2);
        let ghost h2 = buf@;
        let mut i: usize = 0;
        while i < self.additional.len()
            invariant
                i <= self.additional@.len(),
                v == packet_view(*self),
                buf@ == h2 + records_enc(v.3.subrange(0, i as int)),
            decreases self.additional@.len() - i,
        {
            self.additional[i].encode(&mut buf);
            i = i + 1;
            assert(v.3.subrange(0, i as int).drop_last() =~= v.3.subrange(0, i - 1));
        }
        assert(v.3.subrange(0, i as int) =~= v.3);
        buf
    }

    /// The message in `d`, if it is one.
    pub fn parse(d: &[u8]) -> (r: Option<MdnsPacket>)
        ensures
            match packet_parse(d@) {
                Some(v) => r is Some && packet_view(r->0) == v,
                None => r is None,
            },
    {
        let mut off: usize = 0;
        let header = match MdnsHeader::decode(d, &mut off) {
            Some(h) => h,
            None => return None,
        };
        let mut questions: Vec<MdnsQuestion> = Vec::new();
        let mut i: u16 = 0;
        proof {
            assert(questions@.map_values(|x: MdnsQuestion| question_view(x)) =~= Seq::<QuestionView>::empty());
        }
        while i < header.qdcount
            invariant
                i <= header.qdcount,
                header == header_at(d@, 0),
                d@.len() >= 12,
                questions_parse(d@, 12, i as nat) == Some((questions@.map_values(|x: MdnsQuestion| question_view(x)), off as int)),
            decreases header.qdcount - i,
        {
            let ghost before = questions@.map_values(|x: MdnsQuestion| question_view(x));
            match MdnsQuestion::decode(d, &mut off) {
                Some(q) => {
                    questions.push(q);
                    assert(questions@.map_values(|x: MdnsQuestion| question_view(x)) =~= before.push(question_view(q)));
                },
                None => {
                    proof {
                        lemma_questions_parse_none(d@, 12, (i + 1) as nat, header.qdcount as nat);
                    }
                    return None;
                },
            }
            i = i + 1;
        }
        let ghost qv = questions@.map_values(|x: MdnsQuestion| question_view(x));
        assert(questions_parse(d@, 12, header.qdcount as nat) == Some((qv, off as int)));
        let answers = match decode_records(d, &mut off, header.ancount) {
            Some(v) => v,
            None => return None,
        };
        match decode_records(d, &mut off, header.nscount) {
            Some(_) => {},
            None => return None,
        }
        let additional = match decode_records(d, &mut off, header.arcount) {
            Some(v) => v,
            None => return None,
        };
        Some(MdnsPacket { header, questions, answers, additional })
    }
}

/// The characters of `s`.
pub(crate) fn chars_of(s: &str) -> (v: Vec<char>)
    ensures
        v@ == s@,
{
    broadcast use vstd::string::group_string_axioms;
    let mut v: Vec<char> = Vec::new();
    for c in it: s.chars()
        invariant
            v@ == it.seq().take(it.index() as int),
    {
        v.push(c);
    }
    v
}

/// Unicode white space, as `char::is_whitespace` has it.
pub open spec fn is_ws(c: char) -> bool {
    let u = c as u32;
    (0x9 <= u <= 0xD) || u == 0x20 || u == 0x85 || u == 0xA0 || u == 0x1680 || (0x2000 <= u <= 0x200A)
        || u == 0x2028 || u == 0x2029 || u == 0x202F || u == 0x205F || u == 0x3000
}

pub(crate) fn is_whitespace(c: char) -> (b: bool)
    ensures
        b == is_ws(c),
{
    let u = c as u32;
    (0x9 <= u && u <= 0xD) || u == 0x20 || u == 0x85 || u == 0xA0 || u == 0x1680 || (0x2000 <= u && u <= 0x200A)
        || u == 0x2028 || u == 0x2029 || u == 0x202F || u == 0x205F || u == 0x3000
}

/// The words of `s`, as `str::split_whitespace` gives them: the maximal runs
/// of characters that are not white space.
pub open spec fn words(s: Seq<char>) -> Seq<Seq<char>>
    decreases s.len(),
{
    if s.len() == 0 {
        Seq::empty()
    } else {
        let w = words(s.drop_last());
        if is_ws(s.last()) {
            w
        } else if s.len() >= 2 && !is_ws(s[s.len() - 2]) {
            w.update(w.len() - 1, w.last().push(s.last()))
        } else {
            w.push(seq![s.last()])
        }
    }
}

proof fn lemma_words_last(s: Seq<char>)
    requires
        s.len() >= 1,
        !is_ws(s.last()),
    ensures
        words(s).len() >= 1,
    decreases s.len(),
{
    if s.len() >= 2 && !is_ws(s[s.len() - 2]) {
        lemma_words_last(s.drop_last());
    }
}

/// The words of `s`.
pub(crate) fn words_of(s: &Vec<char>) -> (r: Vec<Vec<char>>)
    ensures
        r@.map_values(|w: Vec<char>| w@) == words(s@),
{
    let mut out: Vec<Vec<char>> = Vec::new();
    let mut cur: Vec<char> = Vec::new();
    let mut i: usize = 0;
    proof {
        assert(s@.take(0) =~= Seq::<char>::empty());
        assert(out@.map_values(|w: Vec<char>| w@) =~= Seq::<Seq<char>>::empty());
    }
    while i < s.len()
        invariant
            i <= s@.len(),
            cur@.len() > 0 <==> (i > 0 && !is_ws(s@[i - 1])),
            cur@.len() > 0 ==> words(s@.take(i as int)) == out@.map_values(|w: Vec<char>| w@).push(cur@),
            cur@.len() == 0 ==> words(s@.take(i as int)) == out@.map_values(|w: Vec<char>| w@),
        decreases s@.len() - i,
    {
        let c = s[i];
        let ghost t = s@.take(i + 1);
        assert(t.drop_last() =~= s@.take(i as int));
        assert(t.last() == c);
        let ghost ov = out@.map_values(|w: Vec<char>| w@);
        if is_whitespace(c) {
            if cur.len() > 0 {
                let done = cur;
                cur = Vec::new();
                out.push(done);
                assert(out@.map_values(|w: Vec<char>| w@) =~= ov.push(done@));
            }
        } else {
            if cur.len() > 0 {
                assert(t[t.len() - 2] == s@[i - 1]);
            }
            let ghost c0 = cur@;
            cur.push(c);
            proof {
                if c0.len() > 0 {
                    assert(ov.push(c0).update(ov.len() as int, c0.push(c)) =~= ov.push(cur@));
                } else {
                    assert(cur@ =~= seq![c]);
                }
            }
        }
        i = i + 1;
    }
    assert(s@.take(i as int) =~= s@);
    if cur.len() > 0 {
        let ghost ov = out@.map_values(|w: Vec<char>| w@);
        let done = cur;
        out.push(done);
        assert(out@.map_values(|w: Vec<char>| w@) =~= ov.push(done@));
    }
    out
}

/// The pieces of `s` between occurrences of `sep`, as `str::split` gives them.
pub open spec fn split_on(s: Seq<char>, sep: char) -> Seq<Seq<char>>
    decreases s.len(),
{
    if s.len() == 0 {
        seq![Seq::empty()]
    } else {
        let p = split_on(s.drop_last(), sep);
        if s.last() == sep {
            p.push(Seq::empty())
        } else {
            p.update(p.len() - 1, p.last().push(s.last()))
        }
    }
}

proof fn lemma_split_on_nonempty(s: Seq<char>, sep: char)
    ensures
        split_on(s, sep).len() >= 1,
    decreases s.len(),
{
    if s.len() > 0 {
        lemma_split_on_nonempty(s.drop_last(), sep);
    }
}

/// The pieces of `s` between occurrences of `sep`.
pub(crate) fn split_chars(s: &Vec<char>, sep: char) -> (r: Vec<Vec<char>>)
    ensures
        r@.map_values(|w: Vec<char>| w@) == split_on(s@, sep),
{
    let mut out: Vec<Vec<char>> = Vec::new();
    let mut cur: Vec<char> = Vec::new();
    let mut i: usize = 0;
    proof {
        assert(s@.take(0) =~= Seq::<char>::empty());
        assert(out@.map_values(|w: Vec<char>| w@).push(cur@) =~= seq![Seq::<char>::empty()]);
    }
    while i < s.len()
        invariant
            i <= s@.len(),
            split_on(s@.take(i as int), sep) == out@.map_values(|w: Vec<char>| w@).push(cur@),
        decreases s@.len() - i,
    {
        let c = s[i];
        let ghost t = s@.take(i + 1);
        assert(t.drop_last() =~= s@.take(i as int));
        let ghost ov = out@.map_values(|w: Vec<char>| w@);
        let ghost c0 = cur@;
        if c == sep {
            let done = cur;
            cur = Vec::new();
            out.push(done);
            assert(out@.map_values(|w: Vec<char>| w@).push(cur@) =~= ov.push(c0).push(Seq::<char>::empty()));
        } else {
            cur.push(c);
            assert(ov.push(c0).update(ov.len() as int, c0.push(c)) =~= ov.push(cur@));
        }
        i = i + 1;
    }
    assert(s@.take(i as int) =~= s@);
    let ghost ov = out@.map_values(|w: Vec<char>| w@);
    let done = cur;
    out.push(done);
    assert(out@.map_values(|w: Vec<char>| w@) =~= ov.push(done@));
    out
}

/// The value of ASCII decimal digits.
pub open spec fn digits_value(s: Seq<char>) -> nat
    decreases s.len(),
{
    if s.len() == 0 { 0 } else { digits_value(s.drop_last()) * 10 + ((s.last() as u32) - 48) as nat }
}

/// The digits part of a number: without a leading '+'.
pub open spec fn digits_part(s: Seq<char>) -> Seq<char> {
    if s.len() > 0 && s[0] == '+' { s.drop_first() } else { s }
}

/// Every character is an ASCII digit.
pub open spec fn all_digits(d: Seq<char>) -> bool {
    forall|i: int| 0 <= i < d.len() ==> '0' <= #[trigger] d[i] <= '9'
}

/// `u16::from_str`: an optional '+' and at least one ASCII digit, of value at most 65535.
pub open spec fn parse_u16(s: Seq<char>) -> Option<u16> {
    let d = digits_part(s);
    if d.len() == 0 || !all_digits(d) || digits_value(d) > 65535 {
        None
    } else {
        Some(digits_value(d) as u16)
    }
}

/// Reads a 16-bit unsigned decimal number.
pub(crate) fn parse_u16_chars(s: &Vec<char>) -> (r: Option<u16>)
    ensures
        r == parse_u16(s@),
{
    let start: usize = if s.len() > 0 && s[0] == '+' { 1 } else { 0 };
    let ghost d = digits_part(s@);
    assert(d =~= s@.subrange(start as int, s@.len() as int));
    if start >= s.len() {
        return None;
    }
    let mut v: u32 = 0;
    let mut i: usize = start;
    while i < s.len()
        invariant
            start <= i <= s@.len(),
            start < s@.len(),
            d == s@.subrange(start as int, s@.len() as int),
            d == digits_part(s@),
            forall|j: int| start <= j < i ==> '0' <= #[trigger] s@[j] <= '9',
            v == digits_value(s@.subrange(start as int, i as int)),
            v <= 65535,
        decreases s@.len() - i,
    {
        let c = s[i];
        assert(s@.subrange(start as int, i + 1).drop_last() =~= s@.subrange(start as int, i as int));
        if c < '0' || c > '9' {
            assert(d[i - start] == c);
            assert(!('0' <= d[i - start] <= '9'));
            return None;
        }
        let nv: u32 = v * 10 + (c as u32 - 48);
        if nv > 65535 {
            proof {
                assert(d.subrange(0, i + 1 - start) =~= s@.subrange(start as int, i + 1));
                if all_digits(d) {
                    lemma_digits_grow(d, (i + 1 - start) as int);
                }
            }
            return None;
        }
        v = nv;
        i = i + 1;
    }
    assert(s@.subrange(start as int, i as int) =~= d);
    Some(v as u16)
}

/// A prefix of digits never has a larger value than the whole digit string.
proof fn lemma_digits_grow(d: Seq<char>, k: int)
    requires
        0 <= k <= d.len(),
        all_digits(d),
    ensures
        digits_value(d.subrange(0, k)) <= digits_value(d),
    decreases d.len() - k,
{
    if k < d.len() {
        lemma_digits_grow(d, k + 1);
        assert(d.subrange(0, k + 1).drop_last() =~= d.subrange(0, k));
    } else {
        assert(d.subrange(0, k) =~= d);
    }
}

/// The value of a hexadecimal digit byte, either case.
pub open spec fn hexval(b: u8) -> Option<u8> {
    if 48 <= b <= 57 {
        Some((b - 48) as u8)
    } else if 97 <= b <= 102 {
        Some((b - 87) as u8)
    } else if 65 <= b <= 70 {
        Some((b - 55) as u8)
    } else {
        None
    }
}

fn hex_value(b: u8) -> (r: Option<u8>)
    ensures
        r == hexval(b),
{
    if 48 <= b && b <= 57 {
        Some(b - 48)
    } else if 97 <= b && b <= 102 {
        Some(b - 87)
    } else if 65 <= b && b <= 70 {
        Some(b - 55)
    } else {
        None
    }
}

/// A node id written as 64 hexadecimal digits.
pub open spec fn hex32(b: Seq<u8>) -> Option<Seq<u8>> {
    if b.len() != 64 || !(forall|i: int| 0 <= i < 64 ==> (#[trigger] hexval(b[i])) is Some) {
        None
    } else {
        Some(Seq::new(32, |i: int| (hexval(b[2 * i])->0 * 16 + hexval(b[2 * i + 1])->0) as u8))
    }
}

/// Reads a node id from hexadecimal text.
fn hex_decode(s: &str) -> (r: Option<[u8; 32]>)
    ensures
        match hex32(s.spec_bytes()) {
            Some(v) => r is Some && r->0@ == v,
            None => r is None,
        },
{
    let b = s.as_bytes();
    if b.len() != 64 {
        return None;
    }
    let mut out: Vec<u8> = Vec::new();
    let mut i: usize = 0;
    while i < 32
        invariant
            i <= 32,
            b@.len() == 64,
            b@ == s.spec_bytes(),
            forall|j: int| 0 <= j < 2 * i ==> (#[trigger] hexval(b@[j])) is Some,
            out@.len() == i,
            forall|j: int| 0 <= j < i ==> #[trigger] out@[j] == (hexval(b@[2 * j])->0 * 16 + hexval(b@[2 * j + 1])->0) as u8,
        decreases 32 - i,
    {
        let hi = match hex_value(b[2 * i]) {
            Some(v) => v,
            None => {
                assert(hexval(b@[2 * i as int]) is None);
                return None;
            },
        };
        let lo = match hex_value(b[2 * i + 1]) {
            Some(v) => v,
            None => {
                assert(hexval(b@[2 * i + 1]) is None);
                return None;
            },
        };
        out.push(hi * 16 + lo);
        i = i + 1;
    }
    let a = array32(&out);
    assert(a@ =~= hex32(s.spec_bytes())->0);
    Some(a)
}

/// What announcements carry: the peer's port, node id and name.
pub type Sighting = (Option<u16>, Option<Seq<u8>>, Option<Seq<char>>);

/// The node id in the lines of a TXT record: the last "id=" line decides.
pub open spec fn id_from_lines(ls: Seq<Seq<char>>, cur: Option<Seq<u8>>) -> Option<Seq<u8>>
    decreases ls.len(),
{
    if ls.len() == 0 {
        cur
    } else {
        let c = id_from_lines(ls.drop_last(), cur);
        let l = ls.last();
        if l.len() >= 3 && l.take(3) == "id="@ { hex32(vstd::utf8::encode_utf8(l.skip(3))) } else { c }
    }
}

/// The end of an instance name: a dot and the service type.
pub open spec fn service_suffix() -> Seq<char> {
    "."@ + SOCD_SERVICE_TYPE@
}

/// What one record adds: an SRV record whose data is UTF-8 with at least three
/// words sets the port to the third word read as a number; a TXT record whose
/// data is UTF-8 sets the node id from its "id=" lines and, when its name ends
/// with the service, the node name to what comes before.
pub open spec fn scan_record(st: Sighting, r: RecordView) -> Sighting {
    if !vstd::utf8::valid_utf8(r.3) {
        st
    } else {
        let text = vstd::utf8::decode_utf8(r.3);
        match r.1 {
            DnsRecordType::SRV => {
                let ws = words(text);
                if ws.len() >= 3 { (parse_u16(ws[2]), st.1, st.2) } else { st }
            },
            DnsRecordType::TXT => {
                let id = id_from_lines(split_on(text, '\n'), st.1);
                let sl = service_suffix().len();
                let name = if r.0.len() >= sl && r.0.subrange(r.0.len() - sl, r.0.len() as int) == service_suffix() {
                    Some(r.0.subrange(0, r.0.len() - sl))
                } else {
                    st.2
                };
                (st.0, id, name)
            },
            _ => st,
        }
    }
}

/// What a list of records carries, read in order.
pub open spec fn scan_records(rs: Seq<RecordView>, st: Sighting) -> Sighting
    decreases rs.len(),
{
    if rs.len() == 0 { st } else { scan_record(scan_records(rs.drop_last(), st), rs.last()) }
}

/// The node id in a TXT record's lines, starting from `cur`.
fn id_from_text(lines: &Vec<Vec<char>>, cur: Option<[u8; 32]>) -> (r: Option<[u8; 32]>)
    ensures
        match id_from_lines(lines@.map_values(|w: Vec<char>| w@), match cur { Some(a) => Some(a@), None => None }) {
            Some(v) => r is Some && r->0@ == v,
            None => r is None,
        },
{
    let ghost lv = lines@.map_values(|w: Vec<char>| w@);
    let ghost c0 = match cur { Some(a) => Some(a@), None => None::<Seq<u8>> };
    let mut id = cur;
    let mut i: usize = 0;
    proof {
        reveal_strlit("id=");
    }
    while i < lines.len()
        invariant
            i <= lines@.len(),
            lv == lines@.map_values(|w: Vec<char>| w@),
            "id="@ == seq!['i', 'd', '='],
            match id_from_lines(lv.take(i as int), c0) {
                Some(v) => id is Some && id->0@ == v,
                None => id is None,
            },
        decreases lines@.len() - i,
    {
        let l = &lines[i];
        assert(lv.take(i + 1).drop_last() =~= lv.take(i as int));
        assert(lv.take(i + 1).last() == l@);
        if l.len() >= 3 && l[0] == 'i' && l[1] == 'd' && l[2] == '=' {
            assert(l@.take(3) =~= "id="@);
            let mut rest = String::new();
            let mut k: usize = 3;
            while k < l.len()
                invariant
                    3 <= k <= l@.len(),
                    rest@ == l@.subrange(3, k as int),
                decreases l@.len() - k,
            {
                string_push(&mut rest, l[k]);
                k = k + 1;
                assert(rest@ =~= l@.subrange(3, k as int));
            }
            assert(rest@ =~= l@.skip(3));
            id = hex_decode(rest.as_str());
        } else {
            assert(!(l@.len() >= 3 && l@.take(3) == "id="@)) by {
                if l@.len() >= 3 && l@.take(3) == "id="@ {
                    assert(l@.take(3)[0] == 'i' && l@.take(3)[1] == 'd' && l@.take(3)[2] == '=');
                }
            }
        }
        i = i + 1;
    }
    assert(lv.take(i as int) =~= lv);
    id
}

/// Whether `s` ends with `t`.
fn ends_with(s: &Vec<char>, t: &Vec<char>) -> (b: bool)
    ensures
        b == (s@.len() >= t@.len() && s@.subrange(s@.len() - t@.len(), s@.len() as int) == t@),
{
    if s.len() < t.len() {
        return false;
    }
    let cut = s.len() - t.len();
    let slen = s.len();
    let mut k: usize = 0;
    while k < t.len()
        invariant
            k <= t@.len(),
            slen == s@.len(),
            cut + t@.len() == slen,
            forall|j: int| 0 <= j < k ==> s@[cut + j] == t@[j],
        decreases t@.len() - k,
    {
        if s[cut + k] != t[k] {
            assert(s@.subrange(cut as int, s@.len() as int)[k as int] != t@[k as int]);
            return false;
        }
        k = k + 1;
    }
    assert(s@.subrange(cut as int, s@.len() as int) =~= t@);
    true
}

/// The sighting `st` after record `r`.
fn scan_one(r: &DnsRecord, port: &mut Option<u16>, id: &mut Option<[u8; 32]>, name: &mut Option<String>)
    ensures
        ({
            let st0 = (*old(port), match *old(id) { Some(a) => Some(a@), None => None }, match *old(name) { Some(x) => Some(x@), None => None });
            let st1 = (*final(port), match *final(id) { Some(a) => Some(a@), None => None }, match *final(name) { Some(x) => Some(x@), None => None });
            st1 == scan_record(st0, record_view(*r))
        }),
{
    let text = match utf8_to_string(r.data.as_slice()) {
        Some(t) => t,
        None => return,
    };
    let chars = chars_of(text.as_str());
    match r.rtype {
        DnsRecordType::SRV => {
            let ws = words_of(&chars);
            if ws.len() >= 3 {
                *port = parse_u16_chars(&ws[2]);
            }
        },
        DnsRecordType::TXT => {
            let lines = split_chars(&chars, '\n');
            *id = id_from_text(&lines, *id);
            let nm = chars_of(r.name.as_str());
            let mut suffix = String::from_str(".");
            suffix.append(SOCD_SERVICE_TYPE);
            let sfx = chars_of(suffix.as_str());
            if ends_with(&nm, &sfx) {
                let cut = nm.len() - sfx.len();
                let mut prefix = String::new();
                let mut j: usize = 0;
                while j < cut
                    invariant
                        j <= cut,
                        cut <= nm@.len(),
                        prefix@ == nm@.subrange(0, j as int),
                    decreases cut - j,
                {
                    string_push(&mut prefix, nm[j]);
                    j = j + 1;
                    assert(prefix@ =~= nm@.subrange(0, j as int));
                }
                *name = Some(prefix);
            }
        },
        _ => {},
    }
}

/// What the engine records.
#[derive(Clone, Copy, PartialEq, Eq, Structural, Debug)]
pub enum DiscoveryEventKind {
    QuerySent,
    AnnouncementSent,
    ResponseReceived,
    NewPeerFound,
    PeerUpdated,
    PeerLost,
}

/// An entry of the engine's log.
#[derive(Debug)]
pub struct DiscoveryEvent {
    pub tick: u64,
    pub kind: DiscoveryEventKind,
    pub peer_name: String,
}

/// A log entry as plain values.
pub type EventView = (u64, DiscoveryEventKind, Seq<char>);

/// The plain values of a log entry.
pub open spec fn event_view(e: DiscoveryEvent) -> EventView {
    (e.tick, e.kind, e.peer_name@)
}

/// The log after adding `e`: the last 50 entries.
pub open spec fn logged(v: Seq<EventView>, e: EventView) -> Seq<EventView> {
    let w = v.push(e);
    if w.len() > 50 { w.subrange(w.len() - 50, w.len() as int) } else { w }
}

/// The discovery engine's state.
pub struct DiscoveryEngine {
    pub running: bool,
    pub last_query_tick: u64,
    pub queries_sent: u64,
    pub responses_received: u64,
    pub event_log: Vec<DiscoveryEvent>,
}

impl DiscoveryEngine {
    /// The log as plain values.
    pub open spec fn log_view(&self) -> Seq<EventView> {
        self.event_log@.map_values(|e: DiscoveryEvent| event_view(e))
    }

    /// A stopped engine with nothing sent or received.
    pub fn new() -> (e: DiscoveryEngine)
        ensures
            !e.running && e.last_query_tick == 0 && e.queries_sent == 0 && e.responses_received == 0,
            e.event_log@.len() == 0,
    {
        DiscoveryEngine { running: false, last_query_tick: 0, queries_sent: 0, responses_received: 0, event_log: Vec::new() }
    }

    /// Adds an entry to the log, which keeps the last 50.
    pub fn log(&mut self, tick: u64, kind: DiscoveryEventKind, peer_name: &str)
        ensures
            final(self).log_view() == logged(old(self).log_view(), (tick, kind, peer_name@)),
            final(self).running == old(self).running && final(self).last_query_tick == old(self).last_query_tick,
            final(self).queries_sent == old(self).queries_sent && final(self).responses_received == old(self).responses_received,
    {
        let ghost v0 = self.log_view();
        self.event_log.push(DiscoveryEvent { tick, kind, peer_name: String::from_str(peer_name) });
        assert(self.log_view() =~= v0.push((tick, kind, peer_name@)));
        if self.event_log.len() > 50 {
            let ghost w = self.log_view();
            let n = self.event_log.len() - 50;
            let mut k: usize = 0;
            while k < n
                invariant
                    k <= n,
                    n + 50 == w.len(),
                    self.event_log@.len() == w.len() - k,
                    self.log_view() == w.subrange(k as int, w.len() as int),
                    self.running == old(self).running && self.last_query_tick == old(self).last_query_tick,
                    self.queries_sent == old(self).queries_sent && self.responses_received == old(self).responses_received,
                decreases n - k,
            {
                let ghost before = self.event_log@;
                let ghost bv = self.log_view();
                self.event_log.remove(0);
                assert(self.event_log@ =~= before.subrange(1, before.len() as int));
                assert(self.log_view() =~= bv.subrange(1, bv.len() as int));
                assert(self.log_view() =~= w.subrange(k + 1, w.len() as int));
                k = k + 1;
            }
        }
    }

    /// Makes the discovery query, counts it and logs it; returns it for sending.
    pub fn send_discovery_query(&mut self, tick: u64) -> (p: MdnsPacket)
        requires
            old(self).queries_sent < u64::MAX,
        ensures
            final(self).queries_sent == old(self).queries_sent + 1,
            final(self).last_query_tick == tick,
            final(self).log_view() == logged(old(self).log_view(), (tick, DiscoveryEventKind::QuerySent, "multicast"@)),
            final(self).running == old(self).running && final(self).responses_received == old(self).responses_received,
            packet_view(p) == query_view(),
    {
        let pkt = MdnsPacket::discovery_query();
        self.queries_sent = self.queries_sent + 1;
        self.last_query_tick = tick;
        self.log(tick, DiscoveryEventKind::QuerySent, "multicast");
        pkt
    }

    /// A running engine sends the query again once the rediscovery interval has
    /// passed since the last one; returns the query to send, if any.
    pub fn tick(&mut self, current_tick: u64) -> (p: Option<MdnsPacket>)
        requires
            old(self).queries_sent < u64::MAX,
        ensures
            ({
                let due = old(self).running && sat_sub(current_tick, old(self).last_query_tick) >= REDISCOVERY_INTERVAL_TICKS;
                &&& due ==> p is Some && packet_view(p->0) == query_view()
                    && final(self).queries_sent == old(self).queries_sent + 1 && final(self).last_query_tick == current_tick
                    && final(self).log_view() == logged(old(self).log_view(), (current_tick, DiscoveryEventKind::QuerySent, "multicast"@))
                &&& !due ==> p is None && final(self).queries_sent == old(self).queries_sent
                    && final(self).last_query_tick == old(self).last_query_tick && final(self).log_view() == old(self).log_view()
                &&& final(self).running == old(self).running && final(self).responses_received == old(self).responses_received
            }),
    {
        if !self.running {
            return None;
        }
        let elapsed = current_tick.saturating_sub(self.last_query_tick);
        if elapsed >= REDISCOVERY_INTERVAL_TICKS {
            Some(self.send_discovery_query(current_tick))
        } else {
            None
        }
    }
}

/// `a - b`, or 0 when `b` is larger.
pub open spec fn sat_sub(a: u64, b: u64) -> u64 {
    if a >= b { (a - b) as u64 } else { 0 }
}

/// The discovery query: one PTR question for the service.
pub open spec fn query_view() -> PacketView {
    (MdnsHeader { id: 0, flags: 0, qdcount: 1, ancount: 0, nscount: 0, arcount: 0 },
        seq![(SOCD_SERVICE_TYPE@, DnsRecordType::PTR, false)], Seq::<RecordView>::empty(), Seq::<RecordView>::empty())
}

/// Whether `a` and `b` hold the same text.
pub(crate) fn same_text(a: &str, b: &str) -> (r: bool)
    ensures
        r == (a@ == b@),
{
    let x = chars_of(a);
    let y = chars_of(b);
    if x.len() != y.len() {
        assert(a@.len() != b@.len());
        return false;
    }
    let mut i: usize = 0;
    while i < x.len()
        invariant
            i <= x@.len(),
            x@ == a@,
            y@ == b@,
            x@.len() == y@.len(),
            forall|j: int| 0 <= j < i ==> x@[j] == y@[j],
        decreases x@.len() - i,
    {
        if x[i] != y[i] {
            assert(a@[i as int] != b@[i as int]);
            return false;
        }
        i = i + 1;
    }
    assert(x@ =~= y@);
    true
}

/// What the answers and additional records of a message carry.
pub open spec fn sighting_of(p: PacketView) -> Sighting {
    scan_records(p.2 + p.3, (None, None, None))
}

/// The name a sighting gives the peer: its instance name, or "socd-peer".
pub open spec fn sighting_name(st: Sighting) -> Seq<char> {
    match st.2 {
        Some(n) => n,
        None => "socd-peer"@,
    }
}

/// Whether a sighting names another node: it has a port and a node id, and the
/// id is not this node's.
pub open spec fn registers(st: Sighting, node: Option<LocalNode>) -> bool {
    st.0 is Some && st.1 is Some && st.1->0 != own_id(node)
}

/// Whether some question asks for the service's PTR record.
pub open spec fn asks_for_us(qs: Seq<QuestionView>) -> bool {
    exists|i: int| 0 <= i < qs.len() && (#[trigger] qs[i]).0 == SOCD_SERVICE_TYPE@ && qs[i].1 == DnsRecordType::PTR
}

/// This node's id, zeros before the node exists.
pub open spec fn own_id(node: Option<LocalNode>) -> Seq<u8> {
    match node {
        Some(n) => n.node_id@,
        None => zero_id()@,
    }
}

/// This node's announcement.
pub fn announcement_for(node: &Option<LocalNode>) -> (r: Option<MdnsPacket>)
    ensures
        r is Some <==> node is Some,
        r is Some ==> packet_view(r->0) == announcement_view(node->0.name@, hex_of(node->0.node_id@), SOCD_PORT),
{
    match get_info(node) {
        Some((name, id, _proto)) => {
            let hex = hex_string(id.as_slice());
            Some(MdnsPacket::announcement(name.as_str(), hex.as_str(), SOCD_PORT))
        },
        None => None,
    }
}

/// Handles a received message: a query for the service is answered with this
/// node's announcement (returned, to be sent back to the asker); an
/// announcement that names a node id and a port of another node records that
/// node as discovered at the sender's address, counts the response and logs it.
pub fn handle_packet(engine: &mut DiscoveryEngine, peers: &mut PeerTable, node: &Option<LocalNode>, pkt: &MdnsPacket,
    src_ip: Ipv4Addr, src_port: u16) -> (r: Option<MdnsPacket>)
    requires
        old(peers).wf(),
        old(engine).responses_received < u64::MAX,
    ensures
        r is Some <==> asks_for_us(packet_view(*pkt).1) && node is Some,
        r is Some ==> packet_view(r->0) == announcement_view(node->0.name@, hex_of(node->0.node_id@), SOCD_PORT),
        registers(sighting_of(packet_view(*pkt)), *node) ==> exists|id: [u8; 32]| id@ == sighting_of(packet_view(*pkt)).1->0
            && sighted(*old(peers), *final(peers), id, zero_id(), sighting_name(sighting_of(packet_view(*pkt))),
                crate::net::ipv4_text(src_ip.0@), sighting_of(packet_view(*pkt)).0->0, false),
        registers(sighting_of(packet_view(*pkt)), *node) ==> final(engine).responses_received == old(engine).responses_received + 1,
        registers(sighting_of(packet_view(*pkt)), *node) ==> final(engine).log_view() == logged(old(engine).log_view(),
            (old(engine).last_query_tick, DiscoveryEventKind::ResponseReceived, sighting_name(sighting_of(packet_view(*pkt))))),
        !registers(sighting_of(packet_view(*pkt)), *node) ==> *final(peers) == *old(peers)
            && final(engine).responses_received == old(engine).responses_received
            && final(engine).log_view() == old(engine).log_view(),
        final(peers).wf(),
        final(engine).running == old(engine).running && final(engine).last_query_tick == old(engine).last_query_tick,
        final(engine).queries_sent == old(engine).queries_sent,
{
    let ghost pv = packet_view(*pkt);
    let mut asked = false;
    let mut i: usize = 0;
    while i < pkt.questions.len()
        invariant
            i <= pkt.questions@.len(),
            pv == packet_view(*pkt),
            asked == exists|j: int| 0 <= j < i && (#[trigger] pv.1[j]).0 == SOCD_SERVICE_TYPE@ && pv.1[j].1 == DnsRecordType::PTR,
        decreases pkt.questions@.len() - i,
    {
        let q = &pkt.questions[i];
        assert(pv.1[i as int] == question_view(*q));
        if same_text(q.name.as_str(), SOCD_SERVICE_TYPE) && q.qtype == DnsRecordType::PTR {
            asked = true;
        }
        i = i + 1;
    }
    let response = if asked { announcement_for(node) } else { None };
    let mut port: Option<u16> = None;
    let mut id: Option<[u8; 32]> = None;
    let mut name: Option<String> = None;
    let ghost all = pv.2 + pv.3;
    let mut k: usize = 0;
    proof {
        assert(all.take(0) =~= Seq::<RecordView>::empty());
    }
    while k < pkt.answers.len()
        invariant
            k <= pkt.answers@.len(),
            pv == packet_view(*pkt),
            all == pv.2 + pv.3,
            (port, match id { Some(a) => Some(a@), None => None::<Seq<u8>> }, match name { Some(x) => Some(x@), None => None::<Seq<char>> })
                == scan_records(all.take(k as int), (None, None, None)),
        decreases pkt.answers@.len() - k,
    {
        assert(all.take(k + 1).drop_last() =~= all.take(k as int));
        assert(all.take(k + 1).last() == record_view(pkt.answers@[k as int]));
        scan_one(&pkt.answers[k], &mut port, &mut id, &mut name);
        k = k + 1;
    }
    let mut k: usize = 0;
    let na = pkt.answers.len();
    while k < pkt.additional.len()
        invariant
            k <= pkt.additional@.len(),
            na == pv.2.len(),
            pv == packet_view(*pkt),
            all == pv.2 + pv.3,
            (port, match id { Some(a) => Some(a@), None => None::<Seq<u8>> }, match name { Some(x) => Some(x@), None => None::<Seq<char>> })
                == scan_records(all.take(na + k), (None, None, None)),
        decreases pkt.additional@.len() - k,
    {
        assert(all.take(na + k + 1).drop_last() =~= all.take(na + k));
        assert(all.take(na + k + 1).last() == record_view(pkt.additional@[k as int]));
        scan_one(&pkt.additional[k], &mut port, &mut id, &mut name);
        k = k + 1;
    }
    assert(all.take(na + k) =~= all);
    let ghost st = scan_records(all, (None, None, None));
    let ghost old_peers = *peers;
    let ghost old_engine_log = engine.log_view();
    match (id, port) {
        (Some(nid), Some(p)) => {
            let own = get_node_id(node);
            proof {
                assert(own@ == own_id(*node)) by {
                    match *node {
                        Some(n) => {},
                        None => {
                            assert(zero_id()@ =~= Seq::new(32, |i: int| 0u8));
                        },
                    }
                }
            }
            if !crate::dag::same_hash(&nid, &own) {
                let nm = match name {
                    Some(n) => n,
                    None => String::from_str("socd-peer"),
                };
                let address = src_ip.to_string();
                let zk: [u8; 32] = [0u8, 0, 0, 0, 0, 0, 0, 0, 0, 0, 0, 0, 0, 0, 0, 0, 0, 0, 0, 0, 0, 0, 0, 0, 0, 0, 0, 0, 0, 0, 0, 0];
                peers.add_discovered(nid, zk, nm.as_str(), address.as_str(), p, false);
                proof {
                    let name_v = sighting_name(st);
                    assert(nm@ == name_v);
                    assert(nid@ == st.1->0);
                    assert(sighted(old_peers, *peers, nid, zero_id(), name_v, crate::net::ipv4_text(src_ip.0@), st.0->0, false));
                }
                engine.responses_received = engine.responses_received + 1;
                let t = engine.last_query_tick;
                engine.log(t, DiscoveryEventKind::ResponseReceived, nm.as_str());
            }
        },
        _ => {},
    }
    response
}

/// Reads a UDP payload sent to the discovery port and handles it; returns
/// the answer to send back, if any. A payload that is not a DNS message is ignored.
pub fn handle_udp(engine: &mut DiscoveryEngine, peers: &mut PeerTable, node: &Option<LocalNode>, payload: &[u8],
    src_ip: Ipv4Addr, src_port: u16) -> (r: Option<MdnsPacket>)
    requires
        old(peers).wf(),
        old(engine).responses_received < u64::MAX,
    ensures
        final(peers).wf(),
        packet_parse(payload@) matches Some(pv) ==> registers(sighting_of(pv), *node)
            ==> final(engine).responses_received == old(engine).responses_received + 1,
        packet_parse(payload@) is None ==> r is None && *final(peers) == *old(peers)
            && final(engine).log_view() == old(engine).log_view()
            && final(engine).responses_received == old(engine).responses_received,
        packet_parse(payload@) matches Some(pv) ==> (r is Some <==> asks_for_us(pv.1) && node is Some),
{
    match MdnsPacket::parse(payload) {
        Some(pkt) => handle_packet(engine, peers, node, &pkt, src_ip, src_port),
        None => None,
    }
}

/// Starts the engine and makes the first query and this node's announcement,
/// both to be sent by multicast.
pub fn init(engine: &mut DiscoveryEngine, node: &Option<LocalNode>) -> (r: (MdnsPacket, Option<MdnsPacket>))
    requires
        old(engine).queries_sent < u64::MAX,
    ensures
        final(engine).running,
        final(engine).queries_sent == old(engine).queries_sent + 1,
        final(engine).last_query_tick == 0,
        packet_view(r.0) == query_view(),
        r.1 is Some <==> node is Some,
        r.1 is Some ==> packet_view(r.1->0) == announcement_view(node->0.name@, hex_of(node->0.node_id@), SOCD_PORT),
{
    engine.running = true;
    let q = engine.send_discovery_query(0);
    let a = announcement_for(node);
    (q, a)
}

/// Queries sent and responses received.
pub fn get_stats(engine: &DiscoveryEngine) -> (r: (u64, u64))
    ensures
        r == (engine.queries_sent, engine.responses_received),
{
    (engine.queries_sent, engine.responses_received)
}

/// A node id in lower-case hexadecimal.
pub fn hex_encode(bytes: &[u8]) -> (s: String)
    ensures
        s@ == hex_of(bytes@),
{
    hex_string(bytes)
}

} // verus!
