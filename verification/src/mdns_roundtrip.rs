//! What a multicast DNS message written by `MdnsPacket::serialize` reads
//! back as through `MdnsPacket::parse`.
use vstd::prelude::*;
use vstd::utf8::{encode_utf8, decode_utf8, valid_utf8};
use crate::util::{be16, be32, hi8, lo8};
use crate::discovery::{split_dot, labels_enc, label_len, name_enc, name_parse, name_decode, join_labels,
    lemma_split_dot_nonempty, u16_be, u32_be, rd16, type_code, type_of_code, MdnsHeader, header_bytes, header_at,
    RecordView, QuestionView, PacketView, record_enc, record_parse, question_enc, question_parse, questions_enc,
    records_enc, questions_parse, records_parse, packet_enc, packet_parse};
use crate::ethernet::lemma_be16_split;
use crate::snapshot::lemma_split;

verus! {

/// The position of the last dot of `b`, or -1.
pub open spec fn last_dot(b: Seq<u8>) -> int
    decreases b.len(),
{
    if b.len() == 0 { -1 } else if b.last() == 0x2Eu8 { b.len() - 1 } else { last_dot(b.drop_last()) }
}

proof fn lemma_last_dot(b: Seq<u8>)
    ensures
        -1 <= last_dot(b) < b.len(),
        last_dot(b) >= 0 ==> b[last_dot(b)] == 0x2Eu8,
        forall|i: int| last_dot(b) < i < b.len() ==> #[trigger] b[i] != 0x2Eu8,
    decreases b.len(),
{
    if b.len() > 0 && b.last() != 0x2Eu8 {
        lemma_last_dot(b.drop_last());
        assert forall|i: int| last_dot(b) < i < b.len() implies #[trigger] b[i] != 0x2Eu8 by {
            if i < b.len() - 1 {
                assert(b[i] == b.drop_last()[i]);
            }
        }
    }
}

/// Bytes without a dot only lengthen the last piece.
proof fn lemma_split_dot_append(x: Seq<u8>, q: Seq<u8>)
    requires
        forall|i: int| 0 <= i < q.len() ==> #[trigger] q[i] != 0x2Eu8,
    ensures
        split_dot(x + q) == split_dot(x).update(split_dot(x).len() - 1, split_dot(x).last() + q),
    decreases q.len(),
{
    lemma_split_dot_nonempty(x);
    if q.len() == 0 {
        assert(x + q =~= x);
        assert(split_dot(x).last() + q =~= split_dot(x).last());
        assert(split_dot(x).update(split_dot(x).len() - 1, split_dot(x).last()) =~= split_dot(x));
    } else {
        let q0 = q.drop_last();
        assert forall|i: int| 0 <= i < q0.len() implies #[trigger] q0[i] != 0x2Eu8 by {
            assert(q0[i] == q[i]);
        }
        lemma_split_dot_append(x, q0);
        assert((x + q).drop_last() =~= x + q0);
        assert((x + q).last() == q.last());
        lemma_split_dot_nonempty(x + q0);
        assert(q[q.len() - 1] != 0x2Eu8);
        let big = split_dot(x);
        let mid = split_dot(x + q0);
        assert(mid.len() == big.len());
        assert(mid.last() == big.last() + q0);
        assert(split_dot(x + q) == mid.update(mid.len() - 1, mid.last().push(q.last())));
        assert(mid.last().push(q.last()) =~= big.last() + q);
        assert(split_dot(x + q) =~= big.update(big.len() - 1, big.last() + q));
    }
}

/// A dot decodes to a dot, and the bytes after it to their own characters.
proof fn lemma_decode_after_dot(q: Seq<u8>)
    requires
        valid_utf8(seq![0x2Eu8] + q),
    ensures
        valid_utf8(q),
        decode_utf8(seq![0x2Eu8] + q) == seq!['.'] + decode_utf8(q),
{
    let r = seq![0x2Eu8] + q;
    assert(r[0] == 0x2Eu8);
    assert(r.subrange(1, r.len() as int) =~= q);
    assert((0x2Eu8 & 0x7Fu8) == 0x2Eu8) by (bit_vector);
    assert(vstd::utf8::pop_first_scalar(r) =~= q);
    assert(vstd::utf8::decode_first_scalar(r) == 0x2Eu32);
    assert((0x2Eu32 as char) == '.');
    assert(decode_utf8(r) =~= seq!['.'] + decode_utf8(q));
}

/// The pieces between the dots of UTF-8 text are UTF-8, and decode to the
/// pieces of its characters: joined again with dots, they give its characters.
pub proof fn lemma_join_labels_utf8(b: Seq<u8>)
    requires
        valid_utf8(b),
    ensures
        forall|i: int| 0 <= i < split_dot(b).len() ==> valid_utf8(#[trigger] split_dot(b)[i]),
        join_labels(split_dot(b)) == decode_utf8(b),
    decreases b.len(),
{
    lemma_last_dot(b);
    let k = last_dot(b);
    let q = b.subrange(k + 1, b.len() as int);
    assert forall|i: int| 0 <= i < q.len() implies #[trigger] q[i] != 0x2Eu8 by {
        assert(q[i] == b[k + 1 + i]);
    }
    if k < 0 {
        assert(Seq::<u8>::empty() + q =~= b);
        lemma_split_dot_append(Seq::empty(), q);
        assert(split_dot(b) =~= seq![b]);
    } else {
        let p = b.subrange(0, k);
        let r = b.subrange(k, b.len() as int);
        vstd::utf8::is_char_boundary_iff_not_is_continuation_byte(b, k);
        vstd::utf8::valid_utf8_split(b, k);
        vstd::utf8::decode_utf8_split(b, k);
        assert(r =~= seq![0x2Eu8] + q);
        lemma_decode_after_dot(q);
        lemma_join_labels_utf8(p);
        lemma_split_dot_nonempty(p);
        assert(p + seq![0x2Eu8] + q =~= b);
        assert((p + seq![0x2Eu8]).drop_last() =~= p);
        assert(split_dot(p + seq![0x2Eu8]) == split_dot(p).push(Seq::<u8>::empty()));
        lemma_split_dot_append(p + seq![0x2Eu8], q);
        let s = split_dot(p);
        assert(split_dot(b) =~= s.push(q)) by {
            assert(Seq::<u8>::empty() + q =~= q);
        }
        assert(s.push(q).drop_last() =~= s);
        assert forall|i: int| 0 <= i < split_dot(b).len() implies valid_utf8(#[trigger] split_dot(b)[i]) by {
            if i < s.len() {
                assert(split_dot(b)[i] == s[i]);
            }
        }
    }
}

/// Labels that the wire form keeps whole: each has 1 to 63 bytes.
pub open spec fn labels_fit(ls: Seq<Seq<u8>>) -> bool {
    forall|i: int| 0 <= i < ls.len() ==> 1 <= (#[trigger] ls[i]).len() <= 63
}

proof fn lemma_labels_enc_front(ls: Seq<Seq<u8>>)
    requires
        ls.len() > 0,
        labels_fit(ls),
    ensures
        labels_enc(ls) == seq![ls[0].len() as u8] + ls[0] + labels_enc(ls.drop_first()),
    decreases ls.len(),
{
    assert(ls[0].take(label_len(ls[0])) =~= ls[0]);
    if ls.len() == 1 {
        assert(ls.drop_last() =~= Seq::<Seq<u8>>::empty());
        assert(ls.drop_first() =~= Seq::<Seq<u8>>::empty());
        assert(labels_enc(ls) =~= seq![ls[0].len() as u8] + ls[0] + labels_enc(ls.drop_first()));
    } else {
        let p = ls.drop_last();
        assert(labels_fit(p)) by {
            assert forall|i: int| 0 <= i < p.len() implies 1 <= (#[trigger] p[i]).len() <= 63 by {
                assert(p[i] == ls[i]);
            }
        }
        lemma_labels_enc_front(p);
        assert(p.drop_first() =~= ls.drop_first().drop_last());
        assert(ls.last().take(label_len(ls.last())) =~= ls.last());
        assert(ls.drop_first().last() == ls.last());
        assert(labels_enc(ls) =~= seq![ls[0].len() as u8] + ls[0] + labels_enc(ls.drop_first()));
    }
}

proof fn lemma_labels_parse(d: Seq<u8>, o: int, ls: Seq<Seq<u8>>)
    requires
        0 <= o,
        labels_fit(ls),
        o + labels_enc(ls).len() + 1 <= d.len(),
        d.subrange(o, o + labels_enc(ls).len() + 1) == labels_enc(ls) + seq![0u8],
    ensures
        name_parse(d, o) == Some((ls, o + labels_enc(ls).len() + 1)),
    decreases ls.len(),
{
    let w = labels_enc(ls) + seq![0u8];
    assert(d[o] == w[0]) by {
        assert(d.subrange(o, o + labels_enc(ls).len() + 1)[0] == d[o]);
    }
    if ls.len() == 0 {
        assert(labels_enc(ls) =~= Seq::<u8>::empty());
    } else {
        lemma_labels_enc_front(ls);
        let l = ls[0];
        let rest = ls.drop_first();
        assert(labels_fit(rest)) by {
            assert forall|i: int| 0 <= i < rest.len() implies 1 <= (#[trigger] rest[i]).len() <= 63 by {
                assert(rest[i] == ls[i + 1]);
            }
        }
        assert(w =~= seq![l.len() as u8] + (l + (labels_enc(rest) + seq![0u8])));
        lemma_split(d, o, seq![l.len() as u8], l + (labels_enc(rest) + seq![0u8]));
        lemma_split(d, o + 1, l, labels_enc(rest) + seq![0u8]);
        assert(d[o] == l.len() as u8);
        lemma_labels_parse(d, o + 1 + l.len(), rest);
        assert(seq![d.subrange(o + 1, o + 1 + l.len())] + rest =~= ls);
    }
}

/// A name the wire form carries unchanged: empty, or made of dot-separated
/// labels of 1 to 63 bytes each.
pub open spec fn name_fits(n: Seq<char>) -> bool {
    n.len() == 0 || labels_fit(split_dot(encode_utf8(n)))
}

/// A name written by the wire form reads back.
pub proof fn lemma_name_roundtrip(d: Seq<u8>, o: int, n: Seq<char>)
    requires
        0 <= o,
        name_fits(n),
        o + name_enc(n).len() <= d.len(),
        d.subrange(o, o + name_enc(n).len()) == name_enc(n),
    ensures
        name_decode(d, o) == Some((n, o + name_enc(n).len())),
{
    let b = encode_utf8(n);
    vstd::utf8::encode_utf8_valid_utf8(n);
    vstd::utf8::encode_utf8_decode_utf8(n);
    let ls = split_dot(b);
    if n.len() == 0 {
        assert(b =~= Seq::<u8>::empty());
        assert(ls == seq![Seq::<u8>::empty()]);
        assert(ls.drop_last() =~= Seq::<Seq<u8>>::empty());
        assert(ls.last() =~= Seq::<u8>::empty());
        assert(labels_enc(Seq::<Seq<u8>>::empty()) =~= Seq::<u8>::empty());
        assert(labels_enc(ls) =~= Seq::<u8>::empty());
        lemma_labels_parse(d, o, Seq::empty());
        assert(join_labels(Seq::<Seq<u8>>::empty()) =~= n);
    } else {
        lemma_labels_parse(d, o, ls);
        lemma_join_labels_utf8(b);
    }
}

proof fn lemma_be32_split(v: u32)
    ensures
        ({
            let b = u32_be(v);
            be32(b[0], b[1], b[2], b[3]) == v
        }),
{
    let b = u32_be(v);
    assert(b[0] as int == v / 0x1000000);
    assert(b[1] as int == (v / 0x10000) % 256);
    assert(b[2] as int == (v / 0x100) % 256);
    assert(b[3] as int == v % 256);
    assert((v / 0x1000000) * 0x1000000 + ((v / 0x10000) % 256) * 0x10000 + ((v / 0x100) % 256) * 0x100 + v % 256 == v)
        by (nonlinear_arith);
}

proof fn lemma_rd16(d: Seq<u8>, o: int, v: u16)
    requires
        0 <= o,
        o + 2 <= d.len(),
        d.subrange(o, o + 2) == u16_be(v),
    ensures
        rd16(d, o) == v,
{
    assert(d[o] == d.subrange(o, o + 2)[0]);
    assert(d[o + 1] == d.subrange(o, o + 2)[1]);
    lemma_be16_split(v);
}

/// A record the wire form carries unchanged: its name fits and its data has
/// fewer than 65536 bytes.
pub open spec fn record_fits(r: RecordView) -> bool {
    name_fits(r.0) && r.3.len() < 0x10000
}

proof fn lemma_record_roundtrip(d: Seq<u8>, o: int, r: RecordView)
    requires
        0 <= o,
        record_fits(r),
        o + record_enc(r).len() <= d.len(),
        d.subrange(o, o + record_enc(r).len()) == record_enc(r),
    ensures
        record_parse(d, o) == Some((r, o + record_enc(r).len())),
{
    let ne = name_enc(r.0);
    let t = u16_be(type_code(r.1));
    let c = u16_be(1);
    let ttl = u32_be(r.2);
    let l = u16_be(r.3.len() as u16);
    assert(record_enc(r) =~= ne + (t + (c + (ttl + (l + r.3)))));
    lemma_split(d, o, ne, t + (c + (ttl + (l + r.3))));
    lemma_name_roundtrip(d, o, r.0);
    let p = o + ne.len();
    lemma_split(d, p, t, c + (ttl + (l + r.3)));
    lemma_rd16(d, p, type_code(r.1));
    lemma_split(d, p + 2, c, ttl + (l + r.3));
    lemma_split(d, p + 4, ttl, l + r.3);
    assert(d[p + 4] == ttl[0] && d[p + 5] == ttl[1] && d[p + 6] == ttl[2] && d[p + 7] == ttl[3]) by {
        assert(d.subrange(p + 4, p + 8)[0] == d[p + 4]);
        assert(d.subrange(p + 4, p + 8)[1] == d[p + 5]);
        assert(d.subrange(p + 4, p + 8)[2] == d[p + 6]);
        assert(d.subrange(p + 4, p + 8)[3] == d[p + 7]);
    }
    lemma_be32_split(r.2);
    lemma_split(d, p + 8, l, r.3);
    lemma_rd16(d, p + 8, r.3.len() as u16);
    assert(type_of_code(type_code(r.1)) == Some(r.1));
}

proof fn lemma_question_roundtrip(d: Seq<u8>, o: int, q: QuestionView)
    requires
        0 <= o,
        name_fits(q.0),
        o + question_enc(q).len() <= d.len(),
        d.subrange(o, o + question_enc(q).len()) == question_enc(q),
    ensures
        question_parse(d, o) == Some((q, o + question_enc(q).len())),
{
    let ne = name_enc(q.0);
    let t = u16_be(type_code(q.1));
    let cls: u16 = if q.2 { 0x8001u16 } else { 0x0001u16 };
    let c = u16_be(cls);
    assert(question_enc(q) =~= ne + (t + c));
    lemma_split(d, o, ne, t + c);
    lemma_name_roundtrip(d, o, q.0);
    let p = o + ne.len();
    lemma_split(d, p, t, c);
    lemma_rd16(d, p, type_code(q.1));
    lemma_rd16(d, p + 2, cls);
    assert(type_of_code(type_code(q.1)) == Some(q.1));
}

proof fn lemma_questions_roundtrip(d: Seq<u8>, o: int, qs: Seq<QuestionView>)
    requires
        0 <= o,
        forall|i: int| 0 <= i < qs.len() ==> name_fits((#[trigger] qs[i]).0),
        o + questions_enc(qs).len() <= d.len(),
        d.subrange(o, o + questions_enc(qs).len()) == questions_enc(qs),
    ensures
        questions_parse(d, o, qs.len()) == Some((qs, o + questions_enc(qs).len())),
    decreases qs.len(),
{
    if qs.len() > 0 {
        let p = qs.drop_last();
        assert forall|i: int| 0 <= i < p.len() implies name_fits((#[trigger] p[i]).0) by {
            assert(p[i] == qs[i]);
        }
        lemma_split(d, o, questions_enc(p), question_enc(qs.last()));
        lemma_questions_roundtrip(d, o, p);
        lemma_question_roundtrip(d, o + questions_enc(p).len(), qs.last());
        assert(p.push(qs.last()) =~= qs);
    } else {
        assert(qs =~= Seq::<QuestionView>::empty());
    }
}

proof fn lemma_records_roundtrip(d: Seq<u8>, o: int, rs: Seq<RecordView>)
    requires
        0 <= o,
        forall|i: int| 0 <= i < rs.len() ==> record_fits(#[trigger] rs[i]),
        o + records_enc(rs).len() <= d.len(),
        d.subrange(o, o + records_enc(rs).len()) == records_enc(rs),
    ensures
        records_parse(d, o, rs.len()) == Some((rs, o + records_enc(rs).len())),
    decreases rs.len(),
{
    if rs.len() > 0 {
        let p = rs.drop_last();
        assert forall|i: int| 0 <= i < p.len() implies record_fits(#[trigger] p[i]) by {
            assert(p[i] == rs[i]);
        }
        lemma_split(d, o, records_enc(p), record_enc(rs.last()));
        lemma_records_roundtrip(d, o, p);
        lemma_record_roundtrip(d, o + records_enc(p).len(), rs.last());
        assert(p.push(rs.last()) =~= rs);
    } else {
        assert(rs =~= Seq::<RecordView>::empty());
    }
}

/// A message the wire form carries unchanged: fewer than 65536 entries in
/// each list, and every name and record fitting.
pub open spec fn packet_fits(p: PacketView) -> bool {
    &&& p.1.len() < 0x10000 && p.2.len() < 0x10000 && p.3.len() < 0x10000
    &&& forall|i: int| 0 <= i < p.1.len() ==> name_fits((#[trigger] p.1[i]).0)
    &&& forall|i: int| 0 <= i < p.2.len() ==> record_fits(#[trigger] p.2[i])
    &&& forall|i: int| 0 <= i < p.3.len() ==> record_fits(#[trigger] p.3[i])
}

/// The header a message is written with: its id and flags, the counts of its
/// lists and no authority records.
pub open spec fn written_header(p: PacketView) -> MdnsHeader {
    MdnsHeader {
        id: p.0.id,
        flags: p.0.flags,
        qdcount: p.1.len() as u16,
        ancount: p.2.len() as u16,
        nscount: 0,
        arcount: p.3.len() as u16,
    }
}

proof fn lemma_header_roundtrip(d: Seq<u8>, h: MdnsHeader)
    requires
        d.len() >= 12,
        d.subrange(0, 12) == header_bytes(h),
    ensures
        header_at(d, 0) == h,
{
    let hb = header_bytes(h);
    assert(hb =~= u16_be(h.id) + (u16_be(h.flags) + (u16_be(h.qdcount) + (u16_be(h.ancount)
        + (u16_be(h.nscount) + u16_be(h.arcount))))));
    lemma_split(d, 0, u16_be(h.id), u16_be(h.flags) + (u16_be(h.qdcount) + (u16_be(h.ancount)
        + (u16_be(h.nscount) + u16_be(h.arcount)))));
    lemma_rd16(d, 0, h.id);
    lemma_split(d, 2, u16_be(h.flags), u16_be(h.qdcount) + (u16_be(h.ancount) + (u16_be(h.nscount) + u16_be(h.arcount))));
    lemma_rd16(d, 2, h.flags);
    lemma_split(d, 4, u16_be(h.qdcount), u16_be(h.ancount) + (u16_be(h.nscount) + u16_be(h.arcount)));
    lemma_rd16(d, 4, h.qdcount);
    lemma_split(d, 6, u16_be(h.ancount), u16_be(h.nscount) + u16_be(h.arcount));
    lemma_rd16(d, 6, h.ancount);
    lemma_split(d, 8, u16_be(h.nscount), u16_be(h.arcount));
    lemma_rd16(d, 8, h.nscount);
    lemma_rd16(d, 10, h.arcount);
}

/// Reading a written message gives back its questions, answers and additional
/// records, under the header it was written with.
#[verifier::rlimit(40)]
pub proof fn lemma_packet_roundtrip(p: PacketView)
    requires
        packet_fits(p),
    ensures
        packet_parse(packet_enc(p)) == Some((written_header(p), p.1, p.2, p.3)),
{
    let h = written_header(p);
    let d = packet_enc(p);
    let hb = header_bytes(h);
    let q = questions_enc(p.1);
    let a = records_enc(p.2);
    let r = records_enc(p.3);
    assert(d =~= hb + (q + (a + r)));
    assert(d.subrange(0, d.len() as int) =~= d);
    lemma_split(d, 0, hb, q + (a + r));
    lemma_header_roundtrip(d, h);
    assert(header_at(d, 0) == h);
    lemma_split(d, 12, q, a + r);
    lemma_questions_roundtrip(d, 12, p.1);
    let p1: int = 12 + q.len() as int;
    lemma_split(d, p1, a, r);
    lemma_records_roundtrip(d, p1, p.2);
    let p2: int = p1 + a.len();
    lemma_records_roundtrip(d, p2, p.3);
    assert(records_parse(d, p2, 0) == Some((Seq::<RecordView>::empty(), p2)));
}

} // verus!
