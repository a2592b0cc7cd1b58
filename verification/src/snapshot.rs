//! The byte format of a file-system snapshot: what `TmpFs::serialize` writes
//! and `TmpFs::deserialize` reads back.
use vstd::prelude::*;
use vstd::utf8::{encode_utf8, decode_utf8, valid_utf8};
use crate::util::{le_bytes, lemma_le_bytes_len, utf8_to_string, copy_bytes, push_le, push_all};
use crate::tmpfs::{Inode, InodeContent, InodeKind, Permissions};

verus! {

/// The content of a node as plain values.
#[verifier::ext_equal]
pub enum ContentView {
    Data(Seq<u8>),
    Entries(Seq<(Seq<char>, u64)>),
    Target(Seq<char>),
}

/// A node as plain values.
#[verifier::ext_equal]
pub struct InodeView {
    pub id: u64,
    pub name: Seq<char>,
    pub kind: InodeKind,
    pub perms: Permissions,
    pub created_at: u64,
    pub modified_at: u64,
    pub content: ContentView,
}

pub open spec fn entries_view(es: Seq<(String, u64)>) -> Seq<(Seq<char>, u64)> {
    es.map_values(|e: (String, u64)| (e.0@, e.1))
}

pub open spec fn content_view(c: InodeContent) -> ContentView {
    match c {
        InodeContent::FileData(d) => ContentView::Data(d@),
        InodeContent::DirEntries(es) => ContentView::Entries(entries_view(es@)),
        InodeContent::SymlinkTarget(t) => ContentView::Target(t@),
    }
}

pub open spec fn inode_view(n: Inode) -> InodeView {
    InodeView {
        id: n.id,
        name: n.name@,
        kind: n.kind,
        perms: n.perms,
        created_at: n.created_at,
        modified_at: n.modified_at,
        content: content_view(n.content),
    }
}

pub open spec fn inodes_view(s: Seq<Inode>) -> Seq<InodeView> {
    s.map_values(|n: Inode| inode_view(n))
}

// ---------------------------------------------------------------- encoding

/// The eight bytes `SOCDFS01` that open every snapshot.
pub open spec fn magic() -> Seq<u8> {
    seq![0x53u8, 0x4f, 0x43, 0x44, 0x46, 0x53, 0x30, 0x31]
}

/// The concatenation of `f` over `s`.
pub open spec fn concat_map<T>(s: Seq<T>, f: spec_fn(T) -> Seq<u8>) -> Seq<u8>
    decreases s.len(),
{
    if s.len() == 0 { Seq::empty() } else { concat_map(s.drop_last(), f) + f(s.last()) }
}

/// A string: its UTF-8 length in two bytes (kept modulo 65536), then its UTF-8 bytes.
pub open spec fn str_enc(s: Seq<char>) -> Seq<u8> {
    le_bytes((encode_utf8(s).len() % 65536) as u64, 2) + encode_utf8(s)
}

pub open spec fn entry_enc(e: (Seq<char>, u64)) -> Seq<u8> {
    str_enc(e.0) + le_bytes(e.1, 8)
}

pub open spec fn entry_enc_f() -> spec_fn((Seq<char>, u64)) -> Seq<u8> {
    |e: (Seq<char>, u64)| entry_enc(e)
}

pub open spec fn kind_byte(k: InodeKind) -> u8 {
    match k {
        InodeKind::Directory => 0,
        InodeKind::File => 1,
        InodeKind::Symlink => 2,
    }
}

/// Read, write and execute as bits 0, 1 and 2.
pub open spec fn perm_byte(p: Permissions) -> u8 {
    ((if p.read { 1int } else { 0 }) + (if p.write { 2int } else { 0 }) + (if p.execute { 4int } else { 0 })) as u8
}

/// The content: a tag (1 data, 0 entries, 2 target), then its body; lengths
/// and counts in four bytes, kept modulo 2^32.
pub open spec fn content_enc(c: ContentView) -> Seq<u8> {
    match c {
        ContentView::Data(d) => seq![1u8] + le_bytes((d.len() % 0x1_0000_0000) as u64, 4) + d,
        ContentView::Entries(es) => seq![0u8] + le_bytes((es.len() % 0x1_0000_0000) as u64, 4)
            + concat_map(es, entry_enc_f()),
        ContentView::Target(t) => seq![2u8] + str_enc(t),
    }
}

pub open spec fn inode_enc(n: InodeView) -> Seq<u8> {
    le_bytes(n.id, 8) + str_enc(n.name) + seq![kind_byte(n.kind), perm_byte(n.perms)]
        + le_bytes(n.created_at, 8) + le_bytes(n.modified_at, 8) + content_enc(n.content)
}

pub open spec fn inode_enc_f() -> spec_fn(InodeView) -> Seq<u8> {
    |n: InodeView| inode_enc(n)
}

/// Everything after the total length.
pub open spec fn snapshot_body(s: Seq<InodeView>, next_inode: u64, tick: u64) -> Seq<u8> {
    le_bytes(next_inode, 8) + le_bytes(tick, 8) + le_bytes((s.len() % 0x1_0000_0000) as u64, 4)
        + concat_map(s, inode_enc_f())
}

/// A snapshot: the magic, the total length in eight bytes, the id counter,
/// the tick, the node count and the nodes.
pub open spec fn snapshot_enc(s: Seq<InodeView>, next_inode: u64, tick: u64) -> Seq<u8> {
    let body = snapshot_body(s, next_inode, tick);
    magic() + le_bytes((16 + body.len()) as u64, 8) + body
}

// ---------------------------------------------------------------- parsing

/// The little-endian value of the `n` bytes at `o`.
pub open spec fn le_at(d: Seq<u8>, o: int, n: nat) -> nat
    decreases n,
{
    if n == 0 { 0 } else { d[o] as nat + 256 * le_at(d, o + 1, (n - 1) as nat) }
}

/// A string at `o`, and where it ends; `None` when it runs past the end or is
/// not UTF-8.
pub open spec fn parse_str(d: Seq<u8>, o: int) -> Option<(Seq<char>, int)> {
    if o + 2 > d.len() {
        None
    } else {
        let l = le_at(d, o, 2) as int;
        if o + 2 + l > d.len() {
            None
        } else if !valid_utf8(d.subrange(o + 2, o + 2 + l)) {
            None
        } else {
            Some((decode_utf8(d.subrange(o + 2, o + 2 + l)), o + 2 + l))
        }
    }
}

/// The first position from `i` on whose key is `k`.
pub open spec fn key_pos<K, V>(s: Seq<(K, V)>, k: K, i: nat) -> Option<nat>
    decreases s.len() - i,
{
    if i >= s.len() { None } else if s[i as int].0 == k { Some(i) } else { key_pos(s, k, i + 1) }
}

/// Inserting into a map kept as a list: a present key gets the new value in
/// place, a new one goes at the end.
pub open spec fn key_insert<K, V>(s: Seq<(K, V)>, k: K, v: V) -> Seq<(K, V)> {
    match key_pos(s, k, 0) {
        Some(i) => s.update(i as int, (k, v)),
        None => s.push((k, v)),
    }
}

/// The first position from `i` on of the node with id `id`.
pub open spec fn id_pos(s: Seq<InodeView>, id: u64, i: nat) -> Option<nat>
    decreases s.len() - i,
{
    if i >= s.len() { None } else if s[i as int].id == id { Some(i) } else { id_pos(s, id, i + 1) }
}

/// Inserting a node: one with the same id is replaced in place, a new one goes at the end.
pub open spec fn id_insert(s: Seq<InodeView>, n: InodeView) -> Seq<InodeView> {
    match id_pos(s, n.id, 0) {
        Some(i) => s.update(i as int, n),
        None => s.push(n),
    }
}

/// `count` directory entries from `o` on, inserted into `acc`.
pub open spec fn parse_entries(d: Seq<u8>, o: int, count: nat, acc: Seq<(Seq<char>, u64)>)
    -> Option<(Seq<(Seq<char>, u64)>, int)>
    decreases count,
{
    if count == 0 {
        Some((acc, o))
    } else {
        match parse_str(d, o) {
            None => None,
            Some((name, o1)) => if o1 + 8 > d.len() {
                None
            } else {
                parse_entries(d, o1 + 8, (count - 1) as nat, key_insert(acc, name, le_at(d, o1, 8) as u64))
            },
        }
    }
}

pub open spec fn kind_of_byte(b: u8) -> Option<InodeKind> {
    if b == 0 {
        Some(InodeKind::Directory)
    } else if b == 1 {
        Some(InodeKind::File)
    } else if b == 2 {
        Some(InodeKind::Symlink)
    } else {
        None
    }
}

pub open spec fn perms_of_byte(b: u8) -> Permissions {
    Permissions { read: b % 2 == 1, write: (b / 2) % 2 == 1, execute: (b / 4) % 2 == 1 }
}

/// The content with tag `tag` whose body starts at `o`.
pub open spec fn parse_content(d: Seq<u8>, o: int, tag: u8) -> Option<(ContentView, int)> {
    if tag == 1 {
        if o + 4 > d.len() {
            None
        } else {
            let l = le_at(d, o, 4) as int;
            if o + 4 + l > d.len() {
                None
            } else {
                Some((ContentView::Data(d.subrange(o + 4, o + 4 + l)), o + 4 + l))
            }
        }
    } else if tag == 0 {
        if o + 4 > d.len() {
            None
        } else {
            match parse_entries(d, o + 4, le_at(d, o, 4), Seq::empty()) {
                Some((es, o2)) => Some((ContentView::Entries(es), o2)),
                None => None,
            }
        }
    } else if tag == 2 {
        match parse_str(d, o) {
            Some((t, o2)) => Some((ContentView::Target(t), o2)),
            None => None,
        }
    } else {
        None
    }
}

/// The node at `o`, and where it ends.
pub open spec fn parse_inode(d: Seq<u8>, o: int) -> Option<(InodeView, int)> {
    if o + 8 > d.len() {
        None
    } else {
        let id = le_at(d, o, 8) as u64;
        match parse_str(d, o + 8) {
            None => None,
            Some((name, o2)) => if o2 + 2 > d.len() {
                None
            } else {
                match kind_of_byte(d[o2]) {
                    None => None,
                    Some(kind) => {
                        let perms = perms_of_byte(d[o2 + 1]);
                        let o3 = o2 + 2;
                        if o3 + 16 > d.len() {
                            None
                        } else if o3 + 17 > d.len() {
                            None
                        } else {
                            match parse_content(d, o3 + 17, d[o3 + 16]) {
                                None => None,
                                Some((content, o4)) => Some((InodeView {
                                    id,
                                    name,
                                    kind,
                                    perms,
                                    created_at: le_at(d, o3, 8) as u64,
                                    modified_at: le_at(d, o3 + 8, 8) as u64,
                                    content,
                                }, o4)),
                            }
                        }
                    },
                }
            },
        }
    }
}

/// `count` nodes from `o` on, inserted into `acc`.
pub open spec fn parse_inodes(d: Seq<u8>, o: int, count: nat, acc: Seq<InodeView>) -> Option<Seq<InodeView>>
    decreases count,
{
    if count == 0 {
        Some(acc)
    } else {
        match parse_inode(d, o) {
            None => None,
            Some((n, o2)) => parse_inodes(d, o2, (count - 1) as nat, id_insert(acc, n)),
        }
    }
}

/// What a snapshot holds: its nodes, the tick and the id counter; `None` when
/// it is shorter than its header, lacks the magic, claims more bytes than it
/// has, or a node does not parse.
pub open spec fn parse_snapshot(d: Seq<u8>) -> Option<(Seq<InodeView>, u64, u64)> {
    if d.len() < 36 {
        None
    } else if d.subrange(0, 8) != magic() {
        None
    } else if le_at(d, 8, 8) > d.len() {
        None
    } else {
        match parse_inodes(d, 36, le_at(d, 32, 4), Seq::empty()) {
            Some(s) => Some((s, le_at(d, 24, 8) as u64, le_at(d, 16, 8) as u64)),
            None => None,
        }
    }
}

// ---------------------------------------------------------------- lemmas

pub open spec fn pow256(n: nat) -> nat
    decreases n,
{
    if n == 0 { 1 } else { 256 * pow256((n - 1) as nat) }
}

proof fn lemma_pow256_values()
    ensures
        pow256(2) == 0x1_0000,
        pow256(4) == 0x1_0000_0000,
        pow256(8) == 0x1_0000_0000_0000_0000,
{
    reveal_with_fuel(pow256, 9);
}

/// Splits a window of `d` that holds `a + b` into its two parts.
pub proof fn lemma_split(d: Seq<u8>, o: int, a: Seq<u8>, b: Seq<u8>)
    requires
        0 <= o,
        o + a.len() + b.len() <= d.len(),
        d.subrange(o, o + a.len() + b.len()) == a + b,
    ensures
        d.subrange(o, o + a.len()) == a,
        d.subrange(o + a.len(), o + a.len() + b.len()) == b,
{
    assert forall|k: int| 0 <= k < a.len() implies d.subrange(o, o + a.len())[k] == a[k] by {
        assert(d.subrange(o, o + a.len() + b.len())[k] == (a + b)[k]);
    }
    assert(d.subrange(o, o + a.len()) =~= a);
    assert forall|k: int| 0 <= k < b.len() implies d.subrange(o + a.len(), o + a.len() + b.len())[k] == b[k] by {
        assert(d.subrange(o, o + a.len() + b.len())[a.len() + k] == (a + b)[a.len() + k]);
        assert(d.subrange(o, o + a.len() + b.len())[a.len() + k] == d[o + a.len() + k]);
        assert(d.subrange(o + a.len(), o + a.len() + b.len())[k] == d[o + a.len() + k]);
        assert((a + b)[a.len() + k] == b[k]);
    }
    assert(d.subrange(o + a.len(), o + a.len() + b.len()) =~= b);
}

/// Reading back `n` little-endian bytes gives the value written.
pub proof fn lemma_le_at(d: Seq<u8>, o: int, v: u64, n: nat)
    requires
        0 <= o,
        o + n <= d.len(),
        d.subrange(o, o + n) == le_bytes(v, n),
        v < pow256(n),
    ensures
        le_at(d, o, n) == v,
    decreases n,
{
    if n > 0 {
        lemma_le_bytes_len(v / 256, (n - 1) as nat);
        assert(d[o] == d.subrange(o, o + n)[0]);
        assert(le_bytes(v, n)[0] == (v % 256) as u8);
        assert(d.subrange(o + 1, o + n) =~= le_bytes(v / 256, (n - 1) as nat)) by {
            assert(d.subrange(o + 1, o + n) =~= d.subrange(o, o + n).drop_first());
            assert(le_bytes(v, n).drop_first() =~= le_bytes(v / 256, (n - 1) as nat));
        }
        lemma_le_at(d, o + 1, v / 256, (n - 1) as nat);
    }
}

/// One more element of a prefix adds its encoding at the end.
pub proof fn lemma_concat_take<T>(s: Seq<T>, f: spec_fn(T) -> Seq<u8>, i: int)
    requires
        0 <= i < s.len(),
    ensures
        concat_map(s.take(i + 1), f) == concat_map(s.take(i), f) + f(s[i]),
{
    assert(s.take(i + 1).drop_last() =~= s.take(i));
}

/// The encoding of a list starts with that of its first element.
pub proof fn lemma_concat_front<T>(s: Seq<T>, f: spec_fn(T) -> Seq<u8>)
    requires
        s.len() > 0,
    ensures
        concat_map(s, f) == f(s[0]) + concat_map(s.drop_first(), f),
    decreases s.len(),
{
    if s.len() == 1 {
        assert(s.drop_last() =~= Seq::<T>::empty());
        assert(s.drop_first() =~= Seq::<T>::empty());
        assert(concat_map(s, f) =~= f(s[0]) + concat_map(s.drop_first(), f));
    } else {
        lemma_concat_front(s.drop_last(), f);
        assert(s.drop_last().drop_first() =~= s.drop_first().drop_last());
        assert(concat_map(s, f) =~= f(s[0]) + concat_map(s.drop_first(), f));
    }
}

/// Whether a string fits the two-byte length.
pub open spec fn str_fits(s: Seq<char>) -> bool {
    encode_utf8(s).len() < 0x1_0000
}

pub proof fn lemma_str_enc_len(s: Seq<char>)
    ensures
        str_enc(s).len() == 2 + encode_utf8(s).len(),
{
    lemma_le_bytes_len((encode_utf8(s).len() % 65536) as u64, 2);
}

/// A string written by `str_enc` reads back.
pub proof fn lemma_parse_str(d: Seq<u8>, o: int, s: Seq<char>)
    requires
        0 <= o,
        o + str_enc(s).len() <= d.len(),
        d.subrange(o, o + str_enc(s).len()) == str_enc(s),
        str_fits(s),
    ensures
        parse_str(d, o) == Some((s, o + str_enc(s).len())),
{
    let e = encode_utf8(s);
    let l = e.len();
    lemma_str_enc_len(s);
    lemma_le_bytes_len(l as u64, 2);
    lemma_split(d, o, le_bytes(l as u64, 2), e);
    lemma_pow256_values();
    lemma_le_at(d, o, l as u64, 2);
    vstd::utf8::encode_utf8_valid_utf8(s);
    vstd::utf8::encode_utf8_decode_utf8(s);
}

/// No two entries share a name.
pub open spec fn names_unique(s: Seq<(Seq<char>, u64)>) -> bool {
    forall|i: int, j: int| 0 <= i < j < s.len() ==> s[i].0 != s[j].0
}

/// No two nodes share an id.
pub open spec fn ids_unique(s: Seq<InodeView>) -> bool {
    forall|i: int, j: int| 0 <= i < j < s.len() ==> s[i].id != s[j].id
}

proof fn lemma_key_pos_none(s: Seq<(Seq<char>, u64)>, k: Seq<char>, i: nat)
    requires
        forall|j: int| 0 <= j < s.len() ==> s[j].0 != k,
    ensures
        key_pos(s, k, i).is_none(),
    decreases s.len() - i,
{
    if i < s.len() {
        lemma_key_pos_none(s, k, i + 1);
    }
}

proof fn lemma_id_pos_none(s: Seq<InodeView>, id: u64, i: nat)
    requires
        forall|j: int| 0 <= j < s.len() ==> s[j].id != id,
    ensures
        id_pos(s, id, i).is_none(),
    decreases s.len() - i,
{
    if i < s.len() {
        lemma_id_pos_none(s, id, i + 1);
    }
}

/// Entries that fit their fields: names fit, and no name twice.
pub open spec fn entries_fit(es: Seq<(Seq<char>, u64)>) -> bool {
    &&& names_unique(es)
    &&& forall|i: int| 0 <= i < es.len() ==> str_fits(#[trigger] es[i].0)
}

proof fn lemma_parse_entries(d: Seq<u8>, o: int, rest: Seq<(Seq<char>, u64)>, acc: Seq<(Seq<char>, u64)>)
    requires
        0 <= o,
        o + concat_map(rest, entry_enc_f()).len() <= d.len(),
        d.subrange(o, o + concat_map(rest, entry_enc_f()).len()) == concat_map(rest, entry_enc_f()),
        entries_fit(acc + rest),
    ensures
        parse_entries(d, o, rest.len(), acc) == Some((acc + rest, o + concat_map(rest, entry_enc_f()).len())),
    decreases rest.len(),
{
    let f = entry_enc_f();
    if rest.len() == 0 {
        assert(acc + rest =~= acc);
    } else {
        let e = rest[0];
        let tail = rest.drop_first();
        lemma_concat_front(rest, f);
        assert(f(e) == str_enc(e.0) + le_bytes(e.1, 8));
        lemma_split(d, o, f(e), concat_map(tail, f));
        lemma_str_enc_len(e.0);
        lemma_le_bytes_len(e.1, 8);
        lemma_split(d, o, str_enc(e.0), le_bytes(e.1, 8));
        assert((acc + rest)[acc.len() as int] == e);
        lemma_parse_str(d, o, e.0);
        let o1 = o + str_enc(e.0).len();
        lemma_pow256_values();
        lemma_le_at(d, o1, e.1, 8);
        assert forall|j: int| 0 <= j < acc.len() implies acc[j].0 != e.0 by {
            assert((acc + rest)[j] == acc[j]);
        }
        lemma_key_pos_none(acc, e.0, 0);
        assert(acc.push(e) + tail =~= acc + rest);
        lemma_parse_entries(d, o1 + 8, tail, acc.push(e));
    }
}

/// Content that fits its fields: lengths and counts fit in four bytes, the
/// strings fit, and a directory names no entry twice.
pub open spec fn content_fits(c: ContentView) -> bool {
    match c {
        ContentView::Data(d) => d.len() < 0x1_0000_0000,
        ContentView::Entries(es) => es.len() < 0x1_0000_0000 && entries_fit(es),
        ContentView::Target(t) => str_fits(t),
    }
}

/// A node that fits its fields.
pub open spec fn inode_fits(n: InodeView) -> bool {
    str_fits(n.name) && content_fits(n.content)
}

proof fn lemma_parse_content(d: Seq<u8>, o: int, c: ContentView)
    requires
        1 <= o,
        o - 1 + content_enc(c).len() <= d.len(),
        d.subrange(o - 1, o - 1 + content_enc(c).len()) == content_enc(c),
        content_fits(c),
    ensures
        parse_content(d, o, d[o - 1]) == Some((c, o - 1 + content_enc(c).len())),
{
    lemma_pow256_values();
    assert(d[o - 1] == content_enc(c)[0]) by {
        assert(d.subrange(o - 1, o - 1 + content_enc(c).len())[0] == d[o - 1]);
    }
    match c {
        ContentView::Data(b) => {
            let l = le_bytes((b.len() % 0x1_0000_0000) as u64, 4);
            lemma_le_bytes_len((b.len() % 0x1_0000_0000) as u64, 4);
            assert(content_enc(c) =~= seq![1u8] + (l + b));
            lemma_split(d, o - 1, seq![1u8], l + b);
            lemma_split(d, o, l, b);
            lemma_le_at(d, o, b.len() as u64, 4);
        },
        ContentView::Entries(es) => {
            let l = le_bytes((es.len() as u64) % 0x1_0000_0000, 4);
            let body = concat_map(es, entry_enc_f());
            lemma_le_bytes_len((es.len() as u64) % 0x1_0000_0000, 4);
            assert(content_enc(c) =~= seq![0u8] + (l + body));
            lemma_split(d, o - 1, seq![0u8], l + body);
            lemma_split(d, o, l, body);
            lemma_le_at(d, o, es.len() as u64, 4);
            assert(Seq::<(Seq<char>, u64)>::empty() + es =~= es);
            lemma_parse_entries(d, o + 4, es, Seq::empty());
        },
        ContentView::Target(t) => {
            lemma_str_enc_len(t);
            assert(content_enc(c) =~= seq![2u8] + str_enc(t));
            lemma_split(d, o - 1, seq![2u8], str_enc(t));
            lemma_parse_str(d, o, t);
        },
    }
}

proof fn lemma_parse_inode(d: Seq<u8>, o: int, n: InodeView)
    requires
        0 <= o,
        o + inode_enc(n).len() <= d.len(),
        d.subrange(o, o + inode_enc(n).len()) == inode_enc(n),
        inode_fits(n),
    ensures
        parse_inode(d, o) == Some((n, o + inode_enc(n).len())),
{
    let a = le_bytes(n.id, 8);
    let b = str_enc(n.name);
    let c = seq![kind_byte(n.kind), perm_byte(n.perms)];
    let e1 = le_bytes(n.created_at, 8);
    let e2 = le_bytes(n.modified_at, 8);
    let f = content_enc(n.content);
    lemma_le_bytes_len(n.id, 8);
    lemma_le_bytes_len(n.created_at, 8);
    lemma_le_bytes_len(n.modified_at, 8);
    lemma_str_enc_len(n.name);
    lemma_pow256_values();
    assert(inode_enc(n) =~= a + (b + (c + (e1 + (e2 + f)))));
    lemma_split(d, o, a, b + (c + (e1 + (e2 + f))));
    lemma_le_at(d, o, n.id, 8);
    let o1 = o + 8;
    lemma_split(d, o1, b, c + (e1 + (e2 + f)));
    lemma_parse_str(d, o1, n.name);
    let o2 = o1 + b.len();
    lemma_split(d, o2, c, e1 + (e2 + f));
    assert(d[o2] == kind_byte(n.kind) && d[o2 + 1] == perm_byte(n.perms)) by {
        assert(d.subrange(o2, o2 + 2)[0] == d[o2]);
        assert(d.subrange(o2, o2 + 2)[1] == d[o2 + 1]);
    }
    assert(kind_of_byte(d[o2]) == Some(n.kind));
    assert(perms_of_byte(d[o2 + 1]) == n.perms);
    let o3 = o2 + 2;
    lemma_split(d, o3, e1, e2 + f);
    lemma_le_at(d, o3, n.created_at, 8);
    lemma_split(d, o3 + 8, e2, f);
    lemma_le_at(d, o3 + 8, n.modified_at, 8);
    assert(f.len() >= 1);
    lemma_parse_content(d, o3 + 17, n.content);
}

proof fn lemma_parse_inodes(d: Seq<u8>, o: int, rest: Seq<InodeView>, acc: Seq<InodeView>)
    requires
        0 <= o,
        o + concat_map(rest, inode_enc_f()).len() <= d.len(),
        d.subrange(o, o + concat_map(rest, inode_enc_f()).len()) == concat_map(rest, inode_enc_f()),
        ids_unique(acc + rest),
        forall|i: int| 0 <= i < rest.len() ==> inode_fits(#[trigger] rest[i]),
    ensures
        parse_inodes(d, o, rest.len(), acc) == Some(acc + rest),
    decreases rest.len(),
{
    let f = inode_enc_f();
    if rest.len() == 0 {
        assert(acc + rest =~= acc);
    } else {
        let n = rest[0];
        let tail = rest.drop_first();
        lemma_concat_front(rest, f);
        lemma_split(d, o, f(n), concat_map(tail, f));
        lemma_parse_inode(d, o, n);
        assert((acc + rest)[acc.len() as int] == n);
        assert forall|j: int| 0 <= j < acc.len() implies acc[j].id != n.id by {
            assert((acc + rest)[j] == acc[j]);
        }
        lemma_id_pos_none(acc, n.id, 0);
        assert(acc.push(n) + tail =~= acc + rest);
        assert forall|i: int| 0 <= i < tail.len() implies inode_fits(#[trigger] tail[i]) by {
            assert(tail[i] == rest[i + 1]);
        }
        lemma_parse_inodes(d, o + f(n).len(), tail, acc.push(n));
    }
}

/// Nodes that a snapshot can hold: fewer than 2^32, ids unique, each fitting
/// its fields, and the whole small enough for its length to fit in eight bytes.
pub open spec fn snapshot_fits(s: Seq<InodeView>, next_inode: u64, tick: u64) -> bool {
    &&& s.len() < 0x1_0000_0000
    &&& ids_unique(s)
    &&& forall|i: int| 0 <= i < s.len() ==> inode_fits(#[trigger] s[i])
    &&& 16 + snapshot_body(s, next_inode, tick).len() < 0x1_0000_0000_0000_0000
}

/// Reading a snapshot gives back the nodes, the tick and the id counter it was written from.
pub proof fn lemma_snapshot_roundtrip(s: Seq<InodeView>, next_inode: u64, tick: u64)
    requires
        snapshot_fits(s, next_inode, tick),
    ensures
        parse_snapshot(snapshot_enc(s, next_inode, tick)) == Some((s, tick, next_inode)),
{
    let body = snapshot_body(s, next_inode, tick);
    let total = (16 + body.len()) as u64;
    let d = snapshot_enc(s, next_inode, tick);
    let a = le_bytes(next_inode, 8);
    let b = le_bytes(tick, 8);
    let c = le_bytes(s.len() as u64, 4);
    let nodes = concat_map(s, inode_enc_f());
    lemma_le_bytes_len(total, 8);
    lemma_le_bytes_len(next_inode, 8);
    lemma_le_bytes_len(tick, 8);
    lemma_le_bytes_len(s.len() as u64, 4);
    lemma_pow256_values();
    assert(d =~= magic() + (le_bytes(total, 8) + (a + (b + (c + nodes)))));
    assert(d.subrange(0, d.len() as int) =~= d);
    lemma_split(d, 0, magic(), le_bytes(total, 8) + (a + (b + (c + nodes))));
    lemma_split(d, 8, le_bytes(total, 8), a + (b + (c + nodes)));
    lemma_le_at(d, 8, total, 8);
    lemma_split(d, 16, a, b + (c + nodes));
    lemma_le_at(d, 16, next_inode, 8);
    lemma_split(d, 24, b, c + nodes);
    lemma_le_at(d, 24, tick, 8);
    lemma_split(d, 32, c, nodes);
    lemma_le_at(d, 32, s.len() as u64, 4);
    assert(Seq::<InodeView>::empty() + s =~= s);
    lemma_parse_inodes(d, 36, s, Seq::empty());
}

// ---------------------------------------------------------------- reading

proof fn lemma_le_at_bound(d: Seq<u8>, o: int, n: nat)
    ensures
        le_at(d, o, n) < pow256(n),
    decreases n,
{
    if n > 0 {
        lemma_le_at_bound(d, o + 1, (n - 1) as nat);
    }
}

proof fn lemma_pow256_small(n: nat)
    requires
        n <= 7,
    ensures
        pow256(n) <= 0x100_0000_0000_0000,
{
    reveal_with_fuel(pow256, 8);
    if n == 0 {} else if n == 1 {} else if n == 2 {} else if n == 3 {}
    else if n == 4 {} else if n == 5 {} else if n == 6 {} else {}
}

/// The little-endian value of the `n` bytes at `o`.
pub fn read_le(d: &[u8], o: usize, n: usize) -> (r: u64)
    requires
        o + n <= d@.len(),
        n <= 8,
    ensures
        r == le_at(d@, o as int, n as nat),
    decreases n,
{
    let len = d.len();
    if n == 0 {
        0
    } else {
        let rest = read_le(d, o + 1, n - 1);
        proof {
            lemma_le_at_bound(d@, o + 1, (n - 1) as nat);
            lemma_pow256_small((n - 1) as nat);
        }
        d[o] as u64 + 256 * rest
    }
}

/// The string at `o` and where it ends (see `parse_str`).
pub fn read_str(d: &[u8], o: usize) -> (r: Option<(String, usize)>)
    requires
        o <= d@.len(),
    ensures
        match r {
            None => parse_str(d@, o as int).is_none(),
            Some((s, o2)) => parse_str(d@, o as int) == Some((s@, o2 as int)) && o2 <= d@.len(),
        },
{
    if d.len() - o < 2 {
        return None;
    }
    let l = read_le(d, o, 2);
    proof {
        lemma_le_at_bound(d@, o as int, 2);
        lemma_pow256_values();
    }
    let l = l as usize;
    if d.len() - (o + 2) < l {
        return None;
    }
    let bytes = vstd::slice::slice_subrange(d, o + 2, o + 2 + l);
    match utf8_to_string(bytes) {
        None => None,
        Some(s) => Some((s, o + 2 + l)),
    }
}

fn insert_entry(es: &mut Vec<(String, u64)>, name: String, id: u64)
    ensures
        entries_view(final(es)@) == key_insert(entries_view(old(es)@), name@, id),
{
    let ghost ev = entries_view(es@);
    let mut i: usize = 0;
    while i < es.len()
        invariant
            es@ == old(es)@,
            ev == entries_view(es@),
            i <= es@.len(),
            key_pos(ev, name@, 0) == key_pos(ev, name@, i as nat),
        decreases es@.len() - i,
    {
        if es[i].0 == name {
            let ghost nv = name@;
            es.set(i, (name, id));
            proof {
                assert(entries_view(es@) =~= ev.update(i as int, (nv, id)));
            }
            return;
        }
        i = i + 1;
    }
    let ghost nv = name@;
    es.push((name, id));
    assert(entries_view(es@) =~= ev.push((nv, id)));
}

/// `count` directory entries from `o` on (see `parse_entries`).
pub fn read_entries(d: &[u8], o: usize, count: u64) -> (r: Option<(Vec<(String, u64)>, usize)>)
    requires
        o <= d@.len(),
    ensures
        match r {
            None => parse_entries(d@, o as int, count as nat, Seq::empty()).is_none(),
            Some((es, o2)) => parse_entries(d@, o as int, count as nat, Seq::empty())
                == Some((entries_view(es@), o2 as int)) && o2 <= d@.len(),
        },
{
    let mut es: Vec<(String, u64)> = Vec::new();
    let mut off = o;
    let mut k: u64 = 0;
    assert(entries_view(es@) =~= Seq::empty());
    while k < count
        invariant
            off <= d@.len(),
            k <= count,
            parse_entries(d@, o as int, count as nat, Seq::empty())
                == parse_entries(d@, off as int, (count - k) as nat, entries_view(es@)),
        decreases count - k,
    {
        match read_str(d, off) {
            None => {
                return None;
            },
            Some((name, o1)) => {
                if d.len() - o1 < 8 {
                    return None;
                }
                let id = read_le(d, o1, 8);
                insert_entry(&mut es, name, id);
                off = o1 + 8;
            },
        }
        k = k + 1;
    }
    Some((es, off))
}

/// The content with tag `tag` whose body starts at `o` (see `parse_content`).
pub fn read_content(d: &[u8], o: usize, tag: u8) -> (r: Option<(InodeContent, usize)>)
    requires
        o <= d@.len(),
    ensures
        match r {
            None => parse_content(d@, o as int, tag).is_none(),
            Some((c, o2)) => parse_content(d@, o as int, tag) == Some((content_view(c), o2 as int))
                && o2 <= d@.len(),
        },
{
    if tag == 1 {
        if d.len() - o < 4 {
            return None;
        }
        let l = read_le(d, o, 4);
        proof {
            lemma_le_at_bound(d@, o as int, 4);
            lemma_pow256_values();
        }
        if ((d.len() - (o + 4)) as u64) < l {
            return None;
        }
        let l = l as usize;
        let bytes = copy_bytes(vstd::slice::slice_subrange(d, o + 4, o + 4 + l));
        Some((InodeContent::FileData(bytes), o + 4 + l))
    } else if tag == 0 {
        if d.len() - o < 4 {
            return None;
        }
        let count = read_le(d, o, 4);
        match read_entries(d, o + 4, count) {
            None => None,
            Some((es, o2)) => Some((InodeContent::DirEntries(es), o2)),
        }
    } else if tag == 2 {
        match read_str(d, o) {
            None => None,
            Some((t, o2)) => Some((InodeContent::SymlinkTarget(t), o2)),
        }
    } else {
        None
    }
}

fn kind_from_byte(b: u8) -> (r: Option<InodeKind>)
    ensures
        r == kind_of_byte(b),
{
    if b == 0 {
        Some(InodeKind::Directory)
    } else if b == 1 {
        Some(InodeKind::File)
    } else if b == 2 {
        Some(InodeKind::Symlink)
    } else {
        None
    }
}

/// The node at `o` and where it ends (see `parse_inode`).
pub fn read_inode(d: &[u8], o: usize) -> (r: Option<(Inode, usize)>)
    requires
        o <= d@.len(),
    ensures
        match r {
            None => parse_inode(d@, o as int).is_none(),
            Some((n, o2)) => parse_inode(d@, o as int) == Some((inode_view(n), o2 as int)) && o2 <= d@.len(),
        },
{
    if d.len() - o < 8 {
        return None;
    }
    let id = read_le(d, o, 8);
    let (name, o2) = match read_str(d, o + 8) {
        None => { return None; },
        Some(p) => p,
    };
    if d.len() - o2 < 2 {
        return None;
    }
    let kind = match kind_from_byte(d[o2]) {
        None => { return None; },
        Some(k) => k,
    };
    let pb = d[o2 + 1];
    let perms = Permissions { read: pb % 2 == 1, write: (pb / 2) % 2 == 1, execute: (pb / 4) % 2 == 1 };
    let o3 = o2 + 2;
    if d.len() - o3 < 16 {
        return None;
    }
    let created_at = read_le(d, o3, 8);
    let modified_at = read_le(d, o3 + 8, 8);
    if d.len() - o3 < 17 {
        return None;
    }
    let tag = d[o3 + 16];
    match read_content(d, o3 + 17, tag) {
        None => None,
        Some((content, o4)) => {
            let n = Inode { id, name, kind, perms, created_at, modified_at, content };
            Some((n, o4))
        },
    }
}

fn insert_inode(ns: &mut Vec<Inode>, n: Inode)
    ensures
        inodes_view(final(ns)@) == id_insert(inodes_view(old(ns)@), inode_view(n)),
{
    let ghost iv = inodes_view(ns@);
    let ghost nv = inode_view(n);
    let mut i: usize = 0;
    while i < ns.len()
        invariant
            ns@ == old(ns)@,
            iv == inodes_view(ns@),
            nv == inode_view(n),
            i <= ns@.len(),
            id_pos(iv, n.id, 0) == id_pos(iv, n.id, i as nat),
        decreases ns@.len() - i,
    {
        if ns[i].id == n.id {
            ns.set(i, n);
            proof {
                assert(inodes_view(ns@) =~= iv.update(i as int, nv));
            }
            return;
        }
        i = i + 1;
    }
    ns.push(n);
    assert(inodes_view(ns@) =~= iv.push(nv));
}

/// The nodes, tick and id counter of a snapshot (see `parse_snapshot`).
pub fn read_snapshot(d: &[u8]) -> (r: Option<(Vec<Inode>, u64, u64)>)
    ensures
        match r {
            None => parse_snapshot(d@).is_none(),
            Some((ns, tick, next)) => parse_snapshot(d@) == Some((inodes_view(ns@), tick, next)),
        },
{
    if d.len() < 36 {
        return None;
    }
    if !(d[0] == 0x53 && d[1] == 0x4f && d[2] == 0x43 && d[3] == 0x44 && d[4] == 0x46 && d[5] == 0x53
        && d[6] == 0x30 && d[7] == 0x31) {
        proof {
            assert(d@.subrange(0, 8) != magic()) by {
                if d@.subrange(0, 8) == magic() {
                    assert(d@.subrange(0, 8)[0] == d@[0]);
                    assert(d@.subrange(0, 8)[1] == d@[1]);
                    assert(d@.subrange(0, 8)[2] == d@[2]);
                    assert(d@.subrange(0, 8)[3] == d@[3]);
                    assert(d@.subrange(0, 8)[4] == d@[4]);
                    assert(d@.subrange(0, 8)[5] == d@[5]);
                    assert(d@.subrange(0, 8)[6] == d@[6]);
                    assert(d@.subrange(0, 8)[7] == d@[7]);
                }
            }
        }
        return None;
    }
    assert(d@.subrange(0, 8) =~= magic());
    let total = read_le(d, 8, 8);
    if total > d.len() as u64 {
        return None;
    }
    let next_inode = read_le(d, 16, 8);
    let tick = read_le(d, 24, 8);
    let count = read_le(d, 32, 4);
    let mut ns: Vec<Inode> = Vec::new();
    let mut off: usize = 36;
    let mut k: u64 = 0;
    assert(inodes_view(ns@) =~= Seq::empty());
    while k < count
        invariant
            off <= d@.len(),
            k <= count,
            count == le_at(d@, 32, 4),
            parse_inodes(d@, 36, count as nat, Seq::empty())
                == parse_inodes(d@, off as int, (count - k) as nat, inodes_view(ns@)),
        decreases count - k,
    {
        match read_inode(d, off) {
            None => {
                return None;
            },
            Some((n, o2)) => {
                insert_inode(&mut ns, n);
                off = o2;
            },
        }
        k = k + 1;
    }
    Some((ns, tick, next_inode))
}

// ---------------------------------------------------------------- writing

fn write_str(buf: &mut Vec<u8>, s: &String)
    ensures
        final(buf)@ == old(buf)@ + str_enc(s@),
{
    let b = s.as_str().as_bytes();
    push_le(buf, (b.len() % 65536) as u64, 2);
    push_all(buf, b);
    assert(final(buf)@ =~= old(buf)@ + str_enc(s@));
}

fn write_content(buf: &mut Vec<u8>, c: &InodeContent)
    ensures
        final(buf)@ == old(buf)@ + content_enc(content_view(*c)),
{
    match c {
        InodeContent::FileData(data) => {
            buf.push(1);
            push_le(buf, (data.len() as u64) % 0x1_0000_0000, 4);
            push_all(buf, data.as_slice());
            assert(final(buf)@ =~= old(buf)@ + content_enc(content_view(*c)));
        },
        InodeContent::DirEntries(es) => {
            buf.push(0);
            push_le(buf, (es.len() as u64) % 0x1_0000_0000, 4);
            let ghost start = buf@;
            let ghost ev = entries_view(es@);
            let mut i: usize = 0;
            assert(ev.take(0) =~= Seq::<(Seq<char>, u64)>::empty());
            assert(buf@ =~= start + concat_map(ev.take(0), entry_enc_f()));
            while i < es.len()
                invariant
                    ev == entries_view(es@),
                    i <= es@.len(),
                    buf@ == start + concat_map(ev.take(i as int), entry_enc_f()),
                decreases es@.len() - i,
            {
                write_str(buf, &es[i].0);
                push_le(buf, es[i].1, 8);
                proof {
                    lemma_concat_take(ev, entry_enc_f(), i as int);
                    assert(ev[i as int] == (es@[i as int].0@, es@[i as int].1));
                }
                i = i + 1;
                assert(buf@ =~= start + concat_map(ev.take(i as int), entry_enc_f()));
            }
            assert(ev.take(es@.len() as int) =~= ev);
            assert(final(buf)@ =~= old(buf)@ + content_enc(content_view(*c)));
        },
        InodeContent::SymlinkTarget(t) => {
            buf.push(2);
            write_str(buf, t);
            assert(final(buf)@ =~= old(buf)@ + content_enc(content_view(*c)));
        },
    }
}

fn write_inode(buf: &mut Vec<u8>, n: &Inode)
    ensures
        final(buf)@ == old(buf)@ + inode_enc(inode_view(*n)),
{
    push_le(buf, n.id, 8);
    write_str(buf, &n.name);
    let kb: u8 = match n.kind {
        InodeKind::Directory => 0,
        InodeKind::File => 1,
        InodeKind::Symlink => 2,
    };
    buf.push(kb);
    let pb: u8 = (if n.perms.read { 1u8 } else { 0 }) + (if n.perms.write { 2u8 } else { 0 })
        + (if n.perms.execute { 4u8 } else { 0 });
    buf.push(pb);
    push_le(buf, n.created_at, 8);
    push_le(buf, n.modified_at, 8);
    write_content(buf, &n.content);
    assert(final(buf)@ =~= old(buf)@ + inode_enc(inode_view(*n)));
}

/// The snapshot of nodes `ns` with id counter `next_inode` and tick `tick`
/// (see `snapshot_enc`).
pub fn write_snapshot(ns: &Vec<Inode>, next_inode: u64, tick: u64) -> (r: Vec<u8>)
    ensures
        r@ == snapshot_enc(inodes_view(ns@), next_inode, tick),
{
    let ghost iv = inodes_view(ns@);
    let mut out: Vec<u8> = Vec::new();
    out.push(0x53);
    out.push(0x4f);
    out.push(0x43);
    out.push(0x44);
    out.push(0x46);
    out.push(0x53);
    out.push(0x30);
    out.push(0x31);
    push_le(&mut out, 0, 8);
    let ghost head = out@;
    push_le(&mut out, next_inode, 8);
    push_le(&mut out, tick, 8);
    push_le(&mut out, (ns.len() as u64) % 0x1_0000_0000, 4);
    let ghost start = out@;
    assert(iv.take(0) =~= Seq::<InodeView>::empty());
    assert(out@ =~= start + concat_map(iv.take(0), inode_enc_f()));
    let mut i: usize = 0;
    while i < ns.len()
        invariant
            iv == inodes_view(ns@),
            i <= ns@.len(),
            out@ == start + concat_map(iv.take(i as int), inode_enc_f()),
        decreases ns@.len() - i,
    {
        write_inode(&mut out, &ns[i]);
        proof {
            lemma_concat_take(iv, inode_enc_f(), i as int);
        }
        i = i + 1;
        assert(out@ =~= start + concat_map(iv.take(i as int), inode_enc_f()));
    }
    assert(iv.take(ns@.len() as int) =~= iv);
    proof {
        lemma_le_bytes_len(0, 8);
    }
    let ghost body = snapshot_body(iv, next_inode, tick);
    assert(out@ =~= head + body);
    assert(head.len() == 16);
    assert(out@.subrange(0, 8) =~= magic());
    assert(out@.subrange(16, out@.len() as int) =~= body);
    let total = out.len() as u64;
    let mut lb: Vec<u8> = Vec::new();
    push_le(&mut lb, total, 8);
    proof {
        lemma_le_bytes_len(total, 8);
    }
    let mut k: usize = 0;
    while k < 8
        invariant
            k <= 8,
            head.len() == 16,
            lb@ == le_bytes(total, 8),
            lb@.len() == 8,
            out@.len() == head.len() + body.len(),
            out@.subrange(0, 8) == magic(),
            out@.subrange(16, out@.len() as int) == body,
            forall|j: int| 0 <= j < k ==> out@[8 + j] == lb@[j],
        decreases 8 - k,
    {
        let ghost before = out@;
        out.set(8 + k, lb[k]);
        assert(out@.subrange(0, 8) =~= before.subrange(0, 8));
        assert(out@.subrange(16, out@.len() as int) =~= before.subrange(16, before.len() as int));
        k = k + 1;
    }
    assert(out@ =~= out@.subrange(0, 8) + lb@ + out@.subrange(16, out@.len() as int));
    assert(out@ =~= snapshot_enc(iv, next_inode, tick));
    out
}

// ---------------------------------------------------------------- restoring

proof fn lemma_id_pos(s: Seq<InodeView>, id: u64, i: nat)
    ensures
        match id_pos(s, id, i) {
            Some(k) => i <= k < s.len() && s[k as int].id == id,
            None => forall|j: int| i <= j < s.len() ==> s[j].id != id,
        },
    decreases s.len() - i,
{
    if i < s.len() {
        lemma_id_pos(s, id, i + 1);
    }
}

proof fn lemma_id_insert_unique(s: Seq<InodeView>, n: InodeView)
    requires
        ids_unique(s),
    ensures
        ids_unique(id_insert(s, n)),
{
    lemma_id_pos(s, n.id, 0);
}

/// The nodes a snapshot yields never share an id.
pub proof fn lemma_parse_inodes_unique(d: Seq<u8>, o: int, count: nat, acc: Seq<InodeView>)
    requires
        ids_unique(acc),
    ensures
        parse_inodes(d, o, count, acc) matches Some(s) ==> ids_unique(s),
    decreases count,
{
    if count > 0 {
        match parse_inode(d, o) {
            None => {},
            Some((n, o2)) => {
                lemma_id_insert_unique(acc, n);
                lemma_parse_inodes_unique(d, o2, (count - 1) as nat, id_insert(acc, n));
            },
        }
    }
}

/// The id counter after the nodes `s`, starting from `c`: each node whose id
/// reaches the counter moves it just past that id (it stays at `u64::MAX` there).
pub open spec fn counter_after(s: Seq<InodeView>, c: u64) -> u64
    decreases s.len(),
{
    if s.len() == 0 {
        c
    } else {
        let prev = counter_after(s.drop_last(), c);
        if s.last().id >= prev {
            if s.last().id == u64::MAX { u64::MAX } else { (s.last().id + 1) as u64 }
        } else {
            prev
        }
    }
}

/// The id counter a restored file system runs with: the saved one, raised to
/// at least 2 and past every id it holds.
pub open spec fn restored_next(s: Seq<InodeView>, saved: u64) -> u64 {
    counter_after(s, if saved < 2 { 2 } else { saved })
}

} // verus!
