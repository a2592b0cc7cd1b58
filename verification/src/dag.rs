//! The versioned block graph that devices synchronise: every write of a path
//! becomes a block whose parent is the path's previous head; the newest block
//! (by timestamp, then by author) is the head.
use vstd::prelude::*;
use vstd::string::StringSliceAdditionalSpecFns;
use crate::util::{push_all, copy_bytes, le_bytes, push_le, push_hex_byte, hex_of, hex_byte, string_push, lex_lt, lex_order,
    lemma_lex_irreflexive, lemma_lex_total, lemma_lex_trans};
use crate::util::{keyed_map, keys_unique, lemma_keyed_map_insert_at, lemma_keyed_map_update, lemma_keyed_map_get, lemma_keyed_map_absent,
    strictly_sorted, lemma_sorted_unique};

verus! {

/// Starting state of the four lanes of the block hash.
pub const HASH_IV0: u64 = 0xcbf29ce484222325;
pub const HASH_IV1: u64 = 0x84222325cbf29ce4;
pub const HASH_IV2: u64 = 0x14650fb0739d0383;
pub const HASH_IV3: u64 = 0x739d038314650fb0;
/// The multiplier of the block hash.
pub const HASH_PRIME: u64 = 0x00000100000001b3;

/// One lane step: multiply (wrapping) and fold the high half into the low half.
pub open spec fn mix(x: u64) -> u64 {
    let y = x.wrapping_mul(HASH_PRIME);
    y ^ (y >> 32u64)
}

/// The four lanes after hashing `d`: byte `i` goes to lane `i % 4`.
pub open spec fn lanes(d: Seq<u8>) -> Seq<u64>
    decreases d.len(),
{
    if d.len() == 0 {
        seq![HASH_IV0, HASH_IV1, HASH_IV2, HASH_IV3]
    } else {
        let s = lanes(d.drop_last());
        let k = (d.len() - 1) % 4;
        s.update(k, mix(s[k] ^ (d.last() as u64)))
    }
}

proof fn lemma_lanes_len(d: Seq<u8>)
    ensures
        lanes(d).len() == 4,
    decreases d.len(),
{
    if d.len() > 0 {
        lemma_lanes_len(d.drop_last());
    }
}

/// The 32-byte block hash of `d`: the four lanes, little-endian.
#[verifier::opaque]
pub open spec fn block_hash(d: Seq<u8>) -> Seq<u8> {
    let s = lanes(d);
    le_bytes(s[0], 8) + le_bytes(s[1], 8) + le_bytes(s[2], 8) + le_bytes(s[3], 8)
}

/// The block hash of `data`.
pub fn hash_bytes(data: &[u8]) -> (h: [u8; 32])
    ensures
        h@ == block_hash(data@),
{
    let mut st: Vec<u64> = Vec::new();
    st.push(HASH_IV0);
    st.push(HASH_IV1);
    st.push(HASH_IV2);
    st.push(HASH_IV3);
    let mut i: usize = 0;
    assert(data@.subrange(0, 0) =~= Seq::<u8>::empty());
    assert(st@ =~= lanes(Seq::<u8>::empty()));
    while i < data.len()
        invariant
            i <= data@.len(),
            st@ == lanes(data@.subrange(0, i as int)),
        decreases data@.len() - i,
    {
        proof {
            lemma_lanes_len(data@.subrange(0, i as int));
            assert(data@.subrange(0, i + 1).drop_last() =~= data@.subrange(0, i as int));
        }
        let slot = i % 4;
        let x = st[slot] ^ (data[i] as u64);
        let y = x.wrapping_mul(HASH_PRIME);
        st.set(slot, y ^ (y >> 32));
        i = i + 1;
    }
    assert(data@.subrange(0, data@.len() as int) =~= data@);
    proof {
        lemma_lanes_len(data@);
    }
    let mut out: Vec<u8> = Vec::new();
    push_le(&mut out, st[0], 8);
    push_le(&mut out, st[1], 8);
    push_le(&mut out, st[2], 8);
    push_le(&mut out, st[3], 8);
    proof {
        crate::util::lemma_le_bytes_len(st[0], 8);
        crate::util::lemma_le_bytes_len(st[1], 8);
        crate::util::lemma_le_bytes_len(st[2], 8);
        crate::util::lemma_le_bytes_len(st[3], 8);
    }
    let h: [u8; 32] = [
        out[0], out[1], out[2], out[3], out[4], out[5], out[6], out[7],
        out[8], out[9], out[10], out[11], out[12], out[13], out[14], out[15],
        out[16], out[17], out[18], out[19], out[20], out[21], out[22], out[23],
        out[24], out[25], out[26], out[27], out[28], out[29], out[30], out[31],
    ];
    assert(h@ =~= out@);
    proof {
        reveal(block_hash);
    }
    h
}

/// The first eight bytes of a hash in hexadecimal, then `...`.
pub open spec fn short_hex(h: Seq<u8>) -> Seq<char> {
    hex_of(h.subrange(0, 8)) + seq!['.', '.', '.']
}

/// The short text of a block hash.
pub fn hash_to_hex(h: &[u8; 32]) -> (s: String)
    ensures
        s@ == short_hex(h@),
{
    let mut s = String::new();
    let mut i: usize = 0;
    while i < 8
        invariant
            i <= 8,
            h@.len() == 32,
            s@ == hex_of(h@.subrange(0, i as int)),
        decreases 8 - i,
    {
        push_hex_byte(&mut s, h[i]);
        i = i + 1;
        assert(h@.subrange(0, i as int).drop_last() =~= h@.subrange(0, i - 1));
    }
    string_push(&mut s, '.');
    string_push(&mut s, '.');
    string_push(&mut s, '.');
    assert(s@ =~= short_hex(h@));
    s
}

/// What a block holds.
#[derive(Clone, Copy, PartialEq, Eq, Structural, Debug)]
pub enum BlockKind {
    File,
    Meta,
    Sync,
    Genesis,
}

/// The byte that stands for a block kind in the hashed bytes.
pub open spec fn kind_byte(k: BlockKind) -> u8 {
    match k {
        BlockKind::File => 1,
        BlockKind::Meta => 2,
        BlockKind::Sync => 3,
        BlockKind::Genesis => 0,
    }
}

/// A block of the graph.
#[derive(Clone)]
pub struct DagBlock {
    pub hash: [u8; 32],
    pub parents: Vec<[u8; 32]>,
    pub author: [u8; 32],
    pub timestamp: u64,
    pub kind: BlockKind,
    pub path: String,
    pub payload: Vec<u8>,
    pub seq: u64,
}

/// The parent hashes, one after another.
pub open spec fn concat_hashes(ps: Seq<[u8; 32]>) -> Seq<u8>
    decreases ps.len(),
{
    if ps.len() == 0 { Seq::empty() } else { concat_hashes(ps.drop_last()) + ps.last()@ }
}

/// The bytes a block's hash covers: parents, author, timestamp, kind, path, payload.
pub open spec fn hashed_bytes(
    parents: Seq<[u8; 32]>,
    author: Seq<u8>,
    timestamp: u64,
    kind: BlockKind,
    path: Seq<u8>,
    payload: Seq<u8>,
) -> Seq<u8> {
    concat_hashes(parents) + author + le_bytes(timestamp, 8) + seq![kind_byte(kind)] + path + payload
}

/// The bytes of a path's text.
pub open spec fn path_bytes(p: Seq<char>) -> Seq<u8> {
    vstd::utf8::encode_utf8(p)
}

/// The hash a block should carry.
pub open spec fn expected_hash(b: DagBlock) -> Seq<u8> {
    block_hash(hashed_bytes(b.parents@, b.author@, b.timestamp, b.kind, path_bytes(b.path@), b.payload@))
}

/// Appends the bytes of a hash.
fn push_hash(v: &mut Vec<u8>, h: &[u8; 32])
    ensures
        final(v)@ == old(v)@ + h@,
{
    let mut i: usize = 0;
    while i < 32
        invariant
            i <= 32,
            h@.len() == 32,
            v@ == old(v)@ + h@.subrange(0, i as int),
        decreases 32 - i,
    {
        v.push(h[i]);
        i = i + 1;
        assert(v@ =~= old(v)@ + h@.subrange(0, i as int));
    }
    assert(h@.subrange(0, 32) =~= h@);
}

/// Whether two hashes are equal.
pub fn same_hash(a: &[u8; 32], b: &[u8; 32]) -> (r: bool)
    ensures
        r == (a@ == b@),
{
    let mut i: usize = 0;
    while i < 32
        invariant
            i <= 32,
            a@.len() == 32 && b@.len() == 32,
            forall|j: int| 0 <= j < i ==> a@[j] == b@[j],
        decreases 32 - i,
    {
        if a[i] != b[i] {
            return false;
        }
        i = i + 1;
    }
    assert(a@ =~= b@);
    true
}

/// Whether a hash is all zeros (the "no parent" mark).
pub fn is_zero_hash(a: &[u8; 32]) -> (r: bool)
    ensures
        r == (a@ == Seq::new(32, |i: int| 0u8)),
{
    let mut i: usize = 0;
    while i < 32
        invariant
            i <= 32,
            a@.len() == 32,
            forall|j: int| 0 <= j < i ==> a@[j] == 0,
        decreases 32 - i,
    {
        if a[i] != 0 {
            assert(a@[i as int] != Seq::new(32, |i: int| 0u8)[i as int]);
            return false;
        }
        i = i + 1;
    }
    assert(a@ =~= Seq::new(32, |i: int| 0u8));
    true
}

/// The bytes a block's hash covers.
fn hash_input(parents: &Vec<[u8; 32]>, author: &[u8; 32], timestamp: u64, kind: BlockKind, path: &String, payload: &Vec<u8>) -> (v: Vec<u8>)
    ensures
        v@ == hashed_bytes(parents@, author@, timestamp, kind, path_bytes(path@), payload@),
{
    let mut v: Vec<u8> = Vec::new();
    let mut k: usize = 0;
    while k < parents.len()
        invariant
            k <= parents@.len(),
            v@ == concat_hashes(parents@.subrange(0, k as int)),
        decreases parents@.len() - k,
    {
        push_hash(&mut v, &parents[k]);
        k = k + 1;
        assert(parents@.subrange(0, k as int).drop_last() =~= parents@.subrange(0, k - 1));
    }
    assert(parents@.subrange(0, k as int) =~= parents@);
    push_hash(&mut v, author);
    push_le(&mut v, timestamp, 8);
    v.push(match kind {
        BlockKind::File => 1u8,
        BlockKind::Meta => 2u8,
        BlockKind::Sync => 3u8,
        BlockKind::Genesis => 0u8,
    });
    push_all(&mut v, path.as_str().as_bytes());
    push_all(&mut v, payload.as_slice());
    assert(v@ =~= hashed_bytes(parents@, author@, timestamp, kind, path_bytes(path@), payload@));
    v
}

impl DagBlock {
    /// A block with its hash computed from its contents.
    pub fn new(
        parents: Vec<[u8; 32]>,
        author: [u8; 32],
        timestamp: u64,
        kind: BlockKind,
        path: String,
        payload: Vec<u8>,
        seq: u64,
    ) -> (b: DagBlock)
        ensures
            b.parents@ == parents@ && b.author == author && b.timestamp == timestamp && b.kind == kind,
            b.path@ == path@ && b.payload@ == payload@ && b.seq == seq,
            b.hash@ == expected_hash(b),
    {
        let input = hash_input(&parents, &author, timestamp, kind, &path, &payload);
        let hash = hash_bytes(input.as_slice());
        DagBlock { hash, parents, author, timestamp, kind, path, payload, seq }
    }

    /// Whether the block carries the hash of its contents.
    pub fn verify(&self) -> (ok: bool)
        ensures
            ok == (self.hash@ == expected_hash(*self)),
    {
        let input = hash_input(&self.parents, &self.author, self.timestamp, self.kind, &self.path, &self.payload);
        let h = hash_bytes(input.as_slice());
        same_hash(&h, &self.hash)
    }
}


/// Counters of the graph.
#[derive(Clone, Copy)]
pub struct DagStats {
    pub total_blocks: usize,
    pub file_blocks: usize,
    pub sync_blocks: usize,
    pub merge_count: usize,
    pub conflicts_resolved: usize,
}

/// Why a block was not taken.
#[derive(PartialEq, Eq, Structural, Clone, Copy, Debug)]
pub enum DagError {
    InvalidHash,
    MissingParent,
    DuplicateBlock,
}

/// Blocks keyed by their hash.
pub open spec fn block_entries(bs: Seq<DagBlock>) -> Seq<(Seq<u8>, DagBlock)> {
    bs.map_values(|b: DagBlock| (b.hash@, b))
}

/// Heads keyed by the bytes of their path.
pub open spec fn head_entries(hs: Seq<(String, [u8; 32])>) -> Seq<(Seq<u8>, Seq<u8>)> {
    hs.map_values(|e: (String, [u8; 32])| (path_bytes(e.0@), e.1@))
}

/// The all-zero hash that marks "no parent".
pub open spec fn zero_hash() -> Seq<u8> {
    Seq::new(32, |i: int| 0u8)
}

/// The graph: blocks by hash and the head of each path.
pub struct Dag {
    blocks: Vec<DagBlock>,
    heads: Vec<(String, [u8; 32])>,
    sequence: u64,
    node_id: [u8; 32],
    stats: DagStats,
}

impl Dag {
    /// The blocks, in hash order.
    pub closed spec fn blocks_view(&self) -> Seq<DagBlock> {
        self.blocks@
    }

    /// The heads, in path order.
    pub closed spec fn heads_view(&self) -> Seq<(String, [u8; 32])> {
        self.heads@
    }

    /// The node id that local blocks carry.
    pub closed spec fn node(&self) -> Seq<u8> {
        self.node_id@
    }

    /// The sequence number the next local block takes.
    pub closed spec fn seq_no(&self) -> u64 {
        self.sequence
    }

    /// The counters.
    pub closed spec fn counters(&self) -> DagStats {
        self.stats
    }

    /// Blocks by hash.
    pub open spec fn block_map(&self) -> Map<Seq<u8>, DagBlock> {
        keyed_map(block_entries(self.blocks_view()))
    }

    /// Head hash by path bytes.
    pub open spec fn head_map(&self) -> Map<Seq<u8>, Seq<u8>> {
        keyed_map(head_entries(self.heads_view()))
    }

    /// Blocks sorted by hash, heads sorted by path, and every head names a block.
    pub open spec fn wf(&self) -> bool {
        &&& strictly_sorted(self.blocks_view().map_values(|b: DagBlock| b.hash@))
        &&& strictly_sorted(self.heads_view().map_values(|e: (String, [u8; 32])| path_bytes(e.0@)))
        &&& forall|p: Seq<u8>| #[trigger] self.head_map().contains_key(p) ==> self.block_map().contains_key(self.head_map()[p])
    }

    /// An empty graph.
    pub fn new() -> (d: Dag)
        ensures
            d.wf(),
            d.blocks_view().len() == 0,
            d.heads_view().len() == 0,
            d.seq_no() == 0,
            d.node() == zero_hash(),
            d.counters().total_blocks == 0 && d.counters().file_blocks == 0 && d.counters().sync_blocks == 0,
            d.counters().merge_count == 0 && d.counters().conflicts_resolved == 0,
    {
        let d = Dag {
            blocks: Vec::new(),
            heads: Vec::new(),
            sequence: 0,
            node_id: [0u8; 32],
            stats: DagStats { total_blocks: 0, file_blocks: 0, sync_blocks: 0, merge_count: 0, conflicts_resolved: 0 },
        };
        assert(d.node_id@ =~= zero_hash());
        assert(d.head_map() =~= Map::<Seq<u8>, Seq<u8>>::empty());
        d
    }

    /// Sets the node id that local blocks carry.
    pub fn set_node_id(&mut self, id: [u8; 32])
        requires
            old(self).wf(),
        ensures
            final(self).wf(),
            final(self).node() == id@,
            final(self).blocks_view() == old(self).blocks_view(),
            final(self).heads_view() == old(self).heads_view(),
            final(self).seq_no() == old(self).seq_no(),
            final(self).counters() == old(self).counters(),
    {
        self.node_id = id;
        assert(self.head_map() == old(self).head_map());
        assert(self.block_map() == old(self).block_map());
    }

    /// Where hash `h` is or would go among the blocks.
    fn block_slot(&self, h: &[u8; 32]) -> (r: (usize, bool))
        requires
            self.wf(),
        ensures
            r.0 <= self.blocks_view().len(),
            forall|i: int| 0 <= i < r.0 ==> lex_lt(#[trigger] self.blocks_view()[i].hash@, h@),
            r.1 ==> r.0 < self.blocks_view().len() && self.blocks_view()[r.0 as int].hash@ == h@,
            !r.1 ==> forall|i: int| r.0 <= i < self.blocks_view().len() ==> lex_lt(h@, #[trigger] self.blocks_view()[i].hash@),
            r.1 <==> self.block_map().contains_key(h@),
            r.1 ==> self.block_map()[h@] == self.blocks_view()[r.0 as int],
    {
        let ghost ks = self.blocks_view().map_values(|b: DagBlock| b.hash@);
        proof {
            assert(block_entries(self.blocks_view()).map_values(|e: (Seq<u8>, DagBlock)| e.0) =~= ks);
            lemma_sorted_unique(block_entries(self.blocks_view()));
        }
        let mut i: usize = 0;
        while i < self.blocks.len()
            invariant
                i <= self.blocks@.len(),
                ks == self.blocks_view().map_values(|b: DagBlock| b.hash@),
                strictly_sorted(ks),
                keys_unique(block_entries(self.blocks_view())),
                forall|j: int| 0 <= j < i ==> lex_lt(#[trigger] self.blocks_view()[j].hash@, h@),
            decreases self.blocks@.len() - i,
        {
            let c = lex_order(self.blocks[i].hash.as_slice(), h.as_slice());
            if c == 0 {
                proof {
                    lemma_keyed_map_get(block_entries(self.blocks_view()), i as int);
                }
                return (i, true);
            }
            if c > 0 {
                proof {
                    assert forall|j: int| i <= j < self.blocks_view().len() implies lex_lt(h@, #[trigger] self.blocks_view()[j].hash@) by {
                        if j > i {
                            assert(lex_lt(ks[i as int], ks[j]));
                            lemma_lex_trans(h@, ks[i as int], ks[j]);
                        }
                    }
                    assert forall|j: int| 0 <= j < block_entries(self.blocks_view()).len() implies block_entries(self.blocks_view())[j].0 != h@ by {
                        if j < i {
                            lemma_lex_irreflexive(h@);
                        } else {
                            lemma_lex_irreflexive(h@);
                        }
                    }
                    lemma_keyed_map_absent(block_entries(self.blocks_view()), h@);
                }
                return (i, false);
            }
            i = i + 1;
        }
        proof {
            assert forall|j: int| 0 <= j < block_entries(self.blocks_view()).len() implies block_entries(self.blocks_view())[j].0 != h@ by {
                lemma_lex_irreflexive(h@);
            }
            lemma_keyed_map_absent(block_entries(self.blocks_view()), h@);
        }
        (i, false)
    }

    /// Where path bytes `p` are or would go among the heads.
    fn head_slot(&self, p: &[u8]) -> (r: (usize, bool))
        requires
            self.wf(),
        ensures
            r.0 <= self.heads_view().len(),
            forall|i: int| 0 <= i < r.0 ==> lex_lt(path_bytes(#[trigger] self.heads_view()[i].0@), p@),
            r.1 ==> r.0 < self.heads_view().len() && path_bytes(self.heads_view()[r.0 as int].0@) == p@,
            !r.1 ==> forall|i: int| r.0 <= i < self.heads_view().len() ==> lex_lt(p@, path_bytes(#[trigger] self.heads_view()[i].0@)),
            r.1 <==> self.head_map().contains_key(p@),
            r.1 ==> self.head_map()[p@] == self.heads_view()[r.0 as int].1@,
    {
        let ghost ks = self.heads_view().map_values(|e: (String, [u8; 32])| path_bytes(e.0@));
        proof {
            assert(head_entries(self.heads_view()).map_values(|e: (Seq<u8>, Seq<u8>)| e.0) =~= ks);
            lemma_sorted_unique(head_entries(self.heads_view()));
        }
        let mut i: usize = 0;
        while i < self.heads.len()
            invariant
                i <= self.heads@.len(),
                ks == self.heads_view().map_values(|e: (String, [u8; 32])| path_bytes(e.0@)),
                strictly_sorted(ks),
                keys_unique(head_entries(self.heads_view())),
                forall|j: int| 0 <= j < i ==> lex_lt(path_bytes(#[trigger] self.heads_view()[j].0@), p@),
            decreases self.heads@.len() - i,
        {
            let c = lex_order(self.heads[i].0.as_str().as_bytes(), p);
            if c == 0 {
                proof {
                    lemma_keyed_map_get(head_entries(self.heads_view()), i as int);
                }
                return (i, true);
            }
            if c > 0 {
                proof {
                    assert forall|j: int| i <= j < self.heads_view().len() implies lex_lt(p@, path_bytes(#[trigger] self.heads_view()[j].0@)) by {
                        if j > i {
                            assert(lex_lt(ks[i as int], ks[j]));
                            lemma_lex_trans(p@, ks[i as int], ks[j]);
                        }
                    }
                    assert forall|j: int| 0 <= j < head_entries(self.heads_view()).len() implies head_entries(self.heads_view())[j].0 != p@ by {
                        lemma_lex_irreflexive(p@);
                    }
                    lemma_keyed_map_absent(head_entries(self.heads_view()), p@);
                }
                return (i, false);
            }
            i = i + 1;
        }
        proof {
            assert forall|j: int| 0 <= j < head_entries(self.heads_view()).len() implies head_entries(self.heads_view())[j].0 != p@ by {
                lemma_lex_irreflexive(p@);
            }
            lemma_keyed_map_absent(head_entries(self.heads_view()), p@);
        }
        (i, false)
    }
}


/// Some parent of `b` is neither the "no parent" mark nor a block of the graph.
pub open spec fn missing_parent(bm: Map<Seq<u8>, DagBlock>, b: DagBlock) -> bool {
    exists|i: int| 0 <= i < b.parents@.len() && #[trigger] b.parents@[i]@ != zero_hash() && !bm.contains_key(b.parents@[i]@)
}

/// `b` takes the head from `cur`: it is newer, or as new with a greater author.
pub open spec fn newer(b: DagBlock, cur: DagBlock) -> bool {
    b.timestamp > cur.timestamp || (b.timestamp == cur.timestamp && lex_lt(cur.author@, b.author@))
}

/// The heads after `b` joins the graph.
pub open spec fn heads_after(hm: Map<Seq<u8>, Seq<u8>>, bm: Map<Seq<u8>, DagBlock>, b: DagBlock) -> Map<Seq<u8>, Seq<u8>> {
    let p = path_bytes(b.path@);
    if !hm.contains_key(p) || newer(b, bm[hm[p]]) { hm.insert(p, b.hash@) } else { hm }
}

/// The counters after `b` joins the graph.
pub open spec fn stats_after(st: DagStats, hm: Map<Seq<u8>, Seq<u8>>, bm: Map<Seq<u8>, DagBlock>, b: DagBlock) -> DagStats {
    let p = path_bytes(b.path@);
    DagStats {
        total_blocks: (st.total_blocks + 1) as usize,
        file_blocks: if b.kind == BlockKind::File { (st.file_blocks + 1) as usize } else { st.file_blocks },
        sync_blocks: if b.kind == BlockKind::Sync { (st.sync_blocks + 1) as usize } else { st.sync_blocks },
        merge_count: if hm.contains_key(p) { (st.merge_count + 1) as usize } else { st.merge_count },
        conflicts_resolved: if hm.contains_key(p) && newer(b, bm[hm[p]]) {
            (st.conflicts_resolved + 1) as usize
        } else {
            st.conflicts_resolved
        },
    }
}

/// Every counter can still grow.
/// `d1` is `d0` after a local write of `data` at `path` at `tick`, which made
/// block `h`: a file block on top of the path's head (zeros when it had none),
/// taken in unless the graph already held it.
pub open spec fn file_written(d0: Dag, d1: Dag, path: Seq<char>, data: Seq<u8>, tick: u64, h: Seq<u8>) -> bool {
    &&& d1.wf()
    &&& d1.seq_no() == d0.seq_no() + 1
    &&& d1.node() == d0.node()
    &&& d1.block_map().contains_key(h)
    &&& exists|b: DagBlock| {
        &&& #[trigger] b.hash@ == h
        &&& b.hash@ == expected_hash(b)
        &&& b.parents@.len() == 1
        &&& b.parents@[0]@ == (if d0.head_map().contains_key(path_bytes(path)) {
            d0.head_map()[path_bytes(path)]
        } else {
            zero_hash()
        })
        &&& b.author@ == d0.node() && b.timestamp == tick && b.kind == BlockKind::File
        &&& b.path@ == path && b.payload@ == data && b.seq == d0.seq_no()
        &&& if d0.block_map().contains_key(h) {
            d1.block_map() == d0.block_map() && d1.head_map() == d0.head_map()
                && d1.counters() == d0.counters()
        } else {
            &&& d1.block_map() == d0.block_map().insert(h, b)
            &&& d1.head_map() == heads_after(d0.head_map(), d0.block_map(), b)
            &&& d1.counters() == stats_after(d0.counters(), d0.head_map(), d0.block_map(), b)
        }
    }
}

pub open spec fn counters_below_max(st: DagStats) -> bool {
    st.total_blocks < usize::MAX && st.file_blocks < usize::MAX && st.sync_blocks < usize::MAX
        && st.merge_count < usize::MAX && st.conflicts_resolved < usize::MAX
}

impl Dag {
    /// Takes in a block made here or received from a peer.
    pub fn insert(&mut self, block: DagBlock) -> (r: Result<(), DagError>)
        requires
            old(self).wf(),
            counters_below_max(old(self).counters()),
        ensures
            final(self).wf(),
            match r {
                Err(DagError::InvalidHash) => block.hash@ != expected_hash(block) && *final(self) == *old(self),
                Err(DagError::MissingParent) => {
                    &&& block.hash@ == expected_hash(block)
                    &&& !old(self).block_map().contains_key(block.hash@)
                    &&& missing_parent(old(self).block_map(), block)
                    &&& *final(self) == *old(self)
                },
                Err(DagError::DuplicateBlock) => false,
                Ok(()) => block.hash@ == expected_hash(block) && if old(self).block_map().contains_key(block.hash@) {
                    *final(self) == *old(self)
                } else {
                    &&& !missing_parent(old(self).block_map(), block)
                    &&& final(self).block_map() == old(self).block_map().insert(block.hash@, block)
                    &&& final(self).head_map() == heads_after(old(self).head_map(), old(self).block_map(), block)
                    &&& final(self).counters() == stats_after(old(self).counters(), old(self).head_map(), old(self).block_map(), block)
                    &&& final(self).seq_no() == old(self).seq_no()
                    &&& final(self).node() == old(self).node()
                },
            },
    {
        if !block.verify() {
            return Err(DagError::InvalidHash);
        }
        let (pos, found) = self.block_slot(&block.hash);
        if found {
            return Ok(());
        }
        let mut k: usize = 0;
        while k < block.parents.len()
            invariant
                self.wf(),
                *self == *old(self),
                block.hash@ == expected_hash(block),
                !old(self).block_map().contains_key(block.hash@),
                k <= block.parents@.len(),
                forall|j: int| 0 <= j < k ==> #[trigger] block.parents@[j]@ == zero_hash() || self.block_map().contains_key(block.parents@[j]@),
            decreases block.parents@.len() - k,
        {
            if !is_zero_hash(&block.parents[k]) && !self.block_slot(&block.parents[k]).1 {
                assert(block.parents@[k as int]@ != zero_hash() && !self.block_map().contains_key(block.parents@[k as int]@));
                return Err(DagError::MissingParent);
            }
            k = k + 1;
        }
        let ghost bm0 = self.block_map();
        let ghost hm0 = self.head_map();
        let ghost st0 = self.stats;
        let pstr = block.path.as_str();
        let (hp, hfound) = self.head_slot(pstr.as_bytes());
        let ghost pb = path_bytes(block.path@);
        assert(pstr@ == block.path@);
        let ghost he0 = head_entries(self.heads@);
        if hfound {
            let cur_hash = self.heads[hp].1;
            let (cpos, cfound) = self.block_slot(&cur_hash);
            if cfound {
                let wins = block.timestamp > self.blocks[cpos].timestamp
                    || (block.timestamp == self.blocks[cpos].timestamp
                        && lex_order(self.blocks[cpos].author.as_slice(), block.author.as_slice()) < 0);
                assert(wins == newer(block, bm0[hm0[pb]]));
                if wins {
                    let e = self.heads.remove(hp);
                    self.heads.insert(hp, (e.0, block.hash));
                    proof {
                        assert(he0.map_values(|e: (Seq<u8>, Seq<u8>)| e.0) =~= old(self).heads_view().map_values(|e: (String, [u8; 32])| path_bytes(e.0@)));
                        lemma_sorted_unique(he0);
                        lemma_keyed_map_update(he0, hp as int, block.hash@);
                        assert(head_entries(self.heads@) =~= he0.update(hp as int, (he0[hp as int].0, block.hash@)));
                        assert(self.heads_view().map_values(|e: (String, [u8; 32])| path_bytes(e.0@))
                            =~= old(self).heads_view().map_values(|e: (String, [u8; 32])| path_bytes(e.0@)));
                    }
                    self.stats.conflicts_resolved = self.stats.conflicts_resolved + 1;
                }
                self.stats.merge_count = self.stats.merge_count + 1;
            }
        } else {
            let ghost hv0 = self.heads_view().map_values(|e: (String, [u8; 32])| path_bytes(e.0@));
            self.heads.insert(hp, (block.path.clone(), block.hash));
            proof {
                assert(he0.map_values(|e: (Seq<u8>, Seq<u8>)| e.0) =~= hv0);
                lemma_sorted_unique(he0);
                assert forall|j: int| 0 <= j < he0.len() implies he0[j].0 != pb by {
                    lemma_lex_irreflexive(pb);
                }
                lemma_keyed_map_insert_at(he0, hp as int, (pb, block.hash@));
                assert(head_entries(self.heads@) =~= he0.insert(hp as int, (pb, block.hash@)));
                let hv1 = self.heads_view().map_values(|e: (String, [u8; 32])| path_bytes(e.0@));
                assert(hv1 =~= hv0.insert(hp as int, pb));
                assert forall|i: int, j: int| 0 <= i < j < hv1.len() implies lex_lt(#[trigger] hv1[i], #[trigger] hv1[j]) by {
                    if i < hp && j > hp {
                        lemma_lex_trans(hv1[i], pb, hv1[j]);
                    }
                }
            }
        }
        match block.kind {
            BlockKind::File => {
                self.stats.file_blocks = self.stats.file_blocks + 1;
            },
            BlockKind::Sync => {
                self.stats.sync_blocks = self.stats.sync_blocks + 1;
            },
            _ => {},
        }
        self.stats.total_blocks = self.stats.total_blocks + 1;
        let ghost be0 = block_entries(self.blocks@);
        let ghost bv0 = self.blocks_view().map_values(|b: DagBlock| b.hash@);
        let ghost bh = block.hash@;
        let ghost bk = block;
        self.blocks.insert(pos, block);
        proof {
            assert(be0.map_values(|e: (Seq<u8>, DagBlock)| e.0) =~= bv0);
            lemma_sorted_unique(be0);
            assert forall|j: int| 0 <= j < be0.len() implies be0[j].0 != bh by {
                lemma_lex_irreflexive(bh);
            }
            lemma_keyed_map_insert_at(be0, pos as int, (bh, bk));
            assert(block_entries(self.blocks@) =~= be0.insert(pos as int, (bh, bk)));
            let bv1 = self.blocks_view().map_values(|b: DagBlock| b.hash@);
            assert(bv1 =~= bv0.insert(pos as int, bh));
            assert forall|i: int, j: int| 0 <= i < j < bv1.len() implies lex_lt(#[trigger] bv1[i], #[trigger] bv1[j]) by {
                if i < pos && j > pos {
                    lemma_lex_trans(bv1[i], bh, bv1[j]);
                }
            }
            assert(self.head_map() =~= heads_after(hm0, bm0, bk));
            assert(self.stats == stats_after(st0, hm0, bm0, bk));
        }
        Ok(())
    }
}


/// The blocks met walking first parents back from `h`, at most `fuel` of them.
pub open spec fn chain(bm: Map<Seq<u8>, DagBlock>, h: Seq<u8>, fuel: nat) -> Seq<DagBlock>
    decreases fuel,
{
    if fuel == 0 || !bm.contains_key(h) {
        Seq::empty()
    } else {
        let b = bm[h];
        if b.parents@.len() > 0 && b.parents@[0]@ != zero_hash() {
            seq![b] + chain(bm, b.parents@[0]@, (fuel - 1) as nat)
        } else {
            seq![b]
        }
    }
}

/// The same block: every field holds the same value.
pub open spec fn same_block(a: DagBlock, b: DagBlock) -> bool {
    &&& a.hash@ == b.hash@
    &&& a.parents@ == b.parents@
    &&& a.author@ == b.author@
    &&& a.timestamp == b.timestamp
    &&& a.kind == b.kind
    &&& a.path@ == b.path@
    &&& a.payload@ == b.payload@
    &&& a.seq == b.seq
}

impl DagBlock {
    /// A copy of the block.
    pub fn duplicate(&self) -> (c: DagBlock)
        ensures
            same_block(c, *self),
    {
        let mut parents: Vec<[u8; 32]> = Vec::new();
        let mut k: usize = 0;
        while k < self.parents.len()
            invariant
                k <= self.parents@.len(),
                parents@ == self.parents@.subrange(0, k as int),
            decreases self.parents@.len() - k,
        {
            parents.push(self.parents[k]);
            k = k + 1;
            assert(parents@ =~= self.parents@.subrange(0, k as int));
        }
        assert(self.parents@.subrange(0, k as int) =~= self.parents@);
        DagBlock {
            hash: self.hash,
            parents,
            author: self.author,
            timestamp: self.timestamp,
            kind: self.kind,
            path: self.path.clone(),
            payload: copy_bytes(self.payload.as_slice()),
            seq: self.seq,
        }
    }
}

impl Dag {
    /// The counters.
    pub fn stats(&self) -> (st: DagStats)
        ensures
            st == self.counters(),
    {
        self.stats
    }

    /// The sequence number the next local block takes.
    pub fn sequence(&self) -> (n: u64)
        ensures
            n == self.seq_no(),
    {
        self.sequence
    }

    /// The head of `path`.
    pub fn head_of(&self, path: &str) -> (h: Option<[u8; 32]>)
        requires
            self.wf(),
        ensures
            match h {
                Some(x) => self.head_map().contains_key(path_bytes(path@)) && x@ == self.head_map()[path_bytes(path@)],
                None => !self.head_map().contains_key(path_bytes(path@)),
            },
    {
        let (hp, found) = self.head_slot(path.as_bytes());
        if found {
            Some(self.heads[hp].1)
        } else {
            None
        }
    }

    /// Writes `data` at `path` as a new local block whose parent is the path's head
    /// (or the "no parent" mark), and returns its hash.
    pub fn write_file(&mut self, path: &str, data: Vec<u8>, tick: u64) -> (h: [u8; 32])
        requires
            old(self).wf(),
            counters_below_max(old(self).counters()),
            old(self).seq_no() < u64::MAX,
        ensures
            final(self).wf(),
            final(self).seq_no() == old(self).seq_no() + 1,
            final(self).node() == old(self).node(),
            final(self).block_map().contains_key(h@),
            exists|b: DagBlock| {
                &&& #[trigger] b.hash@ == h@
                &&& b.hash@ == expected_hash(b)
                &&& b.parents@.len() == 1
                &&& b.parents@[0]@ == (if old(self).head_map().contains_key(path_bytes(path@)) {
                    old(self).head_map()[path_bytes(path@)]
                } else {
                    zero_hash()
                })
                &&& b.author@ == old(self).node() && b.timestamp == tick && b.kind == BlockKind::File
                &&& b.path@ == path@ && b.payload@ == data@ && b.seq == old(self).seq_no()
                &&& if old(self).block_map().contains_key(h@) {
                    final(self).block_map() == old(self).block_map() && final(self).head_map() == old(self).head_map()
                        && final(self).counters() == old(self).counters()
                } else {
                    &&& final(self).block_map() == old(self).block_map().insert(h@, b)
                    &&& final(self).head_map() == heads_after(old(self).head_map(), old(self).block_map(), b)
                    &&& final(self).counters() == stats_after(old(self).counters(), old(self).head_map(), old(self).block_map(), b)
                }
            },
            file_written(*old(self), *final(self), path@, data@, tick, h@),
    {
        let (hp, hfound) = self.head_slot(path.as_bytes());
        let mut parents: Vec<[u8; 32]> = Vec::new();
        if hfound {
            parents.push(self.heads[hp].1);
        } else {
            let z = [0u8; 32];
            assert(z@ =~= zero_hash());
            parents.push(z);
        }
        let seq = self.sequence;
        self.sequence = self.sequence + 1;
        let block = DagBlock::new(parents, self.node_id, tick, BlockKind::File, String::from_str(path), data, seq);
        let h = block.hash;
        let ghost b = block;
        let ghost mid = *self;
        assert(!missing_parent(mid.block_map(), b));
        let _ = self.insert(block);
        assert(b.hash@ == h@);
        h
    }

    /// The payload at the head of `path`.
    pub fn read_file(&self, path: &str) -> (r: Option<&[u8]>)
        requires
            self.wf(),
        ensures
            match r {
                Some(d) => self.head_map().contains_key(path_bytes(path@))
                    && d@ == self.block_map()[self.head_map()[path_bytes(path@)]].payload@,
                None => !self.head_map().contains_key(path_bytes(path@)),
            },
    {
        let (hp, hfound) = self.head_slot(path.as_bytes());
        if !hfound {
            return None;
        }
        let (bp, bfound) = self.block_slot(&self.heads[hp].1);
        if bfound {
            Some(self.blocks[bp].payload.as_slice())
        } else {
            None
        }
    }

    /// Every path with its head, in path order.
    pub fn list_paths(&self) -> (v: Vec<(String, [u8; 32])>)
        ensures
            v@.len() == self.heads_view().len(),
            forall|i: int| 0 <= i < v@.len() ==> (#[trigger] v@[i]).0@ == self.heads_view()[i].0@
                && v@[i].1@ == self.heads_view()[i].1@,
    {
        let mut v: Vec<(String, [u8; 32])> = Vec::new();
        let mut i: usize = 0;
        while i < self.heads.len()
            invariant
                i <= self.heads@.len(),
                v@.len() == i,
                forall|j: int| 0 <= j < i ==> (#[trigger] v@[j]).0@ == self.heads_view()[j].0@
                    && v@[j].1@ == self.heads_view()[j].1@,
            decreases self.heads@.len() - i,
        {
            v.push((self.heads[i].0.clone(), self.heads[i].1));
            i = i + 1;
        }
        v
    }

    /// The versions of `path`, oldest first: the first-parent walk back from its
    /// head, as long as the blocks are in the graph.
    pub fn history(&self, path: &str) -> (v: Vec<&DagBlock>)
        requires
            self.wf(),
        ensures
            self.head_map().contains_key(path_bytes(path@)) ==> {
                let c = chain(self.block_map(), self.head_map()[path_bytes(path@)], self.blocks_view().len() as nat);
                &&& v@.len() == c.len()
                &&& forall|i: int| 0 <= i < v@.len() ==> *(#[trigger] v@[i]) == c[c.len() - 1 - i]
            },
            !self.head_map().contains_key(path_bytes(path@)) ==> v@.len() == 0,
    {
        let mut rev: Vec<&DagBlock> = Vec::new();
        let (hp, hfound) = self.head_slot(path.as_bytes());
        if !hfound {
            return rev;
        }
        let ghost bm = self.block_map();
        let ghost h0 = self.heads@[hp as int].1@;
        let mut cur: [u8; 32] = self.heads[hp].1;
        let mut fuel: usize = self.blocks.len();
        let mut done = false;
        while !done && fuel > 0
            invariant
                self.wf(),
                bm == self.block_map(),
                fuel <= self.blocks@.len(),
                !done ==> chain(bm, h0, self.blocks@.len() as nat) == rev@.map_values(|r: &DagBlock| *r) + chain(bm, cur@, fuel as nat),
                done ==> chain(bm, h0, self.blocks@.len() as nat) == rev@.map_values(|r: &DagBlock| *r),
            decreases fuel + (if done { 0int } else { 1int }),
        {
            let (bp, bfound) = self.block_slot(&cur);
            if !bfound {
                done = true;
            } else {
                let b = &self.blocks[bp];
                let ghost before = rev@.map_values(|r: &DagBlock| *r);
                rev.push(b);
                assert(rev@.map_values(|r: &DagBlock| *r) =~= before.push(*b));
                if b.parents.len() > 0 && !is_zero_hash(&b.parents[0]) {
                    cur = b.parents[0];
                    fuel = fuel - 1;
                    assert(before + chain(bm, b.hash@, (fuel + 1) as nat) =~= before.push(*b) + chain(bm, cur@, fuel as nat));
                } else {
                    done = true;
                    assert(before.push(*b) =~= before + seq![*b]);
                }
            }
        }
        proof {
            if !done {
                assert(chain(bm, cur@, 0) =~= Seq::<DagBlock>::empty());
                assert(rev@.map_values(|r: &DagBlock| *r) + Seq::<DagBlock>::empty() =~= rev@.map_values(|r: &DagBlock| *r));
            }
        }
        let ghost c = rev@.map_values(|r: &DagBlock| *r);
        let mut v: Vec<&DagBlock> = Vec::new();
        let mut k: usize = rev.len();
        while k > 0
            invariant
                k <= rev@.len(),
                c == rev@.map_values(|r: &DagBlock| *r),
                v@.len() == rev@.len() - k,
                forall|i: int| 0 <= i < v@.len() ==> *(#[trigger] v@[i]) == c[c.len() - 1 - i],
            decreases k,
        {
            v.push(rev[k - 1]);
            k = k - 1;
        }
        v
    }

    /// The blocks whose hash is not in `known`, in hash order.
    pub fn missing_blocks(&self, known: &[[u8; 32]]) -> (v: Vec<&DagBlock>)
        ensures
            v@.map_values(|r: &DagBlock| *r) == self.blocks_view().filter(|b: DagBlock| !known@.map_values(|k: [u8; 32]| k@).contains(b.hash@)),
    {
        let ghost kv = known@.map_values(|k: [u8; 32]| k@);
        let ghost f = |b: DagBlock| !kv.contains(b.hash@);
        let mut v: Vec<&DagBlock> = Vec::new();
        let mut i: usize = 0;
        while i < self.blocks.len()
            invariant
                i <= self.blocks@.len(),
                kv == known@.map_values(|k: [u8; 32]| k@),
                f == (|b: DagBlock| !kv.contains(b.hash@)),
                v@.map_values(|r: &DagBlock| *r) == self.blocks_view().subrange(0, i as int).filter(f),
            decreases self.blocks@.len() - i,
        {
            let b = &self.blocks[i];
            let mut seen = false;
            let mut j: usize = 0;
            while j < known.len() && !seen
                invariant
                    j <= known@.len(),
                    kv == known@.map_values(|k: [u8; 32]| k@),
                    seen <==> exists|t: int| 0 <= t < j && kv[t] == b.hash@,
                decreases known@.len() - j,
            {
                assert(kv[j as int] == known@[j as int]@);
                if same_hash(&known[j], &b.hash) {
                    seen = true;
                }
                j = j + 1;
            }
            proof {
                if seen {
                    let t = choose|t: int| 0 <= t < j && kv[t] == b.hash@;
                    assert(kv.contains(b.hash@));
                } else {
                    assert(!kv.contains(b.hash@));
                }
                assert(self.blocks_view().subrange(0, i + 1) =~= self.blocks_view().subrange(0, i as int).push(*b));
                self.blocks_view().subrange(0, i as int).lemma_filter_push(*b, f);
            }
            let ghost before = v@.map_values(|r: &DagBlock| *r);
            if !seen {
                v.push(b);
                assert(v@.map_values(|r: &DagBlock| *r) =~= before.push(*b));
            }
            i = i + 1;
        }
        assert(self.blocks_view().subrange(0, i as int) =~= self.blocks_view());
        v
    }

    /// The hashes of all blocks, in hash order.
    pub fn all_hashes(&self) -> (v: Vec<[u8; 32]>)
        ensures
            v@.map_values(|h: [u8; 32]| h@) == self.blocks_view().map_values(|b: DagBlock| b.hash@),
    {
        let mut v: Vec<[u8; 32]> = Vec::new();
        let mut i: usize = 0;
        while i < self.blocks.len()
            invariant
                i <= self.blocks@.len(),
                v@.map_values(|h: [u8; 32]| h@) == self.blocks_view().subrange(0, i as int).map_values(|b: DagBlock| b.hash@),
            decreases self.blocks@.len() - i,
        {
            let ghost before = v@.map_values(|h: [u8; 32]| h@);
            let hh = self.blocks[i].hash;
            v.push(hh);
            assert(v@.map_values(|h: [u8; 32]| h@) =~= before.push(hh@));
            assert(self.blocks_view().subrange(0, i + 1).map_values(|b: DagBlock| b.hash@)
                =~= self.blocks_view().subrange(0, i as int).map_values(|b: DagBlock| b.hash@).push(self.blocks_view()[i as int].hash@));
            i = i + 1;
        }
        assert(self.blocks_view().subrange(0, i as int) =~= self.blocks_view());
        v
    }
}


/// Reading a path after a block for it joined the graph gives that block's
/// payload, whenever the path had no head or the block is newer than the head.
pub proof fn lemma_read_after_insert(d0: Dag, d1: Dag, b: DagBlock)
    requires
        d0.wf(),
        !d0.block_map().contains_key(b.hash@),
        d1.block_map() == d0.block_map().insert(b.hash@, b),
        d1.head_map() == heads_after(d0.head_map(), d0.block_map(), b),
        !d0.head_map().contains_key(path_bytes(b.path@))
            || newer(b, d0.block_map()[d0.head_map()[path_bytes(b.path@)]]),
    ensures
        d1.head_map().contains_key(path_bytes(b.path@)),
        d1.block_map()[d1.head_map()[path_bytes(b.path@)]] == b,
        d1.block_map()[d1.head_map()[path_bytes(b.path@)]].payload@ == b.payload@,
{
}

/// `newer` orders blocks strictly: never both ways, transitively, and one way
/// or the other when time or author differ.
proof fn lemma_newer_order(x: DagBlock, y: DagBlock, z: DagBlock)
    ensures
        !(newer(x, y) && newer(y, x)),
        !newer(x, x),
        (x.timestamp != y.timestamp || x.author@ != y.author@) ==> newer(x, y) || newer(y, x),
        newer(x, y) && newer(y, z) ==> newer(x, z),
{
    lemma_lex_total(x.author@, y.author@);
    lemma_lex_irreflexive(x.author@);
    if newer(x, y) && newer(y, z) && x.timestamp == z.timestamp {
        lemma_lex_trans(z.author@, y.author@, x.author@);
    }
}

/// Last writer wins whatever the order of arrival: two new blocks that differ
/// in time or author leave the same heads whichever of them joins the graph
/// first.
pub proof fn lemma_heads_commute(hm: Map<Seq<u8>, Seq<u8>>, bm: Map<Seq<u8>, DagBlock>, b1: DagBlock, b2: DagBlock)
    requires
        forall|p: Seq<u8>| #[trigger] hm.contains_key(p) ==> bm.contains_key(hm[p]),
        !bm.contains_key(b1.hash@),
        !bm.contains_key(b2.hash@),
        b1.hash@ != b2.hash@,
        b1.timestamp != b2.timestamp || b1.author@ != b2.author@,
    ensures
        heads_after(heads_after(hm, bm, b1), bm.insert(b1.hash@, b1), b2)
            == heads_after(heads_after(hm, bm, b2), bm.insert(b2.hash@, b2), b1),
{
    let p1 = path_bytes(b1.path@);
    let p2 = path_bytes(b2.path@);
    let bm1 = bm.insert(b1.hash@, b1);
    let bm2 = bm.insert(b2.hash@, b2);
    let h1 = heads_after(hm, bm, b1);
    let h2 = heads_after(hm, bm, b2);
    lemma_newer_order(b1, b2, b1);
    lemma_newer_order(b2, b1, b2);
    if hm.contains_key(p1) {
        let c = bm[hm[p1]];
        assert(bm1[hm[p1]] == c && bm2[hm[p1]] == c);
        lemma_newer_order(b1, b2, c);
        lemma_newer_order(b2, b1, c);
        lemma_newer_order(b1, c, b2);
        lemma_newer_order(b2, c, b1);
        lemma_newer_order(c, b1, b2);
        lemma_newer_order(c, b2, b1);
    }
    if hm.contains_key(p2) {
        let c = bm[hm[p2]];
        assert(bm1[hm[p2]] == c && bm2[hm[p2]] == c);
        lemma_newer_order(b1, b2, c);
        lemma_newer_order(b2, b1, c);
        lemma_newer_order(b1, c, b2);
        lemma_newer_order(b2, c, b1);
        lemma_newer_order(c, b1, b2);
        lemma_newer_order(c, b2, b1);
    }
    assert(bm1[b1.hash@] == b1);
    assert(bm2[b2.hash@] == b2);
    assert(heads_after(h1, bm1, b2) =~= heads_after(h2, bm2, b1));
}

/// `d1` is `d0` after new block `b` joined it, as `Dag::insert` leaves it.
pub open spec fn joined(d0: Dag, d1: Dag, b: DagBlock) -> bool {
    &&& d1.block_map() == d0.block_map().insert(b.hash@, b)
    &&& d1.head_map() == heads_after(d0.head_map(), d0.block_map(), b)
}

/// The graph converges whatever the order of arrival: two new blocks that
/// differ in time or author, inserted in either order, leave the same blocks
/// and the same heads.
pub proof fn lemma_inserts_commute(d0: Dag, d1: Dag, d2: Dag, e1: Dag, e2: Dag, b1: DagBlock, b2: DagBlock)
    requires
        d0.wf(),
        !d0.block_map().contains_key(b1.hash@),
        !d0.block_map().contains_key(b2.hash@),
        b1.hash@ != b2.hash@,
        b1.timestamp != b2.timestamp || b1.author@ != b2.author@,
        joined(d0, d1, b1),
        joined(d1, d2, b2),
        joined(d0, e1, b2),
        joined(e1, e2, b1),
    ensures
        d2.block_map() == e2.block_map(),
        d2.head_map() == e2.head_map(),
{
    lemma_heads_commute(d0.head_map(), d0.block_map(), b1, b2);
    assert(d2.block_map() =~= e2.block_map());
}

/// The graph plus what is waiting to be sent to peers.
pub struct SyncEngine {
    dag: Dag,
    pending_broadcast: Vec<[u8; 32]>,
    last_sync_tick: u64,
    sync_interval: u64,
}

/// The genesis payload `SOC-D DAG Genesis`.
pub open spec fn genesis_payload() -> Seq<u8> {
    seq![0x53u8, 0x4fu8, 0x43u8, 0x2du8, 0x44u8, 0x20u8, 0x44u8, 0x41u8, 0x47u8, 0x20u8,
        0x47u8, 0x65u8, 0x6eu8, 0x65u8, 0x73u8, 0x69u8, 0x73u8]
}

impl SyncEngine {
    /// The graph.
    pub closed spec fn dag_view(&self) -> Dag {
        self.dag
    }

    /// Hashes written locally and not yet sent.
    pub closed spec fn pending(&self) -> Seq<Seq<u8>> {
        self.pending_broadcast@.map_values(|h: [u8; 32]| h@)
    }

    /// Tick of the last propagation.
    pub closed spec fn last_sync(&self) -> u64 {
        self.last_sync_tick
    }

    /// Ticks between propagations.
    pub closed spec fn interval(&self) -> u64 {
        self.sync_interval
    }

    /// An empty graph; propagation every 300 ticks.
    pub fn new() -> (e: SyncEngine)
        ensures
            e.dag_view().wf(),
            e.dag_view().blocks_view().len() == 0,
            e.dag_view().counters() == Dag::new_stats(),
            e.dag_view().seq_no() == 0,
            e.pending().len() == 0,
            e.last_sync() == 0,
            e.interval() == 300,
    {
        let e = SyncEngine { dag: Dag::new(), pending_broadcast: Vec::new(), last_sync_tick: 0, sync_interval: 300 };
        assert(e.pending() =~= Seq::<Seq<u8>>::empty());
        e
    }

    /// The graph.
    pub fn dag(&self) -> (d: &Dag)
        ensures
            *d == self.dag_view(),
    {
        &self.dag
    }

    /// Sets the node id and adds the genesis block of path `/`.
    pub fn init(&mut self, node_id: [u8; 32], tick: u64) -> (r: Result<(), DagError>)
        requires
            old(self).dag_view().wf(),
            counters_below_max(old(self).dag_view().counters()),
        ensures
            final(self).dag_view().wf(),
            final(self).dag_view().node() == node_id@,
            r is Ok,
            exists|g: DagBlock| {
                &&& #[trigger] g.hash@ == expected_hash(g)
                &&& g.parents@.len() == 1 && g.parents@[0]@ == zero_hash()
                &&& g.author@ == node_id@ && g.timestamp == tick && g.kind == BlockKind::Genesis
                &&& g.path@ == seq!['/'] && g.payload@ == genesis_payload() && g.seq == 0
                &&& final(self).dag_view().block_map().contains_key(g.hash@)
            },
            final(self).pending() == old(self).pending(),
    {
        self.dag.set_node_id(node_id);
        let z = [0u8; 32];
        assert(z@ =~= zero_hash());
        let mut parents: Vec<[u8; 32]> = Vec::new();
        parents.push(z);
        let payload: Vec<u8> = vec![0x53u8, 0x4fu8, 0x43u8, 0x2du8, 0x44u8, 0x20u8, 0x44u8, 0x41u8, 0x47u8, 0x20u8,
            0x47u8, 0x65u8, 0x6eu8, 0x65u8, 0x73u8, 0x69u8, 0x73u8];
        assert(payload@ =~= genesis_payload());
        let root = String::from_str("/");
        proof {
            reveal_strlit("/");
        }
        let genesis = DagBlock::new(parents, node_id, tick, BlockKind::Genesis, root, payload, 0);
        let ghost g = genesis;
        assert(!missing_parent(self.dag.block_map(), g));
        self.dag.insert(genesis)
    }

    /// Writes a file locally and queues its block for the peers.
    pub fn write(&mut self, path: &str, data: Vec<u8>, tick: u64) -> (h: [u8; 32])
        requires
            old(self).dag_view().wf(),
            counters_below_max(old(self).dag_view().counters()),
            old(self).dag_view().seq_no() < u64::MAX,
        ensures
            final(self).dag_view().wf(),
            final(self).dag_view().block_map().contains_key(h@),
            final(self).dag_view().seq_no() == old(self).dag_view().seq_no() + 1,
            final(self).pending() == old(self).pending().push(h@),
            final(self).last_sync() == old(self).last_sync(),
            file_written(old(self).dag_view(), final(self).dag_view(), path@, data@, tick, h@),
    {
        let h = self.dag.write_file(path, data, tick);
        let ghost p0 = self.pending();
        self.pending_broadcast.push(h);
        assert(self.pending() =~= p0.push(h@));
        h
    }

    /// Takes in a block from a peer.
    pub fn receive_block(&mut self, block: DagBlock) -> (r: Result<(), DagError>)
        requires
            old(self).dag_view().wf(),
            counters_below_max(old(self).dag_view().counters()),
        ensures
            final(self).dag_view().wf(),
            final(self).pending() == old(self).pending(),
            match r {
                Err(DagError::InvalidHash) => block.hash@ != expected_hash(block) && final(self).dag_view() == old(self).dag_view(),
                Err(DagError::MissingParent) => block.hash@ == expected_hash(block)
                    && missing_parent(old(self).dag_view().block_map(), block)
                    && final(self).dag_view() == old(self).dag_view(),
                Err(DagError::DuplicateBlock) => false,
                Ok(()) => block.hash@ == expected_hash(block) && final(self).dag_view().block_map().contains_key(block.hash@),
            },
    {
        let ghost b = block;
        let r = self.dag.insert(block);
        proof {
            if r is Ok && !old(self).dag.block_map().contains_key(b.hash@) {
                assert(self.dag.block_map().contains_key(b.hash@));
            }
        }
        r
    }

    /// One propagation tick: once `sync_interval` ticks have passed since the last
    /// propagation, the queued hashes are handed out (to be sent) and the queue empties.
    pub fn tick(&mut self, current_tick: u64) -> (sent: Vec<[u8; 32]>)
        requires
            current_tick >= old(self).last_sync(),
        ensures
            final(self).dag_view() == old(self).dag_view(),
            current_tick - old(self).last_sync() < old(self).interval() ==> {
                &&& sent@.len() == 0
                &&& final(self).pending() == old(self).pending()
                &&& final(self).last_sync() == old(self).last_sync()
            },
            current_tick - old(self).last_sync() >= old(self).interval() ==> {
                &&& sent@.map_values(|h: [u8; 32]| h@) == old(self).pending()
                &&& final(self).pending().len() == 0
                &&& final(self).last_sync() == current_tick
            },
            final(self).interval() == old(self).interval(),
    {
        if current_tick - self.last_sync_tick < self.sync_interval {
            return Vec::new();
        }
        self.last_sync_tick = current_tick;
        let mut sent: Vec<[u8; 32]> = Vec::new();
        std::mem::swap(&mut sent, &mut self.pending_broadcast);
        assert(self.pending() =~= Seq::<Seq<u8>>::empty());
        sent
    }

    /// The hashes this node has, to offer a peer.
    pub fn sync_offer(&self) -> (v: Vec<[u8; 32]>)
        ensures
            v@.map_values(|h: [u8; 32]| h@) == self.dag_view().blocks_view().map_values(|b: DagBlock| b.hash@),
    {
        self.dag.all_hashes()
    }

    /// Copies of the blocks a peer that has `peer_hashes` lacks, in hash order.
    pub fn sync_diff(&self, peer_hashes: &[[u8; 32]]) -> (v: Vec<DagBlock>)
        ensures
            v@.len() == self.dag_view().blocks_view().filter(|b: DagBlock| !peer_hashes@.map_values(|k: [u8; 32]| k@).contains(b.hash@)).len(),
            forall|i: int| 0 <= i < v@.len() ==> same_block(#[trigger] v@[i],
                self.dag_view().blocks_view().filter(|b: DagBlock| !peer_hashes@.map_values(|k: [u8; 32]| k@).contains(b.hash@))[i]),
    {
        let refs = self.dag.missing_blocks(peer_hashes);
        let ghost want = refs@.map_values(|r: &DagBlock| *r);
        let mut v: Vec<DagBlock> = Vec::new();
        let mut i: usize = 0;
        while i < refs.len()
            invariant
                i <= refs@.len(),
                want == refs@.map_values(|r: &DagBlock| *r),
                v@.len() == i,
                forall|j: int| 0 <= j < i ==> same_block(#[trigger] v@[j], want[j]),
            decreases refs@.len() - i,
        {
            v.push(refs[i].duplicate());
            i = i + 1;
        }
        v
    }
}

impl Dag {
    /// All counters at zero.
    pub open spec fn new_stats() -> DagStats {
        DagStats { total_blocks: 0, file_blocks: 0, sync_blocks: 0, merge_count: 0, conflicts_resolved: 0 }
    }
}


/// Sets up the engine for this node: its id and the genesis block.
pub fn init(engine: &mut SyncEngine, node_id: [u8; 32], tick: u64) -> (r: Result<(), DagError>)
    requires
        old(engine).dag_view().wf(),
        counters_below_max(old(engine).dag_view().counters()),
    ensures
        final(engine).dag_view().wf(),
        final(engine).dag_view().node() == node_id@,
        r is Ok,
{
    engine.init(node_id, tick)
}

/// Writes a file at the current tick.
pub fn write(engine: &mut SyncEngine, path: &str, data: Vec<u8>, tick: u64) -> (h: [u8; 32])
    requires
        old(engine).dag_view().wf(),
        counters_below_max(old(engine).dag_view().counters()),
        old(engine).dag_view().seq_no() < u64::MAX,
    ensures
        final(engine).dag_view().wf(),
        final(engine).dag_view().block_map().contains_key(h@),
        final(engine).pending() == old(engine).pending().push(h@),
        final(engine).last_sync() == old(engine).last_sync(),
        file_written(old(engine).dag_view(), final(engine).dag_view(), path@, data@, tick, h@),
{
    engine.write(path, data, tick)
}

/// The newest content of `path`.
pub fn read(engine: &SyncEngine, path: &str) -> (r: Option<Vec<u8>>)
    requires
        engine.dag_view().wf(),
    ensures
        match r {
            Some(d) => engine.dag_view().head_map().contains_key(path_bytes(path@))
                && d@ == engine.dag_view().block_map()[engine.dag_view().head_map()[path_bytes(path@)]].payload@,
            None => !engine.dag_view().head_map().contains_key(path_bytes(path@)),
        },
{
    match engine.dag().read_file(path) {
        Some(d) => Some(copy_bytes(d)),
        None => None,
    }
}

/// Every path of the graph, in path order.
pub fn list(engine: &SyncEngine) -> (v: Vec<String>)
    ensures
        v@.len() == engine.dag_view().heads_view().len(),
        forall|i: int| 0 <= i < v@.len() ==> (#[trigger] v@[i])@ == engine.dag_view().heads_view()[i].0@,
{
    let ps = engine.dag().list_paths();
    let mut v: Vec<String> = Vec::new();
    let mut i: usize = 0;
    while i < ps.len()
        invariant
            i <= ps@.len(),
            ps@.len() == engine.dag_view().heads_view().len(),
            forall|j: int| 0 <= j < ps@.len() ==> (#[trigger] ps@[j]).0@ == engine.dag_view().heads_view()[j].0@,
            v@.len() == i,
            forall|j: int| 0 <= j < i ==> (#[trigger] v@[j])@ == engine.dag_view().heads_view()[j].0@,
        decreases ps@.len() - i,
    {
        v.push(ps[i].0.clone());
        i = i + 1;
    }
    v
}

/// The versions of `path`, oldest first: sequence number and short hash.
pub fn history(engine: &SyncEngine, path: &str) -> (v: Vec<(u64, String)>)
    requires
        engine.dag_view().wf(),
    ensures
        engine.dag_view().head_map().contains_key(path_bytes(path@)) ==> {
            let c = chain(engine.dag_view().block_map(), engine.dag_view().head_map()[path_bytes(path@)],
                engine.dag_view().blocks_view().len() as nat);
            &&& v@.len() == c.len()
            &&& forall|i: int| 0 <= i < v@.len() ==> (#[trigger] v@[i]).0 == c[c.len() - 1 - i].seq
                && v@[i].1@ == short_hex(c[c.len() - 1 - i].hash@)
        },
        !engine.dag_view().head_map().contains_key(path_bytes(path@)) ==> v@.len() == 0,
{
    let bs = engine.dag().history(path);
    let mut v: Vec<(u64, String)> = Vec::new();
    let mut i: usize = 0;
    while i < bs.len()
        invariant
            i <= bs@.len(),
            v@.len() == i,
            forall|j: int| 0 <= j < i ==> (#[trigger] v@[j]).0 == bs@[j].seq && v@[j].1@ == short_hex(bs@[j].hash@),
        decreases bs@.len() - i,
    {
        v.push((bs[i].seq, hash_to_hex(&bs[i].hash)));
        i = i + 1;
    }
    v
}

/// The propagation tick of the engine; returns the hashes handed out.
pub fn sync_tick(engine: &mut SyncEngine, current_tick: u64) -> (sent: Vec<[u8; 32]>)
    requires
        current_tick >= old(engine).last_sync(),
    ensures
        final(engine).dag_view() == old(engine).dag_view(),
        current_tick - old(engine).last_sync() < old(engine).interval() ==> sent@.len() == 0
            && final(engine).pending() == old(engine).pending(),
        current_tick - old(engine).last_sync() >= old(engine).interval() ==>
            sent@.map_values(|h: [u8; 32]| h@) == old(engine).pending() && final(engine).pending().len() == 0,
{
    engine.tick(current_tick)
}

/// The counters of the graph.
pub fn stats(engine: &SyncEngine) -> (st: DagStats)
    ensures
        st == engine.dag_view().counters(),
{
    engine.dag().stats()
}

} // verus!
