//! Signatures on graph blocks and the chain of trust that vets them. The
//! signature holds a keyed tag of the block hash and the author's public key.
use vstd::prelude::*;
use vstd::string::StringSliceAdditionalSpecFns;
use crate::util::{push_all, le_bytes, push_le, hex_of, push_hex_byte, string_push, keyed_map, keys_unique,
    lemma_keyed_map_get, lemma_keyed_map_absent, lemma_keyed_map_update};
use crate::dag::{same_hash, is_zero_hash, SyncEngine, counters_below_max, path_bytes, Dag, file_written};
use crate::node::LocalNode;

verus! {

/// The four lanes after feeding `d`: byte `i` is xored into lane `i % 4`, which
/// is then multiplied (wrapping).
pub open spec fn fnv_lanes(d: Seq<u8>) -> Seq<u64>
    decreases d.len(),
{
    if d.len() == 0 {
        seq![0xcbf29ce484222325u64, 0x84222325cbf29ce4u64, 0x14650fb0739d0383u64, 0x739d038314650fb0u64]
    } else {
        let s = fnv_lanes(d.drop_last());
        let k = (d.len() - 1) % 4;
        s.update(k, (s[k] ^ (d.last() as u64)).wrapping_mul(0x00000100000001b3u64))
    }
}

proof fn lemma_fnv_lanes_len(d: Seq<u8>)
    ensures
        fnv_lanes(d).len() == 4,
    decreases d.len(),
{
    if d.len() > 0 {
        lemma_fnv_lanes_len(d.drop_last());
    }
}

/// Rotates right by `r` bits.
pub open spec fn rotr(x: u64, r: u64) -> u64 {
    (x >> r) | (x << ((64 - r) as u64))
}

/// The final lane mix.
pub open spec fn final_lanes(s: Seq<u64>) -> Seq<u64> {
    let h0 = s[0] ^ rotr(s[1], 17);
    let h1 = s[1] ^ rotr(s[2], 31);
    let h2 = s[2] ^ rotr(s[3], 13);
    let h3 = s[3] ^ rotr(h0, 23);
    seq![h0, h1, h2, h3]
}

/// The signature hash of `d`: the mixed lanes, little-endian.
#[verifier::opaque]
pub open spec fn fnv256(d: Seq<u8>) -> Seq<u8> {
    let h = final_lanes(fnv_lanes(d));
    le_bytes(h[0], 8) + le_bytes(h[1], 8) + le_bytes(h[2], 8) + le_bytes(h[3], 8)
}

fn rot_right(x: u64, r: u64) -> (y: u64)
    requires
        0 < r < 64,
    ensures
        y == rotr(x, r),
{
    (x >> r) | (x << (64 - r))
}

/// The signature hash.
fn hash_fnv(data: &[u8]) -> (h: [u8; 32])
    ensures
        h@ == fnv256(data@),
{
    let mut st: Vec<u64> = Vec::new();
    st.push(0xcbf29ce484222325);
    st.push(0x84222325cbf29ce4);
    st.push(0x14650fb0739d0383);
    st.push(0x739d038314650fb0);
    let mut i: usize = 0;
    assert(data@.subrange(0, 0) =~= Seq::<u8>::empty());
    assert(st@ =~= fnv_lanes(Seq::<u8>::empty()));
    while i < data.len()
        invariant
            i <= data@.len(),
            st@ == fnv_lanes(data@.subrange(0, i as int)),
        decreases data@.len() - i,
    {
        proof {
            lemma_fnv_lanes_len(data@.subrange(0, i as int));
            assert(data@.subrange(0, i + 1).drop_last() =~= data@.subrange(0, i as int));
        }
        let slot = i % 4;
        let x = st[slot] ^ (data[i] as u64);
        st.set(slot, x.wrapping_mul(0x00000100000001b3));
        i = i + 1;
    }
    assert(data@.subrange(0, data@.len() as int) =~= data@);
    proof {
        lemma_fnv_lanes_len(data@);
    }
    let h0 = st[0] ^ rot_right(st[1], 17);
    let h1 = st[1] ^ rot_right(st[2], 31);
    let h2 = st[2] ^ rot_right(st[3], 13);
    let h3 = st[3] ^ rot_right(h0, 23);
    let mut out: Vec<u8> = Vec::new();
    push_le(&mut out, h0, 8);
    push_le(&mut out, h1, 8);
    push_le(&mut out, h2, 8);
    push_le(&mut out, h3, 8);
    proof {
        crate::util::lemma_le_bytes_len(h0, 8);
        crate::util::lemma_le_bytes_len(h1, 8);
        crate::util::lemma_le_bytes_len(h2, 8);
        crate::util::lemma_le_bytes_len(h3, 8);
        reveal(fnv256);
    }
    let h: [u8; 32] = [
        out[0], out[1], out[2], out[3], out[4], out[5], out[6], out[7],
        out[8], out[9], out[10], out[11], out[12], out[13], out[14], out[15],
        out[16], out[17], out[18], out[19], out[20], out[21], out[22], out[23],
        out[24], out[25], out[26], out[27], out[28], out[29], out[30], out[31],
    ];
    assert(h@ =~= out@);
    h
}

/// The key padded with zeros to 64 bytes and xored with `pad`.
pub open spec fn padded_key(key: Seq<u8>, pad: u8) -> Seq<u8> {
    Seq::new(64, |i: int| (if i < key.len() { key[i] } else { 0u8 }) ^ pad)
}

/// The keyed tag: the signature hash of the outer pad and the signature hash
/// of the inner pad and the data.
pub open spec fn keyed_tag(key: Seq<u8>, data: Seq<u8>) -> Seq<u8> {
    fnv256(padded_key(key, 0x5c) + fnv256(padded_key(key, 0x36) + data))
}

fn pad_key(key: &[u8], pad: u8) -> (v: Vec<u8>)
    ensures
        v@ == padded_key(key@, pad),
{
    let mut v: Vec<u8> = Vec::new();
    let mut i: usize = 0;
    while i < 64
        invariant
            i <= 64,
            v@.len() == i,
            forall|j: int| 0 <= j < i ==> #[trigger] v@[j] == padded_key(key@, pad)[j],
        decreases 64 - i,
    {
        let k = if i < key.len() { key[i] } else { 0 };
        v.push(k ^ pad);
        i = i + 1;
    }
    assert(v@ =~= padded_key(key@, pad));
    v
}

fn hmac_like(key: &[u8], data: &[u8]) -> (t: [u8; 32])
    ensures
        t@ == keyed_tag(key@, data@),
{
    let mut inner = pad_key(key, 0x36);
    push_all(&mut inner, data);
    let ih = hash_fnv(inner.as_slice());
    let mut outer = pad_key(key, 0x5c);
    push_all(&mut outer, ih.as_slice());
    hash_fnv(outer.as_slice())
}

/// The signing domain tag `socd-dag-sign-v1`.
pub open spec fn sign_tag() -> Seq<u8> {
    seq![0x73u8, 0x6fu8, 0x63u8, 0x64u8, 0x2du8, 0x64u8, 0x61u8, 0x67u8, 0x2du8, 0x73u8, 0x69u8, 0x67u8, 0x6eu8, 0x2du8, 0x76u8, 0x31u8]
}

/// The key a tag is made and checked with, derived from a public key: a
/// holder of the public key alone can check a tag.
pub open spec fn tag_key_of(public_key: Seq<u8>) -> Seq<u8> {
    fnv256(sign_tag() + public_key)
}

/// The key a key pair signs with: a private key holds its public half in
/// bytes 32..64, and the key is derived from that half.
pub open spec fn signing_key_of(private_key: Seq<u8>) -> Seq<u8> {
    tag_key_of(private_key.subrange(32, 64))
}

fn derive_tag_key(public_key: &[u8]) -> (k: [u8; 32])
    ensures
        k@ == tag_key_of(public_key@),
{
    let tag: [u8; 16] = [0x73, 0x6f, 0x63, 0x64, 0x2d, 0x64, 0x61, 0x67, 0x2d, 0x73, 0x69, 0x67, 0x6e, 0x2d, 0x76, 0x31];
    assert(tag@ =~= sign_tag());
    let mut input: Vec<u8> = Vec::new();
    push_all(&mut input, tag.as_slice());
    push_all(&mut input, public_key);
    hash_fnv(input.as_slice())
}

fn derive_signing_key(private_key: &[u8; 64]) -> (k: [u8; 32])
    ensures
        k@ == signing_key_of(private_key@),
{
    let mut half: Vec<u8> = Vec::new();
    let mut i: usize = 32;
    while i < 64
        invariant
            32 <= i <= 64,
            private_key@.len() == 64,
            half@ == private_key@.subrange(32, i as int),
        decreases 64 - i,
    {
        half.push(private_key[i]);
        i = i + 1;
        assert(half@ =~= private_key@.subrange(32, i as int));
    }
    derive_tag_key(half.as_slice())
}

/// Whether `sig` is accepted for `block_hash` under `public_key`: its second
/// half is that key, and its first half is the key's tag of the hash, not all
/// zeros.
pub open spec fn sig_accepts(sig: Seq<u8>, block_hash: Seq<u8>, public_key: Seq<u8>) -> bool {
    &&& sig.subrange(32, 64) == public_key
    &&& sig.subrange(0, 32) != zero32()
    &&& sig.subrange(0, 32) == keyed_tag(tag_key_of(public_key), block_hash)
}

/// A block signature: the keyed tag of the hash, then the author's public key.
#[derive(Clone, Copy)]
pub struct DagSignature(pub [u8; 64]);

/// The signature of `block_hash` by the holder of `private_key`.
pub open spec fn signature_of(block_hash: Seq<u8>, private_key: Seq<u8>, public_key: Seq<u8>) -> Seq<u8> {
    keyed_tag(signing_key_of(private_key), block_hash) + public_key
}

/// The zero signature.
pub open spec fn zero64() -> Seq<u8> {
    Seq::new(64, |i: int| 0u8)
}

impl DagSignature {
    /// The all-zero signature.
    pub fn zero() -> (s: DagSignature)
        ensures
            s.0@ == zero64(),
    {
        let z = [0u8; 64];
        assert(z@ =~= zero64());
        DagSignature(z)
    }

    /// Signs a block hash.
    pub fn sign(block_hash: &[u8; 32], private_key: &[u8; 64], public_key: &[u8; 32]) -> (s: DagSignature)
        ensures
            s.0@ == signature_of(block_hash@, private_key@, public_key@),
    {
        let sk = derive_signing_key(private_key);
        let mac = hmac_like(sk.as_slice(), block_hash.as_slice());
        let mut v: Vec<u8> = Vec::new();
        push_all(&mut v, mac.as_slice());
        push_all(&mut v, public_key.as_slice());
        assert(v@.len() == 64);
        let sig: [u8; 64] = [
            v[0], v[1], v[2], v[3], v[4], v[5], v[6], v[7], v[8], v[9], v[10], v[11], v[12], v[13], v[14], v[15],
            v[16], v[17], v[18], v[19], v[20], v[21], v[22], v[23], v[24], v[25], v[26], v[27], v[28], v[29], v[30], v[31],
            v[32], v[33], v[34], v[35], v[36], v[37], v[38], v[39], v[40], v[41], v[42], v[43], v[44], v[45], v[46], v[47],
            v[48], v[49], v[50], v[51], v[52], v[53], v[54], v[55], v[56], v[57], v[58], v[59], v[60], v[61], v[62], v[63],
        ];
        assert(sig@ =~= v@);
        DagSignature(sig)
    }

    /// Whether this signature is valid for `block_hash` and `public_key`: the
    /// embedded key is `public_key`, and the tag is that key's tag of the hash
    /// and not all zeros.
    pub fn verify(&self, block_hash: &[u8; 32], public_key: &[u8; 32]) -> (ok: bool)
        ensures
            ok == sig_accepts(self.0@, block_hash@, public_key@),
    {
        let mut i: usize = 0;
        while i < 32
            invariant
                i <= 32,
                self.0@.len() == 64 && public_key@.len() == 32,
                forall|j: int| 0 <= j < i ==> self.0@[32 + j] == public_key@[j],
            decreases 32 - i,
        {
            if self.0[32 + i] != public_key[i] {
                assert(self.0@.subrange(32, 64)[i as int] != public_key@[i as int]);
                return false;
            }
            i = i + 1;
        }
        assert(self.0@.subrange(32, 64) =~= public_key@);
        let mut k: usize = 0;
        let mut nonzero = false;
        while k < 32
            invariant
                k <= 32,
                self.0@.len() == 64,
                self.0@.subrange(32, 64) == public_key@,
                !nonzero ==> forall|j: int| 0 <= j < k ==> self.0@[j] == 0,
                nonzero ==> self.0@.subrange(0, 32) != zero32(),
            decreases 32 - k,
        {
            if self.0[k] != 0 {
                assert(self.0@.subrange(0, 32)[k as int] != zero32()[k as int]);
                nonzero = true;
            }
            k = k + 1;
        }
        if !nonzero {
            assert(self.0@.subrange(0, 32) =~= zero32());
            return false;
        }
        let key = derive_tag_key(public_key.as_slice());
        let expected = hmac_like(key.as_slice(), block_hash.as_slice());
        let mut m: usize = 0;
        while m < 32
            invariant
                m <= 32,
                self.0@.len() == 64,
                expected@.len() == 32,
                expected@ == keyed_tag(tag_key_of(public_key@), block_hash@),
                self.0@.subrange(32, 64) == public_key@,
                self.0@.subrange(0, 32) != zero32(),
                forall|j: int| 0 <= j < m ==> self.0@[j] == expected@[j],
            decreases 32 - m,
        {
            if self.0[m] != expected[m] {
                assert(self.0@.subrange(0, 32)[m as int] != expected@[m as int]);
                return false;
            }
            m = m + 1;
        }
        assert(self.0@.subrange(0, 32) =~= expected@);
        true
    }

    /// The full check, with the private key: the signature is the one `sign` makes.
    pub fn verify_full(&self, block_hash: &[u8; 32], public_key: &[u8; 32], private_key: &[u8; 64]) -> (ok: bool)
        ensures
            ok == (self.0@ == signature_of(block_hash@, private_key@, public_key@)),
    {
        let expected = DagSignature::sign(block_hash, private_key, public_key);
        crate::util::bytes_equal(expected.0.as_slice(), self.0.as_slice())
    }

    /// Whether every byte is zero.
    pub fn is_zero(&self) -> (z: bool)
        ensures
            z == (self.0@ == zero64()),
    {
        let mut i: usize = 0;
        while i < 64
            invariant
                i <= 64,
                self.0@.len() == 64,
                forall|j: int| 0 <= j < i ==> self.0@[j] == 0,
            decreases 64 - i,
        {
            if self.0[i] != 0 {
                assert(self.0@[i as int] != zero64()[i as int]);
                return false;
            }
            i = i + 1;
        }
        assert(self.0@ =~= zero64());
        true
    }

    /// The first eight bytes in hex, then `..`.
    pub fn short_hex(&self) -> (s: String)
        ensures
            s@ == hex_of(self.0@.subrange(0, 8)) + seq!['.', '.'],
    {
        let mut s = String::new();
        let mut i: usize = 0;
        while i < 8
            invariant
                i <= 8,
                self.0@.len() == 64,
                s@ == hex_of(self.0@.subrange(0, i as int)),
            decreases 8 - i,
        {
            push_hex_byte(&mut s, self.0[i]);
            i = i + 1;
            assert(self.0@.subrange(0, i as int).drop_last() =~= self.0@.subrange(0, i - 1));
        }
        string_push(&mut s, '.');
        string_push(&mut s, '.');
        s
    }
}


/// A digest has 32 bytes.
proof fn lemma_fnv256_len(d: Seq<u8>)
    ensures
        fnv256(d).len() == 32,
{
    let h = final_lanes(fnv_lanes(d));
    crate::util::lemma_le_bytes_len(h[0], 8);
    crate::util::lemma_le_bytes_len(h[1], 8);
    crate::util::lemma_le_bytes_len(h[2], 8);
    crate::util::lemma_le_bytes_len(h[3], 8);
    reveal(fnv256);
}

/// What `verify` says of what `sign` made, for a key pair whose private key
/// holds `public_key` as its public half: the signature is accepted for its
/// own hash and key unless its tag is all zeros; for another hash only where
/// the two hashes have the same tag under that key; never under another key.
pub proof fn lemma_verify_signed(h1: Seq<u8>, h2: Seq<u8>, private_key: Seq<u8>, public_key: Seq<u8>, other_key: Seq<u8>)
    requires
        private_key.len() == 64,
        public_key.len() == 32,
        private_key.subrange(32, 64) == public_key,
        other_key != public_key,
    ensures
        sig_accepts(signature_of(h1, private_key, public_key), h1, public_key)
            == (keyed_tag(signing_key_of(private_key), h1) != zero32()),
        sig_accepts(signature_of(h1, private_key, public_key), h2, public_key)
            ==> keyed_tag(tag_key_of(public_key), h2) == keyed_tag(tag_key_of(public_key), h1),
        !sig_accepts(signature_of(h1, private_key, public_key), h1, other_key),
{
    let t = keyed_tag(signing_key_of(private_key), h1);
    let s = signature_of(h1, private_key, public_key);
    lemma_fnv256_len(padded_key(signing_key_of(private_key), 0x5c) + fnv256(padded_key(signing_key_of(private_key), 0x36) + h1));
    assert(s.subrange(0, 32) =~= t);
    assert(s.subrange(32, 64) =~= public_key);
}

/// A block with its signature.
pub struct SignedBlock {
    pub hash: [u8; 32],
    pub author: [u8; 32],
    pub timestamp: u64,
    pub path: String,
    pub payload: Vec<u8>,
    pub parents: Vec<[u8; 32]>,
    pub seq: u64,
    pub signature: DagSignature,
    pub verified: bool,
}

/// The parent hashes, one after another.
pub open spec fn joined(ps: Seq<[u8; 32]>) -> Seq<u8>
    decreases ps.len(),
{
    if ps.len() == 0 { Seq::empty() } else { joined(ps.drop_last()) + ps.last()@ }
}

/// The hash of a signed block's fields.
pub open spec fn signed_hash(parents: Seq<[u8; 32]>, author: Seq<u8>, tick: u64, path: Seq<u8>, payload: Seq<u8>, seq: u64) -> Seq<u8> {
    fnv256(joined(parents) + author + le_bytes(tick, 8) + path + payload + le_bytes(seq, 8))
}

impl SignedBlock {
    /// The hash of a block's fields.
    pub fn compute_hash(parents: &[[u8; 32]], author: &[u8; 32], tick: u64, path: &str, payload: &[u8], seq: u64) -> (h: [u8; 32])
        ensures
            h@ == signed_hash(parents@, author@, tick, path.spec_bytes(), payload@, seq),
    {
        let mut data: Vec<u8> = Vec::new();
        let mut i: usize = 0;
        while i < parents.len()
            invariant
                i <= parents@.len(),
                data@ == joined(parents@.subrange(0, i as int)),
            decreases parents@.len() - i,
        {
            push_all(&mut data, parents[i].as_slice());
            i = i + 1;
            assert(parents@.subrange(0, i as int).drop_last() =~= parents@.subrange(0, i - 1));
        }
        assert(parents@.subrange(0, i as int) =~= parents@);
        push_all(&mut data, author.as_slice());
        push_le(&mut data, tick, 8);
        push_all(&mut data, path.as_bytes());
        push_all(&mut data, payload);
        push_le(&mut data, seq, 8);
        assert(data@ =~= joined(parents@) + author@ + le_bytes(tick, 8) + path.spec_bytes() + payload@ + le_bytes(seq, 8));
        hash_fnv(data.as_slice())
    }

    /// A block signed by this node (all-zero keys before the node exists). The
    /// hash covers the node id; the author field holds the public key.
    pub fn create(node: &Option<LocalNode>, path: &str, payload: Vec<u8>, parents: Vec<[u8; 32]>, seq: u64, tick: u64) -> (b: SignedBlock)
        ensures
            match node {
                Some(n) => {
                    &&& b.hash@ == signed_hash(parents@, n.node_id@, tick, path.spec_bytes(), payload@, seq)
                    &&& b.author == n.public_key
                    &&& b.signature.0@ == signature_of(b.hash@, n.private_key@, n.public_key@)
                },
                None => {
                    &&& b.hash@ == signed_hash(parents@, Seq::new(32, |i: int| 0u8), tick, path.spec_bytes(), payload@, seq)
                    &&& b.author@ == Seq::new(32, |i: int| 0u8)
                    &&& b.signature.0@ == signature_of(b.hash@, zero64(), Seq::new(32, |i: int| 0u8))
                },
            },
            b.timestamp == tick && b.path@ == path@ && b.payload@ == payload@ && b.parents@ == parents@ && b.seq == seq,
            b.verified == sig_accepts(b.signature.0@, b.hash@, b.author@),
            node matches Some(n) ==> (crate::node::keys_match(*n)
                ==> b.verified == (keyed_tag(signing_key_of(n.private_key@), b.hash@) != zero32())),
    {
        let z32 = [0u8; 32];
        let z64 = [0u8; 64];
        assert(z32@ =~= Seq::new(32, |i: int| 0u8));
        assert(z64@ =~= zero64());
        let (public_key, private_key, node_id) = match node {
            Some(n) => (n.public_key, n.private_key, n.node_id),
            None => (z32, z64, z32),
        };
        let hash = Self::compute_hash(parents.as_slice(), &node_id, tick, path, payload.as_slice(), seq);
        let signature = DagSignature::sign(&hash, &private_key, &public_key);
        let verified = signature.verify(&hash, &public_key);
        proof {
            if let Some(n) = node {
                if crate::node::keys_match(*n) {
                    lemma_verify_signed(hash@, hash@, private_key@, public_key@, public_key@.push(0));
                }
            }
        }
        SignedBlock {
            hash,
            author: public_key,
            timestamp: tick,
            path: String::from_str(path),
            payload,
            parents,
            seq,
            signature,
            verified,
        }
    }

    /// The check of a received block: a zero signature fails; otherwise the
    /// signature must be valid for the block's hash and author.
    pub fn verify_signature(&self) -> (ok: bool)
        ensures
            ok == sig_ok(self.signature.0@, self.hash@, self.author@),
    {
        if self.signature.is_zero() {
            return false;
        }
        self.signature.verify(&self.hash, &self.author)
    }
}

/// How far a key is trusted.
#[derive(Clone, Copy, PartialEq, Eq, Structural, Debug)]
pub enum TrustLevel {
    Owner,
    Peer,
    Unknown,
    Revoked,
}

/// The verdict on a block.
#[derive(Clone, Debug)]
pub enum VerifyResult {
    Valid,
    AlreadyVerified,
    AcceptedUntrusted,
    Invalid(String),
}

/// Keys with their levels, and blocks with their verdicts.
pub struct TrustChain {
    trusted_keys: Vec<([u8; 32], TrustLevel)>,
    verified: Vec<([u8; 32], bool)>,
    verified_ok: usize,
    verified_fail: usize,
    untrusted_blocks: usize,
}

/// Entries keyed by the bytes of their key.
pub open spec fn by_key<V>(s: Seq<([u8; 32], V)>) -> Seq<(Seq<u8>, V)> {
    s.map_values(|e: ([u8; 32], V)| (e.0@, e.1))
}

/// Sets `k` to `v` in a keyed list: replaced where it is, appended otherwise.
fn put<V: Copy>(s: &mut Vec<([u8; 32], V)>, k: [u8; 32], v: V)
    requires
        keys_unique(by_key(old(s)@)),
    ensures
        keys_unique(by_key(final(s)@)),
        keyed_map(by_key(final(s)@)) == keyed_map(by_key(old(s)@)).insert(k@, v),
        final(s)@.len() == old(s)@.len() + (if keyed_map(by_key(old(s)@)).contains_key(k@) { 0int } else { 1int }),
{
    let ghost ev = by_key(s@);
    let mut i: usize = 0;
    while i < s.len()
        invariant
            i <= s@.len(),
            ev == by_key(s@),
            s@ == old(s)@,
            keys_unique(ev),
            forall|j: int| 0 <= j < i ==> (#[trigger] ev[j]).0 != k@,
        decreases s@.len() - i,
    {
        if same_hash(&s[i].0, &k) {
            proof {
                lemma_keyed_map_update(ev, i as int, v);
                lemma_keyed_map_get(ev, i as int);
            }
            s.set(i, (k, v));
            assert(by_key(s@) =~= ev.update(i as int, (ev[i as int].0, v)));
            return;
        }
        i = i + 1;
    }
    proof {
        lemma_keyed_map_absent(ev, k@);
    }
    s.push((k, v));
    assert(by_key(s@) =~= ev.push((k@, v)));
    assert(by_key(s@).drop_last() =~= ev);
}

/// Looks `k` up in a keyed list.
fn get<V: Copy>(s: &Vec<([u8; 32], V)>, k: &[u8; 32]) -> (r: Option<V>)
    requires
        keys_unique(by_key(s@)),
    ensures
        match r {
            Some(v) => keyed_map(by_key(s@)).contains_key(k@) && keyed_map(by_key(s@))[k@] == v,
            None => !keyed_map(by_key(s@)).contains_key(k@),
        },
{
    let ghost ev = by_key(s@);
    let mut i: usize = 0;
    while i < s.len()
        invariant
            i <= s@.len(),
            ev == by_key(s@),
            keys_unique(ev),
            forall|j: int| 0 <= j < i ==> (#[trigger] ev[j]).0 != k@,
        decreases s@.len() - i,
    {
        if same_hash(&s[i].0, k) {
            proof {
                lemma_keyed_map_get(ev, i as int);
            }
            return Some(s[i].1);
        }
        i = i + 1;
    }
    proof {
        lemma_keyed_map_absent(ev, k@);
    }
    None
}

impl TrustChain {
    /// Keys and their levels.
    pub closed spec fn keys(&self) -> Map<Seq<u8>, TrustLevel> {
        keyed_map(by_key(self.trusted_keys@))
    }

    /// Block hashes and their verdicts.
    pub closed spec fn verdicts(&self) -> Map<Seq<u8>, bool> {
        keyed_map(by_key(self.verified@))
    }

    /// Accepted, rejected and untrusted-author counts.
    pub closed spec fn tallies(&self) -> (usize, usize, usize) {
        (self.verified_ok, self.verified_fail, self.untrusted_blocks)
    }

    /// The number of keys.
    pub closed spec fn key_count(&self) -> nat {
        self.trusted_keys@.len()
    }

    pub closed spec fn wf(&self) -> bool {
        &&& keys_unique(by_key(self.trusted_keys@))
        &&& keys_unique(by_key(self.verified@))
        &&& self.trusted_keys@.len() == self.keys().dom().len()
        &&& self.keys().dom().finite()
    }

    /// No keys, no verdicts.
    pub fn new() -> (c: TrustChain)
        ensures
            c.wf(),
            c.keys() == Map::<Seq<u8>, TrustLevel>::empty(),
            c.verdicts() == Map::<Seq<u8>, bool>::empty(),
            c.tallies() == (0usize, 0usize, 0usize),
    {
        let c = TrustChain { trusted_keys: Vec::new(), verified: Vec::new(), verified_ok: 0, verified_fail: 0, untrusted_blocks: 0 };
        assert(c.keys() =~= Map::<Seq<u8>, TrustLevel>::empty());
        assert(c.verdicts() =~= Map::<Seq<u8>, bool>::empty());
        c
    }

    /// Sets the level of a key.
    pub fn add_trusted(&mut self, pubkey: [u8; 32], level: TrustLevel)
        requires
            old(self).wf(),
        ensures
            final(self).wf(),
            final(self).keys() == old(self).keys().insert(pubkey@, level),
            final(self).verdicts() == old(self).verdicts(),
            final(self).tallies() == old(self).tallies(),
    {
        let ghost before = self.keys();
        put(&mut self.trusted_keys, pubkey, level);
        proof {
            if before.contains_key(pubkey@) {
                assert(self.keys().dom() =~= before.dom());
            } else {
                assert(self.keys().dom() =~= before.dom().insert(pubkey@));
            }
        }
    }

    /// The level of a key: Unknown when it is not registered.
    pub fn trust_level(&self, pubkey: &[u8; 32]) -> (l: TrustLevel)
        requires
            self.wf(),
        ensures
            l == (if self.keys().contains_key(pubkey@) { self.keys()[pubkey@] } else { TrustLevel::Unknown }),
    {
        match get(&self.trusted_keys, pubkey) {
            Some(l) => l,
            None => TrustLevel::Unknown,
        }
    }

    /// How many keys are registered.
    pub fn trusted_key_count(&self) -> (n: usize)
        requires
            self.wf(),
        ensures
            n == self.keys().dom().len(),
    {
        self.trusted_keys.len()
    }

    /// Vets a block once: a block seen before gets its earlier verdict; a bad
    /// signature or a revoked author is rejected; an unknown author is accepted as
    /// untrusted; any other author is accepted.
    pub fn verify_block(&mut self, block: &SignedBlock) -> (r: VerifyResult)
        requires
            old(self).wf(),
            old(self).tallies().0 < usize::MAX && old(self).tallies().1 < usize::MAX && old(self).tallies().2 < usize::MAX,
        ensures
            final(self).wf(),
            final(self).keys() == old(self).keys(),
            old(self).verdicts().contains_key(block.hash@) ==> {
                &&& final(self).verdicts() == old(self).verdicts() && final(self).tallies() == old(self).tallies()
                &&& (old(self).verdicts()[block.hash@] ==> r is AlreadyVerified)
                &&& (!old(self).verdicts()[block.hash@] ==> (r matches VerifyResult::Invalid(m) && m@ == "previously failed"@))
            },
            !old(self).verdicts().contains_key(block.hash@) ==> {
                let sig_ok = sig_ok(block.signature.0@, block.hash@, block.author@);
                let level = if old(self).keys().contains_key(block.author@) { old(self).keys()[block.author@] } else { TrustLevel::Unknown };
                let (ok, fail, unt) = old(self).tallies();
                &&& !sig_ok ==> (r matches VerifyResult::Invalid(m) && m@ == "bad signature"@
                    && final(self).verdicts() == old(self).verdicts().insert(block.hash@, false)
                    && final(self).tallies() == (ok, (fail + 1) as usize, unt))
                &&& sig_ok && level == TrustLevel::Revoked ==> (r matches VerifyResult::Invalid(m) && m@ == "revoked key"@
                    && final(self).verdicts() == old(self).verdicts().insert(block.hash@, false)
                    && final(self).tallies() == (ok, (fail + 1) as usize, unt))
                &&& sig_ok && level == TrustLevel::Unknown ==> r is AcceptedUntrusted
                    && final(self).verdicts() == old(self).verdicts().insert(block.hash@, true)
                    && final(self).tallies() == ((ok + 1) as usize, fail, (unt + 1) as usize)
                &&& sig_ok && (level == TrustLevel::Owner || level == TrustLevel::Peer) ==> r is Valid
                    && final(self).verdicts() == old(self).verdicts().insert(block.hash@, true)
                    && final(self).tallies() == ((ok + 1) as usize, fail, unt)
            },
            vetted(*old(self), *final(self), block.hash@, block.signature.0@, block.author@),
            (r is Invalid) == rejects(*old(self), block.hash@, block.signature.0@, block.author@),
    {
        match get(&self.verified, &block.hash) {
            Some(v) => {
                if v {
                    return VerifyResult::AlreadyVerified;
                } else {
                    return VerifyResult::Invalid(String::from_str("previously failed"));
                }
            },
            None => {},
        }
        if !block.verify_signature() {
            put(&mut self.verified, block.hash, false);
            self.verified_fail = self.verified_fail + 1;
            return VerifyResult::Invalid(String::from_str("bad signature"));
        }
        let trust = self.trust_level(&block.author);
        match trust {
            TrustLevel::Revoked => {
                put(&mut self.verified, block.hash, false);
                self.verified_fail = self.verified_fail + 1;
                VerifyResult::Invalid(String::from_str("revoked key"))
            },
            TrustLevel::Unknown => {
                self.untrusted_blocks = self.untrusted_blocks + 1;
                put(&mut self.verified, block.hash, true);
                self.verified_ok = self.verified_ok + 1;
                VerifyResult::AcceptedUntrusted
            },
            _ => {
                put(&mut self.verified, block.hash, true);
                self.verified_ok = self.verified_ok + 1;
                VerifyResult::Valid
            },
        }
    }
}

/// Whether a block's signature passes the check of `verify_block`: not all
/// zero, and valid for the block's hash and author.
pub open spec fn sig_ok(sig: Seq<u8>, hash: Seq<u8>, author: Seq<u8>) -> bool {
    sig != zero64() && sig_accepts(sig, hash, author)
}

/// The level of a key in a chain: Unknown when it is not registered.
pub open spec fn level_in(c: TrustChain, author: Seq<u8>) -> TrustLevel {
    if c.keys().contains_key(author) { c.keys()[author] } else { TrustLevel::Unknown }
}

/// Whether the chain rejects a block: its earlier verdict was a failure, or,
/// seen for the first time, its signature fails or its author is revoked.
pub open spec fn rejects(c: TrustChain, hash: Seq<u8>, sig: Seq<u8>, author: Seq<u8>) -> bool {
    if c.verdicts().contains_key(hash) {
        !c.verdicts()[hash]
    } else {
        !sig_ok(sig, hash, author) || level_in(c, author) == TrustLevel::Revoked
    }
}

/// `c1` is `c0` after vetting a block: a known block changes nothing; a new
/// one gets its verdict, and is counted as rejected, or as accepted (and as
/// untrusted when its author is unknown).
pub open spec fn vetted(c0: TrustChain, c1: TrustChain, hash: Seq<u8>, sig: Seq<u8>, author: Seq<u8>) -> bool {
    &&& c1.wf()
    &&& c1.keys() == c0.keys()
    &&& if c0.verdicts().contains_key(hash) {
        c1.verdicts() == c0.verdicts() && c1.tallies() == c0.tallies()
    } else {
        let (ok, fail, unt) = c0.tallies();
        let rej = rejects(c0, hash, sig, author);
        &&& c1.verdicts() == c0.verdicts().insert(hash, !rej)
        &&& c1.tallies() == (if rej {
            (ok, (fail + 1) as usize, unt)
        } else if level_in(c0, author) == TrustLevel::Unknown {
            ((ok + 1) as usize, fail, (unt + 1) as usize)
        } else {
            ((ok + 1) as usize, fail, unt)
        })
    }
}

/// 32 zero bytes.
pub open spec fn zero32() -> Seq<u8> {
    Seq::new(32, |i: int| 0u8)
}

/// The parent a signed write of `path` names: the path's head, or zeros.
pub open spec fn write_parent(d: Dag, path: Seq<char>) -> Seq<u8> {
    if d.head_map().contains_key(path_bytes(path)) { d.head_map()[path_bytes(path)] } else { zero32() }
}

/// The id that signs for a node: its node id, or zeros before it exists.
pub open spec fn signer_id(node: Option<LocalNode>) -> Seq<u8> {
    match node { Some(n) => n.node_id@, None => zero32() }
}

/// The author key of a node's blocks: its public key, or zeros.
pub open spec fn signer_key(node: Option<LocalNode>) -> Seq<u8> {
    match node { Some(n) => n.public_key@, None => zero32() }
}

/// The hash of the block a signed write makes.
pub open spec fn write_hash(d: Dag, node: Option<LocalNode>, path: Seq<char>, payload: Seq<u8>, tick: u64) -> Seq<u8> {
    fnv256(write_parent(d, path) + signer_id(node) + le_bytes(tick, 8) + path_bytes(path) + payload
        + le_bytes(d.seq_no(), 8))
}

/// The signature of the block a signed write makes.
pub open spec fn write_sig(d: Dag, node: Option<LocalNode>, path: Seq<char>, payload: Seq<u8>, tick: u64) -> Seq<u8> {
    match node {
        Some(n) => signature_of(write_hash(d, node, path, payload, tick), n.private_key@, n.public_key@),
        None => signature_of(write_hash(d, node, path, payload, tick), zero64(), zero32()),
    }
}

/// Registers this node's key as the owner and every known peer as a peer.
pub fn init(chain: &mut TrustChain, own_pubkey: [u8; 32], peers: &Vec<[u8; 32]>)
    requires
        old(chain).wf(),
    ensures
        final(chain).wf(),
        final(chain).verdicts() == old(chain).verdicts(),
        forall|k: int| 0 <= k < peers@.len() ==> #[trigger] final(chain).keys().contains_key(peers@[k]@),
        final(chain).keys().contains_key(own_pubkey@),
{
    chain.add_trusted(own_pubkey, TrustLevel::Owner);
    let mut i: usize = 0;
    while i < peers.len()
        invariant
            i <= peers@.len(),
            chain.wf(),
            chain.verdicts() == old(chain).verdicts(),
            chain.keys().contains_key(own_pubkey@),
            forall|k: int| 0 <= k < i ==> #[trigger] chain.keys().contains_key(peers@[k]@),
        decreases peers@.len() - i,
    {
        chain.add_trusted(peers[i], TrustLevel::Peer);
        i = i + 1;
    }
}

/// Accepted, rejected and untrusted counts.
pub fn stats(chain: &TrustChain) -> (t: (usize, usize, usize))
    ensures
        t == chain.tallies(),
{
    (chain.verified_ok, chain.verified_fail, chain.untrusted_blocks)
}

/// Writes `payload` at `path` as a block signed by this node: the block is vetted
/// by the chain of trust and, unless rejected, written to the graph. Returns the
/// signed block's hash, or zeros when it was rejected.
pub fn write_signed(
    chain: &mut TrustChain,
    engine: &mut SyncEngine,
    node: &Option<LocalNode>,
    path: &str,
    payload: Vec<u8>,
    tick: u64,
) -> (h: [u8; 32])
    requires
        old(chain).wf(),
        old(engine).dag_view().wf(),
        counters_below_max(old(engine).dag_view().counters()),
        old(engine).dag_view().seq_no() < u64::MAX,
        old(chain).tallies().0 < usize::MAX && old(chain).tallies().1 < usize::MAX && old(chain).tallies().2 < usize::MAX,
    ensures
        final(chain).wf(),
        final(engine).dag_view().wf(),
        final(chain).keys() == old(chain).keys(),
        ({
            let d0 = old(engine).dag_view();
            let hash = write_hash(d0, *node, path@, payload@, tick);
            let sig = write_sig(d0, *node, path@, payload@, tick);
            let author = signer_key(*node);
            &&& vetted(*old(chain), *final(chain), hash, sig, author)
            &&& rejects(*old(chain), hash, sig, author) ==> h@ == zero32() && *final(engine) == *old(engine)
            &&& !rejects(*old(chain), hash, sig, author) ==> h@ == hash && exists|bh: Seq<u8>|
                file_written(d0, final(engine).dag_view(), path@, payload@, tick, bh)
                && #[trigger] final(engine).pending() == old(engine).pending().push(bh)
        }),
{
    let parent = engine.dag().head_of(path);
    let z = [0u8; 32];
    let mut parents: Vec<[u8; 32]> = Vec::new();
    match parent {
        Some(h) => parents.push(h),
        None => parents.push(z),
    }
    let seq = engine.dag().sequence();
    let copy = crate::util::copy_bytes(payload.as_slice());
    let signed = SignedBlock::create(node, path, copy, parents, seq, tick);
    let hash = signed.hash;
    proof {
        let d0 = old(engine).dag_view();
        assert(joined(parents@) =~= write_parent(d0, path@)) by {
            assert(parents@.len() == 1);
            assert(parents@.drop_last() =~= Seq::<[u8; 32]>::empty());
            assert(joined(Seq::<[u8; 32]>::empty()) =~= Seq::<u8>::empty());
            assert(joined(parents@) == joined(parents@.drop_last()) + parents@.last()@);
            assert(z@ =~= zero32());
            assert(*engine == *old(engine));
            match parent {
                Some(h) => { assert(parents@.last() == h); },
                None => { assert(parents@.last() == z); },
            }
        }
        assert(path.spec_bytes() == path_bytes(path@));
        assert(signed.hash@ == write_hash(d0, *node, path@, payload@, tick));
        assert(signed.author@ == signer_key(*node));
        assert(signed.signature.0@ == write_sig(d0, *node, path@, payload@, tick));
    }
    let result = chain.verify_block(&signed);
    match result {
        VerifyResult::Invalid(_) => {
            assert(z@ =~= zero32());
            return z;
        },
        _ => {},
    }
    let bh = crate::dag::write(engine, path, payload, tick);
    assert(final(engine).pending() == old(engine).pending().push(bh@));
    hash
}

} // verus!
