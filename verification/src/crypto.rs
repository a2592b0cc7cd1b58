//! SHA-256, HMAC-SHA256 and Ed25519 from the audited crates, and the
//! identifiers the kernel derives from them.
use vstd::prelude::*;
use vstd::string::StringSliceAdditionalSpecFns;
use sha2::Digest;
use hmac::Mac;
use ed25519_dalek::Signer;
use ed25519_dalek::Verifier;
use crate::util::{push_all, hex_of, push_hex_byte, string_push, le_bytes, push_le, lex_lt, lex_order,
    lemma_lex_total, lemma_lex_irreflexive};

verus! {

/// SHA-256 of `data`.
pub uninterp spec fn sha256_of(data: Seq<u8>) -> Seq<u8>;

/// HMAC-SHA256 of `data` under `key`.
pub uninterp spec fn hmac_sha256_of(key: Seq<u8>, data: Seq<u8>) -> Seq<u8>;

/// The Ed25519 public key of secret key `seed`.
pub uninterp spec fn ed25519_public_of(seed: Seq<u8>) -> Seq<u8>;

/// The Ed25519 signature of `msg` under secret key `seed`.
pub uninterp spec fn ed25519_signature_of(seed: Seq<u8>, msg: Seq<u8>) -> Seq<u8>;

/// Whether `sig` is a valid Ed25519 signature of `msg` under public key `pk`.
pub uninterp spec fn ed25519_accepts(pk: Seq<u8>, msg: Seq<u8>, sig: Seq<u8>) -> bool;

/// `sha2::Sha256::digest`: the SHA-256 digest of `data`.
#[verifier::external_body]
fn sha256_digest(data: &[u8]) -> (h: [u8; 32])
    ensures
        h@ == sha256_of(data@),
{
    let d = sha2::Sha256::digest(data);
    let mut out = [0u8; 32];
    out.copy_from_slice(&d);
    out
}

/// `hmac::Hmac<Sha256>` keyed with `key` (any key length is accepted), fed
/// `data`, finalized: the HMAC-SHA256 tag.
#[verifier::external_body]
fn hmac_sha256_tag(key: &[u8], data: &[u8]) -> (t: [u8; 32])
    ensures
        t@ == hmac_sha256_of(key@, data@),
{
    let mut mac = <hmac::Hmac<sha2::Sha256> as Mac>::new_from_slice(key).expect("HMAC takes keys of any size");
    mac.update(data);
    let mut out = [0u8; 32];
    out.copy_from_slice(&mac.finalize().into_bytes());
    out
}

/// `ed25519_dalek::SigningKey::from_bytes(seed).verifying_key().to_bytes()`:
/// the public key of a secret key.
#[verifier::external_body]
fn ed25519_public(seed: &[u8; 32]) -> (pk: [u8; 32])
    ensures
        pk@ == ed25519_public_of(seed@),
{
    ed25519_dalek::SigningKey::from_bytes(seed).verifying_key().to_bytes()
}

/// `ed25519_dalek::SigningKey::from_bytes(seed).sign(data).to_bytes()`: the
/// (deterministic) signature of `data`.
#[verifier::external_body]
fn ed25519_sign(seed: &[u8; 32], data: &[u8]) -> (sig: [u8; 64])
    ensures
        sig@ == ed25519_signature_of(seed@, data@),
{
    ed25519_dalek::SigningKey::from_bytes(seed).sign(data).to_bytes()
}

/// `ed25519_dalek::VerifyingKey::from_bytes(pk)` then `verify(data, sig)`:
/// false when the key does not decode or the signature does not check. A
/// signature that `sign` made with the secret key of `pk` checks.
#[verifier::external_body]
fn ed25519_verify(pk: &[u8; 32], data: &[u8], sig: &[u8; 64]) -> (ok: bool)
    ensures
        ok == ed25519_accepts(pk@, data@, sig@),
        (exists|seed: Seq<u8>| seed.len() == 32 && pk@ == ed25519_public_of(seed)
            && sig@ == ed25519_signature_of(seed, data@)) ==> ok,
{
    let vk = match ed25519_dalek::VerifyingKey::from_bytes(pk) {
        Ok(k) => k,
        Err(_) => return false,
    };
    let s = ed25519_dalek::Signature::from_bytes(sig);
    vk.verify(data, &s).is_ok()
}

/// SHA-256 of `data`.
pub fn sha256(data: &[u8]) -> (h: [u8; 32])
    ensures
        h@ == sha256_of(data@),
{
    sha256_digest(data)
}

/// The concatenation of byte strings.
pub open spec fn concat_all(fs: Seq<Seq<u8>>) -> Seq<u8>
    decreases fs.len(),
{
    if fs.len() == 0 { Seq::empty() } else { concat_all(fs.drop_last()) + fs.last() }
}

/// SHA-256 of several byte strings fed one after another.
pub fn sha256_multi(fields: &[&[u8]]) -> (h: [u8; 32])
    ensures
        h@ == sha256_of(concat_all(fields@.map_values(|f: &[u8]| f@))),
{
    let ghost fs = fields@.map_values(|f: &[u8]| f@);
    let mut all: Vec<u8> = Vec::new();
    let mut i: usize = 0;
    while i < fields.len()
        invariant
            i <= fields@.len(),
            fs == fields@.map_values(|f: &[u8]| f@),
            all@ == concat_all(fs.subrange(0, i as int)),
        decreases fields@.len() - i,
    {
        push_all(&mut all, fields[i]);
        i = i + 1;
        assert(fs.subrange(0, i as int).drop_last() =~= fs.subrange(0, i - 1));
    }
    assert(fs.subrange(0, i as int) =~= fs);
    sha256_digest(all.as_slice())
}

/// The 64 hexadecimal digits of a hash.
pub fn hash_to_hex(h: &[u8; 32]) -> (s: String)
    ensures
        s@ == hex_of(h@),
{
    let mut s = String::new();
    let mut i: usize = 0;
    while i < 32
        invariant
            i <= 32,
            h@.len() == 32,
            s@ == hex_of(h@.subrange(0, i as int)),
        decreases 32 - i,
    {
        push_hex_byte(&mut s, h[i]);
        i = i + 1;
        assert(h@.subrange(0, i as int).drop_last() =~= h@.subrange(0, i - 1));
    }
    assert(h@.subrange(0, 32) =~= h@);
    s
}

/// The first sixteen hexadecimal digits of a hash, then `..`.
pub fn hash_short(h: &[u8; 32]) -> (s: String)
    ensures
        s@ == hex_of(h@.subrange(0, 8)) + seq!['.', '.'],
{
    let mut s = String::new();
    let mut i: usize = 0;
    while i < 8
        invariant
            i <= 8,
            h@.len() == 32,
            s@ == hex_of(h@.subrange(0, i as int)),
        decreases 8 - i,
    {
        push_hex_byte(&mut s, h[i]);
        i = i + 1;
        assert(h@.subrange(0, i as int).drop_last() =~= h@.subrange(0, i - 1));
    }
    string_push(&mut s, '.');
    string_push(&mut s, '.');
    s
}

/// HMAC-SHA256 of `data` under `key`.
pub fn hmac_sha256(key: &[u8], data: &[u8]) -> (t: [u8; 32])
    ensures
        t@ == hmac_sha256_of(key@, data@),
{
    hmac_sha256_tag(key, data)
}

/// Whether `expected` is the HMAC-SHA256 tag of `data` under `key`; every byte
/// is compared, whatever the first difference.
pub fn hmac_verify(key: &[u8], data: &[u8], expected: &[u8; 32]) -> (ok: bool)
    ensures
        ok == (hmac_sha256_of(key@, data@) == expected@),
{
    let computed = hmac_sha256_tag(key, data);
    let mut diff: u8 = 0;
    let mut i: usize = 0;
    while i < 32
        invariant
            i <= 32,
            computed@.len() == 32 && expected@.len() == 32,
            (diff == 0) == (forall|j: int| 0 <= j < i ==> computed@[j] == expected@[j]),
        decreases 32 - i,
    {
        let a = computed[i];
        let b = expected[i];
        let d0 = diff;
        diff = diff | (a ^ b);
        assert((d0 | (a ^ b)) == 0 <==> (d0 == 0 && a == b)) by (bit_vector);
        i = i + 1;
    }
    proof {
        if diff == 0 {
            assert(computed@ =~= expected@);
        }
    }
    diff == 0
}

/// An Ed25519 key pair.
pub struct KeyPair {
    pub signing_key: [u8; 32],
    pub verifying_key: [u8; 32],
}

impl KeyPair {
    /// The key pair of secret key `seed`.
    pub fn from_seed(seed: [u8; 32]) -> (kp: KeyPair)
        ensures
            kp.signing_key == seed,
            kp.verifying_key@ == ed25519_public_of(seed@),
    {
        let vk = ed25519_public(&seed);
        KeyPair { signing_key: seed, verifying_key: vk }
    }

    /// A key pair whose secret key is 32 random bytes, as `random_32` gives them.
    pub fn generate(drawn: Option<&[u8]>, tsc: u64, tick: u64) -> (kp: KeyPair)
        ensures
            kp.signing_key@ == (match drawn {
                Some(d) => if d@.len() == 32 { d@ } else { entropy_stream(entropy_seed(tsc, tick), 0, 32) },
                None => entropy_stream(entropy_seed(tsc, tick), 0, 32),
            }),
            kp.verifying_key@ == ed25519_public_of(kp.signing_key@),
    {
        KeyPair::from_seed(random_32(drawn, tsc, tick))
    }

    /// Signs `data`.
    pub fn sign(&self, data: &[u8]) -> (sig: [u8; 64])
        ensures
            sig@ == ed25519_signature_of(self.signing_key@, data@),
    {
        ed25519_sign(&self.signing_key, data)
    }

    /// Checks a signature of `data` against this pair's public key.
    pub fn verify(&self, data: &[u8], sig: &[u8; 64]) -> (ok: bool)
        ensures
            ok == ed25519_accepts(self.verifying_key@, data@, sig@),
    {
        verify_signature(&self.verifying_key, data, sig)
    }
}

/// Checks an Ed25519 signature.
pub fn verify_signature(pubkey: &[u8; 32], data: &[u8], sig: &[u8; 64]) -> (ok: bool)
    ensures
        ok == ed25519_accepts(pubkey@, data@, sig@),
        (exists|seed: Seq<u8>| seed.len() == 32 && pubkey@ == ed25519_public_of(seed)
            && sig@ == ed25519_signature_of(seed, data@)) ==> ok,
{
    ed25519_verify(pubkey, data, sig)
}

/// Signs `data` with secret key `privkey`.
pub fn sign(privkey: &[u8; 32], data: &[u8]) -> (sig: [u8; 64])
    ensures
        sig@ == ed25519_signature_of(privkey@, data@),
{
    ed25519_sign(privkey, data)
}

/// A signature made with a pair's secret key checks against its public key.
pub proof fn lemma_sign_then_verify(kp: KeyPair, data: Seq<u8>, sig: Seq<u8>, ok: bool)
    requires
        kp.verifying_key@ == ed25519_public_of(kp.signing_key@),
        sig == ed25519_signature_of(kp.signing_key@, data),
        (exists|seed: Seq<u8>| seed.len() == 32 && kp.verifying_key@ == ed25519_public_of(seed)
            && sig == ed25519_signature_of(seed, data)) ==> ok,
    ensures
        ok,
{
    assert(kp.signing_key@.len() == 32);
}

/// The bytes a signed-block hash covers: parents, author, timestamp, kind,
/// path, payload and sequence number.
pub open spec fn block_digest_input(
    parents: Seq<Seq<u8>>,
    author: Seq<u8>,
    timestamp: u64,
    kind_byte: u8,
    path: Seq<u8>,
    payload: Seq<u8>,
    seq: u64,
) -> Seq<u8> {
    concat_all(parents) + author + le_bytes(timestamp, 8) + seq![kind_byte] + path + payload + le_bytes(seq, 8)
}

/// The SHA-256 hash of a block's fields.
pub fn dag_block_hash(
    parents: &[[u8; 32]],
    author: &[u8; 32],
    timestamp: u64,
    kind_byte: u8,
    path: &str,
    payload: &[u8],
    seq: u64,
) -> (h: [u8; 32])
    ensures
        h@ == sha256_of(block_digest_input(parents@.map_values(|p: [u8; 32]| p@), author@, timestamp, kind_byte,
            path.spec_bytes(), payload@, seq)),
{
    let ghost ps = parents@.map_values(|p: [u8; 32]| p@);
    let mut all: Vec<u8> = Vec::new();
    let mut i: usize = 0;
    while i < parents.len()
        invariant
            i <= parents@.len(),
            ps == parents@.map_values(|p: [u8; 32]| p@),
            all@ == concat_all(ps.subrange(0, i as int)),
        decreases parents@.len() - i,
    {
        push_all(&mut all, parents[i].as_slice());
        i = i + 1;
        assert(ps.subrange(0, i as int).drop_last() =~= ps.subrange(0, i - 1));
    }
    assert(ps.subrange(0, i as int) =~= ps);
    push_all(&mut all, author.as_slice());
    push_le(&mut all, timestamp, 8);
    all.push(kind_byte);
    push_all(&mut all, path.as_bytes());
    push_all(&mut all, payload);
    push_le(&mut all, seq, 8);
    assert(all@ =~= block_digest_input(ps, author@, timestamp, kind_byte, path.spec_bytes(), payload@, seq));
    sha256_digest(all.as_slice())
}

/// Signs a block hash.
pub fn dag_block_sign(privkey: &[u8; 32], hash: &[u8; 32]) -> (sig: [u8; 64])
    ensures
        sig@ == ed25519_signature_of(privkey@, hash@),
{
    sign(privkey, hash.as_slice())
}

/// Checks the signature of a block hash.
pub fn dag_block_verify(pubkey: &[u8; 32], hash: &[u8; 32], sig: &[u8; 64]) -> (ok: bool)
    ensures
        ok == ed25519_accepts(pubkey@, hash@, sig@),
{
    verify_signature(pubkey, hash.as_slice(), sig)
}

/// The domain tag of node ids, `socd-node-id-v1`.
pub open spec fn node_id_tag() -> Seq<u8> {
    seq![0x73u8, 0x6fu8, 0x63u8, 0x64u8, 0x2du8, 0x6eu8, 0x6fu8, 0x64u8, 0x65u8, 0x2du8, 0x69u8, 0x64u8, 0x2du8, 0x76u8, 0x31u8]
}

/// The domain tag of session keys, `socd-session-v1`.
pub open spec fn session_tag() -> Seq<u8> {
    seq![0x73u8, 0x6fu8, 0x63u8, 0x64u8, 0x2du8, 0x73u8, 0x65u8, 0x73u8, 0x73u8, 0x69u8, 0x6fu8, 0x6eu8, 0x2du8, 0x76u8, 0x31u8]
}

/// The node id of a public key: SHA-256 of the key and the node-id tag.
pub fn pubkey_to_node_id(pubkey: &[u8; 32]) -> (id: [u8; 32])
    ensures
        id@ == sha256_of(pubkey@ + node_id_tag()),
{
    let mut all: Vec<u8> = Vec::new();
    push_all(&mut all, pubkey.as_slice());
    let tag: [u8; 15] = [0x73, 0x6f, 0x63, 0x64, 0x2d, 0x6e, 0x6f, 0x64, 0x65, 0x2d, 0x69, 0x64, 0x2d, 0x76, 0x31];
    assert(tag@ =~= node_id_tag());
    push_all(&mut all, tag.as_slice());
    sha256_digest(all.as_slice())
}

/// The session key of two nodes: SHA-256 of the smaller key, the larger key
/// and the session tag.
pub open spec fn session_key_of(a: Seq<u8>, b: Seq<u8>) -> Seq<u8> {
    if lex_lt(a, b) { sha256_of(a + b + session_tag()) } else { sha256_of(b + a + session_tag()) }
}

/// The session key of two nodes.
pub fn session_key(a: &[u8; 32], b: &[u8; 32]) -> (k: [u8; 32])
    ensures
        k@ == session_key_of(a@, b@),
{
    let tag: [u8; 15] = [0x73, 0x6f, 0x63, 0x64, 0x2d, 0x73, 0x65, 0x73, 0x73, 0x69, 0x6f, 0x6e, 0x2d, 0x76, 0x31];
    assert(tag@ =~= session_tag());
    let mut all: Vec<u8> = Vec::new();
    if lex_order(a.as_slice(), b.as_slice()) < 0 {
        push_all(&mut all, a.as_slice());
        push_all(&mut all, b.as_slice());
    } else {
        push_all(&mut all, b.as_slice());
        push_all(&mut all, a.as_slice());
    }
    push_all(&mut all, tag.as_slice());
    sha256_digest(all.as_slice())
}

/// Both ends of a session derive the same key.
pub proof fn lemma_session_key_symmetric(a: Seq<u8>, b: Seq<u8>)
    ensures
        session_key_of(a, b) == session_key_of(b, a),
{
    lemma_lex_total(a, b);
}

/// The expected SHA-256 of `abc`.
pub open spec fn sha256_abc() -> Seq<u8> {
    seq![0xbau8, 0x78u8, 0x16u8, 0xbfu8, 0x8fu8, 0x01u8, 0xcfu8, 0xeau8,
        0x41u8, 0x41u8, 0x40u8, 0xdeu8, 0x5du8, 0xaeu8, 0x22u8, 0x23u8,
        0xb0u8, 0x03u8, 0x61u8, 0xa3u8, 0x96u8, 0x17u8, 0x7au8, 0x9cu8,
        0xb4u8, 0x10u8, 0xffu8, 0x61u8, 0xf2u8, 0x00u8, 0x15u8, 0xadu8]
}

/// The self test: the SHA-256 test vector of `abc`, then an Ed25519 round trip
/// with a pair made from `seed`, then an HMAC round trip.
pub fn self_test(seed: [u8; 32]) -> (ok: bool)
    ensures
        ok == (sha256_of(seq![0x61u8, 0x62u8, 0x63u8]) == sha256_abc()),
{
    let abc: [u8; 3] = [0x61, 0x62, 0x63];
    let expected: [u8; 32] = [
        0xba, 0x78, 0x16, 0xbf, 0x8f, 0x01, 0xcf, 0xea,
        0x41, 0x41, 0x40, 0xde, 0x5d, 0xae, 0x22, 0x23,
        0xb0, 0x03, 0x61, 0xa3, 0x96, 0x17, 0x7a, 0x9c,
        0xb4, 0x10, 0xff, 0x61, 0xf2, 0x00, 0x15, 0xad,
    ];
    assert(expected@ =~= sha256_abc());
    assert(abc@ =~= seq![0x61u8, 0x62u8, 0x63u8]);
    let h = sha256(abc.as_slice());
    if !crate::util::bytes_equal(h.as_slice(), expected.as_slice()) {
        return false;
    }
    let kp = KeyPair::from_seed(seed);
    let msg: [u8; 9] = [0x73, 0x6f, 0x63, 0x64, 0x2d, 0x74, 0x65, 0x73, 0x74];
    let sig = kp.sign(msg.as_slice());
    let okv = verify_signature(&kp.verifying_key, msg.as_slice(), &sig);
    proof {
        assert(kp.signing_key@.len() == 32);
    }
    if !okv {
        return false;
    }
    let key: [u8; 3] = [0x6b, 0x65, 0x79];
    let m2: [u8; 3] = [0x6d, 0x73, 0x67];
    let mac = hmac_sha256(key.as_slice(), m2.as_slice());
    if !hmac_verify(key.as_slice(), m2.as_slice(), &mac) {
        return false;
    }
    true
}

/// The label mixed into the entropy seed: `socd-entropy-v1`.
pub open spec fn entropy_tag() -> Seq<u8> {
    seq![0x73u8, 0x6f, 0x63, 0x64, 0x2d, 0x65, 0x6e, 0x74, 0x72, 0x6f, 0x70, 0x79, 0x2d, 0x76, 0x31]
}

/// The first seed: SHA-256 of the time-stamp counter, the tick (both little
/// endian) and the label.
pub open spec fn entropy_seed(tsc: u64, tick: u64) -> Seq<u8> {
    sha256_of(le_bytes(tsc, 8) + le_bytes(tick, 8) + entropy_tag())
}

/// `n` bytes from `seed` on, block counter `ctr`: each block is SHA-256 of the
/// seed and the counter (little endian), of which up to 32 bytes are used; the
/// next seed is SHA-256 of the seed and the block.
pub open spec fn entropy_stream(seed: Seq<u8>, ctr: u64, n: nat) -> Seq<u8>
    decreases n,
{
    if n == 0 {
        Seq::empty()
    } else {
        let block = sha256_of(seed + le_bytes(ctr, 8));
        let take: nat = if n < 32 { n } else { 32 };
        block.take(take as int) + entropy_stream(sha256_of(seed + block), (ctr + 1) as u64, (n - take) as nat)
    }
}

/// Fills `buf` from a seed made of the time-stamp counter and the tick: each
/// 32-byte block is SHA-256 of the seed and a counter, and the seed moves on to
/// SHA-256 of itself and the block.
pub fn fallback_entropy(buf: &mut Vec<u8>, tsc: u64, tick: u64)
    ensures
        final(buf)@.len() == old(buf)@.len(),
        final(buf)@ == entropy_stream(entropy_seed(tsc, tick), 0, old(buf)@.len()),
{
    let tag: [u8; 15] = [0x73, 0x6f, 0x63, 0x64, 0x2d, 0x65, 0x6e, 0x74, 0x72, 0x6f, 0x70, 0x79, 0x2d, 0x76, 0x31];
    let mut init: Vec<u8> = Vec::new();
    push_le(&mut init, tsc, 8);
    push_le(&mut init, tick, 8);
    push_all(&mut init, tag.as_slice());
    let mut seed = sha256_digest(init.as_slice());
    assert(init@ =~= le_bytes(tsc, 8) + le_bytes(tick, 8) + entropy_tag());
    let mut pos: usize = 0;
    let mut ctr: u64 = 0;
    let n = buf.len();
    let ghost target = entropy_stream(entropy_seed(tsc, tick), 0, n as nat);
    assert(buf@.subrange(0, 0) + entropy_stream(seed@, ctr, n as nat) =~= target);
    while pos < n
        invariant
            pos <= n,
            buf@.len() == n,
            ctr as int <= pos,
            seed@.len() == 32,
            target == entropy_stream(entropy_seed(tsc, tick), 0, n as nat),
            buf@.subrange(0, pos as int) + entropy_stream(seed@, ctr, (n - pos) as nat) == target,
        decreases n - pos,
    {
        let mut input: Vec<u8> = Vec::new();
        push_all(&mut input, seed.as_slice());
        push_le(&mut input, ctr, 8);
        let block = sha256_digest(input.as_slice());
        let take: usize = if n - pos < 32 { n - pos } else { 32 };
        let ghost before = buf@;
        let mut k: usize = 0;
        while k < take
            invariant
                k <= take,
                take <= 32,
                pos + take <= n,
                buf@.len() == n,
                block@.len() == 32,
                buf@.subrange(0, pos as int) == before.subrange(0, pos as int),
                forall|j: int| 0 <= j < k ==> buf@[pos + j] == block@[j],
            decreases take - k,
        {
            buf.set(pos + k, block[k]);
            k = k + 1;
        }
        let mut next: Vec<u8> = Vec::new();
        push_all(&mut next, seed.as_slice());
        push_all(&mut next, block.as_slice());
        let new_seed = sha256_digest(next.as_slice());
        proof {
            let rest = (n - pos) as nat;
            assert(input@ =~= seed@ + le_bytes(ctr, 8));
            assert(next@ =~= seed@ + block@);
            assert(entropy_stream(seed@, ctr, rest) == block@.take(take as int)
                + entropy_stream(new_seed@, (ctr + 1) as u64, (rest - take) as nat));
            assert(buf@.subrange(0, (pos + take) as int) =~= before.subrange(0, pos as int) + block@.take(take as int));
        }
        pos = pos + take;
        ctr = ctr + 1;
        seed = new_seed;
    }
    assert(buf@.subrange(0, n as int) =~= buf@);
    assert(entropy_stream(seed@, ctr, 0) =~= Seq::<u8>::empty());
}

/// Fills `buf` with random bytes: what the hardware generator drew (`drawn`),
/// when it drew a full buffer; otherwise the fallback stream of the time-stamp
/// counter `tsc` and the tick.
pub fn random_bytes(buf: &mut Vec<u8>, drawn: Option<&[u8]>, tsc: u64, tick: u64)
    ensures
        final(buf)@.len() == old(buf)@.len(),
        match drawn {
            Some(d) => if d@.len() == old(buf)@.len() {
                final(buf)@ == d@
            } else {
                final(buf)@ == entropy_stream(entropy_seed(tsc, tick), 0, old(buf)@.len())
            },
            None => final(buf)@ == entropy_stream(entropy_seed(tsc, tick), 0, old(buf)@.len()),
        },
{
    match drawn {
        Some(d) => {
            if d.len() == buf.len() {
                let mut k: usize = 0;
                while k < d.len()
                    invariant
                        k <= d@.len(),
                        buf@.len() == d@.len(),
                        forall|j: int| 0 <= j < k ==> buf@[j] == d@[j],
                    decreases d@.len() - k,
                {
                    buf.set(k, d[k]);
                    k = k + 1;
                }
                assert(buf@ =~= d@);
                return;
            }
            fallback_entropy(buf, tsc, tick);
        },
        None => fallback_entropy(buf, tsc, tick),
    }
}

/// 32 random bytes, as `random_bytes` fills them.
pub fn random_32(drawn: Option<&[u8]>, tsc: u64, tick: u64) -> (r: [u8; 32])
    ensures
        match drawn {
            Some(d) => if d@.len() == 32 {
                r@ == d@
            } else {
                r@ == entropy_stream(entropy_seed(tsc, tick), 0, 32)
            },
            None => r@ == entropy_stream(entropy_seed(tsc, tick), 0, 32),
        },
{
    let mut v: Vec<u8> = Vec::new();
    let mut i: usize = 0;
    while i < 32
        invariant
            i <= 32,
            v@.len() == i,
        decreases 32 - i,
    {
        v.push(0);
        i = i + 1;
    }
    random_bytes(&mut v, drawn, tsc, tick);
    let r: [u8; 32] = [
        v[0], v[1], v[2], v[3], v[4], v[5], v[6], v[7], v[8], v[9], v[10], v[11], v[12], v[13], v[14], v[15],
        v[16], v[17], v[18], v[19], v[20], v[21], v[22], v[23], v[24], v[25], v[26], v[27], v[28], v[29], v[30], v[31],
    ];
    assert(r@ =~= v@);
    r
}

} // verus!
