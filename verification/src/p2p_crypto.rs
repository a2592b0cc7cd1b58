//! End-to-end encryption between nodes: a shared secret from the two keys, a
//! session key per peer, a keyed keystream that the data is xored with, and a
//! tag over the result.
use vstd::prelude::*;
use vstd::string::StringSliceAdditionalSpecFns;
use crate::crypto::{hmac_sha256, hmac_sha256_of, sha256_multi, sha256_of, concat_all};
use crate::keyed::IdTable;
use crate::node::{LocalNode, get_node_id};
use crate::peer::{PeerTable, PeerInfo, is_active};
use crate::util::{le_bytes, push_le, push_all, array64, lemma_le_bytes_len};

verus! {

/// Bytes added to each message: header, sender id, nonce and tag.
pub const CRYPTO_OVERHEAD: usize = 76;

/// The version of the packet format.
pub const CRYPTO_VERSION: u8 = 1;

/// A 32-byte session key.
#[derive(Clone, Copy, Debug)]
pub struct SessionKey(pub [u8; 32]);

/// A 12-byte nonce.
#[derive(Clone, Copy, Debug)]
pub struct Nonce(pub [u8; 12]);

/// An encrypted message.
#[derive(Debug)]
pub struct EncryptedPacket {
    pub version: u8,
    pub sender_id: [u8; 32],
    pub nonce: Nonce,
    pub ciphertext: Vec<u8>,
    pub auth_tag: [u8; 16],
}

/// What decryption gives.
#[derive(Debug)]
pub enum DecryptResult {
    Success(Vec<u8>),
    AuthFailed,
    InvalidVersion,
    UnknownSender,
}

/// The ASCII bytes of a label.
pub open spec fn label(t: Seq<char>) -> Seq<u8> {
    vstd::utf8::encode_utf8(t)
}

/// The nonce of message `counter` at `tick`: the low four bytes of the counter,
/// then the eight bytes of the tick, little endian.
pub open spec fn nonce_of(counter: u64, tick: u64) -> Seq<u8> {
    le_bytes(counter, 4) + le_bytes(tick, 8)
}

/// The session key from a shared secret and a nonce.
pub open spec fn session_key_of(shared: Seq<u8>, nonce: Seq<u8>) -> Seq<u8> {
    hmac_sha256_of(shared, nonce + label("socd-session-key-v1"@))
}

/// The shared secret of our private key and a peer's public key: SHA-256 of
/// the first half of the private key, the public key and a label.
pub open spec fn shared_secret_of(private_key: Seq<u8>, public_key: Seq<u8>) -> Seq<u8> {
    sha256_of(private_key.take(32) + public_key + label("socd-shared-secret-v1"@))
}

/// Keystream block `b`.
pub open spec fn ks_block(key: Seq<u8>, nonce: Seq<u8>, b: u64) -> Seq<u8> {
    hmac_sha256_of(key, nonce + le_bytes(b, 8) + label("socd-enc-v1"@))
}

/// The first `n` keystream blocks.
pub open spec fn keystream(key: Seq<u8>, nonce: Seq<u8>, n: nat) -> Seq<u8>
    decreases n,
{
    if n == 0 { Seq::empty() } else { keystream(key, nonce, (n - 1) as nat) + ks_block(key, nonce, (n - 1) as u64) }
}

/// The blocks needed for `len` bytes.
pub open spec fn blocks_for(len: nat) -> nat {
    (len + 31) / 32
}

/// `data` xored with the keystream.
pub open spec fn xored(key: Seq<u8>, nonce: Seq<u8>, data: Seq<u8>) -> Seq<u8> {
    let ks = keystream(key, nonce, blocks_for(data.len()));
    Seq::new(data.len(), |i: int| data[i] ^ ks[i])
}

/// The tag of `data`: the first 16 bytes of its HMAC under the key.
pub open spec fn tag_of(key: Seq<u8>, data: Seq<u8>) -> Seq<u8> {
    hmac_sha256_of(key, data).take(16)
}

fn put_label(v: &mut Vec<u8>, t: &str)
    ensures
        final(v)@ == old(v)@ + label(t@),
{
    push_all(v, t.as_bytes());
}

/// The session key from a shared secret and a nonce.
fn derive_session_key(shared_secret: &[u8; 32], nonce: &[u8; 12]) -> (k: SessionKey)
    ensures
        k.0@ == session_key_of(shared_secret@, nonce@),
{
    let mut data: Vec<u8> = Vec::new();
    push_all(&mut data, nonce.as_slice());
    put_label(&mut data, "socd-session-key-v1");
    SessionKey(hmac_sha256(shared_secret.as_slice(), data.as_slice()))
}

/// The shared secret of our private key and a peer's public key.
fn simulate_x25519(our_private: &[u8; 64], their_public: &[u8; 32]) -> (s: [u8; 32])
    ensures
        s@ == shared_secret_of(our_private@, their_public@),
{
    let mut half: Vec<u8> = Vec::new();
    let mut i: usize = 0;
    while i < 32
        invariant
            i <= 32,
            our_private@.len() == 64,
            half@ == our_private@.take(i as int),
        decreases 32 - i,
    {
        half.push(our_private[i]);
        i = i + 1;
        assert(half@ =~= our_private@.take(i as int));
    }
    let lab = "socd-shared-secret-v1".as_bytes();
    let fields: Vec<&[u8]> = vec![half.as_slice(), their_public.as_slice(), lab];
    let s = sha256_multi(fields.as_slice());
    proof {
        let fs = fields@.map_values(|f: &[u8]| f@);
        assert(fs =~= seq![half@, their_public@, label("socd-shared-secret-v1"@)]);
        assert(fs.drop_last().drop_last().drop_last() =~= Seq::<Seq<u8>>::empty());
        assert(fs.drop_last().drop_last() =~= seq![half@]);
        assert(fs.drop_last() =~= seq![half@, their_public@]);
        assert(concat_all(fs.drop_last().drop_last().drop_last()) =~= Seq::<u8>::empty());
        assert(concat_all(fs.drop_last().drop_last()) =~= half@);
        assert(concat_all(fs.drop_last()) =~= half@ + their_public@);
        assert(concat_all(fs) =~= our_private@.take(32) + their_public@ + label("socd-shared-secret-v1"@));
    }
    s
}

/// The nonce of message `counter` at `tick`.
fn generate_nonce(counter: u64, tick: u64) -> (n: Nonce)
    ensures
        n.0@ == nonce_of(counter, tick),
{
    let mut v: Vec<u8> = Vec::new();
    push_le(&mut v, counter, 4);
    push_le(&mut v, tick, 8);
    proof {
        lemma_le_bytes_len(counter, 4);
        lemma_le_bytes_len(tick, 8);
    }
    let n: [u8; 12] = [v[0], v[1], v[2], v[3], v[4], v[5], v[6], v[7], v[8], v[9], v[10], v[11]];
    assert(n@ =~= v@);
    Nonce(n)
}

/// `data` xored with the keystream of `key` and `nonce`.
fn apply_keystream(key: &SessionKey, nonce: &Nonce, plaintext: &[u8]) -> (c: Vec<u8>)
    ensures
        c@ == xored(key.0@, nonce.0@, plaintext@),
{
    let mut stream: Vec<u8> = Vec::new();
    let mut block: u64 = 0;
    while stream.len() < plaintext.len()
        invariant
            stream@ == keystream(key.0@, nonce.0@, block as nat),
            stream@.len() == 32 * block,
            block <= blocks_for(plaintext@.len()),
            stream@.len() < plaintext@.len() + 32,
        decreases blocks_for(plaintext@.len()) - block,
    {
        let mut data: Vec<u8> = Vec::new();
        push_all(&mut data, nonce.0.as_slice());
        push_le(&mut data, block, 8);
        put_label(&mut data, "socd-enc-v1");
        let ks = hmac_sha256(key.0.as_slice(), data.as_slice());
        push_all(&mut stream, ks.as_slice());
        block = block + 1;
    }
    assert(block == blocks_for(plaintext@.len()));
    let mut ciphertext: Vec<u8> = Vec::new();
    let mut i: usize = 0;
    while i < plaintext.len()
        invariant
            i <= plaintext@.len(),
            stream@.len() >= plaintext@.len(),
            stream@ == keystream(key.0@, nonce.0@, blocks_for(plaintext@.len())),
            ciphertext@ == xored(key.0@, nonce.0@, plaintext@).take(i as int),
        decreases plaintext@.len() - i,
    {
        ciphertext.push(plaintext[i] ^ stream[i]);
        i = i + 1;
        assert(ciphertext@ =~= xored(key.0@, nonce.0@, plaintext@).take(i as int));
    }
    assert(ciphertext@ =~= xored(key.0@, nonce.0@, plaintext@));
    ciphertext
}

/// The tag of `data` under `key`.
fn auth_tag(key: &SessionKey, data: &[u8]) -> (t: [u8; 16])
    ensures
        t@ == tag_of(key.0@, data@),
{
    let full = hmac_sha256(key.0.as_slice(), data);
    let tag: [u8; 16] = [
        full[0], full[1], full[2], full[3], full[4], full[5], full[6], full[7],
        full[8], full[9], full[10], full[11], full[12], full[13], full[14], full[15],
    ];
    assert(tag@ =~= tag_of(key.0@, data@));
    tag
}

/// Xors `plaintext` with the keystream and tags the result.
fn encrypt_aes_gcm(key: &SessionKey, nonce: &Nonce, plaintext: &[u8]) -> (r: (Vec<u8>, [u8; 16]))
    ensures
        r.0@ == xored(key.0@, nonce.0@, plaintext@),
        r.1@ == tag_of(key.0@, r.0@),
{
    let ciphertext = apply_keystream(key, nonce, plaintext);
    let tag = auth_tag(key, ciphertext.as_slice());
    (ciphertext, tag)
}

/// Checks the tag of `ciphertext` against `expected_tag`, every byte
/// compared, before anything is decrypted; on a match, runs the ciphertext
/// through the keystream again.
fn decrypt_aes_gcm(key: &SessionKey, nonce: &Nonce, ciphertext: &[u8], expected_tag: &[u8; 16]) -> (r: Option<Vec<u8>>)
    ensures
        r is Some <==> tag_of(key.0@, ciphertext@) == expected_tag@,
        r is Some ==> r->0@ == xored(key.0@, nonce.0@, ciphertext@),
{
    let computed = auth_tag(key, ciphertext);
    let mut diff: u8 = 0;
    let mut same = true;
    let mut i: usize = 0;
    while i < 16
        invariant
            i <= 16,
            computed@.len() == 16 && expected_tag@.len() == 16,
            same == (computed@.take(i as int) =~= expected_tag@.take(i as int)),
        decreases 16 - i,
    {
        let x = computed[i] ^ expected_tag[i];
        diff = diff | x;
        let eq = computed[i] == expected_tag[i];
        proof {
            assert(computed@.take(i + 1) =~= computed@.take(i as int).push(computed@[i as int]));
            assert(expected_tag@.take(i + 1) =~= expected_tag@.take(i as int).push(expected_tag@[i as int]));
            if computed@.take(i as int) != expected_tag@.take(i as int) && computed@.take(i + 1) == expected_tag@.take(i + 1) {
                assert(computed@.take(i + 1).take(i as int) =~= computed@.take(i as int));
                assert(expected_tag@.take(i + 1).take(i as int) =~= expected_tag@.take(i as int));
            }
            if !eq && computed@.take(i + 1) == expected_tag@.take(i + 1) {
                assert(computed@.take(i + 1)[i as int] == expected_tag@.take(i + 1)[i as int]);
            }
        }
        same = same && eq;
        i = i + 1;
    }
    assert(computed@.take(16) =~= computed@);
    assert(expected_tag@.take(16) =~= expected_tag@);
    if same {
        Some(apply_keystream(key, nonce, ciphertext))
    } else {
        None
    }
}

/// A session with one peer.
#[derive(Clone, Copy, Debug)]
pub struct CryptoSession {
    pub peer_id: [u8; 32],
    pub session_key: SessionKey,
    pub message_counter: u64,
    pub established_at_tick: u64,
    pub messages_sent: u64,
    pub messages_received: u64,
    pub bytes_encrypted: u64,
}

impl CryptoSession {
    /// Encrypts a message with the next nonce; the sender is this node (zeros
    /// before it exists).
    pub fn encrypt(&mut self, plaintext: &[u8], tick: u64, node: &Option<LocalNode>) -> (p: EncryptedPacket)
        requires
            old(self).message_counter < u64::MAX,
            old(self).messages_sent < u64::MAX,
            old(self).bytes_encrypted + plaintext@.len() <= u64::MAX,
        ensures
            final(self).message_counter == old(self).message_counter + 1,
            final(self).messages_sent == old(self).messages_sent + 1,
            final(self).bytes_encrypted == old(self).bytes_encrypted + plaintext@.len(),
            final(self).peer_id == old(self).peer_id && final(self).session_key == old(self).session_key,
            final(self).messages_received == old(self).messages_received,
            final(self).established_at_tick == old(self).established_at_tick,
            p.version == CRYPTO_VERSION,
            p.nonce.0@ == nonce_of(final(self).message_counter, tick),
            p.ciphertext@ == xored(old(self).session_key.0@, p.nonce.0@, plaintext@),
            p.auth_tag@ == tag_of(old(self).session_key.0@, p.ciphertext@),
            match node {
                Some(n) => p.sender_id == n.node_id,
                None => p.sender_id@ == Seq::new(32, |i: int| 0u8),
            },
    {
        self.message_counter = self.message_counter + 1;
        let nonce = generate_nonce(self.message_counter, tick);
        let (ciphertext, auth_tag) = encrypt_aes_gcm(&self.session_key, &nonce, plaintext);
        self.messages_sent = self.messages_sent + 1;
        self.bytes_encrypted = self.bytes_encrypted + plaintext.len() as u64;
        let sender_id = get_node_id(node);
        EncryptedPacket { version: CRYPTO_VERSION, sender_id, nonce, ciphertext, auth_tag }
    }

    /// Decrypts a packet: another version is refused; the tag of the
    /// ciphertext is checked before decrypting, and a packet whose tag matches
    /// is decrypted and counted.
    pub fn decrypt(&mut self, packet: &EncryptedPacket) -> (r: DecryptResult)
        requires
            old(self).messages_received < u64::MAX,
        ensures
            packet.version != CRYPTO_VERSION ==> r is InvalidVersion && *final(self) == *old(self),
            packet.version == CRYPTO_VERSION ==> {
                let d = xored(old(self).session_key.0@, packet.nonce.0@, packet.ciphertext@);
                if tag_of(old(self).session_key.0@, packet.ciphertext@) == packet.auth_tag@ {
                    r matches DecryptResult::Success(m) && m@ == d
                        && *final(self) == (CryptoSession { messages_received: (old(self).messages_received + 1) as u64, ..*old(self) })
                } else {
                    r is AuthFailed && *final(self) == *old(self)
                }
            },
    {
        if packet.version != CRYPTO_VERSION {
            return DecryptResult::InvalidVersion;
        }
        match decrypt_aes_gcm(&self.session_key, &packet.nonce, packet.ciphertext.as_slice(), &packet.auth_tag) {
            Some(plaintext) => {
                self.messages_received = self.messages_received + 1;
                DecryptResult::Success(plaintext)
            },
            None => DecryptResult::AuthFailed,
        }
    }
}

/// Totals of the session manager.
#[derive(Clone, Copy, Debug)]
pub struct CryptoStats {
    pub active_sessions: usize,
    pub total_bytes_encrypted: u64,
    pub total_messages: u64,
}

/// The sessions with peers, by peer id.
pub struct CryptoManager {
    pub sessions: IdTable<CryptoSession>,
    pub our_private_key: [u8; 64],
    pub total_bytes_encrypted: u64,
    pub total_messages: u64,
}

/// The private key derived from a node id: byte `i` is the id's byte `i mod 32`
/// plus `i`, times 0x37, both wrapping.
pub open spec fn derived_private_key(nid: Seq<u8>) -> Seq<u8> {
    Seq::new(64, |i: int| (((nid[i % 32] + i) % 256) * 0x37 % 256) as u8)
}

/// The session made with peer `peer_id` of public key `pk` at `tick`.
pub open spec fn is_new_session(s: CryptoSession, private_key: Seq<u8>, peer_id: [u8; 32], pk: [u8; 32], tick: u64) -> bool {
    &&& s.peer_id == peer_id
    &&& s.session_key.0@ == session_key_of(shared_secret_of(private_key, pk@), nonce_of(tick, peer_id@[0] as u64))
    &&& s.message_counter == 0 && s.established_at_tick == tick
    &&& s.messages_sent == 0 && s.messages_received == 0 && s.bytes_encrypted == 0
}

impl CryptoManager {
    /// No sessions, a zero key, zero totals.
    pub fn new() -> (m: CryptoManager)
        ensures
            m.sessions.wf(),
            m.sessions@.len() == 0,
            m.our_private_key@ == Seq::new(64, |i: int| 0u8),
            m.total_bytes_encrypted == 0 && m.total_messages == 0,
    {
        let k = [0u8; 64];
        assert(k@ =~= Seq::new(64, |i: int| 0u8));
        CryptoManager { sessions: IdTable::new(), our_private_key: k, total_bytes_encrypted: 0, total_messages: 0 }
    }

    /// Derives the private key from this node's id (zeros before it exists).
    pub fn init_keys(&mut self, node: &Option<LocalNode>)
        ensures
            final(self).our_private_key@ == derived_private_key(get_node_id_spec(*node)),
            final(self).sessions == old(self).sessions,
            final(self).total_bytes_encrypted == old(self).total_bytes_encrypted,
            final(self).total_messages == old(self).total_messages,
    {
        let nid = get_node_id(node);
        let mut v: Vec<u8> = Vec::new();
        let mut i: usize = 0;
        while i < 64
            invariant
                i <= 64,
                nid@ == get_node_id_spec(*node),
                nid@.len() == 32,
                v@ == derived_private_key(nid@).take(i as int),
            decreases 64 - i,
        {
            let b = nid[i % 32];
            let x: u8 = ((((b as u32 + i as u32) % 256) * 0x37) % 256) as u8;
            v.push(x);
            i = i + 1;
            assert(v@ =~= derived_private_key(nid@).take(i as int));
        }
        assert(v@ =~= derived_private_key(nid@));
        self.our_private_key = array64(&v);
    }

    /// Makes a session with `peer_id` unless there is one; always succeeds.
    pub fn establish_session(&mut self, peer_id: [u8; 32], peer_public_key: [u8; 32], tick: u64) -> (ok: bool)
        requires
            old(self).sessions.wf(),
        ensures
            ok,
            final(self).sessions.wf(),
            old(self).sessions.map().contains_key(peer_id@) ==> final(self).sessions == old(self).sessions,
            !old(self).sessions.map().contains_key(peer_id@) ==> {
                &&& final(self).sessions.map().dom() == old(self).sessions.map().dom().insert(peer_id@)
                &&& forall|k: Seq<u8>| k != peer_id@ ==> #[trigger] final(self).sessions.map().get(k) == old(self).sessions.map().get(k)
                &&& is_new_session(final(self).sessions.map()[peer_id@], old(self).our_private_key@, peer_id, peer_public_key, tick)
            },
            final(self).our_private_key == old(self).our_private_key,
            final(self).total_bytes_encrypted == old(self).total_bytes_encrypted,
            final(self).total_messages == old(self).total_messages,
    {
        if self.sessions.contains(&peer_id) {
            return true;
        }
        let shared_secret = simulate_x25519(&self.our_private_key, &peer_public_key);
        let nonce = generate_nonce(tick, peer_id[0] as u64);
        let session_key = derive_session_key(&shared_secret, &nonce.0);
        let s = CryptoSession {
            peer_id,
            session_key,
            message_counter: 0,
            established_at_tick: tick,
            messages_sent: 0,
            messages_received: 0,
            bytes_encrypted: 0,
        };
        let ghost m0 = self.sessions.map();
        self.sessions.upsert(peer_id, s);
        proof {
            assert(self.sessions.map().dom() =~= m0.dom().insert(peer_id@));
        }
        true
    }

    /// Encrypts `data` for `peer_id`, making the session first if needed.
    pub fn encrypt_for(&mut self, peer_id: [u8; 32], peer_pk: [u8; 32], data: &[u8], tick: u64, node: &Option<LocalNode>)
        -> (r: Option<EncryptedPacket>)
        requires
            old(self).sessions.wf(),
            old(self).total_bytes_encrypted + data@.len() <= u64::MAX,
            old(self).total_messages < u64::MAX,
            forall|k: Seq<u8>| #[trigger] old(self).sessions.map().contains_key(k) ==> {
                let s = old(self).sessions.map()[k];
                s.message_counter < u64::MAX && s.messages_sent < u64::MAX && s.bytes_encrypted + data@.len() <= u64::MAX
            },
        ensures
            r is Some,
            final(self).sessions.wf(),
            final(self).total_bytes_encrypted == old(self).total_bytes_encrypted + data@.len(),
            final(self).total_messages == old(self).total_messages + 1,
            final(self).sessions.map().dom() == old(self).sessions.map().dom().insert(peer_id@),
            ({
                let s0 = final(self).sessions.map()[peer_id@];
                let p = r->0;
                &&& p.version == CRYPTO_VERSION
                &&& p.nonce.0@ == nonce_of(s0.message_counter, tick)
                &&& p.ciphertext@ == xored(s0.session_key.0@, p.nonce.0@, data@)
                &&& p.auth_tag@ == tag_of(s0.session_key.0@, p.ciphertext@)
                &&& old(self).sessions.map().contains_key(peer_id@) ==>
                    s0.session_key == old(self).sessions.map()[peer_id@].session_key
                        && s0.message_counter == old(self).sessions.map()[peer_id@].message_counter + 1
                &&& !old(self).sessions.map().contains_key(peer_id@) ==>
                    s0.session_key.0@ == session_key_of(shared_secret_of(old(self).our_private_key@, peer_pk@), nonce_of(tick, peer_id@[0] as u64))
                        && s0.message_counter == 1
            }),
    {
        let ghost had = self.sessions.map().contains_key(peer_id@);
        self.establish_session(peer_id, peer_pk, tick);
        let mut s = match self.sessions.find(&peer_id) {
            Some(x) => *x,
            None => {
                assert(false);
                return None;
            },
        };
        let pkt = s.encrypt(data, tick, node);
        self.sessions.upsert(peer_id, s);
        self.total_bytes_encrypted = self.total_bytes_encrypted + data.len() as u64;
        self.total_messages = self.total_messages + 1;
        Some(pkt)
    }

    /// The manager's totals.
    pub fn stats(&self) -> (st: CryptoStats)
        ensures
            st.active_sessions == self.sessions@.len(),
            st.total_bytes_encrypted == self.total_bytes_encrypted,
            st.total_messages == self.total_messages,
    {
        CryptoStats {
            active_sessions: self.sessions.len(),
            total_bytes_encrypted: self.total_bytes_encrypted,
            total_messages: self.total_messages,
        }
    }
}

/// This node's id, or zeros before the node exists.
pub open spec fn get_node_id_spec(node: Option<LocalNode>) -> Seq<u8> {
    match node {
        Some(n) => n.node_id@,
        None => Seq::new(32, |i: int| 0u8),
    }
}

/// The active peers of a table, in node-id order.
pub open spec fn active_of(t: PeerTable) -> Seq<PeerInfo> {
    t@.filter(|p: PeerInfo| is_active(p.state))
}

/// Derives this node's key and makes a session, at tick 0, with every active peer.
pub fn init(mgr: &mut CryptoManager, node: &Option<LocalNode>, peers: &PeerTable)
    requires
        old(mgr).sessions.wf(),
    ensures
        final(mgr).sessions.wf(),
        final(mgr).our_private_key@ == derived_private_key(get_node_id_spec(*node)),
        forall|i: int| 0 <= i < active_of(*peers).len() ==>
            #[trigger] final(mgr).sessions.map().contains_key(active_of(*peers)[i].node_id@),
        forall|k: Seq<u8>| #[trigger] old(mgr).sessions.map().contains_key(k) ==> final(mgr).sessions.map().get(k) == old(mgr).sessions.map().get(k),
{
    mgr.init_keys(node);
    let active = peers.active_peers();
    let ghost act = active@.map_values(|r: &PeerInfo| *r);
    assert(act == active_of(*peers));
    let ghost m0 = mgr.sessions.map();
    let mut i: usize = 0;
    while i < active.len()
        invariant
            i <= active@.len(),
            act == active@.map_values(|r: &PeerInfo| *r),
            mgr.sessions.wf(),
            mgr.our_private_key@ == derived_private_key(get_node_id_spec(*node)),
            forall|j: int| 0 <= j < i ==> #[trigger] mgr.sessions.map().contains_key(act[j].node_id@),
            forall|k: Seq<u8>| #[trigger] m0.contains_key(k) ==> mgr.sessions.map().get(k) == m0.get(k),
        decreases active@.len() - i,
    {
        let p = active[i];
        mgr.establish_session(p.node_id, p.public_key, 0);
        i = i + 1;
    }
}

/// The manager's totals.
pub fn get_stats(mgr: &CryptoManager) -> (st: CryptoStats)
    ensures
        st.active_sessions == mgr.sessions@.len(),
        st.total_bytes_encrypted == mgr.total_bytes_encrypted,
        st.total_messages == mgr.total_messages,
{
    mgr.stats()
}

/// Encrypts `data` for a peer; see `CryptoManager::encrypt_for`.
pub fn encrypt_for_peer(mgr: &mut CryptoManager, peer_id: [u8; 32], peer_pk: [u8; 32], data: &[u8], tick: u64,
    node: &Option<LocalNode>) -> (r: Option<EncryptedPacket>)
    requires
        old(mgr).sessions.wf(),
        old(mgr).total_bytes_encrypted + data@.len() <= u64::MAX,
        old(mgr).total_messages < u64::MAX,
        forall|k: Seq<u8>| #[trigger] old(mgr).sessions.map().contains_key(k) ==> {
            let s = old(mgr).sessions.map()[k];
            s.message_counter < u64::MAX && s.messages_sent < u64::MAX && s.bytes_encrypted + data@.len() <= u64::MAX
        },
    ensures
        r is Some,
        final(mgr).sessions.wf(),
        final(mgr).total_messages == old(mgr).total_messages + 1,
        final(mgr).total_bytes_encrypted == old(mgr).total_bytes_encrypted + data@.len(),
        ({
            let s0 = final(mgr).sessions.map()[peer_id@];
            &&& r->0.ciphertext@ == xored(s0.session_key.0@, r->0.nonce.0@, data@)
            &&& r->0.auth_tag@ == tag_of(s0.session_key.0@, r->0.ciphertext@)
            &&& r->0.nonce.0@ == nonce_of(s0.message_counter, tick)
        }),
{
    mgr.encrypt_for(peer_id, peer_pk, data, tick, node)
}

/// Running data through the keystream twice, with the same key and nonce,
/// gives it back; so a packet that decryption accepts decrypts to the message
/// that was encrypted.
pub proof fn lemma_xored_twice(key: Seq<u8>, nonce: Seq<u8>, m: Seq<u8>)
    ensures
        xored(key, nonce, xored(key, nonce, m)) == m,
{
    let c = xored(key, nonce, m);
    let ks = keystream(key, nonce, blocks_for(m.len()));
    assert forall|i: int| 0 <= i < m.len() implies #[trigger] xored(key, nonce, c)[i] == m[i] by {
        let a = m[i];
        let b = ks[i];
        assert((a ^ b) ^ b == a) by (bit_vector);
    }
    assert(xored(key, nonce, c) =~= m);
}

/// A packet as `encrypt` makes it, under the key of the session that decrypts
/// it, passes the tag check and decrypts to the message that was encrypted.
pub proof fn lemma_decrypt_inverts_encrypt(key: Seq<u8>, nonce: Seq<u8>, m: Seq<u8>, ciphertext: Seq<u8>, tag: Seq<u8>)
    requires
        ciphertext == xored(key, nonce, m),
        tag == tag_of(key, ciphertext),
    ensures
        tag_of(key, ciphertext) == tag,
        xored(key, nonce, ciphertext) == m,
{
    lemma_xored_twice(key, nonce, m);
}

} // verus!
