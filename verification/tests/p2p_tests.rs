use socd::crypto::{sha256, hmac_sha256, hmac_verify, KeyPair, session_key, hash_to_hex};
use socd::dag::{Dag, SyncEngine, read};
use socd::discovery::{MdnsPacket, MdnsHeader, DnsRecordType, MdnsQuestion, DnsRecord};
use socd::dag_sig::DagSignature;
use socd::dag::{DagBlock, BlockKind};
use socd::crypto::{random_bytes, random_32, fallback_entropy};

#[test]
fn sha256_known_vector() {
    let h = sha256(b"abc");
    assert_eq!(hash_to_hex(&h), "ba7816bf8f01cfea414140de5dae2223b00361a396177a9cb410ff61f20015ad");
}

#[test]
fn hmac_known_vector_and_verify() {
    // RFC 4231, test case 2.
    let t = hmac_sha256(b"Jefe", b"what do ya want for nothing?");
    assert_eq!(hash_to_hex(&t), "5bdcc146bf60754e6a042426089575c75a003f089d2739839dec58b964ec3843");
    assert!(hmac_verify(b"Jefe", b"what do ya want for nothing?", &t));
    assert!(!hmac_verify(b"Jeff", b"what do ya want for nothing?", &t));
}

#[test]
fn signature_verifies_and_detects_changes() {
    let kp = KeyPair::from_seed([3u8; 32]);
    let sig = kp.sign(b"block");
    assert!(kp.verify(b"block", &sig));
    assert!(!kp.verify(b"blocc", &sig));
    let mut bad = sig;
    bad[0] ^= 1;
    assert!(!kp.verify(b"block", &bad));
}

#[test]
fn session_key_is_symmetric() {
    let a = [1u8; 32];
    let b = [2u8; 32];
    assert_eq!(session_key(&a, &b), session_key(&b, &a));
    assert_ne!(session_key(&a, &b), session_key(&a, &a));
}

#[test]
fn dag_read_after_write() {
    let mut e = SyncEngine::new();
    let h = socd::dag::write(&mut e, "/docs/a.txt", b"v1".to_vec(), 10);
    assert_eq!(read(&e, "/docs/a.txt"), Some(b"v1".to_vec()));
    let h2 = socd::dag::write(&mut e, "/docs/a.txt", b"v2".to_vec(), 11);
    assert_ne!(h, h2);
    assert_eq!(read(&e, "/docs/a.txt"), Some(b"v2".to_vec()));
    assert_eq!(read(&e, "/none"), None);
}

#[test]
fn dag_blocks_are_content_addressed() {
    let mut d = Dag::new();
    let h = d.write_file("/x", b"data".to_vec(), 5);
    assert_eq!(d.head_of("/x"), Some(h));
    assert_eq!(d.read_file("/x"), Some(&b"data"[..]));
}

#[test]
fn mdns_query_roundtrip() {
    let q = MdnsPacket::discovery_query();
    let b = q.serialize();
    assert_eq!(&b[0..12], &[0, 0, 0, 0, 0, 1, 0, 0, 0, 0, 0, 0]);
    let p = MdnsPacket::parse(&b).unwrap();
    assert_eq!(p.questions.len(), 1);
    assert_eq!(p.questions[0].name, q.questions[0].name);
    assert_eq!(p.questions[0].qtype, DnsRecordType::PTR);
}

#[test]
fn mdns_packet_roundtrip() {
    let pkt = MdnsPacket {
        header: MdnsHeader { id: 7, flags: 0x8400, qdcount: 9, ancount: 9, nscount: 9, arcount: 9 },
        questions: vec![MdnsQuestion { name: "a.b".to_string(), qtype: DnsRecordType::A, unicast_response: true }],
        answers: vec![DnsRecord { name: "svc.local".to_string(), rtype: DnsRecordType::TXT, ttl: 4500, data: vec![1, 2, 3] }],
        additional: vec![],
    };
    let b = pkt.serialize();
    let back = MdnsPacket::parse(&b).unwrap();
    assert_eq!(back.header, MdnsHeader { id: 7, flags: 0x8400, qdcount: 1, ancount: 1, nscount: 0, arcount: 0 });
    assert_eq!(back.questions[0].name, "a.b");
    assert!(back.questions[0].unicast_response);
    assert_eq!(back.answers[0].name, "svc.local");
    assert_eq!(back.answers[0].ttl, 4500);
    assert_eq!(back.answers[0].data, vec![1, 2, 3]);
    assert!(MdnsPacket::parse(&b[..11]).is_none());
}

#[test]
fn mdns_announcement_roundtrip() {
    let a = MdnsPacket::announcement("node-1", "ab12", 7700);
    let b = a.serialize();
    let p = MdnsPacket::parse(&b).unwrap();
    assert_eq!(p.answers.len(), 1);
    assert_eq!(p.additional.len(), 2);
    assert_eq!(p.answers[0].rtype, DnsRecordType::PTR);
    assert_eq!(p.additional[0].rtype, DnsRecordType::SRV);
    assert_eq!(p.additional[1].rtype, DnsRecordType::TXT);
}

#[test]
fn record_type_codes() {
    assert_eq!(DnsRecordType::SRV.code(), 33);
    assert_eq!(DnsRecordType::from_u16(16), Some(DnsRecordType::TXT));
    assert_eq!(DnsRecordType::from_u16(2), None);
}

#[test]
fn entropy_fallback_is_a_function_of_its_seed() {
    let mut a = vec![0u8; 70];
    let mut b = vec![0u8; 70];
    let mut c = vec![0u8; 70];
    socd::crypto::fallback_entropy(&mut a, 1, 2);
    socd::crypto::fallback_entropy(&mut b, 1, 2);
    socd::crypto::fallback_entropy(&mut c, 1, 3);
    assert_eq!(a, b);
    assert_ne!(a, c);
    assert_eq!(a.len(), 70);
    assert!(a.iter().any(|x| *x != 0));
}

#[test]
fn signed_write_lands_in_the_graph() {
    let mut chain = socd::dag_sig::TrustChain::new();
    let mut e = SyncEngine::new();
    let node = Some(socd::node::LocalNode::generate([5u8; 32]));
    let h = socd::dag_sig::write_signed(&mut chain, &mut e, &node, "/signed.txt", b"ok".to_vec(), 3);
    assert_ne!(h, [0u8; 32]);
    assert_eq!(read(&e, "/signed.txt"), Some(b"ok".to_vec()));
    assert_eq!(socd::dag_sig::stats(&chain), (1, 0, 1));
}

#[test]
fn signature_is_valid_only_for_its_hash_and_key() {
    let kp = KeyPair::from_seed([5; 32]);
    let mut private_key = [0u8; 64];
    private_key[..32].copy_from_slice(&kp.signing_key);
    private_key[32..].copy_from_slice(&kp.verifying_key);
    let h1 = [1u8; 32];
    let h2 = [2u8; 32];
    let s = DagSignature::sign(&h1, &private_key, &kp.verifying_key);
    assert!(s.verify(&h1, &kp.verifying_key));
    assert!(!s.verify(&h2, &kp.verifying_key));
    assert!(!s.verify(&h1, &[3u8; 32]));
    assert!(!DagSignature::zero().verify(&h1, &[0u8; 32]));
    assert!(s.verify_full(&h1, &kp.verifying_key, &private_key));
}

#[test]
fn short_hex_shows_eight_bytes() {
    assert_eq!(DagSignature([0xab; 64]).short_hex(), "abababababababab..");
    let mut b = [0u8; 64];
    b[0] = 0x01;
    b[7] = 0xff;
    b[8] = 0xee;
    assert_eq!(DagSignature(b).short_hex(), "01000000000000ff..");
}

#[test]
fn concurrent_writes_settle_on_the_same_head_in_either_order() {
    let a = DagBlock::new(vec![[0u8; 32]], [1u8; 32], 100, BlockKind::File, "/doc".to_string(), b"from a".to_vec(), 0);
    let b = DagBlock::new(vec![[0u8; 32]], [2u8; 32], 100, BlockKind::File, "/doc".to_string(), b"from b".to_vec(), 0);
    let mut one = Dag::new();
    one.insert(a.duplicate()).unwrap();
    one.insert(b.duplicate()).unwrap();
    let mut two = Dag::new();
    two.insert(b.duplicate()).unwrap();
    two.insert(a.duplicate()).unwrap();
    assert_eq!(one.head_of("/doc"), two.head_of("/doc"));
    assert_eq!(one.read_file("/doc").unwrap(), b"from b");
    assert_eq!(two.read_file("/doc").unwrap(), b"from b");
}

#[test]
fn random_bytes_take_the_drawn_bytes_or_the_fallback_stream() {
    let mut a = vec![0u8; 4];
    random_bytes(&mut a, Some(&[1, 2, 3, 4]), 9, 9);
    assert_eq!(a, vec![1, 2, 3, 4]);
    let mut b = vec![0u8; 4];
    random_bytes(&mut b, Some(&[1, 2, 3]), 9, 9);
    let mut c = vec![0u8; 4];
    fallback_entropy(&mut c, 9, 9);
    assert_eq!(b, c);
    let r = random_32(None, 5, 6);
    let mut f = vec![0u8; 32];
    fallback_entropy(&mut f, 5, 6);
    assert_eq!(r.to_vec(), f);
    let kp = KeyPair::generate(Some(&[7u8; 32]), 0, 0);
    assert_eq!(kp.signing_key, [7u8; 32]);
    assert_eq!(kp.verifying_key, KeyPair::from_seed([7u8; 32]).verifying_key);
}

#[test]
fn mdns_names_beyond_ascii_read_back() {
    let pkt = MdnsPacket {
        header: MdnsHeader { id: 1, flags: 0, qdcount: 0, ancount: 0, nscount: 0, arcount: 0 },
        questions: vec![MdnsQuestion { name: "café.nó-ü.local".to_string(), qtype: DnsRecordType::A, unicast_response: false }],
        answers: vec![DnsRecord { name: "日本.local".to_string(), rtype: DnsRecordType::A, ttl: 1, data: vec![10, 0, 0, 1] }],
        additional: vec![],
    };
    let back = MdnsPacket::parse(&pkt.serialize()).unwrap();
    assert_eq!(back.questions[0].name, "café.nó-ü.local");
    assert_eq!(back.answers[0].name, "日本.local");
}

#[test]
fn blocks_signed_by_the_local_node_verify() {
    let node = socd::node::LocalNode::generate([3u8; 32]);
    let b = socd::dag_sig::SignedBlock::create(&Some(node), "/a.txt", b"x".to_vec(), vec![[0u8; 32]], 1, 5);
    assert!(b.verified);
    assert!(b.verify_signature());
}
