use seam_protocol::crypto::ratchet::DoubleRatchet;
use seam_protocol::handshake::hybrid_keys::sign_failure;
use seam_protocol::handshake::state::{
    agree, cipher_flag, extract_prefix, extract_prefix_with_flag, finish, length_prefix,
    parse_msg2, parse_msg3, peer_key, write_key_payload,
};
use seam_protocol::handshake::{
    exchange, kem_decapsulate, kem_encapsulate, mldsa_verify, pk_from_bytes, pk_to_bytes, ClientHandshake,
    CookieFactory, HandshakeResult, HybridSharedSecret, IdentityKeypair, IdentityProof,
    ServerHandshake, MLDSA_PK_LEN,
};
use seam_protocol::{CipherSuite, PacketKeys, SeamError};

#[test]
fn test_cookie_roundtrip() {
    let secret = [0x42u8; 32];
    let factory = CookieFactory::new(secret);
    let addr = b"127.0.0.1:9000";
    let cookie = factory.generate(addr);
    assert!(factory.verify(addr, &cookie));
}

#[test]
fn test_wrong_addr_rejected() {
    let factory = CookieFactory::new([0x42u8; 32]);
    let cookie = factory.generate(b"1.2.3.4:5000");
    assert!(!factory.verify(b"5.5.5.5:5000", &cookie));
}

#[test]
fn test_tampered_cookie_rejected() {
    let factory = CookieFactory::new([0x42u8; 32]);
    let mut cookie = factory.generate(b"1.2.3.4:5000");
    cookie[0] ^= 0xFF;
    assert!(!factory.verify(b"1.2.3.4:5000", &cookie));
}

#[test]
fn cookies_last_through_the_next_bucket() {
    let factory = CookieFactory::new([7u8; 32]);
    let cookie = factory.generate_at(b"addr", 59);
    assert!(factory.verify_at(b"addr", &cookie, 30));
    assert!(factory.verify_at(b"addr", &cookie, 89));
    assert!(!factory.verify_at(b"addr", &cookie, 90));
    assert!(!factory.verify_at(b"addr", &cookie, 29));
    let mut input = b"addr".to_vec();
    input.extend_from_slice(&1u64.to_le_bytes());
    assert_eq!(cookie, *blake3::keyed_hash(&[7u8; 32], &input).as_bytes());
}

#[test]
fn test_identity_generate_roundtrip() {
    let id = IdentityKeypair::generate();
    let bytes = id.to_bytes();
    assert_eq!(bytes[0], 3, "version byte must be 3");
    let id2 = IdentityKeypair::from_bytes(&bytes).expect("roundtrip failed");
    assert_eq!(
        id.x25519_public, id2.x25519_public,
        "x25519 public key must survive roundtrip"
    );
    let mldsa_pk1: [u8; MLDSA_PK_LEN] = id.mldsa_pk;
    let mldsa_pk2: [u8; MLDSA_PK_LEN] = id2.mldsa_pk;
    assert_eq!(mldsa_pk1, mldsa_pk2, "ML-DSA-65 public key must survive roundtrip");
}

#[test]
fn test_mldsa_sign_verify() {
    let id = IdentityKeypair::generate();
    let message = b"seam-handshake-transcript-hash-xxxxxxxxxxxxxxxxxxxxxxxxxxxxxxxx";
    let sig = id.mldsa_sign(message).expect("signing failed");
    assert!(
        mldsa_verify(&id.mldsa_pk, message, &sig),
        "ML-DSA-65 signature verification failed"
    );
}

#[test]
fn test_mldsa_sign_wrong_message_fails() {
    let id = IdentityKeypair::generate();
    let message = b"correct-message-xxxxxxxxxxxxxxxxxxxxxxxxxxxxxxxxxxxxxxxxxxxx";
    let wrong = b"wrong-message-xxxxxxxxxxxxxxxxxxxxxxxxxxxxxxxxxxxxxxxxxxxxx";
    let sig = id.mldsa_sign(message).expect("signing failed");
    assert!(
        !mldsa_verify(&id.mldsa_pk, wrong, &sig),
        "verify should fail on wrong message"
    );
}

#[test]
fn test_mldsa_fingerprint_deterministic() {
    let id = IdentityKeypair::generate();
    assert_eq!(id.mldsa_fingerprint(), id.mldsa_fingerprint());
    assert_eq!(id.mldsa_fingerprint().len(), 64);
}

#[test]
fn damaged_identities_are_refused() {
    let id = IdentityKeypair::generate();
    let good = id.to_bytes();
    assert_eq!(good.len(), 7273);
    assert!(IdentityKeypair::from_bytes(&[]).is_none());
    assert!(IdentityKeypair::from_bytes(&good[..7272]).is_none());
    for at in [0usize, 36, 104] {
        let mut bad = good.clone();
        bad[at] ^= 0x40;
        assert!(IdentityKeypair::from_bytes(&bad).is_none());
    }
    let mut bad = good.clone();
    for b in &mut bad[105..1257] {
        *b = 0xFF;
    }
    assert!(IdentityKeypair::from_bytes(&bad).is_none());
}

#[test]
fn identities_of_the_version_before_are_upgraded() {
    let id = IdentityKeypair::generate();
    let mut old = id.to_bytes()[..1289].to_vec();
    old[0] = 2;
    let (up, rewrite) = IdentityKeypair::from_file(&old).unwrap();
    assert_eq!(up.x25519_secret, id.x25519_secret);
    let stored = rewrite.expect("stored anew");
    assert_eq!(stored, up.to_bytes());
    assert_eq!(stored[0], 3);
    let (again, none) = IdentityKeypair::from_file(&stored).unwrap();
    assert!(none.is_none());
    assert_eq!(again.mldsa_fingerprint(), up.mldsa_fingerprint());
    let (twice, _) = IdentityKeypair::from_file(&old).unwrap();
    assert_eq!(twice.mldsa_pk, up.mldsa_pk);
    let sig = up.mldsa_sign(b"m").unwrap();
    assert!(mldsa_verify(&up.mldsa_pk, b"m", &sig));
}

#[test]
fn secrets_are_encapsulated() {
    let id = IdentityKeypair::generate();
    let (ct, ss) = kem_encapsulate(&id.kem_pk);
    assert_eq!(ct.len(), 1088);
    assert_eq!(kem_decapsulate(&id.kem_sk, &ct), Some(ss));
    assert_eq!(kem_decapsulate(&id.kem_sk, &ct[..1087]), None);
    let wire = pk_to_bytes(&id.kem_pk);
    assert_eq!(pk_to_bytes(&pk_from_bytes(&wire).unwrap()), wire);
    assert!(pk_from_bytes(&wire[..1183]).is_none());
    assert!(pk_from_bytes(&[0xFFu8; 1184]).is_none());
}

#[test]
fn hybrid_secrets_give_keys() {
    let s = HybridSharedSecret::new([1u8; 32], [2u8; 32]);
    let mut ikm = [1u8; 64].to_vec();
    ikm[32..].copy_from_slice(&[2u8; 32]);
    ikm.extend_from_slice(b"hash");
    let want = PacketKeys::derive_from_secret(&ikm);
    let got = s.derive_packet_keys(b"hash");
    assert_eq!(got.to_bytes(), want.to_bytes());
    let aes = s.derive_packet_keys_with_cipher(b"hash", CipherSuite::Aes256Gcm);
    assert_eq!(aes.cipher_suite, CipherSuite::Aes256Gcm);
}

fn run_handshake(
    client_cipher: CipherSuite,
    server_cipher: CipherSuite,
) -> (HandshakeResult, HandshakeResult) {
    let client_id = IdentityKeypair::generate();
    let server_id = IdentityKeypair::generate();
    let server_x25519: [u8; 32] = server_id.x25519_public;

    let mut client =
        ClientHandshake::new_with_cipher(&client_id, &server_x25519, client_cipher).unwrap();
    let mut server = ServerHandshake::new_with_cipher(&server_id, server_cipher).unwrap();

    let mut msg1 = Vec::new();
    client.write_msg1(&server_id.kem_pk, &mut msg1).unwrap();
    let agreed = server.read_msg1(&msg1).unwrap();

    let mut msg2 = Vec::new();
    server
        .write_msg2(&server_id.kem_pk, agreed, &mut msg2)
        .unwrap();
    let (server_kem_pk, client_agreed) = client.read_msg2(&msg2).unwrap();
    assert_eq!(client_agreed, agreed);

    let mut msg3 = Vec::new();
    let client_result = client
        .write_msg3_and_finish(&server_kem_pk, agreed, &mut msg3)
        .unwrap();
    let server_result = server
        .read_msg3_and_finish(&server_id.kem_sk, agreed, &msg3)
        .unwrap();

    assert_eq!(client_result.session_id, server_result.session_id);
    assert_eq!(client_result.peer_static_pubkey, server_id.x25519_public);
    assert_eq!(server_result.peer_static_pubkey, client_id.x25519_public);
    assert_eq!(client_result.keys.to_bytes(), server_result.keys.to_bytes());
    assert_eq!(client_result.handshake_hash, server_result.handshake_hash);

    let proof = IdentityProof::sign(&client_id, &client_result.handshake_hash).unwrap();
    let wire = proof.to_bytes();
    assert_eq!(wire.len(), 5261);
    let read = IdentityProof::from_bytes(&wire).unwrap();
    assert!(read.verify(&server_result.handshake_hash));
    assert!(!read.verify(b"another transcript"));
    assert!(IdentityProof::from_bytes(&wire[..5260]).is_none());
    (client_result, server_result)
}

#[test]
fn test_full_handshake_chacha() {
    let (c, s) = run_handshake(CipherSuite::ChaCha20Poly1305, CipherSuite::ChaCha20Poly1305);
    assert_eq!(c.cipher_suite, CipherSuite::ChaCha20Poly1305);
    assert_eq!(s.cipher_suite, CipherSuite::ChaCha20Poly1305);
}

#[test]
fn test_full_handshake_aes256gcm() {
    let (c, s) = run_handshake(CipherSuite::Aes256Gcm, CipherSuite::Aes256Gcm);
    assert_eq!(c.cipher_suite, CipherSuite::Aes256Gcm);
    assert_eq!(s.cipher_suite, CipherSuite::Aes256Gcm);
}

#[test]
fn test_cipher_negotiation_fallback() {
    let (c, s) = run_handshake(CipherSuite::Aes256Gcm, CipherSuite::ChaCha20Poly1305);
    assert_eq!(c.cipher_suite, CipherSuite::ChaCha20Poly1305);
    assert_eq!(s.cipher_suite, CipherSuite::ChaCha20Poly1305);
}

#[test]
fn test_full_handshake() {
    run_handshake(CipherSuite::default(), CipherSuite::default());
}

#[test]
fn messages_out_of_turn_are_refused() {
    let id = IdentityKeypair::generate();
    let mut client = ClientHandshake::new(&id, &id.x25519_public).unwrap();
    let mut server = ServerHandshake::new(&id).unwrap();
    let mut out = vec![9u8];
    assert!(matches!(
        server.write_msg2(&id.kem_pk, CipherSuite::default(), &mut out),
        Err(SeamError::HandshakeFailed(_))
    ));
    assert_eq!(out, vec![9u8]);
    client.write_msg1(&id.kem_pk, &mut out).unwrap();
    assert_eq!(out[0], 9);
    assert!(client.write_msg1(&id.kem_pk, &mut out).is_err());
    assert!(client.read_msg2(&[0u8; 200]).is_err());
    assert!(server.read_msg1(&[]).is_err());
}

#[test]
fn a_third_message_out_of_turn_writes_nothing() {
    let id = IdentityKeypair::generate();
    let mut client = ClientHandshake::new(&id, &id.x25519_public).unwrap();
    let mut msg1 = Vec::new();
    client.write_msg1(&id.kem_pk, &mut msg1).unwrap();
    let mut out = vec![9u8, 8];
    let r = client.write_msg3_and_finish(&id.kem_pk, CipherSuite::default(), &mut out);
    assert!(matches!(r, Err(SeamError::HandshakeFailed(_))));
    assert_eq!(out, vec![9u8, 8]);
}

#[test]
fn a_refused_first_message_does_not_count() {
    let id = IdentityKeypair::generate();
    let mut server = ServerHandshake::new(&id).unwrap();
    assert!(server.read_msg1(&[1u8; 31]).is_err());
    let mut out = Vec::new();
    assert!(server.write_msg2(&id.kem_pk, CipherSuite::default(), &mut out).is_err());
    assert!(out.is_empty());
}

#[test]
fn arbitrary_messages_never_panic() {
    let id = IdentityKeypair::generate();
    for len in [0usize, 1, 31, 32, 33, 34, 35, 100, 2000, 70_000] {
        let msg: Vec<u8> = (0..len).map(|i| (i * 7 + len) as u8).collect();
        let mut server = ServerHandshake::new(&id).unwrap();
        let _ = server.read_msg1(&msg);
        let mut client = ClientHandshake::new(&id, &id.x25519_public).unwrap();
        let mut msg1 = Vec::new();
        client.write_msg1(&id.kem_pk, &mut msg1).unwrap();
        assert!(client.read_msg2(&msg).is_err());
    }
}

#[test]
fn payloads_are_framed() {
    let framed = length_prefix(b"abc");
    assert_eq!(framed, vec![3, 0, b'a', b'b', b'c']);
    assert_eq!(extract_prefix(&framed).unwrap(), b"abc");
    assert!(matches!(
        extract_prefix(&framed[..1]),
        Err(SeamError::HandshakeFailed(w)) if w == "payload too short"
    ));
    assert!(matches!(
        extract_prefix(&framed[..4]),
        Err(SeamError::HandshakeFailed(w)) if w == "payload truncated"
    ));
    let mut flagged = framed.clone();
    flagged.push(1);
    assert_eq!(extract_prefix_with_flag(&flagged).unwrap(), (&b"abc"[..], 1));
    assert_eq!(extract_prefix_with_flag(&framed).unwrap(), (&b"abc"[..], 0));
    assert_eq!(cipher_flag(&flagged), 1);
    assert_eq!(cipher_flag(&[]), 0);
    assert_eq!(agree(&flagged, CipherSuite::Aes256Gcm), CipherSuite::Aes256Gcm);
    assert_eq!(agree(&framed, CipherSuite::Aes256Gcm), CipherSuite::ChaCha20Poly1305);
}

#[test]
fn payload_contents_are_checked() {
    let id = IdentityKeypair::generate();
    let payload = write_key_payload(&id.kem_pk, CipherSuite::Aes256Gcm);
    let (pk, suite) = parse_msg2(&payload).unwrap();
    assert_eq!(pk_to_bytes(&pk), pk_to_bytes(&id.kem_pk));
    assert_eq!(suite, CipherSuite::Aes256Gcm);
    assert!(matches!(
        parse_msg2(&length_prefix(b"not a key")),
        Err(SeamError::HandshakeFailed(w)) if w == "bad KEM PK"
    ));
    assert!(matches!(
        parse_msg3(&length_prefix(b"short"), &id.kem_sk),
        Err(SeamError::HandshakeFailed(w)) if w == "KEM decapsulation failed"
    ));
    let (ct, ss) = kem_encapsulate(&id.kem_pk);
    assert_eq!(parse_msg3(&length_prefix(&ct), &id.kem_sk).unwrap(), ss);
    assert_eq!(peer_key(Some(vec![4u8; 32])).unwrap(), [4u8; 32]);
    assert!(matches!(
        peer_key(None),
        Err(SeamError::HandshakeFailed(w)) if w == "no remote static"
    ));
    assert!(matches!(
        peer_key(Some(vec![4u8; 31])),
        Err(SeamError::HandshakeFailed(w)) if w == "bad static key length"
    ));
    assert_eq!(sign_failure("why"), "ML-DSA-65 sign failed: why");
}

#[test]
fn sessions_are_drawn_from_the_transcript() {
    let hash: Vec<u8> = (0u8..32).collect();
    let a = finish(hash.clone(), [1u8; 32], [2u8; 32], CipherSuite::Aes256Gcm);
    let b = finish(hash.clone(), [9u8; 32], [2u8; 32], CipherSuite::Aes256Gcm);
    assert_eq!(a.session_id, 0x0706_0504_0302_0100);
    assert_eq!(a.keys.to_bytes(), b.keys.to_bytes());
    let mut ikm = [2u8; 32].to_vec();
    ikm.extend_from_slice(&blake3::derive_key("apex/x25519-component/v1", &hash));
    ikm.extend_from_slice(&hash);
    assert_eq!(a.keys.to_bytes(), PacketKeys::derive_from_secret(&ikm).to_bytes());
}

#[test]
fn ratchets_agree_after_a_handshake() {
    let root = [5u8; 32];
    let mut a = DoubleRatchet::new(&root, true);
    let mut b = DoubleRatchet::new(&root, false);
    for i in 0u64..3 {
        assert_eq!(a.next_send_key().bytes, b.next_recv_key(0, i).unwrap().bytes);
        assert_eq!(b.next_send_key().bytes, a.next_recv_key(0, i).unwrap().bytes);
    }
}

#[test]
fn exchanges_give_both_sides_one_session() {
    let client = IdentityKeypair::generate();
    let server = IdentityKeypair::generate();
    let chacha = CipherSuite::ChaCha20Poly1305;
    let aes = CipherSuite::Aes256Gcm;
    for (a, b, agreed) in [
        (chacha, chacha, chacha),
        (chacha, aes, chacha),
        (aes, chacha, chacha),
        (aes, aes, aes),
    ] {
        let (c, s) = exchange(&client, &server, a, b).unwrap();
        assert_eq!(c.session_id, s.session_id);
        assert_eq!(c.handshake_hash, s.handshake_hash);
        assert_eq!(c.keys.to_bytes(), s.keys.to_bytes());
        assert_eq!((c.cipher_suite, s.cipher_suite), (agreed, agreed));
        assert_eq!(c.peer_static_pubkey, server.x25519_public);
        assert_eq!(s.peer_static_pubkey, client.x25519_public);
    }
}

#[test]
fn messages_have_their_lengths_and_turns() {
    let client_id = IdentityKeypair::generate();
    let server_id = IdentityKeypair::generate();
    let mut client = ClientHandshake::new(&client_id, &server_id.x25519_public).unwrap();
    let mut server = ServerHandshake::new(&server_id).unwrap();
    let mut early = vec![9u8];
    assert!(server.write_msg2(&server_id.kem_pk, CipherSuite::Aes256Gcm, &mut early).is_err());
    assert_eq!(early, vec![9]);
    let mut server = ServerHandshake::new(&server_id).unwrap();
    let mut msg1 = vec![9u8];
    client.write_msg1(&server_id.kem_pk, &mut msg1).unwrap();
    assert_eq!(msg1.len(), 1 + 32 + 1187);
    assert_eq!(&msg1[33..], &write_key_payload(&server_id.kem_pk, CipherSuite::default())[..]);
    assert!(client.write_msg1(&server_id.kem_pk, &mut msg1).is_err());
    assert_eq!(msg1.len(), 1 + 32 + 1187);
    assert!(server.read_msg1(&msg1[..32]).is_ok());
    let mut msg2 = Vec::new();
    server.write_msg2(&server_id.kem_pk, CipherSuite::Aes256Gcm, &mut msg2).unwrap();
    assert_eq!(msg2.len(), 96 + 1187);
    let mut late = ServerHandshake::new(&server_id).unwrap();
    assert!(late.read_msg1(&[0u8; 31]).is_err());
    assert!(late.read_msg1(&vec![0u8; 65536]).is_err());
    assert!(late.read_msg1(&vec![0u8; 65535]).is_ok());
}
