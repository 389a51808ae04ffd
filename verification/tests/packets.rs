use std::collections::HashSet;

use seam_protocol::crypto::decoder::PacketDecoder;
use seam_protocol::crypto::encoder::{make_nonce, PacketEncoder};
use seam_protocol::crypto::header::apply_header_protection;
use seam_protocol::crypto::keys::PacketKeys;
use seam_protocol::crypto::rekey::KeySchedule;
use seam_protocol::crypto::replay::ReplayWindow;
use seam_protocol::crypto::{make_cipher, AeadCipher, Cipher, CipherSuite};
use seam_protocol::packet::{PktType, HEADER_LEN, MAX_PACKET_LEN, TAG_LEN};
use seam_protocol::SeamError;

fn make_pair() -> (PacketEncoder, PacketDecoder) {
    make_pair_with_suite(CipherSuite::ChaCha20Poly1305)
}

fn make_pair_with_suite(suite: CipherSuite) -> (PacketEncoder, PacketDecoder) {
    let secret = b"test-secret-32-bytes-padding-xyz";
    let enc_keys = PacketKeys::derive_from_secret_with_cipher(secret, suite);
    let dec_keys = PacketKeys::derive_from_secret_with_cipher(secret, suite);
    let encoder = PacketEncoder::new(enc_keys, 0xdeadbeef);
    let decoder = PacketDecoder::new(dec_keys);
    (encoder, decoder)
}

#[test]
fn test_oversized_packet_rejected() {
    let (_, mut dec) = make_pair();
    let mut oversized = vec![0u8; MAX_PACKET_LEN + 1];
    assert!(matches!(
        dec.decode(&mut oversized),
        Err(SeamError::PacketTooLarge { have, max })
        if have == MAX_PACKET_LEN + 1 && max == MAX_PACKET_LEN
    ));
}

#[test]
fn test_roundtrip() {
    let (mut enc, mut dec) = make_pair();
    let plaintext = b"hello apex protocol";
    let mut buf = vec![0u8; HEADER_LEN + plaintext.len() + TAG_LEN];
    let written = enc.encode(PktType::Data, plaintext, &mut buf).unwrap();
    assert_eq!(written, buf.len());
    let (pkt_type, _pkt_num, decoded) = dec.decode(&mut buf).unwrap();
    assert_eq!(pkt_type, PktType::Data);
    assert_eq!(decoded, plaintext);
}

#[test]
fn test_roundtrip_aes256gcm() {
    let (mut enc, mut dec) = make_pair_with_suite(CipherSuite::Aes256Gcm);
    let plaintext = b"hello cnsa 2.0 compliant packet";
    let mut buf = vec![0u8; HEADER_LEN + plaintext.len() + TAG_LEN];
    let written = enc.encode(PktType::Data, plaintext, &mut buf).unwrap();
    assert_eq!(written, buf.len());
    let (pkt_type, _pkt_num, decoded) = dec.decode(&mut buf).unwrap();
    assert_eq!(pkt_type, PktType::Data);
    assert_eq!(decoded, plaintext);
}

#[test]
fn decoder_test_replay_rejected() {
    let (mut enc, mut dec) = make_pair();
    let mut buf = vec![0u8; HEADER_LEN + 4 + TAG_LEN];
    enc.encode(PktType::Data, b"test", &mut buf).unwrap();
    let mut buf2 = buf.clone();
    dec.decode(&mut buf).unwrap();
    assert!(matches!(dec.decode(&mut buf2), Err(SeamError::Replay(_))));
}

#[test]
fn test_tampered_ciphertext() {
    let (mut enc, mut dec) = make_pair();
    let payload = b"tamper-me-payload-long";
    let mut buf = vec![0u8; HEADER_LEN + payload.len() + TAG_LEN];
    enc.encode(PktType::Data, payload, &mut buf).unwrap();
    buf[HEADER_LEN + 17] ^= 0xFF;
    assert!(matches!(dec.decode(&mut buf), Err(SeamError::AuthFailed)));
}

#[test]
fn decoder_test_window_sliding() {
    let secret = b"window-slide-test-32-bytes-paddd";
    let enc_keys = PacketKeys::derive_from_secret(secret);
    let dec_keys = PacketKeys::derive_from_secret(secret);
    let mut encoder = PacketEncoder::new(enc_keys, 1);
    let mut decoder = PacketDecoder::new(dec_keys);
    for _ in 0..1030 {
        let mut buf = vec![0u8; HEADER_LEN + 4 + TAG_LEN];
        encoder.encode(PktType::Data, b"data", &mut buf).unwrap();
        decoder.decode(&mut buf).unwrap();
    }
}

#[test]
fn test_window_boundary_last_slot_accepted() {
    let secret = b"boundary-last-slot-32bytes-paddd";
    let enc_keys = PacketKeys::derive_from_secret(secret);
    let dec_keys = PacketKeys::derive_from_secret(secret);
    let mut encoder = PacketEncoder::new(enc_keys, 0xABCD);
    let mut decoder = PacketDecoder::new(dec_keys);

    let mut buf0 = vec![0u8; HEADER_LEN + 4 + TAG_LEN];
    encoder.encode(PktType::Data, b"anch", &mut buf0).unwrap();
    decoder.decode(&mut buf0).unwrap();

    for _ in 1..1023 {
        let mut buf = vec![0u8; HEADER_LEN + 4 + TAG_LEN];
        encoder.encode(PktType::Data, b"skip", &mut buf).unwrap();
    }

    let mut buf_boundary = vec![0u8; HEADER_LEN + 4 + TAG_LEN];
    encoder
        .encode(PktType::Data, b"bndl", &mut buf_boundary)
        .unwrap();
    assert!(
        decoder.decode(&mut buf_boundary).is_ok(),
        "seq 1023 (window boundary) must be accepted"
    );
}

#[test]
fn test_window_boundary_just_outside_rejected() {
    let mut w = ReplayWindow::new();
    w.check_and_insert(1023).unwrap();
    w.check_and_insert(1024).unwrap();
    let result = w.check_and_insert(0);
    assert!(
        matches!(result, Err(SeamError::TooOld(0))),
        "seq 0 just outside window must be TooOld, got {:?}",
        result
    );
}

#[test]
fn test_duplicate_at_boundary_rejected() {
    let mut w = ReplayWindow::new();
    w.check_and_insert(1023).unwrap();
    let result = w.check_and_insert(1023);
    assert!(
        matches!(result, Err(SeamError::Replay(1023))),
        "duplicate at window boundary must be Replay, got {:?}",
        result
    );
}

#[test]
fn nonce_uniqueness_over_1m_packets() {
    let secret = b"nonce-collision-test-32bytes-pad";
    let keys = PacketKeys::derive_from_secret_with_cipher(secret, CipherSuite::ChaCha20Poly1305);
    let nonce_base = keys.nonce_base;

    const N: u64 = 1 << 20;
    let mut seen: HashSet<[u8; 12]> = HashSet::with_capacity(N as usize);
    for pkt_num in 0..N {
        let nonce = make_nonce(&nonce_base, pkt_num);
        let inserted = seen.insert(nonce);
        assert!(inserted, "nonce collision at packet {} (nonce={:?})", pkt_num, nonce);
    }
    assert_eq!(seen.len(), N as usize);
}

#[test]
fn nonce_uniqueness_across_sessions() {
    let secret_a = b"session-a-secret-32-bytes-paddd!";
    let secret_b = b"session-b-secret-32-bytes-paddd!";
    let keys_a = PacketKeys::derive_from_secret(secret_a);
    let keys_b = PacketKeys::derive_from_secret(secret_b);
    assert_ne!(
        keys_a.nonce_base, keys_b.nonce_base,
        "different traffic secrets must produce different nonce bases"
    );

    const N: u64 = 1 << 16;
    let nonces_a: HashSet<[u8; 12]> = (0..N).map(|n| make_nonce(&keys_a.nonce_base, n)).collect();
    let nonces_b: HashSet<[u8; 12]> = (0..N).map(|n| make_nonce(&keys_b.nonce_base, n)).collect();
    let intersection_count = nonces_a.intersection(&nonces_b).count();
    assert_eq!(intersection_count, 0);
}

#[test]
fn nonce_is_the_base_with_the_number_mixed_in() {
    let base = [0xF0u8; 12];
    let mut want = base;
    for (n, b) in want.iter_mut().zip(0x0102_0304_0506_0708u64.to_le_bytes().iter()) {
        *n ^= b;
    }
    assert_eq!(make_nonce(&base, 0x0102_0304_0506_0708), want);
}

#[test]
fn header_protection_is_symmetric() {
    let hp_key = [7u8; 32];
    let sample = [3u8; 16];
    let mut header = [1u8; 32];
    let original = header;
    apply_header_protection(&hp_key, &mut header, &sample);
    assert_ne!(header, original);
    apply_header_protection(&hp_key, &mut header, &sample);
    assert_eq!(header, original);
}

#[test]
fn changing_sample_changes_mask() {
    let hp_key = [9u8; 32];
    let mut a = [0xAAu8; 32];
    let mut b = [0xAAu8; 32];
    apply_header_protection(&hp_key, &mut a, &[1u8; 16]);
    apply_header_protection(&hp_key, &mut b, &[2u8; 16]);
    assert_ne!(a, b);
}

#[test]
fn header_protection_at_the_last_block_counter() {
    let mut header = [0u8; 32];
    apply_header_protection(&[5u8; 32], &mut header, &[0xFFu8; 16]);
    let once = header;
    apply_header_protection(&[5u8; 32], &mut header, &[0xFFu8; 16]);
    assert_ne!(once, [0u8; 32]);
    assert_eq!(header, [0u8; 32]);
}

#[test]
fn initial_epoch_is_zero() {
    let k = KeySchedule::new([0x42u8; 32]);
    assert_eq!(k.epoch, 0);
    assert_eq!(k.key_phase(), false);
}

#[test]
fn rotate_advances_epoch_and_changes_keys() {
    let mut k = KeySchedule::new([0x42u8; 32]);
    let enc_key_before = k.current.enc_key;
    k.rotate();
    assert_eq!(k.epoch, 1);
    assert_eq!(k.key_phase(), true);
    assert_ne!(k.current.enc_key, enc_key_before, "keys must differ after rotation");
}

#[test]
fn two_rotations_give_three_distinct_keys() {
    let mut k = KeySchedule::new([0x42u8; 32]);
    let k0 = k.current.enc_key;
    k.rotate();
    let k1 = k.current.enc_key;
    k.rotate();
    let k2 = k.current.enc_key;
    assert_ne!(k0, k1);
    assert_ne!(k1, k2);
    assert_ne!(k0, k2);
}

#[test]
fn key_phase_toggles_each_rotation() {
    let mut k = KeySchedule::new([0x01u8; 32]);
    assert_eq!(k.key_phase(), false);
    k.rotate();
    assert_eq!(k.key_phase(), true);
    k.rotate();
    assert_eq!(k.key_phase(), false);
}

#[test]
fn prepare_next_is_idempotent() {
    let mut k = KeySchedule::new([0x01u8; 32]);
    k.prepare_next();
    let peek = k.next.as_ref().unwrap().enc_key;
    k.prepare_next();
    assert_eq!(k.next.as_ref().unwrap().enc_key, peek);
}

#[test]
fn rotation_uses_the_prepared_keys() {
    let mut k = KeySchedule::new([0x09u8; 32]);
    k.prepare_next();
    let peek = k.next.as_ref().unwrap().enc_key;
    k.rotate();
    assert_eq!(k.current.enc_key, peek);
    let mut other = KeySchedule::new([0x09u8; 32]);
    other.rotate();
    assert_eq!(other.current.enc_key, peek);
}

#[test]
fn test_accepts_new_packets() {
    let mut w = ReplayWindow::new();
    assert!(w.check_and_insert(0).is_ok());
    assert!(w.check_and_insert(1).is_ok());
    assert!(w.check_and_insert(500).is_ok());
}

#[test]
fn replay_test_replay_rejected() {
    let mut w = ReplayWindow::new();
    w.check_and_insert(42).unwrap();
    assert!(matches!(w.check_and_insert(42), Err(SeamError::Replay(42))));
}

#[test]
fn test_too_old_rejected() {
    let mut w = ReplayWindow::new();
    w.check_and_insert(2000).unwrap();
    assert!(matches!(w.check_and_insert(0), Err(SeamError::TooOld(0))));
}

#[test]
fn replay_test_window_sliding() {
    let mut w = ReplayWindow::new();
    for i in 0u64..1030 {
        assert!(w.check_and_insert(i).is_ok(), "failed at {i}");
    }
    assert!(matches!(w.check_and_insert(0), Err(SeamError::TooOld(0))));
    assert!(w.check_and_insert(1030).is_ok());
}

#[test]
fn window_takes_the_largest_number() {
    let mut w = ReplayWindow::new();
    assert!(w.check_and_insert(u64::MAX).is_ok());
    assert!(matches!(w.check_and_insert(u64::MAX), Err(SeamError::Replay(u64::MAX))));
    assert!(w.check_and_insert(u64::MAX - 1023).is_ok());
    assert!(matches!(w.check_and_insert(u64::MAX - 1024), Err(SeamError::TooOld(_))));
}

#[test]
fn short_packets_and_buffers_are_refused() {
    let (mut enc, mut dec) = make_pair();
    let mut small = vec![0u8; HEADER_LEN + 3 + TAG_LEN];
    assert!(matches!(
        enc.encode(PktType::Data, b"test", &mut small),
        Err(SeamError::BufferTooSmall { need: 52, have: 51 })
    ));
    let mut short = vec![0u8; HEADER_LEN + TAG_LEN - 1];
    assert!(matches!(
        dec.decode(&mut short),
        Err(SeamError::BufferTooSmall { need: 48, have: 47 })
    ));
}

#[test]
fn garbage_never_authenticates() {
    let (_, mut dec) = make_pair();
    for len in 48usize..80 {
        let mut buf: Vec<u8> = (0..len).map(|i| (i * 31 + len) as u8).collect();
        assert!(dec.decode(&mut buf).is_err());
    }
}

#[test]
fn packet_numbers_follow_each_other() {
    let (mut enc, mut dec) = make_pair();
    for n in 0u64..5 {
        assert_eq!(enc.peek_next_pkt_num(), n);
        let mut buf = vec![0u8; HEADER_LEN + 2 + TAG_LEN];
        enc.encode(PktType::Ping, b"hi", &mut buf).unwrap();
        let (pkt_type, num, payload) = dec.decode(&mut buf).unwrap();
        assert_eq!((pkt_type, num, payload), (PktType::Ping, n, &b"hi"[..]));
    }
}

#[test]
fn suites_have_names() {
    assert_eq!(CipherSuite::default(), CipherSuite::ChaCha20Poly1305);
    for suite in [CipherSuite::ChaCha20Poly1305, CipherSuite::Aes256Gcm] {
        assert_eq!(CipherSuite::parse(suite.as_str()), Some(suite));
    }
    assert_eq!(CipherSuite::parse("aes-256-gcm"), Some(CipherSuite::Aes256Gcm));
    assert_eq!(CipherSuite::parse("chacha20-poly1305"), Some(CipherSuite::ChaCha20Poly1305));
    assert_eq!(CipherSuite::parse("AES256GCM"), None);
    assert_eq!(CipherSuite::parse(""), None);
}

#[test]
fn ciphers_open_what_they_sealed() {
    for suite in [CipherSuite::ChaCha20Poly1305, CipherSuite::Aes256Gcm] {
        let cipher = make_cipher(suite, [3u8; 32]);
        assert_eq!((Cipher::key_len(), Cipher::nonce_len(), Cipher::tag_len()), (32, 12, 16));
        let nonce = [4u8; 12];
        let mut buf = b"attack at dawn".to_vec();
        cipher.encrypt_in_place(&nonce, b"header", &mut buf).unwrap();
        assert_eq!(buf.len(), 14 + 16);
        assert_ne!(&buf[..14], b"attack at dawn");
        let mut forged = buf.clone();
        assert!(cipher.decrypt_in_place(&nonce, b"other", &mut forged).is_err());
        cipher.decrypt_in_place(&nonce, b"header", &mut buf).unwrap();
        assert_eq!(buf, b"attack at dawn");
    }
}

#[test]
fn keys_survive_serialisation() {
    let keys = PacketKeys::derive_from_secret(b"secret");
    let bytes = keys.to_bytes();
    let back = PacketKeys::from_bytes(&bytes).unwrap();
    assert_eq!(back.enc_key, keys.enc_key);
    assert_eq!(back.hp_key, keys.hp_key);
    assert_eq!(back.nonce_base, keys.nonce_base);
    assert!(PacketKeys::from_bytes(&bytes[..75]).is_none());
    assert_eq!(
        keys.enc_key,
        blake3::derive_key("apex/payload-encryption/v1", b"secret")
    );
}
