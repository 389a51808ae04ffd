use seam_protocol::crypto::ratchet::{
    clamp, ratchet_step, DoubleRatchet, RatchetStep, MAX_SKIP, SKIP_KEY_TTL,
};
use zeroize::Zeroize;

const HOUR: u64 = 3_600_000_000_000;

#[test]
fn test_ratchet_forward_secrecy() {
    let root = [0x11u8; 32];
    let mut sender = DoubleRatchet::new(&root, true);

    let mut saved: Vec<[u8; 32]> = Vec::new();
    let mut keys: Vec<[u8; 32]> = Vec::new();
    for i in 0..10usize {
        let k = sender.next_send_key();
        let raw = k.bytes;
        keys.push(raw);
        if i < 5 {
            saved.push(raw);
        }
    }
    for i in 0..keys.len() {
        for j in (i + 1)..keys.len() {
            assert_ne!(keys[i], keys[j], "keys {i} and {j} must differ");
        }
    }
    for _ in 0..10 {
        let k = sender.next_send_key();
        let raw = k.bytes;
        for &s in &saved {
            assert_ne!(raw, s, "re-derived key must not match a past key");
        }
    }
}

#[test]
fn test_ratchet_out_of_order() {
    let root = [0x22u8; 32];
    let mut sender = DoubleRatchet::new(&root, true);
    let mut expected_keys = Vec::new();
    for _ in 0..4 {
        expected_keys.push(sender.next_send_key().bytes);
    }

    let ck = [0x33u8; 32];
    let (ck1, mk0) = ratchet_step(&ck);
    let (ck2, mk1) = ratchet_step(&ck1);
    let (ck3, mk2) = ratchet_step(&ck2);
    let (_ck4, mk3) = ratchet_step(&ck3);

    let (_, mk0_again) = ratchet_step(&ck);
    assert_eq!(mk0, mk0_again, "ratchet_step must be deterministic");
    assert_ne!(mk0, mk1);
    assert_ne!(mk1, mk2);
    assert_ne!(mk2, mk3);

    for i in 0..expected_keys.len() {
        for j in (i + 1)..expected_keys.len() {
            assert_ne!(
                expected_keys[i], expected_keys[j],
                "expected keys {i} and {j} must differ"
            );
        }
    }

    // Packets 0, 1, 3 and 2 arrive in this order.
    let mut receiver = DoubleRatchet::new(&root, false);
    for i in [0usize, 1, 3, 2] {
        let key = receiver.next_recv_key(0, i as u64).expect("key");
        assert_eq!(key.bytes, expected_keys[i]);
    }
    assert!(receiver.next_recv_key(0, 2).is_none());
}

#[test]
fn test_ratchet_epoch_rotation() {
    let root = [0x33u8; 32];
    let mut ratchet = DoubleRatchet::new_with_limits(&root, true, 5, HOUR);

    let mut pre_epoch_keys: Vec<[u8; 32]> =
        (0..5).map(|_| ratchet.next_send_key().bytes).collect();
    assert_eq!(ratchet.packets_in_epoch(), 5);
    assert!(ratchet.should_ratchet(), "should need ratchet after limit");

    let root_before = *ratchet.root_key();
    let step = ratchet.advance_send_ratchet();
    assert_eq!(step.epoch, 1);
    assert_eq!(ratchet.send_epoch(), 1);
    assert_eq!(ratchet.packets_in_epoch(), 0);
    assert_ne!(*ratchet.root_key(), root_before, "root key must change after ratchet step");

    let post_epoch_keys: Vec<[u8; 32]> =
        (0..5).map(|_| ratchet.next_send_key().bytes).collect();
    for pk in &pre_epoch_keys {
        for ak in &post_epoch_keys {
            assert_ne!(pk, ak, "pre/post epoch keys must not collide");
        }
    }
    for k in pre_epoch_keys.iter_mut() {
        k.zeroize();
    }
}

#[test]
fn test_ratchet_zeroize_on_drop() {
    let root = [0x44u8; 32];
    {
        let mut r = DoubleRatchet::new(&root, true);
        let _k1 = r.next_send_key();
        let _k2 = r.next_send_key();
    }
    let r2 = DoubleRatchet::new(&root, true);
    drop(r2);
}

#[test]
fn test_dh_ratchet_step_round_trip() {
    let root = [0x55u8; 32];
    let mut alice = DoubleRatchet::new(&root, true);
    let mut bob = DoubleRatchet::new(&root, false);

    let step = alice.advance_send_ratchet();
    assert_eq!(step.epoch, 1);
    bob.apply_peer_ratchet_step(&step);
    assert_eq!(bob.recv_epoch(), 1);
    assert_ne!(*alice.root_key(), root);
    assert_ne!(*bob.root_key(), root);
}

#[test]
fn test_ratchet_step_determinism() {
    let ck = [0xABu8; 32];
    let (new_ck1, mk1) = ratchet_step(&ck);
    let (new_ck2, mk2) = ratchet_step(&ck);
    assert_eq!(new_ck1, new_ck2, "chain key derivation must be deterministic");
    assert_eq!(mk1, mk2, "message key derivation must be deterministic");
    assert_ne!(new_ck1, mk1, "chain key and message key must differ");
}

#[test]
fn test_send_keys_unique() {
    let root = [0x77u8; 32];
    let mut r = DoubleRatchet::new(&root, true);
    let mut seen = std::collections::HashSet::new();
    for _ in 0..200 {
        let k = r.next_send_key().bytes;
        assert!(seen.insert(k), "duplicate message key detected");
    }
}

#[test]
fn test_skip_window_bounded() {
    let root = [0x88u8; 32];
    let mut r = DoubleRatchet::new(&root, true);
    for i in 0..(MAX_SKIP + 10) as u64 {
        let _ = r.next_recv_key_at(0, 40 * (i + 1), 0);
        assert!(r.skipped_keys() <= MAX_SKIP, "skip window must not exceed MAX_SKIP");
    }
    assert_eq!(r.skipped_keys(), MAX_SKIP);
}

#[test]
fn packets_too_far_ahead_get_no_key() {
    let mut r = DoubleRatchet::new(&[1u8; 32], false);
    assert!(r.next_recv_key(0, MAX_SKIP as u64 + 1).is_none());
    assert!(r.next_recv_key(0, MAX_SKIP as u64).is_some());
    assert!(r.next_recv_key(7, 0).is_none());
}

#[test]
fn kept_keys_expire() {
    let mut sender = DoubleRatchet::new(&[2u8; 32], true);
    let first = sender.next_send_key().bytes;
    let mut r = DoubleRatchet::new(&[2u8; 32], false);
    assert!(r.next_recv_key_at(0, 2, 100).is_some());
    assert_eq!(r.next_recv_key_at(0, 0, 99 + SKIP_KEY_TTL).unwrap().bytes, first);
    assert!(r.next_recv_key_at(0, 1, 100 + SKIP_KEY_TTL).is_none());
}

#[test]
fn time_calls_for_a_step_too() {
    let r = DoubleRatchet::new_with_limits(&[3u8; 32], true, 10, 1000);
    assert!(!r.should_ratchet_at(0));
    assert!(r.should_ratchet_at(u64::MAX));
    assert_eq!((r.epoch_packet_limit(), r.epoch_time_limit()), (10, 1000));
}

#[test]
fn steps_survive_the_wire() {
    let step = RatchetStep { new_ephemeral_public: [9u8; 32], epoch: 0x0102_0304_0506_0708 };
    let wire = step.encode();
    assert_eq!(wire.len(), 40);
    let back = RatchetStep::decode(&wire).unwrap();
    assert_eq!((back.new_ephemeral_public, back.epoch), (step.new_ephemeral_public, step.epoch));
    assert!(RatchetStep::decode(&wire[..39]).is_none());
}

#[test]
fn secrets_are_clamped() {
    let c = clamp([0xFFu8; 32]);
    assert_eq!((c[0], c[31], c[1]), (248, 127, 255));
    assert_eq!(clamp([0u8; 32])[31], 64);
}

#[test]
fn keys_come_in_any_order() {
    let root = [0x5au8; 32];
    let mut sender = DoubleRatchet::new(&root, true);
    let keys: Vec<[u8; 32]> = (0..60).map(|_| sender.next_send_key().bytes).collect();
    let mut receiver = DoubleRatchet::new(&root, false);
    // Overtaking happens while keys of earlier packets are still kept.
    let order = [5u64, 2, 20, 0, 19, 6, 50, 49, 1, 3, 59, 4, 18];
    for (n, &i) in order.iter().enumerate() {
        let now = n as u64;
        let key = receiver.next_recv_key_at(0, i, now).unwrap();
        assert_eq!(key.bytes, keys[i as usize]);
        assert!(receiver.next_recv_key_at(0, i, now).is_none());
    }
    assert!(receiver.next_recv_key_at(0, 60 + MAX_SKIP as u64 + 1, 99).is_none());
    assert!(receiver.next_recv_key_at(1, 7, 99).is_none());
    assert_eq!(receiver.next_recv_key_at(0, 7, 99).unwrap().bytes, keys[7]);
}
