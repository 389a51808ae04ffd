use std::collections::HashMap;

use seam_protocol::fec::arbiter::LossBand;
use seam_protocol::fec::codec::parse_source_envelope;
use seam_protocol::fec::gf::{add, div, inv, invert_matrix, mul, mul_add_slice};
use seam_protocol::fec::{ArbiterMode, FecArbiter, FecDecoder, FecEncoder, FecRepairData};

fn payload(seed: u8, len: usize) -> Vec<u8> {
    (0..len).map(|i| seed.wrapping_add(i as u8)).collect()
}

fn encode_group(k: u8, r: u8, len: usize) -> (Vec<Vec<u8>>, Vec<FecRepairData>) {
    let mut enc = FecEncoder::new(1, k, r);
    let sources: Vec<Vec<u8>> = (0..k).map(|i| payload(i * 7, len)).collect();
    let mut repairs = None;
    for src in &sources {
        repairs = enc.push_source(src);
    }
    (sources, repairs.unwrap())
}

#[test]
fn test_no_loss() {
    let (_, repairs) = encode_group(4, 2, 100);
    assert_eq!(repairs.len(), 2);
}

#[test]
fn test_single_loss_recovery() {
    let k = 4u8;
    let r = 2u8;
    let (sources, repairs) = encode_group(k, r, 80);
    let mut dec = FecDecoder::new();
    for (i, src) in sources.iter().enumerate() {
        if i == 2 {
            continue;
        }
        dec.add_source(1, i as u8, k, r, src);
    }
    let recovered = dec.add_repair(&repairs[0]).expect("should recover");
    assert_eq!(recovered.len(), 1);
    let (idx, data) = &recovered[0];
    assert_eq!(*idx, 2);
    assert_eq!(&data[..sources[2].len()], sources[2].as_slice());
}

#[test]
fn test_double_loss_recovery() {
    let k = 6u8;
    let r = 3u8;
    let (sources, repairs) = encode_group(k, r, 64);
    let mut dec = FecDecoder::new();
    let gid = repairs[0].group_id;
    for (i, src) in sources.iter().enumerate() {
        if i == 1 || i == 4 {
            continue;
        }
        dec.add_source(gid, i as u8, k, r, src);
    }
    dec.add_repair(&repairs[0]);
    let recovered = dec.add_repair(&repairs[1]).expect("should recover");
    assert_eq!(recovered.len(), 2);
    let rec_map: HashMap<u8, Vec<u8>> = recovered.into_iter().collect();
    assert_eq!(&rec_map[&1][..sources[1].len()], sources[1].as_slice());
    assert_eq!(&rec_map[&4][..sources[4].len()], sources[4].as_slice());
}

#[test]
fn test_partial_group_flush() {
    let mut enc = FecEncoder::new(0, 8, 2);
    for i in 0..3u8 {
        enc.push_source(&payload(i * 5, 50));
    }
    let repairs = enc.flush().expect("flush produces repairs");
    assert_eq!(repairs.len(), 2);
    assert_eq!(repairs[0].k, 3);
}

#[test]
fn test_repair_round_trip_serialization() {
    let (_, repairs) = encode_group(4, 2, 32);
    let bytes = repairs[0].to_bytes();
    let parsed = FecRepairData::from_bytes(&bytes).unwrap();
    assert_eq!(parsed.repair_idx, 0);
    assert_eq!(parsed.k, 4);
    assert_eq!(parsed.r, 2);
    assert_eq!(parsed.data, repairs[0].data);
}

#[test]
fn any_two_losses_of_unequal_payloads_are_recovered() {
    let k = 5u8;
    let r = 2u8;
    let sources: Vec<Vec<u8>> = (0..k).map(|i| payload(i * 13 + 1, 10 + 7 * i as usize)).collect();
    let mut enc = FecEncoder::new(9, k, r);
    let mut repairs = None;
    for src in &sources {
        repairs = enc.push_source(src);
    }
    let repairs = repairs.unwrap();
    for a in 0..k {
        for b in (a + 1)..k {
            let mut dec = FecDecoder::new();
            let mut got = None;
            for i in 0..k {
                if i != a && i != b {
                    got = got.or(dec.add_source(9, i, k, r, &sources[i as usize]));
                }
            }
            for repair in &repairs {
                got = got.or(dec.add_repair(repair));
            }
            let map: HashMap<u8, Vec<u8>> = got.expect("recovered").into_iter().collect();
            assert_eq!(map.len(), 2);
            for i in [a, b] {
                let want = &sources[i as usize];
                assert_eq!(&map[&i][..want.len()], want.as_slice());
                assert!(map[&i][want.len()..].iter().all(|x| *x == 0));
            }
        }
    }
}

#[test]
fn hostile_repairs_are_harmless() {
    let mut dec = FecDecoder::new();
    for k in [0u8, 1, 255] {
        for idx in [0u8, 3, 255] {
            let repair = FecRepairData {
                group_id: 5,
                repair_idx: idx,
                k,
                r: 255,
                padded_len: 3,
                data: vec![1, 2, 3],
            };
            let _ = dec.add_repair(&repair);
            let _ = dec.add_source(5, idx, k, 255, &[7, 7]);
        }
    }
    assert!(FecRepairData::from_bytes(&[0u8; 8]).is_none());
    assert!(FecRepairData::from_bytes(&[0, 0, 0, 1, 0, 4, 2, 0xFF, 0xFF]).is_none());
}

#[test]
fn envelopes_are_read_back() {
    let mut enc = FecEncoder::new(0x0102_0304, 8, 2);
    enc.push_source(b"first");
    let hdr = enc.source_envelope();
    let mut wire = hdr.to_vec();
    wire.extend_from_slice(b"second");
    let (gid, idx, k, r, data) = parse_source_envelope(&wire).unwrap();
    assert_eq!((gid, idx, k, r, data), (0x0102_0304, 1, 8, 2, &b"second"[..]));
    assert!(parse_source_envelope(&wire[..hdr.len() - 1]).is_none());
}

#[test]
fn forgotten_groups_start_anew() {
    let (sources, repairs) = encode_group(2, 1, 8);
    let mut dec = FecDecoder::new();
    dec.add_source(1, 0, 2, 1, &sources[0]);
    dec.cleanup_group(1);
    assert!(dec.add_repair(&repairs[0]).is_none());
    assert!(dec.add_source(1, 0, 2, 1, &sources[0]).is_some());
}

#[test]
fn test_mul_inverse() {
    for a in 1u8..=255 {
        assert_eq!(mul(a, inv(a)), 1, "a={a}");
    }
}

#[test]
fn test_mul_commutative() {
    assert_eq!(mul(3, 7), mul(7, 3));
}

#[test]
fn test_identity() {
    for a in 0u8..=255 {
        assert_eq!(mul(a, 1), a);
        assert_eq!(add(a, a), 0);
    }
}

#[test]
fn field_values() {
    assert_eq!(mul(3, 7), 9);
    assert_eq!(mul(0x80, 2), 0x1D);
    assert_eq!(mul(0, 200), 0);
    for a in 1u8..=255 {
        assert_eq!(div(mul(a, 77), 77), a);
    }
    let mut dst = [1u8, 2, 3];
    mul_add_slice(&mut dst, &[4, 5, 6], 3);
    assert_eq!(dst, [1 ^ mul(4, 3), 2 ^ mul(5, 3), 3 ^ mul(6, 3)]);
}

#[test]
fn matrices_are_inverted() {
    let mut m = vec![vec![1u8, 2], vec![3, 4]];
    let before = m.clone();
    assert!(invert_matrix(&mut m, 2));
    for i in 0..2 {
        for j in 0..2 {
            let x = mul(before[i][0], m[0][j]) ^ mul(before[i][1], m[1][j]);
            assert_eq!(x, (i == j) as u8);
        }
    }
    let mut singular = vec![vec![1u8, 2], vec![1, 2]];
    assert!(!invert_matrix(&mut singular, 2));
}

/// A link whose loss rate is smoothed and classified.
struct Link {
    loss: f32,
    arbiter: FecArbiter,
}

impl Link {
    fn new() -> Self {
        Link { loss: 0.0, arbiter: FecArbiter::new() }
    }

    fn on_ack_epoch(&mut self, lost: u64, total: u64, rtt_us: u64) {
        let sample = if total == 0 { 0.0 } else { lost as f32 / total as f32 };
        self.loss = if self.loss == 0.0 {
            sample
        } else {
            let alpha = if sample > self.loss * 2.0 { 0.5 } else { 0.125 };
            (1.0 - alpha) * self.loss + alpha * sample
        };
        let band = if self.loss < 0.005 {
            LossBand::Clean
        } else if self.loss <= 0.15 {
            LossBand::Moderate { steps: ((self.loss - 0.005) / (0.15 - 0.005) * 2.0) as u8 }
        } else {
            LossBand::High
        };
        self.arbiter.on_ack_epoch(band, rtt_us);
    }
}

#[test]
fn test_stays_arq_on_clean_link() {
    let mut a = Link::new();
    for _ in 0..10 {
        a.on_ack_epoch(0, 100, 10_000);
    }
    assert_eq!(a.arbiter.mode, ArbiterMode::PureArq);
}

#[test]
fn test_switches_to_hybrid_on_moderate_loss() {
    let mut a = Link::new();
    for _ in 0..20 {
        a.on_ack_epoch(5, 100, 50_000);
    }
    assert!(matches!(a.arbiter.mode, ArbiterMode::HybridFecArq { .. }));
}

#[test]
fn test_switches_to_pure_fec_on_high_loss() {
    let mut a = Link::new();
    for _ in 0..30 {
        a.on_ack_epoch(20, 100, 100_000);
    }
    assert!(matches!(a.arbiter.mode, ArbiterMode::PureFec { .. }));
}

#[test]
fn test_recovers_to_arq_after_loss_clears() {
    let mut a = Link::new();
    for _ in 0..30 {
        a.on_ack_epoch(20, 100, 50_000);
    }
    assert!(matches!(a.arbiter.mode, ArbiterMode::PureFec { .. }));
    for _ in 0..60 {
        a.on_ack_epoch(0, 100, 50_000);
    }
    assert_eq!(a.arbiter.mode, ArbiterMode::PureArq);
}

#[test]
fn test_high_latency_clean_link_uses_light_fec() {
    let mut a = Link::new();
    for _ in 0..10 {
        a.on_ack_epoch(0, 100, 150_000);
    }
    assert!(
        matches!(a.arbiter.mode, ArbiterMode::HybridFecArq { k: 10, r: 1 }),
        "expected HybridFecArq(k=10,r=1) on high-latency clean link, got {:?}",
        a.arbiter.mode
    );
}

#[test]
fn the_latency_limit_itself_is_not_high() {
    let mut a = Link::new();
    a.on_ack_epoch(0, 100, 100_000);
    assert_eq!(a.arbiter.mode, ArbiterMode::PureArq);
    a.on_ack_epoch(0, 100, 100_001);
    assert_eq!(a.arbiter.mode, ArbiterMode::HybridFecArq { k: 10, r: 1 });
}

#[test]
fn test_ewma_spikes_fast_recover_slow() {
    let mut a = Link::new();
    for _ in 0..10 {
        a.on_ack_epoch(0, 100, 10_000);
    }
    assert_eq!(a.arbiter.mode, ArbiterMode::PureArq);
    a.on_ack_epoch(20, 100, 10_000);
    assert!(
        matches!(a.arbiter.mode, ArbiterMode::HybridFecArq { .. } | ArbiterMode::PureFec { .. }),
        "spike should trigger FEC immediately, got {:?}",
        a.arbiter.mode
    );
}

#[test]
fn repair_counts_scale_with_the_group() {
    let mut a = FecArbiter::new();
    assert_eq!(a.repair_count(8), 0);
    assert!(!a.mode.uses_fec());
    a.on_ack_epoch(LossBand::Moderate { steps: 2 }, 1);
    assert_eq!(a.mode, ArbiterMode::HybridFecArq { k: 8, r: 3 });
    for s in 0u8..=10 {
        let want = if s >= 8 { 3 } else { (s as f32 / 8.0 * 3.0) as u8 };
        assert_eq!(a.repair_count(s), want);
    }
    // The class is the same, so the mode is kept.
    a.on_ack_epoch(LossBand::Moderate { steps: 0 }, 1);
    assert_eq!(a.mode, ArbiterMode::HybridFecArq { k: 8, r: 3 });
    a.on_ack_epoch(LossBand::High, 1);
    assert_eq!((a.repair_count(8), a.repair_count(5)), (4, 2));
    assert!(a.mode.uses_fec());
    assert_eq!(FecArbiter::default().mode, ArbiterMode::PureArq);
}
