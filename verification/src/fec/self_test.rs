//! A check of the codec on known payloads, for the field.

use vstd::prelude::*;
use vstd::string::*;
use crate::bytes;
use crate::fec::codec;
use crate::fec::codec::{FecDecoder, FecEncoder, FecRepairData};
use crate::text;

verus! {

/// Byte `j` of payload `i`.
pub open spec fn sample_byte(i: u8, j: int) -> u8 {
    ((i + j) % 256) as u8
}

/// A known payload.
pub open spec fn sample(i: u8) -> Seq<u8> {
    Seq::new(64, |j: int| sample_byte(i, j))
}

fn sample_payload(i: u8) -> (out: Vec<u8>)
    requires
        i < 4,
    ensures
        out@ == sample(i),
{
    let mut out: Vec<u8> = Vec::new();
    for j in 0..64u8
        invariant
            i < 4,
            out@ == sample(i).take(j as int),
    {
        out.push(i + j);
        assert(out@ =~= sample(i).take(j + 1));
    }
    assert(sample(i).take(64) =~= sample(i));
    out
}

/// What the encoder holds when the known payloads are in.
spec fn samples() -> codec::EncoderState {
    codec::EncoderState {
        group_id: 42,
        k: 4,
        r: 2,
        payloads: seq![sample(0), sample(1), sample(2), sample(3)],
    }
}

proof fn lemma_samples()
    ensures
        codec::widest(samples().payloads) == 64,
{
    reveal_with_fuel(codec::widest, 5);
    let p = samples().payloads;
    assert(p.drop_last() =~= seq![sample(0), sample(1), sample(2)]);
    assert(p.drop_last().drop_last() =~= seq![sample(0), sample(1)]);
    assert(p.drop_last().drop_last().drop_last() =~= seq![sample(0)]);
    assert(p.drop_last().drop_last().drop_last().drop_last() =~= Seq::<Seq<u8>>::empty());
}

/// How many sources of a group of four have come.
proof fn lemma_counts(g: codec::GroupModel)
    requires
        codec::faithful(g, samples()),
    ensures
        codec::ascending(g.sources.dom(), 256) == codec::ascending(g.sources.dom(), 4),
        codec::ascending(g.repairs.dom(), 256) == codec::ascending(g.repairs.dom(), 2),
{
    codec::lemma_ascending_bounded(g.sources.dom(), 4, 256);
    codec::lemma_ascending_bounded(g.repairs.dom(), 2, 256);
}

/// A group with fewer symbols than sources recovers nothing.
proof fn lemma_waits(g: codec::GroupModel)
    requires
        codec::faithful(g, samples()),
        !g.recovered,
        codec::ascending(g.sources.dom(), 4).len() < 4,
        codec::ascending(g.repairs.dom(), 2).len() == 0,
    ensures
        g.attempted() == g,
        g.recovery() is None,
{
    lemma_counts(g);
    codec::law_lost_payloads_recovered(g, samples());
}

/// The group after sources 0, 2 and 3.
spec fn three_come(g0: codec::GroupModel) -> codec::GroupModel {
    g0.with_source(0, sample(0)).with_source(2, sample(2)).with_source(3, sample(3))
}

proof fn lemma_three_come(g: codec::GroupModel)
    requires
        g == codec::GroupModel::opened(4, 2, 64),
    ensures
        ({
            let g1 = g.with_source(0, sample(0));
            let g2 = g1.with_source(2, sample(2));
            let g3 = g2.with_source(3, sample(3));
            &&& g1.attempted() == g1
            &&& g2.attempted() == g2
            &&& g3.attempted() == g3
            &&& codec::faithful(g3, samples())
            &&& !g3.recovered
            &&& codec::ascending(g3.sources.dom(), 4) == seq![0u8, 2, 3]
            &&& g3.repairs == Map::<u8, Seq<u8>>::empty()
        }),
{
    lemma_samples();
    reveal_with_fuel(codec::ascending, 5);
    let e = samples();
    let g1 = g.with_source(0, sample(0));
    let g2 = g1.with_source(2, sample(2));
    let g3 = g2.with_source(3, sample(3));
    codec::law_opened_faithful(e, 64);
    codec::law_source_keeps_faithful(g, e, 0);
    codec::law_source_keeps_faithful(g1, e, 2);
    codec::law_source_keeps_faithful(g2, e, 3);
    assert(codec::ascending(g1.sources.dom(), 4) =~= seq![0u8]);
    assert(codec::ascending(g2.sources.dom(), 4) =~= seq![0u8, 2]);
    assert(codec::ascending(g3.sources.dom(), 4) =~= seq![0u8, 2, 3]);
    assert(codec::ascending(g1.repairs.dom(), 2) =~= Seq::<u8>::empty());
    lemma_waits(g1);
    lemma_waits(g2);
    lemma_waits(g3);
}

proof fn lemma_one_recovered(g: codec::GroupModel, rep: FecRepairData)
    requires
        codec::faithful(g, samples()),
        !g.recovered,
        codec::ascending(g.sources.dom(), 4) == seq![0u8, 2, 3],
        !g.sources.contains_key(1),
        g.sources.contains_key(0),
        g.sources.contains_key(2),
        g.sources.contains_key(3),
        g.repairs == Map::<u8, Seq<u8>>::empty(),
        codec::is_repair(rep, samples(), 0),
    ensures
        g.with_repair(rep.repair_idx, rep.padded_len as nat, rep.data@).recovery() == Some(
            seq![(1u8, sample(1))],
        ),
{
    lemma_samples();
    reveal_with_fuel(codec::ascending, 5);
    let e = samples();
    let h = g.with_repair(rep.repair_idx, rep.padded_len as nat, rep.data@);
    codec::law_repair_keeps_faithful(g, e, rep);
    codec::law_encodable_usable(0, 4, 2);
    assert(h.repairs.dom() =~= set![0u8]);
    assert(codec::ascending(h.repairs.dom(), 2) =~= seq![0u8]);
    assert(h.sources == g.sources);
    lemma_counts(h);
    codec::law_lost_payloads_recovered(h, e);
    assert(h.missing() =~= seq![1u8]);
    assert(codec::padded(e.payloads[1], 64) =~= sample(1));
    assert(h.recovery()->0 =~= seq![(1u8, sample(1))]);
}

/// Encodes four known payloads, loses one of them, and recovers it from a repair symbol.
pub fn self_test() -> (out: Result<(), String>)
    ensures
        out is Ok,
{
    let s0: Vec<u8> = sample_payload(0);
    let s1: Vec<u8> = sample_payload(1);
    let s2: Vec<u8> = sample_payload(2);
    let s3: Vec<u8> = sample_payload(3);
    let mut enc = FecEncoder::new(42, 4, 2);
    let _ = enc.push_source(&s0);
    let _ = enc.push_source(&s1);
    let _ = enc.push_source(&s2);
    let ghost before = enc@;
    let repairs: Vec<FecRepairData> = match enc.push_source(&s3) {
        Some(r) => r,
        None => {
            return Err(text::owned("FEC encoder produced no repairs"));
        },
    };
    proof {
        assert(codec::pushed(before, s3@).payloads =~= samples().payloads);
        assert(codec::is_repair(repairs@[0], samples(), 0));
    }
    if repairs.len() != 2 {
        return Err(text::owned("wrong number of repair symbols"));
    }
    let mut dec = FecDecoder::new();
    let gid: u32 = repairs[0].group_id;
    proof {
        lemma_three_come(codec::GroupModel::opened(4, 2, 64));
    }
    let _ = dec.add_source(gid, 0, 4, 2, &s0);
    let _ = dec.add_source(gid, 2, 4, 2, &s2);
    let _ = dec.add_source(gid, 3, 4, 2, &s3);
    proof {
        let g = codec::GroupModel::opened(4, 2, 64);
        let g3 = three_come(g);
        assert(dec@[gid] == g3);
        lemma_one_recovered(g3, repairs@[0]);
    }
    let recovered: Vec<(u8, Vec<u8>)> = match dec.add_repair(&repairs[0]) {
        Some(r) => r,
        None => {
            return Err(text::owned("FEC decoder failed to recover lost shard"));
        },
    };
    proof {
        let h = codec::handed_out(Some(recovered))->0;
        assert(h == seq![(1u8, sample(1))]);
        assert(h.len() == 1);
        assert(h[0] == (recovered@[0].0, recovered@[0].1@));
    }
    if recovered.len() != 1 {
        return Err(text::owned("wrong number of recovered shards"));
    }
    if recovered[0].0 != 1 {
        return Err(text::owned("recovered wrong shard index"));
    }
    if !bytes::same(&recovered[0].1, &s1) {
        return Err(text::owned("recovered shard 1 content mismatch"));
    }
    Ok(())
}

} // verus!
