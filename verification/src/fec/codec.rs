//! Systematic Reed-Solomon codec over GF(2^8).
//!
//! A group of `k` source symbols is followed by `r` repair symbols. Repair symbol `i` is the sum
//! of the source symbols weighted by row `i` of a Cauchy matrix with the entries
//! `1 / (i ^ (r + j))`, so any `k` of the `k + r` symbols determine the sources.
//!
//! Repair symbol on the wire:
//! `group_id(4) | repair_idx(1) | k(1) | r(1) | padded_len(2) | data`, integers little-endian.
//!
//! Source envelope on the wire: `group_id(4) | source_idx(1) | k(1) | r(1)`, then the payload.

use std::collections::HashMap;
use vstd::prelude::*;
use vstd::slice::{slice_subrange, slice_to_vec};
use crate::bytes;
use crate::fec::cauchy;
use crate::fec::gf;
use crate::fec::linalg;

verus! {

/// Length of the envelope in front of a source payload.
pub const FEC_SOURCE_HDR: usize = 7;

/// Length of the header in front of the data of a repair symbol.
pub const FEC_REPAIR_HDR: usize = 9;

/// `s` cut or zero-filled to `len` bytes.
pub open spec fn padded(s: Seq<u8>, len: nat) -> Seq<u8> {
    Seq::new(
        len,
        |i: int|
            if i < s.len() {
                s[i]
            } else {
                0u8
            },
    )
}

/// The length of the longest payload.
pub open spec fn widest(payloads: Seq<Seq<u8>>) -> nat
    decreases payloads.len(),
{
    if payloads.len() == 0 {
        0
    } else {
        let rest = widest(payloads.drop_last());
        if payloads.last().len() > rest {
            payloads.last().len()
        } else {
            rest
        }
    }
}

/// The payloads of a group, zero-filled to the length of the longest.
pub open spec fn block_of(payloads: Seq<Seq<u8>>) -> Seq<Seq<u8>> {
    Seq::new(payloads.len(), |j: int| padded(payloads[j], widest(payloads)))
}

/// Byte `c` of every row.
pub open spec fn column(rows: Seq<Seq<u8>>, c: int) -> Seq<u8> {
    Seq::new(rows.len(), |j: int| rows[j][c])
}

/// The sum of the first `len` bytes of the rows, each row with its weight.
pub open spec fn blend(weights: Seq<u8>, rows: Seq<Seq<u8>>, len: nat) -> Seq<u8> {
    Seq::new(len, |c: int| linalg::dot(weights, column(rows, c), rows.len()))
}

/// The point of the Cauchy matrix that stands for source `j`.
pub open spec fn source_point(j: int, r: u8) -> u8 {
    ((r + j) % 256) as u8
}

/// The points of the first `k` sources.
pub open spec fn source_points(k: nat, r: u8) -> Seq<u8> {
    Seq::new(k, |j: int| source_point(j, r))
}

/// Row `i` of the Cauchy matrix.
pub open spec fn parity_row(i: u8, k: nat, r: u8) -> Seq<u8> {
    cauchy::reciprocals(i, source_points(k, r))
}

/// Repair symbol `i` of a block.
pub open spec fn parity(block: Seq<Seq<u8>>, i: u8, r: u8, len: nat) -> Seq<u8> {
    blend(parity_row(i, block.len(), r), block, len)
}

/// Index `i` names a row of the Cauchy matrix: it is not the point of a source.
pub open spec fn usable(i: u8, k: u8, r: u8) -> bool {
    forall|j: int| 0 <= j < k ==> #[trigger] source_point(j, r) != i
}

/// Entry of the Cauchy matrix.
fn cauchy(i: u8, j: u8, r: u8) -> (c: u8)
    requires
        i != source_point(j as int, r),
    ensures
        c == gf::gf_inv(i ^ source_point(j as int, r)),
{
    let point: u8 = r.wrapping_add(j);
    proof {
        assert(point == source_point(j as int, r));
        gf::lemma_xor(i, point, 0);
    }
    gf::inv(i ^ point)
}

/// The first `k` entries of row `i` of the Cauchy matrix.
fn cauchy_row(i: u8, k: u8, r: u8) -> (row: Vec<u8>)
    requires
        usable(i, k, r),
    ensures
        row@ == parity_row(i, k as nat, r),
{
    let mut row: Vec<u8> = Vec::with_capacity(k as usize);
    for j in 0..k
        invariant
            usable(i, k, r),
            row.len() == j,
            forall|t: int| 0 <= t < j ==> row[t] == parity_row(i, k as nat, r)[t],
    {
        assert(source_point(j as int, r) != i);
        row.push(cauchy(i, j, r));
    }
    assert(row@ =~= parity_row(i, k as nat, r));
    row
}

/// Copies a payload, cut or zero-filled to `len` bytes.
fn pad(data: &[u8], len: usize) -> (out: Vec<u8>)
    ensures
        out@ == padded(data@, len as nat),
{
    let mut out: Vec<u8> = slice_to_vec(data);
    out.resize(len, 0);
    proof {
        if len > data@.len() {
            assert(out@.subrange(0, data@.len() as int) == data@);
            assert forall|i: int| 0 <= i < data@.len() implies out@[i] == data@[i] by {
                assert(out@.subrange(0, data@.len() as int)[i] == out@[i]);
            }
        }
        assert(out@ =~= padded(data@, len as nat));
    }
    out
}

/// The weighted sum of rows of the same length.
fn weighted_sum(weights: &Vec<u8>, rows: &Vec<Vec<u8>>, len: usize) -> (out: Vec<u8>)
    requires
        weights.len() == rows.len(),
        linalg::shaped(linalg::table(rows@), rows@.len(), len as nat),
    ensures
        out@ == blend(weights@, linalg::table(rows@), len as nat),
{
    let ghost t = linalg::table(rows@);
    let k: usize = rows.len();
    let mut out: Vec<u8> = vec![0u8; len];
    let mut j: usize = 0;
    while j < k
        invariant
            j <= k,
            k == rows.len(),
            k == weights.len(),
            t == linalg::table(rows@),
            linalg::shaped(t, k as nat, len as nat),
            out.len() == len,
            forall|c: int| 0 <= c < len ==> out[c] == linalg::dot(weights@, column(t, c), j as nat),
        decreases k - j,
    {
        let ghost before = out@;
        assert(t[j as int].len() == len);
        assert(rows[j as int]@ == t[j as int]);
        gf::mul_add_slice(out.as_mut_slice(), rows[j].as_slice(), weights[j]);
        proof {
            assert forall|c: int| 0 <= c < len implies out[c] == linalg::dot(
                weights@,
                column(t, c),
                (j + 1) as nat,
            ) by {
                assert(out@[c] == before[c] ^ gf::gf_mul(weights@[j as int], t[j as int][c]));
                assert(column(t, c)[j as int] == t[j as int][c]);
            }
        }
        j = j + 1;
    }
    assert(out@ =~= blend(weights@, t, len as nat));
    out
}

/// A repair symbol.
pub struct FecRepairData {
    pub group_id: u32,
    pub repair_idx: u8,
    pub k: u8,
    pub r: u8,
    pub padded_len: u16,
    pub data: Vec<u8>,
}

impl FecRepairData {
    /// The wire form.
    pub open spec fn wire(&self) -> Seq<u8> {
        bytes::le32(self.group_id) + seq![self.repair_idx, self.k, self.r] + bytes::le16(
            self.padded_len,
        ) + self.data@
    }

    /// Serialises the symbol.
    pub fn to_bytes(&self) -> (out: Vec<u8>)
        ensures
            out@ == self.wire(),
    {
        let mut out: Vec<u8> = Vec::new();
        bytes::put_le32(&mut out, self.group_id);
        out.push(self.repair_idx);
        out.push(self.k);
        out.push(self.r);
        bytes::put_le16(&mut out, self.padded_len);
        bytes::append(&mut out, self.data.as_slice());
        assert(out@ =~= self.wire());
        out
    }

    /// Parses a symbol; bytes behind its data are ignored.
    pub fn from_bytes(buf: &[u8]) -> (out: Option<Self>)
        ensures
            match out {
                Some(rep) => {
                    &&& buf@.len() >= FEC_REPAIR_HDR + rep.padded_len
                    &&& rep.data@.len() == rep.padded_len
                    &&& rep.wire() == buf@.take(FEC_REPAIR_HDR + rep.padded_len)
                },
                None => buf@.len() < FEC_REPAIR_HDR || buf@.len() < FEC_REPAIR_HDR
                    + bytes::un_le16(buf@.subrange(7, 9)),
            },
    {
        if buf.len() < FEC_REPAIR_HDR {
            return None;
        }
        let group_id: u32 = bytes::get_le32(buf, 0);
        let padded_len: u16 = bytes::get_le16(buf, 7);
        let end: usize = FEC_REPAIR_HDR + padded_len as usize;
        if buf.len() < end {
            return None;
        }
        let rep = FecRepairData {
            group_id,
            repair_idx: buf[4],
            k: buf[5],
            r: buf[6],
            padded_len,
            data: bytes::piece(buf, FEC_REPAIR_HDR, end),
        };
        proof {
            bytes::law_le32_write_read(buf@.subrange(0, 4));
            bytes::law_le16_write_read(buf@.subrange(7, 9));
            assert(rep.wire() =~= buf@.take(end as int));
        }
        Some(rep)
    }
}

/// Parsing what was serialised gives every field back.
pub proof fn law_repair_round_trip(a: FecRepairData, b: FecRepairData)
    requires
        a.data@.len() == a.padded_len,
        b.data@.len() == b.padded_len,
        FEC_REPAIR_HDR + b.padded_len <= a.wire().len(),
        b.wire() == a.wire().take(FEC_REPAIR_HDR + b.padded_len),
    ensures
        b.group_id == a.group_id,
        b.repair_idx == a.repair_idx,
        b.k == a.k,
        b.r == a.r,
        b.padded_len == a.padded_len,
        b.data@ == a.data@,
{
    let x = a.wire();
    let y = b.wire();
    bytes::law_le32_read_write(a.group_id);
    bytes::law_le32_read_write(b.group_id);
    bytes::law_le16_read_write(a.padded_len);
    bytes::law_le16_read_write(b.padded_len);
    assert(x.subrange(0, 4) =~= bytes::le32(a.group_id));
    assert(y.subrange(0, 4) =~= bytes::le32(b.group_id));
    assert(x.subrange(0, 4) =~= y.subrange(0, 4));
    assert(x.subrange(7, 9) =~= bytes::le16(a.padded_len));
    assert(y.subrange(7, 9) =~= bytes::le16(b.padded_len));
    assert(x.subrange(7, 9) =~= y.subrange(7, 9));
    assert(x[4] == y[4] && x[5] == y[5] && x[6] == y[6]);
    assert(a.data@ =~= x.subrange(9, 9 + a.padded_len));
    assert(b.data@ =~= y.subrange(9, 9 + b.padded_len));
}

/// The envelope in front of a source payload.
pub open spec fn envelope(group_id: u32, source_idx: u8, k: u8, r: u8) -> Seq<u8> {
    bytes::le32(group_id) + seq![source_idx, k, r]
}

/// Splits a buffer into the fields of its source envelope and the payload behind it.
pub fn parse_source_envelope<'a>(buf: &'a [u8]) -> (out: Option<(u32, u8, u8, u8, &'a [u8])>)
    ensures
        match out {
            Some((group_id, source_idx, k, r, payload)) => buf@ == envelope(
                group_id,
                source_idx,
                k,
                r,
            ) + payload@,
            None => buf@.len() < FEC_SOURCE_HDR,
        },
{
    if buf.len() < FEC_SOURCE_HDR {
        return None;
    }
    let group_id: u32 = bytes::get_le32(buf, 0);
    let payload: &'a [u8] = slice_subrange(buf, FEC_SOURCE_HDR, buf.len());
    proof {
        bytes::law_le32_write_read(buf@.subrange(0, 4));
        assert(buf@ =~= envelope(group_id, buf@[4], buf@[5], buf@[6]) + payload@);
    }
    Some((group_id, buf[4], buf[5], buf[6], payload))
}

/// An envelope and a payload determine each other's fields.
pub proof fn law_envelope_unique(
    g1: u32,
    i1: u8,
    k1: u8,
    r1: u8,
    p1: Seq<u8>,
    g2: u32,
    i2: u8,
    k2: u8,
    r2: u8,
    p2: Seq<u8>,
)
    requires
        envelope(g1, i1, k1, r1) + p1 == envelope(g2, i2, k2, r2) + p2,
    ensures
        g1 == g2,
        i1 == i2,
        k1 == k2,
        r1 == r2,
        p1 == p2,
{
    let x = envelope(g1, i1, k1, r1) + p1;
    let y = envelope(g2, i2, k2, r2) + p2;
    bytes::law_le32_read_write(g1);
    bytes::law_le32_read_write(g2);
    assert(x.subrange(0, 4) =~= bytes::le32(g1));
    assert(y.subrange(0, 4) =~= bytes::le32(g2));
    assert(x[4] == i1 && x[5] == k1 && x[6] == r1);
    assert(y[4] == i2 && y[5] == k2 && y[6] == r2);
    assert(p1 =~= x.subrange(7, x.len() as int));
    assert(p2 =~= y.subrange(7, y.len() as int));
}

/// What an encoder holds: the payloads of the group under way.
pub struct EncoderState {
    pub group_id: u32,
    pub k: u8,
    pub r: u8,
    pub payloads: Seq<Seq<u8>>,
}

/// Every row of the group of `k` sources names a usable repair symbol.
pub open spec fn encodable(k: int, r: u8) -> bool {
    r == 0 || k + r <= 256
}

/// Repair symbol `i` of a finished group.
pub open spec fn is_repair(rep: FecRepairData, e: EncoderState, i: int) -> bool {
    let width = widest(e.payloads);
    &&& rep.group_id == e.group_id
    &&& rep.repair_idx == i
    &&& rep.k == e.payloads.len()
    &&& rep.r == e.r
    &&& rep.padded_len == width as u16
    &&& rep.data@ == parity(block_of(e.payloads), i as u8, e.r, width)
}

/// All repair symbols of a finished group, in order.
pub open spec fn are_repairs(reps: Seq<FecRepairData>, e: EncoderState) -> bool {
    &&& reps.len() == e.r
    &&& forall|i: int| 0 <= i < e.r ==> is_repair(#[trigger] reps[i], e, i)
}

/// The encoder with one more payload.
pub open spec fn pushed(e: EncoderState, payload: Seq<u8>) -> EncoderState {
    EncoderState { payloads: e.payloads.push(payload), ..e }
}

/// The encoder at the start of the next group.
pub open spec fn next_group(e: EncoderState) -> EncoderState {
    EncoderState {
        group_id: if e.group_id == u32::MAX {
            0
        } else {
            (e.group_id + 1) as u32
        },
        payloads: Seq::empty(),
        ..e
    }
}

/// The source payloads of a group in the making.
pub struct Gathered {
    sources: Vec<Vec<u8>>,
    padded_len: usize,
    source_idx: u8,
}

impl View for Gathered {
    type V = Seq<Seq<u8>>;

    closed spec fn view(&self) -> Seq<Seq<u8>> {
        linalg::table(self.sources@)
    }
}

impl Gathered {
    /// The counters agree with the payloads held.
    pub closed spec fn wf(&self) -> bool {
        &&& self.padded_len == widest(self@)
        &&& self.source_idx == self.sources@.len()
    }
}

/// Collects source payloads and turns each full group into repair symbols.
pub struct FecEncoder {
    pub group_id: u32,
    pub k: u8,
    pub r: u8,
    pub gathered: Gathered,
}

impl View for FecEncoder {
    type V = EncoderState;

    open spec fn view(&self) -> EncoderState {
        EncoderState {
            group_id: self.group_id,
            k: self.k,
            r: self.r,
            payloads: self.gathered@,
        }
    }
}

proof fn lemma_widest(payloads: Seq<Seq<u8>>, j: int)
    requires
        0 <= j < payloads.len(),
    ensures
        payloads[j].len() <= widest(payloads),
    decreases payloads.len(),
{
    if j < payloads.len() - 1 {
        lemma_widest(payloads.drop_last(), j);
        assert(payloads.drop_last()[j] == payloads[j]);
    }
}

/// Small groups have a usable repair symbol at every index below `r`.
pub proof fn law_encodable_usable(i: u8, k: u8, r: u8)
    requires
        k + r <= 256,
        i < r,
    ensures
        usable(i, k, r),
{
    assert forall|j: int| 0 <= j < k implies #[trigger] source_point(j, r) != i by {
        assert((r + j) % 256 == r + j);
    }
}

impl FecEncoder {
    /// The counters agree with the payloads held.
    pub open spec fn wf(&self) -> bool {
        self.gathered.wf()
    }

    /// An encoder with no payload yet.
    pub fn new(group_id: u32, k: u8, r: u8) -> (e: Self)
        ensures
            e.wf(),
            e@ == (EncoderState { group_id, k, r, payloads: Seq::empty() }),
    {
        let e = FecEncoder {
            group_id,
            k,
            r,
            gathered: Gathered { sources: Vec::new(), padded_len: 0, source_idx: 0 },
        };
        assert(e@.payloads =~= Seq::empty());
        e
    }

    /// The envelope for the next source payload.
    pub fn source_envelope(&self) -> (hdr: [u8; FEC_SOURCE_HDR])
        requires
            self.wf(),
        ensures
            hdr@ == envelope(self@.group_id, self@.payloads.len() as u8, self@.k, self@.r),
    {
        let id: u32 = self.group_id;
        let hdr: [u8; FEC_SOURCE_HDR] = [
            id as u8,
            (id >> 8) as u8,
            (id >> 16) as u8,
            (id >> 24) as u8,
            self.gathered.source_idx,
            self.k,
            self.r,
        ];
        assert(hdr@ =~= envelope(self@.group_id, self@.payloads.len() as u8, self@.k, self@.r));
        hdr
    }

    /// Adds a source payload. Returns the repair symbols of the group once it is full.
    pub fn push_source(&mut self, payload: &[u8]) -> (out: Option<Vec<FecRepairData>>)
        requires
            old(self).wf(),
            old(self)@.payloads.len() < 255,
            old(self)@.payloads.len() + 1 == old(self)@.k ==> encodable(
                old(self)@.k as int,
                old(self)@.r,
            ),
        ensures
            final(self).wf(),
            out is Some <==> old(self)@.payloads.len() + 1 == old(self)@.k,
            match out {
                Some(reps) => are_repairs(reps@, pushed(old(self)@, payload@)) && final(self)@
                    == next_group(old(self)@),
                None => final(self)@ == pushed(old(self)@, payload@),
            },
    {
        if payload.len() > self.gathered.padded_len {
            self.gathered.padded_len = payload.len();
        }
        self.gathered.sources.push(slice_to_vec(payload));
        self.gathered.source_idx = self.gathered.source_idx + 1;
        proof {
            assert(self@.payloads =~= old(self)@.payloads.push(payload@));
            assert(self@.payloads.drop_last() =~= old(self)@.payloads);
            assert(self@ == pushed(old(self)@, payload@));
        }
        if self.gathered.sources.len() == self.k as usize {
            Some(self.emit_repairs())
        } else {
            None
        }
    }

    /// Closes a group early. Returns its repair symbols, or nothing if it is empty.
    pub fn flush(&mut self) -> (out: Option<Vec<FecRepairData>>)
        requires
            old(self).wf(),
            encodable(old(self)@.payloads.len() as int, old(self)@.r),
        ensures
            final(self).wf(),
            out is Some <==> old(self)@.payloads.len() > 0,
            match out {
                Some(reps) => are_repairs(reps@, old(self)@) && final(self)@ == next_group(
                    old(self)@,
                ),
                None => final(self)@ == old(self)@,
            },
    {
        if self.gathered.sources.len() == 0 {
            return None;
        }
        Some(self.emit_repairs())
    }

    fn emit_repairs(&mut self) -> (repairs: Vec<FecRepairData>)
        requires
            old(self).wf(),
            encodable(old(self)@.payloads.len() as int, old(self)@.r),
        ensures
            final(self).wf(),
            are_repairs(repairs@, old(self)@),
            final(self)@ == next_group(old(self)@),
    {
        let ghost e = self@;
        let len: usize = self.gathered.padded_len;
        let k: u8 = self.gathered.source_idx;
        let r: u8 = self.r;
        let ghost block = block_of(e.payloads);
        let mut rows: Vec<Vec<u8>> = Vec::with_capacity(k as usize);
        for j in 0..k
            invariant
                e == self@,
                self.wf(),
                k == self.gathered.sources@.len(),
                len == widest(e.payloads),
                rows.len() == j,
                block == block_of(e.payloads),
                forall|t: int| 0 <= t < j ==> (#[trigger] rows[t])@ == block[t],
        {
            let row: Vec<u8> = pad(self.gathered.sources[j as usize].as_slice(), len);
            assert(row@ == block[j as int]);
            rows.push(row);
        }
        assert(linalg::table(rows@) =~= block);
        let mut repairs: Vec<FecRepairData> = Vec::with_capacity(r as usize);
        for i in 0..r
            invariant
                e == self@,
                k == e.payloads.len(),
                r == e.r,
                len == widest(e.payloads),
                encodable(k as int, r),
                block == block_of(e.payloads),
                linalg::table(rows@) == block,
                rows.len() == k,
                repairs.len() == i,
                forall|t: int| 0 <= t < i ==> is_repair(#[trigger] repairs[t], e, t),
        {
            proof {
                law_encodable_usable(i, k, r);
            }
            let weights: Vec<u8> = cauchy_row(i, k, r);
            let data: Vec<u8> = weighted_sum(&weights, &rows, len);
            repairs.push(
                FecRepairData {
                    group_id: self.group_id,
                    repair_idx: i,
                    k,
                    r,
                    padded_len: len as u16,
                    data,
                },
            );
        }
        self.group_id = self.group_id.wrapping_add(1);
        self.gathered.sources = Vec::new();
        self.gathered.padded_len = 0;
        self.gathered.source_idx = 0;
        assert(self@.payloads =~= Seq::empty());
        repairs
    }
}

/// The members of `s` below `n`, ascending.
pub open spec fn ascending(s: Set<u8>, n: nat) -> Seq<u8>
    decreases n,
{
    if n == 0 {
        Seq::empty()
    } else {
        let rest = ascending(s, (n - 1) as nat);
        if s.contains((n - 1) as u8) {
            rest.push((n - 1) as u8)
        } else {
            rest
        }
    }
}

/// What a decoder holds of one group.
pub struct GroupModel {
    pub k: u8,
    pub r: u8,
    pub width: nat,
    pub sources: Map<u8, Seq<u8>>,
    pub repairs: Map<u8, Seq<u8>>,
    pub recovered: bool,
}

impl GroupModel {
    /// A group of which nothing has come yet.
    pub open spec fn opened(k: u8, r: u8, width: nat) -> GroupModel {
        GroupModel {
            k,
            r,
            width,
            sources: Map::empty(),
            repairs: Map::empty(),
            recovered: false,
        }
    }

    /// Only repair symbols that name a row of the Cauchy matrix are held.
    pub open spec fn sound(self) -> bool {
        forall|i: u8| #[trigger] self.repairs.contains_key(i) ==> usable(i, self.k, self.r)
    }

    /// The group widened to hold `len` bytes per symbol.
    pub open spec fn widened(self, len: nat) -> GroupModel {
        GroupModel {
            width: if len > self.width {
                len
            } else {
                self.width
            },
            ..self
        }
    }

    /// The group with one more source symbol.
    pub open spec fn with_source(self, i: u8, data: Seq<u8>) -> GroupModel {
        let g = self.widened(data.len());
        GroupModel { sources: g.sources.insert(i, padded(data, g.width)), ..g }
    }

    /// The group with one more repair symbol. One that names no row of the Cauchy matrix is
    /// dropped.
    pub open spec fn with_repair(self, i: u8, len: nat, data: Seq<u8>) -> GroupModel {
        let g = self.widened(len);
        if usable(i, g.k, g.r) {
            GroupModel { repairs: g.repairs.insert(i, padded(data, g.width)), ..g }
        } else {
            g
        }
    }

    /// The indices of the sources that have not come, ascending.
    pub open spec fn missing(self) -> Seq<u8> {
        ascending(self.sources.dom().complement(), self.k as nat)
    }

    /// As many distinct source symbols have come as the group has.
    pub open spec fn complete(self) -> bool {
        ascending(self.sources.dom(), 256).len() == self.k
    }

    /// The repair symbols that stand in for the missing sources: those with the lowest indices.
    pub open spec fn stand_ins(self) -> Seq<u8> {
        ascending(self.repairs.dom(), 256).take(self.missing().len() as int)
    }

    /// Enough has come to fill the gaps.
    pub open spec fn recoverable(self) -> bool {
        !self.recovered && (self.complete() || ascending(self.repairs.dom(), 256).len()
            >= self.missing().len())
    }

    /// `block` agrees with every source that has come and with every repair symbol that stands
    /// in for a missing one.
    pub open spec fn completed_by(self, block: Seq<Seq<u8>>) -> bool {
        &&& linalg::shaped(block, self.k as nat, self.width)
        &&& forall|j: int|
            0 <= j < self.k && self.sources.contains_key(j as u8) ==> #[trigger] block[j] == padded(
                self.sources[j as u8],
                self.width,
            )
        &&& forall|t: int|
            0 <= t < self.missing().len() ==> parity(
                block,
                #[trigger] self.stand_ins()[t],
                self.r,
                self.width,
            ) == padded(self.repairs[self.stand_ins()[t]], self.width)
    }

    /// The sources of the group, as far as its symbols determine them.
    pub open spec fn completion(self) -> Seq<Seq<u8>> {
        choose|block: Seq<Seq<u8>>| self.completed_by(block)
    }

    /// What the decoder hands out at this point: the missing sources, once.
    pub open spec fn recovery(self) -> Option<Seq<(u8, Seq<u8>)>> {
        if !self.recoverable() {
            None
        } else if self.complete() {
            Some(Seq::empty())
        } else {
            Some(
                Seq::new(
                    self.missing().len(),
                    |t: int| (self.missing()[t], self.completion()[self.missing()[t] as int]),
                ),
            )
        }
    }

    /// The group after an attempt at recovery.
    pub open spec fn attempted(self) -> GroupModel {
        GroupModel { recovered: self.recovered || self.recoverable(), ..self }
    }
}

proof fn lemma_ascending(s: Set<u8>, n: nat)
    requires
        n <= 256,
    ensures
        ascending(s, n).len() <= n,
        forall|t: int|
            0 <= t < ascending(s, n).len() ==> #[trigger] ascending(s, n)[t] < n && s.contains(
                ascending(s, n)[t],
            ),
        forall|a: int, b: int|
            0 <= a < b < ascending(s, n).len() ==> ascending(s, n)[a] < ascending(s, n)[b],
        forall|i: u8|
            i < n && #[trigger] s.contains(i) ==> exists|t: int|
                0 <= t < ascending(s, n).len() && ascending(s, n)[t] == i,
    decreases n,
{
    if n > 0 {
        let m = (n - 1) as nat;
        lemma_ascending(s, m);
        let rest = ascending(s, m);
        let all = ascending(s, n);
        assert forall|i: u8| i < n && #[trigger] s.contains(i) implies exists|t: int|
            0 <= t < all.len() && all[t] == i by {
            if i < m {
                let t = choose|t: int| 0 <= t < rest.len() && rest[t] == i;
                assert(all[t] == i);
            } else {
                assert(all[all.len() - 1] == i);
            }
        }
    }
}

proof fn lemma_source_points(k: u8, r: u8)
    ensures
        cauchy::distinct(source_points(k as nat, r)),
{
    let ys = source_points(k as nat, r);
    assert forall|a: int, b: int| 0 <= a < b < ys.len() implies ys[a] != ys[b] by {
        assert((r + a) % 256 != (r + b) % 256);
    }
}

/// The rows that belong to the symbols of a recoverable group: a unit row for each source that
/// has come, a Cauchy row for each other.
pub open spec fn coefficient_rows(g: GroupModel) -> Seq<Seq<u8>> {
    Seq::new(
        g.k as nat,
        |j: int|
            if g.sources.contains_key(j as u8) {
                unit_row(j, g.k as nat)
            } else {
                parity_row(g.stand_ins()[rank(g, j)], g.k as nat, g.r)
            },
    )
}

/// The unit row with a one at `j`.
pub open spec fn unit_row(j: int, k: nat) -> Seq<u8> {
    Seq::new(
        k,
        |c: int|
            if c == j {
                1u8
            } else {
                0u8
            },
    )
}

/// How many sources below `j` are missing.
pub open spec fn rank(g: GroupModel, j: int) -> int {
    ascending(g.sources.dom().complement(), j as nat).len() as int
}

proof fn lemma_ascending_prefix(s: Set<u8>, j: nat, n: nat)
    requires
        j <= n,
    ensures
        ascending(s, j).len() <= ascending(s, n).len(),
        forall|t: int| 0 <= t < ascending(s, j).len() ==> ascending(s, j)[t] == ascending(s, n)[t],
    decreases n,
{
    if j < n {
        lemma_ascending_prefix(s, j, (n - 1) as nat);
    }
}

/// A missing source stands at its rank in the list of the missing ones.
proof fn lemma_rank(g: GroupModel, j: int)
    requires
        0 <= j < g.k,
        !g.sources.contains_key(j as u8),
    ensures
        0 <= rank(g, j) < g.missing().len(),
        g.missing()[rank(g, j)] == j,
{
    let s = g.sources.dom().complement();
    lemma_ascending_prefix(s, (j + 1) as nat, g.k as nat);
    assert(s.contains(j as u8));
    assert(ascending(s, (j + 1) as nat) == ascending(s, j as nat).push(j as u8));
}

proof fn lemma_rank_of_missing(g: GroupModel, t: int)
    requires
        0 <= t < g.missing().len(),
    ensures
        g.missing()[t] < g.k,
        !g.sources.contains_key(g.missing()[t]),
        rank(g, g.missing()[t] as int) == t,
{
    let s = g.sources.dom().complement();
    lemma_ascending(s, g.k as nat);
    let j = g.missing()[t];
    assert(s.contains(j));
    lemma_rank(g, j as int);
    let u = rank(g, j as int);
    if u < t {
        assert(g.missing()[u] < g.missing()[t]);
    } else if u > t {
        assert(g.missing()[t] < g.missing()[u]);
    }
}

/// The coefficient rows of a recoverable group are linearly independent.
pub proof fn law_any_k_symbols_suffice(g: GroupModel)
    requires
        g.sound(),
        ascending(g.repairs.dom(), 256).len() >= g.missing().len(),
    ensures
        !gf::singular(coefficient_rows(g), g.k as nat),
{
    let k = g.k as nat;
    let rows = coefficient_rows(g);
    if gf::singular(rows, k) {
        let v = choose|v: Seq<u8>| linalg::dependency(rows, v, k);
        let missing = g.missing();
        let m = missing.len();
        lemma_ascending(g.sources.dom().complement(), k);
        lemma_ascending(g.repairs.dom(), 256);
        // the positions of the sources that have come are zero
        assert forall|j: int| 0 <= j < k && g.sources.contains_key(j as u8) implies v[j] == 0 by {
            assert(linalg::dot(rows[j], v, k) == 0);
            linalg::lemma_dot_single(rows[j], v, k, j);
            gf::law_mul_zero_one(v[j]);
        }
        let xs = g.stand_ins();
        let ys = Seq::new(m, |s: int| source_point(missing[s] as int, g.r));
        let w = Seq::new(m, |s: int| v[missing[s] as int]);
        lemma_source_points(g.k, g.r);
        assert(cauchy::distinct(xs));
        assert(cauchy::distinct(ys)) by {
            assert forall|a: int, b: int| 0 <= a < b < ys.len() implies ys[a] != ys[b] by {
                assert(missing[a] < missing[b]);
                let all = source_points(k, g.r);
                assert(all[missing[a] as int] != all[missing[b] as int]);
            }
        }
        assert(cauchy::disjoint(xs, ys)) by {
            assert forall|a: int, b: int| 0 <= a < xs.len() && 0 <= b < ys.len() implies xs[a]
                != ys[b] by {
                let all = ascending(g.repairs.dom(), 256);
                assert(xs[a] == all[a]);
                assert(g.repairs.contains_key(xs[a]));
                assert(source_point(missing[b] as int, g.r) != xs[a]);
            }
        }
        assert forall|t: int| 0 <= t < xs.len() implies linalg::dot(
            cauchy::reciprocals(#[trigger] xs[t], ys),
            w,
            ys.len(),
        ) == 0 by {
            lemma_rank_of_missing(g, t);
            let j = missing[t] as int;
            assert(rows[j] == parity_row(xs[t], k, g.r));
            assert(linalg::dot(rows[j], v, k) == 0);
            lemma_dot_over_missing(g, xs[t], v, k);
            assert(w =~= Seq::new(
                ascending(g.sources.dom().complement(), k).len(),
                |s: int| v[ascending(g.sources.dom().complement(), k)[s] as int],
            ));
            assert(ys =~= Seq::new(
                ascending(g.sources.dom().complement(), k).len(),
                |s: int| source_point(ascending(g.sources.dom().complement(), k)[s] as int, g.r),
            ));
        }
        cauchy::law_cauchy_regular(xs, ys, w);
        let j = choose|j: int| 0 <= j < k && v[j] != 0;
        if g.sources.contains_key(j as u8) {
        } else {
            lemma_rank(g, j);
            assert(w[rank(g, j)] == v[j]);
        }
    }
}

/// A dot product with a Cauchy row needs only the positions where the vector may be nonzero.
proof fn lemma_dot_over_missing(g: GroupModel, x: u8, v: Seq<u8>, n: nat)
    requires
        n <= g.k,
        v.len() == g.k,
        forall|j: int| 0 <= j < n && g.sources.contains_key(j as u8) ==> v[j] == 0,
    ensures
        ({
            let miss = ascending(g.sources.dom().complement(), n);
            let ys = Seq::new(miss.len(), |s: int| source_point(miss[s] as int, g.r));
            let w = Seq::new(miss.len(), |s: int| v[miss[s] as int]);
            linalg::dot(parity_row(x, g.k as nat, g.r), v, n) == linalg::dot(
                cauchy::reciprocals(x, ys),
                w,
                miss.len(),
            )
        }),
    decreases n,
{
    if n > 0 {
        let p = (n - 1) as nat;
        lemma_dot_over_missing(g, x, v, p);
        let s = g.sources.dom().complement();
        let row = parity_row(x, g.k as nat, g.r);
        let m0 = ascending(s, p);
        let ys0 = Seq::new(m0.len(), |t: int| source_point(m0[t] as int, g.r));
        let w0 = Seq::new(m0.len(), |t: int| v[m0[t] as int]);
        let m1 = ascending(s, n);
        let ys1 = Seq::new(m1.len(), |t: int| source_point(m1[t] as int, g.r));
        let w1 = Seq::new(m1.len(), |t: int| v[m1[t] as int]);
        if g.sources.contains_key(p as u8) {
            assert(v[p as int] == 0);
            gf::law_mul_zero_one(row[p as int]);
            gf::lemma_xor(linalg::dot(row, v, p), 0, 0);
            assert(!s.contains(p as u8));
        } else {
            assert(s.contains(p as u8));
            assert(m1 == m0.push(p as u8));
            linalg::lemma_dot_same(
                cauchy::reciprocals(x, ys0),
                w0,
                cauchy::reciprocals(x, ys1),
                w1,
                m0.len(),
            );
        }
    }
}

/// The symbols in the order of their rows, zero-filled to the width of the group.
spec fn symbol_rows(g: GroupModel) -> Seq<Seq<u8>> {
    Seq::new(
        g.k as nat,
        |j: int|
            if g.sources.contains_key(j as u8) {
                padded(g.sources[j as u8], g.width)
            } else {
                padded(g.repairs[g.stand_ins()[rank(g, j)]], g.width)
            },
    )
}

/// `block` turns into the symbols of the group when the coefficient rows are applied.
spec fn solves(g: GroupModel, block: Seq<Seq<u8>>) -> bool {
    &&& linalg::shaped(block, g.k as nat, g.width)
    &&& forall|c: int, j: int|
        0 <= c < g.width && 0 <= j < g.k ==> #[trigger] linalg::dot(
            coefficient_rows(g)[j],
            column(block, c),
            g.k as nat,
        ) == symbol_rows(g)[j][c]
}

proof fn lemma_solves_completed(g: GroupModel, block: Seq<Seq<u8>>)
    requires
        ascending(g.repairs.dom(), 256).len() >= g.missing().len(),
    ensures
        solves(g, block) <==> g.completed_by(block),
{
    let k = g.k as nat;
    let rows = coefficient_rows(g);
    let rhs = symbol_rows(g);
    if linalg::shaped(block, k, g.width) {
        assert forall|j: int, c: int|
            0 <= j < k && 0 <= c < g.width && g.sources.contains_key(j as u8) implies #[trigger] linalg::dot(
            rows[j],
            column(block, c),
            k,
        ) == block[j][c] by {
            linalg::lemma_dot_single(rows[j], column(block, c), k, j);
            gf::law_mul_zero_one(block[j][c]);
        }
        if solves(g, block) {
            assert forall|j: int|
                0 <= j < k && g.sources.contains_key(j as u8) implies #[trigger] block[j] == padded(
                g.sources[j as u8],
                g.width,
            ) by {
                assert forall|c: int| 0 <= c < g.width implies block[j][c] == rhs[j][c] by {
                    assert(linalg::dot(rows[j], column(block, c), k) == rhs[j][c]);
                }
                assert(block[j] =~= rhs[j]);
            }
            assert forall|t: int| 0 <= t < g.missing().len() implies parity(
                block,
                #[trigger] g.stand_ins()[t],
                g.r,
                g.width,
            ) == padded(g.repairs[g.stand_ins()[t]], g.width) by {
                lemma_rank_of_missing(g, t);
                let j = g.missing()[t] as int;
                let p = parity(block, g.stand_ins()[t], g.r, g.width);
                assert forall|c: int| 0 <= c < g.width implies p[c] == rhs[j][c] by {
                    assert(linalg::dot(rows[j], column(block, c), k) == rhs[j][c]);
                }
                assert(p =~= rhs[j]);
            }
        }
        if g.completed_by(block) {
            assert forall|c: int, j: int| 0 <= c < g.width && 0 <= j < g.k implies #[trigger] linalg::dot(
                rows[j],
                column(block, c),
                k,
            ) == rhs[j][c] by {
                if g.sources.contains_key(j as u8) {
                    assert(block[j] == padded(g.sources[j as u8], g.width));
                } else {
                    lemma_rank(g, j);
                    let t = rank(g, j);
                    let p = parity(block, g.stand_ins()[t], g.r, g.width);
                    assert(p == padded(g.repairs[g.stand_ins()[t]], g.width));
                    assert(p[c] == linalg::dot(rows[j], column(block, c), k));
                }
            }
        }
    }
}

/// The symbols of a recoverable group leave no choice for its sources.
pub proof fn law_completion_unique(g: GroupModel, a: Seq<Seq<u8>>, b: Seq<Seq<u8>>)
    requires
        g.sound(),
        ascending(g.repairs.dom(), 256).len() >= g.missing().len(),
        g.completed_by(a),
        g.completed_by(b),
    ensures
        a == b,
{
    let k = g.k as nat;
    let rows = coefficient_rows(g);
    lemma_solves_completed(g, a);
    lemma_solves_completed(g, b);
    law_any_k_symbols_suffice(g);
    assert forall|j: int, c: int| 0 <= j < k && 0 <= c < g.width implies a[j][c] == b[j][c] by {
        let d = Seq::new(k, |i: int| a[i][c] ^ b[i][c]);
        assert forall|i: int| 0 <= i < rows.len() implies linalg::dot(#[trigger] rows[i], d, k)
            == 0 by {
            let ca = column(a, c);
            let cb = column(b, c);
            linalg::lemma_dot_symmetric(rows[i], d, k);
            linalg::lemma_dot_symmetric(rows[i], ca, k);
            linalg::lemma_dot_symmetric(rows[i], cb, k);
            linalg::lemma_dot_add(d, ca, cb, rows[i], k);
            assert(linalg::dot(rows[i], ca, k) == symbol_rows(g)[i][c]);
            assert(linalg::dot(rows[i], cb, k) == symbol_rows(g)[i][c]);
            gf::lemma_xor(symbol_rows(g)[i][c], 0, 0);
        }
        gf::lemma_xor(a[j][c], b[j][c], 0);
        if d[j] != 0 {
            assert(linalg::dependency(rows, d, k));
        }
    }
    assert forall|j: int| 0 <= j < k implies a[j] == b[j] by {
        assert(a[j].len() == g.width && b[j].len() == g.width);
        assert(a[j] =~= b[j]);
    }
    assert(a =~= b);
}

/// Where the symbols held are those of `block`, what is handed out are its missing rows.
pub proof fn law_recovery_is_original(g: GroupModel, block: Seq<Seq<u8>>)
    requires
        g.sound(),
        g.recoverable(),
        !g.complete(),
        linalg::shaped(block, g.k as nat, g.width),
        forall|j: int|
            0 <= j < g.k && g.sources.contains_key(j as u8) ==> #[trigger] block[j] == padded(
                g.sources[j as u8],
                g.width,
            ),
        forall|i: u8| #[trigger]
            g.repairs.contains_key(i) ==> parity(block, i, g.r, g.width) == padded(
                g.repairs[i],
                g.width,
            ),
    ensures
        g.recovery() == Some(
            Seq::new(
                g.missing().len(),
                |t: int| (g.missing()[t], block[g.missing()[t] as int]),
            ),
        ),
{
    lemma_ascending(g.repairs.dom(), 256);
    assert(g.completed_by(block)) by {
        assert forall|t: int| 0 <= t < g.missing().len() implies parity(
            block,
            #[trigger] g.stand_ins()[t],
            g.r,
            g.width,
        ) == padded(g.repairs[g.stand_ins()[t]], g.width) by {
            assert(g.stand_ins()[t] == ascending(g.repairs.dom(), 256)[t]);
            assert(g.repairs.contains_key(g.stand_ins()[t]));
        }
    }
    law_completion_unique(g, block, g.completion());
    assert(g.recovery()->0 =~= Seq::new(
        g.missing().len(),
        |t: int| (g.missing()[t], block[g.missing()[t] as int]),
    ));
}

/// The recovered symbols as plain sequences.
pub open spec fn handed_out(out: Option<Vec<(u8, Vec<u8>)>>) -> Option<Seq<(u8, Seq<u8>)>> {
    match out {
        Some(v) => Some(Seq::new(v@.len(), |t: int| (v@[t].0, v@[t].1@))),
        None => None,
    }
}

/// The symbols that have come of one group.
struct GroupState {
    k: u8,
    r: u8,
    padded_len: usize,
    sources: HashMap<u8, Vec<u8>>,
    repairs: HashMap<u8, Vec<u8>>,
    recovered: bool,
}

impl View for GroupState {
    type V = GroupModel;

    closed spec fn view(&self) -> GroupModel {
        GroupModel {
            k: self.k,
            r: self.r,
            width: self.padded_len as nat,
            sources: self.sources@.map_values(|v: Vec<u8>| v@),
            repairs: self.repairs@.map_values(|v: Vec<u8>| v@),
            recovered: self.recovered,
        }
    }
}

/// The keys of a map of symbols, ascending.
fn sorted_keys(m: &HashMap<u8, Vec<u8>>) -> (keys: Vec<u8>)
    ensures
        keys@ == ascending(m@.dom(), 256),
{
    broadcast use vstd::std_specs::hash::group_hash_axioms;

    let mut keys: Vec<u8> = Vec::new();
    let mut n: u16 = 0;
    while n < 256
        invariant
            n <= 256,
            keys@ == ascending(m@.dom(), n as nat),
        decreases 256 - n,
    {
        let i: u8 = n as u8;
        if m.contains_key(&i) {
            keys.push(i);
        }
        n = n + 1;
    }
    keys
}

/// Whether `i` names a row of the Cauchy matrix.
fn is_usable(i: u8, k: u8, r: u8) -> (b: bool)
    ensures
        b == usable(i, k, r),
{
    let d: u8 = i.wrapping_sub(r);
    proof {
        assert(source_point(d as int, r) == i);
        if d >= k {
            assert forall|j: int| 0 <= j < k implies #[trigger] source_point(j, r) != i by {
                assert((r + j) % 256 != (r + d) % 256);
            }
        }
    }
    d >= k
}

impl GroupState {
    fn new(k: u8, r: u8, padded_len: usize) -> (g: Self)
        ensures
            g@ == GroupModel::opened(k, r, padded_len as nat),
    {
        let g = GroupState {
            k,
            r,
            padded_len,
            sources: HashMap::new(),
            repairs: HashMap::new(),
            recovered: false,
        };
        proof {
            assert(g@.sources =~= Map::empty());
            assert(g@.repairs =~= Map::empty());
        }
        g
    }

    /// The coefficient rows and the symbols that belong to them.
    fn system(&self, stand_ins: &Vec<u8>) -> (out: (Vec<Vec<u8>>, Vec<Vec<u8>>))
        requires
            self@.sound(),
            stand_ins@ == ascending(self@.repairs.dom(), 256),
            stand_ins@.len() >= self@.missing().len(),
        ensures
            linalg::table(out.0@) == coefficient_rows(self@),
            linalg::table(out.1@) == symbol_rows(self@),
    {
        broadcast use vstd::std_specs::hash::group_hash_axioms;

        let ghost g = self@;
        let k: u8 = self.k;
        let len: usize = self.padded_len;
        let mut mat: Vec<Vec<u8>> = Vec::with_capacity(k as usize);
        let mut rhs: Vec<Vec<u8>> = Vec::with_capacity(k as usize);
        let mut next: usize = 0;
        let mut j: u8 = 0;
        proof {
            lemma_ascending(g.repairs.dom(), 256);
        }
        while j < k
            invariant
                j <= k,
                k == self.k,
                g == self@,
                len == self.padded_len,
                g.sound(),
                next == rank(g, j as int),
                stand_ins@ == ascending(g.repairs.dom(), 256),
                stand_ins@.len() >= g.missing().len(),
                forall|t: int|
                    0 <= t < stand_ins@.len() ==> g.repairs.contains_key(#[trigger] stand_ins@[t]),
                mat.len() == j,
                rhs.len() == j,
                forall|t: int| 0 <= t < j ==> (#[trigger] mat[t])@ == coefficient_rows(g)[t],
                forall|t: int| 0 <= t < j ==> (#[trigger] rhs[t])@ == symbol_rows(g)[t],
            decreases k - j,
        {
            match self.sources.get(&j) {
                Some(data) => {
                    assert(g.sources.contains_key(j));
                    assert(g.sources[j] == data@);
                    let mut row: Vec<u8> = vec![0u8; k as usize];
                    row.set(j as usize, 1);
                    assert(row@ =~= unit_row(j as int, k as nat));
                    mat.push(row);
                    rhs.push(pad(data.as_slice(), len));
                    assert(!g.sources.dom().complement().contains(j));
                },
                None => {
                    assert(!g.sources.contains_key(j));
                    proof {
                        lemma_rank(g, j as int);
                    }
                    let i: u8 = stand_ins[next];
                    assert(g.repairs.contains_key(i));
                    assert(g.stand_ins()[next as int] == i);
                    mat.push(cauchy_row(i, k, self.r));
                    match self.repairs.get(&i) {
                        Some(data) => {
                            assert(g.repairs[i] == data@);
                            rhs.push(pad(data.as_slice(), len));
                        },
                        None => {
                            assert(false);
                        },
                    }
                    assert(g.sources.dom().complement().contains(j));
                    assert(next < stand_ins.len());
                    next = next + 1;
                },
            }
            j = j + 1;
        }
        proof {
            assert(linalg::table(mat@) =~= coefficient_rows(g));
            assert(linalg::table(rhs@) =~= symbol_rows(g));
        }
        (mat, rhs)
    }

    /// Solves for the missing sources if enough symbols have come.
    fn try_recover(&mut self) -> (out: Option<Vec<(u8, Vec<u8>)>>)
        requires
            old(self)@.sound(),
        ensures
            final(self)@ == old(self)@.attempted(),
            handed_out(out) == old(self)@.recovery(),
    {
        broadcast use vstd::std_specs::hash::group_hash_axioms;

        let ghost g = self@;
        if self.recovered {
            return None;
        }
        let have: Vec<u8> = sorted_keys(&self.sources);
        assert(g.sources.dom() =~= self.sources@.dom());
        if have.len() == self.k as usize {
            self.recovered = true;
            let none: Vec<(u8, Vec<u8>)> = Vec::new();
            assert(handed_out(Some(none))->0 =~= Seq::<(u8, Seq<u8>)>::empty());
            return Some(none);
        }
        let k: u8 = self.k;
        let mut missing: Vec<u8> = Vec::new();
        for j in 0..k
            invariant
                g == self@,
                k == self.k,
                g.sources.dom() == self.sources@.dom(),
                missing@ == ascending(g.sources.dom().complement(), j as nat),
        {
            if !self.sources.contains_key(&j) {
                missing.push(j);
            }
        }
        let stand_ins: Vec<u8> = sorted_keys(&self.repairs);
        assert(g.repairs.dom() =~= self.repairs@.dom());
        if stand_ins.len() < missing.len() {
            return None;
        }
        let (mut mat, rhs) = self.system(&stand_ins);
        let len: usize = self.padded_len;
        let ghost rows = coefficient_rows(g);
        proof {
            assert(mat@.len() == k && rhs@.len() == k) by {
                assert(linalg::table(mat@).len() == k);
                assert(linalg::table(rhs@).len() == k);
            }
            assert forall|i: int| 0 <= i < k implies (#[trigger] mat@[i])@.len() == k by {
                assert(linalg::table(mat@)[i] == rows[i]);
            }
            assert(gf::square(mat@, k as nat) =~= rows);
            law_any_k_symbols_suffice(g);
        }
        gf::invert_matrix(mat.as_mut_slice(), k as usize);
        let ghost inverse = gf::square(mat@, k as nat);
        let ghost solution = Seq::new(
            k as nat,
            |j: int| blend(inverse[j], symbol_rows(g), len as nat),
        );
        proof {
            lemma_solution(g, inverse, solution);
            lemma_ascending(g.sources.dom().complement(), k as nat);
            assert(linalg::shaped(linalg::table(rhs@), k as nat, len as nat)) by {
                assert forall|i: int| 0 <= i < k implies (#[trigger] linalg::table(rhs@)[i]).len()
                    == len by {
                    assert(symbol_rows(g)[i].len() == len);
                }
            }
        }
        let mut recovered: Vec<(u8, Vec<u8>)> = Vec::with_capacity(missing.len());
        let mut t: usize = 0;
        while t < missing.len()
            invariant
                t <= missing.len(),
                missing@ == g.missing(),
                forall|u: int| 0 <= u < missing@.len() ==> (#[trigger] missing@[u]) < k,
                mat@.len() == k,
                rhs@.len() == k,
                inverse == gf::square(mat@, k as nat),
                forall|i: int| 0 <= i < k ==> (#[trigger] mat@[i])@.len() == k,
                linalg::table(rhs@) == symbol_rows(g),
                linalg::shaped(linalg::table(rhs@), k as nat, len as nat),
                solution == Seq::new(
                    k as nat,
                    |j: int| blend(inverse[j], symbol_rows(g), len as nat),
                ),
                recovered.len() == t,
                forall|u: int|
                    0 <= u < t ==> (#[trigger] recovered@[u]).0 == missing@[u] && recovered@[u].1@
                        == solution[missing@[u] as int],
            decreases missing.len() - t,
        {
            let j: u8 = missing[t];
            assert(mat@[j as int]@ == inverse[j as int]);
            let data: Vec<u8> = weighted_sum(&mat[j as usize], &rhs, len);
            recovered.push((j, data));
            t = t + 1;
        }
        self.recovered = true;
        proof {
            assert(handed_out(Some(recovered))->0 =~= g.recovery()->0);
        }
        Some(recovered)
    }
}

/// Applying the inverse of the coefficient rows to the symbols gives the completion.
proof fn lemma_solution(g: GroupModel, inverse: Seq<Seq<u8>>, solution: Seq<Seq<u8>>)
    requires
        g.sound(),
        ascending(g.repairs.dom(), 256).len() >= g.missing().len(),
        gf::mutually_inverse(coefficient_rows(g), inverse, g.k as nat),
        solution == Seq::new(
            g.k as nat,
            |j: int| blend(inverse[j], symbol_rows(g), g.width),
        ),
    ensures
        solution == g.completion(),
{
    let k = g.k as nat;
    let rows = coefficient_rows(g);
    let rhs = symbol_rows(g);
    assert(solves(g, solution)) by {
        assert forall|c: int, j: int| 0 <= c < g.width && 0 <= j < g.k implies #[trigger] linalg::dot(
            rows[j],
            column(solution, c),
            k,
        ) == rhs[j][c] by {
            let y = column(rhs, c);
            let x = gf::apply(inverse, y, k);
            assert(column(solution, c) =~= x);
            assert(gf::apply(rows, gf::apply(inverse, y, k), k) == y);
            assert(gf::apply(rows, x, k)[j] == y[j]);
        }
    }
    lemma_solves_completed(g, solution);
    law_completion_unique(g, solution, g.completion());
}

/// The group with a number, or a new one if there is none.
pub open spec fn group_in(
    groups: Map<u32, GroupModel>,
    id: u32,
    k: u8,
    r: u8,
    width: nat,
) -> GroupModel {
    if groups.contains_key(id) {
        groups[id]
    } else {
        GroupModel::opened(k, r, width)
    }
}

/// The groups after a source symbol has come, and what is handed out.
pub open spec fn source_added(
    groups: Map<u32, GroupModel>,
    id: u32,
    i: u8,
    k: u8,
    r: u8,
    data: Seq<u8>,
) -> (Map<u32, GroupModel>, Option<Seq<(u8, Seq<u8>)>>) {
    let g = group_in(groups, id, k, r, data.len()).with_source(i, data);
    (groups.insert(id, g.attempted()), g.recovery())
}

/// The groups after a repair symbol has come, and what is handed out.
pub open spec fn repair_added(groups: Map<u32, GroupModel>, rep: FecRepairData) -> (
    Map<u32, GroupModel>,
    Option<Seq<(u8, Seq<u8>)>>,
) {
    let g = group_in(groups, rep.group_id, rep.k, rep.r, rep.padded_len as nat).with_repair(
        rep.repair_idx,
        rep.padded_len as nat,
        rep.data@,
    );
    (groups.insert(rep.group_id, g.attempted()), g.recovery())
}

/// Recovers lost source symbols of many groups.
pub struct FecDecoder {
    groups: HashMap<u32, GroupState>,
}

impl View for FecDecoder {
    type V = Map<u32, GroupModel>;

    closed spec fn view(&self) -> Map<u32, GroupModel> {
        self.groups@.map_values(|g: GroupState| g@)
    }
}

impl FecDecoder {
    /// Every group holds only usable repair symbols.
    pub open spec fn wf(&self) -> bool {
        forall|id: u32| #[trigger] self@.contains_key(id) ==> self@[id].sound()
    }

    /// A decoder without groups.
    pub fn new() -> (d: Self)
        ensures
            d.wf(),
            d@ == Map::<u32, GroupModel>::empty(),
    {
        let d = FecDecoder { groups: HashMap::new() };
        assert(d@ =~= Map::empty());
        d
    }

    /// The group, or a new one if none has that number.
    pub open spec fn group_or(&self, id: u32, k: u8, r: u8, width: nat) -> GroupModel {
        group_in(self@, id, k, r, width)
    }

    fn take_group(&mut self, id: u32, k: u8, r: u8, width: usize) -> (g: GroupState)
        requires
            old(self).wf(),
        ensures
            g@ == old(self).group_or(id, k, r, width as nat),
            g@.sound(),
            final(self)@ == old(self)@.remove(id),
    {
        broadcast use vstd::std_specs::hash::group_hash_axioms;

        let held: Option<GroupState> = self.groups.remove(&id);
        proof {
            assert(self@ =~= old(self)@.remove(id));
        }
        match held {
            Some(g) => {
                assert(old(self)@.contains_key(id));
                assert(old(self)@[id] == g@);
                g
            },
            None => {
                assert(!old(self)@.contains_key(id));
                GroupState::new(k, r, width)
            },
        }
    }

    fn put_group(&mut self, id: u32, g: GroupState)
        ensures
            final(self)@ == old(self)@.insert(id, g@),
    {
        broadcast use vstd::std_specs::hash::group_hash_axioms;

        self.groups.insert(id, g);
        assert(self@ =~= old(self)@.insert(id, g@));
    }

    /// Takes in a source symbol whose envelope has been stripped. Hands out the lost sources of
    /// its group when they become known.
    pub fn add_source(&mut self, group_id: u32, source_idx: u8, k: u8, r: u8, data: &[u8]) -> (out:
        Option<Vec<(u8, Vec<u8>)>>)
        requires
            old(self).wf(),
        ensures
            final(self).wf(),
            ({
                let g = old(self).group_or(group_id, k, r, data@.len()).with_source(
                    source_idx,
                    data@,
                );
                &&& handed_out(out) == g.recovery()
                &&& final(self)@ == old(self)@.insert(group_id, g.attempted())
            }),
            (final(self)@, handed_out(out)) == source_added(
                old(self)@,
                group_id,
                source_idx,
                k,
                r,
                data@,
            ),
    {
        broadcast use vstd::std_specs::hash::group_hash_axioms;

        let mut g: GroupState = self.take_group(group_id, k, r, data.len());
        let ghost before = g@;
        if data.len() > g.padded_len {
            g.padded_len = data.len();
        }
        let symbol: Vec<u8> = pad(data, g.padded_len);
        g.sources.insert(source_idx, symbol);
        proof {
            assert(g@.sources =~= before.with_source(source_idx, data@).sources);
            assert(g@.repairs =~= before.repairs);
            assert(g@ == before.with_source(source_idx, data@));
        }
        let out: Option<Vec<(u8, Vec<u8>)>> = g.try_recover();
        self.put_group(group_id, g);
        proof {
            assert(self@ =~= old(self)@.insert(group_id, g@));
        }
        out
    }

    /// Takes in a repair symbol. Hands out the lost sources of its group when they become known.
    pub fn add_repair(&mut self, repair: &FecRepairData) -> (out: Option<Vec<(u8, Vec<u8>)>>)
        requires
            old(self).wf(),
        ensures
            final(self).wf(),
            ({
                let g = old(self).group_or(
                    repair.group_id,
                    repair.k,
                    repair.r,
                    repair.padded_len as nat,
                ).with_repair(repair.repair_idx, repair.padded_len as nat, repair.data@);
                &&& handed_out(out) == g.recovery()
                &&& final(self)@ == old(self)@.insert(repair.group_id, g.attempted())
            }),
            (final(self)@, handed_out(out)) == repair_added(old(self)@, *repair),
    {
        broadcast use vstd::std_specs::hash::group_hash_axioms;

        let len: usize = repair.padded_len as usize;
        let mut g: GroupState = self.take_group(repair.group_id, repair.k, repair.r, len);
        let ghost before = g@;
        if len > g.padded_len {
            g.padded_len = len;
        }
        if is_usable(repair.repair_idx, g.k, g.r) {
            let symbol: Vec<u8> = pad(repair.data.as_slice(), g.padded_len);
            g.repairs.insert(repair.repair_idx, symbol);
        }
        proof {
            let after = before.with_repair(repair.repair_idx, len as nat, repair.data@);
            assert(g@.repairs =~= after.repairs);
            assert(g@.sources =~= before.sources);
            assert(g@ == after);
        }
        let out: Option<Vec<(u8, Vec<u8>)>> = g.try_recover();
        self.put_group(repair.group_id, g);
        proof {
            assert(self@ =~= old(self)@.insert(repair.group_id, g@));
        }
        out
    }

    /// Forgets a group.
    pub fn cleanup_group(&mut self, group_id: u32)
        requires
            old(self).wf(),
        ensures
            final(self).wf(),
            final(self)@ == old(self)@.remove(group_id),
    {
        broadcast use vstd::std_specs::hash::group_hash_axioms;

        self.groups.remove(&group_id);
        assert(self@ =~= old(self)@.remove(group_id));
    }
}

impl Default for FecDecoder {
    fn default() -> (d: Self)
        ensures
            d.wf(),
            d@ == Map::<u32, GroupModel>::empty(),
    {
        FecDecoder::new()
    }
}

/// The symbols a decoder holds of a group are those that an encoder made of the payloads `e`.
pub open spec fn faithful(g: GroupModel, e: EncoderState) -> bool {
    let width = widest(e.payloads);
    &&& g.sound()
    &&& g.k == e.payloads.len()
    &&& g.r == e.r
    &&& g.width <= width
    &&& forall|i: u8| #[trigger]
        g.sources.contains_key(i) ==> i < g.k && e.payloads[i as int].len() <= g.sources[i].len()
            && g.sources[i].len() <= g.width && g.sources[i] == padded(
            e.payloads[i as int],
            g.sources[i].len(),
        )
    &&& forall|i: u8| #[trigger]
        g.repairs.contains_key(i) ==> i < g.r && g.width == width && g.repairs[i] == parity(
            block_of(e.payloads),
            i,
            e.r,
            width,
        )
}

/// A group opened by one of its own symbols is faithful.
pub proof fn law_opened_faithful(e: EncoderState, width: nat)
    requires
        e.payloads.len() <= 255,
        width <= widest(e.payloads),
    ensures
        faithful(GroupModel::opened(e.payloads.len() as u8, e.r, width), e),
{
}

/// Taking in one of the payloads keeps a group faithful.
pub proof fn law_source_keeps_faithful(g: GroupModel, e: EncoderState, i: u8)
    requires
        faithful(g, e),
        i < g.k,
    ensures
        faithful(g.with_source(i, e.payloads[i as int]), e),
{
    lemma_widest(e.payloads, i as int);
}

/// Taking in one of the repair symbols keeps a group faithful.
pub proof fn law_repair_keeps_faithful(g: GroupModel, e: EncoderState, rep: FecRepairData)
    requires
        faithful(g, e),
        e.payloads.len() + e.r <= 256,
        widest(e.payloads) <= u16::MAX,
        rep.repair_idx < e.r,
        is_repair(rep, e, rep.repair_idx as int),
    ensures
        faithful(g.with_repair(rep.repair_idx, rep.padded_len as nat, rep.data@), e),
{
    let g2 = g.with_repair(rep.repair_idx, rep.padded_len as nat, rep.data@);
    law_encodable_usable(rep.repair_idx, g.k, g.r);
    assert(padded(rep.data@, g2.width) =~= rep.data@);
}

/// An attempt at recovery keeps a group faithful.
pub proof fn law_attempt_keeps_faithful(g: GroupModel, e: EncoderState)
    requires
        faithful(g, e),
    ensures
        faithful(g.attempted(), e),
{
}

proof fn lemma_ascending_partition(s: Set<u8>, n: nat)
    ensures
        ascending(s, n).len() + ascending(s.complement(), n).len() == n,
    decreases n,
{
    if n > 0 {
        lemma_ascending_partition(s, (n - 1) as nat);
    }
}

pub proof fn lemma_ascending_bounded(s: Set<u8>, k: nat, n: nat)
    requires
        k <= n <= 256,
        forall|i: u8| s.contains(i) ==> i < k,
    ensures
        ascending(s, n) == ascending(s, k),
    decreases n,
{
    if n > k {
        lemma_ascending_bounded(s, k, (n - 1) as nat);
        assert(!s.contains((n - 1) as u8));
    }
}

/// As soon as any `k` of the symbols of a group have come, the decoder hands out exactly the
/// payloads that have not, zero-filled to the length of the longest.
pub proof fn law_lost_payloads_recovered(g: GroupModel, e: EncoderState)
    requires
        faithful(g, e),
        !g.recovered,
    ensures
        g.recoverable() <==> ascending(g.sources.dom(), 256).len() + ascending(
            g.repairs.dom(),
            256,
        ).len() >= g.k,
        g.recoverable() ==> g.recovery() == Some(
            Seq::new(
                g.missing().len(),
                |t: int|
                    (g.missing()[t], padded(
                        e.payloads[g.missing()[t] as int],
                        widest(e.payloads),
                    )),
            ),
        ),
{
    let s = g.sources.dom();
    let width = widest(e.payloads);
    let block = block_of(e.payloads);
    lemma_ascending_partition(s, g.k as nat);
    lemma_ascending_bounded(s, g.k as nat, 256);
    lemma_ascending(g.repairs.dom(), 256);
    lemma_ascending(s.complement(), g.k as nat);
    if g.recoverable() {
        if g.complete() {
            assert(g.missing().len() == 0);
            assert(g.recovery()->0 =~= Seq::new(
                g.missing().len(),
                |t: int|
                    (g.missing()[t], padded(e.payloads[g.missing()[t] as int], width)),
            ));
        } else {
            let i = ascending(g.repairs.dom(), 256)[0];
            assert(g.repairs.contains_key(i));
            assert forall|j: int|
                0 <= j < g.k && g.sources.contains_key(j as u8) implies #[trigger] block[j]
                == padded(g.sources[j as u8], g.width) by {
                assert(block[j] =~= padded(g.sources[j as u8], g.width));
            }
            assert forall|i: u8| #[trigger] g.repairs.contains_key(i) implies parity(
                block,
                i,
                g.r,
                g.width,
            ) == padded(g.repairs[i], g.width) by {
                assert(padded(g.repairs[i], g.width) =~= g.repairs[i]);
            }
            law_recovery_is_original(g, block);
            assert(g.recovery()->0 =~= Seq::new(
                g.missing().len(),
                |t: int|
                    (g.missing()[t], padded(e.payloads[g.missing()[t] as int], width)),
            ));
        }
    }
}

/// One of the symbols of a group, by its index among those of its kind.
pub enum Symbol {
    Source(u8),
    Repair(u8),
}

/// Whether the symbols of a list are among those that an encoder made of a full group.
pub open spec fn symbols_of(feed: Seq<Symbol>, e: EncoderState) -> bool {
    forall|t: int|
        0 <= t < feed.len() ==> match #[trigger] feed[t] {
            Symbol::Source(i) => i < e.payloads.len(),
            Symbol::Repair(i) => i < e.r,
        }
}

/// The groups of a decoder after a symbol of a group has come, and what is handed out.
pub open spec fn symbol_added(
    groups: Map<u32, GroupModel>,
    e: EncoderState,
    reps: Seq<FecRepairData>,
    s: Symbol,
) -> (Map<u32, GroupModel>, Option<Seq<(u8, Seq<u8>)>>) {
    match s {
        Symbol::Source(i) => source_added(groups, e.group_id, i, e.k, e.r, e.payloads[i as int]),
        Symbol::Repair(i) => repair_added(groups, reps[i as int]),
    }
}

/// The groups of a decoder after symbols of a group have come in turn.
pub open spec fn groups_after(
    groups: Map<u32, GroupModel>,
    e: EncoderState,
    reps: Seq<FecRepairData>,
    feed: Seq<Symbol>,
) -> Map<u32, GroupModel>
    decreases feed.len(),
{
    if feed.len() == 0 {
        groups
    } else {
        symbol_added(groups_after(groups, e, reps, feed.drop_last()), e, reps, feed.last()).0
    }
}

/// Whether bytes are a payload, and zeros behind it up to the length of the longest payload.
pub open spec fn is_filled(d: Seq<u8>, payload: Seq<u8>, payloads: Seq<Seq<u8>>) -> bool {
    &&& payload.len() <= d.len()
    &&& d.take(payload.len() as int) == payload
    &&& forall|c: int| payload.len() <= c < d.len() ==> d[c] == 0
    &&& forall|j: int| 0 <= j < payloads.len() ==> (#[trigger] payloads[j]).len() <= d.len()
    &&& exists|j: int| 0 <= j < payloads.len() && (#[trigger] payloads[j]).len() == d.len()
}

/// Whether what is handed out are exactly the payloads whose source symbols are not in a list,
/// each once.
pub open spec fn hands_out_lost(
    out: Option<Seq<(u8, Seq<u8>)>>,
    payloads: Seq<Seq<u8>>,
    feed: Seq<Symbol>,
) -> bool {
    out matches Some(list) && {
        &&& forall|t: int|
            0 <= t < list.len() ==> (#[trigger] list[t]).0 < payloads.len() && !feed.contains(
                Symbol::Source(list[t].0),
            ) && is_filled(list[t].1, payloads[list[t].0 as int], payloads)
        &&& forall|t: int, u: int|
            0 <= t < u < list.len() ==> (#[trigger] list[t]).0 != (#[trigger] list[u]).0
        &&& forall|j: u8|
            j < payloads.len() && !#[trigger] feed.contains(Symbol::Source(j)) ==> exists|t: int|
                0 <= t < list.len() && (#[trigger] list[t]).0 == j
    }
}

proof fn lemma_ascending_insert(s: Set<u8>, i: u8, n: nat)
    requires
        n <= 256,
    ensures
        ascending(s.insert(i), n).len() == ascending(s, n).len() + (if i < n && !s.contains(i) {
            1nat
        } else {
            0
        }),
    decreases n,
{
    if n > 0 {
        lemma_ascending_insert(s, i, (n - 1) as nat);
    }
}

proof fn lemma_widest_reached(payloads: Seq<Seq<u8>>)
    requires
        payloads.len() > 0,
    ensures
        exists|j: int| 0 <= j < payloads.len() && (#[trigger] payloads[j]).len() == widest(payloads),
    decreases payloads.len(),
{
    let rest = payloads.drop_last();
    let n = payloads.len() - 1;
    if payloads.last().len() > widest(rest) || rest.len() == 0 {
        assert(payloads[n].len() == widest(payloads));
    } else {
        lemma_widest_reached(rest);
        let j = choose|j: int| 0 <= j < rest.len() && (#[trigger] rest[j]).len() == widest(rest);
        assert(payloads[j].len() == widest(payloads));
    }
}

proof fn lemma_feed_grows(feed: Seq<Symbol>, s: Symbol)
    ensures
        feed.push(s).to_set().len() == feed.to_set().len() + (if feed.contains(s) {
            0nat
        } else {
            1
        }),
        forall|x: Symbol| #[trigger]
            feed.push(s).contains(x) <==> feed.contains(x) || x == s,
{
    broadcast use vstd::seq_lib::seq_to_set_is_finite;

    let more = feed.push(s);
    assert forall|x: Symbol| #[trigger] more.contains(x) <==> feed.contains(x) || x == s by {
        if feed.contains(x) {
            let t = choose|t: int| 0 <= t < feed.len() && feed[t] == x;
            assert(more[t] == x);
        }
        if x == s {
            assert(more[feed.len() as int] == x);
        }
        if more.contains(x) {
            let t = choose|t: int| 0 <= t < more.len() && more[t] == x;
            if t < feed.len() {
                assert(feed[t] == x);
            }
        }
    }
    assert(more.to_set() =~= feed.to_set().insert(s));
}

/// What a decoder holds of a group is what has come of it.
spec fn holds_feed(g: GroupModel, e: EncoderState, feed: Seq<Symbol>) -> bool {
    &&& faithful(g, e)
    &&& forall|i: u8| #[trigger] g.sources.contains_key(i) <==> feed.contains(Symbol::Source(i))
    &&& forall|i: u8| #[trigger] g.repairs.contains_key(i) <==> feed.contains(Symbol::Repair(i))
    &&& ascending(g.sources.dom(), 256).len() + ascending(g.repairs.dom(), 256).len()
        == feed.to_set().len()
}

proof fn lemma_symbol_held(
    g: GroupModel,
    e: EncoderState,
    reps: Seq<FecRepairData>,
    feed: Seq<Symbol>,
    s: Symbol,
)
    requires
        e.payloads.len() + e.r <= 256,
        0 < e.payloads.len() <= 255,
        widest(e.payloads) <= u16::MAX,
        are_repairs(reps, e),
        symbols_of(seq![s], e),
        holds_feed(g, e, feed),
    ensures
        match s {
            Symbol::Source(i) => holds_feed(
                g.with_source(i, e.payloads[i as int]),
                e,
                feed.push(s),
            ) && g.with_source(i, e.payloads[i as int]).recovered == g.recovered,
            Symbol::Repair(i) => holds_feed(
                g.with_repair(
                    reps[i as int].repair_idx,
                    reps[i as int].padded_len as nat,
                    reps[i as int].data@,
                ),
                e,
                feed.push(s),
            ) && g.with_repair(
                reps[i as int].repair_idx,
                reps[i as int].padded_len as nat,
                reps[i as int].data@,
            ).recovered == g.recovered,
        },
{
    assert(seq![s][0] == s);
    lemma_feed_grows(feed, s);
    match s {
        Symbol::Source(i) => {
            let h = g.with_source(i, e.payloads[i as int]);
            law_source_keeps_faithful(g, e, i);
            lemma_ascending_insert(g.sources.dom(), i, 256);
            assert(h.sources.dom() =~= g.sources.dom().insert(i));
            assert(h.repairs.dom() =~= g.repairs.dom());
            assert(g.sources.dom().contains(i) <==> feed.contains(s));
        },
        Symbol::Repair(i) => {
            let rep = reps[i as int];
            assert(is_repair(rep, e, i as int));
            let h = g.with_repair(rep.repair_idx, rep.padded_len as nat, rep.data@);
            law_repair_keeps_faithful(g, e, rep);
            law_encodable_usable(i, g.k, g.r);
            lemma_ascending_insert(g.repairs.dom(), i, 256);
            assert(h.repairs.dom() =~= g.repairs.dom().insert(i));
            assert(h.sources.dom() =~= g.sources.dom());
            assert(g.repairs.dom().contains(i) <==> feed.contains(s));
        },
    }
}

/// The group to which the next symbol is added.
spec fn next_held(
    groups: Map<u32, GroupModel>,
    e: EncoderState,
    reps: Seq<FecRepairData>,
    s: Symbol,
) -> GroupModel {
    match s {
        Symbol::Source(i) => group_in(
            groups,
            e.group_id,
            e.k,
            e.r,
            e.payloads[i as int].len(),
        ).with_source(i, e.payloads[i as int]),
        Symbol::Repair(i) => group_in(
            groups,
            reps[i as int].group_id,
            reps[i as int].k,
            reps[i as int].r,
            reps[i as int].padded_len as nat,
        ).with_repair(
            reps[i as int].repair_idx,
            reps[i as int].padded_len as nat,
            reps[i as int].data@,
        ),
    }
}

proof fn lemma_opened_holds(e: EncoderState, width: nat)
    requires
        e.payloads.len() <= 255,
        width <= widest(e.payloads),
    ensures
        holds_feed(
            GroupModel::opened(e.payloads.len() as u8, e.r, width),
            e,
            Seq::<Symbol>::empty(),
        ),
{
    let g = GroupModel::opened(e.payloads.len() as u8, e.r, width);
    law_opened_faithful(e, width);
    lemma_ascending(g.sources.dom(), 256);
    lemma_ascending(g.repairs.dom(), 256);
    if ascending(g.sources.dom(), 256).len() > 0 {
        assert(g.sources.dom().contains(ascending(g.sources.dom(), 256)[0]));
    }
    if ascending(g.repairs.dom(), 256).len() > 0 {
        assert(g.repairs.dom().contains(ascending(g.repairs.dom(), 256)[0]));
    }
    Seq::<Symbol>::empty().lemma_cardinality_of_empty_set_is_0();
}

proof fn lemma_next_held(
    groups: Map<u32, GroupModel>,
    e: EncoderState,
    reps: Seq<FecRepairData>,
    feed: Seq<Symbol>,
    s: Symbol,
)
    requires
        e.payloads.len() + e.r <= 256,
        0 < e.payloads.len() <= 255,
        e.k == e.payloads.len() || feed.len() > 0 || s is Repair,
        widest(e.payloads) <= u16::MAX,
        are_repairs(reps, e),
        symbols_of(seq![s], e),
        feed.len() > 0 ==> groups.contains_key(e.group_id) && holds_feed(
            groups[e.group_id],
            e,
            feed,
        ),
        feed.len() == 0 ==> !groups.contains_key(e.group_id),
    ensures
        holds_feed(next_held(groups, e, reps, s), e, feed.push(s)),
        next_held(groups, e, reps, s).recovered == (feed.len() > 0
            && groups[e.group_id].recovered),
        symbol_added(groups, e, reps, s).0 == groups.insert(
            e.group_id,
            next_held(groups, e, reps, s).attempted(),
        ),
        symbol_added(groups, e, reps, s).1 == next_held(groups, e, reps, s).recovery(),
{
    assert(seq![s][0] == s);
    let width = match s {
        Symbol::Source(i) => e.payloads[i as int].len(),
        Symbol::Repair(i) => reps[i as int].padded_len as nat,
    };
    match s {
        Symbol::Source(i) => {
            lemma_widest(e.payloads, i as int);
        },
        Symbol::Repair(i) => {
            assert(is_repair(reps[i as int], e, i as int));
        },
    }
    let g = group_in(groups, e.group_id, e.payloads.len() as u8, e.r, width);
    if feed.len() == 0 {
        lemma_opened_holds(e, width);
        assert(feed =~= Seq::<Symbol>::empty());
    }
    lemma_symbol_held(g, e, reps, feed, s);
}

proof fn lemma_groups_after(
    groups: Map<u32, GroupModel>,
    e: EncoderState,
    reps: Seq<FecRepairData>,
    feed: Seq<Symbol>,
)
    requires
        e.payloads.len() + e.r <= 256,
        0 < e.payloads.len() <= 255,
        e.k == e.payloads.len() || feed.len() == 0 || feed[0] is Repair,
        widest(e.payloads) <= u16::MAX,
        are_repairs(reps, e),
        symbols_of(feed, e),
        !groups.contains_key(e.group_id),
    ensures
        ({
            let after = groups_after(groups, e, reps, feed);
            &&& feed.len() == 0 ==> !after.contains_key(e.group_id)
            &&& feed.len() > 0 ==> after.contains_key(e.group_id) && holds_feed(
                after[e.group_id],
                e,
                feed,
            ) && (after[e.group_id].recovered <==> feed.to_set().len() >= e.payloads.len())
            &&& forall|id: u32|
                id != e.group_id ==> (#[trigger] after.contains_key(id) <==> groups.contains_key(
                    id,
                )) && (groups.contains_key(id) ==> after[id] == groups[id])
        }),
    decreases feed.len(),
{
    if feed.len() > 0 {
        let f = feed.drop_last();
        let s = feed.last();
        assert(symbols_of(f, e)) by {
            assert forall|t: int| 0 <= t < f.len() implies match #[trigger] f[t] {
                Symbol::Source(i) => i < e.payloads.len(),
                Symbol::Repair(i) => i < e.r,
            } by {
                assert(f[t] == feed[t]);
            }
        }
        assert(feed[feed.len() - 1] == s);
        lemma_groups_after(groups, e, reps, f);
        let before = groups_after(groups, e, reps, f);
        lemma_next_held(before, e, reps, f, s);
        assert(f.push(s) =~= feed);
        let h = next_held(before, e, reps, s);
        lemma_feed_grows(f, s);
        law_attempt_keeps_faithful(h, e);
        if !h.recovered {
            law_lost_payloads_recovered(h, e);
        }
    }
}

/// Whatever symbols of a group come, in whatever order, sources and repairs alike: as soon as as
/// many different ones have come as the group has payloads, the decoder hands out exactly the
/// payloads whose source symbols have not come. It does so once, and hands out nothing before and
/// nothing afterwards. Other groups are not touched. Of a group that was closed early the sources
/// do not tell the size, so that a repair symbol has to come first.
pub proof fn law_any_symbols_recover_group(
    groups: Map<u32, GroupModel>,
    e: EncoderState,
    reps: Seq<FecRepairData>,
    feed: Seq<Symbol>,
    s: Symbol,
)
    requires
        0 < e.payloads.len() <= 255,
        e.k == e.payloads.len() || feed.push(s)[0] is Repair,
        e.payloads.len() + e.r <= 256,
        forall|j: int| 0 <= j < e.payloads.len() ==> (#[trigger] e.payloads[j]).len() <= 65535,
        are_repairs(reps, e),
        symbols_of(feed.push(s), e),
        !groups.contains_key(e.group_id),
    ensures
        ({
            let before = groups_after(groups, e, reps, feed);
            let out = symbol_added(before, e, reps, s).1;
            let come = feed.push(s).to_set().len();
            &&& come < e.payloads.len() ==> out is None
            &&& feed.to_set().len() < e.payloads.len() <= come ==> hands_out_lost(
                out,
                e.payloads,
                feed.push(s),
            )
            &&& feed.to_set().len() >= e.payloads.len() ==> out is None
            &&& forall|id: u32|
                id != e.group_id ==> (#[trigger] before.contains_key(id) <==> groups.contains_key(
                    id,
                )) && (groups.contains_key(id) ==> before[id] == groups[id])
        }),
{
    let all = feed.push(s);
    let p = e.payloads;
    assert(symbols_of(feed, e)) by {
        assert forall|t: int| 0 <= t < feed.len() implies match #[trigger] feed[t] {
            Symbol::Source(i) => i < e.payloads.len(),
            Symbol::Repair(i) => i < e.r,
        } by {
            assert(all[t] == feed[t]);
        }
    }
    assert(symbols_of(seq![s], e)) by {
        assert(all[feed.len() as int] == s);
    }
    lemma_widest_reached(p);
    if feed.len() > 0 {
        assert(all[0] == feed[0]);
    }
    lemma_groups_after(groups, e, reps, feed);
    lemma_feed_grows(feed, s);
    let before = groups_after(groups, e, reps, feed);
    lemma_next_held(before, e, reps, feed, s);
    let h = next_held(before, e, reps, s);
    Seq::<Symbol>::empty().lemma_cardinality_of_empty_set_is_0();
    if feed.len() == 0 {
        assert(feed =~= Seq::<Symbol>::empty());
    }
    if !h.recovered {
        law_lost_payloads_recovered(h, e);
        lemma_ascending(h.sources.dom().complement(), h.k as nat);
        if h.recoverable() {
            let list = h.recovery()->0;
            let missing = h.missing();
            assert forall|t: int| 0 <= t < list.len() implies (#[trigger] list[t]).0 < p.len()
                && !all.contains(Symbol::Source(list[t].0)) && is_filled(
                list[t].1,
                p[list[t].0 as int],
                p,
            ) by {
                assert(h.sources.dom().complement().contains(missing[t]));
                assert(!h.sources.contains_key(missing[t]));
                let q = p[missing[t] as int];
                let d = list[t].1;
                assert(d == padded(q, widest(p)));
                lemma_widest(p, missing[t] as int);
                assert(d.take(q.len() as int) =~= q);
                assert forall|j: int| 0 <= j < p.len() implies (#[trigger] p[j]).len() <= d.len() by {
                    lemma_widest(p, j);
                }
            }
            assert forall|j: u8|
                j < p.len() && !#[trigger] all.contains(Symbol::Source(j)) implies exists|t: int|
                0 <= t < list.len() && (#[trigger] list[t]).0 == j by {
                assert(!h.sources.contains_key(j));
                assert(h.sources.dom().complement().contains(j));
                let t = choose|t: int| 0 <= t < missing.len() && missing[t] == j;
                assert(list[t].0 == j);
            }
        }
    }
}

/// The group after a full one has another number, the next, and begins empty; its sizes stay.
pub proof fn law_groups_follow(e: EncoderState)
    ensures
        next_group(e).group_id == (e.group_id + 1) % 0x1_0000_0000,
        next_group(e).payloads.len() == 0,
        next_group(e).k == e.k,
        next_group(e).r == e.r,
{
}

/// An envelope is seven bytes: the number of the group, the index, and the sizes of the group.
pub proof fn law_envelope_parts(group_id: u32, i: u8, k: u8, r: u8)
    ensures
        envelope(group_id, i, k, r).len() == 7,
        bytes::un_le32(envelope(group_id, i, k, r).subrange(0, 4)) == group_id,
        envelope(group_id, i, k, r)[4] == i,
        envelope(group_id, i, k, r)[5] == k,
        envelope(group_id, i, k, r)[6] == r,
{
    bytes::law_le32_read_write(group_id);
    assert(envelope(group_id, i, k, r).subrange(0, 4) =~= bytes::le32(group_id));
}

/// A repair symbol on the wire: the number of the group, the index, the sizes of the group, the
/// length of its data, and the data.
pub proof fn law_repair_parts(rep: FecRepairData)
    ensures
        ({
            let w = rep.wire();
            &&& w.len() == 9 + rep.data@.len()
            &&& bytes::un_le32(w.subrange(0, 4)) == rep.group_id
            &&& w[4] == rep.repair_idx && w[5] == rep.k && w[6] == rep.r
            &&& bytes::un_le16(w.subrange(7, 9)) == rep.padded_len
            &&& w.skip(9) == rep.data@
        }),
{
    let w = rep.wire();
    bytes::law_le32_read_write(rep.group_id);
    bytes::law_le16_read_write(rep.padded_len);
    assert(w.subrange(0, 4) =~= bytes::le32(rep.group_id));
    assert(w.subrange(7, 9) =~= bytes::le16(rep.padded_len));
    assert(w.skip(9) =~= rep.data@);
}

/// Every byte of a repair symbol is the sum of the bytes of the sources at that place, each
/// weighted with one over the sum of the index and the point of the source.
pub proof fn law_parity_is_weighted_sum(block: Seq<Seq<u8>>, i: u8, r: u8, len: nat, c: int)
    requires
        0 <= c < len,
        block.len() <= 255,
        r + block.len() <= 256,
        i < r,
    ensures
        parity(block, i, r, len).len() == len,
        parity(block, i, r, len)[c] == linalg::dot(
            Seq::new(block.len(), |j: int| gf::gf_inv(i ^ ((r + j) as u8))),
            Seq::new(block.len(), |j: int| block[j][c]),
            block.len(),
        ),
{
    let row = parity_row(i, block.len(), r);
    let want = Seq::new(block.len(), |j: int| gf::gf_inv(i ^ ((r + j) as u8)));
    assert forall|j: int| 0 <= j < block.len() implies row[j] == want[j] by {
        assert((r + j) % 256 == r + j);
    }
    assert(row =~= want);
    assert(column(block, c) =~= Seq::new(block.len(), |j: int| block[j][c]));
}

/// A symbol that an encoder made is always taken in: its index is among those that the group
/// holds from then on, with those that it held before.
pub proof fn law_symbols_are_taken_in(
    g: GroupModel,
    i: u8,
    data: Seq<u8>,
    len: nat,
)
    ensures
        g.with_source(i, data).sources.dom() == g.sources.dom().insert(i),
        g.with_source(i, data).repairs == g.repairs,
        g.k + g.r <= 256 && i < g.r ==> g.with_repair(i, len, data).repairs.dom()
            == g.repairs.dom().insert(i),
        g.with_repair(i, len, data).sources == g.sources,
{
    if g.k + g.r <= 256 && i < g.r {
        law_encodable_usable(i, g.k, g.r);
        assert(g.with_repair(i, len, data).repairs.dom() =~= g.repairs.dom().insert(i));
    }
    assert(g.with_source(i, data).sources.dom() =~= g.sources.dom().insert(i));
}

/// A payload that is pushed comes behind those before it, and nothing else changes; a group can be
/// encoded where its symbols, of both kinds together, are no more than 256.
pub proof fn law_payload_pushed(e: EncoderState, payload: Seq<u8>, k: int, r: u8)
    ensures
        pushed(e, payload).payloads == e.payloads.push(payload),
        pushed(e, payload).group_id == e.group_id,
        pushed(e, payload).k == e.k,
        pushed(e, payload).r == e.r,
        k + r <= 256 ==> encodable(k, r),
{
}

/// All repair symbols of a group belong to it and are numbered in turn.
pub proof fn law_repairs_numbered(reps: Seq<FecRepairData>, e: EncoderState, i: int)
    requires
        are_repairs(reps, e),
        0 <= i < e.r,
        widest(e.payloads) <= 65535,
        e.payloads.len() <= 255,
    ensures
        reps.len() == e.r,
        reps[i].repair_idx == i,
        reps[i].group_id == e.group_id,
        reps[i].k == e.payloads.len(),
        reps[i].r == e.r,
        reps[i].padded_len == reps[i].data@.len(),
{
    assert(is_repair(reps[i], e, i));
}

} // verus!
