//! Double ratchet: per-epoch forward secrecy within a session.
//!
//! The symmetric ratchet advances with every packet and derives a fresh message key from the
//! chain key. The Diffie-Hellman ratchet advances with every epoch, after a number of packets or
//! a span of time, and derives a new root key and chain key from an ephemeral X25519 exchange.
//!
//! Keys of packets that are overtaken by later ones are kept in a window of at most 50 entries,
//! for at most 30 seconds. Times are nanoseconds since the ratchet was set up.

use vstd::prelude::*;
use crate::bytes;
use crate::clock;
use crate::crypto::secret;

verus! {

/// Most message keys of overtaken packets that are kept.
pub const MAX_SKIP: usize = 50;

/// How long the message key of an overtaken packet is kept, in nanoseconds.
pub const SKIP_KEY_TTL: u64 = 30_000_000_000;

/// Packets in an epoch, unless set otherwise.
pub const DEFAULT_EPOCH_PACKET_LIMIT: u64 = 1000;

/// Length of an epoch in nanoseconds, unless set otherwise.
pub const DEFAULT_EPOCH_TIME_LIMIT: u64 = 30_000_000_000;

/// The frame that tells the peer of a Diffie-Hellman step.
#[derive(Debug, Clone)]
pub struct RatchetStep {
    /// The sender's new ephemeral public key.
    pub new_ephemeral_public: [u8; 32],
    /// The sender's epoch after the step.
    pub epoch: u64,
}

impl RatchetStep {
    /// The wire form: the public key, then the epoch little-endian.
    pub open spec fn wire(&self) -> Seq<u8> {
        self.new_ephemeral_public@ + bytes::le64(self.epoch)
    }

    /// Serialises the frame.
    pub fn encode(&self) -> (out: [u8; 40])
        ensures
            out@ == self.wire(),
    {
        let mut epoch: Vec<u8> = Vec::with_capacity(8);
        bytes::put_le64(&mut epoch, self.epoch);
        assert(epoch@ =~= bytes::le64(self.epoch));
        let mut out: [u8; 40] = [0u8; 40];
        let mut i: usize = 0;
        while i < 40
            invariant
                i <= 40,
                epoch@ == bytes::le64(self.epoch),
                epoch.len() == 8,
                forall|j: int| 0 <= j < i ==> out@[j] == self.wire()[j],
            decreases 40 - i,
        {
            out[i] = if i < 32 {
                self.new_ephemeral_public[i]
            } else {
                epoch[i - 32]
            };
            i = i + 1;
        }
        assert(out@ =~= self.wire());
        out
    }

    /// Reads a frame from the first 40 bytes.
    pub fn decode(buf: &[u8]) -> (step: Option<Self>)
        ensures
            match step {
                Some(s) => buf@.len() >= 40 && s.wire() == buf@.take(40),
                None => buf@.len() < 40,
            },
    {
        if buf.len() < 40 {
            return None;
        }
        let step = RatchetStep {
            new_ephemeral_public: bytes::array::<32>(buf, 0),
            epoch: bytes::get_le64(buf, 32),
        };
        proof {
            bytes::law_le64_write_read(buf@.subrange(32, 40));
            assert(step.wire() =~= buf@.take(40));
        }
        Some(step)
    }
}

/// The wire form determines the frame.
pub proof fn law_step_round_trip(a: RatchetStep, b: RatchetStep)
    requires
        a.wire() == b.wire(),
    ensures
        a.new_ephemeral_public@ == b.new_ephemeral_public@,
        a.epoch == b.epoch,
{
    assert(a.new_ephemeral_public@ =~= a.wire().subrange(0, 32));
    assert(b.new_ephemeral_public@ =~= b.wire().subrange(0, 32));
    assert(bytes::le64(a.epoch) =~= a.wire().subrange(32, 40));
    assert(bytes::le64(b.epoch) =~= b.wire().subrange(32, 40));
    bytes::law_le64_read_write(a.epoch);
    bytes::law_le64_read_write(b.epoch);
}

/// The chain key after one.
pub open spec fn chain_next(chain_key: Seq<u8>) -> Seq<u8> {
    secret::derived("seam ratchet chain 2026"@, chain_key.push(0x01))
}

/// The message key that belongs to a chain key.
pub open spec fn message_key(chain_key: Seq<u8>) -> Seq<u8> {
    secret::derived("seam ratchet message 2026"@, chain_key.push(0x02))
}

/// The chain key `n` steps on.
pub open spec fn chain_after(chain_key: Seq<u8>, n: nat) -> Seq<u8>
    decreases n,
{
    if n == 0 {
        chain_key
    } else {
        chain_next(chain_after(chain_key, (n - 1) as nat))
    }
}

/// The message key `n` steps on.
pub open spec fn key_at(chain_key: Seq<u8>, n: nat) -> Seq<u8> {
    message_key(chain_after(chain_key, n))
}

/// The root key after a Diffie-Hellman exchange.
pub open spec fn root_next(root: Seq<u8>, dh: Seq<u8>) -> Seq<u8> {
    secret::derived("seam ratchet root 2026"@, root + dh)
}

/// A raw secret with the bits that X25519 fixes set as it demands.
pub open spec fn clamped(raw: Seq<u8>) -> Seq<u8> {
    raw.update(0, raw[0] & 248).update(31, (raw[31] & 127) | 64)
}

/// One step of the symmetric ratchet: the next chain key and the message key.
pub fn ratchet_step(chain_key: &[u8; 32]) -> (out: ([u8; 32], [u8; 32]))
    ensures
        out.0@ == chain_next(chain_key@),
        out.1@ == message_key(chain_key@),
{
    let mut input: Vec<u8> = Vec::with_capacity(33);
    bytes::append(&mut input, chain_key);
    input.push(0x01);
    assert(input@ =~= chain_key@.push(0x01));
    let next: [u8; 32] = secret::derive_key("seam ratchet chain 2026", input.as_slice());
    input.set(32, 0x02);
    assert(input@ =~= chain_key@.push(0x02));
    let key: [u8; 32] = secret::derive_key("seam ratchet message 2026", input.as_slice());
    secret::wipe(input.as_mut_slice());
    (next, key)
}

/// The root key after a Diffie-Hellman exchange.
fn derive_new_root(root: &[u8; 32], dh: &[u8; 32]) -> (out: [u8; 32])
    ensures
        out@ == root_next(root@, dh@),
{
    let mut input: Vec<u8> = Vec::with_capacity(64);
    bytes::append(&mut input, root);
    bytes::append(&mut input, dh);
    assert(input@ =~= root@ + dh@);
    let out: [u8; 32] = secret::derive_key("seam ratchet root 2026", input.as_slice());
    secret::wipe(input.as_mut_slice());
    out
}

/// Clamps a raw X25519 secret.
pub fn clamp(raw: [u8; 32]) -> (out: [u8; 32])
    ensures
        out@ == clamped(raw@),
{
    let mut out: [u8; 32] = raw;
    out[0] = raw[0] & 248;
    out[31] = (raw[31] & 127) | 64;
    assert(out@ =~= clamped(raw@));
    out
}

/// A fresh ephemeral secret.
fn generate_ephemeral() -> (out: [u8; 32])
    ensures
        exists|raw: Seq<u8>| raw.len() == 32 && out@ == #[trigger] clamped(raw),
{
    let raw: [u8; 32] = secret::random32();
    let out: [u8; 32] = clamp(raw);
    assert(out@ == clamped(raw@));
    out
}

/// A message key. Its bytes are erased when it is dropped.
pub struct MessageKey {
    pub bytes: [u8; 32],
}

impl Drop for MessageKey {
    fn drop(&mut self)
        opens_invariants none
        no_unwind
    {
        secret::wipe(&mut self.bytes);
    }
}

/// The kept key of an overtaken packet.
pub struct KeptKey {
    pub epoch: u64,
    pub index: u64,
    pub key: Seq<u8>,
    pub since: u64,
}

impl KeptKey {
    /// The entry belongs to a packet.
    pub open spec fn of(self, epoch: u64, index: u64) -> bool {
        self.epoch == epoch && self.index == index
    }

    /// The entry has not expired.
    pub open spec fn fresh(self, now: u64) -> bool {
        now - self.since < SKIP_KEY_TTL
    }
}

/// The last entry that belongs to a packet.
pub open spec fn lookup(kept: Seq<KeptKey>, epoch: u64, index: u64) -> Option<KeptKey>
    decreases kept.len(),
{
    if kept.len() == 0 {
        None
    } else if kept.last().of(epoch, index) {
        Some(kept.last())
    } else {
        lookup(kept.drop_last(), epoch, index)
    }
}

/// The entries that have not expired.
pub open spec fn unexpired(kept: Seq<KeptKey>, now: u64) -> Seq<KeptKey> {
    kept.filter(|e: KeptKey| e.fresh(now))
}

/// The entries of other packets.
pub open spec fn without(kept: Seq<KeptKey>, epoch: u64, index: u64) -> Seq<KeptKey> {
    kept.filter(|e: KeptKey| !e.of(epoch, index))
}

/// The window with the keys of `n` overtaken packets from `pos` on, as far as there is room. A
/// key that is already kept for the same packet is replaced.
pub open spec fn stashed(
    kept: Seq<KeptKey>,
    epoch: u64,
    chain_key: Seq<u8>,
    pos: int,
    n: nat,
    now: u64,
) -> Seq<KeptKey>
    decreases n,
{
    if n == 0 {
        kept
    } else {
        let before = stashed(kept, epoch, chain_key, pos, (n - 1) as nat, now);
        if before.len() < MAX_SKIP {
            let index = (pos + n - 1) as u64;
            without(before, epoch, index).push(
                KeptKey { epoch, index, key: key_at(chain_key, (n - 1) as nat), since: now },
            )
        } else {
            before
        }
    }
}

/// What a ratchet holds.
pub struct RatchetModel {
    pub root_key: Seq<u8>,
    pub send_chain: Seq<u8>,
    pub recv_chain: Seq<u8>,
    pub send_epoch: u64,
    pub recv_epoch: u64,
    pub packets_in_epoch: u64,
    /// How many packets of the receive epoch have been passed.
    pub recv_pos: int,
    pub packet_limit: u64,
    pub time_limit: u64,
    pub last_ratchet: u64,
    pub our_ephemeral: Seq<u8>,
    pub their_ephemeral: Seq<u8>,
    pub kept: Seq<KeptKey>,
}

impl RatchetModel {
    /// The chain key that the initiator sends with.
    pub open spec fn initiator_chain(root: Seq<u8>) -> Seq<u8> {
        secret::derived("seam ratchet initiator-send 2026"@, root)
    }

    /// The chain key that the responder sends with.
    pub open spec fn responder_chain(root: Seq<u8>) -> Seq<u8> {
        secret::derived("seam ratchet responder-send 2026"@, root)
    }

    /// A ratchet at the start of a session.
    pub open spec fn begun(
        root: Seq<u8>,
        is_initiator: bool,
        ephemeral: Seq<u8>,
        packet_limit: u64,
        time_limit: u64,
    ) -> RatchetModel {
        RatchetModel {
            root_key: root,
            send_chain: if is_initiator {
                Self::initiator_chain(root)
            } else {
                Self::responder_chain(root)
            },
            recv_chain: if is_initiator {
                Self::responder_chain(root)
            } else {
                Self::initiator_chain(root)
            },
            send_epoch: 0,
            recv_epoch: 0,
            packets_in_epoch: 0,
            recv_pos: 0,
            packet_limit,
            time_limit,
            last_ratchet: 0,
            our_ephemeral: ephemeral,
            their_ephemeral: Seq::new(32, |i: int| 0u8),
            kept: Seq::empty(),
        }
    }

    /// A Diffie-Hellman step is due.
    pub open spec fn due(self, now: u64) -> bool {
        self.packets_in_epoch >= self.packet_limit || (if now >= self.last_ratchet {
            now - self.last_ratchet
        } else {
            0
        }) >= self.time_limit
    }

    /// The ratchet after one more packet was sent.
    pub open spec fn sent(self) -> RatchetModel {
        RatchetModel {
            send_chain: chain_next(self.send_chain),
            packets_in_epoch: (self.packets_in_epoch + 1) as u64,
            ..self
        }
    }

    /// The ratchet without the expired keys.
    pub open spec fn purged(self, now: u64) -> RatchetModel {
        RatchetModel { kept: unexpired(self.kept, now), ..self }
    }

    /// A packet of the current epoch that has not been passed, and no more than `MAX_SKIP` ahead.
    pub open spec fn ahead(self, epoch: u64, index: u64) -> bool {
        epoch == self.recv_epoch && self.recv_pos <= index <= self.recv_pos + MAX_SKIP
    }

    /// The message key for a packet that arrives.
    pub open spec fn received_key(self, epoch: u64, index: u64, now: u64) -> Option<Seq<u8>> {
        let m = self.purged(now);
        match lookup(m.kept, epoch, index) {
            Some(e) => Some(e.key),
            None => if m.ahead(epoch, index) {
                Some(key_at(m.recv_chain, (index - m.recv_pos) as nat))
            } else {
                None
            },
        }
    }

    /// The ratchet after a packet arrived.
    pub open spec fn received(self, epoch: u64, index: u64, now: u64) -> RatchetModel {
        let m = self.purged(now);
        if lookup(m.kept, epoch, index) is Some {
            RatchetModel { kept: without(m.kept, epoch, index), ..m }
        } else if m.ahead(epoch, index) {
            let n = (index - m.recv_pos) as nat;
            RatchetModel {
                kept: stashed(m.kept, epoch, m.recv_chain, m.recv_pos, n, now),
                recv_chain: chain_after(m.recv_chain, n + 1),
                recv_pos: index + 1,
                ..m
            }
        } else {
            m
        }
    }

    /// The ratchet after a step of the peer.
    pub open spec fn stepped_by_peer(self, public: Seq<u8>, epoch: u64) -> RatchetModel {
        let root = root_next(self.root_key, secret::x25519_dh(self.our_ephemeral, public));
        RatchetModel {
            root_key: root,
            recv_chain: secret::derived("seam ratchet recv-chain 2026"@, root),
            recv_epoch: epoch,
            recv_pos: 0,
            their_ephemeral: public,
            ..self
        }
    }

    /// The ratchet after a step of its own with a fresh ephemeral secret.
    pub open spec fn stepped(self, ephemeral: Seq<u8>, now: u64) -> RatchetModel {
        let root = root_next(self.root_key, secret::x25519_dh(ephemeral, self.their_ephemeral));
        RatchetModel {
            root_key: root,
            send_chain: secret::derived("seam ratchet send-chain 2026"@, root),
            send_epoch: if self.send_epoch == u64::MAX {
                0
            } else {
                (self.send_epoch + 1) as u64
            },
            packets_in_epoch: 0,
            last_ratchet: now,
            our_ephemeral: ephemeral,
            ..self
        }
    }
}

/// What one side sends with, the other receives with.
pub proof fn law_sides_mirror(root: Seq<u8>, e1: Seq<u8>, e2: Seq<u8>, limit: u64, time: u64)
    ensures
        ({
            let a = RatchetModel::begun(root, true, e1, limit, time);
            let b = RatchetModel::begun(root, false, e2, limit, time);
            a.send_chain == b.recv_chain && b.send_chain == a.recv_chain
        }),
{
}

/// The kept key of an overtaken packet. Its bytes are erased when it is dropped.
struct SkipEntry {
    epoch: u64,
    index: u64,
    key: [u8; 32],
    since: u64,
}

impl Drop for SkipEntry {
    fn drop(&mut self)
        opens_invariants none
        no_unwind
    {
        secret::wipe(&mut self.key);
    }
}

impl View for SkipEntry {
    type V = KeptKey;

    closed spec fn view(&self) -> KeptKey {
        KeptKey { epoch: self.epoch, index: self.index, key: self.key@, since: self.since }
    }
}

spec fn kept_of(entries: Seq<SkipEntry>) -> Seq<KeptKey> {
    Seq::new(entries.len(), |i: int| entries[i]@)
}

/// The state of one side of a session.
pub struct DoubleRatchet {
    root_key: [u8; 32],
    send_chain_key: [u8; 32],
    recv_chain_key: [u8; 32],
    send_epoch: u64,
    recv_epoch: u64,
    packets_in_epoch: u64,
    recv_packet_counter: u128,
    epoch_packet_limit: u64,
    epoch_time_limit: u64,
    origin: std::time::Instant,
    last_ratchet: u64,
    our_ephemeral: [u8; 32],
    their_ephemeral: [u8; 32],
    skipped: Vec<SkipEntry>,
}

impl Drop for DoubleRatchet {
    fn drop(&mut self)
        opens_invariants none
        no_unwind
    {
        secret::wipe(&mut self.root_key);
        secret::wipe(&mut self.send_chain_key);
        secret::wipe(&mut self.recv_chain_key);
        secret::wipe(&mut self.our_ephemeral);
    }
}

impl View for DoubleRatchet {
    type V = RatchetModel;

    closed spec fn view(&self) -> RatchetModel {
        RatchetModel {
            root_key: self.root_key@,
            send_chain: self.send_chain_key@,
            recv_chain: self.recv_chain_key@,
            send_epoch: self.send_epoch,
            recv_epoch: self.recv_epoch,
            packets_in_epoch: self.packets_in_epoch,
            recv_pos: self.recv_packet_counter as int,
            packet_limit: self.epoch_packet_limit,
            time_limit: self.epoch_time_limit,
            last_ratchet: self.last_ratchet,
            our_ephemeral: self.our_ephemeral@,
            their_ephemeral: self.their_ephemeral@,
            kept: kept_of(self.skipped@),
        }
    }
}

impl RatchetModel {
    /// The window is within its bound, and no more packets were passed than can be numbered.
    pub open spec fn wf(self) -> bool {
        &&& self.kept.len() <= MAX_SKIP
        &&& 0 <= self.recv_pos <= u64::MAX + 1
    }
}

proof fn lemma_filter_grows(s: Seq<KeptKey>, n: int, p: spec_fn(KeptKey) -> bool)
    requires
        0 <= n < s.len(),
    ensures
        s.take(n + 1).filter(p) == if p(s[n]) {
            s.take(n).filter(p).push(s[n])
        } else {
            s.take(n).filter(p)
        },
{
    reveal(Seq::filter);
    assert(s.take(n + 1).drop_last() =~= s.take(n));
    assert(s.take(n + 1).last() == s[n]);
}

proof fn lemma_filter_bound(s: Seq<KeptKey>, p: spec_fn(KeptKey) -> bool)
    ensures
        s.filter(p).len() <= s.len(),
        forall|i: int| 0 <= i < s.filter(p).len() ==> p(#[trigger] s.filter(p)[i]),
{
    broadcast use vstd::seq_lib::group_filter_ensures;

    s.lemma_filter_len(p);
}

/// Copies an entry.
fn copied(e: &SkipEntry) -> (c: SkipEntry)
    ensures
        c@ == e@,
{
    SkipEntry { epoch: e.epoch, index: e.index, key: e.key, since: e.since }
}

impl DoubleRatchet {
    /// A ratchet for one side of a session, with the default limits.
    pub fn new(root_secret: &[u8; 32], is_initiator: bool) -> (r: Self)
        ensures
            r@.wf(),
            exists|raw: Seq<u8>|
                raw.len() == 32 && r@ == RatchetModel::begun(
                    root_secret@,
                    is_initiator,
                    #[trigger] clamped(raw),
                    DEFAULT_EPOCH_PACKET_LIMIT,
                    DEFAULT_EPOCH_TIME_LIMIT,
                ),
    {
        DoubleRatchet::new_with_limits(
            root_secret,
            is_initiator,
            DEFAULT_EPOCH_PACKET_LIMIT,
            DEFAULT_EPOCH_TIME_LIMIT,
        )
    }

    /// A ratchet with the given limits.
    pub fn new_with_limits(
        root_secret: &[u8; 32],
        is_initiator: bool,
        epoch_packet_limit: u64,
        epoch_time_limit: u64,
    ) -> (r: Self)
        ensures
            r@.wf(),
            exists|raw: Seq<u8>|
                raw.len() == 32 && r@ == RatchetModel::begun(
                    root_secret@,
                    is_initiator,
                    #[trigger] clamped(raw),
                    epoch_packet_limit,
                    epoch_time_limit,
                ),
    {
        let initiator: [u8; 32] = secret::derive_key(
            "seam ratchet initiator-send 2026",
            root_secret,
        );
        let responder: [u8; 32] = secret::derive_key(
            "seam ratchet responder-send 2026",
            root_secret,
        );
        let ephemeral: [u8; 32] = generate_ephemeral();
        let r = DoubleRatchet {
            root_key: *root_secret,
            send_chain_key: if is_initiator {
                initiator
            } else {
                responder
            },
            recv_chain_key: if is_initiator {
                responder
            } else {
                initiator
            },
            send_epoch: 0,
            recv_epoch: 0,
            packets_in_epoch: 0,
            recv_packet_counter: 0,
            epoch_packet_limit,
            epoch_time_limit,
            origin: clock::start(),
            last_ratchet: 0,
            our_ephemeral: ephemeral,
            their_ephemeral: [0u8; 32],
            skipped: Vec::new(),
        };
        proof {
            let raw = choose|raw: Seq<u8>| raw.len() == 32 && ephemeral@ == #[trigger] clamped(raw);
            let m = RatchetModel::begun(
                root_secret@,
                is_initiator,
                clamped(raw),
                epoch_packet_limit,
                epoch_time_limit,
            );
            assert(r@.their_ephemeral =~= m.their_ephemeral);
            assert(r@.kept =~= m.kept);
            assert(r@ == m);
        }
        r
    }

    /// Whether a Diffie-Hellman step is due.
    pub fn should_ratchet(&self) -> (due: bool)
        ensures
            exists|now: u64| due == self@.due(now),
    {
        let now: u64 = clock::nanos_since(&self.origin);
        let due: bool = self.should_ratchet_at(now);
        assert(due == self@.due(now));
        due
    }

    /// Whether a Diffie-Hellman step is due at a given time.
    pub fn should_ratchet_at(&self, now: u64) -> (due: bool)
        ensures
            due == self@.due(now),
    {
        let elapsed: u64 = if now >= self.last_ratchet {
            now - self.last_ratchet
        } else {
            0
        };
        self.packets_in_epoch >= self.epoch_packet_limit || elapsed >= self.epoch_time_limit
    }

    /// The message key for the next packet to send.
    pub fn next_send_key(&mut self) -> (key: MessageKey)
        requires
            old(self)@.packets_in_epoch < u64::MAX,
        ensures
            key.bytes@ == message_key(old(self)@.send_chain),
            final(self)@ == old(self)@.sent(),
    {
        let (next, key) = ratchet_step(&self.send_chain_key);
        self.send_chain_key = next;
        self.packets_in_epoch = self.packets_in_epoch + 1;
        MessageKey { bytes: key }
    }

    /// The message key for a packet that arrives: one kept since the packet was overtaken, or the
    /// next of the chain, keeping the keys of the packets in between. Nothing for a packet of
    /// another epoch, one too far ahead, or one whose key was given out or has expired.
    pub fn next_recv_key(&mut self, epoch: u64, packet_index: u64) -> (key: Option<MessageKey>)
        requires
            old(self)@.wf(),
        ensures
            final(self)@.wf(),
            exists|now: u64|
                {
                    &&& final(self)@ == #[trigger] old(self)@.received(epoch, packet_index, now)
                    &&& match key {
                        Some(k) => old(self)@.received_key(epoch, packet_index, now) == Some(
                            k.bytes@,
                        ),
                        None => old(self)@.received_key(epoch, packet_index, now) is None,
                    }
                },
    {
        let now: u64 = clock::nanos_since(&self.origin);
        let key: Option<MessageKey> = self.next_recv_key_at(epoch, packet_index, now);
        assert(self@ == old(self)@.received(epoch, packet_index, now));
        key
    }

    /// The message key for a packet that arrives at a given time.
    pub fn next_recv_key_at(&mut self, epoch: u64, packet_index: u64, now: u64) -> (key: Option<
        MessageKey,
    >)
        requires
            old(self)@.wf(),
        ensures
            final(self)@.wf(),
            final(self)@ == old(self)@.received(epoch, packet_index, now),
            match key {
                Some(k) => old(self)@.received_key(epoch, packet_index, now) == Some(k.bytes@),
                None => old(self)@.received_key(epoch, packet_index, now) is None,
            },
    {
        self.purge_expired_skip_keys(now);
        let ghost m = self@;
        match self.take_kept(epoch, packet_index) {
            Some(key) => {
                return Some(MessageKey { bytes: key });
            },
            None => {},
        }
        let pos: u128 = self.recv_packet_counter;
        let target: u128 = packet_index as u128;
        if epoch != self.recv_epoch || target < pos || target - pos > MAX_SKIP as u128 {
            return None;
        }
        let ghost chain = self.recv_chain_key@;
        let mut i: u128 = pos;
        while i < target
            invariant
                pos <= i <= target,
                target == packet_index,
                m.wf(),
                m.recv_pos == pos,
                m.recv_chain == chain,
                m.recv_epoch == epoch,
                self@ == (RatchetModel {
                    kept: stashed(m.kept, epoch, chain, pos as int, (i - pos) as nat, now),
                    recv_chain: chain_after(chain, (i - pos) as nat),
                    ..m
                }),
                self@.kept.len() <= MAX_SKIP,
            decreases target - i,
        {
            let ghost before = self@;
            let (next, key) = ratchet_step(&self.recv_chain_key);
            self.recv_chain_key = next;
            assert(self@.kept == before.kept);
            if self.skipped.len() < MAX_SKIP {
                self.keep(epoch, i as u64, key, now);
            }
            i = i + 1;
        }
        let (next, key) = ratchet_step(&self.recv_chain_key);
        self.recv_chain_key = next;
        self.recv_packet_counter = target + 1;
        assert(self@ == old(self)@.received(epoch, packet_index, now));
        Some(MessageKey { bytes: key })
    }

    /// Removes and returns the kept key of a packet.
    fn take_kept(&mut self, epoch: u64, index: u64) -> (key: Option<[u8; 32]>)
        requires
            old(self)@.wf(),
        ensures
            match key {
                Some(k) => {
                    &&& lookup(old(self)@.kept, epoch, index) is Some
                    &&& k@ == lookup(old(self)@.kept, epoch, index)->0.key
                    &&& final(self)@ == (RatchetModel {
                        kept: without(old(self)@.kept, epoch, index),
                        ..old(self)@
                    })
                    &&& final(self)@.wf()
                },
                None => lookup(old(self)@.kept, epoch, index) is None && final(self)@ == old(
                    self,
                )@,
            },
    {
        let ghost kept = self@.kept;
        let mut n: usize = self.skipped.len();
        assert(kept.take(n as int) =~= kept);
        while n > 0
            invariant
                n <= self.skipped.len(),
                self@ == old(self)@,
                old(self)@.wf(),
                kept == kept_of(self.skipped@),
                kept == self@.kept,
                lookup(kept.take(n as int), epoch, index) == lookup(kept, epoch, index),
            decreases n,
        {
            let ghost part = kept.take(n as int);
            assert(part.drop_last() =~= kept.take(n - 1));
            assert(part.last() == self.skipped@[n - 1]@);
            let e: &SkipEntry = &self.skipped[n - 1];
            if e.epoch == epoch && e.index == index {
                let key: [u8; 32] = e.key;
                self.drop_kept(epoch, index);
                return Some(key);
            }
            n = n - 1;
        }
        assert(kept.take(0).len() == 0);
        None
    }

    /// Removes the kept key of a packet.
    fn drop_kept(&mut self, epoch: u64, index: u64)
        requires
            old(self)@.wf(),
        ensures
            final(self)@ == (RatchetModel {
                kept: without(old(self)@.kept, epoch, index),
                ..old(self)@
            }),
            final(self)@.wf(),
    {
        let ghost kept = self@.kept;
        let ghost p = |e: KeptKey| !e.of(epoch, index);
        let mut rest: Vec<SkipEntry> = Vec::new();
        let n: usize = self.skipped.len();
        for i in 0..n
            invariant
                n == self.skipped.len(),
                kept == kept_of(self.skipped@),
                p == (|e: KeptKey| !e.of(epoch, index)),
                self@ == old(self)@,
                kept_of(rest@) == kept.take(i as int).filter(p),
        {
            proof {
                lemma_filter_grows(kept, i as int, p);
            }
            let e: &SkipEntry = &self.skipped[i];
            if !(e.epoch == epoch && e.index == index) {
                let ghost before = rest@;
                rest.push(copied(e));
                assert(kept_of(rest@) =~= kept_of(before).push(kept[i as int]));
            }
        }
        proof {
            assert(kept.take(n as int) =~= kept);
            lemma_filter_bound(kept, p);
        }
        self.skipped = rest;
    }

    /// Keeps the key of an overtaken packet.
    fn keep(&mut self, epoch: u64, index: u64, key: [u8; 32], now: u64)
        requires
            old(self)@.wf(),
            old(self)@.kept.len() < MAX_SKIP,
        ensures
            final(self)@ == (RatchetModel {
                kept: without(old(self)@.kept, epoch, index).push(
                    KeptKey { epoch, index, key: key@, since: now },
                ),
                ..old(self)@
            }),
            final(self)@.wf(),
    {
        proof {
            lemma_filter_bound(self@.kept, |e: KeptKey| !e.of(epoch, index));
        }
        self.drop_kept(epoch, index);
        let ghost before = self.skipped@;
        self.skipped.push(SkipEntry { epoch, index, key, since: now });
        assert(kept_of(self.skipped@) =~= kept_of(before).push(
            KeptKey { epoch, index, key: key@, since: now },
        ));
    }

    /// Removes the expired keys.
    fn purge_expired_skip_keys(&mut self, now: u64)
        requires
            old(self)@.wf(),
        ensures
            final(self)@ == old(self)@.purged(now),
            final(self)@.wf(),
    {
        let ghost kept = self@.kept;
        let ghost p = |e: KeptKey| e.fresh(now);
        let mut rest: Vec<SkipEntry> = Vec::new();
        let n: usize = self.skipped.len();
        for i in 0..n
            invariant
                n == self.skipped.len(),
                kept == kept_of(self.skipped@),
                p == (|e: KeptKey| e.fresh(now)),
                self@ == old(self)@,
                kept_of(rest@) == kept.take(i as int).filter(p),
        {
            proof {
                lemma_filter_grows(kept, i as int, p);
            }
            let e: &SkipEntry = &self.skipped[i];
            if now < e.since || now - e.since < SKIP_KEY_TTL {
                let ghost before = rest@;
                rest.push(copied(e));
                assert(kept_of(rest@) =~= kept_of(before).push(kept[i as int]));
            }
        }
        proof {
            assert(kept.take(n as int) =~= kept);
            lemma_filter_bound(kept, p);
        }
        self.skipped = rest;
    }

    /// Takes in a Diffie-Hellman step of the peer.
    pub fn apply_peer_ratchet_step(&mut self, step: &RatchetStep)
        requires
            old(self)@.wf(),
        ensures
            final(self)@.wf(),
            final(self)@ == old(self)@.stepped_by_peer(step.new_ephemeral_public@, step.epoch),
    {
        self.their_ephemeral = step.new_ephemeral_public;
        let mut dh: [u8; 32] = secret::x25519_shared(&self.our_ephemeral, &self.their_ephemeral);
        let root: [u8; 32] = derive_new_root(&self.root_key, &dh);
        secret::wipe(&mut dh);
        secret::wipe(&mut self.root_key);
        self.root_key = root;
        let chain: [u8; 32] = secret::derive_key("seam ratchet recv-chain 2026", &self.root_key);
        secret::wipe(&mut self.recv_chain_key);
        self.recv_chain_key = chain;
        self.recv_epoch = step.epoch;
        self.recv_packet_counter = 0;
    }

    /// Makes a Diffie-Hellman step and returns the frame that tells the peer.
    pub fn advance_send_ratchet(&mut self) -> (step: RatchetStep)
        requires
            old(self)@.wf(),
        ensures
            final(self)@.wf(),
            exists|raw: Seq<u8>, now: u64|
                raw.len() == 32 && final(self)@ == #[trigger] old(self)@.stepped(clamped(raw), now),
            step.new_ephemeral_public@ == secret::x25519_base(final(self)@.our_ephemeral),
            step.epoch == final(self)@.send_epoch,
    {
        let mut fresh: [u8; 32] = generate_ephemeral();
        let now: u64 = clock::nanos_since(&self.origin);
        let step: RatchetStep = self.advance_send_ratchet_with(&fresh, now);
        proof {
            let raw = choose|raw: Seq<u8>| raw.len() == 32 && fresh@ == #[trigger] clamped(raw);
            assert(self@ == old(self)@.stepped(clamped(raw), now));
        }
        secret::wipe(&mut fresh);
        step
    }

    /// Makes a Diffie-Hellman step with a given ephemeral secret at a given time.
    pub fn advance_send_ratchet_with(&mut self, ephemeral: &[u8; 32], now: u64) -> (step:
        RatchetStep)
        requires
            old(self)@.wf(),
        ensures
            final(self)@.wf(),
            final(self)@ == old(self)@.stepped(ephemeral@, now),
            step.new_ephemeral_public@ == secret::x25519_base(ephemeral@),
            step.epoch == final(self)@.send_epoch,
    {
        let public: [u8; 32] = secret::x25519_public(ephemeral);
        let mut dh: [u8; 32] = secret::x25519_shared(ephemeral, &self.their_ephemeral);
        let root: [u8; 32] = derive_new_root(&self.root_key, &dh);
        secret::wipe(&mut dh);
        secret::wipe(&mut self.root_key);
        self.root_key = root;
        let chain: [u8; 32] = secret::derive_key("seam ratchet send-chain 2026", &self.root_key);
        secret::wipe(&mut self.send_chain_key);
        self.send_chain_key = chain;
        secret::wipe(&mut self.our_ephemeral);
        self.our_ephemeral = *ephemeral;
        self.send_epoch = self.send_epoch.wrapping_add(1);
        self.packets_in_epoch = 0;
        self.last_ratchet = now;
        RatchetStep { new_ephemeral_public: public, epoch: self.send_epoch }
    }

    /// The current send epoch.
    pub fn send_epoch(&self) -> (e: u64)
        ensures
            e == self@.send_epoch,
    {
        self.send_epoch
    }

    /// The current receive epoch.
    pub fn recv_epoch(&self) -> (e: u64)
        ensures
            e == self@.recv_epoch,
    {
        self.recv_epoch
    }

    /// Packets sent in the current epoch.
    pub fn packets_in_epoch(&self) -> (n: u64)
        ensures
            n == self@.packets_in_epoch,
    {
        self.packets_in_epoch
    }

    /// The packet limit of an epoch.
    pub fn epoch_packet_limit(&self) -> (n: u64)
        ensures
            n == self@.packet_limit,
    {
        self.epoch_packet_limit
    }

    /// The time limit of an epoch, in nanoseconds.
    pub fn epoch_time_limit(&self) -> (n: u64)
        ensures
            n == self@.time_limit,
    {
        self.epoch_time_limit
    }

    /// How many keys of overtaken packets are kept.
    pub fn skipped_keys(&self) -> (n: usize)
        ensures
            n == self@.kept.len(),
    {
        self.skipped.len()
    }

    /// The current root key.
    pub fn root_key(&self) -> (key: &[u8; 32])
        ensures
            key@ == self@.root_key,
    {
        &self.root_key
    }
}

proof fn lemma_chain_split(chain_key: Seq<u8>, a: nat, b: nat)
    ensures
        chain_after(chain_after(chain_key, a), b) == chain_after(chain_key, a + b),
    decreases b,
{
    if b > 0 {
        lemma_chain_split(chain_key, a, (b - 1) as nat);
        assert((a + b - 1) as nat == a + (b - 1) as nat);
    }
}

proof fn lemma_lookup(kept: Seq<KeptKey>, epoch: u64, index: u64)
    ensures
        lookup(kept, epoch, index) is None <==> forall|i: int|
            0 <= i < kept.len() ==> !(#[trigger] kept[i]).of(epoch, index),
        lookup(kept, epoch, index) is Some ==> exists|i: int|
            0 <= i < kept.len() && #[trigger] kept[i] == lookup(kept, epoch, index)->0
                && kept[i].of(epoch, index),
    decreases kept.len(),
{
    if kept.len() > 0 {
        let rest = kept.drop_last();
        lemma_lookup(rest, epoch, index);
        if kept.last().of(epoch, index) {
            assert(kept[kept.len() - 1].of(epoch, index));
        } else {
            if lookup(rest, epoch, index) is Some {
                let i = choose|i: int|
                    0 <= i < rest.len() && #[trigger] rest[i] == lookup(rest, epoch, index)->0
                        && rest[i].of(epoch, index);
                assert(kept[i] == lookup(kept, epoch, index)->0 && kept[i].of(epoch, index));
            }
            if forall|i: int| 0 <= i < kept.len() ==> !(#[trigger] kept[i]).of(epoch, index) {
                assert forall|i: int| 0 <= i < rest.len() implies !(#[trigger] rest[i]).of(
                    epoch,
                    index,
                ) by {
                    assert(!kept[i].of(epoch, index));
                }
            }
            if lookup(rest, epoch, index) is None {
                assert forall|i: int| 0 <= i < kept.len() implies !(#[trigger] kept[i]).of(
                    epoch,
                    index,
                ) by {
                    if i < rest.len() {
                        assert(!rest[i].of(epoch, index));
                    }
                }
            }
        }
    }
}

proof fn lemma_filter_all(s: Seq<KeptKey>, p: spec_fn(KeptKey) -> bool)
    requires
        forall|i: int| 0 <= i < s.len() ==> p(#[trigger] s[i]),
    ensures
        s.filter(p) == s,
    decreases s.len(),
{
    reveal(Seq::filter);
    if s.len() > 0 {
        let rest = s.drop_last();
        assert forall|i: int| 0 <= i < rest.len() implies p(#[trigger] rest[i]) by {
            assert(p(s[i]));
        }
        lemma_filter_all(rest, p);
        assert(p(s[s.len() - 1]));
        assert(rest.push(s.last()) =~= s);
    }
}

proof fn lemma_filter_origin(s: Seq<KeptKey>, p: spec_fn(KeptKey) -> bool, i: int)
    requires
        0 <= i < s.filter(p).len(),
    ensures
        exists|j: int| 0 <= j < s.len() && #[trigger] s[j] == s.filter(p)[i],
        p(s.filter(p)[i]),
    decreases s.len(),
{
    reveal(Seq::filter);
    if s.len() > 0 {
        let rest = s.drop_last();
        if i < rest.filter(p).len() {
            lemma_filter_origin(rest, p, i);
            let j = choose|j: int| 0 <= j < rest.len() && #[trigger] rest[j] == rest.filter(p)[i];
            assert(s[j] == s.filter(p)[i]);
        } else {
            assert(s[s.len() - 1] == s.filter(p)[i]);
        }
    }
}

/// The receive chain stands where a chain that began at `start` stands after the packets passed.
pub open spec fn aligned(m: RatchetModel, start: Seq<u8>) -> bool {
    m.recv_pos >= 0 && m.recv_chain == chain_after(start, m.recv_pos as nat)
}

/// A receiver whose chain began where the sender's did derives, for a packet that was not
/// overtaken, the key that the sender used for the packet with that index.
pub proof fn law_receiver_follows_sender(
    m: RatchetModel,
    start: Seq<u8>,
    epoch: u64,
    index: u64,
    now: u64,
)
    requires
        aligned(m, start),
        m.ahead(epoch, index),
        lookup(unexpired(m.kept, now), epoch, index) is None,
    ensures
        m.received_key(epoch, index, now) == Some(key_at(start, index as nat)),
        aligned(m.received(epoch, index, now), start),
{
    let n = (index - m.recv_pos) as nat;
    lemma_chain_split(start, m.recv_pos as nat, n);
    lemma_chain_split(start, m.recv_pos as nat, n + 1);
}

/// The ratchet after `n` packets were sent in a row.
pub open spec fn after_sending(m: RatchetModel, n: nat) -> RatchetModel
    decreases n,
{
    if n == 0 {
        m
    } else {
        after_sending(m, (n - 1) as nat).sent()
    }
}

/// The `n`-th packet in a row is sent under the `n`-th key of the chain.
pub proof fn law_sender_follows_chain(m: RatchetModel, n: nat)
    ensures
        message_key(after_sending(m, n).send_chain) == key_at(m.send_chain, n),
        after_sending(m, n).send_chain == chain_after(m.send_chain, n),
    decreases n,
{
    if n > 0 {
        law_sender_follows_chain(m, (n - 1) as nat);
    }
}

/// The keys kept for the current epoch are of packets that were passed.
pub open spec fn tidy(m: RatchetModel) -> bool {
    forall|i: int|
        0 <= i < m.kept.len() && (#[trigger] m.kept[i]).epoch == m.recv_epoch ==> m.kept[i].index
            < m.recv_pos
}

proof fn lemma_filter_keeps(s: Seq<KeptKey>, p: spec_fn(KeptKey) -> bool, j: int)
    requires
        0 <= j < s.len(),
        p(s[j]),
    ensures
        exists|i: int| 0 <= i < s.filter(p).len() && #[trigger] s.filter(p)[i] == s[j],
    decreases s.len(),
{
    reveal(Seq::filter);
    let rest = s.drop_last();
    if j < rest.len() {
        lemma_filter_keeps(rest, p, j);
        let i = choose|i: int|
            0 <= i < rest.filter(p).len() && #[trigger] rest.filter(p)[i] == rest[j];
        assert(s.filter(p)[i] == s[j]);
    } else {
        assert(s.filter(p)[s.filter(p).len() - 1] == s[j]);
    }
}

proof fn lemma_purged(m: RatchetModel, now: u64)
    requires
        m.wf(),
        tidy(m),
    ensures
        tidy(m.purged(now)),
        m.purged(now).kept.len() <= m.kept.len(),
{
    let p = m.purged(now);
    let fresh_now = |e: KeptKey| e.fresh(now);
    lemma_filter_bound(m.kept, fresh_now);
    assert forall|i: int|
        0 <= i < p.kept.len() && (#[trigger] p.kept[i]).epoch == p.recv_epoch implies p.kept[i].index
        < p.recv_pos by {
        lemma_filter_origin(m.kept, fresh_now, i);
        let j = choose|j: int| 0 <= j < m.kept.len() && #[trigger] m.kept[j] == p.kept[i];
        assert(m.kept[j].index < m.recv_pos);
    }
}

/// The keys that are kept of `n` overtaken packets from `pos` on.
pub open spec fn overtaken_keys(
    epoch: u64,
    chain_key: Seq<u8>,
    pos: int,
    n: nat,
    now: u64,
) -> Seq<KeptKey> {
    Seq::new(
        n,
        |t: int|
            KeptKey {
                epoch,
                index: (pos + t) as u64,
                key: key_at(chain_key, t as nat),
                since: now,
            },
    )
}

proof fn lemma_none_of(kept: Seq<KeptKey>, new: Seq<KeptKey>, epoch: u64, pos: int, index: u64)
    requires
        0 <= pos <= index,
        forall|i: int|
            0 <= i < kept.len() && (#[trigger] kept[i]).epoch == epoch ==> kept[i].index < pos,
        forall|t: int| 0 <= t < new.len() ==> (#[trigger] new[t]).index < index,
    ensures
        without(kept + new, epoch, index) == kept + new,
{
    let all = kept + new;
    assert forall|i: int| 0 <= i < all.len() implies !(#[trigger] all[i]).of(epoch, index) by {
        if i < kept.len() {
            assert(all[i] == kept[i]);
        } else {
            assert(all[i] == new[i - kept.len()]);
        }
    }
    lemma_filter_all(all, |e: KeptKey| !e.of(epoch, index));
}

#[verifier::spinoff_prover]
#[verifier::rlimit(40)]
proof fn lemma_stashed_all(
    kept: Seq<KeptKey>,
    epoch: u64,
    chain_key: Seq<u8>,
    pos: int,
    n: nat,
    now: u64,
)
    requires
        kept.len() + n <= MAX_SKIP,
        0 <= pos,
        pos + n <= u64::MAX + 1,
        forall|i: int|
            0 <= i < kept.len() && (#[trigger] kept[i]).epoch == epoch ==> kept[i].index < pos,
    ensures
        stashed(kept, epoch, chain_key, pos, n, now) == kept + overtaken_keys(
            epoch,
            chain_key,
            pos,
            n,
            now,
        ),
    decreases n,
{
    let all = overtaken_keys(epoch, chain_key, pos, n, now);
    if n == 0 {
        assert(kept + all =~= kept);
    } else {
        let m = (n - 1) as nat;
        let index = (pos + n - 1) as u64;
        let new = overtaken_keys(epoch, chain_key, pos, m, now);
        let last = KeptKey { epoch, index, key: key_at(chain_key, m), since: now };
        lemma_stashed_all(kept, epoch, chain_key, pos, m, now);
        assert(all =~= new.push(last));
        lemma_none_of(kept, new, epoch, pos, index);
        assert(stashed(kept, epoch, chain_key, pos, n, now) == (kept + new).push(last));
        assert((kept + new).push(last) =~= kept + new.push(last));
    }
}

/// A packet that was overtaken still gets its own key, until the key expires, where there was
/// room for the keys of all packets that were overtaken with it.
pub proof fn law_overtaken_key_delivered(
    m: RatchetModel,
    epoch: u64,
    index: u64,
    overtaken: u64,
    now: u64,
    later: u64,
)
    requires
        m.wf(),
        tidy(m),
        m.ahead(epoch, index),
        m.kept.len() + (index - m.recv_pos) <= MAX_SKIP,
        m.recv_pos <= overtaken < index,
        later - now < SKIP_KEY_TTL,
    ensures
        m.received(epoch, index, now).received_key(epoch, overtaken, later) == Some(
            key_at(m.recv_chain, (overtaken - m.recv_pos) as nat),
        ),
{
    let n = (index - m.recv_pos) as nat;
    let p = m.purged(now);
    let m1 = m.received(epoch, index, now);
    lemma_purged(m, now);
    lemma_lookup(p.kept, epoch, index);
    lemma_stashed_all(p.kept, epoch, p.recv_chain, p.recv_pos, n, now);
    let new = overtaken_keys(epoch, p.recv_chain, p.recv_pos, n, now);
    assert(m1.kept == p.kept + new);
    let t = overtaken - m.recv_pos;
    assert(m1.kept[p.kept.len() + t] == new[t]);
    let fresh_later = |e: KeptKey| e.fresh(later);
    lemma_filter_keeps(m1.kept, fresh_later, p.kept.len() + t);
    let left = unexpired(m1.kept, later);
    let a = choose|a: int| 0 <= a < left.len() && #[trigger] left[a] == new[t];
    assert(left[a].of(epoch, overtaken));
    lemma_lookup(left, epoch, overtaken);
    let i = choose|i: int|
        0 <= i < left.len() && #[trigger] left[i] == lookup(left, epoch, overtaken)->0
            && left[i].of(epoch, overtaken);
    lemma_filter_origin(m1.kept, fresh_later, i);
    let j = choose|j: int| 0 <= j < m1.kept.len() && #[trigger] m1.kept[j] == left[i];
    if j < p.kept.len() {
        assert(m1.kept[j] == p.kept[j]);
    } else {
        assert(m1.kept[j] == new[j - p.kept.len()]);
        assert(j - p.kept.len() == t);
    }
}

/// What a receiver holds after the packets of its epoch in `given` have got their keys: the keys
/// of the other packets that were passed, each as the chain that began at `start` gives it, and
/// none that was put away before `from`.
#[verifier::opaque]
pub open spec fn holding(m: RatchetModel, start: Seq<u8>, given: Set<u64>, from: u64) -> bool {
    &&& aligned(m, start)
    &&& tidy(m)
    &&& forall|i: int| 0 <= i < m.kept.len() ==> (#[trigger] m.kept[i]).since >= from
    &&& forall|i: int|
        0 <= i < m.kept.len() && (#[trigger] m.kept[i]).epoch == m.recv_epoch ==> m.kept[i].key
            == key_at(start, m.kept[i].index as nat)
    &&& forall|x: u64| #[trigger]
        given.contains(x) ==> x < m.recv_pos && lookup(m.kept, m.recv_epoch, x) is None
    &&& forall|x: u64|
        x < m.recv_pos && !#[trigger] given.contains(x) ==> lookup(m.kept, m.recv_epoch, x) is Some
}

/// There is room for the keys of the packets that a packet overtakes.
pub open spec fn has_room(m: RatchetModel, index: u64) -> bool {
    index >= m.recv_pos ==> m.kept.len() + (index - m.recv_pos) <= MAX_SKIP
}

/// A packet gets the key of the chain for its index, whether it comes in order, overtakes others
/// or was overtaken, and the receiver goes on holding the keys of the packets that are still out.
#[verifier::spinoff_prover]
#[verifier::rlimit(40)]
pub proof fn law_packet_gets_its_key(
    m: RatchetModel,
    start: Seq<u8>,
    given: Set<u64>,
    from: u64,
    index: u64,
    now: u64,
)
    requires
        m.wf(),
        holding(m, start, given, from),
        from <= now,
        now - from < SKIP_KEY_TTL,
        has_room(m, index),
        !given.contains(index),
    ensures
        m.received_key(m.recv_epoch, index, now) == Some(key_at(start, index as nat)),
        m.received(m.recv_epoch, index, now).wf(),
        holding(m.received(m.recv_epoch, index, now), start, given.insert(index), from),
{
    reveal(holding);
    let epoch = m.recv_epoch;
    let m1 = m.received(epoch, index, now);
    let after = given.insert(index);
    lemma_filter_all(m.kept, |e: KeptKey| e.fresh(now));
    assert(m.purged(now) == m);
    lemma_lookup(m.kept, epoch, index);
    if index < m.recv_pos {
        let q = |e: KeptKey| !e.of(epoch, index);
        lemma_filter_bound(m.kept, q);
        assert(lookup(m.kept, epoch, index) is Some);
        assert forall|i: int| 0 <= i < m1.kept.len() implies !(#[trigger] m1.kept[i]).of(
            epoch,
            index,
        ) && exists|j: int| 0 <= j < m.kept.len() && #[trigger] m.kept[j] == m1.kept[i] by {
            lemma_filter_origin(m.kept, q, i);
        }
        assert forall|x: u64| x != index && x < m.recv_pos implies (lookup(
            m1.kept,
            epoch,
            x,
        ) is Some) == (#[trigger] lookup(m.kept, epoch, x) is Some) by {
            lemma_lookup(m.kept, epoch, x);
            lemma_lookup(m1.kept, epoch, x);
            if lookup(m.kept, epoch, x) is Some {
                let j = choose|j: int|
                    0 <= j < m.kept.len() && #[trigger] m.kept[j] == lookup(m.kept, epoch, x)->0
                        && m.kept[j].of(epoch, x);
                lemma_filter_keeps(m.kept, q, j);
            } else if lookup(m1.kept, epoch, x) is Some {
                let i = choose|i: int|
                    0 <= i < m1.kept.len() && #[trigger] m1.kept[i] == lookup(m1.kept, epoch, x)->0
                        && m1.kept[i].of(epoch, x);
                let j = choose|j: int| 0 <= j < m.kept.len() && #[trigger] m.kept[j] == m1.kept[i];
                assert(m.kept[j].of(epoch, x));
            }
        }
        lemma_lookup(m1.kept, epoch, index);
        assert(lookup(m1.kept, epoch, index) is None);
        assert forall|x: u64| #[trigger] after.contains(x) implies x < m1.recv_pos && lookup(
            m1.kept,
            epoch,
            x,
        ) is None by {
            if x != index {
                assert(given.contains(x));
                assert(lookup(m.kept, epoch, x) is None);
            }
        }
        assert forall|x: u64| x < m1.recv_pos && !#[trigger] after.contains(x) implies lookup(
            m1.kept,
            epoch,
            x,
        ) is Some by {
            assert(!given.contains(x));
            assert(lookup(m.kept, epoch, x) is Some);
        }
    } else {
        let n = (index - m.recv_pos) as nat;
        assert(lookup(m.kept, epoch, index) is None);
        lemma_chain_split(start, m.recv_pos as nat, n);
        lemma_chain_split(start, m.recv_pos as nat, n + 1);
        lemma_stashed_all(m.kept, epoch, m.recv_chain, m.recv_pos, n, now);
        let new = overtaken_keys(epoch, m.recv_chain, m.recv_pos, n, now);
        assert(m1.kept == m.kept + new);
        assert forall|i: int| 0 <= i < m1.kept.len() implies (i < m.kept.len() && (
        #[trigger] m1.kept[i]) == m.kept[i]) || (m1.kept[i].epoch == epoch && m.recv_pos
            <= m1.kept[i].index < index && m1.kept[i].since == now && m1.kept[i].key == key_at(
            start,
            m1.kept[i].index as nat,
        )) by {
            if i >= m.kept.len() {
                let t = i - m.kept.len();
                assert(m1.kept[i] == new[t]);
                lemma_chain_split(start, m.recv_pos as nat, t as nat);
            }
        }
        assert forall|x: u64| #[trigger] after.contains(x) implies x < m1.recv_pos && lookup(
            m1.kept,
            epoch,
            x,
        ) is None by {
            lemma_lookup(m1.kept, epoch, x);
            lemma_lookup(m.kept, epoch, x);
            if x != index {
                assert(given.contains(x));
            }
            assert(lookup(m.kept, epoch, x) is None);
            assert forall|i: int| 0 <= i < m1.kept.len() implies !(#[trigger] m1.kept[i]).of(
                epoch,
                x,
            ) by {
                if i < m.kept.len() {
                    assert(!m.kept[i].of(epoch, x));
                }
            }
        }
        assert forall|x: u64| x < m1.recv_pos && !#[trigger] after.contains(x) implies lookup(
            m1.kept,
            epoch,
            x,
        ) is Some by {
            lemma_lookup(m1.kept, epoch, x);
            lemma_lookup(m.kept, epoch, x);
            assert(!given.contains(x));
            if x < m.recv_pos {
                let j = choose|j: int|
                    0 <= j < m.kept.len() && #[trigger] m.kept[j] == lookup(m.kept, epoch, x)->0
                        && m.kept[j].of(epoch, x);
                assert(m1.kept[j].of(epoch, x));
            } else {
                let t = x - m.recv_pos;
                assert(m1.kept[m.kept.len() + t] == new[t]);
                assert(m1.kept[m.kept.len() + t].of(epoch, x));
            }
        }
    }
}

/// A packet whose key was given out gets none, and changes nothing that the receiver holds.
pub proof fn law_repeated_packet_gets_none(
    m: RatchetModel,
    start: Seq<u8>,
    given: Set<u64>,
    from: u64,
    index: u64,
    now: u64,
)
    requires
        m.wf(),
        holding(m, start, given, from),
        now - from < SKIP_KEY_TTL,
        given.contains(index),
    ensures
        m.received_key(m.recv_epoch, index, now) is None,
        m.received(m.recv_epoch, index, now) == m,
{
    reveal(holding);
    lemma_filter_all(m.kept, |e: KeptKey| e.fresh(now));
    assert(m.purged(now) == m);
}

/// A packet of another epoch, or one too far ahead, gets no key unless one is kept for it.
pub proof fn law_strange_packet_gets_none(m: RatchetModel, epoch: u64, index: u64, now: u64)
    requires
        epoch != m.recv_epoch || index > m.recv_pos + MAX_SKIP,
        lookup(m.kept, epoch, index) is None,
    ensures
        m.received_key(epoch, index, now) is None,
        m.received(epoch, index, now) == m.purged(now),
{
    let fresh_now = |e: KeptKey| e.fresh(now);
    let left = unexpired(m.kept, now);
    lemma_lookup(m.kept, epoch, index);
    lemma_lookup(left, epoch, index);
    assert forall|i: int| 0 <= i < left.len() implies !(#[trigger] left[i]).of(epoch, index) by {
        lemma_filter_origin(m.kept, fresh_now, i);
        let j = choose|j: int| 0 <= j < m.kept.len() && #[trigger] m.kept[j] == left[i];
        assert(!m.kept[j].of(epoch, index));
    }
}

/// The receiver after packets of its epoch arrived, each given by its index and its time.
pub open spec fn after_arrivals(m: RatchetModel, arrivals: Seq<(u64, u64)>) -> RatchetModel
    decreases arrivals.len(),
{
    if arrivals.len() == 0 {
        m
    } else {
        let before = after_arrivals(m, arrivals.drop_last());
        before.received(before.recv_epoch, arrivals.last().0, arrivals.last().1)
    }
}

/// The indices that have arrived.
pub open spec fn arrived(arrivals: Seq<(u64, u64)>) -> Set<u64> {
    Set::new(|x: u64| exists|i: int| 0 <= i < arrivals.len() && #[trigger] arrivals[i].0 == x)
}

proof fn lemma_arrived_grows(before: Seq<(u64, u64)>, last: (u64, u64))
    ensures
        arrived(before.push(last)) == arrived(before).insert(last.0),
{
    let after = before.push(last);
    assert forall|x: u64| arrived(after).contains(x) == arrived(before).insert(last.0).contains(
        x,
    ) by {
        if arrived(before).contains(x) {
            let i = choose|i: int| 0 <= i < before.len() && #[trigger] before[i].0 == x;
            assert(after[i].0 == x);
        }
        if arrived(after).contains(x) {
            let i = choose|i: int| 0 <= i < after.len() && #[trigger] after[i].0 == x;
            if i < before.len() {
                assert(before[i].0 == x);
            }
        }
        assert(after[before.len() as int].0 == last.0);
    }
    assert(arrived(after) =~= arrived(before).insert(last.0));
}

proof fn lemma_arrival(
    m: RatchetModel,
    start: Seq<u8>,
    given: Set<u64>,
    from: u64,
    index: u64,
    now: u64,
)
    requires
        m.wf(),
        holding(m, start, given, from),
        from <= now,
        now - from < SKIP_KEY_TTL,
        has_room(m, index),
    ensures
        m.received(m.recv_epoch, index, now).wf(),
        m.received(m.recv_epoch, index, now).recv_epoch == m.recv_epoch,
        holding(m.received(m.recv_epoch, index, now), start, given.insert(index), from),
{
    if given.contains(index) {
        law_repeated_packet_gets_none(m, start, given, from, index, now);
        assert(given.insert(index) =~= given);
    } else {
        law_packet_gets_its_key(m, start, given, from, index, now);
    }
}

#[verifier::spinoff_prover]
#[verifier::rlimit(40)]
proof fn lemma_arrivals(
    m: RatchetModel,
    start: Seq<u8>,
    arrivals: Seq<(u64, u64)>,
    from: u64,
    n: int,
)
    requires
        m.wf(),
        holding(m, start, Set::empty(), from),
        0 <= n <= arrivals.len(),
        forall|i: int|
            0 <= i < arrivals.len() ==> from <= (#[trigger] arrivals[i]).1 < from + SKIP_KEY_TTL,
        forall|i: int|
            0 <= i < arrivals.len() ==> has_room(
                after_arrivals(m, arrivals.take(i)),
                (#[trigger] arrivals[i]).0,
            ),
    ensures
        after_arrivals(m, arrivals.take(n)).wf(),
        after_arrivals(m, arrivals.take(n)).recv_epoch == m.recv_epoch,
        holding(after_arrivals(m, arrivals.take(n)), start, arrived(arrivals.take(n)), from),
    decreases n,
{
    if n == 0 {
        assert(arrived(arrivals.take(0)) =~= Set::empty());
    } else {
        lemma_arrivals(m, start, arrivals, from, n - 1);
        let b = arrivals.take(n - 1);
        let (index, now) = arrivals[n - 1];
        assert(arrivals.take(n) =~= b.push(arrivals[n - 1]));
        assert(arrivals.take(n).drop_last() =~= b);
        lemma_arrived_grows(b, arrivals[n - 1]);
        lemma_arrival(after_arrivals(m, b), start, arrived(b), from, index, now);
    }
}

/// In whatever order the packets of an epoch reach a receiver that is at its beginning, the first
/// packet with an index gets the key that the sender used for the packet with that index, and a
/// second one gets none: as long as the packets come within the time that keys are kept, and there
/// is room for the keys of the packets that are out.
pub proof fn law_keys_in_any_order(
    sender: RatchetModel,
    receiver: RatchetModel,
    arrivals: Seq<(u64, u64)>,
    from: u64,
    n: int,
)
    requires
        receiver.wf(),
        receiver.recv_pos == 0,
        receiver.recv_chain == sender.send_chain,
        forall|i: int|
            0 <= i < receiver.kept.len() ==> (#[trigger] receiver.kept[i]).epoch
                != receiver.recv_epoch && receiver.kept[i].since >= from,
        0 <= n < arrivals.len(),
        forall|i: int|
            0 <= i < arrivals.len() ==> from <= (#[trigger] arrivals[i]).1 < from + SKIP_KEY_TTL,
        forall|i: int|
            0 <= i < arrivals.len() ==> has_room(
                after_arrivals(receiver, arrivals.take(i)),
                (#[trigger] arrivals[i]).0,
            ),
    ensures
        after_arrivals(receiver, arrivals.take(n)).received_key(
            receiver.recv_epoch,
            arrivals[n].0,
            arrivals[n].1,
        ) == if arrived(arrivals.take(n)).contains(arrivals[n].0) {
            None
        } else {
            Some(message_key(after_sending(sender, arrivals[n].0 as nat).send_chain))
        },
{
    let start = sender.send_chain;
    let (index, now) = arrivals[n];
    let given = arrived(arrivals.take(n));
    let m = after_arrivals(receiver, arrivals.take(n));
    assert(holding(receiver, start, Set::empty(), from)) by {
        reveal(holding);
    }
    lemma_arrivals(receiver, start, arrivals, from, n);
    law_sender_follows_chain(sender, index as nat);
    if given.contains(index) {
        law_repeated_packet_gets_none(m, start, given, from, index, now);
    } else {
        law_packet_gets_its_key(m, start, given, from, index, now);
    }
}

proof fn lemma_stashed_origin(
    kept: Seq<KeptKey>,
    epoch: u64,
    chain_key: Seq<u8>,
    pos: int,
    n: nat,
    now: u64,
    i: int,
)
    requires
        0 <= pos,
        pos + n <= u64::MAX + 1,
        0 <= i < stashed(kept, epoch, chain_key, pos, n, now).len(),
    ensures
        ({
            let e = stashed(kept, epoch, chain_key, pos, n, now)[i];
            (e.epoch == epoch && pos <= e.index < pos + n) || exists|j: int|
                0 <= j < kept.len() && #[trigger] kept[j] == e
        }),
    decreases n,
{
    if n == 0 {
        assert(kept[i] == stashed(kept, epoch, chain_key, pos, n, now)[i]);
    } else {
        let m = (n - 1) as nat;
        let before = stashed(kept, epoch, chain_key, pos, m, now);
        if before.len() < MAX_SKIP {
            let index = (pos + n - 1) as u64;
            let p = |e: KeptKey| !e.of(epoch, index);
            let rest = without(before, epoch, index);
            if i < rest.len() {
                lemma_filter_origin(before, p, i);
                let j = choose|j: int| 0 <= j < before.len() && #[trigger] before[j] == rest[i];
                lemma_stashed_origin(kept, epoch, chain_key, pos, m, now, j);
            }
        } else {
            lemma_stashed_origin(kept, epoch, chain_key, pos, m, now, i);
        }
    }
}

/// A key is given out once: after a packet got its key, a packet with the same epoch and index
/// gets none.
pub proof fn law_key_given_once(m: RatchetModel, epoch: u64, index: u64, now: u64, later: u64)
    requires
        m.wf(),
        tidy(m),
        m.received_key(epoch, index, now) is Some,
    ensures
        tidy(m.received(epoch, index, now)),
        m.received(epoch, index, now).received_key(epoch, index, later) is None,
{
    let p = m.purged(now);
    let m1 = m.received(epoch, index, now);
    lemma_purged(m, now);
    lemma_lookup(p.kept, epoch, index);
    if lookup(p.kept, epoch, index) is Some {
        let q = |e: KeptKey| !e.of(epoch, index);
        let i0 = choose|i: int|
            0 <= i < p.kept.len() && #[trigger] p.kept[i] == lookup(p.kept, epoch, index)->0
                && p.kept[i].of(epoch, index);
        assert forall|i: int|
            0 <= i < m1.kept.len() && (#[trigger] m1.kept[i]).epoch == m1.recv_epoch implies m1.kept[i].index
            < m1.recv_pos by {
            lemma_filter_origin(p.kept, q, i);
            let j = choose|j: int| 0 <= j < p.kept.len() && #[trigger] p.kept[j] == m1.kept[i];
            assert(p.kept[j].index < p.recv_pos);
        }
        assert forall|i: int| 0 <= i < m1.kept.len() implies !(#[trigger] m1.kept[i]).of(
            epoch,
            index,
        ) by {
            lemma_filter_origin(p.kept, q, i);
        }
        assert(!m1.ahead(epoch, index)) by {
            if epoch == p.recv_epoch {
                assert(p.kept[i0].index < p.recv_pos);
            }
        }
    } else {
        let n = (index - p.recv_pos) as nat;
        assert forall|i: int| 0 <= i < m1.kept.len() implies !(#[trigger] m1.kept[i]).of(
            epoch,
            index,
        ) && (m1.kept[i].epoch == m1.recv_epoch ==> m1.kept[i].index < m1.recv_pos) by {
            lemma_stashed_origin(p.kept, epoch, p.recv_chain, p.recv_pos, n, now, i);
            let e = m1.kept[i];
            if !(e.epoch == epoch && p.recv_pos <= e.index < p.recv_pos + n) {
                let j = choose|j: int| 0 <= j < p.kept.len() && #[trigger] p.kept[j] == e;
                assert(!p.kept[j].of(epoch, index));
            }
        }
    }
    let fresh_later = |e: KeptKey| e.fresh(later);
    let p1 = m1.purged(later);
    assert forall|i: int| 0 <= i < p1.kept.len() implies !(#[trigger] p1.kept[i]).of(
        epoch,
        index,
    ) by {
        lemma_filter_origin(m1.kept, fresh_later, i);
        let j = choose|j: int| 0 <= j < m1.kept.len() && #[trigger] m1.kept[j] == p1.kept[i];
        assert(!m1.kept[j].of(epoch, index));
    }
    lemma_lookup(p1.kept, epoch, index);
}

/// After a step of the peer to an epoch of which no key is kept, the packets of the new epoch get
/// the keys of the chain that the step began, from index 0 on, whatever was received before. The
/// chain is derived from the new root key, which both the old root key and the exchange with the
/// new key of the peer go into.
pub proof fn law_peer_step_begins_chain(
    m: RatchetModel,
    public: Seq<u8>,
    epoch: u64,
    index: u64,
    now: u64,
)
    requires
        forall|i: int| 0 <= i < m.kept.len() ==> (#[trigger] m.kept[i]).epoch != epoch,
    ensures
        ({
            let after = m.stepped_by_peer(public, epoch);
            let root = secret::derived(
                "seam ratchet root 2026"@,
                m.root_key + secret::x25519_dh(m.our_ephemeral, public),
            );
            let chain = secret::derived("seam ratchet recv-chain 2026"@, root);
            &&& after.root_key == root
            &&& after.recv_epoch == epoch
            &&& index <= 50 ==> after.received_key(epoch, index, now) == Some(
                key_at(chain, index as nat),
            )
            &&& index > 50 ==> after.received_key(epoch, index, now) is None
        }),
{
    let after = m.stepped_by_peer(public, epoch);
    let left = unexpired(m.kept, now);
    let fresh_now = |e: KeptKey| e.fresh(now);
    assert forall|i: int| 0 <= i < left.len() implies !(#[trigger] left[i]).of(epoch, index) by {
        lemma_filter_origin(m.kept, fresh_now, i);
        let j = choose|j: int| 0 <= j < m.kept.len() && #[trigger] m.kept[j] == left[i];
        assert(m.kept[j].epoch != epoch);
    }
    lemma_lookup(left, epoch, index);
}

/// A step of the peer loses no key that is kept of another epoch: an overtaken packet of the old
/// epoch gets its key as it would have without the step.
pub proof fn law_peer_step_keeps_old_keys(
    m: RatchetModel,
    public: Seq<u8>,
    epoch: u64,
    old_epoch: u64,
    index: u64,
    now: u64,
)
    requires
        m.wf(),
        tidy(m),
        old_epoch != epoch,
        old_epoch != m.recv_epoch || index < m.recv_pos,
    ensures
        m.stepped_by_peer(public, epoch).received_key(old_epoch, index, now) == m.received_key(
            old_epoch,
            index,
            now,
        ),
{
}

/// A step of the peer does not change what is sent.
pub proof fn law_peer_step_keeps_sending(m: RatchetModel, public: Seq<u8>, epoch: u64, n: nat)
    ensures
        after_sending(m.stepped_by_peer(public, epoch), n).send_chain == after_sending(
            m,
            n,
        ).send_chain,
        m.stepped_by_peer(public, epoch).send_epoch == m.send_epoch,
        m.stepped_by_peer(public, epoch).packets_in_epoch == m.packets_in_epoch,
    decreases n,
{
    if n > 0 {
        law_peer_step_keeps_sending(m, public, epoch, (n - 1) as nat);
    }
}

/// A step of this side does not change what is received.
pub proof fn law_own_step_keeps_receiving(
    m: RatchetModel,
    ephemeral: Seq<u8>,
    at: u64,
    epoch: u64,
    index: u64,
    now: u64,
)
    ensures
        m.stepped(ephemeral, at).received_key(epoch, index, now) == m.received_key(
            epoch,
            index,
            now,
        ),
        m.stepped(ephemeral, at).recv_epoch == m.recv_epoch,
        m.stepped(ephemeral, at).kept == m.kept,
{
}

/// A step of this side begins a new epoch with a new chain: the count of packets starts at zero,
/// and the packets from then on are sent under the keys of the chain of the new root key.
pub proof fn law_own_step_begins_epoch(m: RatchetModel, ephemeral: Seq<u8>, at: u64, n: nat)
    ensures
        ({
            let after = m.stepped(ephemeral, at);
            let root = secret::derived(
                "seam ratchet root 2026"@,
                m.root_key + secret::x25519_dh(ephemeral, m.their_ephemeral),
            );
            let chain = secret::derived("seam ratchet send-chain 2026"@, root);
            &&& after.send_epoch != m.send_epoch
            &&& m.send_epoch < u64::MAX ==> after.send_epoch == m.send_epoch + 1
            &&& after.packets_in_epoch == 0
            &&& after.root_key == root
            &&& message_key(after_sending(after, n).send_chain) == key_at(chain, n)
            &&& m.packet_limit > 0 && m.time_limit > 0 ==> !after.due(at)
        }),
{
    law_sender_follows_chain(m.stepped(ephemeral, at), n);
}

/// A step is due exactly when as many packets as the limit says were sent in the epoch, or as
/// much time as the limit says has passed since the last step.
pub proof fn law_step_falls_due(m: RatchetModel, n: nat, passed: u64)
    requires
        m.packets_in_epoch == 0,
        n <= u64::MAX,
        m.last_ratchet + passed <= u64::MAX,
    ensures
        after_sending(m, n).due((m.last_ratchet + passed) as u64) <==> n >= m.packet_limit
            || passed >= m.time_limit,
{
    lemma_packets_counted(m, n);
}

proof fn lemma_packets_counted(m: RatchetModel, n: nat)
    requires
        m.packets_in_epoch == 0,
        n <= u64::MAX,
    ensures
        after_sending(m, n).packets_in_epoch == n,
        after_sending(m, n).packet_limit == m.packet_limit,
        after_sending(m, n).time_limit == m.time_limit,
        after_sending(m, n).last_ratchet == m.last_ratchet,
    decreases n,
{
    if n > 0 {
        lemma_packets_counted(m, (n - 1) as nat);
    }
}

/// A key that has been kept for thirty seconds is given out no more, and one that has been kept
/// for less is.
pub proof fn law_kept_key_expires(m: RatchetModel, index: u64, since: u64, now: u64)
    requires
        m.wf(),
        tidy(m),
        since <= now,
        index < m.recv_pos,
        m.kept.len() == 1,
        m.kept[0].of(m.recv_epoch, index),
        m.kept[0].since == since,
    ensures
        m.received_key(m.recv_epoch, index, now) is Some <==> now - since < 30_000_000_000,
        now - since < 30_000_000_000 ==> m.received_key(m.recv_epoch, index, now) == Some(
            m.kept[0].key,
        ),
{
    let p = |e: KeptKey| e.fresh(now);
    let left = unexpired(m.kept, now);
    lemma_lookup(left, m.recv_epoch, index);
    if m.kept[0].fresh(now) {
        lemma_filter_all(m.kept, p);
        assert(left[0].of(m.recv_epoch, index));
    } else {
        if left.len() > 0 {
            lemma_filter_origin(m.kept, p, 0);
        }
    }
}

/// The chains and their keys are derived under labels of their own, with a byte behind the chain
/// key that tells the next chain key from the message key.
pub proof fn law_chains_have_labels(root: Seq<u8>, chain: Seq<u8>)
    ensures
        RatchetModel::initiator_chain(root) == secret::derived(
            "seam ratchet initiator-send 2026"@,
            root,
        ),
        RatchetModel::responder_chain(root) == secret::derived(
            "seam ratchet responder-send 2026"@,
            root,
        ),
        chain_next(chain) == secret::derived("seam ratchet chain 2026"@, chain + seq![1u8]),
        message_key(chain) == secret::derived("seam ratchet message 2026"@, chain + seq![2u8]),
        key_at(chain, 0) == message_key(chain),
        key_at(chain, 1) == message_key(chain_next(chain)),
{
    reveal_with_fuel(chain_after, 2);
    assert(chain.push(1) =~= chain + seq![1u8]);
    assert(chain.push(2) =~= chain + seq![2u8]);
}

/// The two sides of a session begin in epoch 0 with nothing received and nothing sent, and send
/// with the chain of their role.
pub proof fn law_sessions_begin(root: Seq<u8>, eph: Seq<u8>, packets: u64, time: u64)
    ensures
        ({
            let a = RatchetModel::begun(root, true, eph, packets, time);
            let b = RatchetModel::begun(root, false, eph, packets, time);
            &&& a.send_chain == RatchetModel::initiator_chain(root)
            &&& b.send_chain == RatchetModel::responder_chain(root)
            &&& a.recv_chain == b.send_chain && b.recv_chain == a.send_chain
            &&& a.send_epoch == 0 && a.recv_epoch == 0 && a.recv_pos == 0
            &&& a.packets_in_epoch == 0 && a.kept.len() == 0 && a.root_key == root
            &&& b.send_epoch == 0 && b.recv_epoch == 0 && b.recv_pos == 0
            &&& b.packets_in_epoch == 0 && b.kept.len() == 0 && b.root_key == root
            &&& a.packet_limit == packets && a.time_limit == time && a.our_ephemeral == eph
        }),
        DEFAULT_EPOCH_PACKET_LIMIT == 1000,
        DEFAULT_EPOCH_TIME_LIMIT == 30_000_000_000,
{
}

/// A clamped secret has its lowest three bits and its highest bit clear and the one below set, and
/// is the raw secret in all other bits.
pub proof fn law_clamped(raw: Seq<u8>)
    requires
        raw.len() == 32,
    ensures
        clamped(raw).len() == 32,
        clamped(raw)[0] & 7 == 0,
        clamped(raw)[31] & 0xC0 == 0x40,
        clamped(raw)[0] & 0xF8 == raw[0] & 0xF8,
        clamped(raw)[31] & 0x3F == raw[31] & 0x3F,
        forall|i: int| 1 <= i < 31 ==> clamped(raw)[i] == raw[i],
{
    let a = raw[0];
    let b = raw[31];
    assert((a & 248) & 7 == 0 && (a & 248) & 0xF8 == a & 0xF8 && ((b & 127) | 64) & 0xC0 == 0x40
        && ((b & 127) | 64) & 0x3F == b & 0x3F) by (bit_vector);
}

/// The frame of a step is forty bytes: the new key, and the epoch.
pub proof fn law_step_frame(step: RatchetStep)
    ensures
        step.wire().len() == 40,
        step.wire().subrange(0, 32) == step.new_ephemeral_public@,
        bytes::un_le64(step.wire().subrange(32, 40)) == step.epoch,
{
    bytes::law_le64_read_write(step.epoch);
    assert(step.wire().subrange(0, 32) =~= step.new_ephemeral_public@);
    assert(step.wire().subrange(32, 40) =~= bytes::le64(step.epoch));
}

/// As many keys of overtaken packets are kept as there is room for, beginning with the first
/// packets, and those that are kept already stay.
pub proof fn law_window_fills_up(
    kept: Seq<KeptKey>,
    epoch: u64,
    chain_key: Seq<u8>,
    pos: int,
    n: nat,
    now: u64,
)
    requires
        kept.len() <= 50,
        0 <= pos,
        pos + n <= u64::MAX + 1,
        forall|i: int|
            0 <= i < kept.len() && (#[trigger] kept[i]).epoch == epoch ==> kept[i].index < pos,
    ensures
        ({
            let room = 50 - kept.len();
            let more = if n <= room {
                n as int
            } else {
                room
            };
            stashed(kept, epoch, chain_key, pos, n, now) == kept + overtaken_keys(
                epoch,
                chain_key,
                pos,
                more as nat,
                now,
            )
        }),
    decreases n,
{
    let room = (50 - kept.len()) as nat;
    if n <= room {
        lemma_stashed_all(kept, epoch, chain_key, pos, n, now);
    } else {
        law_window_fills_up(kept, epoch, chain_key, pos, (n - 1) as nat, now);
        assert(stashed(kept, epoch, chain_key, pos, (n - 1) as nat, now).len() == 50);
    }
}

/// The keys that are kept of overtaken packets are those of their indices, put away at the time
/// of the packet that overtook them.
pub proof fn law_overtaken_keys(epoch: u64, chain_key: Seq<u8>, pos: int, n: nat, now: u64, t: int)
    requires
        0 <= t < n,
        0 <= pos,
        pos + n <= u64::MAX + 1,
    ensures
        overtaken_keys(epoch, chain_key, pos, n, now).len() == n,
        ({
            let e = overtaken_keys(epoch, chain_key, pos, n, now)[t];
            e.epoch == epoch && e.index == pos + t && e.since == now && e.key == key_at(
                chain_key,
                t as nat,
            )
        }),
{
}

/// Whatever packet arrives, a kept key that has not expired and is not the one of that packet
/// stays kept.
pub proof fn law_kept_keys_stay(m: RatchetModel, epoch: u64, index: u64, now: u64, i: int)
    requires
        m.wf(),
        tidy(m),
        0 <= i < m.kept.len(),
        !m.kept[i].of(epoch, index),
        now - m.kept[i].since < 30_000_000_000,
    ensures
        m.received(epoch, index, now).kept.contains(m.kept[i]),
{
    let e = m.kept[i];
    let p = m.purged(now);
    let m1 = m.received(epoch, index, now);
    lemma_purged(m, now);
    lemma_filter_keeps(m.kept, |x: KeptKey| x.fresh(now), i);
    let a = choose|a: int| 0 <= a < p.kept.len() && #[trigger] p.kept[a] == e;
    if lookup(p.kept, epoch, index) is Some {
        let q = |x: KeptKey| !x.of(epoch, index);
        lemma_filter_keeps(p.kept, q, a);
        let b = choose|b: int| 0 <= b < m1.kept.len() && #[trigger] m1.kept[b] == p.kept[a];
        assert(m1.kept[b] == e);
    } else if p.ahead(epoch, index) {
        let n = (index - p.recv_pos) as nat;
        law_window_fills_up(p.kept, epoch, p.recv_chain, p.recv_pos, n, now);
        assert(m1.kept[a] == e);
    } else {
        assert(m1.kept[a] == e);
    }
}

} // verus!
