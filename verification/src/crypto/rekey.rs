//! Rotation of traffic keys within a session.
//!
//! Each epoch has a traffic secret, from which its packet keys are derived. The secret of the
//! next epoch is derived from that of the current one, which is then erased.

use vstd::prelude::*;
use crate::crypto::CipherSuite;
use crate::crypto::keys;
use crate::crypto::keys::PacketKeys;
use crate::crypto::secret;

verus! {

/// The traffic secret of the epoch after one.
pub open spec fn next_secret(secret: Seq<u8>) -> Seq<u8> {
    secret::derived("apex/key-update/v1"@, secret)
}

/// A traffic secret.
pub struct TrafficSecret {
    bytes: [u8; 32],
}

impl View for TrafficSecret {
    type V = Seq<u8>;

    closed spec fn view(&self) -> Seq<u8> {
        self.bytes@
    }
}

/// The keys of the current epoch, and those of the next once they are prepared.
pub struct KeySchedule {
    /// The traffic secret of the current epoch.
    pub current_secret: TrafficSecret,
    /// The keys in use.
    pub current: PacketKeys,
    /// The keys of the next epoch, once prepared.
    pub next: Option<PacketKeys>,
    /// How many rotations there have been.
    pub epoch: u64,
}

impl Drop for KeySchedule {
    fn drop(&mut self)
        opens_invariants none
        no_unwind
    {
        secret::wipe(&mut self.current_secret.bytes);
    }
}

/// What a schedule holds.
pub struct ScheduleState {
    pub secret: Seq<u8>,
    pub current: PacketKeys,
    pub next: Option<PacketKeys>,
    pub epoch: u64,
}

impl View for KeySchedule {
    type V = ScheduleState;

    open spec fn view(&self) -> ScheduleState {
        ScheduleState {
            secret: self.current_secret@,
            current: self.current,
            next: self.next,
            epoch: self.epoch,
        }
    }
}

impl ScheduleState {
    /// The keys are those of the traffic secret.
    pub open spec fn wf(self) -> bool {
        &&& keys::keys_from(self.current, self.secret, CipherSuite::ChaCha20Poly1305)
        &&& match self.next {
            Some(k) => keys::keys_from(k, next_secret(self.secret), CipherSuite::ChaCha20Poly1305),
            None => true,
        }
    }
}

impl KeySchedule {
    /// The first epoch of a session.
    pub fn new(initial_secret: [u8; 32]) -> (s: Self)
        ensures
            s@.wf(),
            s@.secret == initial_secret@,
            s@.next is None,
            s@.epoch == 0,
    {
        let current: PacketKeys = PacketKeys::derive_from_secret(&initial_secret);
        KeySchedule {
            current_secret: TrafficSecret { bytes: initial_secret },
            current,
            next: None,
            epoch: 0,
        }
    }

    /// The flag bit that tells epochs apart on the wire.
    pub fn key_phase(&self) -> (phase: bool)
        ensures
            phase == (self@.epoch % 2 == 1),
    {
        let e: u64 = self.epoch;
        assert(e & 1 == e % 2) by (bit_vector);
        e & 1 == 1
    }

    /// Derives the keys of the next epoch without activating them.
    pub fn prepare_next(&mut self)
        requires
            old(self)@.wf(),
        ensures
            final(self)@.wf(),
            final(self)@.next is Some,
            old(self)@.next is Some ==> final(self)@.next == old(self)@.next,
            final(self)@.current == old(self)@.current,
            final(self)@.secret == old(self)@.secret,
            final(self)@.epoch == old(self)@.epoch,
    {
        if self.next.is_some() {
            return ;
        }
        let mut next: [u8; 32] = secret::derive_key(
            "apex/key-update/v1",
            &self.current_secret.bytes,
        );
        self.next = Some(PacketKeys::derive_from_secret(&next));
        secret::wipe(&mut next);
    }

    /// Moves to the next epoch and erases the secret of the old one.
    pub fn rotate(&mut self)
        requires
            old(self)@.wf(),
        ensures
            final(self)@.wf(),
            final(self)@.secret == next_secret(old(self)@.secret),
            final(self)@.next is None,
            old(self)@.next is Some ==> final(self)@.current == old(self)@.next->0,
            final(self)@.epoch == if old(self)@.epoch == u64::MAX {
                0
            } else {
                (old(self)@.epoch + 1) as u64
            },
    {
        self.prepare_next();
        let next: [u8; 32] = secret::derive_key(
            "apex/key-update/v1",
            &self.current_secret.bytes,
        );
        secret::wipe(&mut self.current_secret.bytes);
        self.current_secret.bytes = next;
        self.current = match self.next.take() {
            Some(k) => k,
            None => PacketKeys::derive_from_secret(&self.current_secret.bytes),
        };
        self.epoch = self.epoch.wrapping_add(1);
    }
}

/// Two schedules that start from the same secret agree on the keys of every epoch.
pub proof fn law_schedules_agree(a: ScheduleState, b: ScheduleState)
    requires
        a.wf(),
        b.wf(),
        a.secret == b.secret,
    ensures
        keys::same_keys(a.current, b.current),
        a.next is Some && b.next is Some ==> keys::same_keys(a.next->0, b.next->0),
{
}

/// Rotating flips the key phase.
pub proof fn law_phase_toggles(epoch: u64)
    ensures
        ({
            let next: u64 = if epoch == u64::MAX {
                0
            } else {
                (epoch + 1) as u64
            };
            (next % 2 == 1) != (epoch % 2 == 1)
        }),
{
}

/// The traffic secret of an epoch, given that of the first one.
pub open spec fn secret_of(first: Seq<u8>, epoch: nat) -> Seq<u8>
    decreases epoch,
{
    if epoch == 0 {
        first
    } else {
        secret::derived("apex/key-update/v1"@, secret_of(first, (epoch - 1) as nat))
    }
}

/// The keys that are prepared are those that the rotation brings: the secret of the next epoch
/// gives both.
pub proof fn law_prepared_keys_come(before: ScheduleState, after: ScheduleState, first: Seq<u8>, n: nat)
    requires
        before.wf(),
        after.wf(),
        before.next is Some,
        before.secret == secret_of(first, n),
        after.secret == next_secret(before.secret),
    ensures
        after.secret == secret_of(first, n + 1),
        keys::same_keys(after.current, before.next->0),
        after.current.enc_key@ == secret::derived(
            "apex/payload-encryption/v1"@,
            secret_of(first, n + 1),
        ),
{
    reveal_with_fuel(secret_of, 2);
    keys::law_derivation_agrees(
        after.current,
        before.next->0,
        after.secret,
        CipherSuite::ChaCha20Poly1305,
    );
}

} // verus!
