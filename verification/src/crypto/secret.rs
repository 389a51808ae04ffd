//! Key material: derivation and erasure.

use vstd::prelude::*;
use rand::RngCore;
use zeroize::Zeroize;

verus! {

/// What BLAKE3 derives from key material in a context.
pub uninterp spec fn derived(context: Seq<char>, material: Seq<u8>) -> Seq<u8>;

/// `blake3::derive_key` turns key material into a 32-byte key. The key depends on the context
/// and the material alone.
#[verifier::external_body]
pub(crate) fn derive_key(context: &str, material: &[u8]) -> (key: [u8; 32])
    ensures
        key@ == derived(context@, material@),
{
    blake3::derive_key(context, material)
}

/// `Zeroize::zeroize` overwrites every byte with zero.
#[verifier::external_body]
pub(crate) fn wipe(secret: &mut [u8])
    ensures
        final(secret)@ == Seq::new(old(secret)@.len(), |i: int| 0u8),
    opens_invariants none
    no_unwind
{
    secret.zeroize();
}

/// The X25519 public key of a secret.
pub uninterp spec fn x25519_base(secret: Seq<u8>) -> Seq<u8>;

/// The X25519 secret that a secret key shares with the holder of a public key.
pub uninterp spec fn x25519_dh(secret: Seq<u8>, public: Seq<u8>) -> Seq<u8>;

/// `PublicKey::from` a `StaticSecret` of `x25519_dalek`: the public key of a raw secret.
#[verifier::external_body]
pub(crate) fn x25519_public(secret: &[u8; 32]) -> (public: [u8; 32])
    ensures
        public@ == x25519_base(secret@),
{
    let s = x25519_dalek::StaticSecret::from(*secret);
    x25519_dalek::PublicKey::from(&s).to_bytes()
}

/// `StaticSecret::diffie_hellman` of `x25519_dalek`: the shared secret of a raw secret and a raw
/// public key.
#[verifier::external_body]
pub(crate) fn x25519_shared(secret: &[u8; 32], public: &[u8; 32]) -> (shared: [u8; 32])
    ensures
        shared@ == x25519_dh(secret@, public@),
{
    let s = x25519_dalek::StaticSecret::from(*secret);
    let p = x25519_dalek::PublicKey::from(*public);
    s.diffie_hellman(&p).to_bytes()
}

/// `RngCore::fill_bytes` of `rand::thread_rng`: 32 random bytes.
#[verifier::external_body]
pub(crate) fn random32() -> (out: [u8; 32]) {
    let mut out = [0u8; 32];
    rand::thread_rng().fill_bytes(&mut out);
    out
}

/// `StaticSecret::random_from_rng` of `x25519_dalek`, with `OsRng` of `rand`: a random X25519
/// secret.
#[verifier::external_body]
pub(crate) fn x25519_random() -> (secret: [u8; 32]) {
    x25519_dalek::StaticSecret::random_from_rng(rand::rngs::OsRng).to_bytes()
}

} // verus!
