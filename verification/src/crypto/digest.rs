//! Digests of byte strings.

use vstd::prelude::*;
use sha2::Digest;

verus! {

/// The BLAKE3 digest of a text under a key.
pub uninterp spec fn keyed_digest(key: Seq<u8>, data: Seq<u8>) -> Seq<u8>;

/// The BLAKE3 digest of a text.
pub uninterp spec fn blake3_digest(data: Seq<u8>) -> Seq<u8>;

/// The SHA-256 digest of a text.
pub uninterp spec fn sha256_digest(data: Seq<u8>) -> Seq<u8>;

/// `blake3::keyed_hash`. The digest depends on the key and the text alone.
#[verifier::external_body]
pub(crate) fn keyed_hash(key: &[u8; 32], data: &[u8]) -> (out: [u8; 32])
    ensures
        out@ == keyed_digest(key@, data@),
{
    blake3::keyed_hash(key, data).into()
}

/// `Sha256::digest` of `sha2`. The digest depends on the text alone.
#[verifier::external_body]
pub(crate) fn sha256(data: &[u8]) -> (out: [u8; 32])
    ensures
        out@ == sha256_digest(data@),
{
    sha2::Sha256::digest(data).into()
}

/// `blake3::Hasher`, a BLAKE3 digest in the making.
#[verifier::external_type_specification]
#[verifier::external_body]
pub struct ExBlake3Hasher(blake3::Hasher);

/// A SHA-256 digest in the making.
#[verifier::external_body]
pub struct Sha256State {
    inner: sha2::Sha256,
}

/// The bytes that a BLAKE3 hasher has taken in.
pub uninterp spec fn blake3_taken(h: blake3::Hasher) -> Seq<u8>;

/// The bytes that a SHA-256 hasher has taken in.
pub uninterp spec fn sha256_taken(h: Sha256State) -> Seq<u8>;

/// `blake3::Hasher::new`: a hasher that has taken in nothing.
#[verifier::external_body]
pub(crate) fn blake3_start() -> (h: blake3::Hasher)
    ensures
        blake3_taken(h) == Seq::<u8>::empty(),
{
    blake3::Hasher::new()
}

/// `blake3::Hasher::update` takes in more bytes.
#[verifier::external_body]
pub(crate) fn blake3_update(h: &mut blake3::Hasher, data: &[u8])
    ensures
        blake3_taken(*final(h)) == blake3_taken(*old(h)) + data@,
{
    h.update(data);
}

/// `blake3::Hasher::finalize`: the digest of the bytes taken in.
#[verifier::external_body]
pub(crate) fn blake3_finish(h: &blake3::Hasher) -> (out: [u8; 32])
    ensures
        out@ == blake3_digest(blake3_taken(*h)),
{
    h.finalize().into()
}

/// `Sha256::new` of `sha2`: a hasher that has taken in nothing.
#[verifier::external_body]
pub(crate) fn sha256_start() -> (h: Sha256State)
    ensures
        sha256_taken(h) == Seq::<u8>::empty(),
{
    Sha256State { inner: sha2::Sha256::new() }
}

/// `Digest::update` of `sha2` takes in more bytes.
#[verifier::external_body]
pub(crate) fn sha256_update(h: &mut Sha256State, data: &[u8])
    ensures
        sha256_taken(*final(h)) == sha256_taken(*old(h)) + data@,
{
    h.inner.update(data);
}

/// `Digest::finalize` of `sha2`: the digest of the bytes taken in.
#[verifier::external_body]
pub(crate) fn sha256_finish(h: Sha256State) -> (out: [u8; 32])
    ensures
        out@ == sha256_digest(sha256_taken(h)),
{
    h.inner.finalize().into()
}

} // verus!
