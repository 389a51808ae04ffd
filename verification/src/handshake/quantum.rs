//! The post-quantum primitives: ML-KEM-768 encapsulates session secrets, and ML-DSA-65 signs
//! identities. Keys, ciphertexts and signatures are byte strings in their standard encodings; a
//! decapsulation key is its seed.

use vstd::prelude::*;
use fips204::traits::{KeyGen, SerDes, Signer, Verifier};
use ml_kem::{Decapsulate, Encapsulate, Kem, KeyExport};

verus! {

/// The length of the seed of a decapsulation key.
pub const KEM_SEED_LEN: usize = 64;

/// The length of an encapsulation key.
pub const KEM_PK_LEN: usize = 1184;

/// The length of an encapsulated secret.
pub const KEM_CT_LEN: usize = 1088;

/// The length of an ML-DSA-65 signing key.
pub const MLDSA_SK_LEN: usize = 4032;

/// The length of an ML-DSA-65 verifying key.
pub const MLDSA_PK_LEN: usize = 1952;

/// The length of an ML-DSA-65 signature.
pub const MLDSA_SIG_LEN: usize = 3309;

/// The encapsulation key of the decapsulation key with a seed.
pub uninterp spec fn kem_public(seed: Seq<u8>) -> Seq<u8>;

/// Whether a byte string is an encapsulation key.
pub uninterp spec fn kem_key_valid(key: Seq<u8>) -> bool;

/// Whether encapsulating under a key can give this ciphertext with this secret.
pub uninterp spec fn kem_encapsulated(key: Seq<u8>, ciphertext: Seq<u8>, secret: Seq<u8>) -> bool;

/// The secret that a decapsulation key finds in a ciphertext.
pub uninterp spec fn kem_decapsulated(seed: Seq<u8>, ciphertext: Seq<u8>) -> Seq<u8>;

/// The verifying key and the signing key that a seed gives.
pub uninterp spec fn mldsa_pair(seed: Seq<u8>) -> (Seq<u8>, Seq<u8>);

/// Whether a byte string is a signing key.
pub uninterp spec fn mldsa_secret_valid(key: Seq<u8>) -> bool;

/// Whether a byte string is a verifying key.
pub uninterp spec fn mldsa_public_valid(key: Seq<u8>) -> bool;

/// Whether a signature on a message in a context holds under a verifying key.
pub uninterp spec fn mldsa_verified(
    key: Seq<u8>,
    message: Seq<u8>,
    signature: Seq<u8>,
    context: Seq<u8>,
) -> bool;

/// `MlKem768::generate_keypair` of `ml_kem`: the seed of a random decapsulation key, and the
/// encapsulation key that belongs to it. The encoding of a generated key passes the check on
/// encapsulation keys.
#[verifier::external_body]
pub(crate) fn kem_generate() -> (out: ([u8; 64], [u8; 1184]))
    ensures
        out.1@ == kem_public(out.0@),
        kem_key_valid(out.1@),
{
    let (dk, ek) = ml_kem::MlKem768::generate_keypair();
    (dk.to_bytes().into(), ek.to_bytes().into())
}

/// `EncapsulationKey::new` of `ml_kem` on 1184 bytes: whether they encode a key.
#[verifier::external_body]
pub(crate) fn kem_check(key: &[u8; 1184]) -> (ok: bool)
    ensures
        ok == kem_key_valid(key@),
{
    ml_kem::EncapsulationKey768::new(&(*key).into()).is_ok()
}

/// `Encapsulate::encapsulate` of `ml_kem`: a random secret, and the ciphertext that hands it to
/// the holder of the decapsulation key; nothing where the bytes encode no key. That the holder
/// finds the same secret is not stated: decapsulation fails with a small probability.
#[verifier::external_body]
pub(crate) fn kem_encapsulate_raw(key: &[u8; 1184]) -> (out: Option<([u8; 1088], [u8; 32])>)
    ensures
        out is Some <==> kem_key_valid(key@),
        out matches Some(pair) ==> kem_encapsulated(key@, pair.0@, pair.1@),
{
    let ek = ml_kem::EncapsulationKey768::new(&(*key).into()).ok()?;
    let (ct, ss) = ek.encapsulate();
    Some((ct.into(), ss.into()))
}

/// `Decapsulate::decapsulate` of `ml_kem`, under the key that `DecapsulationKey::from_seed` makes
/// of a seed. The secret depends on the seed and the ciphertext alone.
#[verifier::external_body]
pub(crate) fn kem_decapsulate_raw(seed: &[u8; 64], ciphertext: &[u8; 1088]) -> (secret: [u8; 32])
    ensures
        secret@ == kem_decapsulated(seed@, ciphertext@),
{
    let dk = ml_kem::DecapsulationKey768::from_seed((*seed).into());
    dk.decapsulate(&(*ciphertext).into()).into()
}

/// `KG::try_keygen` of `fips204::ml_dsa_65`: the verifying key and the signing key of a random
/// seed. Both encodings are valid. A system without randomness stops the program.
#[verifier::external_body]
pub(crate) fn mldsa_generate() -> (out: ([u8; 1952], [u8; 4032]))
    ensures
        exists|seed: Seq<u8>| #[trigger] mldsa_pair(seed) == (out.0@, out.1@),
        mldsa_public_valid(out.0@),
        mldsa_secret_valid(out.1@),
{
    let (pk, sk) = fips204::ml_dsa_65::KG::try_keygen().expect("ML-DSA-65 keygen failed");
    (pk.into_bytes(), sk.into_bytes())
}

/// `KG::keygen_from_seed` of `fips204::ml_dsa_65`. The keys depend on the seed alone, and both
/// encodings are valid.
#[verifier::external_body]
pub(crate) fn mldsa_from_seed(seed: &[u8; 32]) -> (out: ([u8; 1952], [u8; 4032]))
    ensures
        (out.0@, out.1@) == mldsa_pair(seed@),
        mldsa_public_valid(out.0@),
        mldsa_secret_valid(out.1@),
{
    let (pk, sk) = fips204::ml_dsa_65::KG::keygen_from_seed(seed);
    (pk.into_bytes(), sk.into_bytes())
}

/// `PrivateKey::try_from_bytes` of `fips204::ml_dsa_65`: whether the bytes encode a signing key.
#[verifier::external_body]
pub(crate) fn mldsa_check_secret(key: &[u8; 4032]) -> (ok: bool)
    ensures
        ok == mldsa_secret_valid(key@),
{
    fips204::ml_dsa_65::PrivateKey::try_from_bytes(*key).is_ok()
}

/// `PublicKey::try_from_bytes` of `fips204::ml_dsa_65`: whether the bytes encode a verifying key.
#[verifier::external_body]
pub(crate) fn mldsa_check_public(key: &[u8; 1952]) -> (ok: bool)
    ensures
        ok == mldsa_public_valid(key@),
{
    fips204::ml_dsa_65::PublicKey::try_from_bytes(*key).is_ok()
}

/// `Signer::try_sign` of `fips204::ml_dsa_65`: a randomised signature. It is refused where the
/// key or the context is, and where the system has no randomness. A signature under a generated
/// key holds under the verifying key of the same seed.
#[verifier::external_body]
pub(crate) fn mldsa_sign_raw(key: &[u8; 4032], message: &[u8], context: &[u8]) -> (out: Result<
    [u8; 3309],
    String,
>)
    ensures
        out is Ok ==> mldsa_secret_valid(key@),
        out is Ok ==> context@.len() <= 255,
        out matches Ok(signature) ==> forall|seed: Seq<u8>|
            (#[trigger] mldsa_pair(seed)).1 == key@ ==> mldsa_verified(
                mldsa_pair(seed).0,
                message@,
                signature@,
                context@,
            ),
{
    let sk = fips204::ml_dsa_65::PrivateKey::try_from_bytes(*key)?;
    Ok(sk.try_sign(message, context)?)
}

/// `Verifier::verify` of `fips204::ml_dsa_65`; bytes that encode no key verify nothing. The
/// answer depends on the arguments alone.
#[verifier::external_body]
pub(crate) fn mldsa_verify_raw(
    key: &[u8; 1952],
    message: &[u8],
    signature: &[u8; 3309],
    context: &[u8],
) -> (ok: bool)
    ensures
        ok == mldsa_verified(key@, message@, signature@, context@),
        ok ==> mldsa_public_valid(key@),
{
    match fips204::ml_dsa_65::PublicKey::try_from_bytes(*key) {
        Ok(pk) => pk.verify(message, signature, context),
        Err(_) => false,
    }
}

} // verus!
