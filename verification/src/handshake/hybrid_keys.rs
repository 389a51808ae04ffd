//! Long-term identities and the hybrid session secret.
//!
//! An identity holds an X25519 key for classical agreement, an ML-KEM-768 key for post-quantum
//! agreement, and an ML-DSA-65 key that signs. A session secret takes something from each of the
//! two agreements, so that breaking one of them is not enough.

use vstd::prelude::*;
use vstd::string::*;
use crate::bytes;
use crate::crypto::digest;
use crate::crypto::keys;
use crate::crypto::keys::PacketKeys;
use crate::crypto::secret;
use crate::crypto::CipherSuite;
use crate::handshake::quantum;
use crate::text;

pub use crate::handshake::quantum::{MLDSA_PK_LEN, MLDSA_SIG_LEN, MLDSA_SK_LEN};

verus! {

/// The context in which identities are signed.
pub const PROOF_CONTEXT: &'static str = "seam-identity-proof/v1";

/// The length of a stored identity.
pub const IDENTITY_LEN: usize = 7273;

/// The length of a stored identity of the version before, which had no signing key.
pub const OLD_IDENTITY_LEN: usize = 1289;

/// A public key to encapsulate secrets under.
#[derive(Clone, Copy, Debug)]
pub struct KemPublicKey {
    bytes: [u8; 1184],
}

impl KemPublicKey {
    /// The encoded key.
    pub closed spec fn bytes(&self) -> Seq<u8> {
        self.bytes@
    }

    #[verifier::type_invariant]
    closed spec fn valid(self) -> bool {
        quantum::kem_key_valid(self.bytes@)
    }
}

/// The key that finds encapsulated secrets.
#[derive(Debug)]
pub struct KemSecretKey {
    seed: [u8; 64],
}

impl KemSecretKey {
    /// The seed of the key.
    pub closed spec fn seed(&self) -> Seq<u8> {
        self.seed@
    }

    /// The key with a seed.
    pub fn from_seed(seed: [u8; 64]) -> (sk: Self)
        ensures
            sk.seed() == seed@,
    {
        KemSecretKey { seed }
    }
}

impl Drop for KemSecretKey {
    fn drop(&mut self)
        opens_invariants none
        no_unwind
    {
        secret::wipe(&mut self.seed);
    }
}

/// Serialises a KEM public key.
pub fn pk_to_bytes(pk: &KemPublicKey) -> (out: Vec<u8>)
    ensures
        out@ == pk.bytes(),
        out@.len() == quantum::KEM_PK_LEN,
        quantum::kem_key_valid(out@),
{
    proof {
        use_type_invariant(pk);
    }
    bytes::piece(&pk.bytes, 0, 1184)
}

/// Reads a KEM public key.
pub fn pk_from_bytes(buf: &[u8]) -> (pk: Option<KemPublicKey>)
    ensures
        pk is Some <==> buf@.len() == quantum::KEM_PK_LEN && quantum::kem_key_valid(buf@),
        pk matches Some(k) ==> k.bytes() == buf@,
{
    if buf.len() != 1184 {
        return None;
    }
    let key: [u8; 1184] = bytes::array::<1184>(buf, 0);
    assert(key@ =~= buf@);
    if quantum::kem_check(&key) {
        Some(KemPublicKey { bytes: key })
    } else {
        None
    }
}

/// Encapsulates a fresh secret under a public key: the ciphertext, and the secret.
pub fn kem_encapsulate(pk: &KemPublicKey) -> (out: (Vec<u8>, [u8; 32]))
    ensures
        out.0@.len() == quantum::KEM_CT_LEN,
        quantum::kem_encapsulated(pk.bytes(), out.0@, out.1@),
{
    proof {
        use_type_invariant(pk);
    }
    match quantum::kem_encapsulate_raw(&pk.bytes) {
        Some((ct, ss)) => {
            let v: Vec<u8> = bytes::piece(&ct, 0, 1088);
            assert(v@ =~= ct@);
            (v, ss)
        },
        None => {
            assert(false);
            (Vec::new(), [0u8; 32])
        },
    }
}

/// Finds the secret in a ciphertext; a ciphertext of the wrong length holds none.
pub fn kem_decapsulate(sk: &KemSecretKey, ct_bytes: &[u8]) -> (secret: Option<[u8; 32]>)
    ensures
        secret is Some <==> ct_bytes@.len() == quantum::KEM_CT_LEN,
        secret matches Some(s) ==> s@ == quantum::kem_decapsulated(sk.seed(), ct_bytes@),
{
    if ct_bytes.len() != 1088 {
        return None;
    }
    let ct: [u8; 1088] = bytes::array::<1088>(ct_bytes, 0);
    assert(ct@ =~= ct_bytes@);
    Some(quantum::kem_decapsulate_raw(&sk.seed, &ct))
}

/// What an identity holds.
#[verifier::ext_equal]
pub struct IdentityModel {
    pub x25519_secret: Seq<u8>,
    pub x25519_public: Seq<u8>,
    pub kem_seed: Seq<u8>,
    pub kem_pk: Seq<u8>,
    pub mldsa_sk: Seq<u8>,
    pub mldsa_pk: Seq<u8>,
}

impl IdentityModel {
    /// The parts have their lengths and are well encoded, and the X25519 keys belong together.
    pub open spec fn wf(self) -> bool {
        &&& self.x25519_secret.len() == 32
        &&& self.x25519_public == secret::x25519_base(self.x25519_secret)
        &&& self.kem_seed.len() == quantum::KEM_SEED_LEN
        &&& self.kem_pk.len() == quantum::KEM_PK_LEN
        &&& self.mldsa_sk.len() == MLDSA_SK_LEN
        &&& self.mldsa_pk.len() == MLDSA_PK_LEN
        &&& quantum::kem_key_valid(self.kem_pk)
        &&& quantum::mldsa_secret_valid(self.mldsa_sk)
        &&& quantum::mldsa_public_valid(self.mldsa_pk)
    }

    /// Whether the keys of each kind were generated together.
    pub open spec fn matched(self) -> bool {
        &&& self.kem_pk == quantum::kem_public(self.kem_seed)
        &&& exists|seed: Seq<u8>|
            #[trigger] quantum::mldsa_pair(seed) == (self.mldsa_pk, self.mldsa_sk)
    }

    /// The stored form: a version byte, the X25519 secret, the KEM seed and the KEM key with
    /// their lengths, and the two signature keys.
    pub open spec fn wire(self) -> Seq<u8> {
        seq![3u8] + self.x25519_secret + bytes::be32(64) + self.kem_seed + bytes::be32(1184)
            + self.kem_pk + self.mldsa_sk + self.mldsa_pk
    }
}

/// Whether a stored identity, of either version, is sound as far as the KEM key.
pub open spec fn agreement_part_ok(b: Seq<u8>) -> bool {
    &&& b.len() >= OLD_IDENTITY_LEN
    &&& bytes::un_be32(b.subrange(33, 37)) == 64
    &&& bytes::un_be32(b.subrange(101, 105)) == 1184
    &&& quantum::kem_key_valid(b.subrange(105, 1289))
}

/// Whether bytes are a stored identity; more bytes may follow it.
pub open spec fn stored_ok(b: Seq<u8>) -> bool {
    &&& b.len() >= IDENTITY_LEN
    &&& b[0] == 3
    &&& agreement_part_ok(b)
    &&& quantum::mldsa_secret_valid(b.subrange(1289, 5321))
    &&& quantum::mldsa_public_valid(b.subrange(5321, 7273))
}

/// Whether bytes are a stored identity of the version before.
pub open spec fn stored_old_ok(b: Seq<u8>) -> bool {
    b.len() >= 1 && b[0] == 2 && agreement_part_ok(b)
}

/// The signature keys that an identity of the version before is given. They depend on its X25519
/// secret alone, so that they are the same at every upgrade.
pub open spec fn upgrade_pair(x25519_secret: Seq<u8>) -> (Seq<u8>, Seq<u8>) {
    quantum::mldsa_pair(secret::derived("seam/mldsa-identity-seed/v1"@, x25519_secret))
}

/// The identity that stored bytes hold.
pub open spec fn stored(b: Seq<u8>) -> Option<IdentityModel> {
    if stored_ok(b) {
        Some(
            IdentityModel {
                x25519_secret: b.subrange(1, 33),
                x25519_public: secret::x25519_base(b.subrange(1, 33)),
                kem_seed: b.subrange(37, 101),
                kem_pk: b.subrange(105, 1289),
                mldsa_sk: b.subrange(1289, 5321),
                mldsa_pk: b.subrange(5321, 7273),
            },
        )
    } else if stored_old_ok(b) {
        Some(
            IdentityModel {
                x25519_secret: b.subrange(1, 33),
                x25519_public: secret::x25519_base(b.subrange(1, 33)),
                kem_seed: b.subrange(37, 101),
                kem_pk: b.subrange(105, 1289),
                mldsa_sk: upgrade_pair(b.subrange(1, 33)).1,
                mldsa_pk: upgrade_pair(b.subrange(1, 33)).0,
            },
        )
    } else {
        None
    }
}

/// A long-term identity.
pub struct IdentityKeypair {
    pub x25519_secret: [u8; 32],
    pub x25519_public: [u8; 32],
    pub kem_pk: KemPublicKey,
    pub kem_sk: KemSecretKey,
    pub mldsa_sk: [u8; 4032],
    pub mldsa_pk: [u8; 1952],
}

impl View for IdentityKeypair {
    type V = IdentityModel;

    open spec fn view(&self) -> IdentityModel {
        IdentityModel {
            x25519_secret: self.x25519_secret@,
            x25519_public: self.x25519_public@,
            kem_seed: self.kem_sk.seed(),
            kem_pk: self.kem_pk.bytes(),
            mldsa_sk: self.mldsa_sk@,
            mldsa_pk: self.mldsa_pk@,
        }
    }
}

impl Drop for IdentityKeypair {
    fn drop(&mut self)
        opens_invariants none
        no_unwind
    {
        secret::wipe(&mut self.x25519_secret);
        secret::wipe(&mut self.mldsa_sk);
    }
}

impl IdentityKeypair {
    /// A fresh identity.
    pub fn generate() -> (id: Self)
        ensures
            id@.wf(),
            id@.matched(),
    {
        let x25519_secret: [u8; 32] = secret::x25519_random();
        let x25519_public: [u8; 32] = secret::x25519_public(&x25519_secret);
        let (seed, kem_pk) = quantum::kem_generate();
        let (mldsa_pk, mldsa_sk) = quantum::mldsa_generate();
        IdentityKeypair {
            x25519_secret,
            x25519_public,
            kem_pk: KemPublicKey { bytes: kem_pk },
            kem_sk: KemSecretKey { seed },
            mldsa_sk,
            mldsa_pk,
        }
    }

    /// The stored form.
    pub fn to_bytes(&self) -> (out: Vec<u8>)
        ensures
            out@ == self@.wire(),
    {
        let mut out: Vec<u8> = Vec::new();
        out.push(3u8);
        bytes::append(&mut out, &self.x25519_secret);
        bytes::put_be32(&mut out, 64);
        bytes::append(&mut out, &self.kem_sk.seed);
        bytes::put_be32(&mut out, 1184);
        bytes::append(&mut out, &self.kem_pk.bytes);
        bytes::append(&mut out, &self.mldsa_sk);
        bytes::append(&mut out, &self.mldsa_pk);
        assert(out@ =~= self@.wire());
        out
    }

    /// Reads a stored identity, of this version or of the one before.
    pub fn from_bytes(buf: &[u8]) -> (id: Option<Self>)
        ensures
            id is Some <==> stored(buf@) is Some,
            id matches Some(k) ==> Some(k@) == stored(buf@) && k@.wf(),
    {
        let len: usize = buf.len();
        if len < OLD_IDENTITY_LEN || (buf[0] != 3 && buf[0] != 2) {
            return None;
        }
        if bytes::get_be32(buf, 33) != 64 || bytes::get_be32(buf, 101) != 1184 {
            return None;
        }
        let kem_bytes: [u8; 1184] = bytes::array::<1184>(buf, 105);
        if !quantum::kem_check(&kem_bytes) {
            return None;
        }
        let x25519_secret: [u8; 32] = bytes::array::<32>(buf, 1);
        let seed: [u8; 64] = bytes::array::<64>(buf, 37);
        let (mldsa_pk, mldsa_sk) = if buf[0] == 3 {
            if len < IDENTITY_LEN {
                return None;
            }
            let sk: [u8; 4032] = bytes::array::<4032>(buf, 1289);
            let pk: [u8; 1952] = bytes::array::<1952>(buf, 5321);
            if !quantum::mldsa_check_secret(&sk) || !quantum::mldsa_check_public(&pk) {
                return None;
            }
            (pk, sk)
        } else {
            let mldsa_seed: [u8; 32] = secret::derive_key(
                "seam/mldsa-identity-seed/v1",
                &x25519_secret,
            );
            quantum::mldsa_from_seed(&mldsa_seed)
        };
        let x25519_public: [u8; 32] = secret::x25519_public(&x25519_secret);
        Some(
            IdentityKeypair {
                x25519_secret,
                x25519_public,
                kem_pk: KemPublicKey { bytes: kem_bytes },
                kem_sk: KemSecretKey { seed },
                mldsa_sk,
                mldsa_pk,
            },
        )
    }

    /// Reads the identity in a file, and says what the file should hold from now on, where that
    /// is something else: an identity of the version before is stored anew.
    pub fn from_file(contents: &[u8]) -> (out: Option<(Self, Option<Vec<u8>>)>)
        ensures
            out is Some <==> stored(contents@) is Some,
            out matches Some(pair) ==> Some(pair.0@) == stored(contents@) && pair.0@.wf()
                && match pair.1 {
                Some(b) => contents@[0] == 2 && b@ == pair.0@.wire(),
                None => contents@[0] == 3,
            },
    {
        match IdentityKeypair::from_bytes(contents) {
            None => None,
            Some(id) => {
                let rewrite = if contents[0] == 2 {
                    Some(id.to_bytes())
                } else {
                    None
                };
                Some((id, rewrite))
            },
        }
    }

    /// Signs a message, such as the hash of a handshake, with the signing key.
    pub fn mldsa_sign(&self, message: &[u8]) -> (out: Result<[u8; 3309], String>)
        ensures
            (out is Ok && self@.matched()) ==> quantum::mldsa_verified(
                self@.mldsa_pk,
                message@,
                out->Ok_0@,
                PROOF_CONTEXT.spec_bytes(),
            ),
            out is Ok ==> quantum::mldsa_secret_valid(self@.mldsa_sk),
            out matches Err(why) ==> "ML-DSA-65 sign failed: "@.is_prefix_of(why@),
    {
        match quantum::mldsa_sign_raw(&self.mldsa_sk, message, PROOF_CONTEXT.as_bytes()) {
            Ok(signature) => {
                proof {
                    if self@.matched() {
                        let seed = choose|seed: Seq<u8>|
                            #[trigger] quantum::mldsa_pair(seed) == (
                                self@.mldsa_pk,
                                self@.mldsa_sk,
                            );
                        assert(quantum::mldsa_pair(seed).1 == self.mldsa_sk@);
                    }
                }
                Ok(signature)
            },
            Err(e) => {
                let why: String = sign_failure(&e);
                Err(why)
            },
        }
    }

    /// The fingerprint of the verifying key: its SHA-256 digest in hex.
    pub fn mldsa_fingerprint(&self) -> (out: String)
        ensures
            out@ == text::hex(digest::sha256_digest(self@.mldsa_pk)),
    {
        text::to_hex(&digest::sha256(&self.mldsa_pk))
    }
}

/// What is said where signing fails.
pub fn sign_failure(why: &str) -> (out: String)
    ensures
        out@ == "ML-DSA-65 sign failed: "@ + why@,
{
    let mut out: String = String::new();
    out.append("ML-DSA-65 sign failed: ");
    out.append(why);
    assert(out@ =~= "ML-DSA-65 sign failed: "@ + why@);
    out
}

/// Verifies a signature of a peer.
pub fn mldsa_verify(pk_bytes: &[u8; 1952], message: &[u8], sig_bytes: &[u8; 3309]) -> (ok: bool)
    ensures
        ok == quantum::mldsa_verified(
            pk_bytes@,
            message@,
            sig_bytes@,
            PROOF_CONTEXT.spec_bytes(),
        ),
{
    quantum::mldsa_verify_raw(pk_bytes, message, sig_bytes, PROOF_CONTEXT.as_bytes())
}

/// What both agreements of a session gave.
pub struct HybridSharedSecret {
    data: [u8; 64],
}

impl View for HybridSharedSecret {
    type V = Seq<u8>;

    closed spec fn view(&self) -> Seq<u8> {
        self.data@
    }
}

impl Drop for HybridSharedSecret {
    fn drop(&mut self)
        opens_invariants none
        no_unwind
    {
        secret::wipe(&mut self.data);
    }
}

impl HybridSharedSecret {
    /// Joins the two secrets.
    pub fn new(x25519_bytes: [u8; 32], kem_bytes: [u8; 32]) -> (s: Self)
        ensures
            s@ == x25519_bytes@ + kem_bytes@,
    {
        let mut data: [u8; 64] = [0u8; 64];
        let mut i: usize = 0;
        while i < 64
            invariant
                i <= 64,
                forall|j: int| 0 <= j < i ==> data@[j] == (x25519_bytes@ + kem_bytes@)[j],
            decreases 64 - i,
        {
            data[i] = if i < 32 {
                x25519_bytes[i]
            } else {
                kem_bytes[i - 32]
            };
            i = i + 1;
        }
        assert(data@ =~= x25519_bytes@ + kem_bytes@);
        HybridSharedSecret { data }
    }

    /// The packet keys for the default suite, bound to the transcript of the handshake.
    pub fn derive_packet_keys(&self, noise_hash: &[u8]) -> (k: PacketKeys)
        ensures
            keys::keys_from(k, self@ + noise_hash@, CipherSuite::ChaCha20Poly1305),
    {
        self.derive_packet_keys_with_cipher(noise_hash, CipherSuite::default())
    }

    /// The packet keys for a given suite, bound to the transcript of the handshake.
    pub fn derive_packet_keys_with_cipher(
        &self,
        noise_hash: &[u8],
        cipher_suite: CipherSuite,
    ) -> (k: PacketKeys)
        ensures
            keys::keys_from(k, self@ + noise_hash@, cipher_suite),
    {
        let mut ikm: Vec<u8> = Vec::new();
        bytes::append(&mut ikm, &self.data);
        bytes::append(&mut ikm, noise_hash);
        assert(ikm@ =~= self@ + noise_hash@);
        PacketKeys::derive_from_secret_with_cipher(&ikm, cipher_suite)
    }
}

/// Reading a stored identity gives it back.
pub proof fn law_identity_round_trip(id: IdentityModel)
    requires
        id.wf(),
    ensures
        stored(id.wire()) == Some(id),
        id.wire().len() == IDENTITY_LEN,
{
    bytes::law_be32_read_write(64);
    bytes::law_be32_read_write(1184);
    let b = id.wire();
    assert(b.len() == IDENTITY_LEN);
    assert(b.subrange(1, 33) =~= id.x25519_secret);
    assert(b.subrange(33, 37) =~= bytes::be32(64));
    assert(b.subrange(37, 101) =~= id.kem_seed);
    assert(b.subrange(101, 105) =~= bytes::be32(1184));
    assert(b.subrange(105, 1289) =~= id.kem_pk);
    assert(b.subrange(1289, 5321) =~= id.mldsa_sk);
    assert(b.subrange(5321, 7273) =~= id.mldsa_pk);
}

/// Upgrading an identity of the version before is stable: read again from what the upgrade
/// stores, it is the same, and its X25519 and KEM keys are those it had.
pub proof fn law_upgrade_stable(b: Seq<u8>, id: IdentityModel)
    requires
        stored_old_ok(b),
        stored(b) == Some(id),
        id.wf(),
    ensures
        stored(id.wire()) == Some(id),
        id.x25519_secret == b.subrange(1, 33),
        id.kem_seed == b.subrange(37, 101),
        id.kem_pk == b.subrange(105, 1289),
{
    law_identity_round_trip(id);
}

/// A stored identity is read whatever follows it, and no other version is read; one that is cut
/// off is not read.
pub proof fn law_stored_forms(id: IdentityModel, rest: Seq<u8>, b: Seq<u8>)
    requires
        id.wf(),
    ensures
        stored(id.wire() + rest) == Some(id),
        id.wire().len() == 7273,
        id.wire()[0] == 3,
        b.len() > 0 && b[0] != 2 && b[0] != 3 ==> stored(b) is None,
        b.len() < 1289 ==> stored(b) is None,
        b.len() > 0 && b[0] == 3 && b.len() < 7273 ==> stored(b) is None,
{
    let w = id.wire();
    let x = w + rest;
    law_identity_round_trip(id);
    assert(x.subrange(33, 37) =~= w.subrange(33, 37));
    assert(x.subrange(101, 105) =~= w.subrange(101, 105));
    assert(x.subrange(105, 1289) =~= w.subrange(105, 1289));
    assert(x.subrange(1289, 5321) =~= w.subrange(1289, 5321));
    assert(x.subrange(5321, 7273) =~= w.subrange(5321, 7273));
    assert(x.subrange(1, 33) =~= w.subrange(1, 33));
    assert(x.subrange(37, 101) =~= w.subrange(37, 101));
    assert(w[0] == 3);
    assert(x[0] == 3);
    bytes::law_be32_read_write(64);
    bytes::law_be32_read_write(1184);
    assert(w.subrange(33, 37) =~= bytes::be32(64));
    assert(w.subrange(101, 105) =~= bytes::be32(1184));
    assert(w.subrange(105, 1289) =~= id.kem_pk);
    assert(w.subrange(1289, 5321) =~= id.mldsa_sk);
    assert(w.subrange(5321, 7273) =~= id.mldsa_pk);
    assert(w.subrange(1, 33) =~= id.x25519_secret);
    assert(w.subrange(37, 101) =~= id.kem_seed);
}

/// The signature keys of an upgraded identity are those of a seed derived from its X25519 secret,
/// so that every upgrade of identities with that secret gives the same keys.
pub proof fn law_upgrade_depends_on_secret(a: Seq<u8>, b: Seq<u8>)
    requires
        stored_old_ok(a),
        stored_old_ok(b),
        a.subrange(1, 33) == b.subrange(1, 33),
    ensures
        stored(a) is Some,
        stored(b) is Some,
        stored(a).unwrap().mldsa_sk == stored(b).unwrap().mldsa_sk,
        stored(a).unwrap().mldsa_pk == stored(b).unwrap().mldsa_pk,
        (stored(a).unwrap().mldsa_pk, stored(a).unwrap().mldsa_sk) == quantum::mldsa_pair(
            secret::derived("seam/mldsa-identity-seed/v1"@, a.subrange(1, 33)),
        ),
{
}

/// An identity of the version before is read, whatever follows it, with its keys and with the
/// signature keys that belong to its X25519 secret.
pub proof fn law_old_identity_read(x: Seq<u8>, seed: Seq<u8>, pk: Seq<u8>, rest: Seq<u8>)
    requires
        x.len() == 32,
        seed.len() == 64,
        pk.len() == 1184,
        quantum::kem_key_valid(pk),
    ensures
        stored(
            seq![2u8] + x + bytes::be32(64) + seed + bytes::be32(1184) + pk + rest,
        ) == Some(
            IdentityModel {
                x25519_secret: x,
                x25519_public: secret::x25519_base(x),
                kem_seed: seed,
                kem_pk: pk,
                mldsa_sk: quantum::mldsa_pair(
                    secret::derived("seam/mldsa-identity-seed/v1"@, x),
                ).1,
                mldsa_pk: quantum::mldsa_pair(
                    secret::derived("seam/mldsa-identity-seed/v1"@, x),
                ).0,
            },
        ),
{
    let b = seq![2u8] + x + bytes::be32(64) + seed + bytes::be32(1184) + pk + rest;
    bytes::law_be32_read_write(64);
    bytes::law_be32_read_write(1184);
    assert(b.subrange(33, 37) =~= bytes::be32(64));
    assert(b.subrange(101, 105) =~= bytes::be32(1184));
    assert(b.subrange(105, 1289) =~= pk);
    assert(b.subrange(1, 33) =~= x);
    assert(b.subrange(37, 101) =~= seed);
    assert(b[0] == 2);
}

} // verus!
