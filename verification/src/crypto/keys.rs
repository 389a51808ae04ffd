//! Packet protection keys.

use vstd::prelude::*;
use crate::bytes;
use crate::crypto::CipherSuite;
use crate::crypto::secret;

verus! {

/// The keys that protect the packets of one direction.
#[derive(Clone, Debug)]
pub struct PacketKeys {
    pub enc_key: [u8; 32],
    pub hp_key: [u8; 32],
    pub nonce_base: [u8; 12],
    /// The AEAD cipher that the keys are for.
    pub cipher_suite: CipherSuite,
}

impl Drop for PacketKeys {
    fn drop(&mut self)
        opens_invariants none
        no_unwind
    {
        secret::wipe(&mut self.enc_key);
        secret::wipe(&mut self.hp_key);
        secret::wipe(&mut self.nonce_base);
    }
}

/// The keys that a traffic secret gives under a suite.
pub open spec fn keys_from(keys: PacketKeys, secret: Seq<u8>, suite: CipherSuite) -> bool {
    &&& keys.enc_key@ == secret::derived("apex/payload-encryption/v1"@, secret)
    &&& keys.hp_key@ == secret::derived("apex/header-protection/v1"@, secret)
    &&& keys.nonce_base@ == secret::derived("apex/nonce-base/v1"@, secret).take(12)
    &&& keys.cipher_suite == suite
}

/// Two sets of keys protect packets alike.
pub open spec fn same_keys(a: PacketKeys, b: PacketKeys) -> bool {
    &&& a.enc_key@ == b.enc_key@
    &&& a.hp_key@ == b.hp_key@
    &&& a.nonce_base@ == b.nonce_base@
    &&& a.cipher_suite == b.cipher_suite
}

/// The same traffic secret and suite give the same keys.
pub proof fn law_derivation_agrees(
    a: PacketKeys,
    b: PacketKeys,
    secret: Seq<u8>,
    suite: CipherSuite,
)
    requires
        keys_from(a, secret, suite),
        keys_from(b, secret, suite),
    ensures
        same_keys(a, b),
{
}

impl PacketKeys {
    /// Keys for the default suite.
    pub fn new(enc_key: [u8; 32], hp_key: [u8; 32], nonce_base: [u8; 12]) -> (keys: Self)
        ensures
            keys == (PacketKeys {
                enc_key,
                hp_key,
                nonce_base,
                cipher_suite: CipherSuite::ChaCha20Poly1305,
            }),
    {
        PacketKeys { enc_key, hp_key, nonce_base, cipher_suite: CipherSuite::default() }
    }

    /// Keys for a given suite.
    pub fn new_with_cipher(
        enc_key: [u8; 32],
        hp_key: [u8; 32],
        nonce_base: [u8; 12],
        cipher_suite: CipherSuite,
    ) -> (keys: Self)
        ensures
            keys == (PacketKeys { enc_key, hp_key, nonce_base, cipher_suite }),
    {
        PacketKeys { enc_key, hp_key, nonce_base, cipher_suite }
    }

    /// Derives the keys for the default suite from a traffic secret.
    pub fn derive_from_secret(secret: &[u8]) -> (keys: Self)
        ensures
            keys_from(keys, secret@, CipherSuite::ChaCha20Poly1305),
    {
        PacketKeys::derive_from_secret_with_cipher(secret, CipherSuite::default())
    }

    /// Derives the keys for a given suite from a traffic secret.
    pub fn derive_from_secret_with_cipher(secret: &[u8], cipher_suite: CipherSuite) -> (keys: Self)
        ensures
            keys_from(keys, secret@, cipher_suite),
    {
        let enc_key: [u8; 32] = secret::derive_key("apex/payload-encryption/v1", secret);
        let hp_key: [u8; 32] = secret::derive_key("apex/header-protection/v1", secret);
        let full: [u8; 32] = secret::derive_key("apex/nonce-base/v1", secret);
        let nonce_base: [u8; 12] = bytes::array::<12>(&full, 0);
        assert(nonce_base@ =~= full@.take(12));
        PacketKeys { enc_key, hp_key, nonce_base, cipher_suite }
    }

    /// The serialised form: encryption key, header key, nonce base.
    pub open spec fn wire(&self) -> Seq<u8> {
        self.enc_key@ + self.hp_key@ + self.nonce_base@
    }

    /// Serialises the keys. The suite is agreed on separately.
    pub fn to_bytes(&self) -> (out: [u8; 76])
        ensures
            out@ == self.wire(),
    {
        let mut out: [u8; 76] = [0u8; 76];
        let mut i: usize = 0;
        while i < 76
            invariant
                i <= 76,
                forall|j: int| 0 <= j < i ==> out@[j] == self.wire()[j],
            decreases 76 - i,
        {
            out[i] = if i < 32 {
                self.enc_key[i]
            } else if i < 64 {
                self.hp_key[i - 32]
            } else {
                self.nonce_base[i - 64]
            };
            i = i + 1;
        }
        assert(out@ =~= self.wire());
        out
    }

    /// Reads keys for the default suite; there must be 76 bytes.
    pub fn from_bytes(buf: &[u8]) -> (keys: Option<Self>)
        ensures
            match keys {
                Some(k) => buf@.len() == 76 && k.wire() == buf@ && k.cipher_suite
                    == CipherSuite::ChaCha20Poly1305,
                None => buf@.len() != 76,
            },
    {
        if buf.len() != 76 {
            return None;
        }
        let keys = PacketKeys {
            enc_key: bytes::array::<32>(buf, 0),
            hp_key: bytes::array::<32>(buf, 32),
            nonce_base: bytes::array::<12>(buf, 64),
            cipher_suite: CipherSuite::default(),
        };
        assert(keys.wire() =~= buf@);
        Some(keys)
    }
}

/// The serialised form determines the keys.
pub proof fn law_keys_round_trip(a: PacketKeys, b: PacketKeys)
    requires
        a.wire() == b.wire(),
    ensures
        a.enc_key@ == b.enc_key@,
        a.hp_key@ == b.hp_key@,
        a.nonce_base@ == b.nonce_base@,
{
    assert(a.enc_key@ =~= a.wire().subrange(0, 32));
    assert(b.enc_key@ =~= b.wire().subrange(0, 32));
    assert(a.hp_key@ =~= a.wire().subrange(32, 64));
    assert(b.hp_key@ =~= b.wire().subrange(32, 64));
    assert(a.nonce_base@ =~= a.wire().subrange(64, 76));
    assert(b.nonce_base@ =~= b.wire().subrange(64, 76));
}

/// The three keys are derived from the secret under three labels.
pub proof fn law_keys_have_labels(keys: PacketKeys, secret: Seq<u8>, suite: CipherSuite)
    requires
        keys_from(keys, secret, suite),
    ensures
        keys.enc_key@ == secret::derived("apex/payload-encryption/v1"@, secret),
        keys.hp_key@ == secret::derived("apex/header-protection/v1"@, secret),
        keys.nonce_base@ == secret::derived("apex/nonce-base/v1"@, secret).subrange(0, 12),
        keys.cipher_suite == suite,
{
    let d = secret::derived("apex/nonce-base/v1"@, secret);
    assert(d.take(12) =~= d.subrange(0, 12));
}

/// The wire form of the keys is 76 bytes: the encryption key, the header key, the nonce base.
pub proof fn law_keys_wire(keys: PacketKeys)
    ensures
        keys.wire().len() == 76,
        keys.wire().subrange(0, 32) == keys.enc_key@,
        keys.wire().subrange(32, 64) == keys.hp_key@,
        keys.wire().subrange(64, 76) == keys.nonce_base@,
{
    assert(keys.wire().subrange(0, 32) =~= keys.enc_key@);
    assert(keys.wire().subrange(32, 64) =~= keys.hp_key@);
    assert(keys.wire().subrange(64, 76) =~= keys.nonce_base@);
}

} // verus!
