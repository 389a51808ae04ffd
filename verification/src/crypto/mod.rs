//! Cipher suites and the AEAD ciphers behind them.

pub mod decoder;
pub mod digest;
pub mod encoder;
pub mod header;
pub mod keys;
pub mod ratchet;
pub mod rekey;
pub mod replay;
pub mod secret;

pub use rekey::KeySchedule;

use vstd::prelude::*;
use crate::bytes;
use crate::error::SeamError;
use crate::text;
use chacha20poly1305::{AeadInPlace, KeyInit};

verus! {

/// The AEAD cipher that protects packets.
#[derive(Debug, Clone, Copy, PartialEq, Eq, Structural)]
pub enum CipherSuite {
    /// ChaCha20-Poly1305, the default: fast on every platform.
    ChaCha20Poly1305,
    /// AES-256-GCM, for deployments that must follow CNSA 2.0.
    Aes256Gcm,
}

impl Default for CipherSuite {
    fn default() -> (s: Self)
        ensures
            s == CipherSuite::ChaCha20Poly1305,
    {
        CipherSuite::ChaCha20Poly1305
    }
}

impl CipherSuite {
    /// The canonical name.
    pub open spec fn name(self) -> Seq<char> {
        match self {
            CipherSuite::ChaCha20Poly1305 => "chacha20poly1305"@,
            CipherSuite::Aes256Gcm => "aes256gcm"@,
        }
    }

    /// The suite that a text names.
    pub open spec fn named(s: Seq<char>) -> Option<CipherSuite> {
        if s == "chacha20poly1305"@ || s == "chacha20-poly1305"@ {
            Some(CipherSuite::ChaCha20Poly1305)
        } else if s == "aes256gcm"@ || s == "aes-256-gcm"@ {
            Some(CipherSuite::Aes256Gcm)
        } else {
            None
        }
    }

    /// Reads a suite from its canonical name or its hyphenated form.
    pub fn parse(s: &str) -> (r: Option<Self>)
        ensures
            r == CipherSuite::named(s@),
    {
        if text::same(s, "chacha20poly1305") || text::same(s, "chacha20-poly1305") {
            Some(CipherSuite::ChaCha20Poly1305)
        } else if text::same(s, "aes256gcm") || text::same(s, "aes-256-gcm") {
            Some(CipherSuite::Aes256Gcm)
        } else {
            None
        }
    }

    /// The canonical name.
    pub fn as_str(self) -> (s: &'static str)
        ensures
            s@ == self.name(),
    {
        match self {
            CipherSuite::ChaCha20Poly1305 => "chacha20poly1305",
            CipherSuite::Aes256Gcm => "aes256gcm",
        }
    }
}

/// Parsing the name of a suite gives the suite back.
pub proof fn law_name_round_trip(suite: CipherSuite)
    ensures
        CipherSuite::named(suite.name()) == Some(suite),
{
    reveal_strlit("chacha20poly1305");
    reveal_strlit("chacha20-poly1305");
    reveal_strlit("aes256gcm");
    assert("aes256gcm"@.len() != "chacha20poly1305"@.len());
    assert("aes256gcm"@.len() != "chacha20-poly1305"@.len());
}

/// A payload of `n` bytes takes more ChaCha20 blocks than the 32-bit block counter has left.
pub open spec fn chacha_overruns(n: nat) -> bool {
    n / 64 == 0xffff_fffe && n % 64 != 0
}

/// ChaCha20-Poly1305 takes a payload of `n` bytes.
pub open spec fn chacha_fits(n: nat) -> bool {
    n / 64 < 0xffff_ffff
}

/// AES-256-GCM takes `n` bytes of payload or associated data.
pub open spec fn gcm_fits(n: nat) -> bool {
    n <= 0x10_0000_0000
}

/// What ChaCha20-Poly1305 makes of a plaintext: the ciphertext with the tag behind it.
pub uninterp spec fn chacha_sealed(
    key: Seq<u8>,
    nonce: Seq<u8>,
    aad: Seq<u8>,
    plain: Seq<u8>,
) -> Option<Seq<u8>>;

/// What ChaCha20-Poly1305 reads from a ciphertext with the tag behind it.
pub uninterp spec fn chacha_opened(
    key: Seq<u8>,
    nonce: Seq<u8>,
    aad: Seq<u8>,
    sealed: Seq<u8>,
) -> Option<Seq<u8>>;

/// What AES-256-GCM makes of a plaintext: the ciphertext with the tag behind it.
pub uninterp spec fn gcm_sealed(
    key: Seq<u8>,
    nonce: Seq<u8>,
    aad: Seq<u8>,
    plain: Seq<u8>,
) -> Option<Seq<u8>>;

/// What AES-256-GCM reads from a ciphertext with the tag behind it.
pub uninterp spec fn gcm_opened(
    key: Seq<u8>,
    nonce: Seq<u8>,
    aad: Seq<u8>,
    sealed: Seq<u8>,
) -> Option<Seq<u8>>;

/// `ChaCha20Poly1305::encrypt_in_place`: succeeds unless the payload exceeds the block counter;
/// the output is 16 bytes longer than the payload and opens to it.
#[verifier::external_body]
fn chacha_seal(key: &[u8; 32], nonce: &[u8; 12], aad: &[u8], plain: &[u8]) -> (out: Option<Vec<u8>>)
    requires
        !chacha_overruns(plain@.len()),
    ensures
        out is Some <==> chacha_fits(plain@.len()),
        match out {
            Some(v) => chacha_sealed(key@, nonce@, aad@, plain@) == Some(v@),
            None => chacha_sealed(key@, nonce@, aad@, plain@) is None,
        },
        out is Some ==> out->0@.len() == plain@.len() + 16,
        out is Some ==> chacha_opened(key@, nonce@, aad@, out->0@) == Some(plain@),
{
    let mut buffer = plain.to_vec();
    let cipher = chacha20poly1305::ChaCha20Poly1305::new(key.into());
    match cipher.encrypt_in_place(nonce.into(), aad, &mut buffer) {
        Ok(()) => Some(buffer),
        Err(_) => None,
    }
}

/// `ChaCha20Poly1305::decrypt_in_place`: succeeds only on an input that ends in the tag of what
/// stands before it; the output is 16 bytes shorter than the input and seals to it.
#[verifier::external_body]
fn chacha_open(key: &[u8; 32], nonce: &[u8; 12], aad: &[u8], sealed: &[u8]) -> (out: Option<
    Vec<u8>,
>)
    requires
        sealed@.len() >= 16 ==> !chacha_overruns((sealed@.len() - 16) as nat),
    ensures
        match out {
            Some(v) => chacha_opened(key@, nonce@, aad@, sealed@) == Some(v@),
            None => chacha_opened(key@, nonce@, aad@, sealed@) is None,
        },
        out is Some ==> out->0@.len() + 16 == sealed@.len(),
        out is Some ==> chacha_sealed(key@, nonce@, aad@, out->0@) == Some(sealed@),
{
    let mut buffer = sealed.to_vec();
    let cipher = chacha20poly1305::ChaCha20Poly1305::new(key.into());
    match cipher.decrypt_in_place(nonce.into(), aad, &mut buffer) {
        Ok(()) => Some(buffer),
        Err(_) => None,
    }
}

/// `Aes256Gcm::encrypt_in_place`: succeeds unless payload or associated data exceed the limit of
/// the mode; the output is 16 bytes longer than the payload and opens to it.
#[verifier::external_body]
fn gcm_seal(key: &[u8; 32], nonce: &[u8; 12], aad: &[u8], plain: &[u8]) -> (out: Option<Vec<u8>>)
    ensures
        out is Some <==> (gcm_fits(plain@.len()) && gcm_fits(aad@.len())),
        match out {
            Some(v) => gcm_sealed(key@, nonce@, aad@, plain@) == Some(v@),
            None => gcm_sealed(key@, nonce@, aad@, plain@) is None,
        },
        out is Some ==> out->0@.len() == plain@.len() + 16,
        out is Some ==> gcm_opened(key@, nonce@, aad@, out->0@) == Some(plain@),
{
    let mut buffer = plain.to_vec();
    let cipher = aes_gcm::Aes256Gcm::new(key.into());
    match cipher.encrypt_in_place(nonce.into(), aad, &mut buffer) {
        Ok(()) => Some(buffer),
        Err(_) => None,
    }
}

/// `Aes256Gcm::decrypt_in_place`: succeeds only on an input that ends in the tag of what stands
/// before it; the output is 16 bytes shorter than the input.
#[verifier::external_body]
fn gcm_open(key: &[u8; 32], nonce: &[u8; 12], aad: &[u8], sealed: &[u8]) -> (out: Option<Vec<u8>>)
    ensures
        match out {
            Some(v) => gcm_opened(key@, nonce@, aad@, sealed@) == Some(v@),
            None => gcm_opened(key@, nonce@, aad@, sealed@) is None,
        },
        out is Some ==> out->0@.len() + 16 == sealed@.len(),
        (out is Some && gcm_fits(out->0@.len())) ==> gcm_sealed(
            key@,
            nonce@,
            aad@,
            out->0@,
        ) == Some(sealed@),
{
    let mut buffer = sealed.to_vec();
    let cipher = aes_gcm::Aes256Gcm::new(key.into());
    match cipher.decrypt_in_place(nonce.into(), aad, &mut buffer) {
        Ok(()) => Some(buffer),
        Err(_) => None,
    }
}

/// One AEAD cipher under one key. Keys have 32 bytes, nonces 12 and tags 16.
pub trait AeadCipher: Send + Sync {
    /// The sealed form of a plaintext, where the cipher takes it.
    spec fn sealed(&self, nonce: Seq<u8>, aad: Seq<u8>, plain: Seq<u8>) -> Option<Seq<u8>>;

    /// The plaintext of a sealed form, where its tag is right.
    spec fn opened(&self, nonce: Seq<u8>, aad: Seq<u8>, sealed: Seq<u8>) -> Option<Seq<u8>>;

    /// A payload of `n` bytes that the cipher neither takes nor rejects.
    spec fn overruns(&self, n: nat) -> bool;

    /// A payload of `n` bytes, with `a` bytes of associated data, that the cipher takes.
    spec fn fits(&self, n: nat, a: nat) -> bool;

    /// Encrypts `buffer` in place and appends the tag.
    fn encrypt_in_place(&self, nonce: &[u8], aad: &[u8], buffer: &mut Vec<u8>) -> (r: Result<
        (),
        SeamError,
    >)
        requires
            !self.overruns(old(buffer)@.len()),
        ensures
            r is Ok <==> nonce@.len() == NONCE_LEN && self.fits(old(buffer)@.len(), aad@.len()),
            match r {
                Ok(()) => {
                    &&& self.sealed(nonce@, aad@, old(buffer)@) == Some(final(buffer)@)
                    &&& self.opened(nonce@, aad@, final(buffer)@) == Some(old(buffer)@)
                    &&& final(buffer)@.len() == old(buffer)@.len() + AEAD_TAG_LEN
                },
                Err(e) => e is AuthFailed && final(buffer)@ == old(buffer)@,
            },
    ;

    /// Checks the tag at the end of `buffer`, removes it and decrypts the rest in place.
    fn decrypt_in_place(&self, nonce: &[u8], aad: &[u8], buffer: &mut Vec<u8>) -> (r: Result<
        (),
        SeamError,
    >)
        requires
            old(buffer)@.len() >= AEAD_TAG_LEN ==> !self.overruns(
                (old(buffer)@.len() - AEAD_TAG_LEN) as nat,
            ),
        ensures
            r is Ok <==> nonce@.len() == NONCE_LEN && self.opened(
                nonce@,
                aad@,
                old(buffer)@,
            ) is Some,
            match r {
                Ok(()) => {
                    &&& self.opened(nonce@, aad@, old(buffer)@) == Some(final(buffer)@)
                    &&& final(buffer)@.len() + AEAD_TAG_LEN == old(buffer)@.len()
                    &&& self.fits(final(buffer)@.len(), aad@.len()) ==> self.sealed(
                        nonce@,
                        aad@,
                        final(buffer)@,
                    ) == Some(old(buffer)@)
                },
                Err(e) => e is AuthFailed && final(buffer)@ == old(buffer)@,
            },
    ;

    fn key_len() -> (n: usize)
        where
            Self: Sized,

        ensures
            n == KEY_LEN,
    {
        KEY_LEN
    }

    fn nonce_len() -> (n: usize)
        where
            Self: Sized,

        ensures
            n == NONCE_LEN,
    {
        NONCE_LEN
    }

    fn tag_len() -> (n: usize)
        where
            Self: Sized,

        ensures
            n == AEAD_TAG_LEN,
    {
        AEAD_TAG_LEN
    }
}

/// Length of an AEAD key.
pub const KEY_LEN: usize = 32;

/// Length of an AEAD nonce.
pub const NONCE_LEN: usize = 12;

/// Length of an AEAD tag.
pub const AEAD_TAG_LEN: usize = 16;

/// ChaCha20-Poly1305 under one key.
pub struct ChaCha20Poly1305Cipher {
    key: [u8; 32],
}

impl ChaCha20Poly1305Cipher {
    /// The key.
    pub closed spec fn key(&self) -> Seq<u8> {
        self.key@
    }

    /// The cipher under a key.
    pub fn new(key: [u8; 32]) -> (c: Self)
        ensures
            c.key() == key@,
    {
        ChaCha20Poly1305Cipher { key }
    }
}

impl AeadCipher for ChaCha20Poly1305Cipher {
    open spec fn sealed(&self, nonce: Seq<u8>, aad: Seq<u8>, plain: Seq<u8>) -> Option<Seq<u8>> {
        chacha_sealed(self.key(), nonce, aad, plain)
    }

    open spec fn opened(&self, nonce: Seq<u8>, aad: Seq<u8>, sealed: Seq<u8>) -> Option<Seq<u8>> {
        chacha_opened(self.key(), nonce, aad, sealed)
    }

    open spec fn overruns(&self, n: nat) -> bool {
        chacha_overruns(n)
    }

    open spec fn fits(&self, n: nat, a: nat) -> bool {
        chacha_fits(n)
    }

    fn encrypt_in_place(&self, nonce: &[u8], aad: &[u8], buffer: &mut Vec<u8>) -> (r: Result<
        (),
        SeamError,
    >) {
        if nonce.len() != NONCE_LEN {
            return Err(SeamError::AuthFailed);
        }
        let n: [u8; 12] = bytes::array::<12>(nonce, 0);
        assert(n@ =~= nonce@);
        match chacha_seal(&self.key, &n, aad, buffer.as_slice()) {
            Some(out) => {
                *buffer = out;
                Ok(())
            },
            None => Err(SeamError::AuthFailed),
        }
    }

    fn decrypt_in_place(&self, nonce: &[u8], aad: &[u8], buffer: &mut Vec<u8>) -> (r: Result<
        (),
        SeamError,
    >) {
        if nonce.len() != NONCE_LEN {
            return Err(SeamError::AuthFailed);
        }
        let n: [u8; 12] = bytes::array::<12>(nonce, 0);
        assert(n@ =~= nonce@);
        match chacha_open(&self.key, &n, aad, buffer.as_slice()) {
            Some(out) => {
                *buffer = out;
                Ok(())
            },
            None => Err(SeamError::AuthFailed),
        }
    }
}

/// AES-256-GCM under one key.
pub struct Aes256GcmCipher {
    key: [u8; 32],
}

impl Aes256GcmCipher {
    /// The key.
    pub closed spec fn key(&self) -> Seq<u8> {
        self.key@
    }

    /// The cipher under a key.
    pub fn new(key: [u8; 32]) -> (c: Self)
        ensures
            c.key() == key@,
    {
        Aes256GcmCipher { key }
    }
}

impl AeadCipher for Aes256GcmCipher {
    open spec fn sealed(&self, nonce: Seq<u8>, aad: Seq<u8>, plain: Seq<u8>) -> Option<Seq<u8>> {
        gcm_sealed(self.key(), nonce, aad, plain)
    }

    open spec fn opened(&self, nonce: Seq<u8>, aad: Seq<u8>, sealed: Seq<u8>) -> Option<Seq<u8>> {
        gcm_opened(self.key(), nonce, aad, sealed)
    }

    open spec fn overruns(&self, n: nat) -> bool {
        false
    }

    open spec fn fits(&self, n: nat, a: nat) -> bool {
        gcm_fits(n) && gcm_fits(a)
    }

    fn encrypt_in_place(&self, nonce: &[u8], aad: &[u8], buffer: &mut Vec<u8>) -> (r: Result<
        (),
        SeamError,
    >) {
        if nonce.len() != NONCE_LEN {
            return Err(SeamError::AuthFailed);
        }
        let n: [u8; 12] = bytes::array::<12>(nonce, 0);
        assert(n@ =~= nonce@);
        match gcm_seal(&self.key, &n, aad, buffer.as_slice()) {
            Some(out) => {
                *buffer = out;
                Ok(())
            },
            None => Err(SeamError::AuthFailed),
        }
    }

    fn decrypt_in_place(&self, nonce: &[u8], aad: &[u8], buffer: &mut Vec<u8>) -> (r: Result<
        (),
        SeamError,
    >) {
        if nonce.len() != NONCE_LEN {
            return Err(SeamError::AuthFailed);
        }
        let n: [u8; 12] = bytes::array::<12>(nonce, 0);
        assert(n@ =~= nonce@);
        match gcm_open(&self.key, &n, aad, buffer.as_slice()) {
            Some(out) => {
                *buffer = out;
                Ok(())
            },
            None => Err(SeamError::AuthFailed),
        }
    }
}

/// The cipher of a suite under one key.
pub enum Cipher {
    ChaCha(ChaCha20Poly1305Cipher),
    Aes(Aes256GcmCipher),
}

/// The sealed form of a plaintext under a suite.
pub open spec fn suite_sealed(
    suite: CipherSuite,
    key: Seq<u8>,
    nonce: Seq<u8>,
    aad: Seq<u8>,
    plain: Seq<u8>,
) -> Option<Seq<u8>> {
    match suite {
        CipherSuite::ChaCha20Poly1305 => chacha_sealed(key, nonce, aad, plain),
        CipherSuite::Aes256Gcm => gcm_sealed(key, nonce, aad, plain),
    }
}

/// The plaintext of a sealed form under a suite.
pub open spec fn suite_opened(
    suite: CipherSuite,
    key: Seq<u8>,
    nonce: Seq<u8>,
    aad: Seq<u8>,
    sealed: Seq<u8>,
) -> Option<Seq<u8>> {
    match suite {
        CipherSuite::ChaCha20Poly1305 => chacha_opened(key, nonce, aad, sealed),
        CipherSuite::Aes256Gcm => gcm_opened(key, nonce, aad, sealed),
    }
}

/// A payload of `n` bytes that the cipher of a suite neither takes nor rejects.
pub open spec fn suite_overruns(suite: CipherSuite, n: nat) -> bool {
    suite == CipherSuite::ChaCha20Poly1305 && chacha_overruns(n)
}

/// A payload of `n` bytes, with `a` bytes of associated data, that the cipher of a suite takes.
pub open spec fn suite_fits(suite: CipherSuite, n: nat, a: nat) -> bool {
    match suite {
        CipherSuite::ChaCha20Poly1305 => chacha_fits(n),
        CipherSuite::Aes256Gcm => gcm_fits(n) && gcm_fits(a),
    }
}

impl Cipher {
    /// The suite of the cipher.
    pub open spec fn suite(&self) -> CipherSuite {
        match self {
            Cipher::ChaCha(_) => CipherSuite::ChaCha20Poly1305,
            Cipher::Aes(_) => CipherSuite::Aes256Gcm,
        }
    }

    /// The key of the cipher.
    pub open spec fn key(&self) -> Seq<u8> {
        match self {
            Cipher::ChaCha(c) => c.key(),
            Cipher::Aes(c) => c.key(),
        }
    }
}

impl AeadCipher for Cipher {
    open spec fn sealed(&self, nonce: Seq<u8>, aad: Seq<u8>, plain: Seq<u8>) -> Option<Seq<u8>> {
        suite_sealed(self.suite(), self.key(), nonce, aad, plain)
    }

    open spec fn opened(&self, nonce: Seq<u8>, aad: Seq<u8>, sealed: Seq<u8>) -> Option<Seq<u8>> {
        suite_opened(self.suite(), self.key(), nonce, aad, sealed)
    }

    open spec fn overruns(&self, n: nat) -> bool {
        suite_overruns(self.suite(), n)
    }

    open spec fn fits(&self, n: nat, a: nat) -> bool {
        suite_fits(self.suite(), n, a)
    }

    fn encrypt_in_place(&self, nonce: &[u8], aad: &[u8], buffer: &mut Vec<u8>) -> (r: Result<
        (),
        SeamError,
    >) {
        match self {
            Cipher::ChaCha(c) => c.encrypt_in_place(nonce, aad, buffer),
            Cipher::Aes(c) => c.encrypt_in_place(nonce, aad, buffer),
        }
    }

    fn decrypt_in_place(&self, nonce: &[u8], aad: &[u8], buffer: &mut Vec<u8>) -> (r: Result<
        (),
        SeamError,
    >) {
        match self {
            Cipher::ChaCha(c) => c.decrypt_in_place(nonce, aad, buffer),
            Cipher::Aes(c) => c.decrypt_in_place(nonce, aad, buffer),
        }
    }
}

/// The cipher of a suite under a key.
pub fn make_cipher(suite: CipherSuite, key: [u8; 32]) -> (c: Cipher)
    ensures
        c.suite() == suite,
        c.key() == key@,
{
    match suite {
        CipherSuite::ChaCha20Poly1305 => Cipher::ChaCha(ChaCha20Poly1305Cipher::new(key)),
        CipherSuite::Aes256Gcm => Cipher::Aes(Aes256GcmCipher::new(key)),
    }
}

/// Each suite has two names, and no other text names one.
pub proof fn law_suite_names(s: Seq<char>)
    ensures
        CipherSuite::named(s) == Some(CipherSuite::ChaCha20Poly1305) <==> s
            == "chacha20poly1305"@ || s == "chacha20-poly1305"@,
        CipherSuite::named(s) == Some(CipherSuite::Aes256Gcm) <==> s == "aes256gcm"@ || s
            == "aes-256-gcm"@,
{
    reveal_strlit("chacha20poly1305");
    reveal_strlit("chacha20-poly1305");
    reveal_strlit("aes256gcm");
    reveal_strlit("aes-256-gcm");
    assert("chacha20poly1305"@[0] == 'c');
    assert("chacha20-poly1305"@[0] == 'c');
    assert("aes256gcm"@[0] == 'a');
    assert("aes-256-gcm"@[0] == 'a');
}

/// Both suites seal every payload that a datagram can hold, and only payloads of many gigabytes
/// do not fit.
pub proof fn law_payloads_fit(suite: CipherSuite, n: nat, a: nat)
    ensures
        n <= 0xF_FFFF_FFFF && a <= 0xF_FFFF_FFFF ==> suite_fits(suite, n, a) && !suite_overruns(
            suite,
            n,
        ),
        suite_fits(CipherSuite::ChaCha20Poly1305, n, a) <==> n < 0x3F_FFFF_FFC0,
        suite_fits(CipherSuite::Aes256Gcm, n, a) <==> n <= 0x10_0000_0000 && a <= 0x10_0000_0000,
        suite_overruns(suite, n) ==> suite == CipherSuite::ChaCha20Poly1305 && 0x3F_FFFF_FF80 < n
            < 0x3F_FFFF_FFC0,
{
}

} // verus!
