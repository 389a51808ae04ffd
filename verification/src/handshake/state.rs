//! The handshake: three Noise messages that carry a KEM key, a KEM ciphertext and the choice of
//! a cipher, and the session that comes of them.

use vstd::prelude::*;
use vstd::slice::slice_subrange;
use vstd::string::*;
use crate::bytes;
use crate::crypto::keys;
use crate::crypto::keys::PacketKeys;
use crate::crypto::secret;
use crate::crypto::CipherSuite;
use crate::error::SeamError;
use crate::handshake::hybrid_keys;
use crate::handshake::hybrid_keys::{
    HybridSharedSecret, IdentityKeypair, IdentityModel, KemPublicKey, KemSecretKey,
};
use crate::handshake::noise;
use crate::handshake::noise::NoiseModel;
use crate::handshake::quantum;
use crate::text;

verus! {

/// The flag of a side that wants ChaCha20-Poly1305.
pub const CIPHER_FLAG_CHACHA: u8 = 0x00;

/// The flag of a side that wants AES-256-GCM, and takes ChaCha20-Poly1305 too.
pub const CIPHER_FLAG_AES: u8 = 0x01;

/// The length of an identity proof.
pub const PROOF_LEN: usize = 5261;

/// The flag that stands for a suite.
pub open spec fn flag_of(suite: CipherSuite) -> u8 {
    match suite {
        CipherSuite::ChaCha20Poly1305 => CIPHER_FLAG_CHACHA,
        CipherSuite::Aes256Gcm => CIPHER_FLAG_AES,
    }
}

/// The suite that a flag stands for; unknown flags stand for the default.
pub open spec fn suite_of(flag: u8) -> CipherSuite {
    if flag == CIPHER_FLAG_AES {
        CipherSuite::Aes256Gcm
    } else {
        CipherSuite::ChaCha20Poly1305
    }
}

/// The flag that stands for a suite.
pub fn cipher_to_flag(suite: CipherSuite) -> (flag: u8)
    ensures
        flag == flag_of(suite),
{
    match suite {
        CipherSuite::ChaCha20Poly1305 => CIPHER_FLAG_CHACHA,
        CipherSuite::Aes256Gcm => CIPHER_FLAG_AES,
    }
}

/// The suite that a flag stands for; unknown flags stand for the default.
pub fn flag_to_cipher(flag: u8) -> (suite: CipherSuite)
    ensures
        suite == suite_of(flag),
{
    if flag == CIPHER_FLAG_AES {
        CipherSuite::Aes256Gcm
    } else {
        CipherSuite::ChaCha20Poly1305
    }
}

/// A block with its length in front, in two bytes.
pub open spec fn prefixed(data: Seq<u8>) -> Seq<u8> {
    bytes::le16((data.len() % 65536) as u16) + data
}

/// Where the block at the head of a payload ends.
pub open spec fn block_end(payload: Seq<u8>) -> int {
    2 + bytes::un_le16(payload.subrange(0, 2))
}

/// The block at the head of a payload, or why there is none.
pub open spec fn block(payload: Seq<u8>) -> Result<Seq<u8>, Seq<char>> {
    if payload.len() < 2 {
        Err("payload too short"@)
    } else if payload.len() < block_end(payload) {
        Err("payload truncated"@)
    } else {
        Ok(payload.subrange(2, block_end(payload)))
    }
}

/// The flag behind the block at the head of a payload; a peer that sends none wants the default.
pub open spec fn trailing_flag(payload: Seq<u8>) -> u8 {
    if payload.len() > 2 && payload.len() > block_end(payload) {
        payload[block_end(payload)]
    } else {
        CIPHER_FLAG_CHACHA
    }
}

/// Puts its length in front of a block.
pub fn length_prefix(data: &[u8]) -> (out: Vec<u8>)
    ensures
        out@ == prefixed(data@),
{
    let mut out: Vec<u8> = Vec::new();
    bytes::put_le16(&mut out, (data.len() % 65536) as u16);
    bytes::append(&mut out, data);
    assert(out@ =~= prefixed(data@));
    out
}

fn failed(why: &str) -> (e: SeamError)
    ensures
        e matches SeamError::HandshakeFailed(w) && w@ == why@,
{
    SeamError::HandshakeFailed(text::owned(why))
}

/// The block at the head of a payload.
pub fn extract_prefix(buf: &[u8]) -> (out: Result<&[u8], SeamError>)
    ensures
        match (out, block(buf@)) {
            (Ok(data), Ok(b)) => data@ == b,
            (Err(SeamError::HandshakeFailed(why)), Err(w)) => why@ == w,
            _ => false,
        },
{
    let len: usize = buf.len();
    if len < 2 {
        return Err(failed("payload too short"));
    }
    let end: usize = 2 + bytes::get_le16(buf, 0) as usize;
    if len < end {
        return Err(failed("payload truncated"));
    }
    Ok(slice_subrange(buf, 2, end))
}

/// The flag behind the block at the head of a payload.
pub fn cipher_flag(buf: &[u8]) -> (flag: u8)
    ensures
        flag == trailing_flag(buf@),
{
    let len: usize = buf.len();
    if len <= 2 {
        return CIPHER_FLAG_CHACHA;
    }
    let end: usize = 2 + bytes::get_le16(buf, 0) as usize;
    if len > end {
        buf[end]
    } else {
        CIPHER_FLAG_CHACHA
    }
}

/// The block at the head of a payload, and the flag behind it.
pub fn extract_prefix_with_flag(buf: &[u8]) -> (out: Result<(&[u8], u8), SeamError>)
    ensures
        match (out, block(buf@)) {
            (Ok(pair), Ok(b)) => pair.0@ == b && pair.1 == trailing_flag(buf@),
            (Err(SeamError::HandshakeFailed(why)), Err(w)) => why@ == w,
            _ => false,
        },
{
    let flag: u8 = cipher_flag(buf);
    match extract_prefix(buf) {
        Ok(data) => Ok((data, flag)),
        Err(e) => Err(e),
    }
}

/// The payload of a message that carries a KEM key and a suite.
pub open spec fn key_payload(kem_pk: Seq<u8>, suite: CipherSuite) -> Seq<u8> {
    prefixed(kem_pk).push(flag_of(suite))
}

/// The suite that a server settles on: AES-256-GCM only where both sides want it.
pub open spec fn agreed_suite(client: CipherSuite, server: CipherSuite) -> CipherSuite {
    if client == CipherSuite::Aes256Gcm && server == CipherSuite::Aes256Gcm {
        CipherSuite::Aes256Gcm
    } else {
        CipherSuite::ChaCha20Poly1305
    }
}

/// What a client takes from the payload of the second message: the KEM key of the server and the
/// agreed suite, or why it takes nothing.
pub open spec fn msg2_content(payload: Seq<u8>) -> Result<(Seq<u8>, CipherSuite), Seq<char>> {
    match block(payload) {
        Err(why) => Err(why),
        Ok(b) => if b.len() == quantum::KEM_PK_LEN && quantum::kem_key_valid(b) {
            Ok((b, suite_of(trailing_flag(payload))))
        } else {
            Err("bad KEM PK"@)
        },
    }
}

/// What a server takes from the payload of the third message: the secret it finds, or why it
/// finds none.
pub open spec fn msg3_content(payload: Seq<u8>, seed: Seq<u8>) -> Result<Seq<u8>, Seq<char>> {
    match block(payload) {
        Err(why) => Err(why),
        Ok(b) => if b.len() == quantum::KEM_CT_LEN {
            Ok(quantum::kem_decapsulated(seed, b))
        } else {
            Err("KEM decapsulation failed"@)
        },
    }
}

/// The payload of a message that carries a KEM key and a suite.
pub fn write_key_payload(kem_pk: &KemPublicKey, suite: CipherSuite) -> (payload: Vec<u8>)
    ensures
        payload@ == key_payload(kem_pk.bytes(), suite),
{
    let mut payload: Vec<u8> = length_prefix(&hybrid_keys::pk_to_bytes(kem_pk));
    payload.push(cipher_to_flag(suite));
    payload
}

/// The suite that a server settles on, given the payload of the first message.
pub fn agree(payload: &[u8], preferred: CipherSuite) -> (suite: CipherSuite)
    ensures
        suite == agreed_suite(suite_of(trailing_flag(payload@)), preferred),
{
    let client: CipherSuite = flag_to_cipher(cipher_flag(payload));
    if preferred == CipherSuite::Aes256Gcm && client == CipherSuite::Aes256Gcm {
        CipherSuite::Aes256Gcm
    } else {
        CipherSuite::ChaCha20Poly1305
    }
}

/// What a client takes from the payload of the second message.
pub fn parse_msg2(payload: &[u8]) -> (out: Result<(KemPublicKey, CipherSuite), SeamError>)
    ensures
        match (out, msg2_content(payload@)) {
            (Ok(pair), Ok(c)) => pair.0.bytes() == c.0 && pair.1 == c.1,
            (Err(SeamError::HandshakeFailed(why)), Err(w)) => why@ == w,
            _ => false,
        },
{
    match extract_prefix_with_flag(payload) {
        Err(e) => Err(e),
        Ok((pk_bytes, flag)) => match hybrid_keys::pk_from_bytes(pk_bytes) {
            Some(pk) => Ok((pk, flag_to_cipher(flag))),
            None => Err(failed("bad KEM PK")),
        },
    }
}

/// What a server takes from the payload of the third message.
pub fn parse_msg3(payload: &[u8], sk: &KemSecretKey) -> (out: Result<[u8; 32], SeamError>)
    ensures
        match (out, msg3_content(payload@, sk.seed())) {
            (Ok(s), Ok(c)) => s@ == c,
            (Err(SeamError::HandshakeFailed(why)), Err(w)) => why@ == w,
            _ => false,
        },
{
    match extract_prefix(payload) {
        Err(e) => Err(e),
        Ok(ct) => match hybrid_keys::kem_decapsulate(sk, ct) {
            Some(s) => Ok(s),
            None => Err(failed("KEM decapsulation failed")),
        },
    }
}

/// The static key of the peer, as the Noise handshake knows it.
pub fn peer_key(remote: Option<Vec<u8>>) -> (out: Result<[u8; 32], SeamError>)
    ensures
        match (remote, out) {
            (Some(k), Ok(key)) => k@.len() == 32 && key@ == k@,
            (Some(k), Err(SeamError::HandshakeFailed(why))) => k@.len() != 32 && why@
                == "bad static key length"@,
            (None, Err(SeamError::HandshakeFailed(why))) => why@ == "no remote static"@,
            _ => false,
        },
{
    match remote {
        None => Err(failed("no remote static")),
        Some(k) => {
            if k.len() != 32 {
                return Err(failed("bad static key length"));
            }
            let key: [u8; 32] = bytes::array::<32>(&k, 0);
            assert(key@ =~= k@);
            Ok(key)
        },
    }
}

/// Whether a text is what the Noise handshake says of an error.
pub open spec fn noise_said(why: Seq<char>) -> bool {
    exists|e: snow::Error| #[trigger] noise::noise_words(e) == why
}

/// What a side makes of the outcome of a Noise step.
pub fn noise_outcome(outcome: Result<Vec<u8>, snow::Error>) -> (out: Result<Vec<u8>, SeamError>)
    ensures
        match (outcome, out) {
            (Ok(v), Ok(w)) => w == v,
            (Err(e), Err(SeamError::HandshakeFailed(why))) => why@ == noise::noise_words(e),
            _ => false,
        },
{
    match outcome {
        Ok(v) => Ok(v),
        Err(e) => Err(SeamError::HandshakeFailed(noise::error_text(&e))),
    }
}

/// A finished handshake.
pub struct HandshakeResult {
    pub session_id: u64,
    pub keys: PacketKeys,
    pub peer_static_pubkey: [u8; 32],
    /// The suite that was agreed on.
    pub cipher_suite: CipherSuite,
    /// The hash of the transcript, which identity proofs sign.
    pub handshake_hash: Vec<u8>,
}

/// What the packet keys of a session are derived from.
pub open spec fn session_secret(hash: Seq<u8>, kem_shared: Seq<u8>) -> Seq<u8> {
    kem_shared + secret::derived("apex/x25519-component/v1"@, hash) + hash
}

/// Whether a result is that of a handshake with this transcript hash, peer, secret and suite.
pub open spec fn finished(
    r: HandshakeResult,
    hash: Seq<u8>,
    peer: Seq<u8>,
    kem_shared: Seq<u8>,
    suite: CipherSuite,
) -> bool {
    &&& r.session_id == bytes::un_le64(hash.take(8))
    &&& keys::keys_from(r.keys, session_secret(hash, kem_shared), suite)
    &&& r.peer_static_pubkey@ == peer
    &&& r.cipher_suite == suite
    &&& r.handshake_hash@ == hash
}

/// Draws the session from a finished handshake.
pub fn finish(
    hash: Vec<u8>,
    peer_static: [u8; 32],
    kem_shared: [u8; 32],
    cipher_suite: CipherSuite,
) -> (r: HandshakeResult)
    requires
        hash@.len() >= 8,
    ensures
        finished(r, hash@, peer_static@, kem_shared@, cipher_suite),
{
    let component: [u8; 32] = secret::derive_key("apex/x25519-component/v1", &hash);
    let hybrid = HybridSharedSecret::new(kem_shared, component);
    let keys = hybrid.derive_packet_keys_with_cipher(&hash, cipher_suite);
    let session_id: u64 = bytes::get_le64(&hash, 0);
    assert(hash@.subrange(0, 8) =~= hash@.take(8));
    HandshakeResult {
        session_id,
        keys,
        peer_static_pubkey: peer_static,
        cipher_suite,
        handshake_hash: hash,
    }
}

/// A proof of identity, sent once the handshake is done: a signature on its transcript.
pub struct IdentityProof {
    /// The verifying key.
    pub mldsa_pk: [u8; 1952],
    /// The signature on the transcript hash.
    pub signature: [u8; 3309],
}

impl IdentityProof {
    /// The wire form: the key, and the signature.
    pub open spec fn wire(&self) -> Seq<u8> {
        self.mldsa_pk@ + self.signature@
    }

    /// Serialises the proof.
    pub fn to_bytes(&self) -> (out: Vec<u8>)
        ensures
            out@ == self.wire(),
    {
        let mut out: Vec<u8> = Vec::new();
        bytes::append(&mut out, &self.mldsa_pk);
        bytes::append(&mut out, &self.signature);
        assert(out@ =~= self.wire());
        out
    }

    /// Reads a proof; it has one length only.
    pub fn from_bytes(buf: &[u8]) -> (proof_read: Option<Self>)
        ensures
            proof_read is Some <==> buf@.len() == PROOF_LEN,
            proof_read matches Some(p) ==> p.wire() == buf@,
    {
        if buf.len() != PROOF_LEN {
            return None;
        }
        let p = IdentityProof {
            mldsa_pk: bytes::array::<1952>(buf, 0),
            signature: bytes::array::<3309>(buf, 1952),
        };
        assert(p.wire() =~= buf@);
        Some(p)
    }

    /// Whether the signature is one on a transcript hash.
    pub open spec fn holds(&self, handshake_hash: Seq<u8>) -> bool {
        quantum::mldsa_verified(
            self.mldsa_pk@,
            handshake_hash,
            self.signature@,
            hybrid_keys::PROOF_CONTEXT.spec_bytes(),
        )
    }

    /// Signs a transcript hash. The proof holds where the keys of the identity belong together.
    pub fn sign(id: &IdentityKeypair, handshake_hash: &[u8]) -> (out: Result<Self, SeamError>)
        ensures
            out matches Ok(p) ==> p.mldsa_pk@ == id@.mldsa_pk,
            (out is Ok && id@.matched()) ==> out->Ok_0.holds(handshake_hash@),
            out is Ok ==> quantum::mldsa_secret_valid(id@.mldsa_sk),
            out matches Err(e) ==> (e matches SeamError::HandshakeFailed(why)
                && "ML-DSA-65 sign failed: "@.is_prefix_of(why@)),
    {
        match id.mldsa_sign(handshake_hash) {
            Ok(signature) => Ok(IdentityProof { mldsa_pk: id.mldsa_pk, signature }),
            Err(why) => Err(SeamError::HandshakeFailed(why)),
        }
    }

    /// Whether the proof holds for a transcript hash.
    pub fn verify(&self, handshake_hash: &[u8]) -> (ok: bool)
        ensures
            ok == self.holds(handshake_hash@),
    {
        hybrid_keys::mldsa_verify(&self.mldsa_pk, handshake_hash, &self.signature)
    }
}

/// The side that opens a session.
pub struct ClientHandshake {
    noise: snow::HandshakeState,
    preferred_cipher: CipherSuite,
}

/// What a step appended to a buffer.
pub open spec fn appended(before: Seq<u8>, after: Seq<u8>) -> Seq<u8> {
    after.skip(before.len() as int)
}

/// Whether a step wrote a payload: it did in turn, where there was room, and appended the message
/// to the buffer; else it left the buffer as it was.
pub open spec fn wrote(
    r: Result<(), SeamError>,
    payload: Seq<u8>,
    side: NoiseModel,
    side_after: NoiseModel,
    before: Seq<u8>,
    after: Seq<u8>,
) -> bool {
    &&& r is Ok <==> side.writes() && side.has_room(payload.len())
    &&& match r {
        Ok(_) => {
            &&& after == before + appended(before, after)
            &&& noise::noise_written(side, payload, appended(before, after))
            &&& appended(before, after).len() == payload.len() + side.overhead()
            &&& side.log.len() == 0 ==> appended(before, after).skip(32) == payload
            &&& side_after == side.with(appended(before, after))
        },
        Err(e) => {
            &&& e matches SeamError::HandshakeFailed(why) && noise_said(why@)
            &&& after == before
            &&& side_after == side.failed()
        },
    }
}

/// Whether the side that wrote a message was the other side of this handshake, and the message
/// carried a payload.
pub open spec fn carries(side: NoiseModel, message: Seq<u8>, payload: Seq<u8>) -> bool {
    side.reads() && exists|w: NoiseModel| #[trigger]
        noise::noise_written(w, payload, message) && noise::paired(w, side)
}

/// Whether a side stands where it does after it has read a message. The static key of the other
/// side may have become known.
pub open spec fn has_read(before: NoiseModel, after: NoiseModel, message: Seq<u8>) -> bool {
    after == (NoiseModel { peer: after.peer, ..before.with(message) })
}

/// Whether a side stands where it does after a message that it could not read. The static key in
/// the message may have been found all the same.
pub open spec fn has_failed(before: NoiseModel, after: NoiseModel) -> bool {
    after == (NoiseModel { peer: after.peer, ..before.failed() })
}

/// Whether a client has sent a secret, encapsulated under a KEM key, as the third message.
pub open spec fn sent_secret(
    side: NoiseModel,
    pk: Seq<u8>,
    ct: Seq<u8>,
    ss: Seq<u8>,
    message: Seq<u8>,
) -> bool {
    &&& quantum::kem_encapsulated(pk, ct, ss)
    &&& ct.len() == quantum::KEM_CT_LEN
    &&& noise::noise_written(side, prefixed(ct), message)
    &&& message.len() == prefixed(ct).len() + side.overhead()
}

impl ClientHandshake {
    /// The suite that the client wants.
    pub closed spec fn preferred(&self) -> CipherSuite {
        self.preferred_cipher
    }

    /// The Noise handshake of the client.
    pub closed spec fn noise(&self) -> NoiseModel {
        noise::noise_model(self.noise)
    }

    /// A client that wants the default suite.
    pub fn new(local: &IdentityKeypair, server_x25519_static: &[u8; 32]) -> (out: Result<
        Self,
        SeamError,
    >)
        ensures
            out matches Ok(c) && c.preferred() == CipherSuite::ChaCha20Poly1305 && c.noise() == (
            NoiseModel {
                initiator: true,
                local: local@.x25519_secret,
                peer: Some(server_x25519_static@),
                log: Seq::empty(),
                unbroken: true,
            }),
    {
        ClientHandshake::new_with_cipher(local, server_x25519_static, CipherSuite::default())
    }

    /// A client that wants a given suite.
    pub fn new_with_cipher(
        local: &IdentityKeypair,
        server_x25519_static: &[u8; 32],
        preferred_cipher: CipherSuite,
    ) -> (out: Result<Self, SeamError>)
        ensures
            out matches Ok(c) && c.preferred() == preferred_cipher && c.noise() == (NoiseModel {
                initiator: true,
                local: local@.x25519_secret,
                peer: Some(server_x25519_static@),
                log: Seq::empty(),
                unbroken: true,
            }),
    {
        match noise::initiator(noise::NOISE_PATTERN, &local.x25519_secret, server_x25519_static) {
            Ok(state) => Ok(ClientHandshake { noise: state, preferred_cipher }),
            Err(e) => Err(SeamError::HandshakeFailed(noise::error_text(&e))),
        }
    }

    /// Writes the first message, which carries the KEM key of the server and the suite that the
    /// client wants.
    pub fn write_msg1(&mut self, server_kem_pk: &KemPublicKey, out: &mut Vec<u8>) -> (r: Result<
        (),
        SeamError,
    >)
        ensures
            final(self).preferred() == old(self).preferred(),
            wrote(
                r,
                key_payload(server_kem_pk.bytes(), old(self).preferred()),
                old(self).noise(),
                final(self).noise(),
                old(out)@,
                final(out)@,
            ),
    {
        let payload: Vec<u8> = write_key_payload(server_kem_pk, self.preferred_cipher);
        write_noise(&mut self.noise, &payload, out)
    }

    /// Reads the second message: the KEM key of the server, and the agreed suite. A message that
    /// is read and whose content is refused counts as read.
    pub fn read_msg2(&mut self, msg: &[u8]) -> (r: Result<(KemPublicKey, CipherSuite), SeamError>)
        ensures
            final(self).preferred() == old(self).preferred(),
            match r {
                Ok(pair) => exists|p: Seq<u8>|
                    #[trigger] noise::noise_opened(old(self).noise(), msg@, p) && msg2_content(p)
                        == Ok::<(Seq<u8>, CipherSuite), Seq<char>>((pair.0.bytes(), pair.1)),
                Err(e) => e is HandshakeFailed,
            },
            r is Ok ==> has_read(old(self).noise(), final(self).noise(), msg@),
            r matches Err(e) ==> {
                ||| has_read(old(self).noise(), final(self).noise(), msg@) && exists|p: Seq<u8>|
                    #[trigger] noise::noise_opened(old(self).noise(), msg@, p) && msg2_content(p)
                        == Err::<(Seq<u8>, CipherSuite), Seq<char>>(e->HandshakeFailed_0@)
                ||| has_failed(old(self).noise(), final(self).noise()) && noise_said(
                    e->HandshakeFailed_0@,
                )
            },
            forall|p: Seq<u8>| #[trigger]
                carries(old(self).noise(), msg@, p) ==> match (r, msg2_content(p)) {
                    (Ok(pair), Ok(c)) => pair.0.bytes() == c.0 && pair.1 == c.1,
                    (Err(SeamError::HandshakeFailed(why)), Err(w)) => why@ == w,
                    _ => false,
                },
            forall|w: NoiseModel, p: Seq<u8>| #[trigger]
                noise::noise_written(w, p, msg@) && noise::paired(w, old(self).noise()) && old(
                    self,
                ).noise().log.len() > 0 && r is Ok ==> final(self).noise().peer == Some(
                    secret::x25519_base(w.local),
                ),
    {
        match noise_outcome(noise::read(&mut self.noise, msg)) {
            Ok(payload) => parse_msg2(&payload),
            Err(e) => Err(e),
        }
    }

    /// Writes the third message, which carries a secret encapsulated under the KEM key of the
    /// server, and finishes.
    pub fn write_msg3_and_finish(
        self,
        server_kem_pk: &KemPublicKey,
        agreed_cipher: CipherSuite,
        out: &mut Vec<u8>,
    ) -> (r: Result<HandshakeResult, SeamError>)
        ensures
            r is Ok <==> self.noise().writes() && self.noise().peer is Some,
            match r {
                Ok(result) => {
                    let m = appended(old(out)@, final(out)@);
                    final(out)@ == old(out)@ + m && exists|ct: Seq<u8>, ss: Seq<u8>| #[trigger]
                        sent_secret(self.noise(), server_kem_pk.bytes(), ct, ss, m) && finished(
                            result,
                            noise::noise_digest(self.noise().log.push(m)),
                            self.noise().peer.unwrap(),
                            ss,
                            agreed_cipher,
                        )
                },
                Err(e) => e is HandshakeFailed,
            },
            !self.noise().writes() ==> final(out)@ == old(out)@ && noise_said(
                r->Err_0->HandshakeFailed_0@,
            ),
            (self.noise().writes() && self.noise().peer is None) ==> {
                let m = appended(old(out)@, final(out)@);
                &&& r->Err_0->HandshakeFailed_0@ == "no remote static"@
                &&& final(out)@ == old(out)@ + m
                &&& exists|ct: Seq<u8>, ss: Seq<u8>| #[trigger]
                    sent_secret(self.noise(), server_kem_pk.bytes(), ct, ss, m)
            },
    {
        let ClientHandshake { noise: state, preferred_cipher: _ } = self;
        let mut state = state;
        let (ct, kem_shared) = hybrid_keys::kem_encapsulate(server_kem_pk);
        let payload: Vec<u8> = length_prefix(&ct);
        match write_noise(&mut state, &payload, out) {
            Ok(_) => {},
            Err(e) => {
                return Err(e);
            },
        }
        assert(sent_secret(
            self.noise(),
            server_kem_pk.bytes(),
            ct@,
            kem_shared@,
            appended(old(out)@, out@),
        ));
        let hash: Vec<u8> = noise::transcript_hash(&state);
        match peer_key(noise::remote_static(&state)) {
            Ok(peer) => Ok(finish(hash, peer, kem_shared, agreed_cipher)),
            Err(e) => Err(e),
        }
    }
}

/// The side that answers.
pub struct ServerHandshake {
    noise: snow::HandshakeState,
    preferred_cipher: CipherSuite,
}

impl ServerHandshake {
    /// The suite that the server wants.
    pub closed spec fn preferred(&self) -> CipherSuite {
        self.preferred_cipher
    }

    /// The Noise handshake of the server.
    pub closed spec fn noise(&self) -> NoiseModel {
        noise::noise_model(self.noise)
    }

    /// A server that wants the default suite.
    pub fn new(local: &IdentityKeypair) -> (out: Result<Self, SeamError>)
        ensures
            out matches Ok(s) && s.preferred() == CipherSuite::ChaCha20Poly1305 && s.noise() == (
            NoiseModel {
                initiator: false,
                local: local@.x25519_secret,
                peer: None,
                log: Seq::empty(),
                unbroken: true,
            }),
    {
        ServerHandshake::new_with_cipher(local, CipherSuite::default())
    }

    /// A server that wants a given suite.
    pub fn new_with_cipher(local: &IdentityKeypair, preferred_cipher: CipherSuite) -> (out: Result<
        Self,
        SeamError,
    >)
        ensures
            out matches Ok(s) && s.preferred() == preferred_cipher && s.noise() == (NoiseModel {
                initiator: false,
                local: local@.x25519_secret,
                peer: None,
                log: Seq::empty(),
                unbroken: true,
            }),
    {
        match noise::responder(noise::NOISE_PATTERN, &local.x25519_secret) {
            Ok(state) => Ok(ServerHandshake { noise: state, preferred_cipher }),
            Err(e) => Err(SeamError::HandshakeFailed(noise::error_text(&e))),
        }
    }

    /// Reads the first message, and settles on a suite. The message is a key and the payload as it
    /// is, so that any message with room for a key is read.
    pub fn read_msg1(&mut self, msg: &[u8]) -> (r: Result<CipherSuite, SeamError>)
        ensures
            final(self).preferred() == old(self).preferred(),
            (old(self).noise().reads() && old(self).noise().log.len() == 0) ==> match r {
                Ok(suite) => 32 <= msg@.len() <= noise::NOISE_MAX && suite == agreed_suite(
                    suite_of(trailing_flag(msg@.skip(32))),
                    old(self).preferred(),
                ),
                Err(e) => e is HandshakeFailed && !(32 <= msg@.len() <= noise::NOISE_MAX),
            },
            match r {
                Ok(suite) => exists|p: Seq<u8>|
                    #[trigger] noise::noise_opened(old(self).noise(), msg@, p) && suite
                        == agreed_suite(suite_of(trailing_flag(p)), old(self).preferred()),
                Err(e) => e matches SeamError::HandshakeFailed(why) && noise_said(why@),
            },
            r is Ok ==> has_read(old(self).noise(), final(self).noise(), msg@),
            (r is Ok && old(self).noise().log.len() == 0) ==> final(self).noise() == old(
                self,
            ).noise().with(msg@),
            r is Err ==> has_failed(old(self).noise(), final(self).noise()),
    {
        match noise_outcome(noise::read(&mut self.noise, msg)) {
            Ok(payload) => Ok(agree(&payload, self.preferred_cipher)),
            Err(e) => Err(e),
        }
    }

    /// Writes the second message, which carries the KEM key of the server and the agreed suite.
    pub fn write_msg2(
        &mut self,
        local_kem_pk: &KemPublicKey,
        agreed_cipher: CipherSuite,
        out: &mut Vec<u8>,
    ) -> (r: Result<(), SeamError>)
        ensures
            final(self).preferred() == old(self).preferred(),
            wrote(
                r,
                key_payload(local_kem_pk.bytes(), agreed_cipher),
                old(self).noise(),
                final(self).noise(),
                old(out)@,
                final(out)@,
            ),
    {
        let payload: Vec<u8> = write_key_payload(local_kem_pk, agreed_cipher);
        write_noise(&mut self.noise, &payload, out)
    }

    /// Reads the third message, finds the secret in it, and finishes.
    pub fn read_msg3_and_finish(
        self,
        local_kem_sk: &KemSecretKey,
        agreed_cipher: CipherSuite,
        msg3: &[u8],
    ) -> (r: Result<HandshakeResult, SeamError>)
        ensures
            match r {
                Ok(result) => exists|p: Seq<u8>, ss: Seq<u8>|
                    #[trigger] noise::noise_opened(self.noise(), msg3@, p) && msg3_content(
                        p,
                        local_kem_sk.seed(),
                    ) == Ok::<Seq<u8>, Seq<char>>(ss) && #[trigger] finished(
                        result,
                        noise::noise_digest(self.noise().log.push(msg3@)),
                        result.peer_static_pubkey@,
                        ss,
                        agreed_cipher,
                    ),
                Err(e) => e is HandshakeFailed,
            },
            r matches Err(e) ==> {
                ||| noise_said(e->HandshakeFailed_0@)
                ||| exists|p: Seq<u8>| #[trigger]
                    noise::noise_opened(self.noise(), msg3@, p) && msg3_content(
                        p,
                        local_kem_sk.seed(),
                    ) == Err::<Seq<u8>, Seq<char>>(e->HandshakeFailed_0@)
                ||| self.noise().log.len() == 0 && self.noise().peer is None
                    && e->HandshakeFailed_0@ == "no remote static"@
            },
            forall|w: NoiseModel, p: Seq<u8>| #[trigger]
                noise::noise_written(w, p, msg3@) && noise::paired(w, self.noise())
                    && self.noise().reads() && self.noise().log.len() > 0 ==> match (
                    r,
                    msg3_content(p, local_kem_sk.seed()),
                ) {
                    (Ok(result), Ok(ss)) => finished(
                        result,
                        noise::noise_digest(self.noise().log.push(msg3@)),
                        secret::x25519_base(w.local),
                        ss,
                        agreed_cipher,
                    ),
                    (Err(SeamError::HandshakeFailed(why)), Err(t)) => why@ == t,
                    _ => false,
                },
    {
        let ServerHandshake { noise: state, preferred_cipher: _ } = self;
        let mut state = state;
        let payload: Vec<u8> = match noise_outcome(noise::read(&mut state, msg3)) {
            Ok(p) => p,
            Err(e) => {
                return Err(e);
            },
        };
        let kem_shared: [u8; 32] = match parse_msg3(&payload, local_kem_sk) {
            Ok(s) => s,
            Err(e) => {
                return Err(e);
            },
        };
        let hash: Vec<u8> = noise::transcript_hash(&state);
        match peer_key(noise::remote_static(&state)) {
            Ok(peer) => Ok(finish(hash, peer, kem_shared, agreed_cipher)),
            Err(e) => Err(e),
        }
    }
}

fn write_noise(state: &mut snow::HandshakeState, payload: &[u8], out: &mut Vec<u8>) -> (r: Result<
    (),
    SeamError,
>)
    ensures
        wrote(
            r,
            payload@,
            noise::noise_model(*old(state)),
            noise::noise_model(*final(state)),
            old(out)@,
            final(out)@,
        ),
{
    let ghost before = out@;
    match noise_outcome(noise::write(state, payload)) {
        Ok(message) => {
            bytes::append(out, &message);
            assert(appended(before, out@) =~= message@);
            Ok(())
        },
        Err(e) => Err(e),
    }
}

/// Whether two results are those of a handshake between two identities with these three messages,
/// the third of which carries `ct`, an encapsulation of `ss`. The client has the keys of `ss`, and
/// the server those of what it finds in `ct`.
pub open spec fn exchanged(
    client: IdentityModel,
    server: IdentityModel,
    suite: CipherSuite,
    messages: (Seq<u8>, Seq<u8>, Seq<u8>),
    ct: Seq<u8>,
    ss: Seq<u8>,
    c: HandshakeResult,
    s: HandshakeResult,
) -> bool {
    let (m1, m2, m3) = messages;
    let hash = noise::noise_digest(seq![m1, m2, m3]);
    let server_key = secret::x25519_base(server.x25519_secret);
    let side = NoiseModel {
        initiator: true,
        local: client.x25519_secret,
        peer: Some(server_key),
        log: seq![m1, m2],
        unbroken: true,
    };
    &&& sent_secret(side, server.kem_pk, ct, ss, m3)
    &&& finished(c, hash, server_key, ss, suite)
    &&& finished(
        s,
        hash,
        secret::x25519_base(client.x25519_secret),
        quantum::kem_decapsulated(server.kem_seed, ct),
        suite,
    )
}

/// Runs a whole handshake between two identities, and gives what each side has at the end. Both
/// have the same session number, transcript and suite, and each knows the static key of the
/// other. They have the same packet keys where decapsulation finds the secret that was
/// encapsulated.
pub fn exchange(
    client_id: &IdentityKeypair,
    server_id: &IdentityKeypair,
    client_suite: CipherSuite,
    server_suite: CipherSuite,
) -> (out: Result<(HandshakeResult, HandshakeResult), SeamError>)
    requires
        server_id@.wf(),
    ensures
        out is Ok,
        out matches Ok(pair) ==> {
            let (c, s) = pair;
            &&& c.session_id == s.session_id
            &&& c.handshake_hash@ == s.handshake_hash@
            &&& c.cipher_suite == agreed_suite(client_suite, server_suite)
            &&& s.cipher_suite == agreed_suite(client_suite, server_suite)
            &&& c.peer_static_pubkey@ == secret::x25519_base(server_id@.x25519_secret)
            &&& s.peer_static_pubkey@ == secret::x25519_base(client_id@.x25519_secret)
            &&& exists|messages: (Seq<u8>, Seq<u8>, Seq<u8>), ct: Seq<u8>, ss: Seq<u8>| #[trigger]
                exchanged(
                    client_id@,
                    server_id@,
                    agreed_suite(client_suite, server_suite),
                    messages,
                    ct,
                    ss,
                    c,
                    s,
                ) && (quantum::kem_decapsulated(server_id@.kem_seed, ct) == ss
                    ==> keys::same_keys(c.keys, s.keys))
        },
{
    let mut client = match ClientHandshake::new_with_cipher(
        client_id,
        &server_id.x25519_public,
        client_suite,
    ) {
        Ok(c) => c,
        Err(e) => {
            return Err(e);
        },
    };
    let mut server = match ServerHandshake::new_with_cipher(server_id, server_suite) {
        Ok(s) => s,
        Err(e) => {
            return Err(e);
        },
    };
    let ghost pk = server_id@.kem_pk;
    let ghost suite = agreed_suite(client_suite, server_suite);
    proof {
        lemma_key_payload(pk, client_suite);
        lemma_key_payload(pk, suite);
        law_msg2_round_trip(pk, suite);
    }
    let mut msg1: Vec<u8> = Vec::new();
    match client.write_msg1(&server_id.kem_pk, &mut msg1) {
        Ok(_) => {},
        Err(e) => {
            return Err(e);
        },
    }
    assert(appended(Seq::empty(), msg1@) =~= msg1@);
    let agreed: CipherSuite = match server.read_msg1(&msg1) {
        Ok(a) => a,
        Err(e) => {
            return Err(e);
        },
    };
    assert(agreed == suite);
    let ghost s1 = server.noise();
    let ghost c1 = client.noise();
    let mut msg2: Vec<u8> = Vec::new();
    match server.write_msg2(&server_id.kem_pk, agreed, &mut msg2) {
        Ok(_) => {},
        Err(e) => {
            return Err(e);
        },
    }
    assert(appended(Seq::empty(), msg2@) =~= msg2@);
    assert(noise::noise_written(s1, key_payload(pk, suite), msg2@));
    assert(noise::paired(s1, c1));
    assert(carries(c1, msg2@, key_payload(pk, suite)));
    let (server_kem_pk, agreed2) = match client.read_msg2(&msg2) {
        Ok(p) => p,
        Err(e) => {
            return Err(e);
        },
    };
    let ghost s2 = server.noise();
    let ghost c2 = client.noise();
    let mut msg3: Vec<u8> = Vec::new();
    let c: HandshakeResult = match client.write_msg3_and_finish(
        &server_kem_pk,
        agreed2,
        &mut msg3,
    ) {
        Ok(r) => r,
        Err(e) => {
            return Err(e);
        },
    };
    assert(appended(Seq::empty(), msg3@) =~= msg3@);
    let ghost (ct, ss) = choose|ct: Seq<u8>, ss: Seq<u8>| #[trigger]
        sent_secret(c2, pk, ct, ss, msg3@) && finished(
            c,
            noise::noise_digest(c2.log.push(msg3@)),
            c2.peer.unwrap(),
            ss,
            suite,
        );
    proof {
        assert(noise::paired(c2, s2));
        law_msg3_round_trip(
            server_id@.kem_seed,
            ct,
            quantum::kem_decapsulated(server_id@.kem_seed, ct),
        );
        assert(c2.log =~= seq![msg1@, msg2@]);
        assert(c2.log.push(msg3@) =~= seq![msg1@, msg2@, msg3@]);
    }
    match server.read_msg3_and_finish(&server_id.kem_sk, agreed, &msg3) {
        Ok(s) => {
            assert(exchanged(
                client_id@,
                server_id@,
                suite,
                (msg1@, msg2@, msg3@),
                ct,
                ss,
                c,
                s,
            ));
            Ok((c, s))
        },
        Err(e) => Err(e),
    }
}

/// A block with its length in front is read back, whatever follows it.
pub proof fn law_block_round_trip(data: Seq<u8>, rest: Seq<u8>)
    requires
        data.len() <= 65535,
    ensures
        block(prefixed(data) + rest) == Ok::<Seq<u8>, Seq<char>>(data),
        block_end(prefixed(data) + rest) == 2 + data.len(),
{
    let p = prefixed(data) + rest;
    bytes::law_le16_read_write(data.len() as u16);
    assert(p.subrange(0, 2) =~= bytes::le16(data.len() as u16));
    assert(p.subrange(2, 2 + data.len() as int) =~= data);
}

proof fn lemma_key_payload(kem_pk: Seq<u8>, suite: CipherSuite)
    requires
        kem_pk.len() == quantum::KEM_PK_LEN,
    ensures
        block(key_payload(kem_pk, suite)) == Ok::<Seq<u8>, Seq<char>>(kem_pk),
        trailing_flag(key_payload(kem_pk, suite)) == flag_of(suite),
{
    let head = prefixed(kem_pk);
    let flag = flag_of(suite);
    law_block_round_trip(kem_pk, seq![flag]);
    assert(head.len() == 2 + kem_pk.len());
    assert(head.push(flag) =~= head + seq![flag]);
    assert(head.push(flag)[head.len() as int] == flag);
}

/// A server learns from the first message which suite the client wants, and settles on
/// AES-256-GCM if and only if both want it.
pub proof fn law_suites_negotiated(kem_pk: Seq<u8>, client: CipherSuite, server: CipherSuite)
    requires
        kem_pk.len() == quantum::KEM_PK_LEN,
    ensures
        suite_of(trailing_flag(key_payload(kem_pk, client))) == client,
        agreed_suite(suite_of(trailing_flag(key_payload(kem_pk, client))), server)
            == CipherSuite::Aes256Gcm <==> (client == CipherSuite::Aes256Gcm && server
            == CipherSuite::Aes256Gcm),
{
    lemma_key_payload(kem_pk, client);
}

/// A client takes from the second message the KEM key and the suite that the server put there.
pub proof fn law_msg2_round_trip(kem_pk: Seq<u8>, suite: CipherSuite)
    requires
        kem_pk.len() == quantum::KEM_PK_LEN,
        quantum::kem_key_valid(kem_pk),
    ensures
        msg2_content(key_payload(kem_pk, suite)) == Ok::<(Seq<u8>, CipherSuite), Seq<char>>(
            (kem_pk, suite),
        ),
{
    lemma_key_payload(kem_pk, suite);
}

/// A server takes from the third message the secret that the client put there, wherever
/// decapsulation finds it.
pub proof fn law_msg3_round_trip(seed: Seq<u8>, ct: Seq<u8>, ss: Seq<u8>)
    requires
        ct.len() == quantum::KEM_CT_LEN,
        quantum::kem_decapsulated(seed, ct) == ss,
    ensures
        msg3_content(prefixed(ct), seed) == Ok::<Seq<u8>, Seq<char>>(ss),
{
    law_block_round_trip(ct, Seq::empty());
    assert(prefixed(ct) + Seq::<u8>::empty() =~= prefixed(ct));
}

/// Two sides with one transcript, one secret and one suite have one session: the same session
/// number and the same packet keys.
pub proof fn law_sides_agree(
    client: HandshakeResult,
    server: HandshakeResult,
    hash: Seq<u8>,
    client_peer: Seq<u8>,
    server_peer: Seq<u8>,
    kem_shared: Seq<u8>,
    suite: CipherSuite,
)
    requires
        finished(client, hash, client_peer, kem_shared, suite),
        finished(server, hash, server_peer, kem_shared, suite),
    ensures
        client.session_id == server.session_id,
        keys::same_keys(client.keys, server.keys),
        client.cipher_suite == server.cipher_suite,
        client.handshake_hash@ == server.handshake_hash@,
{
}

/// The wire form of an identity proof determines it.
pub proof fn law_proof_round_trip(a: IdentityProof, b: IdentityProof)
    requires
        a.wire() == b.wire(),
    ensures
        a.mldsa_pk@ == b.mldsa_pk@,
        a.signature@ == b.signature@,
        a.wire().len() == PROOF_LEN,
{
    assert(a.mldsa_pk@ =~= a.wire().take(1952));
    assert(b.mldsa_pk@ =~= b.wire().take(1952));
    assert(a.signature@ =~= a.wire().skip(1952));
    assert(b.signature@ =~= b.wire().skip(1952));
}

/// The flag for AES is 1, the flag for ChaCha is 0, and any other flag stands for ChaCha.
pub proof fn law_flags(flag: u8)
    ensures
        flag_of(CipherSuite::ChaCha20Poly1305) == 0,
        flag_of(CipherSuite::Aes256Gcm) == 1,
        suite_of(flag) == CipherSuite::Aes256Gcm <==> flag == 1,
{
}

/// A block is read exactly where its two bytes of length and all its bytes are there.
pub proof fn law_block_read_exactly(payload: Seq<u8>)
    ensures
        block(payload) is Ok <==> payload.len() >= 2 && payload.len() >= 2 + bytes::un_le16(
            payload.subrange(0, 2),
        ),
        payload.len() < 2 ==> block(payload) == Err::<Seq<u8>, Seq<char>>("payload too short"@),
        2 <= payload.len() < 2 + bytes::un_le16(payload.subrange(0, 2)) ==> block(payload) == Err::<
            Seq<u8>,
            Seq<char>,
        >("payload truncated"@),
{
}

/// A payload without a flag behind its block settles on ChaCha, whatever the server prefers.
pub proof fn law_no_flag_is_chacha(payload: Seq<u8>, server: CipherSuite)
    requires
        payload.len() <= 2 + bytes::un_le16(payload.subrange(0, 2)),
    ensures
        agreed_suite(suite_of(trailing_flag(payload)), server) == CipherSuite::ChaCha20Poly1305,
{
}

/// What the keys of a session are derived from holds the KEM secret, a secret of the transcript,
/// and the transcript hash: sessions that agree in it agree in both secrets.
pub proof fn law_session_secret_is_hybrid(h1: Seq<u8>, k1: Seq<u8>, h2: Seq<u8>, k2: Seq<u8>)
    requires
        h1.len() == 32,
        k1.len() == 32,
        h2.len() == 32,
        k2.len() == 32,
        session_secret(h1, k1) == session_secret(h2, k2),
        secret::derived("apex/x25519-component/v1"@, h1).len() == 32,
        secret::derived("apex/x25519-component/v1"@, h2).len() == 32,
    ensures
        k1 == k2,
        h1 == h2,
        session_secret(h1, k1) == k1 + secret::derived("apex/x25519-component/v1"@, h1) + h1,
{
    let a = session_secret(h1, k1);
    let b = session_secret(h2, k2);
    assert(a.subrange(0, 32) =~= k1);
    assert(b.subrange(0, 32) =~= k2);
    assert(a.subrange(64, 96) =~= h1);
    assert(b.subrange(64, 96) =~= h2);
}

/// A finished handshake gives the session of its transcript: the number is the first eight bytes
/// of the hash, and the keys are those of both secrets for the agreed suite.
pub proof fn law_session_of_transcript(
    r: HandshakeResult,
    hash: Seq<u8>,
    peer: Seq<u8>,
    kem_shared: Seq<u8>,
    suite: CipherSuite,
)
    requires
        hash.len() == 32,
        finished(r, hash, peer, kem_shared, suite),
    ensures
        bytes::le64(r.session_id) == hash.subrange(0, 8),
        r.keys.enc_key@ == secret::derived(
            "apex/payload-encryption/v1"@,
            kem_shared + secret::derived("apex/x25519-component/v1"@, hash) + hash,
        ),
        r.keys.cipher_suite == suite,
        r.cipher_suite == suite,
        r.peer_static_pubkey@ == peer,
        r.handshake_hash@ == hash,
{
    assert(hash.take(8) =~= hash.subrange(0, 8));
    bytes::law_le64_write_read(hash.subrange(0, 8));
}

/// A proof is 5261 bytes: the key, and the signature on the transcript hash in the context of
/// identity proofs.
pub proof fn law_proof_parts(p: IdentityProof, hash: Seq<u8>)
    ensures
        p.wire().len() == 5261,
        p.wire().subrange(0, 1952) == p.mldsa_pk@,
        p.wire().subrange(1952, 5261) == p.signature@,
        p.holds(hash) == quantum::mldsa_verified(
            p.mldsa_pk@,
            hash,
            p.signature@,
            "seam-identity-proof/v1".spec_bytes(),
        ),
{
    assert(p.wire().subrange(0, 1952) =~= p.mldsa_pk@);
    assert(p.wire().subrange(1952, 5261) =~= p.signature@);
}

/// The second message is accepted exactly if it holds a whole block that is a valid KEM key, and
/// the third exactly if it holds a whole block as long as a ciphertext.
pub proof fn law_messages_accepted(payload: Seq<u8>, seed: Seq<u8>)
    ensures
        msg2_content(payload) is Ok <==> (block(payload) matches Ok(b) && b.len() == 1184
            && quantum::kem_key_valid(b)),
        msg2_content(payload) matches Ok(c) ==> block(payload) == Ok::<Seq<u8>, Seq<char>>(c.0)
            && c.1 == suite_of(trailing_flag(payload)),
        msg3_content(payload, seed) is Ok <==> (block(payload) matches Ok(b) && b.len() == 1088),
        msg3_content(payload, seed) matches Ok(ss) ==> ss == quantum::kem_decapsulated(
            seed,
            block(payload)->Ok_0,
        ),
{
}

} // verus!
