//! The Noise handshake, as `snow` runs it: three messages, of which the side that opens it writes
//! the first and the third.

use vstd::prelude::*;
use vstd::string::*;
use crate::crypto::secret;

verus! {

/// The pattern of the handshake.
pub const NOISE_PATTERN: &'static str = "Noise_XX_25519_ChaChaPoly_BLAKE2s";

/// The greatest length of a message.
pub const NOISE_MAX: usize = 65535;

/// `snow::HandshakeState`, one side of a handshake.
#[verifier::external_type_specification]
#[verifier::external_body]
pub struct ExHandshakeState(snow::HandshakeState);

/// `snow::Error`.
#[verifier::external_type_specification]
#[verifier::external_body]
pub struct ExNoiseError(snow::Error);

/// What one side of a handshake holds.
#[verifier::ext_equal]
pub struct NoiseModel {
    /// Whether it opens the handshake.
    pub initiator: bool,
    /// Its static secret.
    pub local: Seq<u8>,
    /// The static key of the other side, as far as it is known.
    pub peer: Option<Seq<u8>>,
    /// The messages so far, in both directions.
    pub log: Seq<Seq<u8>>,
    /// Whether every step so far went well.
    pub unbroken: bool,
}

impl NoiseModel {
    /// Whether it is the turn of this side to write.
    pub open spec fn writes(self) -> bool {
        self.log.len() < 3 && self.initiator == (self.log.len() % 2 == 0)
    }

    /// Whether it is the turn of this side to read.
    pub open spec fn reads(self) -> bool {
        self.log.len() < 3 && self.initiator != (self.log.len() % 2 == 0)
    }

    /// How much longer the next message is than its payload: the first carries a key, the second
    /// a key, a sealed key and a tag, and the third a sealed key and a tag.
    pub open spec fn overhead(self) -> nat {
        if self.log.len() == 0 {
            32
        } else if self.log.len() == 1 {
            96
        } else {
            64
        }
    }

    /// Whether a payload of some length fits into the next message, with a tag in any case.
    pub open spec fn has_room(self, payload: nat) -> bool {
        payload + self.overhead() + (if self.log.len() == 0 {
            16nat
        } else {
            0
        }) <= NOISE_MAX
    }

    /// After a message.
    pub open spec fn with(self, message: Seq<u8>) -> NoiseModel {
        NoiseModel { log: self.log.push(message), ..self }
    }

    /// After a step that failed.
    pub open spec fn failed(self) -> NoiseModel {
        NoiseModel { unbroken: false, ..self }
    }
}

/// Whether two models are those of the two sides of one handshake, with nothing lost between
/// them.
pub open spec fn paired(a: NoiseModel, b: NoiseModel) -> bool {
    a.log == b.log && a.initiator != b.initiator && a.unbroken && b.unbroken
}

/// What a handshake state holds.
pub uninterp spec fn noise_model(state: snow::HandshakeState) -> NoiseModel;

/// Whether a side with this model can write a payload as this message.
pub uninterp spec fn noise_written(
    side: NoiseModel,
    payload: Seq<u8>,
    message: Seq<u8>,
) -> bool;

/// Whether a side with this model can read a message as this payload.
pub uninterp spec fn noise_opened(side: NoiseModel, message: Seq<u8>, payload: Seq<u8>) -> bool;

/// The hash of a transcript.
pub uninterp spec fn noise_digest(log: Seq<Seq<u8>>) -> Seq<u8>;

/// What an error says.
pub uninterp spec fn noise_words(e: snow::Error) -> Seq<char>;

/// `Builder::build_initiator` of `snow`, with the pattern, the local secret and the public key
/// expected of the other side. With keys of this length it succeeds.
#[verifier::external_body]
pub(crate) fn initiator(pattern: &str, local: &[u8; 32], remote: &[u8; 32]) -> (out: Result<
    snow::HandshakeState,
    snow::Error,
>)
    requires
        pattern@ == NOISE_PATTERN@,
    ensures
        out is Ok,
        out matches Ok(state) ==> noise_model(state) == (NoiseModel {
            initiator: true,
            local: local@,
            peer: Some(remote@),
            log: Seq::empty(),
            unbroken: true,
        }),
{
    snow::Builder::new(pattern.parse()?)
        .local_private_key(local)
        .remote_public_key(remote)
        .build_initiator()
}

/// `Builder::build_responder` of `snow`, with the pattern and the local secret. With a key of
/// this length it succeeds.
#[verifier::external_body]
pub(crate) fn responder(pattern: &str, local: &[u8; 32]) -> (out: Result<
    snow::HandshakeState,
    snow::Error,
>)
    requires
        pattern@ == NOISE_PATTERN@,
    ensures
        out is Ok,
        out matches Ok(state) ==> noise_model(state) == (NoiseModel {
            initiator: false,
            local: local@,
            peer: None,
            log: Seq::empty(),
            unbroken: true,
        }),
{
    snow::Builder::new(pattern.parse()?).local_private_key(local).build_responder()
}

/// `HandshakeState::write_message` of `snow`, into a buffer of the greatest message length. It
/// succeeds in turn, where the payload leaves room for keys and tags. The message holds the
/// payload and keys, some of them random. The first message ends in the payload as it is.
#[verifier::external_body]
pub(crate) fn write(state: &mut snow::HandshakeState, payload: &[u8]) -> (out: Result<
    Vec<u8>,
    snow::Error,
>)
    ensures
        out is Ok <==> (noise_model(*old(state)).writes() && noise_model(*old(state)).has_room(
            payload@.len(),
        )),
        out matches Ok(m) ==> noise_written(noise_model(*old(state)), payload@, m@),
        out matches Ok(m) ==> m@.len() == payload@.len() + noise_model(*old(state)).overhead(),
        (out is Ok && noise_model(*old(state)).log.len() == 0) ==> out->Ok_0@.skip(32) == payload@,
        out matches Ok(m) ==> noise_model(*final(state)) == noise_model(*old(state)).with(m@),
        out is Err ==> noise_model(*final(state)) == noise_model(*old(state)).failed(),
{
    let mut buf = vec![0u8; 65535];
    let n = state.write_message(payload, &mut buf)?;
    Ok(buf[..n].to_vec())
}

/// `HandshakeState::read_message` of `snow`, into a buffer of the greatest message length. It
/// succeeds only in turn. What the other side wrote in the same handshake is read as it was
/// written, and with the second and the third message the static key of the other side is known.
/// The first message is not sealed: any message with room for a key is read.
#[verifier::external_body]
pub(crate) fn read(state: &mut snow::HandshakeState, message: &[u8]) -> (out: Result<
    Vec<u8>,
    snow::Error,
>)
    ensures
        out is Ok ==> noise_model(*old(state)).reads(),
        out is Ok ==> message@.len() <= NOISE_MAX,
        out matches Ok(p) ==> message@.len() == p@.len() + noise_model(*old(state)).overhead(),
        out matches Ok(p) ==> noise_opened(noise_model(*old(state)), message@, p@),
        (noise_model(*old(state)).reads() && noise_model(*old(state)).log.len() == 0 && 32
            <= message@.len() <= NOISE_MAX) ==> (out matches Ok(p) && p@ == message@.skip(32)),
        forall|w: NoiseModel, p: Seq<u8>| #[trigger]
            noise_written(w, p, message@) && paired(w, noise_model(*old(state)))
                && noise_model(*old(state)).reads() ==> (out matches Ok(v) && v@ == p),
        out is Ok ==> noise_model(*final(state)) == (NoiseModel {
            peer: noise_model(*final(state)).peer,
            ..noise_model(*old(state)).with(message@)
        }),
        (out is Ok && noise_model(*old(state)).log.len() == 0) ==> noise_model(*final(state)).peer
            == noise_model(*old(state)).peer,
        (out is Ok && noise_model(*old(state)).log.len() > 0) ==> noise_model(
            *final(state),
        ).peer is Some,
        (out is Ok && noise_model(*old(state)).log.len() > 0) ==> forall|w: NoiseModel, p: Seq<u8>|
            #[trigger]
            noise_written(w, p, message@) && paired(w, noise_model(*old(state))) ==> noise_model(
                *final(state),
            ).peer == Some(secret::x25519_base(w.local)),
        out is Err ==> noise_model(*final(state)) == (NoiseModel {
            peer: noise_model(*final(state)).peer,
            ..noise_model(*old(state)).failed()
        }),
{
    let mut buf = vec![0u8; 65535];
    let n = state.read_message(message, &mut buf)?;
    Ok(buf[..n].to_vec())
}

/// `HandshakeState::get_handshake_hash` of `snow`: the hash of the transcript, as long as a
/// BLAKE2s digest. Both sides mix in the bytes of every message, so that it depends on the
/// messages alone.
#[verifier::external_body]
pub(crate) fn transcript_hash(state: &snow::HandshakeState) -> (hash: Vec<u8>)
    ensures
        hash@ == noise_digest(noise_model(*state).log),
        hash@.len() == 32,
{
    state.get_handshake_hash().to_vec()
}

/// `HandshakeState::get_remote_static` of `snow`: the static key of the other side, where it is
/// known, as long as an X25519 key.
#[verifier::external_body]
pub(crate) fn remote_static(state: &snow::HandshakeState) -> (key: Option<Vec<u8>>)
    ensures
        key is Some <==> noise_model(*state).peer is Some,
        key matches Some(k) ==> noise_model(*state).peer == Some(k@),
        key matches Some(k) ==> k@.len() == 32,
{
    state.get_remote_static().map(|k| k.to_vec())
}

/// The `Display` text of a `snow::Error`. It depends on the error alone.
#[verifier::external_body]
pub(crate) fn error_text(e: &snow::Error) -> (out: String)
    ensures
        out@ == noise_words(*e),
{
    e.to_string()
}

/// The side that opens the handshake writes the first and the third message and reads the second,
/// the other side the other way round; after three messages neither does anything.
pub proof fn law_turns(side: NoiseModel)
    ensures
        side.initiator ==> (side.writes() <==> side.log.len() == 0 || side.log.len() == 2),
        side.initiator ==> (side.reads() <==> side.log.len() == 1),
        !side.initiator ==> (side.writes() <==> side.log.len() == 1),
        !side.initiator ==> (side.reads() <==> side.log.len() == 0 || side.log.len() == 2),
        !(side.reads() && side.writes()),
{
}

} // verus!
