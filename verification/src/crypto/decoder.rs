//! Packet decoding.

use vstd::prelude::*;
use vstd::slice::slice_subrange;
use crate::bytes;
use crate::crypto;
use crate::crypto::{AeadCipher, Cipher, CipherSuite, make_cipher};
use crate::crypto::encoder;
use crate::crypto::header;
use crate::crypto::header::apply_header_protection;
use crate::crypto::keys::PacketKeys;
use crate::crypto::replay::{ReplayWindow, WindowModel};
use crate::error::SeamError;
use crate::packet::{HEADER_LEN, MAX_PACKET_LEN, MIN_PACKET_LEN, PktType, TAG_LEN};

verus! {

/// The header of a packet with the mask removed.
pub open spec fn unmasked(keys: PacketKeys, p: Seq<u8>) -> Seq<u8> {
    header::masked(
        keys.hp_key@,
        p.take(HEADER_LEN as int),
        p.subrange(HEADER_LEN as int, HEADER_LEN + 16),
    )
}

/// The length of a packet is within the limits.
pub open spec fn well_sized(p: Seq<u8>) -> bool {
    MIN_PACKET_LEN <= p.len() <= MAX_PACKET_LEN
}

/// The type that the header names.
pub open spec fn packet_type(keys: PacketKeys, p: Seq<u8>) -> Option<PktType> {
    PktType::of_code(unmasked(keys, p)[1])
}

/// The number that the header names.
pub open spec fn packet_number(keys: PacketKeys, p: Seq<u8>) -> u64 {
    bytes::un_le64(unmasked(keys, p).subrange(16, 24))
}

/// The nonce that belongs to the packet number.
pub open spec fn nonce_of(keys: PacketKeys, p: Seq<u8>) -> Seq<u8> {
    encoder::packet_nonce(keys.nonce_base@, packet_number(keys, p))
}

/// The payload, if header and body are authentic.
pub open spec fn packet_payload(keys: PacketKeys, p: Seq<u8>) -> Option<Seq<u8>> {
    crypto::suite_opened(
        keys.cipher_suite,
        keys.enc_key@,
        nonce_of(keys, p),
        unmasked(keys, p),
        p.skip(HEADER_LEN as int),
    )
}

/// What a decoder holds.
pub struct DecoderModel {
    pub keys: PacketKeys,
    pub window: WindowModel,
}

/// Unmasks, checks and decrypts packets.
pub struct PacketDecoder {
    keys: PacketKeys,
    replay: ReplayWindow,
}

impl View for PacketDecoder {
    type V = DecoderModel;

    closed spec fn view(&self) -> DecoderModel {
        DecoderModel { keys: self.keys, window: self.replay@ }
    }
}

impl PacketDecoder {
    /// A decoder that has seen no packet.
    pub fn new(keys: PacketKeys) -> (d: Self)
        ensures
            d@ == (DecoderModel { keys, window: WindowModel { base: 0, seen: Set::empty() } }),
    {
        PacketDecoder { keys, replay: ReplayWindow::new() }
    }

    /// Decodes a packet in place: the header is unmasked and the payload decrypted. A packet
    /// number counts as seen even if the packet then turns out not to be authentic.
    pub fn decode<'a>(&mut self, buf: &'a mut [u8]) -> (r: Result<
        (PktType, u64, &'a [u8]),
        SeamError,
    >)
        ensures
            ({
                let keys = old(self)@.keys;
                let window = old(self)@.window;
                let p = old(buf)@;
                let num = packet_number(keys, p);
                &&& match r {
                    Ok((t, n, payload)) => {
                        &&& well_sized(p) && packet_type(keys, p) == Some(t) && n == num
                            && !window.refuses(num as int)
                        &&& packet_payload(keys, p) == Some(payload@)
                        &&& payload@.len() + MIN_PACKET_LEN == p.len()
                        &&& crypto::suite_sealed(
                            keys.cipher_suite,
                            keys.enc_key@,
                            nonce_of(keys, p),
                            unmasked(keys, p),
                            payload@,
                        ) == Some(p.skip(HEADER_LEN as int))
                        &&& final(buf)@ == unmasked(keys, p) + payload@ + p.skip(
                            p.len() - TAG_LEN,
                        )
                    },
                    Err(SeamError::PacketTooLarge { have, max }) => have == p.len() && max
                        == MAX_PACKET_LEN && p.len() > MAX_PACKET_LEN,
                    Err(SeamError::BufferTooSmall { need, have }) => need == MIN_PACKET_LEN
                        && have == p.len() && p.len() < MIN_PACKET_LEN,
                    Err(SeamError::InvalidPktType(b)) => well_sized(p) && packet_type(
                        keys,
                        p,
                    ) is None && b == unmasked(keys, p)[1],
                    Err(SeamError::TooOld(n)) => well_sized(p) && packet_type(keys, p) is Some && n
                        == num && num < window.base,
                    Err(SeamError::Replay(n)) => well_sized(p) && packet_type(keys, p) is Some && n
                        == num && num >= window.base && window.seen.contains(num as int),
                    Err(SeamError::AuthFailed) => well_sized(p) && packet_type(keys, p) is Some
                        && !window.refuses(num as int) && packet_payload(keys, p) is None,
                    Err(_) => false,
                }
                &&& r is Err ==> final(buf)@ == if well_sized(p) {
                    unmasked(keys, p) + p.skip(HEADER_LEN as int)
                } else {
                    p
                }
                &&& final(self)@.keys == keys
                &&& final(self)@.window == if well_sized(p) && packet_type(keys, p) is Some {
                    window.offered(num as int)
                } else {
                    window
                }
            }),
    {
        let ghost p = buf@;
        if buf.len() > MAX_PACKET_LEN {
            return Err(SeamError::PacketTooLarge { have: buf.len(), max: MAX_PACKET_LEN });
        }
        if buf.len() < MIN_PACKET_LEN {
            return Err(SeamError::BufferTooSmall { need: MIN_PACKET_LEN, have: buf.len() });
        }
        let sample: [u8; 16] = bytes::array::<16>(buf, HEADER_LEN);
        let mut head: [u8; 32] = bytes::array::<32>(buf, 0);
        assert(head@ =~= p.take(HEADER_LEN as int));
        apply_header_protection(&self.keys.hp_key, &mut head, &sample);
        encoder::overwrite(buf, 0, &head);
        proof {
            assert(head@ =~= unmasked(self.keys, p));
            assert(buf@ =~= head@ + p.skip(HEADER_LEN as int));
        }
        let pkt_type: PktType = match PktType::try_from(head[1]) {
            Ok(t) => t,
            Err(e) => {
                return Err(e);
            },
        };
        let pkt_num: u64 = bytes::get_le64(&head, 16);
        match self.replay.check_and_insert(pkt_num) {
            Ok(()) => {},
            Err(e) => {
                return Err(e);
            },
        }
        let nonce: [u8; 12] = encoder::make_nonce(&self.keys.nonce_base, pkt_num);
        let payload_end: usize = buf.len() - TAG_LEN;
        let mut body: Vec<u8> = bytes::piece(buf, HEADER_LEN, buf.len());
        assert(body@ =~= p.skip(HEADER_LEN as int));
        let cipher: Cipher = make_cipher(self.keys.cipher_suite, self.keys.enc_key);
        match cipher.decrypt_in_place(&nonce, &head, &mut body) {
            Ok(()) => {},
            Err(e) => {
                return Err(e);
            },
        }
        encoder::overwrite(buf, HEADER_LEN, body.as_slice());
        proof {
            assert(buf@ =~= head@ + body@ + p.skip(p.len() - TAG_LEN));
            assert(buf@.subrange(HEADER_LEN as int, payload_end as int) =~= body@);
        }
        Ok((pkt_type, pkt_num, slice_subrange(buf, HEADER_LEN, payload_end)))
    }
}

/// A packet made with the same keys decodes to what it was made of: its type, its number and its
/// payload, whatever packets came before, unless its number has been seen or left behind.
pub proof fn law_decode_inverts_encode(
    keys: PacketKeys,
    session_id: u64,
    pkt_num: u64,
    t: PktType,
    payload: Seq<u8>,
    p: Seq<u8>,
)
    requires
        encoder::is_packet(keys, session_id, pkt_num, t, payload, p),
    ensures
        unmasked(keys, p) == encoder::plain_header(t, session_id, pkt_num),
        packet_type(keys, p) == Some(t),
        packet_number(keys, p) == pkt_num,
        packet_payload(keys, p) == Some(payload),
        well_sized(p) <==> payload.len() + MIN_PACKET_LEN <= MAX_PACKET_LEN,
{
    let hdr = encoder::plain_header(t, session_id, pkt_num);
    let body = p.skip(HEADER_LEN as int);
    assert(p.subrange(HEADER_LEN as int, HEADER_LEN + 16) =~= body.take(16));
    header::law_protection_is_symmetric(keys.hp_key@, hdr, body.take(16));
    assert(hdr.subrange(16, 24) =~= bytes::le64(pkt_num));
    bytes::law_le64_read_write(pkt_num);
}

/// A packet that was decoded once is refused ever after.
pub proof fn law_decoded_packet_is_refused(window: WindowModel, num: u64, others: Seq<u64>)
    ensures
        window.offered(num as int).after(others, others.len()).refuses(num as int),
{
    crypto::replay::law_offered_is_refused(window, num as int);
    lemma_refused_throughout(window.offered(num as int), num, others, others.len());
}

proof fn lemma_refused_throughout(window: WindowModel, num: u64, others: Seq<u64>, n: nat)
    requires
        window.refuses(num as int),
    ensures
        window.after(others, n).refuses(num as int),
    decreases n,
{
    if n > 0 {
        lemma_refused_throughout(window, num, others, (n - 1) as nat);
        crypto::replay::law_refusal_is_final(
            window.after(others, (n - 1) as nat),
            num as int,
            others[n - 1] as int,
        );
    }
}

/// A genuine packet is never refused for its size: one with a payload of at most 65487 bytes is
/// decoded to what was encoded, unless its number is refused, and a longer one is not a packet.
pub proof fn law_genuine_packet_decodes(
    keys: PacketKeys,
    session_id: u64,
    pkt_num: u64,
    t: PktType,
    payload: Seq<u8>,
    p: Seq<u8>,
)
    requires
        encoder::is_packet(keys, session_id, pkt_num, t, payload, p),
    ensures
        well_sized(p) <==> payload.len() <= 65487,
        packet_type(keys, p) == Some(t),
        packet_number(keys, p) == pkt_num,
        packet_payload(keys, p) == Some(payload),
{
    law_decode_inverts_encode(keys, session_id, pkt_num, t, payload, p);
}

/// What is decoded rests on the whole packet: the header under its protection, and the rest as
/// sealed payload with the header as associated data.
pub proof fn law_decoding_reads_packet(keys: PacketKeys, p: Seq<u8>)
    requires
        p.len() >= 48,
    ensures
        ({
            let h = header::masked(keys.hp_key@, p.subrange(0, 32), p.subrange(32, 48));
            let n = encoder::packet_nonce(keys.nonce_base@, bytes::un_le64(h.subrange(16, 24)));
            &&& packet_type(keys, p) == PktType::of_code(h[1])
            &&& packet_number(keys, p) == bytes::un_le64(h.subrange(16, 24))
            &&& keys.cipher_suite == CipherSuite::ChaCha20Poly1305 ==> packet_payload(keys, p)
                == crypto::chacha_opened(keys.enc_key@, n, h, p.skip(32))
            &&& keys.cipher_suite == CipherSuite::Aes256Gcm ==> packet_payload(keys, p)
                == crypto::gcm_opened(keys.enc_key@, n, h, p.skip(32))
        }),
{
    assert(p.take(32) =~= p.subrange(0, 32));
}

/// A decoder that has been offered packets in turn refuses exactly the packets whose numbers it
/// was offered, and those more than 1023 below the highest.
pub proof fn law_late_packets_accepted(offered: Seq<u64>, highest: u64, num: u64)
    requires
        offered.len() > 0,
        exists|i: int| 0 <= i < offered.len() && offered[i] == highest,
        forall|i: int| 0 <= i < offered.len() ==> offered[i] <= highest,
    ensures
        (WindowModel { base: 0, seen: Set::empty() }).after(offered, offered.len()).refuses(
            num as int,
        ) <==> (num + 1024 <= highest || exists|i: int|
            0 <= i < offered.len() && offered[i] == num),
{
    crate::crypto::replay::law_fresh_numbers_accepted(offered, offered.len(), highest, num);
}

} // verus!
