//! Packet encoding.
//!
//! A packet is a masked 32-byte header, the encrypted payload, and a 16-byte tag. The header
//! holds a version byte, the packet type, the session id and the packet number, the latter two
//! little-endian, and is authenticated along with the payload.

use vstd::prelude::*;
use vstd::slice::slice_to_vec;
use crate::bytes;
use crate::crypto;
use crate::crypto::{AeadCipher, Cipher, CipherSuite, make_cipher};
use crate::crypto::header;
use crate::crypto::header::apply_header_protection;
use crate::crypto::keys::PacketKeys;
use crate::error::SeamError;
use crate::packet::{HEADER_LEN, MIN_PACKET_LEN, PktType, encode_buf_len};

verus! {

/// The header of a packet before it is masked.
pub open spec fn plain_header(t: PktType, session_id: u64, pkt_num: u64) -> Seq<u8> {
    seq![1u8, t.code(), 0, 0, 0, 0, 0, 0] + bytes::le64(session_id) + bytes::le64(pkt_num) + seq![
        0u8,
        0,
        0,
        0,
        0,
        0,
        0,
        0,
    ]
}

/// The nonce of a packet: the nonce base with the packet number mixed into its first 8 bytes.
pub open spec fn packet_nonce(base: Seq<u8>, pkt_num: u64) -> Seq<u8> {
    Seq::new(
        12,
        |i: int|
            if i < 8 {
                base[i] ^ bytes::le64(pkt_num)[i]
            } else {
                base[i]
            },
    )
}

/// Different packet numbers give different nonces.
pub proof fn law_nonces_differ(base: Seq<u8>, a: u64, b: u64)
    requires
        a != b,
    ensures
        packet_nonce(base, a) != packet_nonce(base, b),
{
    let x = bytes::le64(a);
    let y = bytes::le64(b);
    bytes::law_le64_read_write(a);
    bytes::law_le64_read_write(b);
    if packet_nonce(base, a) == packet_nonce(base, b) {
        assert forall|i: int| 0 <= i < 8 implies x[i] == y[i] by {
            assert(packet_nonce(base, a)[i] == packet_nonce(base, b)[i]);
            crate::fec::gf::lemma_xor(x[i], base[i], 0);
            crate::fec::gf::lemma_xor(y[i], base[i], 0);
            crate::fec::gf::lemma_xor(base[i], x[i], 0);
            crate::fec::gf::lemma_xor(base[i], y[i], 0);
        }
        assert(x =~= y);
    }
}

/// `p` is the packet with the given contents: its body is the sealed payload, which opens to the
/// payload again, and its head is the header masked by a sample of the body.
pub open spec fn is_packet(
    keys: PacketKeys,
    session_id: u64,
    pkt_num: u64,
    t: PktType,
    payload: Seq<u8>,
    p: Seq<u8>,
) -> bool {
    let hdr = plain_header(t, session_id, pkt_num);
    let nonce = packet_nonce(keys.nonce_base@, pkt_num);
    let body = p.skip(HEADER_LEN as int);
    &&& p.len() == MIN_PACKET_LEN + payload.len()
    &&& crypto::suite_sealed(keys.cipher_suite, keys.enc_key@, nonce, hdr, payload) == Some(body)
    &&& crypto::suite_opened(keys.cipher_suite, keys.enc_key@, nonce, hdr, body) == Some(payload)
    &&& p.take(HEADER_LEN as int) == header::masked(keys.hp_key@, hdr, body.take(16))
}

/// The nonce of a packet.
pub fn make_nonce(base: &[u8; 12], pkt_num: u64) -> (nonce: [u8; 12])
    ensures
        nonce@ == packet_nonce(base@, pkt_num),
{
    let mut num: Vec<u8> = Vec::with_capacity(8);
    bytes::put_le64(&mut num, pkt_num);
    assert(num@ =~= bytes::le64(pkt_num));
    let mut nonce: [u8; 12] = *base;
    let mut i: usize = 0;
    while i < 8
        invariant
            i <= 8,
            num@ == bytes::le64(pkt_num),
            num.len() == 8,
            forall|j: int| 0 <= j < i ==> nonce@[j] == base@[j] ^ num@[j],
            forall|j: int| i <= j < 12 ==> nonce@[j] == base@[j],
        decreases 8 - i,
    {
        let byte: u8 = nonce[i] ^ num[i];
        nonce[i] = byte;
        i = i + 1;
    }
    assert(nonce@ =~= packet_nonce(base@, pkt_num));
    nonce
}

/// The header of a packet before it is masked.
fn make_header(t: PktType, session_id: u64, pkt_num: u64) -> (hdr: Vec<u8>)
    ensures
        hdr@ == plain_header(t, session_id, pkt_num),
{
    let mut hdr: Vec<u8> = Vec::with_capacity(HEADER_LEN);
    hdr.push(1);
    hdr.push(t.to_u8());
    bytes::append(&mut hdr, &[0u8; 6]);
    bytes::put_le64(&mut hdr, session_id);
    bytes::put_le64(&mut hdr, pkt_num);
    bytes::append(&mut hdr, &[0u8; 8]);
    assert(hdr@ =~= plain_header(t, session_id, pkt_num));
    hdr
}

/// Overwrites the bytes of `out` from `at` on.
pub(crate) fn overwrite(out: &mut [u8], at: usize, data: &[u8])
    requires
        at + data@.len() <= old(out)@.len(),
    ensures
        final(out)@ == old(out)@.take(at as int) + data@ + old(out)@.skip(at + data@.len()),
{
    let ghost start = out@;
    let len: usize = out.len();
    let n: usize = data.len();
    let mut i: usize = 0;
    while i < n
        invariant
            i <= n,
            n == data@.len(),
            at + n <= len,
            len == out@.len(),
            start.len() == len,
            forall|j: int| 0 <= j < i ==> out@[at + j] == data@[j],
            forall|j: int| 0 <= j < at ==> out@[j] == start[j],
            forall|j: int| at + i <= j < len ==> out@[j] == start[j],
        decreases n - i,
    {
        out[at + i] = data[i];
        i = i + 1;
    }
    assert(out@ =~= start.take(at as int) + data@ + start.skip(at + n));
}

/// What an encoder holds.
pub struct EncoderModel {
    pub keys: PacketKeys,
    pub session_id: u64,
    pub next: u64,
}

impl EncoderModel {
    /// The encoder after one more packet number was used.
    pub open spec fn advanced(self) -> EncoderModel {
        EncoderModel {
            next: if self.next == u64::MAX {
                0
            } else {
                (self.next + 1) as u64
            },
            ..self
        }
    }
}

/// Numbers, encrypts and masks packets.
pub struct PacketEncoder {
    keys: PacketKeys,
    session_id: u64,
    next_pkt_num: u64,
}

impl View for PacketEncoder {
    type V = EncoderModel;

    closed spec fn view(&self) -> EncoderModel {
        EncoderModel { keys: self.keys, session_id: self.session_id, next: self.next_pkt_num }
    }
}

impl PacketEncoder {
    /// An encoder whose first packet has number zero.
    pub fn new(keys: PacketKeys, session_id: u64) -> (e: Self)
        ensures
            e@ == (EncoderModel { keys, session_id, next: 0 }),
    {
        PacketEncoder { keys, session_id, next_pkt_num: 0 }
    }

    /// The number of the next packet.
    pub fn peek_next_pkt_num(&self) -> (n: u64)
        ensures
            n == self@.next,
    {
        self.next_pkt_num
    }

    /// Encodes a packet into the front of `out` and returns its length.
    pub fn encode(&mut self, pkt_type: PktType, plaintext: &[u8], out: &mut [u8]) -> (r: Result<
        usize,
        SeamError,
    >)
        requires
            plaintext@.len() + MIN_PACKET_LEN <= usize::MAX,
            old(out)@.len() >= plaintext@.len() + MIN_PACKET_LEN ==> !crypto::suite_overruns(
                old(self)@.keys.cipher_suite,
                plaintext@.len(),
            ),
        ensures
            ({
                let need = MIN_PACKET_LEN + plaintext@.len();
                let have = old(out)@.len();
                let fits = crypto::suite_fits(
                    old(self)@.keys.cipher_suite,
                    plaintext@.len(),
                    HEADER_LEN as nat,
                );
                match r {
                    Ok(n) => {
                        &&& n == need && need <= have && fits
                        &&& final(out)@.len() == have
                        &&& final(out)@.skip(n as int) == old(out)@.skip(n as int)
                        &&& is_packet(
                            old(self)@.keys,
                            old(self)@.session_id,
                            old(self)@.next,
                            pkt_type,
                            plaintext@,
                            final(out)@.take(n as int),
                        )
                        &&& final(self)@ == old(self)@.advanced()
                    },
                    Err(SeamError::BufferTooSmall { need: n, have: h }) => {
                        &&& n == need && h == have && have < need
                        &&& final(out)@ == old(out)@
                        &&& final(self)@ == old(self)@
                    },
                    Err(SeamError::AuthFailed) => {
                        &&& need <= have && !fits
                        &&& final(out)@ == plain_header(
                            pkt_type,
                            old(self)@.session_id,
                            old(self)@.next,
                        ) + plaintext@ + old(out)@.skip(HEADER_LEN + plaintext@.len())
                        &&& final(self)@ == old(self)@.advanced()
                    },
                    Err(_) => false,
                }
            }),
    {
        let ghost start = out@;
        let needed: usize = encode_buf_len(plaintext.len());
        if out.len() < needed {
            return Err(SeamError::BufferTooSmall { need: needed, have: out.len() });
        }
        let pkt_num: u64 = self.next_pkt_num;
        self.next_pkt_num = pkt_num.wrapping_add(1);
        let hdr: Vec<u8> = make_header(pkt_type, self.session_id, pkt_num);
        overwrite(out, 0, hdr.as_slice());
        overwrite(out, HEADER_LEN, plaintext);
        proof {
            assert(out@ =~= hdr@ + plaintext@ + start.skip(HEADER_LEN + plaintext@.len()));
        }
        let nonce: [u8; 12] = make_nonce(&self.keys.nonce_base, pkt_num);
        let cipher: Cipher = make_cipher(self.keys.cipher_suite, self.keys.enc_key);
        let mut body: Vec<u8> = slice_to_vec(plaintext);
        match cipher.encrypt_in_place(&nonce, hdr.as_slice(), &mut body) {
            Ok(()) => {},
            Err(e) => {
                return Err(e);
            },
        }
        let sample: [u8; 16] = bytes::array::<16>(body.as_slice(), 0);
        let mut head: [u8; 32] = bytes::array::<32>(hdr.as_slice(), 0);
        assert(head@ =~= hdr@);
        assert(sample@ =~= body@.take(16));
        apply_header_protection(&self.keys.hp_key, &mut head, &sample);
        overwrite(out, HEADER_LEN, body.as_slice());
        overwrite(out, 0, &head);
        proof {
            let p = out@.take(needed as int);
            assert(p.take(HEADER_LEN as int) =~= head@);
            assert(p.skip(HEADER_LEN as int) =~= body@);
            assert(out@.skip(needed as int) =~= start.skip(needed as int));
        }
        Ok(needed)
    }
}

/// A header has 32 bytes and holds the type, the session and the number at fixed places; headers
/// that agree are those of one packet.
pub proof fn law_header_holds_fields(t: PktType, session_id: u64, pkt_num: u64)
    ensures
        ({
            let h = plain_header(t, session_id, pkt_num);
            &&& h.len() == 32
            &&& h[0] == 1
            &&& PktType::of_code(h[1]) == Some(t)
            &&& bytes::un_le64(h.subrange(8, 16)) == session_id
            &&& bytes::un_le64(h.subrange(16, 24)) == pkt_num
            &&& forall|i: int| 2 <= i < 8 || 24 <= i < 32 ==> h[i] == 0
        }),
{
    let h = plain_header(t, session_id, pkt_num);
    crate::packet::law_code_round_trip(t, t.code());
    bytes::law_le64_read_write(session_id);
    bytes::law_le64_read_write(pkt_num);
    assert(h.subrange(8, 16) =~= bytes::le64(session_id));
    assert(h.subrange(16, 24) =~= bytes::le64(pkt_num));
}

/// A nonce is the base, with the number of the packet added bit by bit to its first eight bytes:
/// from the nonce and the base the number can be read.
pub proof fn law_nonce_holds_number(base: Seq<u8>, pkt_num: u64)
    requires
        base.len() == 12,
    ensures
        ({
            let n = packet_nonce(base, pkt_num);
            &&& n.len() == 12
            &&& bytes::un_le64(Seq::new(8, |i: int| n[i] ^ base[i])) == pkt_num
            &&& n.skip(8) == base.skip(8)
        }),
{
    let n = packet_nonce(base, pkt_num);
    let x = Seq::new(8, |i: int| n[i] ^ base[i]);
    assert forall|i: int| 0 <= i < 8 implies x[i] == bytes::le64(pkt_num)[i] by {
        let a = base[i];
        let b = bytes::le64(pkt_num)[i];
        assert((a ^ b) ^ a == b) by (bit_vector);
    }
    assert(x =~= bytes::le64(pkt_num));
    bytes::law_le64_read_write(pkt_num);
    assert(n.skip(8) =~= base.skip(8));
}

/// A packet is its header under header protection, and the payload sealed with the header as
/// associated data, under the nonce of its number. It is 48 bytes longer than its payload.
pub proof fn law_packet_is_sealed(
    keys: PacketKeys,
    session_id: u64,
    pkt_num: u64,
    t: PktType,
    payload: Seq<u8>,
    p: Seq<u8>,
)
    requires
        is_packet(keys, session_id, pkt_num, t, payload, p),
    ensures
        p.len() == payload.len() + 48,
        keys.cipher_suite == CipherSuite::ChaCha20Poly1305 ==> crypto::chacha_sealed(
            keys.enc_key@,
            packet_nonce(keys.nonce_base@, pkt_num),
            plain_header(t, session_id, pkt_num),
            payload,
        ) == Some(p.skip(32)),
        keys.cipher_suite == CipherSuite::Aes256Gcm ==> crypto::gcm_sealed(
            keys.enc_key@,
            packet_nonce(keys.nonce_base@, pkt_num),
            plain_header(t, session_id, pkt_num),
            payload,
        ) == Some(p.skip(32)),
        p.take(32) == header::masked(
            keys.hp_key@,
            plain_header(t, session_id, pkt_num),
            p.subrange(32, 48),
        ),
{
    assert(p.skip(32).take(16) =~= p.subrange(32, 48));
}

/// The encoder after some packets.
pub open spec fn after_packets(m: EncoderModel, n: nat) -> EncoderModel
    decreases n,
{
    if n == 0 {
        m
    } else {
        after_packets(m, (n - 1) as nat).advanced()
    }
}

/// The packets of an encoder are numbered in turn, and the keys and the session stay. No number
/// comes twice before all have come.
pub proof fn law_numbers_in_turn(m: EncoderModel, n: nat)
    ensures
        after_packets(m, n).next == (m.next + n) % 0x1_0000_0000_0000_0000,
        after_packets(m, n).keys == m.keys,
        after_packets(m, n).session_id == m.session_id,
    decreases n,
{
    if n > 0 {
        law_numbers_in_turn(m, (n - 1) as nat);
        let a = m.next + n - 1;
        let b = 0x1_0000_0000_0000_0000int;
        assert((a + 1) % b == if a % b == b - 1 {
            0
        } else {
            a % b + 1
        }) by (nonlinear_arith)
            requires
                a >= 0,
                b == 0x1_0000_0000_0000_0000int,
        ;
    }
}

} // verus!
