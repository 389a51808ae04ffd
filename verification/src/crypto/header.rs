//! Header protection: the header is masked with a keystream that the ciphertext selects.

use chacha20::cipher::{KeyIvInit, StreamCipherCore, StreamCipherSeekCore};
use vstd::prelude::*;
use crate::bytes;

verus! {

/// The first 32 bytes of the ChaCha20 block with the given counter.
pub uninterp spec fn keystream_head(key: Seq<u8>, nonce: Seq<u8>, counter: u32) -> Seq<u8>;

/// `ChaChaCore::write_keystream_block`, at the block that `set_block_pos` selects: the block
/// depends on key, nonce and counter alone. The core does not check how many blocks are left, so
/// the last counter has a block too.
#[verifier::external_body]
fn chacha_block_head(key: &[u8; 32], nonce: &[u8; 12], counter: u32) -> (head: [u8; 32])
    ensures
        head@ == keystream_head(key@, nonce@, counter),
{
    let mut core = chacha20::ChaChaCore::<chacha20::cipher::consts::U10>::new(
        key.into(),
        nonce.into(),
    );
    core.set_block_pos(counter);
    let mut block = Default::default();
    core.write_keystream_block(&mut block);
    let mut head = [0u8; 32];
    head.copy_from_slice(&block[..32]);
    head
}

/// The mask that a sample of the ciphertext selects: its first 12 bytes are the nonce, its last
/// four the block counter.
pub open spec fn mask(hp_key: Seq<u8>, sample: Seq<u8>) -> Seq<u8> {
    keystream_head(hp_key, sample.take(12), bytes::un_le32(sample.subrange(12, 16)))
}

/// The header with the mask applied.
pub open spec fn masked(hp_key: Seq<u8>, header: Seq<u8>, sample: Seq<u8>) -> Seq<u8> {
    Seq::new(32, |i: int| header[i] ^ mask(hp_key, sample)[i])
}

/// Applying the protection twice gives the header back.
pub proof fn law_protection_is_symmetric(hp_key: Seq<u8>, header: Seq<u8>, sample: Seq<u8>)
    requires
        header.len() == 32,
    ensures
        masked(hp_key, masked(hp_key, header, sample), sample) == header,
{
    assert forall|i: int| 0 <= i < 32 implies masked(
        hp_key,
        masked(hp_key, header, sample),
        sample,
    )[i] == header[i] by {
        crate::fec::gf::lemma_xor(header[i], mask(hp_key, sample)[i], 0);
    }
    assert(masked(hp_key, masked(hp_key, header, sample), sample) =~= header);
}

/// Applies or removes header protection, with the first 16 bytes of the ciphertext as the sample.
pub fn apply_header_protection(hp_key: &[u8; 32], header: &mut [u8; 32], ciphertext: &[u8; 16])
    ensures
        final(header)@ == masked(hp_key@, old(header)@, ciphertext@),
{
    let nonce: [u8; 12] = bytes::array::<12>(ciphertext, 0);
    let counter: u32 = bytes::get_le32(ciphertext, 12);
    assert(nonce@ =~= ciphertext@.take(12));
    let head: [u8; 32] = chacha_block_head(hp_key, &nonce, counter);
    let ghost start = header@;
    let mut i: usize = 0;
    while i < 32
        invariant
            i <= 32,
            head@ == mask(hp_key@, ciphertext@),
            forall|j: int| 0 <= j < i ==> header@[j] == start[j] ^ head@[j],
            forall|j: int| i <= j < 32 ==> header@[j] == start[j],
        decreases 32 - i,
    {
        let byte: u8 = header[i] ^ head[i];
        header[i] = byte;
        i = i + 1;
    }
    assert(header@ =~= masked(hp_key@, start, ciphertext@));
}

/// Header protection adds, bit by bit, a mask that depends on the key and on all sixteen bytes of
/// the sample: the first twelve are the nonce and the last four the counter of a ChaCha20 block.
/// Two headers differ under protection exactly where they differ without.
pub proof fn law_protection_adds_mask(hp_key: Seq<u8>, a: Seq<u8>, b: Seq<u8>, sample: Seq<u8>)
    requires
        a.len() == 32,
        b.len() == 32,
        sample.len() == 16,
    ensures
        masked(hp_key, a, sample).len() == 32,
        forall|i: int|
            0 <= i < 32 ==> #[trigger] masked(hp_key, a, sample)[i] == a[i] ^ keystream_head(
                hp_key,
                sample.subrange(0, 12),
                bytes::un_le32(sample.subrange(12, 16)),
            )[i],
        forall|i: int|
            0 <= i < 32 ==> (#[trigger] masked(hp_key, a, sample)[i] == masked(
                hp_key,
                b,
                sample,
            )[i] <==> a[i] == b[i]),
{
    assert(sample.take(12) =~= sample.subrange(0, 12));
    assert forall|i: int| 0 <= i < 32 implies (#[trigger] masked(hp_key, a, sample)[i] == masked(
        hp_key,
        b,
        sample,
    )[i] <==> a[i] == b[i]) by {
        let m = mask(hp_key, sample)[i];
        let x = a[i];
        let y = b[i];
        assert(x ^ m == y ^ m <==> x == y) by (bit_vector);
    }
}

} // verus!
