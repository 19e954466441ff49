//! ChaCha20-Poly1305 in its original form with an 8-byte nonce, for audio packets.

use crate::bytes;
use crate::crypto::chacha;
use crate::crypto::primitives;
use crate::error::RottenError;
use vstd::prelude::*;

verus! {

/// `data` under the keystream of an 8-byte nonce from byte `pos` on.
pub open spec fn short_xor(key: Seq<u8>, nonce: Seq<u8>, pos: nat, data: Seq<u8>) -> Seq<u8> {
    primitives::chacha_xor(key, bytes::zeros(4) + nonce, pos, data)
}

/// Zeros that fill up a last block of 16.
pub open spec fn block_padding(len: nat) -> Seq<u8> {
    bytes::zeros(((16 - len % 16) % 16) as nat)
}

/// The authenticated text: associated data and ciphertext, each filled up to whole blocks, and
/// their lengths.
pub open spec fn mac_input(aad: Seq<u8>, ciphertext: Seq<u8>) -> Seq<u8> {
    aad + block_padding(aad.len()) + ciphertext + block_padding(ciphertext.len())
        + bytes::le_bytes(aad.len(), 8) + bytes::le_bytes(ciphertext.len(), 8)
}

/// Ciphertext under the keystream from its second block on, followed by the tag under the
/// first 32 keystream bytes.
pub open spec fn sealed(key: Seq<u8>, nonce: Seq<u8>, plaintext: Seq<u8>, aad: Seq<u8>) -> Seq<u8> {
    let ciphertext = short_xor(key, nonce, 64, plaintext);
    ciphertext + primitives::poly1305(
        short_xor(key, nonce, 0, bytes::zeros(32)),
        mac_input(aad, ciphertext),
    )
}

/// Longest plaintext: the keystream has 2^32 - 1 blocks of 64 bytes.
pub const MAX_SEAL_LEN: u64 = 274877906816;

/// Seals `plaintext`: ciphertext followed by a 16-byte tag.
pub fn seal(key: &[u8; 32], nonce: &[u8; 8], plaintext: &[u8], aad: &[u8]) -> (r: Vec<u8>)
    requires
        plaintext@.len() <= MAX_SEAL_LEN,
    ensures
        r@ == sealed(key@, nonce@, plaintext@, aad@),
        r@.len() == plaintext@.len() + 16,
{
    let poly_key = primitives::chacha20_apply(key, nonce, 0, &bytes::zero_vec(32));
    assert(poly_key@ =~= short_xor(key@, nonce@, 0, bytes::zeros(32)));
    let mut out = primitives::chacha20_apply(key, nonce, 64, plaintext);
    assert(out@ =~= short_xor(key@, nonce@, 64, plaintext@));
    let tag = poly1305_tag(&poly_key, aad, &out);
    bytes::extend(&mut out, &tag);
    out
}

fn poly1305_tag(poly_key: &[u8], aad: &[u8], ciphertext: &[u8]) -> (r: Vec<u8>)
    requires
        poly_key@.len() == 32,
    ensures
        r@ == primitives::poly1305(poly_key@, mac_input(aad@, ciphertext@)),
        r@.len() == 16,
{
    let mut data = bytes::to_vec(aad);
    bytes::extend(&mut data, &bytes::zero_vec((16 - aad.len() % 16) % 16));
    bytes::extend(&mut data, ciphertext);
    bytes::extend(&mut data, &bytes::zero_vec((16 - ciphertext.len() % 16) % 16));
    bytes::extend(&mut data, &bytes::u64_le(aad.len() as u64));
    bytes::extend(&mut data, &bytes::u64_le(ciphertext.len() as u64));
    primitives::poly1305_mac(poly_key, &data)
}

/// Sealing with an 8-byte nonce is sealing with the 12-byte nonce that has four zero bytes in
/// front of it.
pub proof fn law_short_nonce(key: Seq<u8>, nonce: Seq<u8>, plaintext: Seq<u8>, aad: Seq<u8>)
    ensures
        sealed(key, nonce, plaintext, aad) == primitives::chacha_sealed(
            key,
            bytes::zeros(4) + nonce,
            plaintext,
            aad,
        ),
{
}

/// What the numbered cipher seals as message `counter` is what is sealed here with the counter,
/// little-endian, as the nonce.
pub proof fn law_numbered_cipher(
    key: Seq<u8>,
    counter: nat,
    plaintext: Seq<u8>,
    aad: Seq<u8>,
    r: Result<Vec<u8>, RottenError>,
)
    requires
        chacha::seals(key, counter, plaintext, aad, r),
        plaintext.len() <= MAX_SEAL_LEN,
    ensures
        r matches Ok(v) && v@ == sealed(key, bytes::le_bytes(counter, 8), plaintext, aad),
{
    law_short_nonce(key, bytes::le_bytes(counter, 8), plaintext, aad);
}

/// What is authenticated: the extra data and the ciphertext, each followed by as many zeros as
/// bring it to whole blocks of sixteen bytes, and the lengths of both in eight bytes each.
pub proof fn law_authenticated_blocks(aad: Seq<u8>, ciphertext: Seq<u8>)
    ensures
        ({
            let m = mac_input(aad, ciphertext);
            let a = (aad.len() + 15) / 16 * 16;
            let c = (ciphertext.len() + 15) / 16 * 16;
            &&& m.len() == a + c + 16
            &&& m.take(aad.len() as int) == aad
            &&& m.subrange(a as int, (a + ciphertext.len()) as int) == ciphertext
            &&& forall|i: int| aad.len() <= i < a ==> #[trigger] m[i] == 0
            &&& forall|i: int| a + ciphertext.len() <= i < a + c ==> #[trigger] m[i] == 0
            &&& m.subrange((a + c) as int, (a + c + 8) as int) == bytes::le_bytes(aad.len(), 8)
            &&& m.skip((a + c + 8) as int) == bytes::le_bytes(ciphertext.len(), 8)
        }),
{
    bytes::lemma_le_bytes_len(aad.len(), 8);
    bytes::lemma_le_bytes_len(ciphertext.len(), 8);
    let m = mac_input(aad, ciphertext);
    let a = (aad.len() + 15) / 16 * 16;
    let c = (ciphertext.len() + 15) / 16 * 16;
    assert(aad.len() + block_padding(aad.len()).len() == a);
    assert(ciphertext.len() + block_padding(ciphertext.len()).len() == c);
    assert(m.take(aad.len() as int) =~= aad);
    assert(m.subrange(a as int, (a + ciphertext.len()) as int) =~= ciphertext);
    assert(m.subrange((a + c) as int, (a + c + 8) as int) =~= bytes::le_bytes(aad.len(), 8));
    assert(m.skip((a + c + 8) as int) =~= bytes::le_bytes(ciphertext.len(), 8));
}
} // verus!
