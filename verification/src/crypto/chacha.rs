//! ChaCha20-Poly1305 for the encrypted transport.

use crate::bytes;
use crate::crypto::primitives;
use crate::error::{self, ErrorView, RottenError};
use vstd::prelude::*;

verus! {

/// The nonce of message number `counter`: four zero bytes and the counter, little-endian.
pub open spec fn nonce_of(counter: nat) -> Seq<u8> {
    bytes::zeros(4) + bytes::le_bytes(counter, 8)
}

/// A cipher that numbers its messages.
pub struct StreamCipher {
    key: [u8; 32],
    counter: u64,
}

/// Messages that can be sealed, or that are refused in good order; in between the block
/// counter would run out half way.
pub open spec fn seal_len_ok(len: nat) -> bool {
    len <= primitives::CHACHA_MAX_LEN || 274877906880 <= len <= isize::MAX - 16
}

/// Ciphertexts that can be opened or are refused in good order.
pub open spec fn open_len_ok(len: nat) -> bool {
    len <= primitives::CHACHA_MAX_LEN + 16 || len >= 274877906896
}

/// What sealing message number `counter` returns.
pub open spec fn seals(
    key: Seq<u8>,
    counter: nat,
    plaintext: Seq<u8>,
    aad: Seq<u8>,
    r: Result<Vec<u8>, RottenError>,
) -> bool {
    match r {
        Ok(v) => plaintext.len() <= primitives::CHACHA_MAX_LEN && v@ == primitives::chacha_sealed(
            key,
            nonce_of(counter),
            plaintext,
            aad,
        ) && v@.len() == plaintext.len() + 16,
        Err(e) => plaintext.len() > primitives::CHACHA_MAX_LEN && e@ == ErrorView::Crypto(
            "encrypt: aead::Error"@,
        ),
    }
}

impl StreamCipher {
    pub closed spec fn key(&self) -> Seq<u8> {
        self.key@
    }

    /// Number of the next message.
    pub closed spec fn counter(&self) -> nat {
        self.counter as nat
    }

    pub fn new(key: &[u8; 32]) -> (r: Self)
        ensures
            r.key() == key@,
            r.counter() == 0,
    {
        StreamCipher { key: *key, counter: 0 }
    }

    /// Whether another message number is left.
    pub fn has_room(&self) -> (r: bool)
        ensures
            r == (self.counter() < u64::MAX),
    {
        self.counter < 0xffff_ffff_ffff_ffff
    }

    fn next_nonce(&mut self) -> (r: [u8; 12])
        requires
            old(self).counter() < u64::MAX,
        ensures
            r@ == nonce_of(old(self).counter()),
            final(self).counter() == old(self).counter() + 1,
            final(self).key() == old(self).key(),
    {
        let c = bytes::u64_le(self.counter);
        let nonce: [u8; 12] = [0u8, 0, 0, 0, c[0], c[1], c[2], c[3], c[4], c[5], c[6], c[7]];
        proof {
            bytes::lemma_le_bytes_len(self.counter as nat, 8);
            assert(nonce@ =~= nonce_of(self.counter as nat));
        }
        self.counter += 1;
        nonce
    }

    fn encrypt_with_nonce(&self, plaintext: &[u8], aad: &[u8], nonce: &[u8; 12]) -> (r: Result<
        Vec<u8>,
        RottenError,
    >)
        requires
            seal_len_ok(plaintext@.len()),
        ensures
            match r {
                Ok(v) => plaintext@.len() <= primitives::CHACHA_MAX_LEN && v@
                    == primitives::chacha_sealed(self.key(), nonce@, plaintext@, aad@) && v@.len()
                    == plaintext@.len() + 16,
                Err(e) => plaintext@.len() > primitives::CHACHA_MAX_LEN && e@ == ErrorView::Crypto(
                    "encrypt: aead::Error"@,
                ),
            },
    {
        match primitives::chacha_seal(&self.key, nonce, plaintext, aad) {
            Some(v) => Ok(v),
            None => Err(error::crypto_error("encrypt: aead::Error")),
        }
    }

    /// Encrypts the next message; it fails only where the message is too long for one nonce.
    pub fn encrypt(&mut self, plaintext: &[u8], aad: &[u8]) -> (r: Result<Vec<u8>, RottenError>)
        requires
            old(self).counter() < u64::MAX,
            seal_len_ok(plaintext@.len()),
        ensures
            seals(old(self).key(), old(self).counter(), plaintext@, aad@, r),
            final(self).key() == old(self).key(),
            final(self).counter() == old(self).counter() + 1,
    {
        let nonce = self.next_nonce();
        self.encrypt_with_nonce(plaintext, aad, &nonce)
    }

    /// Encrypts picture data with the packet header as associated data.
    pub fn encrypt_mirror_vcl(&mut self, plaintext: &[u8], header: &[u8; 128]) -> (r: Result<
        Vec<u8>,
        RottenError,
    >)
        requires
            old(self).counter() < u64::MAX,
            seal_len_ok(plaintext@.len()),
        ensures
            seals(old(self).key(), old(self).counter(), plaintext@, header@, r),
            final(self).key() == old(self).key(),
            final(self).counter() == old(self).counter() + 1,
    {
        let nonce = self.next_nonce();
        self.encrypt_with_nonce(plaintext, header, &nonce)
    }

    /// Decrypts the next message. What was encrypted as the message of the same number, under
    /// the same key and with the same associated data, comes back as it was.
    pub fn decrypt(&mut self, ciphertext: &[u8], aad: &[u8]) -> (r: Result<Vec<u8>, RottenError>)
        requires
            old(self).counter() < u64::MAX,
            open_len_ok(ciphertext@.len()),
        ensures
            match r {
                Ok(v) => primitives::chacha_opened(
                    old(self).key(),
                    nonce_of(old(self).counter()),
                    ciphertext@,
                    aad@,
                ) == Some(v@),
                Err(e) => primitives::chacha_opened(
                    old(self).key(),
                    nonce_of(old(self).counter()),
                    ciphertext@,
                    aad@,
                ) is None && e@ == ErrorView::Crypto("decrypt: aead::Error"@),
            },
            forall|plain: Seq<u8>|
                plain.len() <= primitives::CHACHA_MAX_LEN && ciphertext@
                    == #[trigger] primitives::chacha_sealed(
                    old(self).key(),
                    nonce_of(old(self).counter()),
                    plain,
                    aad@,
                ) ==> (r matches Ok(v) && v@ == plain),
            final(self).key() == old(self).key(),
            final(self).counter() == old(self).counter() + 1,
    {
        let nonce = self.next_nonce();
        match primitives::chacha_open(&self.key, &nonce, ciphertext, aad) {
            Some(v) => Ok(v),
            None => Err(error::crypto_error("decrypt: aead::Error")),
        }
    }
}

/// No two messages of a cipher have the same nonce, and each nonce is four zero bytes and the
/// number of its message, least significant byte first.
pub proof fn law_nonces_are_told_apart(a: nat, b: nat)
    requires
        a < 0x1_0000_0000_0000_0000,
        b < 0x1_0000_0000_0000_0000,
        a != b,
    ensures
        nonce_of(a) != nonce_of(b),
        nonce_of(a).len() == 12,
        forall|i: int| 0 <= i < 4 ==> #[trigger] nonce_of(a)[i] == 0,
        forall|i: int|
            4 <= i < 12 ==> #[trigger] nonce_of(a)[i] == a / (vstd::arithmetic::power::pow(
                256,
                (i - 4) as nat,
            ) as nat) % 256,
{
    bytes::law_le_digits(a, 8);
    bytes::law_le_digits(b, 8);
    let (x, y) = (bytes::le_bytes(a, 8), bytes::le_bytes(b, 8));
    assert forall|i: int| 4 <= i < 12 implies #[trigger] nonce_of(a)[i] == a / (
    vstd::arithmetic::power::pow(256, (i - 4) as nat) as nat) % 256 by {
        assert(nonce_of(a)[i] == x[i - 4]);
    }
    if nonce_of(a) == nonce_of(b) {
        assert(nonce_of(a).skip(4) =~= x);
        assert(nonce_of(b).skip(4) =~= y);
        assert(vstd::arithmetic::power::pow(256, 8) == 0x1_0000_0000_0000_0000) by {
            reveal_with_fuel(vstd::arithmetic::power::pow, 9);
        }
        lemma_le_bytes_injective(a, b, 8);
    }
}

proof fn lemma_le_bytes_injective(a: nat, b: nat, n: nat)
    requires
        a < vstd::arithmetic::power::pow(256, n),
        b < vstd::arithmetic::power::pow(256, n),
        bytes::le_bytes(a, n) == bytes::le_bytes(b, n),
    ensures
        a == b,
    decreases n,
{
    if n == 0 {
        vstd::arithmetic::power::lemma_pow0(256);
    } else {
        let m = (n - 1) as nat;
        assert(vstd::arithmetic::power::pow(256, n) == 256 * vstd::arithmetic::power::pow(256, m))
            by {
            reveal(vstd::arithmetic::power::pow);
        }
        let (x, y) = (bytes::le_bytes(a, n), bytes::le_bytes(b, n));
        assert(x[0] == (a % 256) as u8 && y[0] == (b % 256) as u8);
        assert(x.skip(1) =~= bytes::le_bytes(a / 256, m));
        assert(y.skip(1) =~= bytes::le_bytes(b / 256, m));
        lemma_le_bytes_injective(a / 256, b / 256, m);
    }
}
/// A message of up to 256 GiB less 64 bytes is sealed, under the key and the number of the message,
/// with the extra data; a longer one is not.
pub proof fn law_messages_are_sealed(
    key: Seq<u8>,
    counter: nat,
    plaintext: Seq<u8>,
    aad: Seq<u8>,
    r: Result<Vec<u8>, RottenError>,
)
    requires
        seals(key, counter, plaintext, aad, r),
    ensures
        r is Ok <==> plaintext.len() <= 274877906816,
        r matches Ok(v) ==> v@ == primitives::chacha_sealed(
            key,
            bytes::zeros(4) + bytes::le_bytes(counter, 8),
            plaintext,
            aad,
        ),
        r matches Ok(v) ==> v@.len() == plaintext.len() + 16,
        forall|len: nat| len <= 274877906816 ==> #[trigger] seal_len_ok(len),
        forall|len: nat| len <= 274877906832 ==> #[trigger] open_len_ok(len),
{
}
} // verus!
