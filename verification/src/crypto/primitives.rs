//! The cryptographic functions of outside crates that the library calls.

use crate::bytes;
use crate::crypto::chacha64;
use aes::Aes128;
use aes_gcm::aead::consts::U16;
use aes_gcm::AesGcm;
use chacha20::ChaCha20Legacy;
use chacha20poly1305::aead::{Aead, KeyInit, Payload};
use chacha20poly1305::{ChaCha20Poly1305, Nonce};
use ctr::cipher::{KeyIvInit, StreamCipher, StreamCipherSeek};
use ctr::Ctr128BE;
use ed25519_dalek::{Signature, Signer, SigningKey, VerifyingKey};
use hkdf::Hkdf;
use poly1305::Poly1305;
use rand::RngCore;
use sha1::Sha1;
use sha2::{Digest, Sha512};
use poly1305::universal_hash::{self, UniversalHash};
use vstd::prelude::*;
use x25519_dalek::{PublicKey, StaticSecret};

verus! {

/// The text of an error, if there is one.
pub open spec fn fault_text(r: Result<(), String>) -> Option<Seq<char>> {
    match r {
        Ok(_) => None,
        Err(e) => Some(e@),
    }
}

/// SHA-512 of a byte string.
pub uninterp spec fn sha512(data: Seq<u8>) -> Seq<u8>;

/// SHA-1 of a byte string.
pub uninterp spec fn sha1(data: Seq<u8>) -> Seq<u8>;

/// The first 32 bytes that HKDF with SHA-512 expands from key material, salt and info.
pub uninterp spec fn hkdf_sha512(ikm: Seq<u8>, salt: Seq<u8>, info: Seq<u8>) -> Seq<u8>;

/// Byte `i` of the AES-128 counter mode keystream, with a 128-bit big-endian counter that
/// starts at `iv`.
pub uninterp spec fn aes_ctr_byte(key: Seq<u8>, iv: Seq<u8>, i: nat) -> u8;

/// Byte `i` of the ChaCha20 keystream with a 12-byte nonce.
pub uninterp spec fn chacha20_byte(key: Seq<u8>, nonce: Seq<u8>, i: nat) -> u8;

/// Poly1305 of a byte string that is padded with zeros to whole blocks of 16.
pub uninterp spec fn poly1305(key: Seq<u8>, data: Seq<u8>) -> Seq<u8>;

/// `data` under the ChaCha20 keystream from byte `pos` on.
pub open spec fn chacha_xor(key: Seq<u8>, nonce: Seq<u8>, pos: nat, data: Seq<u8>) -> Seq<u8> {
    Seq::new(data.len(), |i: int| data[i] ^ chacha20_byte(key, nonce, (pos + i) as nat))
}

/// ChaCha20-Poly1305 with a 12-byte nonce: ciphertext under the keystream from its second block
/// on, followed by the tag under the first 32 keystream bytes.
pub open spec fn chacha_sealed(key: Seq<u8>, nonce: Seq<u8>, msg: Seq<u8>, aad: Seq<u8>) -> Seq<u8> {
    let ciphertext = chacha_xor(key, nonce, 64, msg);
    ciphertext + poly1305(
        chacha_xor(key, nonce, 0, bytes::zeros(32)),
        chacha64::mac_input(aad, ciphertext),
    )
}

/// ChaCha20-Poly1305: the plaintext of what authenticates.
pub uninterp spec fn chacha_opened(key: Seq<u8>, nonce: Seq<u8>, msg: Seq<u8>, aad: Seq<u8>) -> Option<
    Seq<u8>,
>;

/// Whether `opened` is the plaintext of every message that is sealed to `msg`.
pub open spec fn gives_back(
    opened: Option<Seq<u8>>,
    key: Seq<u8>,
    nonce: Seq<u8>,
    msg: Seq<u8>,
    aad: Seq<u8>,
) -> bool {
    forall|plain: Seq<u8>|
        plain.len() <= CHACHA_MAX_LEN && msg == #[trigger] chacha_sealed(key, nonce, plain, aad)
            ==> opened == Some(plain)
}

/// AES-128-GCM with a 16-byte initial vector and no associated data: ciphertext and tag.
pub uninterp spec fn gcm_sealed(key: Seq<u8>, iv: Seq<u8>, msg: Seq<u8>) -> Seq<u8>;

/// AES-128-GCM with a 16-byte initial vector and no associated data: the plaintext of what
/// authenticates.
pub uninterp spec fn gcm_opened(key: Seq<u8>, iv: Seq<u8>, msg: Seq<u8>) -> Option<Seq<u8>>;

/// Whether `opened` is the plaintext of every short message that is sealed to `msg`.
pub open spec fn gcm_gives_back(
    opened: Option<Seq<u8>>,
    key: Seq<u8>,
    iv: Seq<u8>,
    msg: Seq<u8>,
) -> bool {
    forall|plain: Seq<u8>|
        plain.len() <= 65536 && msg == #[trigger] gcm_sealed(key, iv, plain) ==> opened == Some(plain)
}

/// Longest ciphertext that is handed to AES-GCM, below the 2^32 blocks of its counter.
pub const GCM_MAX_LEN: u64 = 68719411200;

/// The Ed25519 public key of a secret key.
pub uninterp spec fn ed25519_public(secret: Seq<u8>) -> Seq<u8>;

/// The Ed25519 signature of a message.
pub uninterp spec fn ed25519_signature(secret: Seq<u8>, msg: Seq<u8>) -> Seq<u8>;

/// Why 32 bytes are no Ed25519 public key, if they are none.
pub uninterp spec fn ed25519_key_fault(key: Seq<u8>) -> Option<Seq<char>>;

/// Why strict Ed25519 verification refuses a signature, if it does.
pub uninterp spec fn ed25519_sign_fault(key: Seq<u8>, msg: Seq<u8>, sig: Seq<u8>) -> Option<
    Seq<char>,
>;

/// The X25519 public key of a secret key.
pub uninterp spec fn x25519_public(secret: Seq<u8>) -> Seq<u8>;

/// The X25519 shared secret of a secret key and a peer's public key.
pub uninterp spec fn x25519_shared(secret: Seq<u8>, peer: Seq<u8>) -> Seq<u8>;

/// Longest message that ChaCha20-Poly1305 seals: the block counter, which starts at one, runs
/// out behind it.
pub const CHACHA_MAX_LEN: u64 = 274877906816;

/// `sha2::Sha512::digest`: a function of the data, 64 bytes long.
#[verifier::external_body]
pub(crate) fn sha512_digest(data: &[u8]) -> (r: Vec<u8>)
    ensures
        r@ == sha512(data@),
        r@.len() == 64,
{
    Sha512::digest(data).to_vec()
}

/// `sha1::Sha1::digest`: a function of the data, 20 bytes long.
#[verifier::external_body]
pub(crate) fn sha1_digest(data: &[u8]) -> (r: Vec<u8>)
    ensures
        r@ == sha1(data@),
        r@.len() == 20,
{
    Sha1::digest(data).to_vec()
}

/// `hkdf::Hkdf::<Sha512>::new` and `expand` into 32 bytes: a function of key material, salt and
/// info.
#[verifier::external_body]
pub(crate) fn hkdf_expand(ikm: &[u8], salt: &[u8], info: &[u8]) -> (r: [u8; 32])
    ensures
        r@ == hkdf_sha512(ikm@, salt@, info@),
{
    let mut out = [0u8; 32];
    let _ = Hkdf::<Sha512>::new(Some(salt), ikm).expand(info, &mut out);
    out
}

/// `ctr::Ctr128BE::<Aes128>`: `new`, `seek` and `apply_keystream`. Byte `i` of the data meets
/// keystream byte `pos + i`. The counter has 128 bits, so no `u64` position exhausts it.
#[verifier::external_body]
pub(crate) fn aes_ctr_apply(key: &[u8; 16], iv: &[u8; 16], pos: u64, data: &[u8]) -> (r: Vec<u8>)
    ensures
        r@ == Seq::new(
            data@.len(),
            |i: int| data@[i] ^ aes_ctr_byte(key@, iv@, (pos + i) as nat),
        ),
{
    let mut cipher = <Ctr128BE<Aes128> as KeyIvInit>::new(key.into(), iv.into());
    let mut out = data.to_vec();
    cipher.seek(pos);
    cipher.apply_keystream(&mut out);
    out
}

/// `chacha20::ChaCha20Legacy`: `new`, `seek` and `apply_keystream`. Byte `i` of the data meets
/// keystream byte `pos + i` of the nonce with four zero bytes in front. The counter has 32 bits
/// and a block 64 bytes.
#[verifier::external_body]
pub(crate) fn chacha20_apply(key: &[u8; 32], nonce: &[u8; 8], pos: u64, data: &[u8]) -> (r: Vec<u8>)
    requires
        pos + data@.len() <= 274877906880,
    ensures
        r@ == Seq::new(
            data@.len(),
            |i: int|
                data@[i] ^ chacha20_byte(key@, bytes::zeros(4) + nonce@, (pos + i) as nat),
        ),
{
    let mut cipher = <ChaCha20Legacy as KeyIvInit>::new(key.into(), nonce.into());
    let mut out = data.to_vec();
    cipher.seek(pos);
    cipher.apply_keystream(&mut out);
    out
}

/// `poly1305::Poly1305`: `new`, `update_padded` and `finalize`. A function of the key and the
/// data, 16 bytes long.
#[verifier::external_body]
pub(crate) fn poly1305_mac(key: &[u8], data: &[u8]) -> (r: Vec<u8>)
    requires
        key@.len() == 32,
    ensures
        r@ == poly1305(key@, data@),
        r@.len() == 16,
{
    let mut mac = <Poly1305 as universal_hash::KeyInit>::new(key.into());
    mac.update_padded(data);
    mac.finalize().to_vec()
}

/// `chacha20poly1305::ChaCha20Poly1305::encrypt`: the message under the ChaCha20 keystream of the
/// nonce and a Poly1305 tag, 16 bytes longer than the message; it is refused for a message of
/// 274877906880 bytes or more, and panics on the lengths left out here.
#[verifier::external_body]
pub(crate) fn chacha_seal(key: &[u8; 32], nonce: &[u8; 12], msg: &[u8], aad: &[u8]) -> (r: Option<
    Vec<u8>,
>)
    requires
        msg@.len() <= CHACHA_MAX_LEN || 274877906880 <= msg@.len() <= isize::MAX - 16,
    ensures
        r is Some <==> msg@.len() <= CHACHA_MAX_LEN,
        r matches Some(v) ==> v@ == chacha_sealed(key@, nonce@, msg@, aad@) && v@.len() == msg@.len()
            + 16,
{
    let cipher = <ChaCha20Poly1305 as KeyInit>::new(key.into());
    cipher.encrypt(Nonce::from_slice(nonce), Payload { msg, aad }).ok()
}

/// `chacha20poly1305::ChaCha20Poly1305::decrypt`: a function of key, nonce, ciphertext and
/// associated data. What `encrypt` made of a message under the same key, nonce and associated
/// data gives back that message.
#[verifier::external_body]
pub(crate) fn chacha_open(key: &[u8; 32], nonce: &[u8; 12], msg: &[u8], aad: &[u8]) -> (r: Option<
    Vec<u8>,
>)
    requires
        msg@.len() <= CHACHA_MAX_LEN + 16 || msg@.len() >= 274877906896,
    ensures
        bytes::view_opt(r) == chacha_opened(key@, nonce@, msg@, aad@),
        gives_back(bytes::view_opt(r), key@, nonce@, msg@, aad@),
{
    let cipher = <ChaCha20Poly1305 as KeyInit>::new(key.into());
    cipher.decrypt(Nonce::from_slice(nonce), Payload { msg, aad }).ok()
}

/// `aes_gcm::AesGcm::<Aes128, U16>::encrypt` with no associated data: a function of key, initial
/// vector and message, 16 bytes longer than the message.
#[verifier::external_body]
pub(crate) fn gcm_seal(key: &[u8; 16], iv: &[u8; 16], msg: &[u8]) -> (r: Option<Vec<u8>>)
    requires
        msg@.len() <= 65536,
    ensures
        bytes::view_opt(r) == Some(gcm_sealed(key@, iv@, msg@)),
        r matches Some(v) ==> v@.len() == msg@.len() + 16,
{
    let cipher = <AesGcm<Aes128, U16> as KeyInit>::new(key.into());
    cipher.encrypt(iv.into(), msg).ok()
}

/// `aes_gcm::AesGcm::<Aes128, U16>::decrypt` with no associated data: a function of key, initial
/// vector and ciphertext. What `encrypt` made of a message under the same key and initial vector
/// gives back that message; a plaintext is 16 bytes shorter than its ciphertext.
#[verifier::external_body]
pub(crate) fn gcm_open(key: &[u8; 16], iv: &[u8; 16], msg: &[u8]) -> (r: Option<Vec<u8>>)
    requires
        msg@.len() <= GCM_MAX_LEN,
    ensures
        bytes::view_opt(r) == gcm_opened(key@, iv@, msg@),
        gcm_gives_back(bytes::view_opt(r), key@, iv@, msg@),
        r matches Some(v) ==> v@.len() + 16 == msg@.len(),
{
    let cipher = <AesGcm<Aes128, U16> as KeyInit>::new(key.into());
    cipher.decrypt(iv.into(), msg).ok()
}

/// `ed25519_dalek::SigningKey::from_bytes` and `verifying_key`: a function of the secret key.
#[verifier::external_body]
pub(crate) fn ed25519_public_of(secret: &[u8; 32]) -> (r: [u8; 32])
    ensures
        r@ == ed25519_public(secret@),
{
    SigningKey::from_bytes(secret).verifying_key().to_bytes()
}

/// `ed25519_dalek::SigningKey::sign`: a function of the secret key and the message.
#[verifier::external_body]
pub(crate) fn ed25519_sign(secret: &[u8; 32], msg: &[u8]) -> (r: [u8; 64])
    ensures
        r@ == ed25519_signature(secret@, msg@),
{
    SigningKey::from_bytes(secret).sign(msg).to_bytes()
}

/// `ed25519_dalek::VerifyingKey::from_bytes`: the error's text, a function of the bytes, where
/// they are no key.
#[verifier::external_body]
pub(crate) fn ed25519_check_key(key: &[u8; 32]) -> (r: Result<(), String>)
    ensures
        fault_text(r) == ed25519_key_fault(key@),
{
    match VerifyingKey::from_bytes(key) {
        Ok(_) => Ok(()),
        Err(e) => Err(e.to_string()),
    }
}

/// `ed25519_dalek::VerifyingKey::verify_strict`, on bytes that are a key: the error's text, a
/// function of key, message and signature, where it refuses.
#[verifier::external_body]
pub(crate) fn ed25519_check_signature(key: &[u8; 32], msg: &[u8], sig: &[u8; 64]) -> (r: Result<
    (),
    String,
>)
    requires
        ed25519_key_fault(key@) is None,
    ensures
        fault_text(r) == ed25519_sign_fault(key@, msg@, sig@),
{
    let known = VerifyingKey::from_bytes(key).map_err(|e| e.to_string())?;
    known.verify_strict(msg, &Signature::from_bytes(sig)).map_err(|e| e.to_string())
}

/// `x25519_dalek::PublicKey::from` of a `StaticSecret`: a function of the secret key.
#[verifier::external_body]
pub(crate) fn x25519_public_of(secret: &[u8; 32]) -> (r: [u8; 32])
    ensures
        r@ == x25519_public(secret@),
{
    PublicKey::from(&StaticSecret::from(*secret)).to_bytes()
}

/// `x25519_dalek::StaticSecret::diffie_hellman`: a function of the secret key and the peer's
/// public key.
#[verifier::external_body]
pub(crate) fn x25519_agree(secret: &[u8; 32], peer: &[u8; 32]) -> (r: [u8; 32])
    ensures
        r@ == x25519_shared(secret@, peer@),
{
    StaticSecret::from(*secret).diffie_hellman(&PublicKey::from(*peer)).to_bytes()
}

/// `rand::RngCore::fill_bytes` on `rand::thread_rng()`: as many bytes as asked for; nothing is
/// known of their values.
#[verifier::external_body]
pub(crate) fn random_bytes(len: usize) -> (r: Vec<u8>)
    requires
        len <= 65536,
    ensures
        r@.len() == len,
{
    let mut out = vec![0u8; len];
    rand::thread_rng().fill_bytes(&mut out);
    out
}

} // verus!
