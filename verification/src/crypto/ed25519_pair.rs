//! Ed25519 key pairs.

use crate::crypto::primitives;
use ed25519_dalek::SigningKey;
use rand::rngs::OsRng;
use vstd::prelude::*;

verus! {

/// Key pair for pair-verify.
pub struct Ed25519KeyPair {
    pub public_key: [u8; 32],
    pub private_key: [u8; 32],
}

/// `ed25519_dalek::SigningKey::generate` with the operating system's generator: a secret key of
/// which nothing is known.
#[verifier::external_body]
fn generate_secret() -> (r: [u8; 32]) {
    SigningKey::generate(&mut OsRng).to_bytes()
}

/// A fresh key pair.
pub fn generate_ed25519_keypair() -> (r: Ed25519KeyPair)
    ensures
        r.public_key@ == primitives::ed25519_public(r.private_key@),
{
    let private_key = generate_secret();
    let public_key = primitives::ed25519_public_of(&private_key);
    Ed25519KeyPair { public_key, private_key }
}

} // verus!
