//! How picture data is encrypted on the mirror data channel.

use crate::config::MirrorCipherMode;
use crate::crypto::hkdf_keys;
use crate::crypto::mirror_aes;
use vstd::prelude::*;

verus! {

/// Encryption of picture data, with its keys.
#[derive(Debug, Clone)]
#[allow(inconsistent_fields)]
pub enum MirrorVideoCrypto {
    /// No encryption.
    Plain,
    /// AES-128-CTR; the ciphertext is as long as the payload.
    AesCtr { key: [u8; 16], iv: [u8; 16] },
    /// ChaCha20-Poly1305 with the packet header as associated data.
    ChaCha { key: [u8; 32] },
}

impl MirrorVideoCrypto {
    /// The keys are those of AES-128-CTR for a shared key and a stream.
    pub open spec fn is_legacy_aes(&self, shk: Seq<u8>, id: int) -> bool {
        self matches MirrorVideoCrypto::AesCtr { key, iv } && key@ == mirror_aes::stream_secret(
            "AirPlayStreamKey"@,
            shk,
            id,
        ) && iv@ == mirror_aes::stream_secret("AirPlayStreamIV"@, shk, id)
    }

    /// The key is that of ChaCha20-Poly1305 for a shared secret and a stream.
    pub open spec fn is_hap_chacha(&self, shared_secret: Seq<u8>, id: int) -> bool {
        self matches MirrorVideoCrypto::ChaCha { key } && key@ == hkdf_keys::data_stream_key(
            shared_secret,
            id,
        )
    }

    /// The encryption that the session was set up for.
    pub fn from_setup(
        mode: MirrorCipherMode,
        no_encrypt: bool,
        shk: &[u8; 16],
        shared_secret: &[u8; 32],
        stream_connection_id: i64,
    ) -> (r: Self)
        ensures
            no_encrypt ==> r is Plain,
            !no_encrypt && mode == MirrorCipherMode::AesCtr ==> r.is_legacy_aes(
                shk@,
                stream_connection_id as int,
            ),
            !no_encrypt && mode == MirrorCipherMode::ChaCha ==> r.is_hap_chacha(
                shared_secret@,
                stream_connection_id as int,
            ),
    {
        if no_encrypt {
            return MirrorVideoCrypto::Plain;
        }
        match mode {
            MirrorCipherMode::AesCtr => MirrorVideoCrypto::legacy_aes_from_shk(
                shk,
                stream_connection_id,
            ),
            MirrorCipherMode::ChaCha => MirrorVideoCrypto::hap_chacha(
                shared_secret,
                stream_connection_id,
            ),
        }
    }

    /// AES-128-CTR with keys from the shared key.
    pub fn legacy_aes_from_shk(shk: &[u8; 16], stream_connection_id: i64) -> (r: Self)
        ensures
            r.is_legacy_aes(shk@, stream_connection_id as int),
    {
        let (key, iv) = mirror_aes::derive_mirror_video_keys(shk, stream_connection_id);
        MirrorVideoCrypto::AesCtr { key, iv }
    }

    /// ChaCha20-Poly1305 with a key from the shared secret.
    pub fn hap_chacha(shared_secret: &[u8], stream_connection_id: i64) -> (r: Self)
        ensures
            r.is_hap_chacha(shared_secret@, stream_connection_id as int),
    {
        MirrorVideoCrypto::ChaCha {
            key: hkdf_keys::derive_data_stream_chacha_key(shared_secret, stream_connection_id),
        }
    }

    /// A name for logs.
    pub fn mode_name(&self) -> (r: &'static str)
        ensures
            r@ == (match self {
                MirrorVideoCrypto::Plain => "none"@,
                MirrorVideoCrypto::AesCtr { .. } => "aes-ctr"@,
                MirrorVideoCrypto::ChaCha { .. } => "chacha"@,
            }),
    {
        match self {
            MirrorVideoCrypto::Plain => "none",
            MirrorVideoCrypto::AesCtr { .. } => "aes-ctr",
            MirrorVideoCrypto::ChaCha { .. } => "chacha",
        }
    }
}

} // verus!
