//! FairPlay set-up: the two requests, and the keys that wrap the stream key.

use crate::bytes;
use crate::codec;
use crate::crypto::primitives;
use crate::error::{self, ErrorView, RottenError};
use crate::text;
use vstd::prelude::*;
use vstd::string::*;

verus! {

/// A completed FairPlay handshake.
#[derive(Debug, Clone)]
pub struct FairPlaySession {
    pub key_message: [u8; 164],
    pub mode: u8,
}

/// FairPlay keys for setting up the mirror stream.
#[derive(Debug, Clone)]
pub struct MirrorFpKeys {
    pub ekey: [u8; 72],
    pub fp_key: [u8; 16],
    pub fp_iv: [u8; 16],
    pub fp_aes_key: [u8; 16],
}

/// The first request.
pub const FP_SETUP1: [u8; 16] = [
    0x46u8, 0x50, 0x4c, 0x59, 0x03, 0x01, 0x01, 0x00, 0x00, 0x00, 0x00, 0x04, 0x02, 0x00, 0x03,
    0xbb,
];

/// Key message of mode 0.
pub const KEY_MESSAGE_0: [u8; 164] = [
    0x46u8, 0x50, 0x4c, 0x59, 0x03, 0x01, 0x03, 0x00, 0x00, 0x00, 0x00, 0x98,
    0x00, 0x8f, 0x1a, 0x9c, 0xa5, 0x48, 0xfd, 0xd5, 0x75, 0x60, 0xa5, 0x29,
    0x26, 0xff, 0x39, 0x9f, 0x2e, 0xb1, 0x54, 0xd0, 0xa7, 0xa0, 0xff, 0xfc,
    0x99, 0x7f, 0x58, 0xe2, 0x7e, 0x00, 0x49, 0x9e, 0xb9, 0xf3, 0x10, 0x11,
    0x0d, 0x01, 0x9e, 0x55, 0x0e, 0x32, 0x80, 0x47, 0xae, 0xa5, 0x43, 0x08,
    0xab, 0x71, 0xb6, 0x47, 0x04, 0x14, 0x06, 0x87, 0x8a, 0xf9, 0x6e, 0x06,
    0xcf, 0x74, 0x12, 0x7a, 0xe3, 0x59, 0x41, 0xdc, 0xeb, 0x58, 0x93, 0x1b,
    0x55, 0x43, 0xb3, 0x99, 0x03, 0xf9, 0xf7, 0x6a, 0x37, 0x62, 0x48, 0xee,
    0x52, 0xe3, 0x65, 0x6b, 0x56, 0x1e, 0x1c, 0x1a, 0x01, 0x06, 0xec, 0x66,
    0x08, 0xdf, 0x0a, 0xb4, 0xf2, 0xdf, 0x52, 0x8e, 0x65, 0xdb, 0x6d, 0x62,
    0x2d, 0x38, 0x92, 0xd5, 0xb4, 0x9c, 0x6c, 0x02, 0x56, 0x06, 0xa5, 0x74,
    0xf1, 0x9e, 0xbe, 0xa7, 0xd9, 0x35, 0x00, 0xbd, 0xd6, 0x9d, 0xb2, 0x33,
    0x33, 0xf2, 0x2e, 0xdc, 0xb3, 0xcc, 0xf7, 0xa6, 0xac, 0xde, 0x73, 0x89,
    0xf2, 0xfa, 0xca, 0xbf, 0xa6, 0x1b, 0x0b, 0x50,
];

/// Key message of mode 1.
pub const KEY_MESSAGE_1: [u8; 164] = [
    0x46u8, 0x50, 0x4c, 0x59, 0x03, 0x01, 0x03, 0x00, 0x00, 0x00, 0x00, 0x98,
    0x01, 0x8f, 0x1a, 0x9c, 0x14, 0x4a, 0x77, 0xfb, 0x15, 0x38, 0x3f, 0x69,
    0xcf, 0x6b, 0xa6, 0xae, 0x35, 0x04, 0x58, 0x2d, 0x48, 0x9a, 0x12, 0x1c,
    0x64, 0x4d, 0xac, 0x40, 0xbf, 0xb3, 0x82, 0x38, 0x8d, 0x75, 0x8b, 0x29,
    0x48, 0x41, 0xcb, 0xe5, 0x1b, 0xb4, 0xfe, 0xea, 0x98, 0x3f, 0x91, 0x57,
    0xa1, 0xfb, 0x2e, 0x57, 0x76, 0x5d, 0x1b, 0xfc, 0x72, 0x62, 0x05, 0x3c,
    0xa6, 0xf7, 0x5c, 0x90, 0xc8, 0x27, 0x94, 0xa4, 0x3b, 0x8d, 0x84, 0x46,
    0x37, 0xaa, 0x01, 0x8c, 0x28, 0x61, 0x9a, 0x43, 0xda, 0x67, 0x27, 0xc7,
    0xfa, 0xf8, 0x1b, 0x91, 0x1a, 0x92, 0xf3, 0x17, 0xd6, 0xac, 0x7a, 0x3e,
    0x1a, 0x7b, 0x92, 0x3f, 0xe6, 0x93, 0xcf, 0xfb, 0x37, 0x31, 0x71, 0x59,
    0xbe, 0x89, 0x04, 0x55, 0x68, 0x62, 0xd8, 0x1e, 0xd4, 0xf7, 0x94, 0x95,
    0x7d, 0xc3, 0x30, 0xb7, 0xe6, 0x81, 0xe5, 0xa0, 0x06, 0x7f, 0x59, 0x6a,
    0x0f, 0x3f, 0x93, 0x6d, 0xd7, 0x61, 0xf5, 0xaf, 0xa2, 0xd6, 0x9a, 0xb7,
    0x79, 0x38, 0x32, 0x8b, 0xb1, 0xfc, 0xd9, 0x2e,
];

/// Key message of mode 2.
pub const KEY_MESSAGE_2: [u8; 164] = [
    0x46u8, 0x50, 0x4c, 0x59, 0x03, 0x01, 0x03, 0x00, 0x00, 0x00, 0x00, 0x98,
    0x02, 0x8f, 0x1a, 0x9c, 0x04, 0x9a, 0xe0, 0x4d, 0x16, 0x91, 0x80, 0x28,
    0x02, 0xc7, 0x5b, 0x3c, 0xed, 0x92, 0x04, 0xac, 0xbe, 0xb5, 0x48, 0x2b,
    0x58, 0x2f, 0x4f, 0xaf, 0x3c, 0x00, 0x8d, 0x7d, 0xd3, 0x67, 0x5a, 0x37,
    0x96, 0x7e, 0x3b, 0xee, 0x30, 0x79, 0xbe, 0xc9, 0x5b, 0x8b, 0xfe, 0xea,
    0x69, 0xaa, 0xec, 0x82, 0x33, 0xc7, 0xab, 0x3b, 0x7d, 0xf2, 0x83, 0xe8,
    0xf9, 0xa5, 0x0b, 0x8e, 0xcd, 0xcc, 0x53, 0xe3, 0xee, 0x2e, 0x5e, 0xe1,
    0xd7, 0x84, 0x21, 0x37, 0x8f, 0xdf, 0x8c, 0xfa, 0x1e, 0x1c, 0x04, 0x99,
    0x5d, 0x3c, 0x6f, 0x14, 0xb4, 0x7e, 0x94, 0x87, 0xf3, 0x45, 0x8c, 0xc6,
    0xe4, 0x72, 0x7f, 0xe1, 0xe3, 0xad, 0x2b, 0x1d, 0xb6, 0x0a, 0xfd, 0xb5,
    0x90, 0xc1, 0x4d, 0xa5, 0x01, 0x14, 0x04, 0xab, 0x09, 0x72, 0xc1, 0x5a,
    0xb1, 0x4a, 0xd6, 0xa7, 0x1e, 0xbd, 0x8c, 0xab, 0x10, 0x09, 0x8b, 0xc1,
    0xb1, 0x82, 0x2b, 0x14, 0xdd, 0x3e, 0x49, 0x6f, 0xe1, 0x3b, 0xfc, 0xca,
    0x8f, 0xd3, 0x99, 0xee, 0xe5, 0x25, 0x81, 0xd4,
];

/// Key message of mode 3.
pub const KEY_MESSAGE_3: [u8; 164] = [
    0x46u8, 0x50, 0x4c, 0x59, 0x03, 0x01, 0x03, 0x00, 0x00, 0x00, 0x00, 0x98,
    0x03, 0x8f, 0x1a, 0x9c, 0x63, 0xb1, 0x26, 0xa2, 0x32, 0x51, 0x58, 0xff,
    0x9b, 0xa6, 0xe5, 0xd9, 0x99, 0x6b, 0x33, 0xcf, 0x4f, 0xda, 0x80, 0xc7,
    0xbb, 0x34, 0x92, 0xee, 0x15, 0x79, 0x0f, 0xa5, 0x7b, 0x5c, 0xdf, 0x01,
    0x29, 0xfc, 0x3d, 0x29, 0xa2, 0xf6, 0xfb, 0x66, 0xef, 0x44, 0x94, 0xac,
    0xa1, 0x48, 0xdd, 0xff, 0x2b, 0x72, 0x6d, 0xf6, 0x9d, 0xe4, 0x1c, 0xaf,
    0x72, 0x92, 0xa3, 0xa9, 0x60, 0x67, 0x36, 0x99, 0x43, 0x0d, 0xf2, 0xeb,
    0x57, 0x42, 0xab, 0x52, 0xe6, 0x1d, 0x5e, 0xf5, 0x76, 0xff, 0xbf, 0xb9,
    0x60, 0x68, 0x6c, 0x14, 0x97, 0x6d, 0xce, 0x6c, 0x66, 0xb0, 0x7b, 0x49,
    0x1b, 0x94, 0xa4, 0x1b, 0x44, 0x51, 0x52, 0xa4, 0x44, 0x92, 0x21, 0xfc,
    0x70, 0x46, 0x45, 0xfe, 0x1d, 0x5a, 0xf6, 0x0f, 0x44, 0x6c, 0x3d, 0xbf,
    0x10, 0x30, 0x58, 0x0e, 0xb2, 0xc0, 0x00, 0x2e, 0x38, 0x70, 0x53, 0xfc,
    0x97, 0x83, 0xd0, 0x4d, 0xfb, 0xa8, 0x61, 0xda, 0x3f, 0x14, 0x44, 0x66,
    0x47, 0x37, 0xbc, 0xc2, 0xd8, 0x2f, 0x4a, 0x5c,
];

/// The first 144 bytes of the second request.
pub const M3_PREFIX: [u8; 144] = [
    0x46u8, 0x50, 0x4c, 0x59, 0x03, 0x01, 0x03, 0x00, 0x00, 0x00, 0x00, 0x98,
    0x03, 0x8f, 0x1a, 0x9c, 0x99, 0x1e, 0xa2, 0x2c, 0x51, 0x1e, 0x45, 0xba,
    0x97, 0xf1, 0xaf, 0x8d, 0xfb, 0x0f, 0x86, 0xf5, 0x50, 0xc5, 0x44, 0x86,
    0xfe, 0x6b, 0x3a, 0xb2, 0x33, 0xda, 0x43, 0x1e, 0xf8, 0xe5, 0xfc, 0x11,
    0x56, 0xdb, 0xa3, 0x21, 0xff, 0xfe, 0xab, 0xb1, 0xb3, 0x92, 0xb0, 0x9d,
    0x22, 0x7e, 0x88, 0xc7, 0x12, 0x20, 0x28, 0x66, 0xeb, 0x7b, 0xbf, 0x31,
    0x00, 0x15, 0xaa, 0x1d, 0x19, 0xa5, 0xdf, 0x36, 0xd5, 0xdf, 0xd8, 0xd3,
    0xca, 0x16, 0x39, 0xb3, 0x76, 0xea, 0xec, 0xe9, 0x46, 0xed, 0xfe, 0x8b,
    0x7a, 0x66, 0xcd, 0x30, 0x2d, 0x04, 0xaa, 0xc3, 0xc1, 0x25, 0x17, 0x14,
    0x01, 0x9b, 0xd5, 0xf2, 0xd4, 0x9b, 0x54, 0x3e, 0x11, 0xee, 0xd1, 0x64,
    0x62, 0x91, 0xec, 0x8e, 0xfd, 0x96, 0xb6, 0x91, 0x01, 0xb8, 0x49, 0xfd,
    0x93, 0xa0, 0x28, 0x60, 0xd1, 0xa0, 0xdf, 0xf5, 0xcd, 0x44, 0x14, 0xaa,
];

/// The key message of a mode; modes above three count as three.
pub open spec fn key_message_of(mode: u8) -> [u8; 164] {
    if mode == 0 {
        KEY_MESSAGE_0
    } else if mode == 1 {
        KEY_MESSAGE_1
    } else if mode == 2 {
        KEY_MESSAGE_2
    } else {
        KEY_MESSAGE_3
    }
}

/// What is wrong with a first response, before its hash is asked for.
pub open spec fn setup1_fault(setup1: Seq<u8>) -> Option<ErrorView> {
    if setup1.len() != 142 {
        Some(
            ErrorView::Crypto(
                "fp-setup step1 response must be 142 bytes, got "@ + text::decimal(setup1.len()),
            ),
        )
    } else {
        None
    }
}

/// What the hash helper is given on its standard input: the first response in hexadecimal.
pub fn fpsap_input(setup1: &[u8]) -> (r: Result<String, RottenError>)
    ensures
        match r {
            Ok(s) => setup1_fault(setup1@) is None && s@ == codec::hex_text(setup1@),
            Err(e) => setup1_fault(setup1@) == Some(e@),
        },
{
    if setup1.len() != 142 {
        return Err(
            RottenError::Crypto(
                text::numbered(
                    "fp-setup step1 response must be 142 bytes, got ",
                    setup1.len() as u64,
                ),
            ),
        );
    }
    Ok(codec::hex_encode(setup1))
}

/// The error for a hash helper that did not succeed.
pub fn fpsap_failure(status: &str, stderr: &[u8]) -> (r: RottenError)
    ensures
        r@ == ErrorView::Crypto(
            "fpsap-helper failed ("@ + status@ + "): "@ + codec::trimmed(codec::lossy_text(stderr@)),
        ),
{
    let mut msg = text::owned("fpsap-helper failed (");
    msg.append(status);
    msg.append("): ");
    let detail = codec::trim(codec::text_lossy(stderr).as_str());
    msg.append(detail.as_str());
    RottenError::Crypto(msg)
}

/// The hexadecimal text in the output of the hash helper.
pub open spec fn hash_text(stdout: Seq<u8>) -> Seq<char> {
    text::ascii_lower(codec::trimmed(codec::lossy_text(stdout)))
}

/// What is wrong with the output of the hash helper.
pub open spec fn hash_fault(stdout: Seq<u8>) -> Option<ErrorView> {
    let s = hash_text(stdout);
    if !codec::is_hex(s) {
        Some(ErrorView::Crypto("fpsap-helper output: "@ + codec::hex_fault(s)))
    } else if codec::hex_data(s).len() != 20 {
        Some(
            ErrorView::Crypto(
                "fpsap-helper returned "@ + text::decimal(codec::hex_data(s).len())
                    + " bytes, expected 20"@,
            ),
        )
    } else {
        None
    }
}

/// The hash in the output of the hash helper: twenty bytes in hexadecimal.
pub fn fpsap_hash_from_output(stdout: &[u8]) -> (r: Result<[u8; 20], RottenError>)
    ensures
        match r {
            Ok(h) => hash_fault(stdout@) is None && h@ == codec::hex_data(hash_text(stdout@)),
            Err(e) => hash_fault(stdout@) == Some(e@),
        },
{
    let shown = codec::trim(codec::text_lossy(stdout).as_str());
    let lower = text::lowered(shown.as_str());
    match codec::hex_decode(lower.as_str()) {
        Err(e) => Err(
            RottenError::Crypto(error::labelled("fpsap-helper output: ", e.as_str())),
        ),
        Ok(b) => {
            if b.len() != 20 {
                let mut msg = text::numbered("fpsap-helper returned ", b.len() as u64);
                msg.append(" bytes, expected 20");
                return Err(RottenError::Crypto(msg));
            }
            assert(b@.take(20) =~= b@);
            Ok(bytes::array20(&b))
        },
    }
}

/// The second request: a fixed part and the hash.
pub open spec fn key_message_with(hash: Seq<u8>) -> Seq<u8> {
    M3_PREFIX@ + hash
}

impl FairPlaySession {
    /// The first request.
    pub fn fp_setup1_request() -> (r: [u8; 16])
        ensures
            r == FP_SETUP1,
    {
        FP_SETUP1
    }

    /// The mode in the first request.
    pub fn fp_setup_mode() -> (r: u8)
        ensures
            r == 3,
            r == FP_SETUP1@[14],
    {
        let m: u8 = FP_SETUP1[14];
        if m < 3 {
            m
        } else {
            3
        }
    }

    /// The key message of a mode; there is one for every mode.
    pub fn key_message_for_mode(mode: u8) -> (r: Result<[u8; 164], RottenError>)
        ensures
            r matches Ok(m) && m == key_message_of(mode),
    {
        if mode == 0 {
            Ok(KEY_MESSAGE_0)
        } else if mode == 1 {
            Ok(KEY_MESSAGE_1)
        } else if mode == 2 {
            Ok(KEY_MESSAGE_2)
        } else {
            Ok(KEY_MESSAGE_3)
        }
    }

    /// The second request, from the first response and the output of the hash helper for it.
    pub fn key_message_from_setup1(setup1: &[u8], helper_output: &[u8]) -> (r: Result<
        [u8; 164],
        RottenError,
    >)
        ensures
            match r {
                Ok(m) => {
                    &&& setup1_fault(setup1@) is None
                    &&& hash_fault(helper_output@) is None
                    &&& m@ == key_message_with(codec::hex_data(hash_text(helper_output@)))
                },
                Err(e) => if setup1_fault(setup1@) is Some {
                    setup1_fault(setup1@) == Some(e@)
                } else {
                    hash_fault(helper_output@) == Some(e@)
                },
            },
    {
        match fpsap_input(setup1) {
            Err(e) => return Err(e),
            Ok(_) => {},
        }
        match fpsap_hash_from_output(helper_output) {
            Err(e) => Err(e),
            Ok(hash) => {
                let msg = bytes::concat(&M3_PREFIX, &hash);
                assert(msg@.take(164) =~= msg@);
                Ok(bytes::array164(&msg))
            },
        }
    }

    /// The fixed part of the second request.
    pub fn m3_prefix() -> (r: [u8; 144])
        ensures
            r == M3_PREFIX,
    {
        M3_PREFIX
    }

    /// A session with the key message of a mode.
    pub fn from_mode(mode: u8) -> (r: Result<Self, RottenError>)
        ensures
            r matches Ok(s) && s.key_message == key_message_of(mode) && s.mode == mode,
    {
        match FairPlaySession::key_message_for_mode(mode) {
            Ok(key_message) => Ok(FairPlaySession { key_message, mode }),
            Err(e) => Err(e),
        }
    }

    /// A session with a given key message.
    pub fn from_key_message(key_message: [u8; 164], mode: u8) -> (r: Self)
        ensures
            r == (FairPlaySession { key_message, mode }),
    {
        FairPlaySession { key_message, mode }
    }

    /// The wrapped stream key, given what wrapping it returned.
    pub fn encrypt_aes_key(&self, wrapped: Option<[u8; 72]>) -> (r: Result<[u8; 72], RottenError>)
        ensures
            match r {
                Ok(k) => wrapped == Some(k),
                Err(e) => wrapped is None && e@ == ErrorView::Crypto(
                    "fairplay AES key encrypt failed"@,
                ),
            },
    {
        match wrapped {
            Some(k) => Ok(k),
            None => Err(error::crypto_error("fairplay AES key encrypt failed")),
        }
    }

    /// A fresh key and a fresh initial vector.
    pub fn random_aes_key_iv() -> (r: ([u8; 16], [u8; 16])) {
        let key = primitives::random_bytes(16);
        let iv = primitives::random_bytes(16);
        (bytes::array16(&key), bytes::array16(&iv))
    }

    /// The keys for setting up the mirror stream, given the blob, what unwrapping it returned,
    /// and an initial vector.
    pub fn mirror_fp_keys(
        ekey: &[u8; 72],
        unwrapped: Option<[u8; 16]>,
        shared_secret: &[u8; 32],
        fp_iv: &[u8; 16],
    ) -> (r: Result<MirrorFpKeys, RottenError>)
        ensures
            match r {
                Ok(k) => {
                    &&& unwrapped == Some(k.fp_aes_key)
                    &&& k.ekey == *ekey
                    &&& k.fp_iv == *fp_iv
                    &&& k.fp_key@ == fp_key_hash(k.fp_aes_key@, shared_secret@)
                },
                Err(e) => unwrapped is None && e@ == ErrorView::Crypto(
                    "fairplay AES key decrypt failed"@,
                ),
            },
    {
        match unwrapped {
            None => Err(error::crypto_error("fairplay AES key decrypt failed")),
            Some(fp_aes_key) => {
                let fp_key = hash_fp_key(&fp_aes_key, shared_secret);
                Ok(MirrorFpKeys { ekey: *ekey, fp_key, fp_iv: *fp_iv, fp_aes_key })
            },
        }
    }

    /// The keys for setting up the mirror stream, with a fresh initial vector.
    pub fn derive_mirror_fp_keys(
        &self,
        ekey: &[u8; 72],
        unwrapped: Option<[u8; 16]>,
        shared_secret: &[u8; 32],
    ) -> (r: Result<MirrorFpKeys, RottenError>)
        ensures
            match r {
                Ok(k) => {
                    &&& unwrapped == Some(k.fp_aes_key)
                    &&& k.ekey == *ekey
                    &&& k.fp_key@ == fp_key_hash(k.fp_aes_key@, shared_secret@)
                },
                Err(e) => unwrapped is None && e@ == ErrorView::Crypto(
                    "fairplay AES key decrypt failed"@,
                ),
            },
    {
        let fp_iv = bytes::array16(&primitives::random_bytes(16));
        FairPlaySession::mirror_fp_keys(ekey, unwrapped, shared_secret, &fp_iv)
    }
}

/// A wrapped key: a header and two chunks.
pub open spec fn ekey_of(first: Seq<u8>, second: Seq<u8>) -> Seq<u8> {
    seq![0x46u8, 0x50, 0x4c, 0x59, 1, 2, 1, 0, 0, 0, 0, 0x3c, 0, 0, 0, 0] + first + bytes::zeros(24)
        + second
}

/// A wrapped key with two given chunks.
pub fn ekey_with(first: &[u8; 16], second: &[u8; 16]) -> (r: [u8; 72])
    ensures
        r@ == ekey_of(first@, second@),
{
    let head: [u8; 16] = [0x46u8, 0x50, 0x4c, 0x59, 1, 2, 1, 0, 0, 0, 0, 0x3c, 0, 0, 0, 0];
    assert(head@ =~= seq![0x46u8, 0x50, 0x4c, 0x59, 1, 2, 1, 0, 0, 0, 0, 0x3c, 0, 0, 0, 0]);
    let mut out = bytes::concat(&head, first);
    bytes::extend(&mut out, &bytes::zero_vec(24));
    bytes::extend(&mut out, second);
    assert(out@.take(72) =~= out@);
    bytes::array72(&out)
}

/// A wrapped key with two fresh chunks.
pub fn build_ekey() -> (r: [u8; 72])
    ensures
        r@ == ekey_of(r@.subrange(16, 32), r@.subrange(56, 72)),
{
    let first = bytes::array16(&primitives::random_bytes(16));
    let second = bytes::array16(&primitives::random_bytes(16));
    let r = ekey_with(&first, &second);
    assert(r@.subrange(16, 32) =~= first@);
    assert(r@.subrange(56, 72) =~= second@);
    r
}

/// The stream key: the first sixteen bytes of a hash of the unwrapped key and the shared secret.
pub open spec fn fp_key_hash(fp_aes_key: Seq<u8>, shared_secret: Seq<u8>) -> Seq<u8> {
    primitives::sha512(fp_aes_key + shared_secret).take(16)
}

fn hash_fp_key(fp_aes_key: &[u8; 16], shared_secret: &[u8; 32]) -> (r: [u8; 16])
    ensures
        r@ == fp_key_hash(fp_aes_key@, shared_secret@),
{
    let data = bytes::concat(fp_aes_key, shared_secret);
    bytes::array16(&primitives::sha512_digest(&data))
}

/// Where the two chunks stand in a wrapped key, and what stands around them.
pub proof fn law_wrapped_key(first: Seq<u8>, second: Seq<u8>)
    requires
        first.len() == 16,
        second.len() == 16,
    ensures
        ekey_of(first, second).len() == 72,
        ekey_of(first, second).subrange(16, 32) == first,
        ekey_of(first, second).subrange(56, 72) == second,
        forall|i: int| 32 <= i < 56 ==> #[trigger] ekey_of(first, second)[i] == 0,
        ekey_of(first, second).take(4) == seq![70u8, 80, 76, 89],
{
    let e = ekey_of(first, second);
    assert(e.subrange(16, 32) =~= first);
    assert(e.subrange(56, 72) =~= second);
    assert(e.take(4) =~= seq![70u8, 80, 76, 89]);
}

/// The key of the stream is the first sixteen bytes of the SHA-512 of the unwrapped key with the
/// shared secret behind it, and the hashed inputs of two pairs differ.
pub proof fn law_stream_key_input(
    key: Seq<u8>,
    secret: Seq<u8>,
    other_key: Seq<u8>,
    other_secret: Seq<u8>,
)
    requires
        key.len() == 16,
        other_key.len() == 16,
        (key, secret) != (other_key, other_secret),
    ensures
        fp_key_hash(key, secret) == primitives::sha512(key + secret).take(16),
        fp_key_hash(other_key, other_secret) == primitives::sha512(other_key + other_secret).take(16),
        key + secret != other_key + other_secret,
{
    let (a, b) = (key + secret, other_key + other_secret);
    assert(a.take(16) =~= key);
    assert(b.take(16) =~= other_key);
    assert(a.skip(16) =~= secret);
    assert(b.skip(16) =~= other_secret);
}

/// A hash is put behind the fixed part of the message.
pub proof fn law_hash_is_put_behind(hash: Seq<u8>)
    requires
        hash.len() == 20,
    ensures
        key_message_with(hash).len() == 164,
        key_message_with(hash).skip(144) == hash,
        key_message_with(hash).take(144) == M3_PREFIX@,
{
    assert(key_message_with(hash).skip(144) =~= hash);
    assert(key_message_with(hash).take(144) =~= M3_PREFIX@);
}

/// Hexadecimal digits give the same bytes in small letters, so that a hash is read whatever their
/// case.
pub proof fn law_case_of_digits_is_one(s: Seq<char>)
    ensures
        codec::is_hex(text::ascii_lower(s)) == codec::is_hex(s),
        codec::is_hex(s) ==> codec::hex_data(text::ascii_lower(s)) == codec::hex_data(s),
{
    let l = text::ascii_lower(s);
    assert forall|i: int| 0 <= i < s.len() implies text::is_hex_digit(#[trigger] l[i])
        == text::is_hex_digit(s[i]) && text::hex_value_of(l[i]) == text::hex_value_of(s[i]) by {}
    if text::all_hex_digits(l) {
        assert forall|i: int| 0 <= i < s.len() implies text::is_hex_digit(#[trigger] s[i]) by {
            assert(text::is_hex_digit(l[i]));
        }
    }
    if codec::is_hex(s) {
        assert forall|i: int| 0 <= i < s.len() / 2 implies codec::hex_data(l)[i] == codec::hex_data(
            s,
        )[i] by {
            assert(text::hex_value_of(l[2 * i]) == text::hex_value_of(s[2 * i]));
            assert(text::hex_value_of(l[2 * i + 1]) == text::hex_value_of(s[2 * i + 1]));
        }
        assert(codec::hex_data(l) =~= codec::hex_data(s));
    }
}

/// The output of the helper is taken exactly where it is twenty bytes in hexadecimal.
pub proof fn law_helper_output_is_taken(stdout: Seq<u8>)
    ensures
        hash_fault(stdout) is None <==> text::all_hex_digits(hash_text(stdout)) && hash_text(
            stdout,
        ).len() == 40,
        setup1_fault(stdout) is None <==> stdout.len() == 142,
{
}
} // verus!
