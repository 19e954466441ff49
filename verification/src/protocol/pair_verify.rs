//! Pair-verify over the control connection.

use crate::bytes;
use crate::codec;
use crate::config::DeviceCredentials;
use crate::crypto::pair_verify as crypto_verify;
use crate::crypto::primitives;
use crate::error::{self, ErrorView, RottenError};
use crate::text;
use vstd::prelude::*;
use vstd::string::*;

verus! {

/// The secret that pair-verify agrees on.
pub struct PairVerifyOutcome {
    pub shared_secret: [u8; 32],
}

/// Keys that pair-verify needs.
pub struct VerifyKeys {
    pub client_pk: [u8; 32],
    pub client_sk: [u8; 32],
    pub server_pk: [u8; 32],
}

/// A key of 32 bytes, or an error that names it.
pub fn key32(key: &[u8], label: &str) -> (r: Result<[u8; 32], RottenError>)
    ensures
        match r {
            Ok(k) => k@ == key@,
            Err(e) => key@.len() != 32 && e@ == ErrorView::Protocol(
                "invalid "@ + label@ + " length"@,
            ),
        },
{
    if key.len() != 32 {
        let mut msg = error::labelled("invalid ", label);
        msg.append(" length");
        return Err(RottenError::Protocol(msg));
    }
    assert(key@.take(32) =~= key@);
    Ok(bytes::array32(key))
}

/// A key of 32 bytes in hexadecimal.
pub open spec fn is_hex_key(pk: Seq<char>) -> bool {
    codec::is_hex(pk) && pk.len() == 64
}

/// Whether `key` is the key that an announcement spells: in base64, else in hexadecimal.
pub open spec fn is_info_key(pk: Seq<char>, key: Option<Seq<u8>>) -> bool {
    match key {
        Some(k) => k.len() == 32 && (codec::base64_text(k) == pk || (is_hex_key(pk) && k
            == codec::hex_data(pk) && forall|v: Seq<u8>|
            v.len() == 32 ==> codec::base64_text(v) != pk)),
        None => !is_hex_key(pk) && forall|v: Seq<u8>| v.len() == 32 ==> codec::base64_text(v) != pk,
    }
}

/// The contents of an optional key.
pub open spec fn view_key(k: Option<[u8; 32]>) -> Option<Seq<u8>> {
    match k {
        Some(b) => Some(b@),
        None => None,
    }
}

/// The key that an announcement spells.
pub fn decode_info_pk(pk: &str) -> (r: Option<[u8; 32]>)
    ensures
        is_info_key(pk@, view_key(r)),
{
    match codec::base64_decode(pk) {
        Some(b) => {
            if b.len() == 32 {
                assert(b@.take(32) =~= b@);
                return Some(bytes::array32(&b));
            }
            assert forall|v: Seq<u8>| v.len() == 32 implies codec::base64_text(v) != pk@ by {
                if codec::base64_text(v) == pk@ {
                    codec::law_base64_injective(v, b@);
                }
            }
        },
        None => {},
    }
    let chars = text::chars_of(pk);
    if chars.len() == 64 {
        match codec::hex_decode(pk) {
            Ok(b) => {
                assert(b@.take(32) =~= b@);
                return Some(bytes::array32(&b));
            },
            Err(_) => {},
        }
    }
    None
}

/// The receiver's public key: the stored one, else the announced one.
pub fn resolve_server_public_key(creds: &DeviceCredentials, device_pk: Option<&str>) -> (r: Result<
    [u8; 32],
    RottenError,
>)
    ensures
        match r {
            Ok(k) => if creds.server_public_key@.len() == 32 {
                k@ == creds.server_public_key@
            } else {
                device_pk matches Some(pk) && is_info_key(pk@, Some(k@))
            },
            Err(e) => {
                &&& creds.server_public_key@.len() != 32
                &&& device_pk matches Some(pk) ==> is_info_key(pk@, None)
                &&& e@ == ErrorView::Protocol(
                    "missing Apple TV public key for pair-verify — re-pair with `rottingapple pair --force`"@,
                )
            },
        },
{
    if creds.server_public_key.len() == 32 {
        assert(creds.server_public_key@.take(32) =~= creds.server_public_key@);
        return Ok(bytes::array32(&creds.server_public_key));
    }
    let found = match device_pk {
        Some(pk) => decode_info_pk(pk),
        None => None,
    };
    match found {
        Some(k) => Ok(k),
        None => Err(
            error::protocol_error(
                "missing Apple TV public key for pair-verify — re-pair with `rottingapple pair --force`",
            ),
        ),
    }
}

/// The keys for pair-verify: the client's own, which must have 32 bytes each, and the
/// receiver's.
pub fn verify_keys(creds: &DeviceCredentials, device_pk: Option<&str>) -> (r: Result<
    VerifyKeys,
    RottenError,
>)
    ensures
        match r {
            Ok(k) => {
                &&& k.client_pk@ == creds.public_key@
                &&& k.client_sk@ == creds.private_key@
                &&& creds.server_public_key@.len() == 32 ==> k.server_pk@
                    == creds.server_public_key@
                &&& creds.server_public_key@.len() != 32 ==> (device_pk matches Some(pk)
                    && is_info_key(pk@, Some(k.server_pk@)))
            },
            Err(e) => if creds.public_key@.len() != 32 {
                e@ == ErrorView::Protocol("invalid client public key length"@)
            } else if creds.private_key@.len() != 32 {
                e@ == ErrorView::Protocol("invalid client private key length"@)
            } else {
                &&& creds.server_public_key@.len() != 32
                &&& device_pk matches Some(pk) ==> is_info_key(pk@, None)
                &&& e@ == ErrorView::Protocol(
                    "missing Apple TV public key for pair-verify — re-pair with `rottingapple pair --force`"@,
                )
            },
        },
{
    proof {
        reveal_strlit("invalid ");
        reveal_strlit("client public key");
        reveal_strlit("client private key");
        reveal_strlit(" length");
        reveal_strlit("invalid client public key length");
        reveal_strlit("invalid client private key length");
        assert("invalid "@ + "client public key"@ + " length"@
            =~= "invalid client public key length"@);
        assert("invalid "@ + "client private key"@ + " length"@
            =~= "invalid client private key length"@);
    }
    let client_pk = match key32(&creds.public_key, "client public key") {
        Ok(k) => k,
        Err(e) => return Err(e),
    };
    let client_sk = match key32(&creds.private_key, "client private key") {
        Ok(k) => k,
        Err(e) => return Err(e),
    };
    match resolve_server_public_key(creds, device_pk) {
        Ok(server_pk) => Ok(VerifyKeys { client_pk, client_sk, server_pk }),
        Err(e) => Err(e),
    }
}

/// What is wrong with the first reply, as the caller sees it.
pub open spec fn answer_fault(
    keys: VerifyKeys,
    eph_secret: Seq<u8>,
    eph_pk: Seq<u8>,
    status: u16,
    body: Seq<u8>,
) -> Option<ErrorView> {
    let inner = crypto_verify::step2_fault(eph_secret, eph_pk, body, keys.server_pk@);
    if status != 200 {
        Some(ErrorView::Protocol("pair-verify step1 HTTP "@ + text::decimal(status as nat)))
    } else if inner is Some {
        Some(ErrorView::Protocol(error::error_text(inner->0)))
    } else {
        None
    }
}

/// The second request, from the first reply; gives the shared secret too.
pub fn answer_step1(
    keys: &VerifyKeys,
    eph_secret: &[u8; 32],
    eph_pk: &[u8; 32],
    status: u16,
    body: &[u8],
) -> (r: Result<([u8; 68], PairVerifyOutcome), RottenError>)
    ensures
        match r {
            Ok((request, outcome)) => {
                &&& answer_fault(*keys, eph_secret@, eph_pk@, status, body@) is None
                &&& outcome.shared_secret@ == primitives::x25519_shared(
                    eph_secret@,
                    body@.take(32),
                )
                &&& request@ == crypto_verify::step2_body(
                    outcome.shared_secret@,
                    eph_pk@,
                    keys.client_sk@,
                    body@.take(32),
                )
            },
            Err(e) => answer_fault(*keys, eph_secret@, eph_pk@, status, body@) == Some(e@),
        },
{
    if status != 200 {
        return Err(
            RottenError::Protocol(text::numbered("pair-verify step1 HTTP ", status as u64)),
        );
    }
    match crypto_verify::pair_verify_step2(
        eph_secret,
        eph_pk,
        &keys.client_sk,
        body,
        &keys.server_pk,
    ) {
        Ok((request, shared_secret)) => Ok((request, PairVerifyOutcome { shared_secret })),
        Err(e) => Err(RottenError::Protocol(e.message())),
    }
}

/// Checks the status of the second reply.
pub fn check_step2(status: u16) -> (r: Result<(), RottenError>)
    ensures
        match r {
            Ok(_) => status == 200,
            Err(e) => status != 200 && e@ == ErrorView::Protocol(
                "pair-verify step2 HTTP "@ + text::decimal(status as nat),
            ),
        },
{
    if status != 200 {
        return Err(
            RottenError::Protocol(text::numbered("pair-verify step2 HTTP ", status as u64)),
        );
    }
    Ok(())
}

/// A key of 32 bytes is read back from its text in base 64, and from its text in hexadecimal.
pub proof fn law_key_is_read_back(key: Seq<u8>, read: Option<Seq<u8>>)
    requires
        key.len() == 32,
    ensures
        is_info_key(codec::base64_text(key), read) ==> read == Some(key),
        is_info_key(codec::hex_text(key), read) ==> read == Some(key),
{
    codec::law_base64_length(key);
    codec::law_hex_reads_back(key);
    if is_info_key(codec::base64_text(key), read) {
        if let Some(k) = read {
            if codec::base64_text(k) == codec::base64_text(key) {
                codec::law_base64_injective(k, key);
            }
        }
    }
    if is_info_key(codec::hex_text(key), read) {
        if let Some(k) = read {
            codec::law_base64_length(k);
        }
    }
}

/// A text that is neither the base 64 nor the hexadecimal form of 32 bytes gives no key.
pub proof fn law_other_texts_give_no_key(pk: Seq<char>, read: Option<Seq<u8>>)
    requires
        pk.len() != 44,
        pk.len() != 64,
        is_info_key(pk, read),
    ensures
        read is None,
{
    if let Some(k) = read {
        codec::law_base64_length(k);
    }
}
/// A first reply is accepted exactly with status 200 and a signature that the receiver's key made.
pub proof fn law_first_reply_is_accepted(
    keys: VerifyKeys,
    eph_secret: Seq<u8>,
    eph_pk: Seq<u8>,
    status: u16,
    server_eph: Seq<u8>,
    signature: Seq<u8>,
)
    requires
        server_eph.len() == 32,
        signature.len() == 64,
    ensures
        ({
            let shared = primitives::x25519_shared(eph_secret, server_eph);
            let body = server_eph + crypto_verify::verify_xor(shared, 0, signature);
            answer_fault(keys, eph_secret, eph_pk, status, body) is None <==> status == 200
                && primitives::ed25519_key_fault(keys.server_pk@) is None
                && primitives::ed25519_sign_fault(
                keys.server_pk@,
                server_eph + eph_pk,
                signature,
            ) is None
        }),
{
    crypto_verify::law_signatures_are_exchanged(
        eph_secret,
        eph_pk,
        Seq::empty(),
        server_eph,
        keys.server_pk@,
        signature,
    );
}
} // verus!
