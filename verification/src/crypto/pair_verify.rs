//! The client's side of pair-verify.

use crate::bytes;
use crate::crypto::primitives;
use crate::error::{self, ErrorView, RottenError};
use crate::text;
use vstd::prelude::*;

verus! {

/// Body of the first request: a mark and the two public keys.
pub open spec fn step1_body(eph_pk: Seq<u8>, client_pk: Seq<u8>) -> Seq<u8> {
    seq![1u8, 0, 0, 0] + eph_pk + client_pk
}

/// The first request for an ephemeral secret: body and ephemeral public key.
pub fn pair_verify_step1_with(eph_secret: &[u8; 32], client_ed25519_pk: &[u8; 32]) -> (r: (
    [u8; 68],
    [u8; 32],
))
    ensures
        r.0@ == step1_body(primitives::x25519_public(eph_secret@), client_ed25519_pk@),
        r.1@ == primitives::x25519_public(eph_secret@),
{
    let eph_pk = primitives::x25519_public_of(eph_secret);
    let mark: [u8; 4] = [1u8, 0, 0, 0];
    let mut body: Vec<u8> = bytes::to_vec(&mark);
    assert(body@ =~= seq![1u8, 0, 0, 0]);
    bytes::extend(&mut body, &eph_pk);
    bytes::extend(&mut body, client_ed25519_pk);
    assert(body@.take(68) =~= body@);
    (bytes::array68(&body), eph_pk)
}

/// The first request: body, a fresh ephemeral secret, and its public key.
pub fn pair_verify_step1(client_ed25519_pk: &[u8; 32]) -> (r: ([u8; 68], [u8; 32], [u8; 32]))
    ensures
        r.0@ == step1_body(primitives::x25519_public(r.1@), client_ed25519_pk@),
        r.2@ == primitives::x25519_public(r.1@),
{
    let secret = bytes::array32(&primitives::random_bytes(32));
    let (body, eph_pk) = pair_verify_step1_with(&secret, client_ed25519_pk);
    (body, secret, eph_pk)
}

/// Key of the cipher over the signatures.
pub open spec fn verify_aes_key(shared: Seq<u8>) -> Seq<u8> {
    primitives::sha512(text::utf8("Pair-Verify-AES-Key"@) + shared).take(16)
}

/// Initial counter of the cipher over the signatures.
pub open spec fn verify_aes_iv(shared: Seq<u8>) -> Seq<u8> {
    primitives::sha512(text::utf8("Pair-Verify-AES-IV"@) + shared).take(16)
}

/// `data` under the cipher over the signatures, from keystream byte `pos` on.
pub open spec fn verify_xor(shared: Seq<u8>, pos: nat, data: Seq<u8>) -> Seq<u8> {
    crate::crypto::mirror_aes::ctr_xor(verify_aes_key(shared), verify_aes_iv(shared), pos, data)
}

fn derive_pair_verify_aes(shared_secret: &[u8]) -> (r: ([u8; 16], [u8; 16]))
    ensures
        r.0@ == verify_aes_key(shared_secret@),
        r.1@ == verify_aes_iv(shared_secret@),
{
    let key_input = bytes::concat("Pair-Verify-AES-Key".as_bytes(), shared_secret);
    let iv_input = bytes::concat("Pair-Verify-AES-IV".as_bytes(), shared_secret);
    let key_digest = primitives::sha512_digest(&key_input);
    let iv_digest = primitives::sha512_digest(&iv_input);
    (bytes::array16(&key_digest), bytes::array16(&iv_digest))
}

/// Why a signature over a message is refused, if it is.
pub open spec fn signature_fault(key: Seq<u8>, msg: Seq<u8>, sig: Seq<u8>) -> Option<ErrorView> {
    if sig.len() != 64 {
        Some(ErrorView::Crypto("invalid ed25519 signature length"@))
    } else if primitives::ed25519_key_fault(key) is Some {
        Some(ErrorView::Crypto(primitives::ed25519_key_fault(key)->0))
    } else if primitives::ed25519_sign_fault(key, msg, sig) is Some {
        Some(
            ErrorView::Crypto(
                "pair-verify server signature: "@ + primitives::ed25519_sign_fault(key, msg, sig)->0,
            ),
        )
    } else {
        None
    }
}

/// The outcome of a check that may fail.
pub open spec fn fault_of(r: Result<(), RottenError>) -> Option<ErrorView> {
    match r {
        Ok(_) => None,
        Err(e) => Some(e@),
    }
}

fn verify_ed25519(pk: &[u8; 32], message: &[u8], sig_bytes: &[u8]) -> (r: Result<(), RottenError>)
    ensures
        fault_of(r) == signature_fault(pk@, message@, sig_bytes@),
{
    if sig_bytes.len() != 64 {
        return Err(error::crypto_error("invalid ed25519 signature length"));
    }
    let sig = bytes::array64(sig_bytes);
    assert(sig@ =~= sig_bytes@);
    match primitives::ed25519_check_key(pk) {
        Err(e) => return Err(RottenError::Crypto(e)),
        Ok(_) => {},
    }
    match primitives::ed25519_check_signature(pk, message, &sig) {
        Err(e) => Err(
            RottenError::Crypto(error::labelled("pair-verify server signature: ", e.as_str())),
        ),
        Ok(_) => Ok(()),
    }
}

/// The decrypted signature in a first response.
pub open spec fn server_signature(shared: Seq<u8>, response: Seq<u8>) -> Seq<u8> {
    verify_xor(shared, 0, response.subrange(32, 96))
}

/// Why a first response is refused, if it is.
pub open spec fn step2_fault(
    eph_secret: Seq<u8>,
    client_eph_pk: Seq<u8>,
    response: Seq<u8>,
    server_pk: Seq<u8>,
) -> Option<ErrorView> {
    if response.len() < 96 {
        Some(
            ErrorView::Crypto(
                "pair-verify step1 response too short: "@ + text::decimal(response.len()),
            ),
        )
    } else {
        let server_eph = response.take(32);
        let shared = primitives::x25519_shared(eph_secret, server_eph);
        signature_fault(
            server_pk,
            server_eph + client_eph_pk,
            server_signature(shared, response),
        )
    }
}

/// Body of the second request: the client's signature over both ephemeral keys, encrypted
/// behind the server's.
pub open spec fn step2_body(
    shared: Seq<u8>,
    client_eph_pk: Seq<u8>,
    client_sk: Seq<u8>,
    server_eph: Seq<u8>,
) -> Seq<u8> {
    bytes::zeros(4) + verify_xor(
        shared,
        64,
        primitives::ed25519_signature(client_sk, client_eph_pk + server_eph),
    )
}

/// Checks the first response and builds the second request; gives its body and the shared
/// secret.
pub fn pair_verify_step2(
    eph_secret: &[u8; 32],
    client_eph_pk: &[u8; 32],
    client_ed25519_sk: &[u8; 32],
    step1_response: &[u8],
    server_ed25519_pk: &[u8; 32],
) -> (r: Result<([u8; 68], [u8; 32]), RottenError>)
    ensures
        match r {
            Ok((body, shared)) => {
                &&& step2_fault(
                    eph_secret@,
                    client_eph_pk@,
                    step1_response@,
                    server_ed25519_pk@,
                ) is None
                &&& shared@ == primitives::x25519_shared(eph_secret@, step1_response@.take(32))
                &&& body@ == step2_body(
                    shared@,
                    client_eph_pk@,
                    client_ed25519_sk@,
                    step1_response@.take(32),
                )
            },
            Err(e) => step2_fault(
                eph_secret@,
                client_eph_pk@,
                step1_response@,
                server_ed25519_pk@,
            ) == Some(e@),
        },
{
    if step1_response.len() < 96 {
        let msg = text::numbered(
            "pair-verify step1 response too short: ",
            step1_response.len() as u64,
        );
        return Err(RottenError::Crypto(msg));
    }
    let server_eph = bytes::array32(step1_response);
    let shared = primitives::x25519_agree(eph_secret, &server_eph);
    let (aes_key, aes_iv) = derive_pair_verify_aes(&shared);
    let sealed_sig = bytes::sub_vec(step1_response, 32, 96);
    let server_sig = primitives::aes_ctr_apply(&aes_key, &aes_iv, 0, &sealed_sig);
    assert(server_sig@ =~= server_signature(shared@, step1_response@));
    let signed = bytes::concat(&server_eph, client_eph_pk);
    match verify_ed25519(server_ed25519_pk, &signed, &server_sig) {
        Err(e) => return Err(e),
        Ok(_) => {},
    }
    let message = bytes::concat(client_eph_pk, &server_eph);
    let client_sig = primitives::ed25519_sign(client_ed25519_sk, &message);
    let sealed = primitives::aes_ctr_apply(&aes_key, &aes_iv, 64, &client_sig);
    assert(sealed@ =~= verify_xor(shared@, 64, client_sig@));
    let mut body = bytes::zero_vec(4);
    bytes::extend(&mut body, &sealed);
    assert(body@.take(68) =~= body@);
    Ok((bytes::array68(&body), shared))
}

/// What the first message holds: the number one, the ephemeral key and the sender's own key.
pub proof fn law_first_message(eph_pk: Seq<u8>, client_pk: Seq<u8>)
    requires
        eph_pk.len() == 32,
        client_pk.len() == 32,
    ensures
        step1_body(eph_pk, client_pk).len() == 68,
        step1_body(eph_pk, client_pk).take(4) == seq![1u8, 0, 0, 0],
        step1_body(eph_pk, client_pk).subrange(4, 36) == eph_pk,
        step1_body(eph_pk, client_pk).subrange(36, 68) == client_pk,
{
    let b = step1_body(eph_pk, client_pk);
    assert(b.take(4) =~= seq![1u8, 0, 0, 0]);
    assert(b.subrange(4, 36) =~= eph_pk);
    assert(b.subrange(36, 68) =~= client_pk);
}

/// The key and the counter are the first sixteen bytes of the SHA-512 of a name of their own with
/// the shared secret behind it.
pub proof fn law_verify_keys(shared: Seq<u8>)
    ensures
        verify_aes_key(shared) == primitives::sha512(
            vstd::utf8::encode_utf8("Pair-Verify-AES-Key"@) + shared,
        ).take(16),
        verify_aes_iv(shared) == primitives::sha512(
            vstd::utf8::encode_utf8("Pair-Verify-AES-IV"@) + shared,
        ).take(16),
{
}

/// Both sides of the exchange read what the other one wrote. The signature that the receiver sealed
/// at the start of the key stream, over its own ephemeral key and then the sender's, decides about
/// its reply; the receiver finds the sender's signature, over the sender's ephemeral key and then
/// its own, behind four zeros, sealed where the first one ends.
pub proof fn law_signatures_are_exchanged(
    eph_secret: Seq<u8>,
    client_eph: Seq<u8>,
    client_sk: Seq<u8>,
    server_eph: Seq<u8>,
    server_pk: Seq<u8>,
    signature: Seq<u8>,
)
    requires
        server_eph.len() == 32,
        signature.len() == 64,
    ensures
        ({
            let shared = primitives::x25519_shared(eph_secret, server_eph);
            let reply = server_eph + verify_xor(shared, 0, signature);
            let body = step2_body(shared, client_eph, client_sk, server_eph);
            &&& step2_fault(eph_secret, client_eph, reply, server_pk) is None
                <==> primitives::ed25519_key_fault(server_pk) is None
                && primitives::ed25519_sign_fault(server_pk, server_eph + client_eph, signature) is None
            &&& body.take(4) == seq![0u8, 0, 0, 0]
            &&& verify_xor(shared, 64, body.skip(4)) == primitives::ed25519_signature(
                client_sk,
                client_eph + server_eph,
            )
        }),
{
    let shared = primitives::x25519_shared(eph_secret, server_eph);
    let (key, iv) = (verify_aes_key(shared), verify_aes_iv(shared));
    let sealed = verify_xor(shared, 0, signature);
    let reply = server_eph + sealed;
    crate::crypto::mirror_aes::law_ctr_involution(key, iv, 0, signature);
    assert(reply.take(32) =~= server_eph);
    assert(reply.subrange(32, 96) =~= sealed);
    let own = primitives::ed25519_signature(client_sk, client_eph + server_eph);
    crate::crypto::mirror_aes::law_ctr_involution(key, iv, 64, own);
    let body = step2_body(shared, client_eph, client_sk, server_eph);
    assert(body.take(4) =~= seq![0u8, 0, 0, 0]);
    assert(body.skip(4) =~= verify_xor(shared, 64, own));
}
} // verus!
