//! HomeKit pairing over `pair-setup`, which is experimental and leaves the fifth message
//! unencrypted.

use crate::bytes;
use crate::codec;
use crate::config::DeviceCredentials;
use crate::crypto::ed25519_pair::{self, Ed25519KeyPair};
use crate::crypto::primitives;
use crate::crypto::srp::{self, SrpClient};
use crate::error::{self, ErrorView, RottenError};
use crate::http_reply;
use crate::pairing::tlv::{self, TlvType};
use crate::text;
use std::collections::HashMap;
use vstd::prelude::*;
use vstd::string::*;

verus! {

broadcast use vstd::std_specs::hash::group_hash_axioms;

pub const PAIR_SETUP: &'static str = "pair-setup";

pub const PAIR_PIN_START: &'static str = "pair-pin-start";

pub const USERNAME: &'static str = "Pair-Setup";

/// A pairing for which the receiver shows a PIN.
pub struct PairingSession {
    pub device_id: String,
    pub salt: Vec<u8>,
    pub server_pub: Vec<u8>,
    pub srp: SrpClient,
    pub keypair: Ed25519KeyPair,
}

/// The first message.
pub open spec fn m1_records() -> Seq<(TlvType, Seq<u8>)> {
    seq![(TlvType::Method, seq![0u8]), (TlvType::State, seq![1u8])]
}

/// The first message.
pub fn m1_body() -> (r: Vec<u8>)
    ensures
        r@ == tlv::encoded(m1_records()),
{
    let zero: [u8; 1] = [0u8];
    let one: [u8; 1] = [1u8];
    assert(zero@ =~= seq![0u8]);
    assert(one@ =~= seq![1u8]);
    let entries: [(TlvType, &[u8]); 2] = [(TlvType::Method, &zero), (TlvType::State, &one)];
    assert(tlv::view_entries(entries@) =~= m1_records());
    tlv::encode(&entries)
}

/// What is wrong with the second message.
pub open spec fn m2_fault(status: u16, m2: Map<u8, Seq<u8>>) -> Option<ErrorView> {
    if !http_reply::success(status) {
        Some(ErrorView::Pairing("M2 HTTP "@ + text::decimal(status as nat)))
    } else if m2.dom().contains(7u8) {
        let code: nat = if m2[7u8].len() > 0 {
            m2[7u8][0] as nat
        } else {
            255
        };
        Some(ErrorView::Pairing("M2 pairing error TLV: "@ + text::decimal(code)))
    } else if !m2.dom().contains(2u8) {
        Some(ErrorView::Pairing("M2 missing salt"@))
    } else if !m2.dom().contains(3u8) {
        Some(ErrorView::Pairing("M2 missing server public key"@))
    } else {
        None
    }
}

fn field(m: &HashMap<u8, Vec<u8>>, t: TlvType) -> (r: Option<Vec<u8>>)
    ensures
        bytes::view_opt(r) == (if m@.dom().contains(t.code_spec()) {
            Some(tlv::view_values(m@)[t.code_spec()])
        } else {
            None
        }),
{
    match m.get(&t.code()) {
        Some(v) => Some(bytes::to_vec(v)),
        None => None,
    }
}

/// Reads the second message: salt and server public key.
pub fn read_m2(status: u16, body: &[u8]) -> (r: Result<(Vec<u8>, Vec<u8>), RottenError>)
    ensures
        match r {
            Ok((salt, server_pub)) => {
                &&& m2_fault(status, tlv::decoded(body@)) is None
                &&& salt@ == tlv::decoded(body@)[2u8]
                &&& server_pub@ == tlv::decoded(body@)[3u8]
            },
            Err(e) => m2_fault(status, tlv::decoded(body@)) == Some(e@),
        },
{
    let m2 = tlv::decode(body);
    assert(forall|k: u8| m2@.dom().contains(k) == tlv::decoded(body@).dom().contains(k));
    if !http_reply::is_success(status) {
        return Err(RottenError::Pairing(text::numbered("M2 HTTP ", status as u64)));
    }
    match field(&m2, TlvType::Error) {
        Some(v) => {
            let code: u8 = if v.len() > 0 {
                v[0]
            } else {
                0xff
            };
            return Err(
                RottenError::Pairing(text::numbered("M2 pairing error TLV: ", code as u64)),
            );
        },
        None => {},
    }
    let salt = match field(&m2, TlvType::Salt) {
        Some(s) => s,
        None => return Err(error::pairing_error("M2 missing salt")),
    };
    let server_pub = match field(&m2, TlvType::PublicKey) {
        Some(k) => k,
        None => return Err(error::pairing_error("M2 missing server public key")),
    };
    Ok((salt, server_pub))
}

/// Starts a pairing, given the status and the body of the second message: the receiver's salt and
/// public key, a client for a modulus with a fresh secret, and a fresh key pair.
pub fn start_pairing(device_id: &str, modulus: &[u8], status: u16, body: &[u8]) -> (r: Result<
    PairingSession,
    RottenError,
>)
    requires
        bytes::be_value(modulus@) > 1,
    ensures
        match r {
            Ok(s) => {
                &&& m2_fault(status, tlv::decoded(body@)) is None
                &&& s.device_id@ == device_id@
                &&& s.salt@ == tlv::decoded(body@)[2u8]
                &&& s.server_pub@ == tlv::decoded(body@)[3u8]
                &&& s.srp.wf()
                &&& s.srp.modulus() == bytes::be_value(modulus@)
                &&& s.keypair.public_key@ == primitives::ed25519_public(s.keypair.private_key@)
            },
            Err(e) => m2_fault(status, tlv::decoded(body@)) == Some(e@),
        },
{
    match read_m2(status, body) {
        Err(e) => Err(e),
        Ok((salt, server_pub)) => Ok(
            PairingSession {
                device_id: text::owned(device_id),
                salt,
                server_pub,
                srp: SrpClient::new(modulus),
                keypair: ed25519_pair::generate_ed25519_keypair(),
            },
        ),
    }
}

/// The third message.
pub open spec fn m3_records(client_public: Seq<u8>, proof_bytes: Seq<u8>) -> Seq<
    (TlvType, Seq<u8>),
> {
    seq![
        (TlvType::State, seq![3u8]),
        (TlvType::PublicKey, client_public),
        (TlvType::Proof, proof_bytes),
    ]
}

/// The third message, for a client's public key and proof.
pub fn m3_body(client_public: &[u8], proof_bytes: &[u8]) -> (r: Vec<u8>)
    ensures
        r@ == tlv::encoded(m3_records(client_public@, proof_bytes@)),
{
    let three: [u8; 1] = [3u8];
    assert(three@ =~= seq![3u8]);
    let entries: [(TlvType, &[u8]); 3] = [
        (TlvType::State, &three),
        (TlvType::PublicKey, client_public),
        (TlvType::Proof, proof_bytes),
    ];
    assert(tlv::view_entries(entries@) =~= m3_records(client_public@, proof_bytes@));
    tlv::encode(&entries)
}

/// The answer to the second message: the third message and the proof that the server owes;
/// nothing where the server's public key cannot be used with the PIN.
pub fn answer_m2(session: &PairingSession, pin: &str) -> (r: Option<(Vec<u8>, Vec<u8>)>)
    requires
        session.srp.wf(),
    ensures
        ({
            let b = bytes::be_value(session.server_pub@);
            let c = session.srp;
            let key = c.key(session.salt@, b, "Pair-Setup"@, pin@);
            let m1 = srp::client_proof(
                c.modulus(),
                "Pair-Setup"@,
                session.salt@,
                c.public(),
                b,
                key,
            );
            match r {
                Some((body, expected)) => {
                    &&& c.usable(session.salt@, b, "Pair-Setup"@, pin@)
                    &&& body@ == tlv::encoded(m3_records(srp::padded384(c.public()), m1))
                    &&& expected@ == srp::server_proof(c.public(), m1, key)
                },
                None => !c.usable(session.salt@, b, "Pair-Setup"@, pin@),
            }
        }),
{
    match session.srp.try_process_challenge(&session.salt, &session.server_pub, USERNAME, pin) {
        None => None,
        Some((proof_bytes, expected)) => {
            let client_public = session.srp.client_public();
            Some((m3_body(&client_public, &proof_bytes), expected))
        },
    }
}

/// What is wrong with the fourth message.
pub open spec fn m4_fault(m4: Map<u8, Seq<u8>>, expected: Seq<u8>) -> Option<ErrorView> {
    if !m4.dom().contains(4u8) {
        Some(ErrorView::Pairing("M4 missing server proof"@))
    } else if m4[4u8] != expected {
        Some(ErrorView::Pairing("SRP server proof mismatch"@))
    } else {
        None
    }
}

/// Checks the server's proof in the fourth message.
pub fn check_m4(body: &[u8], expected: &[u8]) -> (r: Result<(), RottenError>)
    ensures
        crate::crypto::pair_verify::fault_of(r) == m4_fault(tlv::decoded(body@), expected@),
{
    let m4 = tlv::decode(body);
    assert(forall|k: u8| m4@.dom().contains(k) == tlv::decoded(body@).dom().contains(k));
    match field(&m4, TlvType::Proof) {
        None => Err(error::pairing_error("M4 missing server proof")),
        Some(p) => {
            if bytes::same_bytes(&p, expected) {
                Ok(())
            } else {
                Err(error::pairing_error("SRP server proof mismatch"))
            }
        },
    }
}

/// The payload of the fifth message.
pub open spec fn m5_payload(identifier: Seq<char>, public_key: Seq<u8>) -> Seq<u8> {
    tlv::encoded(
        seq![(TlvType::Identifier, text::utf8(identifier)), (TlvType::PublicKey, public_key)],
    )
}

/// The fifth message.
pub fn m5_body(identifier: &str, public_key: &[u8]) -> (r: Vec<u8>)
    ensures
        r@ == tlv::encoded(
            seq![
                (TlvType::State, seq![5u8]),
                (TlvType::EncryptedData, m5_payload(identifier@, public_key@)),
            ],
        ),
{
    let five: [u8; 1] = [5u8];
    assert(five@ =~= seq![5u8]);
    let inner: [(TlvType, &[u8]); 2] = [
        (TlvType::Identifier, identifier.as_bytes()),
        (TlvType::PublicKey, public_key),
    ];
    assert(tlv::view_entries(inner@) =~= seq![
        (TlvType::Identifier, text::utf8(identifier@)),
        (TlvType::PublicKey, public_key@),
    ]);
    let payload = tlv::encode(&inner);
    let outer: [(TlvType, &[u8]); 2] = [
        (TlvType::State, &five),
        (TlvType::EncryptedData, payload.as_slice()),
    ];
    assert(tlv::view_entries(outer@) =~= seq![
        (TlvType::State, seq![5u8]),
        (TlvType::EncryptedData, m5_payload(identifier@, public_key@)),
    ]);
    tlv::encode(&outer)
}

/// A fresh identifier for the client.
pub fn new_identifier() -> (r: String)
    ensures
        codec::is_uuid_v4(r@),
{
    codec::random_uuid()
}

/// Finishes a pairing, given the status of the fifth message and its text.
pub fn finish_pairing(
    session: PairingSession,
    identifier: String,
    status: u16,
    status_shown: &str,
) -> (r: Result<DeviceCredentials, RottenError>)
    ensures
        match r {
            Ok(c) => {
                &&& http_reply::success(status)
                &&& c.device_id == session.device_id
                &&& c.identifier == identifier
                &&& c.public_key@ == session.keypair.public_key@
                &&& c.private_key@ == session.keypair.private_key@
                &&& c.server_public_key@.len() == 0
            },
            Err(e) => !http_reply::success(status) && e@ == ErrorView::Pairing(
                "M5 failed: "@ + status_shown@,
            ),
        },
{
    if !http_reply::is_success(status) {
        return Err(RottenError::Pairing(error::labelled("M5 failed: ", status_shown)));
    }
    Ok(
        DeviceCredentials {
            device_id: session.device_id,
            identifier,
            public_key: bytes::to_vec(&session.keypair.public_key),
            private_key: bytes::to_vec(&session.keypair.private_key),
            server_public_key: Vec::new(),
        },
    )
}

/// Headers that name a paired client: its identifier and its public key in base64.
pub fn device_auth_header(creds: &DeviceCredentials) -> (r: String)
    ensures
        r@ == "X-Apple-Device-ID: "@ + codec::base64_text(text::utf8(creds.identifier@))
            + "\r\nX-Apple-Device-Public-Key: "@ + codec::base64_text(creds.public_key@),
{
    let id_b64 = codec::base64_encode(creds.identifier.as_str().as_bytes());
    let pk_b64 = codec::base64_encode(&creds.public_key);
    let mut s = error::labelled("X-Apple-Device-ID: ", id_b64.as_str());
    s.append("\r\nX-Apple-Device-Public-Key: ");
    s.append(pk_b64.as_str());
    s
}

/// The first message: method zero and state one, byte for byte.
pub proof fn law_first_message()
    ensures
        tlv::encoded(m1_records()) == seq![0u8, 1, 0, 6, 1, 1],
{
    let a = seq![(TlvType::Method, seq![0u8])];
    assert(m1_records() =~= a.push((TlvType::State, seq![1u8])));
    tlv::law_records_follow(a, TlvType::State, seq![1u8]);
    tlv::law_records(TlvType::Method, seq![0u8]);
    tlv::law_records(TlvType::State, seq![1u8]);
    tlv::law_codes();
    assert(tlv::encoded(m1_records()) =~= seq![0u8, 1, 0, 6, 1, 1]);
}

/// A challenge as a receiver writes it is accepted, and its salt and public key are read from it as
/// they were written.
pub proof fn law_challenge_is_read(status: u16, salt: Seq<u8>, key: Seq<u8>)
    requires
        200 <= status < 300,
        salt.len() > 0,
        key.len() > 0,
    ensures
        ({
            let m2 = tlv::decoded(
                tlv::encoded(
                    seq![
                        (TlvType::State, seq![2u8]),
                        (TlvType::Salt, salt),
                        (TlvType::PublicKey, key),
                    ],
                ),
            );
            &&& m2_fault(status, m2) is None
            &&& m2[2u8] == salt
            &&& m2[3u8] == key
        }),
{
    let e = seq![(TlvType::State, seq![2u8]), (TlvType::Salt, salt), (TlvType::PublicKey, key)];
    tlv::law_codes();
    tlv::law_value_comes_back(e, 1);
    tlv::law_value_comes_back(e, 2);
    tlv::law_no_value_comes_back(e, TlvType::Error);
}

/// A challenge is accepted exactly with a status of success, no error, a salt and a public key.
pub proof fn law_challenge_needs(status: u16, m2: Map<u8, Seq<u8>>)
    ensures
        m2_fault(status, m2) is None <==> 200 <= status < 300 && !m2.dom().contains(7u8)
            && m2.dom().contains(2u8) && m2.dom().contains(3u8),
{
}

/// The answer to a challenge carries state three, the client's public key and its proof.
pub proof fn law_answer_carries(key: Seq<u8>, proof_bytes: Seq<u8>)
    requires
        key.len() > 0,
        proof_bytes.len() > 0,
    ensures
        ({
            let m3 = tlv::decoded(tlv::encoded(m3_records(key, proof_bytes)));
            &&& m3.dom().contains(6u8) && m3[6u8] == seq![3u8]
            &&& m3.dom().contains(3u8) && m3[3u8] == key
            &&& m3.dom().contains(4u8) && m3[4u8] == proof_bytes
        }),
{
    let e = m3_records(key, proof_bytes);
    tlv::law_codes();
    tlv::law_value_comes_back(e, 0);
    tlv::law_value_comes_back(e, 1);
    tlv::law_value_comes_back(e, 2);
}

/// A server proof is accepted exactly where it is the expected one.
pub proof fn law_server_proof_is_compared(server: Seq<u8>, expected: Seq<u8>)
    requires
        server.len() > 0,
    ensures
        m4_fault(
            tlv::decoded(
                tlv::encoded(seq![(TlvType::State, seq![4u8]), (TlvType::Proof, server)]),
            ),
            expected,
        ) is None <==> server == expected,
{
    let e = seq![(TlvType::State, seq![4u8]), (TlvType::Proof, server)];
    tlv::law_codes();
    tlv::law_value_comes_back(e, 1);
}

/// The sender's own key goes out whole, under its identifier.
pub proof fn law_own_key_is_told(identifier: Seq<char>, key: Seq<u8>)
    requires
        identifier.len() > 0,
        key.len() > 0,
    ensures
        ({
            let payload = tlv::decoded(m5_payload(identifier, key));
            &&& payload.dom().contains(1u8)
            &&& vstd::utf8::decode_utf8(payload[1u8]) == identifier
            &&& payload.dom().contains(3u8)
            &&& payload[3u8] == key
        }),
{
    let name = text::utf8(identifier);
    vstd::utf8::encode_utf8_decode_utf8(identifier);
    if name.len() == 0 {
        assert(name =~= vstd::utf8::encode_utf8(Seq::empty()));
        vstd::utf8::encode_utf8_decode_utf8(Seq::empty());
    }
    let e = seq![(TlvType::Identifier, name), (TlvType::PublicKey, key)];
    tlv::law_codes();
    tlv::law_value_comes_back(e, 0);
    tlv::law_value_comes_back(e, 1);
}
} // verus!
