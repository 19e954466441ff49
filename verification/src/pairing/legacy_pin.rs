//! Pairing with a PIN over `pair-setup-pin`.

use crate::bytes;
use crate::codec;
use crate::config::DeviceCredentials;
use crate::crypto::ed25519_pair::{self, Ed25519KeyPair};
use crate::crypto::legacy_srp::{LegacySrpClient, SrpView};
use crate::crypto::primitives;
use crate::error::{self, ErrorView, RottenError};
use crate::http_reply::{self, HttpReply};
use crate::plist_value::{self, Plist, PlistField, PlistView};
use crate::text;
use vstd::prelude::*;
use vstd::string::*;

verus! {

pub const PAIR_PIN_START: &'static str = "pair-pin-start";

pub const PAIR_SETUP_PIN: &'static str = "pair-setup-pin";

/// A pairing for which the receiver shows a PIN.
pub struct LegacyPairingSession {
    pub base_url: String,
    pub device_id: String,
    pub client_id: String,
    pub keypair: Ed25519KeyPair,
}

/// URL below a base.
pub fn joined_url(base_url: &str, path: &str) -> (r: String)
    ensures
        r@ == base_url@ + "/"@ + path@,
{
    let mut s = text::owned(base_url);
    s.append("/");
    s.append(path);
    s
}

/// Where the request goes that makes the receiver show a PIN.
pub fn pin_start_url(base_url: &str) -> (r: String)
    ensures
        r@ == base_url@ + "/pair-pin-start"@,
{
    proof {
        reveal_strlit("/");
        reveal_strlit("pair-pin-start");
        reveal_strlit("/pair-pin-start");
    }
    let r = joined_url(base_url, PAIR_PIN_START);
    assert(r@ =~= base_url@ + "/pair-pin-start"@);
    r
}

/// Starts a pairing, given the status of the request for a PIN: a fresh client id of sixteen
/// hexadecimal digits, and a fresh key pair.
pub fn start_pairing(base_url: &str, device_id: &str, pin_start_status: u16) -> (r: Result<
    LegacyPairingSession,
    RottenError,
>)
    ensures
        match r {
            Ok(s) => {
                &&& http_reply::success(pin_start_status)
                &&& s.base_url@ == base_url@
                &&& s.device_id@ == device_id@
                &&& s.client_id@.len() == 16
                &&& text::all_hex_digits(s.client_id@)
                &&& s.keypair.public_key@ == primitives::ed25519_public(s.keypair.private_key@)
            },
            Err(e) => !http_reply::success(pin_start_status) && e@ == ErrorView::Pairing(
                "pair-pin-start HTTP "@ + text::decimal(pin_start_status as nat),
            ),
        },
{
    if !http_reply::is_success(pin_start_status) {
        return Err(
            RottenError::Pairing(
                text::numbered("pair-pin-start HTTP ", pin_start_status as u64),
            ),
        );
    }
    let id_bytes = primitives::random_bytes(8);
    let client_id = codec::hex_encode(&id_bytes);
    assert(text::all_hex_digits(client_id@));
    let keypair = ed25519_pair::generate_ed25519_keypair();
    Ok(
        LegacyPairingSession {
            base_url: text::owned(base_url),
            device_id: text::owned(device_id),
            client_id,
            keypair,
        },
    )
}

/// The bytes that open a binary property list.
pub open spec fn list_mark() -> Seq<u8> {
    seq![0x62u8, 0x70, 0x6c, 0x69, 0x73, 0x74]
}

/// Position of the first mark from `i` on; the length where there is none.
pub open spec fn mark_position(b: Seq<u8>, i: int) -> int
    decreases b.len() - i,
{
    if i < 0 || i + 6 > b.len() {
        b.len() as int
    } else if b.subrange(i, i + 6) == list_mark() {
        i
    } else {
        mark_position(b, i + 1)
    }
}

/// The part of a body that is a property list: from the first mark on, or all of it.
pub open spec fn list_part(b: Seq<u8>) -> Seq<u8> {
    let i = mark_position(b, 0);
    if i < b.len() {
        b.skip(i)
    } else {
        b
    }
}

/// Cuts away what stands before the property list in a body.
pub fn extract_plist_body(b: &[u8]) -> (r: Vec<u8>)
    ensures
        r@ == list_part(b@),
{
    let mut i: usize = 0;
    while i < b.len() && b.len() - i >= 6
        invariant
            i <= b@.len(),
            mark_position(b@, 0) == mark_position(b@, i as int),
        decreases b.len() - i,
    {
        if b[i] == 0x62 && b[i + 1] == 0x70 && b[i + 2] == 0x6c && b[i + 3] == 0x69 && b[i + 4]
            == 0x73 && b[i + 5] == 0x74 {
            assert(b@.subrange(i as int, i + 6) =~= list_mark());
            assert(b@.subrange(i as int, b@.len() as int) =~= b@.skip(i as int));
            return bytes::sub_vec(b, i, b.len());
        }
        assert(b@.subrange(i as int, i + 6) != list_mark()) by {
            let w = b@.subrange(i as int, i + 6);
            assert(w[0] == b@[i as int] && w[1] == b@[i + 1] && w[2] == b@[i + 2] && w[3] == b@[i
                + 3] && w[4] == b@[i + 4] && w[5] == b@[i + 5]);
        }
        i += 1;
    }
    bytes::to_vec(b)
}

/// The dictionary in a reply, or what is wrong with it, given what reading the list gave.
pub open spec fn dict_outcome(
    step: Seq<char>,
    status: u16,
    body_len: nat,
    parsed: Result<PlistView, Seq<char>>,
) -> Result<PlistView, ErrorView> {
    let code = text::decimal(status as nat);
    if body_len == 0 {
        Err(
            ErrorView::Pairing(
                "pair-setup-pin "@ + step + " empty response (HTTP "@ + code + ")"@,
            ),
        )
    } else {
        match parsed {
            Err(t) => Err(
                ErrorView::Pairing(
                    "pair-setup-pin "@ + step + " plist decode: "@ + t + " (HTTP "@ + code
                        + ", bodyLen "@ + text::decimal(body_len) + ")"@,
                ),
            ),
            Ok(p) => if p is Dict {
                Ok(p)
            } else {
                Err(
                    ErrorView::Pairing(
                        "pair-setup-pin "@ + step + " expected plist dictionary"@,
                    ),
                )
            },
        }
    }
}

/// The contents of an outcome.
pub open spec fn view_dict(r: Result<Plist, RottenError>) -> Result<PlistView, ErrorView> {
    match r {
        Ok(p) => Ok(p@),
        Err(e) => Err(e@),
    }
}

/// The dictionary in a reply, given what reading its property list gave.
pub fn dict_of_parsed(
    step: &str,
    status: u16,
    body_len: usize,
    parsed: Result<Plist, String>,
) -> (r: Result<Plist, RottenError>)
    ensures
        view_dict(r) == dict_outcome(
            step@,
            status,
            body_len as nat,
            plist_value::view_parsed(parsed),
        ),
{
    let mut msg = error::labelled("pair-setup-pin ", step);
    if body_len == 0 {
        msg.append(" empty response (HTTP ");
        text::push_decimal(&mut msg, status as u64);
        msg.append(")");
        return Err(RottenError::Pairing(msg));
    }
    match parsed {
        Err(t) => {
            msg.append(" plist decode: ");
            msg.append(t.as_str());
            msg.append(" (HTTP ");
            text::push_decimal(&mut msg, status as u64);
            msg.append(", bodyLen ");
            text::push_decimal(&mut msg, body_len as u64);
            msg.append(")");
            Err(RottenError::Pairing(msg))
        },
        Ok(p) => {
            let is_dict = match &p {
                Plist::Dict(_) => true,
                _ => false,
            };
            if is_dict {
                Ok(p)
            } else {
                msg.append(" expected plist dictionary");
                Err(RottenError::Pairing(msg))
            }
        },
    }
}

/// Reads the dictionary in a reply.
pub fn read_reply(step: &str, reply: &HttpReply) -> (r: Result<Plist, RottenError>)
    ensures
        view_dict(r) == dict_outcome(
            step@,
            reply.status,
            reply.body@.len(),
            plist_value::read_outcome(list_part(reply.body@)),
        ),
{
    let part = extract_plist_body(&reply.body);
    let parsed = plist_value::read_plist(&part);
    dict_of_parsed(step, reply.status, reply.body.len(), parsed)
}

/// What writing a request gives.
pub open spec fn request_outcome(fields: Seq<(Seq<char>, plist_value::FieldView)>) -> Result<
    Seq<u8>,
    ErrorView,
> {
    match plist_value::written_plist(fields) {
        Ok(b) => Ok(b),
        Err(t) => Err(ErrorView::Pairing("plist encode: "@ + t)),
    }
}

/// The contents of an outcome.
pub open spec fn view_body(r: Result<Vec<u8>, RottenError>) -> Result<Seq<u8>, ErrorView> {
    match r {
        Ok(b) => Ok(b@),
        Err(e) => Err(e@),
    }
}

/// Writes the body of a request.
pub fn write_request(fields: &[(String, PlistField)]) -> (r: Result<Vec<u8>, RottenError>)
    ensures
        view_body(r) == request_outcome(plist_value::view_fields(fields@)),
{
    match plist_value::write_plist(fields) {
        Ok(b) => Ok(b),
        Err(t) => Err(RottenError::Pairing(error::labelled("plist encode: ", t.as_str()))),
    }
}

/// The fields of the first request.
pub open spec fn step1_fields(client_id: Seq<char>) -> Seq<(Seq<char>, plist_value::FieldView)> {
    seq![
        ("method"@, plist_value::FieldView::Text("pin"@)),
        ("user"@, plist_value::FieldView::Text(client_id)),
    ]
}

/// Two fields of data.
pub open spec fn data_fields(
    a: Seq<char>,
    a_data: Seq<u8>,
    b: Seq<char>,
    b_data: Seq<u8>,
) -> Seq<(Seq<char>, plist_value::FieldView)> {
    seq![
        (a, plist_value::FieldView::Data(a_data)),
        (b, plist_value::FieldView::Data(b_data)),
    ]
}

/// The first request.
pub fn step1_request(session: &LegacyPairingSession) -> (r: Result<Vec<u8>, RottenError>)
    ensures
        view_body(r) == request_outcome(step1_fields(session.client_id@)),
{
    let mut fields: Vec<(String, PlistField)> = Vec::new();
    fields.push((text::owned("method"), PlistField::Text(text::owned("pin"))));
    fields.push(
        (text::owned("user"), PlistField::Text(text::owned(session.client_id.as_str()))),
    );
    assert(plist_value::view_fields(fields@) =~= step1_fields(session.client_id@));
    write_request(&fields)
}

fn data_request(a: &str, a_data: Vec<u8>, b: &str, b_data: Vec<u8>) -> (r: Result<
    Vec<u8>,
    RottenError,
>)
    ensures
        view_body(r) == request_outcome(data_fields(a@, a_data@, b@, b_data@)),
{
    let ghost want = data_fields(a@, a_data@, b@, b_data@);
    let mut fields: Vec<(String, PlistField)> = Vec::new();
    fields.push((text::owned(a), PlistField::Data(a_data)));
    fields.push((text::owned(b), PlistField::Data(b_data)));
    assert(plist_value::view_fields(fields@) =~= want);
    write_request(&fields)
}

/// What the client computed from the server's challenge.
pub struct PinExchange {
    pub client_pk: Vec<u8>,
    pub proof_bytes: Vec<u8>,
    pub expected_server_proof: Vec<u8>,
    pub session_key: Vec<u8>,
}

/// What is wrong with the first reply.
pub open spec fn step1_fault(status: u16, dict: PlistView) -> Option<ErrorView> {
    if plist_value::data_entry(dict, "salt"@) is None {
        Some(ErrorView::Pairing("pair-setup-pin step1 missing salt"@))
    } else if plist_value::data_entry(dict, "pk"@) is None {
        Some(ErrorView::Pairing("pair-setup-pin step1 missing pk"@))
    } else if !http_reply::success(status) {
        Some(ErrorView::Pairing("pair-setup-pin step1 HTTP "@ + text::decimal(status as nat)))
    } else {
        None
    }
}

/// The client that answers the first reply.
pub open spec fn srp_view(client_id: Seq<char>, secret: nat, dict: PlistView) -> SrpView {
    SrpView {
        secret,
        server_public: bytes::be_value(plist_value::data_entry(dict, "pk"@)->0),
        username: client_id,
        salt: plist_value::data_entry(dict, "salt"@)->0,
        session_key: None,
    }
}

/// Whether `r` is the answer of a client with a given secret to the first reply.
pub open spec fn answers(
    client_id: Seq<char>,
    pin: Seq<char>,
    secret: nat,
    status: u16,
    dict: PlistView,
    r: Result<PinExchange, RottenError>,
) -> bool {
    let v = srp_view(client_id, secret, dict);
    match r {
        Ok(x) => {
            &&& step1_fault(status, dict) is None
            &&& v.usable(pin)
            &&& x.client_pk@ == v.a_nat()
            &&& x.proof_bytes@ == v.m1(pin)
            &&& x.expected_server_proof@ == v.m2(pin)
            &&& x.session_key@ == v.key(pin)
        },
        Err(e) => if step1_fault(status, dict) is Some {
            step1_fault(status, dict) == Some(e@)
        } else {
            !v.usable(pin) && e@ == ErrorView::Pairing("SRP: invalid server public key"@)
        },
    }
}

/// Answers the first reply with a given secret.
pub fn step2_exchange_with(
    client_id: &str,
    pin: &str,
    secret: &[u8],
    status: u16,
    dict: &Plist,
) -> (r: Result<PinExchange, RottenError>)
    ensures
        answers(client_id@, pin@, bytes::be_value(secret@), status, dict@, r),
{
    let salt = match plist_value::plist_bytes(dict, "salt") {
        Some(s) => s,
        None => return Err(error::pairing_error("pair-setup-pin step1 missing salt")),
    };
    let server_pk = match plist_value::plist_bytes(dict, "pk") {
        Some(k) => k,
        None => return Err(error::pairing_error("pair-setup-pin step1 missing pk")),
    };
    if !http_reply::is_success(status) {
        return Err(
            RottenError::Pairing(text::numbered("pair-setup-pin step1 HTTP ", status as u64)),
        );
    }
    let mut srp = LegacySrpClient::with_secret(secret, &salt, &server_pk, client_id);
    let ghost v = srp@;
    assert(v == srp_view(client_id@, bytes::be_value(secret@), dict@));
    let (proof_bytes, expected_server_proof) = match srp.authenticate(pin) {
        Ok(p) => p,
        Err(e) => {
            proof {
                reveal_strlit("SRP: ");
                reveal_strlit("invalid server public key");
                reveal_strlit("SRP: invalid server public key");
                assert("SRP: "@ + "invalid server public key"@
                    =~= "SRP: invalid server public key"@);
            }
            return Err(RottenError::Pairing(error::labelled("SRP: ", e.as_str())));
        },
    };
    let client_pk = srp.client_public();
    assert(srp@.a_nat() == v.a_nat());
    let session_key = match srp.session_key_hash() {
        Some(k) => bytes::to_vec(k),
        None => Vec::new(),
    };
    Ok(PinExchange { client_pk, proof_bytes, expected_server_proof, session_key })
}

/// Answers the first reply with a fresh secret.
pub fn step2_exchange(session: &LegacyPairingSession, pin: &str, status: u16, dict: &Plist) -> (r:
    Result<PinExchange, RottenError>)
    ensures
        exists|secret: nat|
            #[trigger] answers(session.client_id@, pin@, secret, status, dict@, r),
{
    let secret = primitives::random_bytes(32);
    step2_exchange_with(session.client_id.as_str(), pin, &secret, status, dict)
}

/// The second request.
pub fn step2_request(exchange: &PinExchange) -> (r: Result<Vec<u8>, RottenError>)
    ensures
        view_body(r) == request_outcome(
            data_fields("pk"@, exchange.client_pk@, "proof"@, exchange.proof_bytes@),
        ),
{
    data_request(
        "pk",
        bytes::to_vec(&exchange.client_pk),
        "proof",
        bytes::to_vec(&exchange.proof_bytes),
    )
}

/// What is wrong with the second reply.
pub open spec fn step2_fault(status: u16, dict: PlistView, expected: Seq<u8>) -> Option<ErrorView> {
    if !http_reply::success(status) {
        Some(
            ErrorView::Pairing(
                "pair-setup-pin step2 HTTP "@ + text::decimal(status as nat)
                    + " (wrong PIN or pairing not started on TV?)"@,
            ),
        )
    } else if plist_value::data_entry(dict, "proof"@) is None {
        Some(ErrorView::Pairing("pair-setup-pin step2 missing proof"@))
    } else if plist_value::data_entry(dict, "proof"@) != Some(expected) {
        Some(ErrorView::Pairing("SRP server proof mismatch (wrong PIN?)"@))
    } else {
        None
    }
}

/// Checks the server's proof in the second reply.
pub fn check_server_proof(status: u16, dict: &Plist, expected: &[u8]) -> (r: Result<
    (),
    RottenError,
>)
    ensures
        crate::crypto::pair_verify::fault_of(r) == step2_fault(status, dict@, expected@),
{
    if !http_reply::is_success(status) {
        return Err(
            RottenError::Pairing(
                http_reply::status_text(
                    "pair-setup-pin step2 HTTP ",
                    status,
                    " (wrong PIN or pairing not started on TV?)",
                ),
            ),
        );
    }
    match plist_value::plist_bytes(dict, "proof") {
        None => Err(error::pairing_error("pair-setup-pin step2 missing proof")),
        Some(p) => {
            if bytes::same_bytes(&p, expected) {
                Ok(())
            } else {
                Err(error::pairing_error("SRP server proof mismatch (wrong PIN?)"))
            }
        },
    }
}

/// Key of the cipher over the public keys.
pub open spec fn setup_aes_key(session_key: Seq<u8>) -> Seq<u8> {
    primitives::sha512(text::utf8("Pair-Setup-AES-Key"@) + session_key).take(16)
}

/// Initial vector that the cipher counts from.
pub open spec fn setup_aes_iv(session_key: Seq<u8>) -> Seq<u8> {
    primitives::sha512(text::utf8("Pair-Setup-AES-IV"@) + session_key).take(16)
}

/// `iv` with `n` added to its last byte, modulo 256.
pub open spec fn bumped(iv: Seq<u8>, n: int) -> Seq<u8> {
    iv.update(15, ((iv[15] + n) % 256) as u8)
}

fn derive_aes_key_iv(session_key: &[u8]) -> (r: ([u8; 16], [u8; 16]))
    ensures
        r.0@ == setup_aes_key(session_key@),
        r.1@ == setup_aes_iv(session_key@),
{
    let key_input = bytes::concat("Pair-Setup-AES-Key".as_bytes(), session_key);
    let iv_input = bytes::concat("Pair-Setup-AES-IV".as_bytes(), session_key);
    let key = primitives::sha512_digest(&key_input);
    let iv = primitives::sha512_digest(&iv_input);
    (bytes::array16(&key), bytes::array16(&iv))
}

#[verifier::rlimit(40)]
fn bump(iv: &[u8; 16]) -> (r: [u8; 16])
    ensures
        r@ == bumped(iv@, 1),
{
    let mut out: [u8; 16] = *iv;
    let last: u8 = if iv[15] == 255 {
        0
    } else {
        iv[15] + 1
    };
    assert(last == (iv@[15] + 1) % 256);
    out[15] = last;
    assert(out@ == iv@.update(15, last));
    out
}

/// The client's public key, encrypted for the server.
pub open spec fn sealed_public_key(session_key: Seq<u8>, public_key: Seq<u8>) -> Seq<u8> {
    primitives::gcm_sealed(
        setup_aes_key(session_key),
        bumped(setup_aes_iv(session_key), 1),
        public_key,
    )
}

/// The third request, once the second reply holds the expected proof.
pub fn step3_request(
    session: &LegacyPairingSession,
    exchange: &PinExchange,
    status: u16,
    dict: &Plist,
) -> (r: Result<Vec<u8>, RottenError>)
    ensures
        ({
            let sealed = sealed_public_key(
                exchange.session_key@,
                session.keypair.public_key@,
            );
            let fault = step2_fault(status, dict@, exchange.expected_server_proof@);
            view_body(r) == (if fault is Some {
                Err(fault->0)
            } else {
                request_outcome(
                    data_fields("epk"@, sealed.take(32), "authTag"@, sealed.skip(32)),
                )
            })
        }),
{
    match check_server_proof(status, dict, &exchange.expected_server_proof) {
        Err(e) => return Err(e),
        Ok(_) => {},
    }
    let (key, iv) = derive_aes_key_iv(&exchange.session_key);
    let iv1 = bump(&iv);
    match primitives::gcm_seal(&key, &iv1, &session.keypair.public_key) {
        None => Err(error::pairing_error("AES encrypt: aead::Error")),
        Some(sealed) => {
            let epk = bytes::sub_vec(&sealed, 0, 32);
            let tag = bytes::sub_vec(&sealed, 32, sealed.len());
            assert(epk@ =~= sealed@.take(32));
            assert(tag@ =~= sealed@.skip(32));
            data_request("epk", epk, "authTag", tag)
        },
    }
}

/// The server's public key in the third reply; nothing where it does not authenticate.
pub open spec fn opened_server_key(session_key: Seq<u8>, dict: PlistView) -> Option<Seq<u8>> {
    let sealed = plist_value::data_entry(dict, "epk"@)->0 + plist_value::data_entry(
        dict,
        "authTag"@,
    )->0;
    if sealed.len() > primitives::GCM_MAX_LEN {
        None
    } else {
        primitives::gcm_opened(
            setup_aes_key(session_key),
            bumped(setup_aes_iv(session_key), 2),
            sealed,
        )
    }
}

/// What is wrong with the third reply.
pub open spec fn step3_fault(status: u16, dict: PlistView, session_key: Seq<u8>) -> Option<
    ErrorView,
> {
    let key = opened_server_key(session_key, dict);
    if !http_reply::success(status) {
        Some(ErrorView::Pairing("pair-setup-pin step3 HTTP "@ + text::decimal(status as nat)))
    } else if plist_value::data_entry(dict, "epk"@) is None {
        Some(ErrorView::Pairing("pair-setup-pin step3 missing epk"@))
    } else if plist_value::data_entry(dict, "authTag"@) is None {
        Some(ErrorView::Pairing("pair-setup-pin step3 missing authTag"@))
    } else if key is None {
        Some(ErrorView::Pairing("server epk decrypt: aead::Error"@))
    } else if key->0.len() != 32 {
        Some(
            ErrorView::Pairing(
                "server public key has unexpected length "@ + text::decimal(key->0.len()),
            ),
        )
    } else {
        None
    }
}

/// Finishes a pairing with the third reply: the credentials hold the client's key pair and the
/// server's public key.
pub fn finish_pairing(
    session: LegacyPairingSession,
    exchange: &PinExchange,
    status: u16,
    dict: &Plist,
) -> (r: Result<DeviceCredentials, RottenError>)
    ensures
        match r {
            Ok(c) => {
                &&& step3_fault(status, dict@, exchange.session_key@) is None
                &&& c.device_id@ == session.device_id@
                &&& c.identifier@ == session.client_id@
                &&& c.public_key@ == session.keypair.public_key@
                &&& c.private_key@ == session.keypair.private_key@
                &&& Some(c.server_public_key@) == opened_server_key(
                    exchange.session_key@,
                    dict@,
                )
                &&& c.server_public_key@.len() == 32
            },
            Err(e) => step3_fault(status, dict@, exchange.session_key@) == Some(e@),
        },
        // A key that the server sealed with the session key comes back as it was.
        forall|key: Seq<u8>|
            http_reply::success(status) && key.len() == 32 && plist_value::data_entry(
                dict@,
                "epk"@,
            ) is Some && plist_value::data_entry(dict@, "authTag"@) is Some
                && plist_value::data_entry(dict@, "epk"@)->0 + plist_value::data_entry(
                dict@,
                "authTag"@,
            )->0 == #[trigger] primitives::gcm_sealed(
                setup_aes_key(exchange.session_key@),
                bumped(setup_aes_iv(exchange.session_key@), 2),
                key,
            ) && plist_value::data_entry(dict@, "epk"@)->0.len() + plist_value::data_entry(
                dict@,
                "authTag"@,
            )->0.len() <= primitives::GCM_MAX_LEN ==> (r matches Ok(c) && c.server_public_key@
                == key),
{
    if !http_reply::is_success(status) {
        return Err(
            RottenError::Pairing(text::numbered("pair-setup-pin step3 HTTP ", status as u64)),
        );
    }
    let mut sealed = match plist_value::plist_bytes(dict, "epk") {
        Some(k) => k,
        None => return Err(error::pairing_error("pair-setup-pin step3 missing epk")),
    };
    match plist_value::plist_bytes(dict, "authTag") {
        Some(t) => bytes::extend(&mut sealed, &t),
        None => return Err(error::pairing_error("pair-setup-pin step3 missing authTag")),
    }
    if sealed.len() as u64 > primitives::GCM_MAX_LEN {
        return Err(error::pairing_error("server epk decrypt: aead::Error"));
    }
    let (key, iv) = derive_aes_key_iv(&exchange.session_key);
    let iv2 = bump(&bump(&iv));
    assert(iv2@ =~= bumped(iv@, 2));
    let server_public_key = match primitives::gcm_open(&key, &iv2, &sealed) {
        Some(k) => k,
        None => return Err(error::pairing_error("server epk decrypt: aead::Error")),
    };
    if server_public_key.len() != 32 {
        return Err(
            RottenError::Pairing(
                text::numbered(
                    "server public key has unexpected length ",
                    server_public_key.len() as u64,
                ),
            ),
        );
    }
    Ok(
        DeviceCredentials {
            device_id: session.device_id,
            identifier: session.client_id,
            public_key: bytes::to_vec(&session.keypair.public_key),
            private_key: bytes::to_vec(&session.keypair.private_key),
            server_public_key,
        },
    )
}

/// The first reply is accepted exactly where it holds a salt and a public key as data and has a
/// status of success, and these are the ones that the exchange is made with.
pub proof fn law_first_reply_is_read(
    client_id: Seq<char>,
    secret: nat,
    status: u16,
    dict: PlistView,
    salt: Seq<u8>,
    key: Seq<u8>,
)
    requires
        plist_value::stands_under(dict, "salt"@, PlistView::Data(salt)),
        plist_value::stands_under(dict, "pk"@, PlistView::Data(key)),
    ensures
        step1_fault(status, dict) is None <==> 200 <= status < 300,
        srp_view(client_id, secret, dict).salt == salt,
        srp_view(client_id, secret, dict).server_public == bytes::be_value(key),
        srp_view(client_id, secret, dict).username == client_id,
        srp_view(client_id, secret, dict).secret == secret,
{
    plist_value::law_entry_is_first_of_its_key(dict, "salt"@);
    plist_value::law_entry_is_first_of_its_key(dict, "pk"@);
}

/// The second reply is accepted exactly where its proof is the expected one and its status one of
/// success.
pub proof fn law_second_reply_is_compared(
    status: u16,
    dict: PlistView,
    server: Seq<u8>,
    expected: Seq<u8>,
)
    requires
        plist_value::stands_under(dict, "proof"@, PlistView::Data(server)),
    ensures
        step2_fault(status, dict, expected) is None <==> 200 <= status < 300 && server == expected,
{
    plist_value::law_entry_is_first_of_its_key(dict, "proof"@);
}

/// The key and the counter that the sender's public key is sealed with, and the counter after that
/// for the receiver's: the last byte of the counter goes on by one each time, and all others stay.
pub proof fn law_setup_keys(session_key: Seq<u8>, public_key: Seq<u8>, iv: Seq<u8>)
    requires
        iv.len() == 16,
    ensures
        setup_aes_key(session_key) == primitives::sha512(
            vstd::utf8::encode_utf8("Pair-Setup-AES-Key"@) + session_key,
        ).take(16),
        setup_aes_iv(session_key) == primitives::sha512(
            vstd::utf8::encode_utf8("Pair-Setup-AES-IV"@) + session_key,
        ).take(16),
        sealed_public_key(session_key, public_key) == primitives::gcm_sealed(
            setup_aes_key(session_key),
            bumped(setup_aes_iv(session_key), 1),
            public_key,
        ),
        bumped(iv, 1).len() == 16,
        forall|i: int| 0 <= i < 15 ==> #[trigger] bumped(iv, 1)[i] == iv[i],
        bumped(iv, 1)[15] == (if iv[15] == 255 {
            0int
        } else {
            iv[15] + 1
        }),
        bumped(iv, 2) == bumped(bumped(iv, 1), 1),
{
    assert(bumped(iv, 2) =~= bumped(bumped(iv, 1), 1));
}

/// The receiver's key is opened from the sealed key and its tag, in this order.
pub proof fn law_third_reply_is_opened(
    session_key: Seq<u8>,
    dict: PlistView,
    epk: Seq<u8>,
    tag: Seq<u8>,
)
    requires
        plist_value::stands_under(dict, "epk"@, PlistView::Data(epk)),
        plist_value::stands_under(dict, "authTag"@, PlistView::Data(tag)),
        epk.len() + tag.len() <= 68719411200,
    ensures
        opened_server_key(session_key, dict) == primitives::gcm_opened(
            setup_aes_key(session_key),
            bumped(setup_aes_iv(session_key), 2),
            epk + tag,
        ),
        forall|status: u16|
            #[trigger] step3_fault(status, dict, session_key) is None <==> 200 <= status < 300
                && opened_server_key(session_key, dict) is Some && opened_server_key(
                session_key,
                dict,
            )->0.len() == 32,
{
    plist_value::law_entry_is_first_of_its_key(dict, "epk"@);
    plist_value::law_entry_is_first_of_its_key(dict, "authTag"@);
}

/// What stands before the property list in a reply is skipped, whatever it is, and everything from
/// its mark on is kept.
pub proof fn law_list_is_cut_out(b: Seq<u8>)
    ensures
        ({
            let r = list_part(b);
            &&& r.len() <= b.len()
            &&& r == b.skip(b.len() - r.len())
            &&& forall|i: int|
                0 <= i && i + 6 <= b.len() && #[trigger] b.subrange(i, i + 6) == seq![
                    98u8,
                    112,
                    108,
                    105,
                    115,
                    116,
                ] ==> b.len() - r.len() <= i && r.take(6) == list_mark()
        }),
{
    let at = lemma_mark_position(b, 0);
    let r = list_part(b);
    if at < b.len() {
        assert(r =~= b.skip(at));
        assert(r.take(6) =~= b.subrange(at, at + 6));
    } else {
        assert(b.skip(0) =~= b);
    }
}

proof fn lemma_mark_position(b: Seq<u8>, from: int) -> (at: int)
    requires
        0 <= from,
    ensures
        at == mark_position(b, from),
        from <= at || at == b.len(),
        at < b.len() ==> at + 6 <= b.len() && b.subrange(at, at + 6) == list_mark(),
        forall|i: int|
            from <= i < at && i + 6 <= b.len() ==> #[trigger] b.subrange(i, i + 6) != list_mark(),
        at <= b.len(),
    decreases b.len() - from,
{
    if from + 6 > b.len() {
        b.len() as int
    } else if b.subrange(from, from + 6) == list_mark() {
        from
    } else {
        lemma_mark_position(b, from + 1)
    }
}
/// What the requests hold: the first one the method and the user, the others two pieces of data
/// each, under their keys.
pub proof fn law_requests_hold(client_id: Seq<char>, a: Seq<char>, x: Seq<u8>, b: Seq<char>, y: Seq<u8>)
    ensures
        step1_fields(client_id).len() == 2,
        step1_fields(client_id).contains(("method"@, plist_value::FieldView::Text("pin"@))),
        step1_fields(client_id).contains(("user"@, plist_value::FieldView::Text(client_id))),
        data_fields(a, x, b, y).len() == 2,
        data_fields(a, x, b, y).contains((a, plist_value::FieldView::Data(x))),
        data_fields(a, x, b, y).contains((b, plist_value::FieldView::Data(y))),
{
    let s = step1_fields(client_id);
    assert(s[0] == ("method"@, plist_value::FieldView::Text("pin"@)));
    assert(s[1] == ("user"@, plist_value::FieldView::Text(client_id)));
    let d = data_fields(a, x, b, y);
    assert(d[0] == (a, plist_value::FieldView::Data(x)));
    assert(d[1] == (b, plist_value::FieldView::Data(y)));
}

/// The dictionary of a reply is taken from any body that holds one, whatever the status, and from
/// no other.
pub proof fn law_dictionary_is_taken(
    step: Seq<char>,
    status: u16,
    body_len: nat,
    p: PlistView,
    t: Seq<char>,
)
    ensures
        dict_outcome(step, status, body_len, Ok(p)) == Ok::<PlistView, ErrorView>(p) <==> body_len > 0
            && p is Dict,
        dict_outcome(step, status, body_len, Err(t)) is Err,
{
}
/// The answer to a first reply is made with the salt and the public key in it, the PIN as it was
/// given and the client's own id, and tells the proof that the server has to give.
pub proof fn law_answer_is_made(
    client_id: Seq<char>,
    pin: Seq<char>,
    secret: nat,
    status: u16,
    dict: PlistView,
    r: Result<PinExchange, RottenError>,
    salt: Seq<u8>,
    key: Seq<u8>,
)
    requires
        answers(client_id, pin, secret, status, dict, r),
        plist_value::stands_under(dict, "salt"@, PlistView::Data(salt)),
        plist_value::stands_under(dict, "pk"@, PlistView::Data(key)),
    ensures
        ({
            let v = SrpView {
                secret,
                server_public: bytes::be_value(key),
                username: client_id,
                salt,
                session_key: None,
            };
            &&& r is Ok <==> 200 <= status < 300 && v.usable(pin)
            &&& r matches Ok(x) ==> x.client_pk@ == v.a_nat() && x.session_key@ == v.key(pin)
            &&& r matches Ok(x) ==> x.proof_bytes@ == v.m1(pin) && x.expected_server_proof@ == v.m2(
                pin,
            )
        }),
{
    law_first_reply_is_read(client_id, secret, status, dict, salt, key);
}
} // verus!
