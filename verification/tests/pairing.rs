//! Pairing with a receiver.

use rottingapple::config::{CredentialsStore, DeviceCredentials};
use rottingapple::crypto::ed25519_pair::Ed25519KeyPair;
use rottingapple::crypto::srp::SrpClient;
use rottingapple::error::RottenError;
use rottingapple::http_reply::HttpReply;
use rottingapple::pairing::credentials::{format_pin, PairingManager};
use rottingapple::pairing::homekit::{
    answer_m2, check_m4, device_auth_header, finish_pairing as finish_hap, m1_body, m3_body,
    m5_body, new_identifier, read_m2, start_pairing as start_hap, PairingSession,
};
use rottingapple::pairing::legacy_pin::{
    check_server_proof, dict_of_parsed, extract_plist_body, finish_pairing, pin_start_url,
    read_reply, start_pairing, step1_request, step2_exchange, step2_exchange_with, step2_request,
    step3_request, LegacyPairingSession, PinExchange,
};
use rottingapple::pairing::tlv::{decode, encode, TlvType};
use rottingapple::plist_value::Plist;

fn bytes(hex_text: &str) -> Vec<u8> {
    hex::decode(hex_text).unwrap()
}

#[test]
fn tlv_roundtrip() {
    let entries = [(TlvType::State, &[1u8][..]), (TlvType::Method, &[0u8, 1u8][..])];
    let encoded = encode(&entries);
    let decoded = decode(&encoded);
    assert_eq!(decoded.get(&6), Some(&vec![1]));
    assert_eq!(decoded.get(&0), Some(&vec![0, 1]));
}

#[test]
fn tlv_splits_long_values() {
    let long = vec![7u8; 600];
    let e = encode(&[(TlvType::PublicKey, &long), (TlvType::Proof, &[])]);
    assert_eq!(e.len(), 600 + 6);
    assert_eq!((e[0], e[1], e[257], e[258], e[514], e[515]), (3, 255, 3, 255, 3, 90));
    let d = decode(&e);
    assert_eq!(d.get(&3), Some(&long));
    assert_eq!(d.get(&4), None);
}

#[test]
fn tlv_stops_at_a_broken_record() {
    let d = decode(&[6, 1, 9, 3, 5, 1, 2]);
    assert_eq!(d.len(), 1);
    assert_eq!(d.get(&6), Some(&vec![9]));
    assert!(decode(&[6]).is_empty());
    assert_eq!(u8::from(TlvType::Separator), 255);
    assert_eq!(TlvType::Signature.code(), 10);
}

#[test]
fn pin_digits() {
    assert_eq!(format_pin("1234").unwrap(), "1234");
    assert_eq!(format_pin(" 12 34 56 ").unwrap(), "123456");
    assert_eq!(
        format_pin("abc").unwrap_err().message(),
        "pairing error: PIN must be 4 or 6 digits, got 0"
    );
}

fn creds(id: &str) -> DeviceCredentials {
    DeviceCredentials {
        device_id: id.to_string(),
        identifier: "ident".to_string(),
        public_key: vec![1; 32],
        private_key: vec![2; 32],
        server_public_key: vec![3; 32],
    }
}

#[test]
fn manager_reuses_what_it_has() {
    let mut m = PairingManager::load(Ok(CredentialsStore::default()), "/c".to_string()).unwrap();
    assert_eq!(m.path(), "/c");
    assert!(!m.has_credentials("a"));
    assert!(m.reusable("a", false).is_none());
    let refused = m.pair(Err(RottenError::Pairing("no".to_string())));
    assert_eq!(refused.unwrap_err().message(), "pairing error: no");
    assert!(!m.has_credentials("a"));
    let paired = m.pair(Ok(creds("a"))).unwrap();
    assert_eq!((paired.device_id.as_str(), paired.private_key), ("a", vec![2; 32]));
    assert!(m.has_credentials("a"));
    assert!(m.reusable("a", false).is_some());
    assert!(m.reusable("a", true).is_none());
    assert_eq!(m.get_credentials("a").unwrap().identifier, "ident");
    assert_eq!(m.store().devices.len(), 1);
    m.remove("a");
    assert!(!m.has_credentials("a"));
    let e = PairingManager::load(Err(RottenError::Io("x".to_string())), String::new());
    assert!(e.is_err());
}

fn session() -> LegacyPairingSession {
    LegacyPairingSession {
        base_url: "http://tv:7000".to_string(),
        device_id: "AA".to_string(),
        client_id: "366B4165DD64AD3A".to_string(),
        keypair: Ed25519KeyPair { public_key: [5; 32], private_key: [6; 32] },
    }
}

#[test]
fn pairing_starts_when_the_pin_is_shown() {
    assert_eq!(pin_start_url("http://tv:7000"), "http://tv:7000/pair-pin-start");
    let s = start_pairing("http://tv:7000", "AA", 200).unwrap();
    assert_eq!((s.base_url.as_str(), s.device_id.as_str()), ("http://tv:7000", "AA"));
    assert_eq!(s.client_id.len(), 16);
    assert!(s.client_id.chars().all(|c| c.is_ascii_hexdigit()));
    assert_ne!(s.keypair.public_key, s.keypair.private_key);
    match start_pairing("http://tv:7000", "AA", 470) {
        Err(e) => assert_eq!(e.message(), "pairing error: pair-pin-start HTTP 470"),
        Ok(_) => panic!("started"),
    }
}

fn dict(entries: Vec<(&str, Vec<u8>)>) -> Plist {
    Plist::Dict(entries.into_iter().map(|(k, v)| (k.to_string(), Plist::Data(v))).collect())
}

const SERVER_PUBLIC: &str = "4b91cd6d9c91bd7e6ac7026ebc69b8a027403a11a074e853c9d84cbf5be5f9f2638b94af\
32f04ccd9eaff324e94868daa797e479f23bce56ab267fa67cc96458b0b1752d8cca91b87fb3f6f9cc3d7fecfff065f68368\
4d8a7cf3f962c96ab311e05bb91b5d949d6f8ef9a7758f2b156e2a1e17e5ac5ee15430e0bc1b4778715aba1eefae186645d2\
7dd1227851199a605f768882f433d25512263e922e33e6a71c7f12cf73a54b1f106ae08f03f6c941ec9d4b210837bf0dd378\
cbbc1d2fc84dc56204dbb3a38eebfe49c0861c3a930d881c76b359244c2c40123446ce39dae0e90a7ec27d55438a3b9d68d2\
d9c30b731ca39db15a74ee2735ee68ce60714939";

fn step1_reply() -> Plist {
    dict(vec![("salt", (0..16).collect()), ("pk", bytes(SERVER_PUBLIC))])
}

fn exchange() -> PinExchange {
    let secret: Vec<u8> = (1..33).collect();
    step2_exchange_with("366B4165DD64AD3A", "1234", &secret, 200, &step1_reply()).unwrap()
}

#[test]
fn pin_exchange_with_known_values() {
    let x = exchange();
    assert_eq!(x.client_pk[..4], [0x63, 0x0a, 0xcd, 0xff]);
    assert_eq!(x.proof_bytes, bytes("89649aa33d515d098e4c146cfbc1fd93d8165fec"));
    assert_eq!(x.expected_server_proof, bytes("7ce2ed121eab2a9e8b2032b58d39bdff8ce9f46b"));
    assert_eq!(x.session_key.len(), 40);
    let fresh = step2_exchange(&session(), "1234", 200, &step1_reply()).unwrap();
    assert_ne!(fresh.client_pk, x.client_pk);
}

fn reply_of(body: Vec<u8>) -> Plist {
    read_reply("step1", &HttpReply { status: 200, body }).unwrap()
}

fn data_of(p: &Plist, key: &str) -> Vec<u8> {
    match p.get(key) {
        Some(Plist::Data(d)) => d.clone(),
        _ => panic!("no data"),
    }
}

#[test]
fn pin_requests_are_binary_property_lists() {
    let first = step1_request(&session()).unwrap();
    assert!(first.starts_with(b"bplist00"));
    let p = reply_of(first);
    assert!(matches!(p.get("method"), Some(Plist::Text(s)) if s == "pin"));
    assert!(matches!(p.get("user"), Some(Plist::Text(s)) if s == "366B4165DD64AD3A"));
    let x = exchange();
    let second = reply_of(step2_request(&x).unwrap());
    assert_eq!(data_of(&second, "pk"), x.client_pk);
    assert_eq!(data_of(&second, "proof"), x.proof_bytes);
}

#[test]
fn pin_exchange_to_its_end() {
    let x = exchange();
    let reply = dict(vec![("proof", x.expected_server_proof.clone())]);
    let third = reply_of(step3_request(&session(), &x, 200, &reply).unwrap());
    assert_eq!(
        data_of(&third, "epk"),
        bytes("c602c28e995a3226ef0d89935dbb3a9d260ca39f8f6ffe89fd5e082bf6940f7f")
    );
    assert_eq!(data_of(&third, "authTag"), bytes("997b58af4559a19d98968f99f12fcdde"));
    let last = dict(vec![
        ("epk", bytes("8484b315f435c1eb08da9f2d1782210e95f68238d2f2691df79c975ab7f7fb04")),
        ("authTag", bytes("e1d4bed05d6efcf774e35b8755c95be0")),
    ]);
    let c = finish_pairing(session(), &x, 200, &last).unwrap();
    assert_eq!((c.device_id.as_str(), c.identifier.as_str()), ("AA", "366B4165DD64AD3A"));
    assert_eq!((c.public_key, c.private_key), (vec![5; 32], vec![6; 32]));
    assert_eq!(c.server_public_key, vec![9; 32]);
}

fn said<T>(r: Result<T, RottenError>) -> String {
    match r {
        Ok(_) => panic!("no error"),
        Err(e) => e.message(),
    }
}

#[test]
fn pin_exchange_faults() {
    let x = exchange();
    let s = session();
    let secret = [1u8];
    let step2 = |status: u16, d: Plist| said(step2_exchange_with("u", "1234", &secret, status, &d));
    assert_eq!(step2(200, dict(vec![])), "pairing error: pair-setup-pin step1 missing salt");
    assert_eq!(
        step2(200, dict(vec![("salt", vec![1])])),
        "pairing error: pair-setup-pin step1 missing pk"
    );
    assert_eq!(step2(404, step1_reply()), "pairing error: pair-setup-pin step1 HTTP 404");
    assert_eq!(
        said(check_server_proof(470, &dict(vec![]), &x.expected_server_proof)),
        "pairing error: pair-setup-pin step2 HTTP 470 (wrong PIN or pairing not started on TV?)"
    );
    assert_eq!(
        said(check_server_proof(200, &dict(vec![]), &x.expected_server_proof)),
        "pairing error: pair-setup-pin step2 missing proof"
    );
    assert_eq!(
        said(step3_request(&s, &x, 200, &dict(vec![("proof", vec![1])]))),
        "pairing error: SRP server proof mismatch (wrong PIN?)"
    );
    assert_eq!(
        said(finish_pairing(session(), &x, 500, &dict(vec![]))),
        "pairing error: pair-setup-pin step3 HTTP 500"
    );
    assert_eq!(
        said(finish_pairing(session(), &x, 200, &dict(vec![]))),
        "pairing error: pair-setup-pin step3 missing epk"
    );
    assert_eq!(
        said(finish_pairing(session(), &x, 200, &dict(vec![("epk", vec![0; 32])]))),
        "pairing error: pair-setup-pin step3 missing authTag"
    );
    assert_eq!(
        said(finish_pairing(
            session(),
            &x,
            200,
            &dict(vec![("epk", vec![0; 32]), ("authTag", vec![0; 16])])
        )),
        "pairing error: server epk decrypt: aead::Error"
    );
}

#[test]
fn replies_with_and_without_a_list() {
    assert_eq!(extract_plist_body(b"RTSP bplist00x"), b"bplist00x".to_vec());
    assert_eq!(extract_plist_body(b"none"), b"none".to_vec());
    assert_eq!(
        said(read_reply("step2", &HttpReply { status: 503, body: vec![] })),
        "pairing error: pair-setup-pin step2 empty response (HTTP 503)"
    );
    assert_eq!(
        said(read_reply("step2", &HttpReply { status: 200, body: b"nonsense".to_vec() })),
        "pairing error: pair-setup-pin step2 expected plist dictionary"
    );
    let bad = said(read_reply("step2", &HttpReply { status: 200, body: b"bplist00".to_vec() }));
    assert!(bad.starts_with("pairing error: pair-setup-pin step2 plist decode: "));
    assert!(bad.ends_with(" (HTTP 200, bodyLen 8)"));
    assert_eq!(
        said(dict_of_parsed("step3", 200, 5, Ok(Plist::Boolean(true)))),
        "pairing error: pair-setup-pin step3 expected plist dictionary"
    );
    assert_eq!(
        said(dict_of_parsed("step3", 200, 5, Err("bad".to_string()))),
        "pairing error: pair-setup-pin step3 plist decode: bad (HTTP 200, bodyLen 5)"
    );
}

fn hap() -> PairingSession {
    PairingSession {
        device_id: "AA".to_string(),
        salt: vec![1; 16],
        server_pub: vec![0],
        srp: SrpClient::with_secret(&[23], &[5]),
        keypair: Ed25519KeyPair { public_key: [5; 32], private_key: [6; 32] },
    }
}

#[test]
fn homekit_messages() {
    assert_eq!(m1_body(), vec![0, 1, 0, 6, 1, 1]);
    assert_eq!(m3_body(&[9], &[8, 7]), vec![6, 1, 3, 3, 1, 9, 4, 2, 8, 7]);
    let m5 = m5_body("id", &[4]);
    assert_eq!(m5, vec![6, 1, 5, 5, 7, 1, 2, b'i', b'd', 3, 1, 4]);
    let (salt, public) = read_m2(200, &[2, 1, 1, 3, 1, 2]).unwrap();
    assert_eq!((salt, public), (vec![1], vec![2]));
    check_m4(&[4, 2, 8, 7], &[8, 7]).unwrap();
    let id = new_identifier();
    assert_eq!(id.len(), 36);
    for (i, c) in id.chars().enumerate() {
        match i {
            8 | 13 | 18 | 23 => assert_eq!(c, '-'),
            14 => assert_eq!(c, '4'),
            19 => assert!(matches!(c, '8' | '9' | 'a' | 'b')),
            _ => assert!(c.is_ascii_digit() || ('a'..='f').contains(&c)),
        }
    }
    assert_ne!(id, new_identifier());
}

#[test]
fn homekit_faults() {
    assert_eq!(said(read_m2(500, &[])), "pairing error: M2 HTTP 500");
    assert_eq!(said(read_m2(200, &[7, 1, 6])), "pairing error: M2 pairing error TLV: 6");
    assert_eq!(said(read_m2(200, &[])), "pairing error: M2 missing salt");
    assert_eq!(said(read_m2(200, &[2, 1, 1])), "pairing error: M2 missing server public key");
    assert_eq!(said(check_m4(&[], &[1])), "pairing error: M4 missing server proof");
    assert_eq!(said(check_m4(&[4, 1, 2], &[1])), "pairing error: SRP server proof mismatch");
    assert_eq!(
        said(finish_hap(hap(), "id".to_string(), 500, "500 Internal Server Error")),
        "pairing error: M5 failed: 500 Internal Server Error"
    );
    let c = finish_hap(hap(), "id".to_string(), 200, "200 OK").unwrap();
    assert_eq!((c.device_id.as_str(), c.identifier.as_str()), ("AA", "id"));
    assert!(c.server_public_key.is_empty());
}

#[test]
fn homekit_challenge() {
    let mut s = hap();
    s.server_pub = vec![22];
    let (body, expected) = answer_m2(&s, "1234").unwrap();
    assert_eq!(expected.len(), 64);
    let records = decode(&body);
    assert_eq!(records.get(&6), Some(&vec![3]));
    let mut public = vec![0; 384];
    public[383] = 20;
    assert_eq!(records.get(&3), Some(&public));
    assert_eq!(records.get(&4).map(|p| p.len()), Some(64));
    assert_ne!(records.get(&4), Some(&expected));
    let (other, _) = answer_m2(&s, "1235").unwrap();
    assert_ne!(other, body);
}

#[test]
fn homekit_start() {
    let s = start_hap("AA", &[23], 200, &[2, 1, 1, 3, 1, 22]).ok().unwrap();
    assert_eq!((s.device_id.as_str(), s.salt.clone(), s.server_pub.clone()), ("AA", vec![1], vec![22]));
    assert_ne!(s.keypair.public_key, s.keypair.private_key);
    assert_eq!(s.srp.client_public().len(), 384);
    assert!(answer_m2(&s, "1234").is_some());
    let e = start_hap("AA", &[23], 503, &[]).err().unwrap();
    assert_eq!(e.message(), "pairing error: M2 HTTP 503");
}

#[test]
fn auth_header_is_base64() {
    let mut c = creds("a");
    c.identifier = "abcd".to_string();
    c.public_key = vec![0xff, 0xfe];
    assert_eq!(
        device_auth_header(&c),
        "X-Apple-Device-ID: YWJjZA==\r\nX-Apple-Device-Public-Key: //4="
    );
}
