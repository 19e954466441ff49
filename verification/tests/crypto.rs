//! Ciphers, key derivation and key agreement.

use chacha20poly1305::aead::{Aead, KeyInit, Payload};
use chacha20poly1305::{ChaCha20Poly1305, Nonce};
use rottingapple::config::MirrorCipherMode;
use rottingapple::crypto::chacha::StreamCipher;
use rottingapple::crypto::chacha64::seal;
use rottingapple::crypto::ed25519_pair::generate_ed25519_keypair;
use rottingapple::crypto::fairplay::{FairPlaySap, StubSapProvider};
use rottingapple::crypto::fairplay_setup::{
    build_ekey, ekey_with, fpsap_failure, fpsap_hash_from_output, fpsap_input, FairPlaySession,
};
use rottingapple::crypto::hkdf_keys::{derive_data_stream_chacha_key, derive_session_keys};
use rottingapple::crypto::legacy_srp::{ng_2048, LegacySrpClient};
use rottingapple::crypto::mirror_aes::{as_unsigned, derive_mirror_video_keys, MirrorAesCtr};
use rottingapple::crypto::mirror_crypto::MirrorVideoCrypto;
use rottingapple::crypto::numeral::{is_zero, to_natural};
use rottingapple::crypto::pair_verify::{
    pair_verify_step1, pair_verify_step1_with, pair_verify_step2,
};
use rottingapple::crypto::srp::{generate_salt, SrpClient};

fn bytes(hex_text: &str) -> Vec<u8> {
    hex::decode(hex_text).unwrap()
}

fn array<const N: usize>(hex_text: &str) -> [u8; N] {
    bytes(hex_text).try_into().unwrap()
}

#[test]
fn chacha_roundtrip() {
    let key = [7u8; 32];
    let mut enc = StreamCipher::new(&key);
    let mut dec = StreamCipher::new(&key);
    let pt = b"hello airplay";
    let ct = enc.encrypt(pt, b"aad").unwrap();
    let out = dec.decrypt(&ct, b"aad").unwrap();
    assert_eq!(out, pt);
}

#[test]
fn chacha_numbers_its_messages() {
    let mut enc = StreamCipher::new(&[7u8; 32]);
    assert!(enc.has_room());
    assert_eq!(
        enc.encrypt(b"hello airplay", b"aad").unwrap(),
        bytes("5fe145600f4b6594b2026861b06710ec916687c557c1ff64434a938542")
    );
    assert_eq!(
        enc.encrypt(b"hello airplay", b"aad").unwrap(),
        bytes("d2365c0c4a56d033c7ae3078227fa87239b35f7ec67368ef4ca46bbb08")
    );
}

#[test]
fn chacha_refuses_a_changed_message() {
    let mut enc = StreamCipher::new(&[7u8; 32]);
    let mut ct = enc.encrypt(b"hello", b"aad").unwrap();
    let mut dec = StreamCipher::new(&[7u8; 32]);
    ct[0] ^= 1;
    assert_eq!(
        dec.decrypt(&ct, b"aad").unwrap_err().message(),
        "crypto error: decrypt: aead::Error"
    );
    let mut short = StreamCipher::new(&[7u8; 32]);
    assert!(short.decrypt(&[1, 2, 3], b"").is_err());
}

#[test]
fn chacha_header_is_associated_data() {
    let header = [9u8; 128];
    let mut a = StreamCipher::new(&[7u8; 32]);
    let mut b = StreamCipher::new(&[7u8; 32]);
    let sealed = a.encrypt_mirror_vcl(b"picture", &header).unwrap();
    assert_eq!(b.decrypt(&sealed, &header).unwrap(), b"picture");
}

#[test]
fn roundtrip_matches_aead_chacha20poly1305_layout() {
    let key = [0x42u8; 32];
    let nonce = [0x11u8; 8];
    let aad = [0x90u8, 0x78, 0x56, 0x34, 0x12, 0xef, 0xcd, 0xab];
    let plaintext = b"doubletake mirrored audio";
    let sealed = seal(&key, &nonce, plaintext, &aad);
    assert_eq!(sealed.len(), plaintext.len() + 16);
    assert_eq!(
        sealed,
        bytes("db24527c399fa97d9b5092d746281745419214246e30044edaca60fc0444283e94c06d90486ecfe776")
    );
}

#[test]
fn ietf_zero_prefix_matches_for_small_counter() {
    let key = [0x35u8; 32];
    let nonce8 = [0x12u8; 8];
    let aad = [0xaau8, 0xbb, 0xcc, 0xdd, 0xee, 0xff, 0x00, 0x11];
    let plaintext = b"original 64-bit nonce variant";

    let legacy = seal(&key, &nonce8, plaintext, &aad);
    let ietf = ChaCha20Poly1305::new(&key.into());
    let mut nonce12 = [0u8; 12];
    nonce12[4..].copy_from_slice(&nonce8);
    let ietf_sealed = ietf
        .encrypt(Nonce::from_slice(&nonce12), Payload { msg: plaintext, aad: &aad })
        .unwrap();
    assert_eq!(legacy, ietf_sealed);
}

#[test]
fn numbered_messages_are_sealed_with_their_number() {
    let key = [0x35u8; 32];
    let mut cipher = StreamCipher::new(&key);
    for n in 0u64..3 {
        let text = [n as u8; 70];
        let sealed = cipher.encrypt(&text, b"aad").unwrap();
        assert_eq!(sealed, seal(&key, &n.to_le_bytes(), &text, b"aad"));
    }
}

#[test]
fn m3_prefix_matches_apple_tv_header() {
    let prefix = FairPlaySession::m3_prefix();
    assert_eq!(prefix.len(), 144);
    assert_eq!(&prefix[0..4], b"FPLY");
    assert_eq!(prefix[12], 0x03);
    assert_eq!(prefix[16], 0x99);
}

#[test]
fn ng_2048_is_256_bytes() {
    assert_eq!(ng_2048().len(), 256);
    assert_eq!(to_natural(&ng_2048()).len(), 256);
}

#[test]
fn derive_keys_deterministic() {
    let shk = [0x11u8; 16];
    let (k1, iv1) = derive_mirror_video_keys(&shk, 42);
    let (k2, iv2) = derive_mirror_video_keys(&shk, 42);
    assert_eq!(k1, k2);
    assert_eq!(iv1, iv2);
    assert_ne!(k1, iv1);
    assert_eq!(k1, array("2916d6fa557b4997ee2c5b0b7de90a08"));
    assert_eq!(iv1, array("e94b4b5c77ed03484d6ebef474125159"));
}

#[test]
fn negative_stream_ids_count_from_the_top() {
    assert_eq!(as_unsigned(-1), u64::MAX);
    assert_eq!(as_unsigned(5), 5);
    let (key, _) = derive_mirror_video_keys(&[0x11; 16], -1);
    assert_eq!(key, array("397da74bc2745ab28c16b9b5aac06739"));
}

#[test]
fn encrypt_preserves_length() {
    let key = [0u8; 16];
    let iv = [1u8; 16];
    let mut c = MirrorAesCtr::new(&key, &iv);
    for len in [1, 15, 16, 17, 32, 100, 1352] {
        let plain = vec![0xABu8; len];
        let enc = c.encrypt_frame(&plain);
        assert_eq!(enc.len(), len);
    }
}

#[test]
fn frames_share_one_keystream() {
    let keystream = bytes(
        "e14d5d0ee27715df08b4152ba23da8e0285bf1072abbe88d4347faa6502e69386c25c160d743b2b61e1e478a13\
         0dec699262bef86b855df3414911d72413573c",
    );
    let mut c = MirrorAesCtr::new(&[0; 16], &[1; 16]);
    assert!(c.has_room(64));
    let mut out = c.encrypt_frame(&[0; 20]);
    out.extend(c.encrypt_frame(&[0; 5]));
    out.extend(c.encrypt_frame(&[0; 7]));
    out.extend(c.encrypt_frame(&[0; 16]));
    assert_eq!(out[..25], keystream[..25]);
    // A frame that ends inside a block that an earlier frame opened leaves the rest unused.
    assert_eq!(out[25..32], keystream[32..39]);
    assert_eq!(out[32..41], keystream[39..48]);
    assert_eq!(out[41..48], keystream[48..55]);
}

#[test]
fn decryption_is_encryption() {
    let mut a = MirrorAesCtr::new(&[3; 16], &[4; 16]);
    let mut b = MirrorAesCtr::new(&[3; 16], &[4; 16]);
    for len in [5, 40, 3, 16, 1] {
        let plain: Vec<u8> = (0..len).map(|i| i as u8).collect();
        assert_eq!(b.encrypt_frame(&a.encrypt_frame(&plain)), plain);
    }
}

#[test]
fn derived_keys_have_known_values() {
    assert_eq!(
        derive_data_stream_chacha_key(&[7; 32], 42),
        array("dd5038177f782a5e9c0b2aed6db40b15268255e3938a51192119ede64d0b61de")
    );
    let (control, stream) = derive_session_keys(&[7; 32], b"AirPlay-Salt", b"AirPlay-Stream");
    assert_eq!(
        control,
        array("fbcacbb2493731707a7a572d5cd21177eb2cac28c7419329e32b1c5f624c0a53")
    );
    assert_eq!(
        stream,
        array("8236ea159b2d200f6c25d88f3faefda2947d0f702f5c1d562628e352c5e407f4")
    );
}

#[test]
fn video_encryption_by_mode() {
    let none = MirrorVideoCrypto::from_setup(MirrorCipherMode::ChaCha, true, &[0; 16], &[7; 32], 42);
    assert_eq!(none.mode_name(), "none");
    let aes = MirrorVideoCrypto::from_setup(MirrorCipherMode::AesCtr, false, &[0x11; 16], &[7; 32], 42);
    assert_eq!(aes.mode_name(), "aes-ctr");
    match aes {
        MirrorVideoCrypto::AesCtr { key, .. } => {
            assert_eq!(key, array("2916d6fa557b4997ee2c5b0b7de90a08"))
        }
        _ => panic!("other cipher"),
    }
    let chacha = MirrorVideoCrypto::from_setup(MirrorCipherMode::ChaCha, false, &[0; 16], &[7; 32], 42);
    assert_eq!(chacha.mode_name(), "chacha");
    match chacha {
        MirrorVideoCrypto::ChaCha { key } => assert_eq!(
            key,
            array("dd5038177f782a5e9c0b2aed6db40b15268255e3938a51192119ede64d0b61de")
        ),
        _ => panic!("other cipher"),
    }
}

const SERVER_PUBLIC: &str = "4b91cd6d9c91bd7e6ac7026ebc69b8a027403a11a074e853c9d84cbf5be5f9f2638b94af\
32f04ccd9eaff324e94868daa797e479f23bce56ab267fa67cc96458b0b1752d8cca91b87fb3f6f9cc3d7fecfff065f68368\
4d8a7cf3f962c96ab311e05bb91b5d949d6f8ef9a7758f2b156e2a1e17e5ac5ee15430e0bc1b4778715aba1eefae186645d2\
7dd1227851199a605f768882f433d25512263e922e33e6a71c7f12cf73a54b1f106ae08f03f6c941ec9d4b210837bf0dd378\
cbbc1d2fc84dc56204dbb3a38eebfe49c0861c3a930d881c76b359244c2c40123446ce39dae0e90a7ec27d55438a3b9d68d2\
d9c30b731ca39db15a74ee2735ee68ce60714939";

fn counting(from: u8, to: u8) -> Vec<u8> {
    (from..to).collect()
}

#[test]
fn legacy_srp_known_exchange() {
    let mut c = LegacySrpClient::with_secret(
        &counting(1, 33),
        &counting(0, 16),
        &bytes(SERVER_PUBLIC),
        "366B4165DD64AD3A",
    );
    let public = c.client_public();
    assert_eq!(public.len(), 256);
    assert_eq!(public[..16], bytes("630acdff5d334462d92a29e0b7fa6e20")[..]);
    assert!(c.session_key_hash().is_none());
    let (m1, m2) = c.authenticate("1234").unwrap();
    assert_eq!(m1, bytes("89649aa33d515d098e4c146cfbc1fd93d8165fec"));
    assert_eq!(m2, bytes("7ce2ed121eab2a9e8b2032b58d39bdff8ce9f46b"));
    assert_eq!(
        c.session_key_hash().unwrap(),
        &bytes("ab06c7b82998bfd1c14fd7bb8353a6433f9290af8b7a6261e38860d4a8d524cfcf32ffccc1f41843")[..]
    );
    let fresh = LegacySrpClient::new(&[1; 16], &bytes(SERVER_PUBLIC), "user");
    assert_ne!(fresh.client_public(), public);
}

#[test]
fn legacy_srp_refuses_a_server_key_that_cancels_out() {
    // The multiplier times the verifier, with nothing of the server's secret added.
    let server_public = bytes(
        "aaa6c0d48903e32ca01ce3c7a4839990dc6f1258ec383a393a51aaa33076c5c67ea150ba42569a43ab3bb6d58c\
         87be002316717c44edfe7d64036af8c051842021ccb44ca51fe501967650896f99d1e3ff27b22e21489e803a4f\
         11dd6d89f6176bd5007912b879cd2bb614366b190ee6cd864107e05aade2269387708620f9e239e3d2aa56a51f\
         dc88a4e11563ca4a63a3a4a9ce7a0900c8e63bf3ddb1765dbd9c1401816b047e1c7b057d7bf821cc658a557f64\
         92b36897db62348f81dcffbfafb03dfce4f61df0de9563c0262744b44c7c515973ac865075406e712cd2c9baaf\
         501e8f6f675d4ec01a13871b5c90175827495297753b8147d357129a3eb4d5",
    );
    let mut c = LegacySrpClient::with_secret(&[1], &counting(0, 16), &server_public, "user");
    assert_eq!(c.authenticate("1234").unwrap_err(), "invalid server public key");
    assert!(c.session_key_hash().is_none());
    assert!(c.authenticate("1235").is_ok());
}

const GROUP_3072: &str = "FFFFFFFFFFFFFFFFC90FDAA22168C234C4C6628B80DC1CD129024E088A67CC74020BBEA63B\
139B22514A08798E3404DDEF9519B3CD3A431B302B0A6DF25F14374FE1356D6D51C245E485B576625E7EC6F44C42E9A637ED\
6B0BFF5CB6F406B7EDEE386BFB5A899FA5AE9F24117C4B1FE649286651ECE45B3DC2007CB8A163BF0598DA48361C55D39A69\
163FA8FD24CF5F83655D23DCA3AD961C62F356208552BB9ED529077096966D670C354E4ABC9804F1746C08CA18217C32905E\
462E36CE3BE39E772C180E86039B2783A2EC07A28FB5C55DF06F4C52C9DE2BCBF6955817183995497CEA956AE515D2261898\
FA051015728E5A8AAAC42DAD33170D04507A33A85521ABDF1CBA64ECFB850458DBEF0A8AEA71575D060C7DB3970F85A6E1E4\
C7ABF5AE8CDB0933D71E8C94E04A25619DCEE3D2261AD2EE6BF12FFA06D98A0864D87602733EC86A64521F2B18177B200CBB\
E117577A615D6C770988C0BAD946E208E24FA074E5AB3143DB5BFCE0FD108E4B82D120A93AD2CAFFFFFFFFFFFFFFFF";

const SERVER_3072: &str = "ef68d4774785120676be1a661aff388642c2fdb569dd84b4f494e57951aeff1aa72f602c\
8a4fc86c16489fb3b01179b175023b2a949ea7de9f9c2daa6feb5a5ffad926845424a24d75cefe85f58ed6d4e7fcdb98f1c3\
1f62094da59cb52674253066f8970333ba4eddf6b180ae5762c4f2c789fe0cec69c22883a08791efe57cf6b6f3b1fe4eecee\
b08690520cc177f5f44843cd2d6a75e2d0bde38b45c1caba532311ae9dc3b94864815c34ca2e2f4c6e62e443decfe3412fbf\
ff49c066f0dfb36bf8ae15d3378d52623b06f8211f8b02df9730396cfe7f9ad279c0429aa7b06acc73cdc2d758cf80ee4e51\
dd3b2bfba032461d8a670b2b2dfc056413183ed61f95e9c3010fc34c6e8b48de4774812d1af9cdfb5ed362742eb2ec2b48ee\
406c66e1727e7a94d6d3313f07f0236448ea36c4e14cb83307893f9adfbea6a19186e72033097ff061b6861a01cdc3328a49\
438730177752151484218703285c13316fc4d533ba73b5f078413bc79c5885710d789c8a6ffec27d92ae718da31f52ca";

#[test]
fn srp_known_exchange() {
    let c = SrpClient::with_secret(&bytes(GROUP_3072), &counting(1, 33));
    let public = c.client_public();
    assert_eq!(public.len(), 384);
    assert_eq!(public[..16], bytes("bc0e7cf5dc3babf67dcedbb3b140aacc")[..]);
    let (proof, expected) = c
        .try_process_challenge(&counting(0, 16), &bytes(SERVER_3072), "Pair-Setup", "1234")
        .unwrap();
    assert_eq!(
        proof,
        bytes(
            "fd596e49ad26e6a7ba719500d6e4507d558395d2a386b25086a86a8e4ab881fbac9a94dea0d509c666b9d1\
             ea043cab2c91128fab3753817a37f0471b820d8509"
        )
    );
    assert_eq!(
        expected,
        bytes(
            "41d09ecab69b8e1a94cb0a0703a5d0b62493bc8431eaa8c5f4e96afe60f7847e8eac6d20db6a235ee5eef7\
             e8dcef0164d2edd8b95610366aa7fdb1346e71cdae"
        )
    );
    let fresh = SrpClient::new(&bytes(GROUP_3072));
    assert_ne!(fresh.client_public(), public);
}

#[test]
fn srp_challenge_below_the_subtrahend_is_left_out() {
    let c = SrpClient::with_secret(&bytes(GROUP_3072), &[5]);
    assert!(c.try_process_challenge(&[1], &[0], "Pair-Setup", "1234").is_none());
}

#[test]
fn salts_and_keys_are_fresh() {
    assert_eq!(generate_salt().len(), 16);
    assert_ne!(generate_salt(), generate_salt());
    let a = generate_ed25519_keypair();
    let b = generate_ed25519_keypair();
    assert_ne!(a.private_key, b.private_key);
    assert_ne!(a.public_key, a.private_key);
    let (k1, iv1) = FairPlaySession::random_aes_key_iv();
    assert_ne!(k1, iv1);
}

#[test]
fn naturals_have_no_leading_zeros() {
    assert_eq!(to_natural(&[0, 0, 1, 2]), vec![1, 2]);
    assert_eq!(to_natural(&[0, 0]), vec![0]);
    assert!(is_zero(&[0, 0]) && !is_zero(&[0, 1]));
}

const CLIENT_EPH: &str = "8f40c5adb68f25624ae5b214ea767a6ec94d829d3d7b5e1ad1ba6f3e2138285f";
const CLIENT_ED: &str = "ed4928c628d1c2c6eae90338905995612959273a5c63f93636c14614ac8737d1";
const SERVER_ED: &str = "ca93ac1705187071d67b83c7ff0efe8108e8ec4530575d7726879333dbdabe7c";
const STEP1: &str = "358072d6365880d1aeea329adf9121383851ed21a28e3b75e965d0d2cd1662545e926ad48937400396\
52fad0c92b6e6cba8c706c82aa2470e5d744986aa8fec77972c21ab78349b473d9887805017d8e03895ba10915fcee67ef6e0\
d4f3e7d8e";

#[test]
fn pair_verify_known_exchange() {
    let secret: [u8; 32] = counting(0, 32).try_into().unwrap();
    let (body, eph) = pair_verify_step1_with(&secret, &array(CLIENT_ED));
    assert_eq!(eph, array(CLIENT_EPH));
    assert_eq!(body[..4], [1, 0, 0, 0]);
    assert_eq!(body[4..36], eph);
    assert_eq!(body[36..], array::<32>(CLIENT_ED));
    let (step2, shared) =
        pair_verify_step2(&secret, &eph, &[3; 32], &bytes(STEP1), &array(SERVER_ED)).unwrap();
    assert_eq!(
        shared,
        array("9663aa1da97e848a914a436d04163dfbb89178f107f1b5b77ed3854203382854")
    );
    assert_eq!(
        step2[..],
        bytes(
            "0000000000a5c6c9deabe9a27f23af3406160616b726c5938afdffe9588941567cce51ae1d848dc4321b59\
             840ff52c6accad84f36025a0317c7b019ad7d88963721ddd34"
        )[..]
    );
}

#[test]
fn pair_verify_faults() {
    let secret: [u8; 32] = counting(0, 32).try_into().unwrap();
    let (_, eph) = pair_verify_step1_with(&secret, &array(CLIENT_ED));
    let short = pair_verify_step2(&secret, &eph, &[3; 32], &[0; 95], &array(SERVER_ED));
    assert_eq!(
        short.unwrap_err().message(),
        "crypto error: pair-verify step1 response too short: 95"
    );
    let mut forged = bytes(STEP1);
    forged[40] ^= 1;
    let e = pair_verify_step2(&secret, &eph, &[3; 32], &forged, &array(SERVER_ED)).unwrap_err();
    assert!(e.message().starts_with("crypto error: pair-verify server signature: "));
    let (body, fresh_secret, fresh) = pair_verify_step1(&array(CLIENT_ED));
    let (again, public) = pair_verify_step1_with(&fresh_secret, &array(CLIENT_ED));
    assert_eq!((body, fresh), (again, public));
}

#[test]
fn fairplay_requests() {
    assert_eq!(FairPlaySession::fp_setup1_request()[..4], *b"FPLY");
    assert_eq!(FairPlaySession::fp_setup_mode(), 3);
    for mode in [0u8, 1, 2, 3] {
        let m = FairPlaySession::key_message_for_mode(mode).unwrap();
        assert_eq!(m[12], mode);
    }
    assert_eq!(FairPlaySession::from_mode(9).unwrap().key_message[12], 3);
    assert_eq!(FairPlaySession::from_mode(9).unwrap().mode, 9);
    let output = format!(" {}\n", "AB".repeat(20));
    let m = FairPlaySession::key_message_from_setup1(&[0; 142], output.as_bytes()).unwrap();
    assert_eq!(m[..144], FairPlaySession::m3_prefix());
    assert_eq!(m[144..], [0xab; 20]);
    let s = FairPlaySession::from_key_message(m, 3);
    assert_eq!((s.key_message, s.mode), (m, 3));
}

#[test]
fn fairplay_helper_faults() {
    assert_eq!(fpsap_input(&[0x1f; 142]).unwrap(), "1f".repeat(142));
    assert_eq!(
        fpsap_input(&[0; 3]).unwrap_err().message(),
        "crypto error: fp-setup step1 response must be 142 bytes, got 3"
    );
    assert!(fpsap_hash_from_output(b"xyz").unwrap_err().message().starts_with("crypto error: fpsap-helper output: "));
    assert_eq!(
        fpsap_hash_from_output(b"abcd").unwrap_err().message(),
        "crypto error: fpsap-helper returned 2 bytes, expected 20"
    );
    assert_eq!(
        fpsap_failure("exit status: 1", b" broken\n").message(),
        "crypto error: fpsap-helper failed (exit status: 1): broken"
    );
    assert!(FairPlaySession::key_message_from_setup1(&[0; 141], b"").is_err());
}

#[test]
fn fairplay_keys() {
    let session = FairPlaySession::from_mode(3).unwrap();
    let ekey = ekey_with(&[5; 16], &[6; 16]);
    assert_eq!(ekey[..4], *b"FPLY");
    assert_eq!((ekey[4], ekey[5], ekey[6], ekey[11]), (1, 2, 1, 0x3c));
    assert_eq!(ekey[16..32], [5; 16]);
    assert_eq!(ekey[32..56], [0; 24]);
    assert_eq!(ekey[56..], [6; 16]);
    assert_ne!(build_ekey(), build_ekey());
    let k = FairPlaySession::mirror_fp_keys(&ekey, Some([0x21; 16]), &[0x22; 32], &[1; 16]).unwrap();
    assert_eq!(k.fp_key, array("a4cf6a4af2ef3d1ef2ebf696299ccac5"));
    assert_eq!((k.ekey, k.fp_iv, k.fp_aes_key), (ekey, [1; 16], [0x21; 16]));
    let fresh = session.derive_mirror_fp_keys(&ekey, Some([0x21; 16]), &[0x22; 32]).unwrap();
    assert_eq!(fresh.fp_key, k.fp_key);
    assert_eq!(
        session.derive_mirror_fp_keys(&ekey, None, &[0; 32]).unwrap_err().message(),
        "crypto error: fairplay AES key decrypt failed"
    );
    assert_eq!(session.encrypt_aes_key(Some([9; 72])).unwrap(), [9; 72]);
    assert_eq!(
        session.encrypt_aes_key(None).unwrap_err().message(),
        "crypto error: fairplay AES key encrypt failed"
    );
}

#[test]
fn stub_provider_hands_back() {
    let sap = FairPlaySap::new(StubSapProvider);
    assert_eq!(sap.setup(&[1, 2]).unwrap(), vec![1, 2]);
    assert_eq!(sap.decrypt_aes_key(&[3]).unwrap(), vec![3]);
    assert_eq!(sap.decrypt_aes_key(&[]).unwrap_err().message(), "crypto error: empty SAP key");
}
