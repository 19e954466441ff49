//! Control connection, set-up and audio.

use rottingapple::config::{DeviceCredentials, StreamConfig};
use rottingapple::crypto::fairplay_setup::FairPlaySession;
use rottingapple::crypto::mirror_crypto::MirrorVideoCrypto;
use rottingapple::device::{AirPlayDevice, DeviceFeatures};
use rottingapple::error::RottenError;
use rottingapple::ntp::Span;
use rottingapple::plist_value::{Plist, PlistField};
use rottingapple::protocol::airplay_conn::AirPlayRtspConn;
use rottingapple::protocol::alac::{encode_alac_verbatim, encode_alac_verbatim_silence, BitWriter};
use rottingapple::protocol::audio_rtp::{
    audio_packet, audio_ports_in, playout_latency_samples, plist_audio_ports, plist_int,
    plist_stream_ports, samples_for_44k1, sync_packet, sync_rtp_for, MirrorAudioSetup,
    SilenceStream, AUDIO_LATENCY_SAMPLES,
};
use rottingapple::protocol::fp_setup::{
    airplay_remote_ids, check_fp_step1, fp_session, fp_step2_request,
};
use rottingapple::protocol::http::{
    apple_device_id_header, check_mirror_stream, client_name, encode_mirror_stream_plist,
    mac_to_device_id_int, mirror_base_url, mirror_stream_fields, post_mirror_setup,
};
use rottingapple::protocol::mirror::MirrorConnection;
use rottingapple::protocol::pair_verify::{
    answer_step1, check_step2, decode_info_pk, key32, resolve_server_public_key, verify_keys,
    VerifyKeys,
};
use rottingapple::protocol::rtsp::RtspSession;
use rottingapple::protocol::rtsp_reply::{parse_headers, parse_status, RtspReader, RtspReply};
use rottingapple::session::SessionState;

fn bytes(hex_text: &str) -> Vec<u8> {
    hex::decode(hex_text).unwrap()
}

fn said<T>(r: Result<T, RottenError>) -> String {
    match r {
        Ok(_) => panic!("no error"),
        Err(e) => e.message(),
    }
}

fn wire(b: Vec<u8>) -> String {
    String::from_utf8(b).unwrap()
}

#[test]
fn requests_are_numbered() {
    let mut c = AirPlayRtspConn::connect();
    assert!(c.has_room());
    assert_eq!(
        wire(c.post_pair_verify("/pair-verify", b"xy")),
        "POST /pair-verify RTSP/1.0\r\nCSeq: 1\r\nUser-Agent: AirPlay/320.20\r\n\
         X-Apple-ProtocolVersion: 1\r\nContent-Type: application/octet-stream\r\n\
         Content-Length: 2\r\n\r\nxy"
    );
    assert_eq!(
        wire(c.post_fp_setup(b"abc")),
        "POST /fp-setup RTSP/1.0\r\nCSeq: 2\r\nUser-Agent: AirPlay/320.20\r\nX-Apple-ET: 32\r\n\
         Content-Type: application/octet-stream\r\nContent-Length: 3\r\n\r\nabc"
    );
    assert_eq!(
        wire(c.rtsp_setup("rtsp://tv/1", b"B", "DACP", 77)),
        "SETUP rtsp://tv/1 RTSP/1.0\r\nCSeq: 3\r\nUser-Agent: AirPlay/320.20\r\nDACP-ID: DACP\r\n\
         Active-Remote: 77\r\nContent-Type: application/x-apple-binary-plist\r\n\
         Content-Length: 1\r\n\r\nB"
    );
    assert_eq!(
        wire(c.rtsp_record("rtsp://tv/1", "U", "DACP", 77)),
        "RECORD rtsp://tv/1 RTSP/1.0\r\nCSeq: 4\r\nUser-Agent: AirPlay/320.20\r\nSession: U\r\n\
         DACP-ID: DACP\r\nActive-Remote: 77\r\nRange: npt=0-\r\nRTP-Info: seq=0;rtptime=0\r\n\
         Content-Length: 0\r\n\r\n"
    );
    assert_eq!(
        wire(c.rtsp_set_parameter("rtsp://tv/1", "U", b"volume: 0\r\n")),
        "SET_PARAMETER rtsp://tv/1 RTSP/1.0\r\nCSeq: 5\r\nUser-Agent: AirPlay/320.20\r\n\
         Session: U\r\nContent-Type: text/parameters\r\nContent-Length: 11\r\n\r\nvolume: 0\r\n"
    );
    assert_eq!(
        wire(c.rtsp_post_feedback()),
        "POST /feedback RTSP/1.0\r\nCSeq: 6\r\nUser-Agent: AirPlay/320.20\r\n\
         Content-Type: application/octet-stream\r\nContent-Length: 0\r\n\r\n"
    );
    assert_eq!(
        wire(c.rtsp_get_parameter("rtsp://tv/1", "U")),
        "GET_PARAMETER rtsp://tv/1 RTSP/1.0\r\nCSeq: 7\r\nUser-Agent: AirPlay/320.20\r\n\
         Session: U\r\nContent-Length: 0\r\n\r\n"
    );
}

fn done(r: RtspReader) -> RtspReply {
    match r {
        RtspReader::Done(reply) => reply,
        _ => panic!("not done"),
    }
}

#[test]
fn reply_in_pieces() {
    let all = b"RTSP/1.0 200 OK\r\nContent-Length: 5\r\nAudio-Latency: 77\r\n\r\nhelloXX";
    let whole = done(RtspReader::new().feed(all));
    let mut r = RtspReader::new();
    for b in all.iter() {
        if let RtspReader::Done(_) = r {
            break;
        }
        r = r.feed(&[*b]);
    }
    let pieces = done(r);
    assert_eq!((whole.status, pieces.status), (200, 200));
    assert_eq!((&whole.body[..], &pieces.body[..]), (&b"hello"[..], &b"hello"[..]));
    assert_eq!(whole.audio_latency(), Some(77));
    assert_eq!(whole.headers, pieces.headers);
}

#[test]
fn reply_that_ends_early() {
    let part = RtspReader::new().feed(b"RTSP/1.0 200 OK\r\nContent-Length: 5\r\n\r\nhe");
    assert!(matches!(part, RtspReader::Body { .. }));
    let short = done(part.feed(b""));
    assert_eq!(short.body, b"he");
    match RtspReader::new().feed(b"RTSP/1.0").feed(b"") {
        RtspReader::Failed(e) => assert_eq!(e.message(), "protocol error: RTSP connection closed"),
        _ => panic!("no failure"),
    }
    match RtspReader::new().feed(&vec![b'x'; 65537]) {
        RtspReader::Failed(e) => {
            assert_eq!(e.message(), "protocol error: RTSP response headers too large")
        }
        _ => panic!("no failure"),
    }
}

#[test]
fn status_lines() {
    assert_eq!(parse_status("RTSP/1.0 453 Not Enough\r\n").unwrap(), 453);
    assert_eq!(said(parse_status("")), "protocol error: RTSP empty response");
    assert_eq!(said(parse_status("RTSP/1.0\r\nx")), "protocol error: RTSP bad status line: RTSP/1.0");
    assert_eq!(said(parse_status("R x\r\n")), "protocol error: RTSP bad status code: R x");
    let h = parse_headers("R 200 OK\r\nA-B:  c \r\nnothing\r\na-b: d:e\r\n");
    let last = h.iter().rev().find(|(k, _)| k == "a-b").unwrap();
    assert_eq!(last.1, "d:e");
    let none = RtspReply { status: 200, headers: vec![("audio-latency".into(), "0".into())], body: vec![] };
    assert_eq!(none.audio_latency(), None);
}

fn creds() -> DeviceCredentials {
    DeviceCredentials {
        device_id: "AA:BB:CC:DD:EE:FF".to_string(),
        identifier: "366B4165DD64AD3A".to_string(),
        public_key: vec![7; 32],
        private_key: vec![2; 32],
        server_public_key: vec![3; 32],
    }
}

#[test]
fn identifiers_in_headers() {
    assert_eq!(mac_to_device_id_int("AA:BB:CC:DD:EE:FF"), 0xAABB_CCDD_EEFF);
    assert_eq!(mac_to_device_id_int("366B4165DD64AD3A"), 0x366B_4165_DD64);
    assert_eq!(mac_to_device_id_int("xyz"), 0);
    assert_eq!(apple_device_id_header(&creds()), "0x366B4165DD64");
    let mut c = creds();
    c.identifier = "1f".to_string();
    assert_eq!(apple_device_id_header(&c), "0xAABBCCDDEEFF");
    c.device_id = String::new();
    assert_eq!(apple_device_id_header(&c), "0x1f");
    assert_eq!(client_name(&c), "RottingApple");
    assert_eq!(client_name(&creds()), "AA:BB:CC:DD:EE:FF");
    assert_eq!(mirror_base_url("tv", "/stream"), "http://tv:7100/stream");
    assert_eq!(airplay_remote_ids(&creds()), ("366B4165DD64AD3A".to_string(), 0x366B_4165));
    assert_eq!(airplay_remote_ids(&c), ("000000000000001f".to_string(), 0x1f));
    c.identifier = "zz".to_string();
    assert_eq!(airplay_remote_ids(&c), ("0000000000000000".to_string(), 0x4a7f_9c12));
}

#[test]
fn mirror_set_up() {
    let config = StreamConfig { width: 1920, height: 1080, fps: 30, bitrate_kbps: 0 };
    let fields = mirror_stream_fields(&creds(), &config, 7000, -5, Some([1; 72]), Some([2; 16]));
    let keys: Vec<&str> = fields.iter().map(|(k, _)| k.as_str()).collect();
    assert_eq!(
        keys,
        vec![
            "deviceID", "sessionID", "version", "latencyMs", "fpsInfo", "timestampInfo",
            "timestampSourcePort", "width", "height", "fps", "param1", "param2"
        ]
    );
    assert!(matches!(fields[0].1, PlistField::Integer(0x366B_4165_DD64)));
    assert!(matches!(fields[1].1, PlistField::Integer(-5)));
    assert!(matches!(&fields[2].1, PlistField::Text(s) if s == "130.16"));
    assert!(matches!(fields[3].1, PlistField::Integer(90)));
    match &fields[4].1 {
        PlistField::TextDicts(l) => {
            let names: Vec<&str> = l.iter().map(|d| d[0].1.as_str()).collect();
            assert_eq!(names, vec!["SubS", "B4En", "EnDp", "IdEn", "IdDp", "EQDp", "QueF", "Sent"]);
            assert_eq!(l[0][0].0, "name");
        }
        _ => panic!("no list"),
    }
    let body = encode_mirror_stream_plist(&creds(), &config, 7000, -5, None, None).unwrap();
    assert!(body.starts_with(b"bplist00"));
    assert_ne!(
        body,
        encode_mirror_stream_plist(&creds(), &config, 7001, -5, None, None).unwrap()
    );
    assert!(check_mirror_stream(204, "204 No Content").is_ok());
    assert_eq!(
        said(check_mirror_stream(403, "403 Forbidden")),
        "protocol error: mirror setup failed: 403 Forbidden"
    );
    let wrapped = post_mirror_setup(&creds(), true, &[1; 16], &[2; 16]);
    assert_eq!(wrapped.stream_key[..16], [1; 16]);
    assert_eq!(wrapped.stream_key[16..], [2; 16]);
    assert_eq!((wrapped.event_port, wrapped.timing_port), (Some(7010), Some(7011)));
    let derived = post_mirror_setup(&creds(), false, &[1; 16], &[2; 16]);
    assert_eq!(
        derived.stream_key[..],
        bytes("8236ea159b2d200f6c25d88f3faefda2947d0f702f5c1d562628e352c5e407f4")[..]
    );
}

#[test]
fn rtsp_session_texts() {
    let config = StreamConfig { width: 1920, height: 1080, fps: 30, bitrate_kbps: 0 };
    let mut s = RtspSession::setup("tv", 7000);
    assert_eq!(s.tunnel_url(), "http://tv:7000:7000/");
    assert_eq!(s.options(), "OPTIONS * RTSP/1.0\r\nCSeq: 1\r\nUser-Agent: MediaControl/1.0\r\n\r\n");
    let a = s.announce(&config);
    assert!(a.starts_with(
        "ANNOUNCE rtsp://tv:7000/ RTSP/1.0\r\nCSeq: 2\r\nContent-Type: application/sdp\r\n\
         Content-Length: "
    ));
    let (head, sdp) = a.split_once("\r\n\r\n").unwrap();
    assert!(head.ends_with(&format!("Content-Length: {}", sdp.len())));
    assert!(sdp.starts_with("v=0\r\no=RottingApple 0 0 IN IP4 0.0.0.0\r\ns=RottingApple\r\n"));
    assert!(sdp.ends_with("a=framerate:30\r\na=x-dimensions:1920,1080\r\n"));
    let setup = post_mirror_setup(&creds(), true, &[1; 16], &[2; 16]);
    assert_eq!(
        s.setup_stream(&setup),
        "SETUP rtsp://tv:7000/ RTSP/1.0\r\nCSeq: 3\r\nTransport: RTP/AVP/UDP;unicast;mode=record;\
         control_port=7010;timing_port=7011\r\n\r\n"
    );
    assert_eq!(s.record(), "RECORD rtsp://tv:7000/ RTSP/1.0\r\nCSeq: 4\r\nRange: npt=0-\r\n\r\n");
    assert_eq!(s.teardown(), "TEARDOWN rtsp://tv:7000/ RTSP/1.0\r\nCSeq: 99\r\n\r\n");
}

#[test]
fn fairplay_handshake() {
    let ok = vec![0u8; 142];
    assert!(check_fp_step1(200, &ok).is_ok());
    assert_eq!(
        said(check_fp_step1(200, &ok[..141])),
        "protocol error: fp-setup step1 failed: HTTP 200 len 141"
    );
    assert_eq!(
        said(check_fp_step1(403, &ok)),
        "protocol error: fp-setup step1 failed: HTTP 403 len 142"
    );
    let m = fp_step2_request(200, &ok, "0c".repeat(20).as_bytes()).unwrap();
    assert_eq!(m[144..], [0x0c; 20]);
    assert!(fp_step2_request(200, &ok, b"zz").is_err());
    let s = fp_session(m, 200, &[0; 32]).unwrap();
    assert_eq!((s.key_message, s.mode), (m, FairPlaySession::fp_setup_mode()));
    assert_eq!(
        said(fp_session(m, 200, &[0; 31])),
        "protocol error: fp-setup step2 failed: HTTP 200 len 31"
    );
}

#[test]
fn server_key_from_store_or_announcement() {
    assert_eq!(key32(&[1; 32], "k").unwrap(), [1; 32]);
    assert_eq!(said(key32(&[1; 31], "client key")), "protocol error: invalid client key length");
    assert_eq!(decode_info_pk(&"ab".repeat(32)), Some([0xab; 32]));
    assert_eq!(
        decode_info_pk("q6urq6urq6urq6urq6urq6urq6urq6urq6urq6urq6s="),
        Some([0xab; 32])
    );
    assert_eq!(decode_info_pk("abcd"), None);
    let mut c = creds();
    assert_eq!(resolve_server_public_key(&c, None).unwrap(), [3; 32]);
    c.server_public_key = vec![];
    assert_eq!(resolve_server_public_key(&c, Some(&"ab".repeat(32))).unwrap(), [0xab; 32]);
    assert!(said(resolve_server_public_key(&c, None)).starts_with("protocol error: missing Apple TV public key"));
    c.private_key = vec![];
    assert_eq!(said(verify_keys(&c, None)), "protocol error: invalid client private key length");
    let k = verify_keys(&creds(), None).unwrap();
    assert_eq!((k.client_pk, k.client_sk, k.server_pk), ([7; 32], [2; 32], [3; 32]));
}

const SERVER_ED: &str = "ca93ac1705187071d67b83c7ff0efe8108e8ec4530575d7726879333dbdabe7c";
const STEP1: &str = "358072d6365880d1aeea329adf9121383851ed21a28e3b75e965d0d2cd1662545e926ad48937400396\
52fad0c92b6e6cba8c706c82aa2470e5d744986aa8fec77972c21ab78349b473d9887805017d8e03895ba10915fcee67ef6e0\
d4f3e7d8e";

#[test]
fn pair_verify_answers() {
    let keys = VerifyKeys {
        client_pk: [0; 32],
        client_sk: [3; 32],
        server_pk: bytes(SERVER_ED).try_into().unwrap(),
    };
    let secret: [u8; 32] = (0..32).collect::<Vec<u8>>().try_into().unwrap();
    let eph: [u8; 32] = bytes("8f40c5adb68f25624ae5b214ea767a6ec94d829d3d7b5e1ad1ba6f3e2138285f")
        .try_into()
        .unwrap();
    let (_, outcome) = answer_step1(&keys, &secret, &eph, 200, &bytes(STEP1)).unwrap();
    assert_eq!(
        outcome.shared_secret[..],
        bytes("9663aa1da97e848a914a436d04163dfbb89178f107f1b5b77ed3854203382854")[..]
    );
    assert_eq!(
        said(answer_step1(&keys, &secret, &eph, 470, &[])),
        "protocol error: pair-verify step1 HTTP 470"
    );
    assert_eq!(
        said(answer_step1(&keys, &secret, &eph, 200, &[])),
        "protocol error: crypto error: pair-verify step1 response too short: 0"
    );
    assert!(check_step2(200).is_ok());
    assert_eq!(said(check_step2(401)), "protocol error: pair-verify step2 HTTP 401");
}

#[test]
fn connection_states() {
    let device = AirPlayDevice {
        name: "Den".to_string(),
        host: "tv".to_string(),
        port: 7000,
        device_id: "AA".to_string(),
        model: None,
        features: DeviceFeatures { raw: 0 },
        display_width: None,
        display_height: None,
        pi: None,
        pk: None,
    };
    let mut h = MirrorConnection::connect(
        device,
        "U".to_string(),
        7002,
        Some(7003),
        "rtsp://tv/1".to_string(),
        MirrorVideoCrypto::Plain,
        None,
    );
    assert!(h.audio.is_none());
    assert_eq!(h.session().state, SessionState::Streaming);
    assert_eq!(h.session().session_id.as_deref(), Some("U"));
    assert_eq!((h.session().stream_port, h.session().control_port), (Some(7002), Some(7003)));
    assert_eq!((h.data_port(), h.stream_port()), (7002, 7002));
    assert_eq!((h.control_uri(), h.device_host()), ("rtsp://tv/1", "tv"));
    h.connection.stop();
    assert_eq!(h.session().state, SessionState::Disconnected);
}

#[test]
fn latency_in_samples() {
    assert_eq!(AUDIO_LATENCY_SAMPLES, 44);
    assert_eq!(samples_for_44k1(0), 1);
    assert_eq!(samples_for_44k1(1), 44);
    assert_eq!(samples_for_44k1(10), 441);
    assert_eq!(samples_for_44k1(85), 3749);
    assert_eq!(samples_for_44k1(u64::MAX), u32::MAX);
    assert_eq!(playout_latency_samples(0, 500), 44);
    assert_eq!(playout_latency_samples(1, 0), 44);
    assert_eq!(playout_latency_samples(1, 500), 22050);
}

fn dict(entries: Vec<(&str, Plist)>) -> Plist {
    Plist::Dict(entries.into_iter().map(|(k, v)| (k.to_string(), v)).collect())
}

#[test]
fn audio_ports() {
    assert_eq!(plist_int(&Plist::Integer(-7)), -7);
    assert_eq!(plist_int(&Plist::Integer(u64::MAX as i128)), 0);
    assert_eq!(plist_int(&Plist::Real((-2.9f64).to_bits())), -2);
    assert_eq!(plist_int(&Plist::Real(1e300f64.to_bits())), i64::MAX);
    assert_eq!(plist_int(&Plist::Real(f64::NAN.to_bits())), 0);
    assert_eq!(plist_int(&Plist::Boolean(true)), 0);
    let plain = dict(vec![
        ("type", Plist::Integer(96)),
        ("dataPort", Plist::Integer(6001)),
        ("controlPort", Plist::Integer(6002)),
    ]);
    assert_eq!(plist_stream_ports(&plain), (6001, 6002));
    let port = |p: i128| dict(vec![("streamConnectionKeyPort", Plist::Integer(p))]);
    let connected = dict(vec![
        ("type", Plist::Integer(96)),
        ("dataPort", Plist::Integer(6001)),
        (
            "streamConnections",
            dict(vec![
                ("streamConnectionTypeRTP", port(65536 + 5)),
                ("streamConnectionTypeRTCP", port(7002)),
            ]),
        ),
    ]);
    assert_eq!(plist_stream_ports(&connected), (5, 7002));
    let other = dict(vec![("type", Plist::Integer(110))]);
    let reply = |l: Vec<Plist>| dict(vec![("streams", Plist::Array(l))]);
    assert_eq!(audio_ports_in(&reply(vec![other, plain])), Some((6001, 6002)));
    assert_eq!(audio_ports_in(&reply(vec![dict(vec![]), connected])), None);
    assert_eq!(audio_ports_in(&dict(vec![])), None);
    let xml = b"<?xml version=\"1.0\"?><plist version=\"1.0\"><dict><key>streams</key><array><dict>\
        <key>type</key><integer>96</integer><key>dataPort</key><integer>5</integer>\
        <key>controlPort</key><integer>6</integer></dict></array></dict></plist>";
    assert_eq!(plist_audio_ports(xml), Some((5, 6)));
    assert_eq!(plist_audio_ports(b"bplist00"), None);
}

#[test]
fn sync_packets() {
    assert_eq!(sync_rtp_for(100, 44), 56);
    assert_eq!(sync_rtp_for(43, 44), 43);
    assert_eq!(
        sync_packet(0x0102_0304_0506_0708, 100, 44, true),
        vec![0x90, 0xd4, 0, 4, 0, 0, 0, 56, 1, 2, 3, 4, 5, 6, 7, 8, 0, 0, 0, 100]
    );
    assert_eq!(sync_packet(0, 43, 44, false)[..8], [0x80, 0xd4, 0, 4, 0, 0, 0, 43]);
}

#[test]
fn verbatim_frames() {
    assert_eq!(
        encode_alac_verbatim(&[0x34, 0x12, 0x78, 0x56], 1, 2, 16),
        bytes("200012000000022468acf1c0")
    );
    assert_eq!(encode_alac_verbatim(&[0x34, 0x12], 2, 1, 16), bytes("0000120000000424680001c0"));
    let silence = encode_alac_verbatim_silence(352);
    assert_eq!(silence.len(), 1416);
    assert_eq!(silence[..8], bytes("200012000002c000")[..]);
    assert_eq!(silence[1413..], bytes("0001c0")[..]);
    let mut w = BitWriter::new();
    w.write(1, 3);
    w.write(0b11, 2);
    assert_eq!(w.flush(), vec![0b0011_1000]);
    let mut w = BitWriter::new();
    w.write(0b1, 4);
    w.write(0x0203, 10);
    assert_eq!(w.flush(), vec![0b0001_1000, 0b0000_1100]);
    let mut w = BitWriter::new();
    w.write(u32::MAX, 40);
    assert_eq!(w.flush(), vec![0, 255, 255, 255, 255]);
}

#[test]
fn silence_stream_counts_on() {
    let setup = MirrorAudioSetup {
        host: "tv".to_string(),
        chacha_key: [7; 32],
        remote_data_port: 6001,
        remote_control_port: 6002,
        latency_samples: 44,
    };
    assert_eq!(setup.data_address(), "tv:6001");
    assert_eq!(setup.control_address(), "tv:6002");
    let mut s = setup.stream();
    assert_eq!(SilenceStream::tick_millis(), 7);
    assert_eq!(s.opening_syncs(9), vec![sync_packet(9, 0, 44, true); 7]);
    assert!(SilenceStream::sync_goes_on(Span { secs: 4, nanos: 999_999_999 }));
    assert!(!SilenceStream::sync_goes_on(Span { secs: 5, nanos: 0 }));
    assert_eq!(s.next_sync(9), sync_packet(9, 44, 44, false));
    let p = s.next_packet();
    assert_eq!(p.len(), 1452);
    assert_eq!(p[..20], bytes("806000010000002c0000000017843b0c6069c4fd")[..]);
    assert_eq!(
        p[1424..],
        bytes("f02e34701662df03972e4d9b705e76e57e7cbd080000000000000000")[..]
    );
    let q = s.next_packet();
    assert_eq!(q[..8], bytes("806000020000018c")[..]);
    assert_eq!(q[1444..], bytes("0100000000000000")[..]);
    assert_eq!(q, audio_packet(&[7; 32], 1, &encode_alac_verbatim_silence(352), 396, 2, 0));
}
