//! Picture sizes, packets, encoder and stream.

use rottingapple::config::HwAccel;
use rottingapple::crypto::chacha::StreamCipher;
use rottingapple::crypto::mirror_aes::MirrorAesCtr;
use rottingapple::crypto::mirror_crypto::MirrorVideoCrypto;
use rottingapple::ntp::{init_session_clock, ntp_boot_relative_with_bias, Span};
use rottingapple::video::encoder::{
    encoder_bps, frame_of_output, EncodedFrame, EncoderTrait, FrameKind, FrameSizes, HwEncoderKind,
    LazyEncoder, SoftwareEncoder,
};
use rottingapple::video::geometry::{
    align16, align16_ceil, auto_bitrate_kbps, downscale_rgba, even_dim, fill_rgb,
    fit_rgba_to_coded, fit_stream_dims, MAX_STREAM_HEIGHT, MAX_STREAM_WIDTH,
};
use rottingapple::video::mirror_packet::{
    bias_from_audio_latency_samples, build_avcc_config, build_codec_header, build_heartbeat_header,
    build_video_header, extract_nals, nal_type_summary, nals_to_avcc, ntp_time_at, ntp_time_now,
    ntp_time_with_bias, partition_access_unit, split_annex_b,
};
use rottingapple::video::pacing::{frame_duration, FramePacer};
use rottingapple::video::stream::{
    frame_channel, unit_packets, CodecSizes, Fetched, MirrorCipher, MirrorStreamer, StreamLoop,
};
use rottingapple::video::synthetic::SyntheticSource;

#[test]
fn ultrawide_fits_macroblock_grid() {
    let (w, h) = fit_stream_dims(3440, 1440);
    assert_eq!(w, 1920);
    assert_eq!(h, 816);
    assert_eq!(w % 16, 0);
    assert_eq!(h % 16, 0);
}

#[test]
fn hd1080_rounds_height_up_to_1088() {
    let (w, h) = fit_stream_dims(1920, 1080);
    assert_eq!(w, 1920);
    assert_eq!(h, 1088);
}

#[test]
fn splits_annex_b_access_unit() {
    let au = [
        0, 0, 0, 1, 0x67, 0x42, 0x00, 0x1f, 0, 0, 0, 1, 0x68, 0xce, 0x3c, 0x80, 0, 0, 0, 1, 0x65,
        0x88, 0x84,
    ];
    let (sps, pps, vcl) = partition_access_unit(&au);
    assert!(sps.is_some());
    assert!(pps.is_some());
    assert_eq!(vcl.len(), 1);
    assert_eq!(vcl[0][0] & 0x1f, 5);
}

#[test]
fn coded_sizes() {
    assert_eq!((MAX_STREAM_WIDTH, MAX_STREAM_HEIGHT), (1920, 1088));
    assert_eq!((align16(31), align16_ceil(17)), (16, 32));
    assert_eq!(fit_stream_dims(0, 0), (16, 16));
    assert_eq!(fit_stream_dims(1280, 720), (1280, 720));
    assert_eq!(fit_stream_dims(1920, 816), fit_stream_dims(3440, 1440));
    assert_eq!(fit_stream_dims(2560, 1440), (1920, 1088));
    assert_eq!(fit_stream_dims(3840, 2160), (1920, 1088));
    assert_eq!(even_dim(1081), 1080);
    assert_eq!(auto_bitrate_kbps(1920, 1080, 30), 20000);
    assert_eq!(auto_bitrate_kbps(320, 240, 10), 2000);
    assert_eq!(auto_bitrate_kbps(640, 480, 30), 9216);
}

#[test]
fn scaled_pictures() {
    let px = [1u8, 1, 1, 1, 2, 2, 2, 2, 3, 3, 3, 3, 4, 4, 4, 4];
    assert_eq!(downscale_rgba(&px, 2, 2, 1, 1), vec![1, 1, 1, 1]);
    assert_eq!(downscale_rgba(&px, 4, 1, 2, 1), vec![1, 1, 1, 1, 3, 3, 3, 3]);
    assert_eq!(downscale_rgba(&px[..4], 2, 1, 2, 1), vec![1, 1, 1, 1, 0, 0, 0, 0]);
    let padded = fit_rgba_to_coded(&px, 2, 2, 2, 3);
    assert_eq!(padded[..16], px);
    assert_eq!(padded[16..], [0, 0, 0, 255, 0, 0, 0, 255]);
    assert_eq!(fit_rgba_to_coded(&px, 2, 2, 2, 2), px);
    let mut rgb = vec![9; 6];
    fill_rgb(&mut rgb, &[1, 2, 3, 4], 2);
    assert_eq!(rgb, vec![1, 2, 3, 9, 9, 9]);
}

#[test]
fn packet_headers() {
    let h = build_codec_header(1920, 1088, 1920, 1080, 33, 0x0102_0304_0506_0708);
    assert_eq!(h[..16], [33, 0, 0, 0, 1, 0, 0x16, 1, 8, 7, 6, 5, 4, 3, 2, 1]);
    assert_eq!(h[16..24], [0, 0, 0xf0, 0x44, 0, 0, 0x88, 0x44]);
    assert_eq!(h[40..48], h[16..24]);
    assert_eq!(h[56..60], 1920f32.to_le_bytes());
    assert_eq!(h[60..64], 1080f32.to_le_bytes());
    assert_eq!(h[24..40], [0; 16]);
    let odd = build_codec_header(16_777_217, u32::MAX, 0, 1, 0, 0);
    assert_eq!(odd[16..20], (16_777_217u32 as f32).to_le_bytes());
    assert_eq!(odd[20..24], (u32::MAX as f32).to_le_bytes());
    assert_eq!(odd[56..60], [0; 4]);
    let v = build_video_header(0x0a0b, true, 7);
    assert_eq!(v[..16], [0x0b, 0x0a, 0, 0, 0, 0x10, 0, 0, 7, 0, 0, 0, 0, 0, 0, 0]);
    assert_eq!(build_video_header(1, false, 0)[5], 0);
    let b = build_heartbeat_header();
    assert_eq!((b[4], b[6]), (2, 0x1e));
    assert_eq!(b.iter().map(|x| *x as u32).sum::<u32>(), 0x20);
}

#[test]
fn annex_b_units() {
    let stream = [0, 0, 1, 0x67, 1, 0, 0, 0, 1, 0x68, 2, 0, 0, 1, 0x65, 3, 4];
    let nals = split_annex_b(&stream);
    assert_eq!(nals, vec![vec![0x67, 1], vec![0x68, 2], vec![0x65, 3, 4]]);
    assert_eq!(nal_type_summary(&stream), vec![7, 8, 5]);
    let prefixed = nals_to_avcc(&nals);
    assert_eq!(prefixed[..6], [0, 0, 0, 2, 0x67, 1]);
    assert_eq!(extract_nals(&prefixed), nals);
    assert!(split_annex_b(&[1, 2, 3]).is_empty());
    assert_eq!(split_annex_b(&[0, 0, 1, 0x67, 0, 0, 1]), vec![vec![0x67]]);
    assert_eq!(split_annex_b(&[0, 0, 1, 0, 0, 1, 0x65]), vec![vec![0x65]]);
    assert_eq!(split_annex_b(&[0, 0, 1, 0, 0, 0, 1, 0x65, 0, 0, 0, 1]), vec![vec![0x65]]);
    assert_eq!(split_annex_b(&[0, 0, 1, 5, 0, 0, 0, 0, 1, 6]), vec![vec![5, 0], vec![6]]);
    assert!(extract_nals(&[]).is_empty());
}

#[test]
fn avcc_configuration() {
    assert_eq!(
        build_avcc_config(&[0x67, 0x42, 0xc0, 0x1f, 9], &[0x68, 1]),
        vec![1, 0x42, 0xc0, 0x1f, 0xff, 0xe1, 0, 5, 0x67, 0x42, 0xc0, 0x1f, 9, 1, 0, 2, 0x68, 1, 2,
             0, 0, 0]
    );
}

#[test]
fn frame_timestamps() {
    let b = bias_from_audio_latency_samples(44100);
    assert_eq!((b.secs, b.nanos), (1, 0));
    let b = bias_from_audio_latency_samples(44);
    assert_eq!((b.secs, b.nanos), (0, 997_732));
    assert_eq!(ntp_time_at(Span::zero(), Span::zero()), ntp_time_at(Span::zero(), Span::from_millis(5)));
    assert_eq!(ntp_time_at(Span::from_millis(1000), Span::from_millis(500)), (1 << 32) + (1 << 31));
    let clock = init_session_clock();
    let before = ntp_boot_relative_with_bias(&clock, Span::zero());
    let now = ntp_time_now(&clock);
    let after = ntp_boot_relative_with_bias(&clock, Span::zero());
    assert!(before <= now && now <= after);
    assert!(ntp_time_with_bias(&clock, Span::from_millis(2000)) >= 2 << 32);
}

#[test]
fn frame_pacing() {
    assert_eq!(frame_duration(30), 33_333_333);
    assert_eq!(frame_duration(60), 16_666_667);
    assert_eq!(frame_duration(0), 1_000_000_000);
    let mut p = FramePacer::new(30, 1000);
    assert_eq!(p.delay(1000), 0);
    p.wait(1000);
    assert_eq!(p.delay(1000), 33_333_333);
    p.wait(1_000_000_000);
    assert_eq!(p.delay(1_000_000_000), 0);
}

#[test]
fn test_pattern() {
    let mut s = SyntheticSource::new(2, 2);
    let (rgba, w, h) = s.next_frame().unwrap();
    assert_eq!((w, h), (2, 2));
    assert_eq!(rgba, vec![0, 0, 0, 255, 3, 0, 0, 255, 0, 5, 0, 255, 3, 5, 0, 255]);
    let (next, _, _) = s.next_frame().unwrap();
    assert_eq!(next[..8], [1, 1, 1, 255, 4, 1, 1, 255]);
}

#[test]
fn encoder_preferences() {
    assert_eq!(HwEncoderKind::resolve(HwAccel::Nvenc), HwEncoderKind::Nvenc);
    assert_eq!(HwEncoderKind::resolve(HwAccel::Vaapi), HwEncoderKind::Vaapi);
    assert_eq!(HwEncoderKind::resolve(HwAccel::Auto), HwEncoderKind::Software);
    assert_eq!(HwEncoderKind::resolve(HwAccel::Disabled), HwEncoderKind::Software);
    assert_eq!((encoder_bps(100), encoder_bps(4000)), (500_000, 4_000_000));
    match SoftwareEncoder::from_hw_pref(64, 64, 2000, HwAccel::Nvenc) {
        Err(e) => assert_eq!(
            e.message(),
            "video error: NVENC hardware encoding is not implemented yet; use --hwaccel none or auto"
        ),
        Ok(_) => panic!("encoder"),
    }
    let mut lazy = LazyEncoder::new(64, 64, 2000, HwAccel::Vaapi);
    assert!(lazy.encode(&[0; 64 * 64 * 4], 64, 64, 0).is_err());
}

#[test]
fn encoder_output_becomes_a_frame() {
    let sizes =
        FrameSizes { coded_width: 64, coded_height: 48, display_width: 64, display_height: 40 };
    let f = frame_of_output(Ok((vec![1], FrameKind::Idr)), 5, sizes).unwrap().unwrap();
    assert!(f.is_keyframe);
    assert_eq!((f.pts_us, f.coded_height, f.display_height), (5, 48, 40));
    assert!(!frame_of_output(Ok((vec![1], FrameKind::P)), 5, sizes).unwrap().unwrap().is_keyframe);
    assert!(frame_of_output(Ok((vec![], FrameKind::Skip)), 5, sizes).unwrap().is_none());
    let e = frame_of_output(Err("x".to_string()), 5, sizes).unwrap_err();
    assert_eq!(e.message(), "video error: openh264 encode: x");
}

#[test]
fn pictures_are_encoded() {
    let mut source = SyntheticSource::new(64, 48);
    let mut enc = LazyEncoder::new(64, 48, 2000, HwAccel::Auto);
    let (rgba, w, h) = source.next_frame().unwrap();
    let first = enc.encode(&rgba, w, h, 0).unwrap().unwrap();
    assert!(first.is_keyframe);
    assert_eq!((first.coded_width, first.coded_height), (64, 48));
    let (sps, pps, vcl) = partition_access_unit(&first.data);
    assert!(sps.is_some() && pps.is_some() && !vcl.is_empty());
    assert!(enc.encode(&rgba, 1, 1, 1).unwrap().is_none());
    let mut soft = SoftwareEncoder::new(64, 48, 2000).unwrap();
    assert_eq!(soft.kind(), HwEncoderKind::Software);
    soft.force_keyframe();
    assert!(soft.encode(&rgba, w, h, 9).unwrap().unwrap().is_keyframe);
}

#[test]
fn a_new_size_starts_with_a_key_frame() {
    let small = SyntheticSource::new(64, 48).next_frame().unwrap().0;
    let large = SyntheticSource::new(96, 64).next_frame().unwrap().0;
    let mut enc = SoftwareEncoder::new(64, 48, 2000).unwrap();
    assert!(enc.encode(&small, 64, 48, 0).unwrap().unwrap().is_keyframe);
    if let Some(f) = enc.encode(&small, 64, 48, 1).unwrap() {
        assert!(!f.is_keyframe);
    }
    let resized = enc.encode(&large, 96, 64, 2).unwrap().unwrap();
    assert!(resized.is_keyframe);
    assert_eq!((resized.coded_width, resized.coded_height, resized.pts_us), (96, 64, 2));
}

const SPS: [u8; 5] = [0x67, 0x42, 0xc0, 0x1f, 9];
const PPS: [u8; 2] = [0x68, 1];

fn frame(units: &[&[u8]], is_keyframe: bool, width: u32, height: u32) -> EncodedFrame {
    let mut data = Vec::new();
    for u in units {
        data.extend([0, 0, 0, 1]);
        data.extend(*u);
    }
    EncodedFrame {
        data,
        pts_us: 0,
        is_keyframe,
        coded_width: width,
        coded_height: height,
        display_width: width,
        display_height: height,
    }
}

fn sizes() -> CodecSizes {
    CodecSizes { content_width: 64, content_height: 48, display_width: 60, display_height: 40 }
}

#[test]
fn packets_of_a_plain_unit() {
    let mut c = MirrorCipher::from_crypto(&MirrorVideoCrypto::Plain);
    assert_eq!(c.mode_name(), "none");
    let key = frame(&[&SPS, &PPS, &[0x65, 3]], true, 64, 48);
    let p = unit_packets(&mut c, &key, false, sizes(), 7);
    let codec = p.codec.unwrap();
    let avcc = build_avcc_config(&SPS, &PPS);
    assert_eq!(codec[..128], build_codec_header(64, 48, 60, 40, avcc.len(), 7));
    assert_eq!(codec[128..], avcc);
    let vcl = p.vcl.unwrap().unwrap();
    assert_eq!(vcl[..128], build_video_header(6, true, 7));
    assert_eq!(vcl[128..], [0, 0, 0, 2, 0x65, 3]);
    assert!(unit_packets(&mut c, &key, true, sizes(), 7).codec.is_none());
    let bare = frame(&[&SPS], true, 64, 48);
    let p = unit_packets(&mut c, &bare, false, sizes(), 7);
    assert!(p.codec.is_none() && p.vcl.unwrap().is_none());
}

#[test]
fn packets_of_encrypted_units() {
    let unit = frame(&[&[0x61, 3, 4]], false, 64, 48);
    let plain = [0, 0, 0, 3, 0x61, 3, 4];
    let crypto = MirrorVideoCrypto::AesCtr { key: [3; 16], iv: [4; 16] };
    let mut aes = MirrorCipher::from_crypto(&crypto);
    assert_eq!(aes.mode_name(), "aes-ctr");
    let mut receiver = MirrorAesCtr::new(&[3; 16], &[4; 16]);
    for _ in 0..3 {
        let p = unit_packets(&mut aes, &unit, false, sizes(), 7).vcl.unwrap().unwrap();
        assert_eq!(p[..128], build_video_header(7, false, 7));
        assert_eq!(receiver.encrypt_frame(&p[128..]), plain);
    }
    let mut chacha = MirrorCipher::from_crypto(&MirrorVideoCrypto::ChaCha { key: [5; 32] });
    assert_eq!(chacha.mode_name(), "chacha");
    assert!(chacha.can_take(7));
    let mut receiver = StreamCipher::new(&[5; 32]);
    for _ in 0..3 {
        let p = unit_packets(&mut chacha, &unit, false, sizes(), 7).vcl.unwrap().unwrap();
        assert_eq!(p[..128], build_video_header(7 + 16, false, 7));
        assert_eq!(receiver.decrypt(&p[128..], &p[..128]).unwrap(), plain);
    }
}

#[test]
fn stream_sends_the_codec_once_for_a_size() {
    let mut s = StreamLoop::new(&MirrorVideoCrypto::Plain, 64, 48, 60, 40, 30);
    let key = || Some(frame(&[&SPS, &PPS, &[0x65, 3]], true, 64, 48));
    assert!(s.heartbeat().is_none());
    assert!(s.can_take(&key()));
    let first = s.on_encoded(key(), 1).unwrap();
    assert!(first.codec.is_some() && first.announces_first);
    assert_eq!(s.pts(), 33_333);
    assert_eq!(s.heartbeat(), Some(build_heartbeat_header()));
    let second = s.on_encoded(key(), 2).unwrap();
    assert!(second.codec.is_none() && !second.announces_first);
    assert!(s.on_encoded(None, 3).is_none());
    assert_eq!(s.pts(), 99_999);
    let grown = s.on_encoded(Some(frame(&[&SPS, &PPS, &[0x65, 3]], true, 128, 48)), 4).unwrap();
    let codec = grown.codec.unwrap();
    assert_eq!(codec[16..20], 128f32.to_le_bytes());
    assert_eq!(codec[56..60], 60f32.to_le_bytes());
}

#[test]
fn stream_announces_only_a_first_picture() {
    let mut s = StreamLoop::new(&MirrorVideoCrypto::Plain, 64, 48, 60, 40, 0);
    let bare = s.on_encoded(Some(frame(&[&SPS], true, 64, 48)), 1).unwrap();
    assert!(!bare.announces_first);
    let next = s.on_encoded(Some(frame(&[&[0x65, 3]], true, 64, 48)), 2).unwrap();
    assert!(!next.announces_first);
    assert_eq!(s.pts(), 2_000_000);
}

#[test]
fn streamer_counts() {
    let mut s = MirrorStreamer::new("tv".to_string(), 7002, MirrorVideoCrypto::Plain);
    assert_eq!(s.address(), "tv:7002");
    assert_eq!(s.video_crypto().mode_name(), "none");
    s.count_sent(134);
    s.count_sent(200);
    s.note_dropped(3);
    s.note_dropped(2);
    let st = s.stats();
    assert_eq!((st.frames_sent, st.bytes_sent, st.dropped_frames), (2, 334, 3));
}

#[test]
fn only_the_latest_frame_waits() {
    let mut q = frame_channel();
    assert!(matches!(q.recv(true), Fetched::Wait));
    q.send((vec![1], 1, 1));
    q.send((vec![2], 1, 1));
    q.send((vec![3], 1, 1));
    assert_eq!(q.dropped_frames(), 2);
    assert!(matches!(q.recv(false), Fetched::Frame((v, 1, 1)) if v == vec![3]));
    assert!(matches!(q.recv(false), Fetched::Closed));
    assert_eq!(q.dropped_frames(), 2);
}
