//! Commands, audio placeholder and stream planning.

use rottingapple::audio::{list_audio_sources, AudioMirror};
use rottingapple::capture::frame::{CaptureFrame, DisplayInfo};
use rottingapple::cli::{
    check_pin, discover_report, first_device, mirror_config, paired_report, CipherArg, Cli,
    Commands, MirrorArgs, NO_DEVICE_TEXT, PROBE_TEXT,
};
use rottingapple::config::{HwAccel, MirrorCipherMode, MirrorConfig};
use rottingapple::device::{AirPlayDevice, DeviceFeatures};
use rottingapple::mirroring::{
    captured_size, frame_delay_ms, keeps_alive, plan_stream, presentation_size, queue_frame,
    FEEDBACK_SECS, KEEPALIVE_SECS,
};

fn device(model: Option<&str>) -> AirPlayDevice {
    AirPlayDevice {
        name: "Den".to_string(),
        host: "10.0.0.2".to_string(),
        port: 7000,
        device_id: "AA".to_string(),
        model: model.map(|m| m.to_string()),
        features: DeviceFeatures { raw: 0 },
        display_width: None,
        display_height: None,
        pi: None,
        pk: None,
    }
}

#[test]
fn scan_report() {
    assert_eq!(discover_report(&[]), "No AirPlay devices found.\n");
    assert_eq!(
        discover_report(&[device(None), device(Some("AppleTV6,2"))]),
        "Found 2 AirPlay device(s):\n\n  Den — 10.0.0.2:7000 (AA)\n  Den — 10.0.0.2:7000 \
         (AA)\n    model: AppleTV6,2\n"
    );
    assert_eq!(paired_report(&device(None), "BB"), "Paired with Den (BB)");
    assert_eq!(PROBE_TEXT, "rottingapple probe ok");
    assert_eq!(NO_DEVICE_TEXT, "no AirPlay devices found; use --target");
}

#[test]
fn pins_have_four_or_six_digits() {
    assert_eq!(check_pin(&None).unwrap(), None);
    assert_eq!(check_pin(&Some("12-34".to_string())).unwrap().as_deref(), Some("1234"));
    assert_eq!(check_pin(&Some("123456".to_string())).unwrap().as_deref(), Some("123456"));
    assert_eq!(
        check_pin(&Some("12345".to_string())).unwrap_err().message(),
        "pairing error: PIN must be 4 or 6 digits, got 5"
    );
}

#[test]
fn first_of_the_found_receivers() {
    assert!(first_device(vec![]).is_none());
    let mut b = device(None);
    b.name = "Other".to_string();
    assert_eq!(first_device(vec![b, device(None)]).unwrap().name, "Other");
}

fn args() -> MirrorArgs {
    MirrorArgs {
        target: None,
        pin: Some("1234".to_string()),
        port: 7000,
        width: 1280,
        height: 720,
        fps: 60,
        bitrate: 5000,
        hwaccel: "NONE".to_string(),
        test: true,
        audio: false,
        pair: true,
        virtual_display: false,
        display: Some(2),
        creds: None,
        debug: false,
        no_encrypt: true,
        cipher: CipherArg::Aes,
    }
}

#[test]
fn configuration_of_the_mirror_command() {
    let c = mirror_config(&args(), "/d").unwrap();
    assert_eq!((c.stream.width, c.stream.height), (1280, 720));
    assert_eq!((c.stream.fps, c.stream.bitrate_kbps), (60, 5000));
    assert_eq!(c.pin.as_deref(), Some("1234"));
    assert!(c.force_pair && c.test_mode && !c.audio && c.no_encrypt);
    assert_eq!(c.hw_accel, HwAccel::Disabled);
    assert_eq!(c.credentials_path, "/d");
    assert_eq!(c.display_index, Some(2));
    assert_eq!(c.cipher, MirrorCipherMode::AesCtr);
    let mut bad = args();
    bad.pin = Some("1".to_string());
    bad.creds = Some("/c".to_string());
    assert!(mirror_config(&bad, "/d").is_err());
    bad.pin = None;
    assert_eq!(mirror_config(&bad, "/d").unwrap().credentials_path, "/c");
    assert_eq!(MirrorCipherMode::from(CipherArg::default()), MirrorCipherMode::ChaCha);
    let cli = Cli { command: Commands::Discover { timeout: 5 } };
    assert!(matches!(cli.command, Commands::Discover { timeout: 5 }));
}

#[test]
fn audio_placeholder() {
    assert_eq!(list_audio_sources(), vec!["default".to_string()]);
    let m = AudioMirror::start(&device(None)).unwrap();
    assert_eq!(m.stop().unwrap(), "Den");
}

fn screen(width: u32, height: u32) -> DisplayInfo {
    DisplayInfo { index: 0, name: "s".to_string(), width, height, is_virtual: false }
}

#[test]
fn stream_plan() {
    let config = MirrorConfig::with_credentials_path("/c".to_string());
    let p = plan_stream(&config, &device(None), &[], None, 0);
    assert_eq!((p.width, p.height), (1920, 1088));
    assert_eq!((p.presentation_width, p.presentation_height), (1920, 1080));
    assert_eq!(p.presentation_source, "capture-size");
    assert_eq!(p.latency_samples, 44);
    assert_eq!((p.fps, p.bitrate_kbps, p.frame_delay_ms), (30, 20000, 33));

    let mut d = device(None);
    d.display_width = Some(3840);
    d.display_height = Some(2160);
    d.features.raw = 1;
    let p = plan_stream(&config, &d, &[screen(3441, 1441)], None, 100);
    assert_eq!((p.width, p.height), (1920, 816));
    assert_eq!((p.presentation_width, p.presentation_height), (3840, 2160));
    assert_eq!(p.presentation_source, "receiver-info");
    assert_eq!(p.latency_samples, 4410);
    assert_eq!(plan_stream(&config, &d, &[], Some(77), 100).latency_samples, 77);
}

#[test]
fn sizes_and_delays() {
    let config = MirrorConfig::with_credentials_path("/c".to_string());
    assert_eq!(captured_size(&config.stream, &[screen(5, 6), screen(7, 8)]), (5, 6));
    assert_eq!(captured_size(&config.stream, &[]), (1920, 1080));
    assert_eq!(presentation_size(&device(None), (5, 7)), (4, 6, "capture-size"));
    let mut d = device(None);
    d.display_width = Some(0);
    d.display_height = Some(10);
    assert_eq!(presentation_size(&d, (5, 7)), (4, 6, "capture-size"));
    assert_eq!(frame_delay_ms(0), 1000);
    assert_eq!(frame_delay_ms(60), 16);
    assert!(!keeps_alive(400) && keeps_alive(200) && keeps_alive(500));
    assert_eq!((FEEDBACK_SECS, KEEPALIVE_SECS), (2, 15));
}

#[test]
fn queued_pictures_are_on_the_grid() {
    let exact = CaptureFrame { rgba: vec![7; 16 * 16 * 4], width: 16, height: 16 };
    let (rgba, w, h) = queue_frame(exact);
    assert_eq!((rgba.len(), w, h), (1024, 16, 16));
    let odd = CaptureFrame { rgba: vec![7; 20 * 10 * 4], width: 20, height: 10 };
    let (rgba, w, h) = queue_frame(odd);
    assert_eq!((w, h), (16, 16));
    assert_eq!(rgba, vec![7; 16 * 16 * 4]);
    let again = queue_frame(CaptureFrame { rgba: rgba.clone(), width: w, height: h });
    assert_eq!(again, (rgba, w, h));
}
