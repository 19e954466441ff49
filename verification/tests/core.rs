//! Time stamps, configuration, errors, sessions and hosts.

use rottingapple::config::{
    parse_device_id_from_host, resolve_credentials_path, CredentialsStore, DeviceCredentials,
    HwAccel, MirrorCipherMode, MirrorConfig, StreamConfig,
};
use rottingapple::debug_log::{debug_logging_enabled, format_host_for_url, IpLiteral, DEBUG_BUILD_ID};
use rottingapple::device::DeviceFeatures;
use rottingapple::error::RottenError;
use rottingapple::http_reply::{is_success, status_text};
use rottingapple::ntp::{
    init_session_clock, ntp_boot_at_with_bias, ntp_boot_relative, ntp_boot_relative_with_bias,
    ntp_boot_with_epoch, ntp_epoch_at, ntp_epoch_at_with_bias, ntp_epoch_now, ntp_epoch_with_bias,
    Span, NTP_EPOCH_OFFSET,
};
use rottingapple::session::{MirrorSession, SessionState};

#[test]
fn epoch_timestamp_is_ahead_of_boot_relative() {
    let clock = init_session_clock();
    let boot = ntp_boot_relative_with_bias(&clock, Span::zero());
    let epoch = ntp_epoch_now(&clock);
    assert!(epoch > boot);
    assert!(epoch - boot >= NTP_EPOCH_OFFSET << 32);
}

#[test]
fn ntp_epoch_timestamp_is_ahead_of_boot_relative() {
    let clock = init_session_clock();
    let boot = ntp_boot_relative_with_bias(&clock, Span::zero());
    let epoch = ntp_boot_with_epoch(&clock);
    assert!(epoch > boot);
    assert!(epoch - boot >= NTP_EPOCH_OFFSET << 32);
}

#[test]
fn bias_advances_timestamp() {
    let clock = init_session_clock();
    let base = ntp_boot_relative_with_bias(&clock, Span::zero());
    let biased = ntp_boot_relative_with_bias(&clock, Span::from_millis(100));
    assert!(biased >= base);
}

#[test]
fn timestamps_are_fixed_point() {
    assert_eq!(NTP_EPOCH_OFFSET, 2_208_988_800);
    let half = Span::from_millis(1500);
    assert_eq!(ntp_boot_at_with_bias(half, Span::zero()), (1 << 32) + (1 << 31));
    assert_eq!(
        ntp_epoch_at(half),
        ((NTP_EPOCH_OFFSET + 1) << 32) + (1 << 31)
    );
    assert_eq!(
        ntp_epoch_at_with_bias(half, Span::from_millis(500)),
        (NTP_EPOCH_OFFSET + 2) << 32
    );
    assert_eq!(ntp_boot_at_with_bias(Span::from_nanos(1), Span::zero()), 4);
    assert_eq!(
        ntp_boot_at_with_bias(Span::zero(), Span::from_millis(100)),
        429_496_729
    );
    let third = ntp_boot_at_with_bias(Span::from_nanos(333_333_333), Span::zero());
    let biased = ntp_boot_at_with_bias(Span::from_nanos(333_333_333), Span::from_millis(100));
    assert_eq!((third, biased - third), (1_431_655_763, 429_496_730));
}

#[test]
fn clock_goes_forward() {
    let clock = init_session_clock();
    let a = ntp_boot_relative(&clock);
    let b = ntp_boot_relative(&clock);
    assert!(a <= b);
    let now = ntp_epoch_now(&clock);
    assert!(ntp_epoch_with_bias(&clock, Span::from_millis(10)) >= now);
    assert!(clock.elapsed().secs < 3600);
}

#[test]
fn spans_compare_and_seconds_wrap() {
    let a = Span::from_millis(1999);
    let b = Span::from_nanos(1_000_000);
    assert_eq!(ntp_boot_at_with_bias(a, b), 2 << 32);
    let far = Span { secs: u64::MAX, nanos: 500_000_000 };
    assert_eq!(ntp_boot_at_with_bias(far, far), 0xffff_ffff_0000_0000);
    assert_eq!(
        ntp_epoch_at(far),
        ((NTP_EPOCH_OFFSET - 1) << 32) + 0x8000_0000
    );
    let longer = b.longer(&a);
    assert_eq!((longer.secs, longer.nanos), (1, 999_000_000));
}

#[test]
fn brackets_ipv6() {
    assert_eq!(
        format_host_for_url("fe80::1", Some(IpLiteral::V6("fe80::1".to_string()))),
        "[fe80::1]"
    );
    assert_eq!(
        format_host_for_url("192.168.1.50", Some(IpLiteral::V4("192.168.1.50".to_string()))),
        "192.168.1.50"
    );
    assert_eq!(format_host_for_url("Apple-TV.local", None), "Apple-TV.local");
}

#[test]
fn bracketed_host_stays() {
    assert_eq!(format_host_for_url("[fe80::1]", None), "[fe80::1]");
}

#[test]
fn log_switch_values() {
    assert!(debug_logging_enabled(Some("1")));
    assert!(!debug_logging_enabled(Some("true")));
    assert!(!debug_logging_enabled(Some("yes")));
    assert!(!debug_logging_enabled(Some("0")));
    assert!(!debug_logging_enabled(Some("TRUE")));
    assert!(!debug_logging_enabled(None));
    assert_eq!(DEBUG_BUILD_ID, "v0.1.0");
}

#[test]
fn hardware_encoder_names_in_any_case() {
    assert_eq!(HwAccel::from_str("NVENC"), HwAccel::Nvenc);
    assert_eq!(HwAccel::from_str("VaApi"), HwAccel::Vaapi);
    assert_eq!(HwAccel::from_str("None"), HwAccel::Disabled);
    assert_eq!(HwAccel::from_str("auto"), HwAccel::Auto);
    assert_eq!(HwAccel::from_str("quick"), HwAccel::Auto);
    assert_eq!(HwAccel::from_lowercase("nvenc"), HwAccel::Nvenc);
}

#[test]
fn default_configuration() {
    let c = MirrorConfig::with_credentials_path("/c.json".to_string());
    let s = StreamConfig::default();
    assert_eq!((s.width, s.height, s.fps, s.bitrate_kbps), (1920, 1080, 30, 0));
    assert_eq!(c.stream.width, 1920);
    assert!(c.pin.is_none() && !c.force_pair && !c.test_mode && !c.audio && !c.no_encrypt);
    assert_eq!(c.hw_accel, HwAccel::Auto);
    assert_eq!(c.cipher, MirrorCipherMode::ChaCha);
    assert_eq!(c.credentials_path, "/c.json");
    assert!(c.display_index.is_none() && !c.virtual_display_only);
}

fn creds(id: &str, key: u8) -> DeviceCredentials {
    DeviceCredentials {
        device_id: id.to_string(),
        identifier: "ident".to_string(),
        public_key: vec![key; 32],
        private_key: vec![key; 32],
        server_public_key: Vec::new(),
    }
}

#[test]
fn store_finds_what_was_put_in() {
    let mut store = CredentialsStore::default();
    assert!(store.get("a").is_none());
    store.upsert(creds("a", 1));
    store.upsert(creds("b", 2));
    store.upsert(creds("a", 3));
    assert_eq!(store.devices.len(), 2);
    assert_eq!(store.get("a").unwrap().public_key[0], 3);
    assert_eq!(store.get("b").unwrap().public_key[0], 2);
    store.remove("a");
    assert!(store.get("a").is_none());
    assert_eq!(store.get("b").unwrap().public_key[0], 2);
}

#[test]
fn credentials_path_given_or_default() {
    assert_eq!(
        resolve_credentials_path(Some("/x".to_string()), "/d".to_string()),
        "/x"
    );
    assert_eq!(resolve_credentials_path(None, "/d".to_string()), "/d");
}

#[test]
fn device_id_from_host() {
    assert_eq!(parse_device_id_from_host("tv.local").unwrap(), "tv.local");
    let e = parse_device_id_from_host("").unwrap_err();
    assert_eq!(e.message(), "device not found: empty host");
}

#[test]
fn error_texts() {
    let cases = [
        (RottenError::Discovery("x".to_string()), "discovery error: x"),
        (RottenError::Pairing("x".to_string()), "pairing error: x"),
        (RottenError::Protocol("x".to_string()), "protocol error: x"),
        (RottenError::Video("x".to_string()), "video error: x"),
        (RottenError::Capture("x".to_string()), "capture error: x"),
        (RottenError::Crypto("x".to_string()), "crypto error: x"),
        (RottenError::DeviceNotFound("x".to_string()), "device not found: x"),
        (
            RottenError::CredentialsNotFound { device_id: "x".to_string() },
            "credentials not found for device x",
        ),
        (RottenError::Io("x".to_string()), "io error: x"),
        (RottenError::Json("x".to_string()), "json error: x"),
    ];
    for (e, text) in cases {
        assert_eq!(e.message(), text);
    }
}

#[test]
fn session_starts_disconnected_and_moves() {
    let mut s = MirrorSession::default();
    assert_eq!(s.state, SessionState::Disconnected);
    assert!(s.session_id.is_none());
    s.transition(SessionState::Streaming);
    assert_eq!(s.state, SessionState::Streaming);
}

#[test]
fn success_statuses() {
    assert!(is_success(200) && is_success(299));
    assert!(!is_success(199) && !is_success(300) && !is_success(404));
    assert_eq!(status_text("HTTP ", 470, "!"), "HTTP 470!");
}

#[test]
fn announced_capabilities() {
    assert_eq!(DeviceFeatures::from_hex("0x4A7FFFF7,0xE").raw, 0xE_4A7F_FFF7);
    assert_eq!(DeviceFeatures::from_hex("0x5A7FFEE6").raw, 0x5A7F_FEE6);
    assert_eq!(DeviceFeatures::from_hex("0xFFFFFFFFFFFFFFFF").raw, u64::MAX);
    assert_eq!(DeviceFeatures::from_hex("0x1FFFFFFFF,0x1").raw, 0);
    assert_eq!(DeviceFeatures::from_hex("").raw, 0);
    assert_eq!(DeviceFeatures::from_hex("0x").raw, 0);
    assert_eq!(DeviceFeatures::from_hex("0xZZ").raw, 0);
}
