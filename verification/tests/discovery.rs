//! Finding receivers.

use rottingapple::debug_log::IpLiteral;
use rottingapple::device::{AirPlayDevice, DeviceFeatures};
use rottingapple::discovery::browser::{
    device_from_service, ip_string, position_v4, DeviceTable, ServiceRecord, AIRPLAY_SERVICE,
    DEFAULT_SCAN_SECS,
};
use rottingapple::discovery::resolve::{
    choose_address, device_from_info, enrich_features_from_mdns, info_of_parsed, parse_target,
    plist_display_size, plist_features, plist_string, plist_uint_value, plist_value_to_pk_string,
    read_info, resolve_via_mdns, LookupOutcome, Resolver,
};
use rottingapple::http_reply::HttpReply;
use rottingapple::plist_value::Plist;

fn v4(s: &str) -> IpLiteral {
    IpLiteral::V4(s.to_string())
}

fn v6(s: &str) -> IpLiteral {
    IpLiteral::V6(s.to_string())
}

fn service() -> ServiceRecord {
    ServiceRecord {
        fullname: "Living Room._airplay._tcp.local.".to_string(),
        hostname: "Living-Room.local.".to_string(),
        port: 7000,
        addresses: vec![v6("fe80::1"), v4("10.0.0.2"), v4("10.0.0.3")],
        device_id: Some("AA:BB".to_string()),
        model: Some("AppleTV6,2".to_string()),
        features: Some("0x4A7FFFF7,0xE".to_string()),
        pi: Some("pi".to_string()),
        pk: Some("pk".to_string()),
    }
}

#[test]
fn service_becomes_receiver() {
    assert_eq!(AIRPLAY_SERVICE, "_airplay._tcp.local.");
    assert_eq!(DEFAULT_SCAN_SECS, 5);
    let d = device_from_service(&service());
    assert_eq!(d.name, "Living Room");
    assert_eq!(d.host, "10.0.0.2");
    assert_eq!(d.port, 7000);
    assert_eq!(d.device_id, "AA:BB");
    assert_eq!(d.model.as_deref(), Some("AppleTV6,2"));
    assert_eq!(d.features.raw, 0xE_4A7F_FFF7);
    assert_eq!((d.display_width, d.display_height), (None, None));
    assert_eq!((d.pi.as_deref(), d.pk.as_deref()), (Some("pi"), Some("pk")));
}

#[test]
fn bare_service_uses_its_host_name() {
    let mut s = service();
    s.addresses = vec![v6("fe80::1")];
    s.device_id = None;
    s.features = None;
    s.model = None;
    let d = device_from_service(&s);
    assert_eq!(d.host, "Living-Room.local");
    assert_eq!(d.device_id, "Living-Room.local");
    assert_eq!(d.features.raw, 0);
    assert!(d.model.is_none());
}

fn named(name: &str, id: &str) -> AirPlayDevice {
    AirPlayDevice {
        name: name.to_string(),
        host: "h".to_string(),
        port: 7000,
        device_id: id.to_string(),
        model: None,
        features: DeviceFeatures { raw: 0 },
        display_width: None,
        display_height: None,
        pi: None,
        pk: None,
    }
}

#[test]
fn table_keeps_the_last_of_an_identifier_and_sorts() {
    let mut t = DeviceTable::new();
    t.insert(named("Zoo", "1"));
    t.insert(named("Attic", "2"));
    t.insert(named("Music", "1"));
    t.insert(named("\u{c4}rger", "3"));
    t.on_resolved(&service());
    let list = t.into_list();
    let names: Vec<&str> = list.iter().map(|d| d.name.as_str()).collect();
    assert_eq!(names, vec!["Attic", "Living Room", "Music", "\u{c4}rger"]);
    assert!(DeviceTable::new().into_list().is_empty());
}

#[test]
fn target_with_and_without_port() {
    assert_eq!(parse_target("tv.local", 7000), ("tv.local".to_string(), 7000));
    assert_eq!(parse_target("tv.local:7100", 7000), ("tv.local".to_string(), 7100));
    assert_eq!(parse_target("tv.local:x", 7000), ("tv.local:x".to_string(), 7000));
    assert_eq!(parse_target("tv.local:65536", 7000), ("tv.local:65536".to_string(), 7000));
    assert_eq!(parse_target("tv.local:", 7000), ("tv.local:".to_string(), 7000));
    assert_eq!(parse_target("fe80::1", 7000), ("fe80::1".to_string(), 7000));
    assert_eq!(parse_target("2001:db8::7:80", 7000), ("2001:db8::7:80".to_string(), 7000));
    for address in [
        "::", "::1", "1::", "1:2:3:4:5:6:7:8", "1:2:3:4:5:6:1.2.3.4", "::ffff:10.0.0.255",
        "1:2:3::5:6:7:8", "ABCD:ef01::",
    ] {
        assert_eq!(parse_target(address, 7000), (address.to_string(), 7000));
    }
    for (target, host, port) in [
        ("a:b:7000", "a:b", 7000),
        ("h::80", "h:", 80),
        ("a::b::70", "a::b:", 70),
        ("1:2:3:4:5:6:7", "1:2:3:4:5:6", 7),
        ("1:2:3:4:5:6:7:8:9", "1:2:3:4:5:6:7:8", 9),
        ("1:2:3:4::5:6:7:8", "1:2:3:4::5:6:7", 8),
        ("fe80::1:65000", "fe80::1", 65000),
        ("1.2.3.4::80", "1.2.3.4:", 80),
        ("fe80::1%eth0:7100", "fe80::1%eth0", 7100),
    ] {
        assert_eq!(parse_target(target, 7000), (host.to_string(), port));
    }
    assert_eq!(parse_target("fe80::1%3", 7000), ("fe80::1%3".to_string(), 7000));
    assert_eq!(parse_target("[fe80::1]:7100", 7000), ("[fe80::1]".to_string(), 7100));
    assert_eq!(parse_target("[fe80::1]", 7000), ("[fe80::1]".to_string(), 7000));
    assert_eq!(parse_target("h:+80", 7000), ("h".to_string(), 80));
    assert_eq!(parse_target("", 9), (String::new(), 9));
}

#[test]
fn ipv4_is_preferred() {
    let a = [v6("::1"), v4("1.2.3.4")];
    assert_eq!(position_v4(&a), 1);
    assert_eq!(ip_string(&choose_address(&a).unwrap()), "1.2.3.4");
    assert_eq!(ip_string(&choose_address(&[v6("::1"), v6("::2")]).unwrap()), "::1");
    assert!(choose_address(&[]).is_none());
}

#[test]
fn announced_address_by_host_or_name() {
    let s = service();
    let found = |host: &str, port: u16| resolve_via_mdns(&s, host, port).map(|ip| ip_string(&ip));
    assert_eq!(found("LIVING-ROOM.local", 7000).as_deref(), Some("10.0.0.2"));
    assert_eq!(found("living-room.local.", 7000).as_deref(), Some("10.0.0.2"));
    assert_eq!(found("living room.local", 7000).as_deref(), Some("10.0.0.2"));
    assert_eq!(found("living-room.local", 7001), None);
    assert_eq!(found("kitchen.local", 7000), None);
}

#[test]
fn announced_capabilities_by_host_or_address() {
    let s = service();
    let found = |host: &str, port: u16| enrich_features_from_mdns(&s, host, port).map(|f| f.raw);
    assert_eq!(found("10.0.0.3", 7000), Some(0xE_4A7F_FFF7));
    assert_eq!(found("Living-Room.LOCAL", 7000), Some(0xE_4A7F_FFF7));
    assert_eq!(found("FE80::1", 7000), Some(0xE_4A7F_FFF7));
    assert_eq!(found("10.0.0.3", 1), None);
    assert_eq!(found("10.0.0.9", 7000), None);
    let mut none = service();
    none.features = Some("0x0".to_string());
    assert!(enrich_features_from_mdns(&none, "10.0.0.3", 7000).is_none());
    none.features = None;
    assert!(enrich_features_from_mdns(&none, "10.0.0.3", 7000).is_none());
}

fn text(s: &str) -> Plist {
    Plist::Text(s.to_string())
}

fn dict(entries: Vec<(&str, Plist)>) -> Plist {
    Plist::Dict(entries.into_iter().map(|(k, v)| (k.to_string(), v)).collect())
}

fn info() -> Plist {
    dict(vec![
        ("name", text("Den")),
        ("deviceid", text("11:22")),
        ("model", text("AppleTV5,3")),
        ("features", Plist::Integer(255)),
        ("pi", text("p")),
        ("pk", Plist::Data(vec![0xab; 32])),
        (
            "displays",
            Plist::Array(vec![dict(vec![
                ("widthPixels", Plist::Integer(3840)),
                ("height", Plist::Real(2160f64.to_bits())),
            ])]),
        ),
    ])
}

#[test]
fn numbers_in_property_lists() {
    assert_eq!(plist_uint_value(&Plist::Integer(-3)), Some(0));
    assert_eq!(plist_uint_value(&Plist::Integer(u64::MAX as i128)), Some(u64::MAX));
    assert_eq!(plist_uint_value(&Plist::Real(2.9f64.to_bits())), Some(2));
    assert_eq!(plist_uint_value(&Plist::Real((-0.0f64).to_bits())), Some(0));
    assert_eq!(plist_uint_value(&Plist::Real((-0.5f64).to_bits())), None);
    assert_eq!(plist_uint_value(&Plist::Real(f64::NAN.to_bits())), None);
    assert_eq!(plist_uint_value(&Plist::Real(1e30f64.to_bits())), Some(u64::MAX));
    assert_eq!(plist_uint_value(&Plist::Real(f64::INFINITY.to_bits())), Some(u64::MAX));
    assert_eq!(plist_uint_value(&Plist::Real(1.8e19f64.to_bits())), Some(1.8e19f64 as u64));
    assert_eq!(plist_uint_value(&text("3")), None);
}

#[test]
fn description_readers() {
    let i = Some(info());
    assert_eq!(plist_string(&i, "name").as_deref(), Some("Den"));
    assert_eq!(plist_string(&i, "features"), None);
    assert_eq!(plist_string(&None, "name"), None);
    assert_eq!(plist_features(&i).raw, 255);
    assert_eq!(plist_features(&Some(dict(vec![("features", text("0x10"))]))).raw, 16);
    assert_eq!(plist_features(&Some(dict(vec![("features", Plist::Boolean(true))]))).raw, 0);
    assert_eq!(plist_features(&None).raw, 0);
    assert_eq!(plist_display_size(&i), (Some(3840), Some(2160)));
    assert_eq!(plist_display_size(&Some(dict(vec![("displays", Plist::Array(vec![]))]))), (None, None));
    let zero = dict(vec![(
        "displays",
        Plist::Array(vec![dict(vec![
            ("width", Plist::Integer(0)),
            ("height", Plist::Integer(1 << 32)),
        ])]),
    )]);
    assert_eq!(plist_display_size(&Some(zero)), (None, None));
    assert_eq!(plist_value_to_pk_string(&text("k")).as_deref(), Some("k"));
    assert_eq!(
        plist_value_to_pk_string(&Plist::Data(vec![0x0a; 32])).unwrap(),
        "0a".repeat(32)
    );
    assert_eq!(plist_value_to_pk_string(&Plist::Data(vec![1; 31])), None);
    assert_eq!(plist_value_to_pk_string(&Plist::Integer(1)), None);
}

const XML: &str = "<?xml version=\"1.0\" encoding=\"UTF-8\"?>\n<plist version=\"1.0\"><dict>\
<key>name</key><string>Den</string><key>features</key><integer>7</integer></dict></plist>";

#[test]
fn description_comes_from_a_successful_reply() {
    let ok = HttpReply { status: 200, body: XML.as_bytes().to_vec() };
    let i = read_info(&ok);
    assert_eq!(plist_string(&i, "name").as_deref(), Some("Den"));
    assert_eq!(plist_features(&i).raw, 7);
    assert!(read_info(&HttpReply { status: 404, body: XML.as_bytes().to_vec() }).is_none());
    assert!(read_info(&HttpReply { status: 200, body: b"nonsense".to_vec() }).is_none());
    assert!(read_info(&HttpReply { status: 200, body: b"bplist00".to_vec() }).is_none());
    assert!(info_of_parsed(200, Ok(text("x"))).is_none());
    assert!(info_of_parsed(200, Err("bad".to_string())).is_none());
    assert!(info_of_parsed(200, Ok(info())).is_some());
}

#[test]
fn described_receiver() {
    let d = device_from_info("tv.local", "10.0.0.2", 7000, &Some(info()), DeviceFeatures { raw: 3 });
    assert_eq!(d.name, "Den");
    assert_eq!((d.host.as_str(), d.port), ("10.0.0.2", 7000));
    assert_eq!(d.device_id, "11:22");
    assert_eq!(d.features.raw, 3);
    assert_eq!(d.model.as_deref(), Some("AppleTV5,3"));
    assert_eq!((d.display_width, d.display_height), (Some(3840), Some(2160)));
    assert_eq!(d.pk.unwrap(), "ab".repeat(32));
    let bare = device_from_info("tv.local", "10.0.0.2", 7000, &None, DeviceFeatures { raw: 0 });
    assert_eq!((bare.name.as_str(), bare.device_id.as_str()), ("tv.local", "tv.local"));
    assert!(bare.pk.is_none());
}

#[test]
fn way_to_a_receiver_by_lookup() {
    let mut r = Resolver::new("tv.example:7100", 7000);
    assert_eq!(r.lookup_address(), "tv.example:7100");
    let url = r.on_lookup(&LookupOutcome::Addresses(vec![v6("fe80::1")])).unwrap();
    assert_eq!(url.as_deref(), Some("http://[fe80::1]:7100/info"));
    assert!(!r.on_info(Some(info())));
    let d = r.finish(Some(DeviceFeatures { raw: 9 }));
    assert_eq!(d.host, "[fe80::1]");
    assert_eq!(d.features.raw, 255);
}

#[test]
fn way_to_a_receiver_by_browsing() {
    let mut r = Resolver::new("tv.local", 7000);
    assert!(r.on_lookup(&LookupOutcome::Failed("no".to_string())).unwrap().is_none());
    assert_eq!(r.on_browsed(Some(v4("10.0.0.2"))).unwrap(), "http://10.0.0.2:7000/info");
    assert!(r.on_info(None));
    let d = r.finish(Some(DeviceFeatures { raw: 9 }));
    assert_eq!((d.name.as_str(), d.host.as_str(), d.features.raw), ("tv.local", "10.0.0.2", 9));
    assert_eq!(r.finish(None).features.raw, 0);
}

#[test]
fn lookup_faults() {
    let mut r = Resolver::new("tv", 7000);
    let say = |e: rottingapple::error::RottenError| e.message();
    assert_eq!(
        say(r.on_lookup(&LookupOutcome::Failed("no".to_string())).unwrap_err()),
        "device not found: cannot resolve tv:7000: no"
    );
    assert_eq!(
        say(r.on_lookup(&LookupOutcome::TaskFailed("gone".to_string())).unwrap_err()),
        "device not found: DNS task failed for tv:7000: gone"
    );
    assert_eq!(
        say(r.on_lookup(&LookupOutcome::TimedOut).unwrap_err()),
        "device not found: DNS timeout resolving tv:7000"
    );
    assert!(r.on_lookup(&LookupOutcome::Addresses(vec![])).unwrap().is_none());
    assert_eq!(
        say(r.on_browsed(None).unwrap_err()),
        "device not found: cannot resolve tv:7000 (DNS and mDNS failed; try the IP from \
         `rottingapple discover`)"
    );
    let mut local = Resolver::new("tv.local", 7000);
    assert!(local.on_lookup(&LookupOutcome::TimedOut).unwrap().is_none());
    assert!(local.on_lookup(&LookupOutcome::TaskFailed("x".to_string())).is_err());
}
