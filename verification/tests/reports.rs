//! Property lists with dates, and reports on a session.

use rottingapple::feedback::{
    feedback_plist_summary, report_stream, report_value, FeedbackSummary, ReportValue,
};
use rottingapple::http_reply::HttpReply;
use rottingapple::discovery::resolve::read_info;
use rottingapple::pairing::legacy_pin::read_reply;
use rottingapple::plist_value::{is_printable, is_readable, read_plist, Plist};
use rottingapple::protocol::audio_rtp::plist_audio_ports;

fn xml(body: &str) -> Vec<u8> {
    format!("<?xml version=\"1.0\"?><plist version=\"1.0\">{body}</plist>").into_bytes()
}

fn dated(date: &str) -> Vec<u8> {
    xml(&format!("<dict><key>k</key>{date}<key>name</key><string>tv</string></dict>"))
}

fn binary_date(seconds: f64) -> Vec<u8> {
    let mut out = b"bplist00\x33".to_vec();
    out.extend(seconds.to_be_bytes());
    out.push(8);
    out.extend([0, 0, 0, 0, 0, 0, 1, 1]);
    out.extend(1u64.to_be_bytes());
    out.extend(0u64.to_be_bytes());
    out.extend(17u64.to_be_bytes());
    out
}

fn get<'a>(p: &'a Plist, key: &str) -> &'a Plist {
    p.get(key).unwrap()
}

fn is_date(p: &Plist, before: bool, at: (u64, u32)) -> bool {
    matches!(p, Plist::Date { before_epoch, secs, nanos } if *before_epoch == before && (*secs, *nanos) == at)
}

#[test]
fn dates_in_range_are_read() {
    let list = read_plist(&dated("<date>2024-05-01T10:00:00Z</date>")).unwrap();
    assert!(is_date(get(&list, "k"), false, (1_714_557_600, 0)));
    assert!(matches!(get(&list, "name"), Plist::Text(s) if s == "tv"));
    for date in [
        "<date>1601-01-01T00:00:00Z</date>",
        "<date>1601-01-01T23:59:00+23:59</date>",
        "<date>1602-01-01T00:00:00+23:59</date>",
        "<date>9998-12-31T23:59:59-23:59</date>",
        "<date>9999-12-31T23:59:59Z</date>",
        "<date>9999-12-31T23:59:59.999999999Z</date>",
        "<date>9999-12-31T22:59:59-01:00</date>",
        "<date>9999-12-30T23:59:59-01:00</date>",
        "<date >2024-05-01T10:00:00Z</date>",
        "<date a='>1500-' b=\">\">2024-05-01T10:00:00Z</date>",
        "<x:date>2024-05-01T10:00:00Z</x:date>",
        "<date>20&#50;4-05-01T10:00:00Z</date>",
        "<date>20&#x32;4-05-01T10:00:00&#x5A;</date>",
        "<date>2024-05-01&amp;10:00:00Z</date>",
        "<date>2024&none;-05-01T10:00:00Z</date>",
        "<date><!-- > --><![CDATA[1]]><?x ?>2024-05-01T10:00:00Z</date>",
    ] {
        let body = dated(date);
        assert!(is_readable(&body), "{date}");
        let list = read_plist(&body).unwrap();
        assert!(matches!(get(&list, "k"), Plist::Date { .. }), "{date}");
    }
    let before = read_plist(&binary_date(-1.0e11)).unwrap();
    assert!(is_date(&before, true, (99_021_692_800, 0)));
    assert!(!is_printable(&before));
    assert!(read_plist(&binary_date(1.0e300)).is_err());
    assert!(read_plist(&binary_date(f64::NAN)).is_err());
}

#[test]
fn dates_out_of_range_are_refused() {
    for date in [
        "<date>0000-01-01T00:00:00+01:00</date>",
        "<date>1500-01-01T00:00:00Z</date>",
        "<date>1601-01-01T00:30:00+01:00</date>",
        "<date>9999-12-31T23:30:00-01:00</date>",
        "<date >9999-12-31T23:30:00-01:00</date>",
        "<x:date>9999-12-31T23:30:00-01:00</x:date>",
        "<a\">\":date>9999-12-31T23:30:00-01:00</a\">\":date>",
        "<x/y:date>9999-12-31T23:30:00-01:00</x/y:date>",
        "<date a='>'>9999-12-31T23:30:00-01:00</date>",
        "<date>99&#57;9-12-31T23:30:00-01:00</date>",
        "<date>99&#x39;9-12-31T23:30:00&#45;01:00</date>",
        "<date>9&b;999-12-31T23:30:00-01:00</date>",
        "<date><!-- -->9999-12-31T23:30:00-01:00</date>",
        "<date>99<!---->99-12-31<?a?>T23:30:00-01:00</date>",
        "<date>99<!DOCTYPE a>99-12-31T23:30:00-01:00</date>",
    ] {
        let body = dated(date);
        assert!(!is_readable(&body), "{date}");
        assert_eq!(read_plist(&body).unwrap_err(), "unsupported date");
        assert!(read_info(&HttpReply { status: 200, body: body.clone() }).is_none());
        assert_eq!(plist_audio_ports(&body), None);
        assert!(matches!(feedback_plist_summary(&body), FeedbackSummary::Unread));
        let fault = read_reply("step1", &HttpReply { status: 200, body }).unwrap_err().message();
        assert!(fault.contains("unsupported date"), "{fault}");
    }
}

#[test]
fn texts_that_are_no_dates_are_left_to_the_reader() {
    for date in [
        "<date>2024-13-01T10:00:00Z</date>",
        "<date>soon</date>",
        "<date/>",
        "<date>9999-12-31</date>",
        "<date>99&#;9-12-31T23:30:00-01:00</date>",
        "<date>9999<string/>-12-31T23:30:00-01:00</date>",
        "<date>9999-12-31T23:30:00-01:00",
    ] {
        let body = dated(date);
        assert!(is_readable(&body), "{date}");
        assert_ne!(read_plist(&body).unwrap_err(), "unsupported date");
    }
}

#[test]
fn lists_without_dates_are_read() {
    assert!(is_readable(&xml("<dict><key>date</key><string>9999-12-31</string></dict>")));
    for text in [":date", ":date ", "x:date&gt;9999-12-31T23:30:00-01:00", "\"'a:date "] {
        let list = read_plist(&xml(&format!("<string>{text}</string>"))).unwrap();
        assert!(matches!(list, Plist::Text(_)), "{text}");
    }
    assert!(read_plist(&xml("<!-- <date>soon</date> --><string>update</string>")).is_ok());
    assert!(read_plist(b"{ date = 9999; }").is_ok());
    let plain = read_plist(b" \t\"<date>1500-01-01\"").unwrap();
    assert!(matches!(plain, Plist::Text(s) if s == "<date>1500-01-01"));
    assert!(read_plist(b"<date").is_err());
    assert!(read_plist(b"").is_err());
    assert!(is_readable(b"bplist00<date>"));
}

#[test]
fn feedback_of_a_dictionary() {
    let body = xml(
        "<dict><key>reason</key><data>AQID</data><key>extra</key><true/>\
         <key>status</key><integer>-2</integer>\
         <key>statusFlags</key><integer>18446744073709551615</integer>\
         <key>error</key><string>none</string><key>mirroring</key><true/>\
         <key>video</key><real>1.5</real><key>audio</key><array><integer>7</integer></array>\
         <key>streams</key><array><integer>1</integer><dict><key>type</key><integer>110</integer>\
         <key>ready</key><true/><key>playing</key><string>x</string>\
         <key>state</key><string>on</string></dict><dict/>\
         <dict><key>state</key><dict><key>a</key><true/></dict></dict></array></dict>",
    );
    let FeedbackSummary::Dict { keys, values, streams } = feedback_plist_summary(&body) else {
        panic!("no dictionary");
    };
    assert_eq!(
        keys,
        ["reason", "extra", "status", "statusFlags", "error", "mirroring", "video", "audio", "streams"]
    );
    let names: Vec<&str> = values.iter().map(|v| v.0.as_str()).collect();
    assert_eq!(
        names,
        ["status", "statusFlags", "error", "mirroring", "video", "audio", "reason"]
    );
    assert!(matches!(values[0].1, ReportValue::Integer(-2)));
    assert!(matches!(values[1].1, ReportValue::Integer(0)));
    assert!(matches!(&values[2].1, ReportValue::Text(s) if s == "none"));
    assert!(matches!(values[3].1, ReportValue::Boolean(true)));
    assert!(matches!(values[4].1, ReportValue::Real(b) if b == 1.5f64.to_bits()));
    assert!(matches!(&values[5].1, ReportValue::Debug(s) if s == "Array([Integer(7)])"));
    assert!(matches!(values[6].1, ReportValue::DataLen(3)));
    let streams = streams.unwrap();
    assert_eq!(streams.len(), 3);
    assert_eq!((streams[0].kind, streams[0].ready, streams[0].playing), (Some(110), Some(true), None));
    assert_eq!(streams[0].buffered, None);
    assert!(matches!(&streams[0].state, Some(ReportValue::Text(s)) if s == "on"));
    assert_eq!((streams[1].kind, streams[1].state.is_none()), (None, true));
    assert!(matches!(
        &streams[2].state,
        Some(ReportValue::Debug(s)) if s == "Dictionary({\"a\": Boolean(true)})"
    ));
}

#[test]
fn feedback_of_other_replies() {
    assert!(matches!(feedback_plist_summary(b""), FeedbackSummary::Unread));
    assert!(matches!(feedback_plist_summary(&xml("<array/>")), FeedbackSummary::NotADict));
    let FeedbackSummary::Dict { keys, values, streams } = feedback_plist_summary(&xml("<dict/>"))
    else {
        panic!("no dictionary");
    };
    assert!(keys.is_empty() && values.is_empty() && streams.is_none());
    let body = xml("<dict><key>reason</key><date>2024-05-01T10:00:00Z</date></dict>");
    let FeedbackSummary::Dict { values, .. } = feedback_plist_summary(&body) else {
        panic!("no dictionary");
    };
    assert!(matches!(&values[0].1, ReportValue::Debug(s) if s == "Date(2024-05-01T10:00:00Z)"));
    let big = Plist::Dict(vec![("type".to_string(), Plist::Integer(1 << 63))]);
    assert_eq!(report_stream(&big, None).kind, None);
    assert!(matches!(report_value(&Plist::Other, None), ReportValue::Unwritten));
    let shown = report_value(&Plist::Array(Vec::new()), Some("x".to_string()));
    assert!(matches!(shown, ReportValue::Debug(s) if s == "x"));
}

#[test]
fn a_date_that_cannot_be_written_is_told_apart() {
    let mut body = b"bplist00\xd1\x01\x02\x55error\x33".to_vec();
    body.extend((-1.0e11f64).to_be_bytes());
    body.extend([8, 11, 17]);
    body.extend([0, 0, 0, 0, 0, 0, 1, 1]);
    body.extend(3u64.to_be_bytes());
    body.extend(0u64.to_be_bytes());
    body.extend(26u64.to_be_bytes());
    let FeedbackSummary::Dict { keys, values, .. } = feedback_plist_summary(&body) else {
        panic!("no dictionary");
    };
    assert_eq!(keys, ["error"]);
    assert!(matches!(values[0].1, ReportValue::Unwritten));
}
