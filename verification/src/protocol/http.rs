//! HTTP requests that set up mirroring.

use crate::bytes;
use crate::config::{DeviceCredentials, StreamConfig};
use crate::crypto::hkdf_keys;
use crate::crypto::primitives;
use crate::error::{self, ErrorView, RottenError};
use crate::http_reply;
use crate::plist_value::{self, FieldView, PlistField};
use crate::text;
use vstd::prelude::*;
use vstd::string::*;

verus! {

/// Port of the mirror service.
pub const MIRROR_STREAM_PORT: u16 = 7100;

/// What setting up the mirror over HTTP gives.
pub struct MirrorSetupResult {
    pub stream_key: [u8; 32],
    pub event_port: Option<u16>,
    pub timing_port: Option<u16>,
}

/// A URL of the mirror service on a host as URLs have it.
pub fn mirror_base_url(url_host: &str, path: &str) -> (r: String)
    ensures
        r@ == "http://"@ + url_host@ + ":7100"@ + path@,
{
    let mut s = text::owned("http://");
    s.append(url_host);
    s.append(":7100");
    s.append(path);
    s
}

/// The number that the first twelve hexadecimal digits of an identifier spell; zero where it has
/// none.
pub open spec fn device_id_number(device_id: Seq<char>) -> nat {
    let hex = text::hex_digits_of(device_id);
    text::numeral_value(
        if hex.len() > 12 {
            hex.take(12)
        } else {
            hex
        },
        16,
    )
}

/// The number that stands for a device in set-up messages.
pub fn mac_to_device_id_int(device_id: &str) -> (r: i64)
    ensures
        r == device_id_number(device_id@),
{
    let hex = text::keep_hex_digits(device_id);
    let ghost h = text::hex_digits_of(device_id@);
    if hex.len() == 0 {
        return 0;
    }
    let n: usize = if hex.len() > 12 {
        12
    } else {
        hex.len()
    };
    proof {
        if n == h.len() {
            assert(h.take(n as int) =~= h);
        }
    }
    text::hex_number(&hex, n) as i64
}

/// The device header: twelve hexadecimal digits of the identifier, else of the device id, else
/// what digits the identifier has.
pub open spec fn device_header(identifier: Seq<char>, device_id: Seq<char>) -> Seq<char> {
    let hex = text::hex_digits_of(identifier);
    let device_hex = text::hex_digits_of(device_id);
    if hex.len() >= 12 {
        "0x"@ + hex.take(12)
    } else if device_hex.len() >= 12 {
        "0x"@ + device_hex.take(12)
    } else {
        "0x"@ + hex
    }
}

/// The header that names the device.
pub fn apple_device_id_header(creds: &DeviceCredentials) -> (r: String)
    ensures
        r@ == device_header(creds.identifier@, creds.device_id@),
{
    let mut s = text::owned("0x");
    let hex = text::keep_hex_digits(creds.identifier.as_str());
    if hex.len() >= 12 {
        let part = text::sub_string(&hex, 0, 12);
        assert(part@ =~= hex@.take(12));
        s.append(part.as_str());
        return s;
    }
    let device_hex = text::keep_hex_digits(creds.device_id.as_str());
    if device_hex.len() >= 12 {
        let part = text::sub_string(&device_hex, 0, 12);
        assert(part@ =~= device_hex@.take(12));
        s.append(part.as_str());
        return s;
    }
    text::push_chars(&mut s, &hex);
    s
}

/// The header that names the client.
pub fn client_name(creds: &DeviceCredentials) -> (r: String)
    ensures
        r@ == (if creds.device_id@.len() == 0 {
            "RottingApple"@
        } else {
            creds.device_id@
        }),
{
    if creds.device_id.as_str().is_empty() {
        text::owned("RottingApple")
    } else {
        text::owned(creds.device_id.as_str())
    }
}

/// One dictionary with a name for each of `names`.
pub open spec fn named_dicts(names: Seq<Seq<char>>) -> FieldView {
    FieldView::TextDicts(Seq::new(names.len(), |i: int| seq![("name"@, names[i])]))
}

/// Names of the frame counters that the receiver is told of.
pub open spec fn fps_names() -> Seq<Seq<char>> {
    seq!["SubS"@, "B4En"@, "EnDp"@, "IdEn"@, "IdDp"@, "EQDp"@, "QueF"@, "Sent"@]
}

/// Names of the timestamps that the receiver is told of.
pub open spec fn timestamp_names() -> Seq<Seq<char>> {
    seq!["SubSu"@, "BePxT"@, "AfPxT"@, "BefEn"@, "EmEnc"@, "QueFr"@, "SndFr"@]
}

/// A field of data, where there is any.
pub open spec fn optional_data(key: Seq<char>, data: Option<Seq<u8>>) -> Seq<
    (Seq<char>, FieldView),
> {
    match data {
        Some(d) => seq![(key, FieldView::Data(d))],
        None => Seq::empty(),
    }
}

/// The fields of the stream request.
pub open spec fn stream_fields(
    identifier: Seq<char>,
    config: StreamConfig,
    stream_port: u16,
    session_id: i32,
    param1: Option<Seq<u8>>,
    param2: Option<Seq<u8>>,
) -> Seq<(Seq<char>, FieldView)> {
    seq![
        ("deviceID"@, FieldView::Integer(device_id_number(identifier) as int)),
        ("sessionID"@, FieldView::Integer(session_id as int)),
        ("version"@, FieldView::Text("130.16"@)),
        ("latencyMs"@, FieldView::Integer(90)),
        ("fpsInfo"@, named_dicts(fps_names())),
        ("timestampInfo"@, named_dicts(timestamp_names())),
        ("timestampSourcePort"@, FieldView::Integer(stream_port as int)),
        ("width"@, FieldView::Integer(config.width as int)),
        ("height"@, FieldView::Integer(config.height as int)),
        ("fps"@, FieldView::Integer(config.fps as int)),
    ] + optional_data("param1"@, param1) + optional_data("param2"@, param2)
}

/// Texts by their contents.
pub open spec fn view_names(names: Seq<&str>) -> Seq<Seq<char>> {
    names.map_values(|n: &str| n@)
}

fn named_dict_array(names: &[&str]) -> (r: PlistField)
    ensures
        r@ == named_dicts(view_names(names@)),
{
    let mut list: Vec<Vec<(String, String)>> = Vec::new();
    let ghost all = named_dicts(view_names(names@))->TextDicts_0;
    let mut i: usize = 0;
    while i < names.len()
        invariant
            i <= names@.len(),
            all == named_dicts(view_names(names@))->TextDicts_0,
            plist_value::text_dicts(list@) == all.take(i as int),
        decreases names.len() - i,
    {
        let mut d: Vec<(String, String)> = Vec::new();
        d.push((text::owned("name"), text::owned(names[i])));
        assert(plist_value::text_dict(d@) =~= seq![("name"@, names@[i as int]@)]);
        let ghost before = list@;
        list.push(d);
        i += 1;
        assert(plist_value::text_dicts(list@) =~= plist_value::text_dicts(before).push(
            plist_value::text_dict(d@),
        ));
        assert(all.take(i as int) =~= all.take(i - 1).push(all[i - 1]));
    }
    assert(all.take(i as int) =~= all);
    PlistField::TextDicts(list)
}

fn push_integer(fields: &mut Vec<(String, PlistField)>, key: &str, v: i64)
    ensures
        plist_value::view_fields(final(fields)@) == plist_value::view_fields(old(fields)@).push(
            (key@, FieldView::Integer(v as int)),
        ),
{
    let ghost before = fields@;
    fields.push((text::owned(key), PlistField::Integer(v)));
    assert(plist_value::view_fields(fields@) =~= plist_value::view_fields(before).push(
        (key@, FieldView::Integer(v as int)),
    ));
}

fn push_field(fields: &mut Vec<(String, PlistField)>, key: &str, f: PlistField)
    ensures
        plist_value::view_fields(final(fields)@) == plist_value::view_fields(old(fields)@).push(
            (key@, f@),
        ),
{
    let ghost before = fields@;
    let ghost v = f@;
    fields.push((text::owned(key), f));
    assert(plist_value::view_fields(fields@) =~= plist_value::view_fields(before).push((key@, v)));
}

/// The contents of an optional array.
pub open spec fn view72(p: Option<[u8; 72]>) -> Option<Seq<u8>> {
    match p {
        Some(b) => Some(b@),
        None => None,
    }
}

/// The contents of an optional array.
pub open spec fn view16(p: Option<[u8; 16]>) -> Option<Seq<u8>> {
    match p {
        Some(b) => Some(b@),
        None => None,
    }
}

/// The fields of the stream request.
pub fn mirror_stream_fields(
    creds: &DeviceCredentials,
    config: &StreamConfig,
    stream_port: u16,
    session_id: i32,
    param1: Option<[u8; 72]>,
    param2: Option<[u8; 16]>,
) -> (r: Vec<(String, PlistField)>)
    ensures
        plist_value::view_fields(r@) == stream_fields(
            creds.identifier@,
            *config,
            stream_port,
            session_id,
            view72(param1),
            view16(param2),
        ),
{
    let mut f: Vec<(String, PlistField)> = Vec::new();
    assert(plist_value::view_fields(f@) =~= Seq::<(Seq<char>, FieldView)>::empty());
    push_integer(&mut f, "deviceID", mac_to_device_id_int(creds.identifier.as_str()));
    push_integer(&mut f, "sessionID", session_id as i64);
    push_field(&mut f, "version", PlistField::Text(text::owned("130.16")));
    push_integer(&mut f, "latencyMs", 90);
    let fps: [&str; 8] = ["SubS", "B4En", "EnDp", "IdEn", "IdDp", "EQDp", "QueF", "Sent"];
    assert(view_names(fps@) =~= fps_names());
    push_field(&mut f, "fpsInfo", named_dict_array(&fps));
    let stamps: [&str; 7] = ["SubSu", "BePxT", "AfPxT", "BefEn", "EmEnc", "QueFr", "SndFr"];
    assert(view_names(stamps@) =~= timestamp_names());
    push_field(&mut f, "timestampInfo", named_dict_array(&stamps));
    push_integer(&mut f, "timestampSourcePort", stream_port as i64);
    push_integer(&mut f, "width", config.width as i64);
    push_integer(&mut f, "height", config.height as i64);
    push_integer(&mut f, "fps", config.fps as i64);
    let ghost base = plist_value::view_fields(f@);
    assert(base =~= stream_fields(
        creds.identifier@,
        *config,
        stream_port,
        session_id,
        None,
        None,
    ));
    match param1 {
        Some(p) => push_field(&mut f, "param1", PlistField::Data(bytes::to_vec(&p))),
        None => {},
    }
    match param2 {
        Some(p) => push_field(&mut f, "param2", PlistField::Data(bytes::to_vec(&p))),
        None => {},
    }
    assert(plist_value::view_fields(f@) =~= stream_fields(
        creds.identifier@,
        *config,
        stream_port,
        session_id,
        view72(param1),
        view16(param2),
    ));
    f
}

/// The body of the stream request.
pub fn encode_mirror_stream_plist(
    creds: &DeviceCredentials,
    config: &StreamConfig,
    stream_port: u16,
    session_id: i32,
    param1: Option<[u8; 72]>,
    param2: Option<[u8; 16]>,
) -> (r: Result<Vec<u8>, RottenError>)
    ensures
        ({
            let fields = stream_fields(
                creds.identifier@,
                *config,
                stream_port,
                session_id,
                view72(param1),
                view16(param2),
            );
            match r {
                Ok(b) => plist_value::written_plist(fields) == Ok::<Seq<u8>, Seq<char>>(b@),
                Err(e) => plist_value::written_plist(fields) matches Err(t) && e@
                    == ErrorView::Protocol("mirror plist: "@ + t),
            }
        }),
{
    let fields = mirror_stream_fields(
        creds,
        config,
        stream_port,
        session_id,
        param1,
        param2,
    );
    match plist_value::write_plist(&fields) {
        Ok(b) => Ok(b),
        Err(t) => Err(RottenError::Protocol(error::labelled("mirror plist: ", t.as_str()))),
    }
}

/// Checks the status of the stream request, given its text.
pub fn check_mirror_stream(status: u16, status_shown: &str) -> (r: Result<(), RottenError>)
    ensures
        match r {
            Ok(_) => http_reply::success(status),
            Err(e) => !http_reply::success(status) && e@ == ErrorView::Protocol(
                "mirror setup failed: "@ + status_shown@,
            ),
        },
{
    if !http_reply::is_success(status) {
        return Err(RottenError::Protocol(error::labelled("mirror setup failed: ", status_shown)));
    }
    Ok(())
}

/// What setting up the mirror gives: the stream key is the wrapped key and its initial vector,
/// or, where the key could not be wrapped, a key derived from the client's public key.
pub fn post_mirror_setup(
    creds: &DeviceCredentials,
    wrapped: bool,
    aes_key: &[u8; 16],
    aes_iv: &[u8; 16],
) -> (r: MirrorSetupResult)
    ensures
        r.event_port == Some(7010u16),
        r.timing_port == Some(7011u16),
        wrapped ==> r.stream_key@ == aes_key@ + aes_iv@,
        !wrapped ==> r.stream_key@ == primitives::hkdf_sha512(
            creds.public_key@,
            text::utf8("AirPlay-Salt"@),
            text::utf8("AirPlay-Stream-Key"@),
        ),
{
    let stream_key: [u8; 32];
    if wrapped {
        let both = bytes::concat(aes_key, aes_iv);
        assert(both@.take(32) =~= both@);
        stream_key = bytes::array32(&both);
    } else {
        let (_control_key, derived) = hkdf_keys::derive_session_keys(
            &creds.public_key,
            "AirPlay-Salt".as_bytes(),
            "AirPlay-Stream".as_bytes(),
        );
        stream_key = derived;
    }
    MirrorSetupResult { stream_key, event_port: Some(7010), timing_port: Some(7011) }
}

/// The number of a device is that of its first twelve hexadecimal digits: everything else in its
/// name is passed over, and further digits do not change it.
pub proof fn law_device_number(id: Seq<char>, c: char)
    ensures
        device_id_number(Seq::empty()) == 0,
        text::hex_digits_of(id).len() >= 12 ==> device_id_number(id.push(c)) == device_id_number(id),
        !text::is_hex_digit(c) ==> device_id_number(id.push(c)) == device_id_number(id),
        text::hex_digits_of(id).len() < 12 && '0' <= c && c <= '9' ==> device_id_number(id.push(c))
            == device_id_number(id) * 16 + (c as int - 48),
        text::hex_digits_of(id).len() < 12 && 'a' <= c && c <= 'f' ==> device_id_number(id.push(c))
            == device_id_number(id) * 16 + (c as int - 87),
        text::hex_digits_of(id).len() < 12 && 'A' <= c && c <= 'F' ==> device_id_number(id.push(c))
            == device_id_number(id) * 16 + (c as int - 55),
{
    text::law_digits_are_kept(id, c);
    let hex = text::hex_digits_of(id);
    text::law_numeral_grows(hex, c);
    assert(text::hex_digits_of(Seq::empty()) =~= Seq::empty());
    if hex.len() >= 12 {
        assert(hex.push(c).take(12) =~= hex.take(12));
        if hex.len() == 12 {
            assert(hex.take(12) =~= hex);
        }
    }
}

/// The header of a device: the first twelve hexadecimal digits of the identifier, or where it has
/// fewer, those of the device; where neither has as many, all digits of the identifier.
pub proof fn law_device_header(identifier: Seq<char>, device_id: Seq<char>)
    ensures
        ({
            let r = device_header(identifier, device_id);
            let hex = text::hex_digits_of(identifier);
            let device_hex = text::hex_digits_of(device_id);
            &&& r.len() >= 2 && r[0] == '0' && r[1] == 'x'
            &&& hex.len() >= 12 ==> r.skip(2) == hex.take(12)
            &&& hex.len() < 12 && device_hex.len() >= 12 ==> r.skip(2) == device_hex.take(12)
            &&& hex.len() < 12 && device_hex.len() < 12 ==> r.skip(2) == hex
        }),
{
    reveal_strlit("0x");
    let r = device_header(identifier, device_id);
    let hex = text::hex_digits_of(identifier);
    let device_hex = text::hex_digits_of(device_id);
    if hex.len() >= 12 {
        assert(r.skip(2) =~= hex.take(12));
    } else if device_hex.len() >= 12 {
        assert(r.skip(2) =~= device_hex.take(12));
    } else {
        assert(r.skip(2) =~= hex);
    }
}

/// What a request for a stream tells: who asks, for which session, at what size and rate, over
/// which port, and the two keys where there are any.
pub proof fn law_stream_request(
    identifier: Seq<char>,
    config: StreamConfig,
    stream_port: u16,
    session_id: i32,
    param1: Option<Seq<u8>>,
    param2: Option<Seq<u8>>,
)
    ensures
        ({
            let f = stream_fields(identifier, config, stream_port, session_id, param1, param2);
            &&& f.contains(("deviceID"@, FieldView::Integer(device_id_number(identifier) as int)))
            &&& f.contains(("sessionID"@, FieldView::Integer(session_id as int)))
            &&& f.contains(("version"@, FieldView::Text("130.16"@)))
            &&& f.contains(("latencyMs"@, FieldView::Integer(90)))
            &&& f.contains(("timestampSourcePort"@, FieldView::Integer(stream_port as int)))
            &&& f.contains(("width"@, FieldView::Integer(config.width as int)))
            &&& f.contains(("height"@, FieldView::Integer(config.height as int)))
            &&& f.contains(("fps"@, FieldView::Integer(config.fps as int)))
            &&& param1 matches Some(d) ==> f.contains(("param1"@, FieldView::Data(d)))
            &&& param2 matches Some(d) ==> f.last() == ("param2"@, FieldView::Data(d))
            &&& f.len() == 10 + (if param1 is Some {
                1int
            } else {
                0
            }) + (if param2 is Some {
                1int
            } else {
                0
            })
        }),
{
    let f = stream_fields(identifier, config, stream_port, session_id, param1, param2);
    assert(f[0] == ("deviceID"@, FieldView::Integer(device_id_number(identifier) as int)));
    assert(f[1] == ("sessionID"@, FieldView::Integer(session_id as int)));
    assert(f[2] == ("version"@, FieldView::Text("130.16"@)));
    assert(f[3] == ("latencyMs"@, FieldView::Integer(90)));
    assert(f[6] == ("timestampSourcePort"@, FieldView::Integer(stream_port as int)));
    assert(f[7] == ("width"@, FieldView::Integer(config.width as int)));
    assert(f[8] == ("height"@, FieldView::Integer(config.height as int)));
    assert(f[9] == ("fps"@, FieldView::Integer(config.fps as int)));
    if let Some(d) = param1 {
        assert(f[10] == ("param1"@, FieldView::Data(d)));
    }
}
} // verus!
