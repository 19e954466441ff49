//! A receiver that is named by the user.

use crate::codec;
use crate::debug_log::{self, IpLiteral};
use crate::device::{self, AirPlayDevice, DeviceFeatures, DeviceView};
use crate::discovery::browser::{self, ServiceRecord};
use crate::discovery::ipv6;
use crate::error::{ErrorView, RottenError};
use crate::http_reply::{self, HttpReply};
use crate::plist_value::{self, Plist, PlistView};
use crate::text;
use crate::binary;
use vstd::prelude::*;
use vstd::string::*;

verus! {

/// Position of the last `c` in `s`; -1 where there is none.
pub open spec fn last_index(s: Seq<char>, c: char) -> int
    decreases s.len(),
{
    if s.len() == 0 {
        -1
    } else if s.last() == c {
        s.len() - 1
    } else {
        last_index(s.drop_last(), c)
    }
}

/// Host and port of a target: what stands behind the last colon is the port, where it is one and
/// the target is not as a whole an IPv6 address.
pub open spec fn target_parts(target: Seq<char>, default_port: u16) -> (Seq<char>, nat) {
    let at = last_index(target, ':');
    if at < 0 || ipv6::is_ipv6(target) {
        (target, default_port as nat)
    } else {
        match text::parse_decimal_spec(target.skip(at + 1), u16::MAX as nat) {
            Some(p) => (target.take(at), p),
            None => (target, default_port as nat),
        }
    }
}

/// Splits a target into host and port.
pub fn parse_target(target: &str, default_port: u16) -> (r: (String, u16))
    ensures
        (r.0@, r.1 as nat) == target_parts(target@, default_port),
{
    let chars = text::chars_of(target);
    let mut n: usize = chars.len();
    assert(chars@.take(n as int) =~= chars@);
    while n > 0 && chars[n - 1] != ':'
        invariant
            n <= chars@.len(),
            chars@ == target@,
            last_index(chars@.take(n as int), ':') == last_index(chars@, ':'),
        decreases n,
    {
        assert(chars@.take(n as int).last() == chars@[n - 1]);
        assert(chars@.take(n as int).drop_last() =~= chars@.take(n - 1));
        n -= 1;
    }
    if n == 0 {
        return (text::owned(target), default_port);
    }
    proof {
        assert(chars@.take(n as int).last() == ':');
        assert(last_index(target@, ':') == n - 1);
    }
    if ipv6::reads_as_ipv6(&chars) {
        return (text::owned(target), default_port);
    }
    let port_text = text::sub_string(&chars, n, chars.len());
    let port_chars = text::chars_of(port_text.as_str());
    assert(port_chars@ =~= target@.skip(n as int));
    match text::parse_decimal(&port_chars, 65535) {
        Some(p) => {
            assert(target@.subrange(0, n - 1) =~= target@.take(n - 1));
            (text::sub_string(&chars, 0, n - 1), p as u16)
        },
        None => (text::owned(target), default_port),
    }
}

/// What looking a host name up came to.
#[derive(Debug)]
pub enum LookupOutcome {
    Addresses(Vec<IpLiteral>),
    Failed(String),
    TaskFailed(String),
    TimedOut,
}

/// The address that is used: the first IPv4 address, or else the first of all.
pub open spec fn preferred_address(addresses: Seq<IpLiteral>) -> Option<IpLiteral> {
    let i = browser::first_v4(addresses);
    if i < addresses.len() {
        Some(addresses[i])
    } else if addresses.len() > 0 {
        Some(addresses[0])
    } else {
        None
    }
}

/// The text of the preferred address, and whether it is one of IPv4.
pub open spec fn address_view(a: Option<IpLiteral>) -> Option<(Seq<char>, bool)> {
    match a {
        Some(ip) => Some((browser::ip_text(ip), ip is V4)),
        None => None,
    }
}

/// A copy of an address.
pub fn copy_address(ip: &IpLiteral) -> (r: IpLiteral)
    ensures
        address_view(Some(r)) == address_view(Some(*ip)),
{
    match ip {
        IpLiteral::V4(s) => IpLiteral::V4(text::owned(s.as_str())),
        IpLiteral::V6(s) => IpLiteral::V6(text::owned(s.as_str())),
    }
}

/// Picks the address that is used.
pub fn choose_address(addresses: &[IpLiteral]) -> (r: Option<IpLiteral>)
    ensures
        address_view(r) == address_view(preferred_address(addresses@)),
{
    let i: usize = browser::position_v4(addresses);
    if i < addresses.len() {
        Some(copy_address(&addresses[i]))
    } else if addresses.len() > 0 {
        Some(copy_address(&addresses[0]))
    } else {
        None
    }
}

/// A host name in small letters, without final dots.
pub open spec fn plain_host(host: Seq<char>) -> Seq<char> {
    text::ascii_lower(text::trim_end_char(host, '.'))
}

fn to_plain_host(host: &str) -> (r: Vec<char>)
    ensures
        r@ == plain_host(host@),
{
    let chars = text::chars_of(host);
    let n: usize = text::trimmed_len(&chars, '.');
    let s = text::sub_string(&chars, 0, n);
    let t = text::chars_of(s.as_str());
    assert(t@ =~= text::trim_end_char(host@, '.'));
    text::to_ascii_lower(&t)
}

/// Whether a service is that of a host: by its host name, or by a full name that holds the host
/// without `.local`.
pub open spec fn serves_host(s: ServiceRecord, host: Seq<char>) -> bool {
    plain_host(s.hostname@) == plain_host(host) || text::contains_text(
        text::ascii_lower(s.fullname@),
        text::trim_end_text(plain_host(host), ".local"@),
    )
}

/// The address that a service gives for a host and port.
pub open spec fn announced_address(s: ServiceRecord, host: Seq<char>, port: u16) -> Option<
    IpLiteral,
> {
    if s.port == port && serves_host(s, host) {
        preferred_address(s.addresses@)
    } else {
        None
    }
}

/// The address that an announced service gives for a host and port; a browse goes on until one
/// gives an address.
pub fn resolve_via_mdns(s: &ServiceRecord, host: &str, port: u16) -> (r: Option<IpLiteral>)
    ensures
        address_view(r) == address_view(announced_address(*s, host@, port)),
{
    if s.port != port {
        return None;
    }
    let wanted = to_plain_host(host);
    let own = to_plain_host(s.hostname.as_str());
    if !text::same_chars(&own, &wanted) {
        let full = text::chars_of(s.fullname.as_str());
        let lower = text::to_ascii_lower(&full);
        let suffix = text::chars_of(".local");
        let n: usize = text::trimmed_len_text(&wanted, &suffix);
        let stem_text = text::sub_string(&wanted, 0, n);
        let stem = text::chars_of(stem_text.as_str());
        assert(stem@ =~= text::trim_end_text(plain_host(host@), ".local"@));
        if !text::has_text(&lower, &stem) {
            return None;
        }
    }
    choose_address(&s.addresses)
}

/// Whether one of the addresses reads like the host.
pub open spec fn has_address(addresses: Seq<IpLiteral>, host: Seq<char>) -> bool {
    exists|i: int|
        0 <= i < addresses.len() && text::ascii_lower(browser::ip_text(#[trigger] addresses[i]))
            == text::ascii_lower(host)
}

/// The capabilities that a service announces for a host and port, where it announces any.
pub open spec fn announced_features(s: ServiceRecord, host: Seq<char>, port: u16) -> Option<nat> {
    if (plain_host(s.hostname@) == text::ascii_lower(host) || has_address(s.addresses@, host))
        && s.port == port {
        match s.features {
            Some(f) => if device::announced(f@) != 0 {
                Some(device::announced(f@))
            } else {
                None
            },
            None => None,
        }
    } else {
        None
    }
}

fn reads_like(addresses: &[IpLiteral], lower_host: &[char], host: &str) -> (r: bool)
    requires
        lower_host@ == text::ascii_lower(host@),
    ensures
        r == has_address(addresses@, host@),
{
    let mut i: usize = 0;
    while i < addresses.len()
        invariant
            i <= addresses@.len(),
            lower_host@ == text::ascii_lower(host@),
            forall|k: int|
                0 <= k < i ==> text::ascii_lower(browser::ip_text(#[trigger] addresses@[k]))
                    != text::ascii_lower(host@),
        decreases addresses.len() - i,
    {
        let s = browser::ip_string(&addresses[i]);
        let chars = text::chars_of(s.as_str());
        let lower = text::to_ascii_lower(&chars);
        if text::same_chars(&lower, lower_host) {
            assert(text::ascii_lower(browser::ip_text(addresses@[i as int])) == text::ascii_lower(
                host@,
            ));
            return true;
        }
        i += 1;
    }
    false
}

/// The capabilities that an announced service gives for a host and port; a browse goes on until
/// one gives any.
pub fn enrich_features_from_mdns(s: &ServiceRecord, host: &str, port: u16) -> (r: Option<
    DeviceFeatures,
>)
    ensures
        match r {
            Some(f) => announced_features(*s, host@, port) == Some(f.raw as nat),
            None => announced_features(*s, host@, port) is None,
        },
{
    let host_chars = text::chars_of(host);
    let lower = text::to_ascii_lower(&host_chars);
    let own = to_plain_host(s.hostname.as_str());
    let same = text::same_chars(&own, &lower) || reads_like(&s.addresses, &lower, host);
    if !same || s.port != port {
        return None;
    }
    match &s.features {
        Some(f) => {
            let features = DeviceFeatures::from_hex(f.as_str());
            if features.raw != 0 {
                Some(features)
            } else {
                None
            }
        },
        None => None,
    }
}

/// The text under `key`.
pub open spec fn text_entry(info: Option<PlistView>, key: Seq<char>) -> Option<Seq<char>> {
    match info {
        Some(p) => match plist_value::entry(p, key) {
            Some(PlistView::Text(s)) => Some(s),
            _ => None,
        },
        None => None,
    }
}

/// The contents of an optional property list.
pub open spec fn info_view(info: Option<Plist>) -> Option<PlistView> {
    match info {
        Some(p) => Some(p@),
        None => None,
    }
}

/// The text under `key`.
pub fn plist_string(info: &Option<Plist>, key: &str) -> (r: Option<String>)
    ensures
        text::view_text(r) == text_entry(info_view(*info), key@),
{
    match info {
        Some(p) => match p.get(key) {
            Some(Plist::Text(s)) => Some(text::owned(s.as_str())),
            _ => None,
        },
        None => None,
    }
}

/// The natural number in a property list: zero for a negative integer, and none for anything
/// that is no number or too large.
pub open spec fn list_natural(p: PlistView) -> Option<nat> {
    match p {
        PlistView::Integer(i) => if 0 <= i <= u64::MAX {
            Some(i as nat)
        } else if i64::MIN <= i < 0 {
            Some(0)
        } else {
            None
        },
        PlistView::Real(b) => binary::real_natural(b),
        _ => None,
    }
}

/// The natural number in a property list.
pub fn plist_uint_value(p: &Plist) -> (r: Option<u64>)
    ensures
        match r {
            Some(v) => list_natural(p@) == Some(v as nat),
            None => list_natural(p@) is None,
        },
{
    match p {
        Plist::Integer(i) => if 0 <= *i && *i <= 0xffff_ffff_ffff_ffff {
            Some(*i as u64)
        } else if -0x8000_0000_0000_0000 <= *i && *i < 0 {
            Some(0)
        } else {
            None
        },
        Plist::Real(b) => binary::natural_of_real(*b),
        _ => None,
    }
}

/// The capabilities in a receiver's description: a text or a number.
pub open spec fn listed_features(info: Option<PlistView>) -> nat {
    match info {
        Some(p) => match plist_value::entry(p, "features"@) {
            Some(PlistView::Text(s)) => device::announced(s),
            Some(v) => match list_natural(v) {
                Some(n) => n,
                None => 0,
            },
            None => 0,
        },
        None => 0,
    }
}

/// The capabilities in a receiver's description.
pub fn plist_features(info: &Option<Plist>) -> (r: DeviceFeatures)
    ensures
        r.raw == listed_features(info_view(*info)),
{
    match info {
        Some(p) => match p.get("features") {
            Some(v) => match v {
                Plist::Text(s) => DeviceFeatures::from_hex(s.as_str()),
                _ => match plist_uint_value(v) {
                    Some(raw) => DeviceFeatures { raw },
                    None => DeviceFeatures { raw: 0 },
                },
            },
            None => DeviceFeatures { raw: 0 },
        },
        None => DeviceFeatures { raw: 0 },
    }
}

/// A length in pixels under one key, or else under another: from one to 2^32 - 1.
pub open spec fn pixels_under(p: PlistView, key: Seq<char>, other: Seq<char>) -> Option<u32> {
    let v = match plist_value::entry(p, key) {
        Some(v) => Some(v),
        None => plist_value::entry(p, other),
    };
    match v {
        Some(v) => match list_natural(v) {
            Some(n) => if 0 < n <= u32::MAX {
                Some(n as u32)
            } else {
                None
            },
            None => None,
        },
        None => None,
    }
}

fn pixels(p: &Plist, key: &str, other: &str) -> (r: Option<u32>)
    ensures
        r == pixels_under(p@, key@, other@),
{
    let v = match p.get(key) {
        Some(v) => v,
        None => match p.get(other) {
            Some(v) => v,
            None => return None,
        },
    };
    match plist_uint_value(v) {
        Some(n) => if 0 < n && n <= 0xffff_ffff {
            Some(n as u32)
        } else {
            None
        },
        None => None,
    }
}

/// Width and height of the first screen in a receiver's description.
pub open spec fn listed_size(info: Option<PlistView>) -> (Option<u32>, Option<u32>) {
    match info {
        Some(p) => match plist_value::entry(p, "displays"@) {
            Some(PlistView::Array(a)) => if a.len() > 0 && a[0] is Dict {
                (
                    pixels_under(a[0], "widthPixels"@, "width"@),
                    pixels_under(a[0], "heightPixels"@, "height"@),
                )
            } else {
                (None, None)
            },
            _ => (None, None),
        },
        None => (None, None),
    }
}

/// Width and height of the first screen in a receiver's description.
pub fn plist_display_size(info: &Option<Plist>) -> (r: (Option<u32>, Option<u32>))
    ensures
        r == listed_size(info_view(*info)),
{
    let p = match info {
        Some(p) => p,
        None => return (None, None),
    };
    match p.get("displays") {
        Some(Plist::Array(a)) => {
            if a.len() == 0 {
                return (None, None);
            }
            let ghost list = plist_value::entry(p@, "displays"@)->Some_0->Array_0;
            assert(list.len() == a@.len() && list[0] == a@[0]@);
            match &a[0] {
                Plist::Dict(_) => (
                    pixels(&a[0], "widthPixels", "width"),
                    pixels(&a[0], "heightPixels", "height"),
                ),
                _ => (None, None),
            }
        },
        _ => (None, None),
    }
}

/// A public key as text: a text as it stands, or 32 bytes in hexadecimal.
pub open spec fn key_text(p: Option<PlistView>) -> Option<Seq<char>> {
    match p {
        Some(PlistView::Text(s)) => Some(s),
        Some(PlistView::Data(d)) => if d.len() == 32 {
            Some(codec::hex_text(d))
        } else {
            None
        },
        _ => None,
    }
}

/// A public key as text.
pub fn plist_value_to_pk_string(value: &Plist) -> (r: Option<String>)
    ensures
        text::view_text(r) == key_text(Some(value@)),
{
    match value {
        Plist::Text(s) => Some(text::owned(s.as_str())),
        Plist::Data(d) => if d.len() == 32 {
            Some(codec::hex_encode(d))
        } else {
            None
        },
        _ => None,
    }
}

/// The description in a reply: a dictionary in the body of a successful one.
pub open spec fn described(status: u16, parsed: Result<PlistView, Seq<char>>) -> Option<PlistView> {
    if http_reply::success(status) {
        match parsed {
            Ok(PlistView::Dict(d)) => Some(PlistView::Dict(d)),
            _ => None,
        }
    } else {
        None
    }
}

/// The description in a reply, given what its body reads as.
pub fn info_of_parsed(status: u16, parsed: Result<Plist, String>) -> (r: Option<Plist>)
    ensures
        info_view(r) == described(status, plist_value::view_parsed(parsed)),
{
    if !http_reply::is_success(status) {
        return None;
    }
    match parsed {
        Ok(p) => match &p {
            Plist::Dict(_) => Some(p),
            _ => None,
        },
        Err(_) => None,
    }
}

/// The description of a receiver in a reply.
pub fn read_info(reply: &HttpReply) -> (r: Option<Plist>)
    ensures
        info_view(r) == described(reply.status, plist_value::read_outcome(reply.body@)),
{
    info_of_parsed(reply.status, plist_value::read_plist(&reply.body))
}

/// Whether a description holds a text under a key, the first entry of that key being meant.
pub open spec fn tells(info: Option<Plist>, key: Seq<char>, s: Seq<char>) -> bool {
    info matches Some(p) && plist_value::stands_under(p@, key, PlistView::Text(s))
}

/// Whether a description holds any text under a key.
pub open spec fn tells_any(info: Option<Plist>, key: Seq<char>) -> bool {
    exists|s: Seq<char>| #[trigger] tells(info, key, s)
}

/// The text under a key is the one that the description holds there.
pub proof fn law_told_texts(info: Option<Plist>)
    ensures
        forall|key: Seq<char>, s: Seq<char>| #[trigger]
            tells(info, key, s) <==> text_entry(info_view(info), key) == Some(s),
        forall|key: Seq<char>| #[trigger]
            tells_any(info, key) <==> text_entry(info_view(info), key) is Some,
{
    assert forall|key: Seq<char>, s: Seq<char>| #[trigger] tells(info, key, s) <==> text_entry(
        info_view(info),
        key,
    ) == Some(s) by {
        if let Some(p) = info {
            plist_value::law_entry_is_first_of_its_key(p@, key);
            assert(plist_value::stands_under(p@, key, PlistView::Text(s)) <==> plist_value::entry(
                p@,
                key,
            ) == Some(PlistView::Text(s)));
        }
    }
    assert forall|key: Seq<char>| #[trigger] tells_any(info, key) <==> text_entry(
        info_view(info),
        key,
    ) is Some by {
        if text_entry(info_view(info), key) is Some {
            assert(tells(info, key, text_entry(info_view(info), key)->0));
        }
    }
}

/// The receiver that a description gives, for a host that was named and the host that is used.
pub open spec fn described_device(
    host: Seq<char>,
    used_host: Seq<char>,
    port: u16,
    info: Option<PlistView>,
    features: u64,
) -> DeviceView {
    DeviceView {
        name: match text_entry(info, "name"@) {
            Some(s) => s,
            None => host,
        },
        host: used_host,
        port,
        device_id: match text_entry(info, "deviceID"@) {
            Some(s) => s,
            None => match text_entry(info, "deviceid"@) {
                Some(s) => s,
                None => host,
            },
        },
        model: text_entry(info, "model"@),
        features: DeviceFeatures { raw: features },
        display_width: listed_size(info).0,
        display_height: listed_size(info).1,
        pi: text_entry(info, "pi"@),
        pk: match info {
            Some(p) => key_text(plist_value::entry(p, "pk"@)),
            None => None,
        },
    }
}

/// Makes a receiver of a description.
pub fn device_from_info(
    host: &str,
    used_host: &str,
    port: u16,
    info: &Option<Plist>,
    features: DeviceFeatures,
) -> (r: AirPlayDevice)
    ensures
        r@ == described_device(host@, used_host@, port, info_view(*info), features.raw),
        forall|s: Seq<char>| #[trigger] tells(*info, "deviceID"@, s) ==> r.device_id@ == s,
        forall|s: Seq<char>|
            !tells_any(*info, "deviceID"@) && #[trigger] tells(*info, "deviceid"@, s)
                ==> r.device_id@ == s,
        !tells_any(*info, "deviceID"@) && !tells_any(*info, "deviceid"@) ==> r.device_id@
            == host@,
        forall|s: Seq<char>| #[trigger] tells(*info, "name"@, s) ==> r.name@ == s,
        !tells_any(*info, "name"@) ==> r.name@ == host@,
        forall|s: Seq<char>|
            #[trigger] tells(*info, "model"@, s) <==> (r.model is Some && r.model->0@ == s),
        forall|s: Seq<char>|
            #[trigger] tells(*info, "pi"@, s) <==> (r.pi is Some && r.pi->0@ == s),
        r.host@ == used_host@,
        r.port == port,
        r.features == features,
{
    proof {
        law_told_texts(*info);
    }
    let name = match plist_string(info, "name") {
        Some(s) => s,
        None => text::owned(host),
    };
    let device_id = match plist_string(info, "deviceID") {
        Some(s) => s,
        None => match plist_string(info, "deviceid") {
            Some(s) => s,
            None => text::owned(host),
        },
    };
    let (display_width, display_height) = plist_display_size(info);
    let pk = match info {
        Some(p) => match p.get("pk") {
            Some(v) => plist_value_to_pk_string(v),
            None => None,
        },
        None => None,
    };
    AirPlayDevice {
        name,
        host: text::owned(used_host),
        port,
        device_id,
        model: plist_string(info, "model"),
        features,
        display_width,
        display_height,
        pi: plist_string(info, "pi"),
        pk,
    }
}

/// The way from a target to a receiver. What comes next is told by the results of its methods:
/// the host is looked up, then browsed for where that gave no address; the description is
/// fetched, and announced capabilities are browsed for where it has none.
#[derive(Debug)]
pub struct Resolver {
    pub host: String,
    pub port: u16,
    pub used_host: String,
    pub info: Option<Plist>,
}

/// Host, a colon and port.
pub open spec fn host_port(host: Seq<char>, port: u16) -> Seq<char> {
    host + ":"@ + text::decimal(port as nat)
}

/// Where the description is fetched.
pub open spec fn info_url(host: Seq<char>, port: u16) -> Seq<char> {
    "http://"@ + host + ":"@ + text::decimal(port as nat) + "/info"@
}

/// An address as the host of a URL.
pub open spec fn address_host(a: (Seq<char>, bool)) -> Seq<char> {
    if a.1 {
        a.0
    } else {
        "["@ + a.0 + "]"@
    }
}

fn address_as_host(ip: &IpLiteral) -> (r: String)
    ensures
        r@ == address_host(address_view(Some(*ip))->0),
{
    match ip {
        IpLiteral::V4(s) => text::owned(s.as_str()),
        IpLiteral::V6(s) => {
            let mut out = text::owned("[");
            out.append(s.as_str());
            out.append("]");
            out
        },
    }
}

/// The addresses that a lookup leaves to go on with, or its error. Local names that the system
/// cannot look up may still be browsed for.
pub open spec fn lookup_error(host: Seq<char>, addr: Seq<char>, outcome: LookupOutcome) -> Option<
    Seq<char>,
> {
    match outcome {
        LookupOutcome::Addresses(_) => None,
        LookupOutcome::Failed(e) => if text::ends_with_text(host, ".local"@) {
            None
        } else {
            Some("cannot resolve "@ + addr + ": "@ + e@)
        },
        LookupOutcome::TaskFailed(e) => Some("DNS task failed for "@ + addr + ": "@ + e@),
        LookupOutcome::TimedOut => if text::ends_with_text(host, ".local"@) {
            None
        } else {
            Some("DNS timeout resolving "@ + addr)
        },
    }
}

/// The address of a lookup.
pub open spec fn looked_up(outcome: LookupOutcome) -> Option<IpLiteral> {
    match outcome {
        LookupOutcome::Addresses(a) => preferred_address(a@),
        _ => None,
    }
}

impl Resolver {
    /// The way of a target at its start.
    pub fn new(target: &str, port: u16) -> (r: Self)
        ensures
            (r.host@, r.port as nat) == target_parts(target@, port),
            r.used_host@.len() == 0,
            r.info is None,
    {
        let (host, port) = parse_target(target, port);
        let used_host = String::new();
        Resolver { host, port, used_host, info: None }
    }

    /// What is looked up.
    pub fn lookup_address(&self) -> (r: String)
        ensures
            r@ == host_port(self.host@, self.port),
    {
        let mut s = text::owned(self.host.as_str());
        s.append(":");
        text::push_decimal(&mut s, self.port as u64);
        s
    }

    fn is_local(&self) -> (r: bool)
        ensures
            r == text::ends_with_text(self.host@, ".local"@),
    {
        let host = text::chars_of(self.host.as_str());
        let suffix = text::chars_of(".local");
        text::has_suffix(&host, &suffix)
    }

    /// Takes an address as the one that is used, and gives the place of the description.
    pub fn use_address(&mut self, ip: &IpLiteral) -> (r: String)
        ensures
            final(self).used_host@ == address_host(address_view(Some(*ip))->0),
            final(self).host == old(self).host,
            final(self).port == old(self).port,
            final(self).info == old(self).info,
            r@ == info_url(final(self).used_host@, old(self).port),
    {
        self.used_host = address_as_host(ip);
        let mut url = text::owned("http://");
        url.append(self.used_host.as_str());
        url.append(":");
        text::push_decimal(&mut url, self.port as u64);
        url.append("/info");
        url
    }

    /// Takes what the lookup came to: the place of the description comes next, or where there is
    /// no address, a browse for the host.
    pub fn on_lookup(&mut self, outcome: &LookupOutcome) -> (r: Result<Option<String>, RottenError>)
        ensures
            final(self).host == old(self).host,
            final(self).port == old(self).port,
            final(self).info == old(self).info,
            ({
                let err = lookup_error(
                    old(self).host@,
                    host_port(old(self).host@, old(self).port),
                    *outcome,
                );
                match r {
                    Err(e) => err is Some && e@ == ErrorView::DeviceNotFound(err->0),
                    Ok(None) => err is None && looked_up(*outcome) is None,
                    Ok(Some(url)) => err is None && looked_up(*outcome) is Some
                        && final(self).used_host@ == address_host(
                        address_view(looked_up(*outcome))->0,
                    ) && url@ == info_url(final(self).used_host@, old(self).port),
                }
            }),
            r matches Ok(Some(_)) || final(self).used_host == old(self).used_host,
    {
        match outcome {
            LookupOutcome::Addresses(a) => match choose_address(a) {
                Some(ip) => Ok(Some(self.use_address(&ip))),
                None => Ok(None),
            },
            LookupOutcome::Failed(e) => if self.is_local() {
                Ok(None)
            } else {
                let addr = self.lookup_address();
                let mut msg = text::owned("cannot resolve ");
                msg.append(addr.as_str());
                msg.append(": ");
                msg.append(e.as_str());
                Err(RottenError::DeviceNotFound(msg))
            },
            LookupOutcome::TaskFailed(e) => {
                let addr = self.lookup_address();
                let mut msg = text::owned("DNS task failed for ");
                msg.append(addr.as_str());
                msg.append(": ");
                msg.append(e.as_str());
                Err(RottenError::DeviceNotFound(msg))
            },
            LookupOutcome::TimedOut => if self.is_local() {
                Ok(None)
            } else {
                let addr = self.lookup_address();
                let mut msg = text::owned("DNS timeout resolving ");
                msg.append(addr.as_str());
                Err(RottenError::DeviceNotFound(msg))
            },
        }
    }

    /// Takes what the browse for the host found.
    pub fn on_browsed(&mut self, found: Option<IpLiteral>) -> (r: Result<String, RottenError>)
        ensures
            final(self).host == old(self).host,
            final(self).port == old(self).port,
            final(self).info == old(self).info,
            match found {
                Some(ip) => {
                    &&& r matches Ok(url)
                    &&& final(self).used_host@ == address_host(address_view(Some(ip))->0)
                    &&& url@ == info_url(final(self).used_host@, old(self).port)
                },
                None => {
                    &&& r matches Err(e)
                    &&& final(self).used_host == old(self).used_host
                    &&& e@ == ErrorView::DeviceNotFound(
                        "cannot resolve "@ + host_port(old(self).host@, old(self).port)
                            + " (DNS and mDNS failed; try the IP from `rottingapple discover`)"@,
                    )
                },
            },
    {
        match found {
            Some(ip) => Ok(self.use_address(&ip)),
            None => {
                let addr = self.lookup_address();
                let mut msg = text::owned("cannot resolve ");
                msg.append(addr.as_str());
                msg.append(" (DNS and mDNS failed; try the IP from `rottingapple discover`)");
                Err(RottenError::DeviceNotFound(msg))
            },
        }
    }

    /// Takes the description, and tells whether announced capabilities are to be browsed for.
    pub fn on_info(&mut self, info: Option<Plist>) -> (r: bool)
        ensures
            final(self).host == old(self).host,
            final(self).port == old(self).port,
            final(self).used_host == old(self).used_host,
            final(self).info == info,
            r == (listed_features(info_view(info)) == 0),
    {
        let features = plist_features(&info);
        self.info = info;
        features.raw == 0
    }

    /// The receiver, given the capabilities that the browse found.
    pub fn finish(&self, browsed: Option<DeviceFeatures>) -> (r: AirPlayDevice)
        ensures
            r@ == described_device(
                self.host@,
                self.used_host@,
                self.port,
                info_view(self.info),
                match browsed {
                    Some(f) => if listed_features(info_view(self.info)) == 0 {
                        f.raw
                    } else {
                        listed_features(info_view(self.info)) as u64
                    },
                    None => listed_features(info_view(self.info)) as u64,
                },
            ),
            forall|s: Seq<char>| #[trigger] tells(self.info, "deviceID"@, s) ==> r.device_id@ == s,
            forall|s: Seq<char>|
                !tells_any(self.info, "deviceID"@) && #[trigger] tells(self.info, "deviceid"@, s)
                    ==> r.device_id@ == s,
            !tells_any(self.info, "deviceID"@) && !tells_any(self.info, "deviceid"@) ==> r.device_id@
                == self.host@,
            forall|s: Seq<char>| #[trigger] tells(self.info, "name"@, s) ==> r.name@ == s,
            !tells_any(self.info, "name"@) ==> r.name@ == self.host@,
            forall|s: Seq<char>|
                #[trigger] tells(self.info, "model"@, s) <==> (r.model is Some && r.model->0@ == s),
            forall|s: Seq<char>|
                #[trigger] tells(self.info, "pi"@, s) <==> (r.pi is Some && r.pi->0@ == s),
            r.host@ == self.used_host@,
            r.port == self.port,
            listed_features(info_view(self.info)) != 0 ==> r.features.raw == listed_features(
                info_view(self.info),
            ),
            listed_features(info_view(self.info)) == 0 ==> r.features.raw == (match browsed {
                Some(f) => f.raw,
                None => 0,
            }),
    {
        let mut features = plist_features(&self.info);
        if features.raw == 0 {
            if let Some(f) = browsed {
                features = f;
            }
        }
        device_from_info(
            self.host.as_str(),
            self.used_host.as_str(),
            self.port,
            &self.info,
            features,
        )
    }
}

/// The host that an address is used as is the same in a URL, whether it is taken for a URL once
/// or twice.
pub proof fn law_address_host_is_url_host(ip: IpLiteral)
    requires
        browser::ip_text(ip).len() > 0,
        browser::ip_text(ip)[0] != '[',
    ensures
        debug_log::url_host(browser::ip_text(ip), Some(ip)) == address_host(
            address_view(Some(ip))->0,
        ),
        forall|literal: Option<IpLiteral>|
            ip is V6 ==> #[trigger] debug_log::url_host(
                address_host(address_view(Some(ip))->0),
                literal,
            ) == address_host(address_view(Some(ip))->0),
{
    reveal_strlit("[");
    if ip is V6 {
        assert(address_host(address_view(Some(ip))->0)[0] == '[');
    }
}

/// A target of a host, a colon and a port is taken apart at its last colon, except where it is an
/// IPv6 address as a whole; without a colon all of it is the host, at the usual port.
pub proof fn law_target_is_taken_apart(host: Seq<char>, port: nat, usual: u16)
    requires
        port <= 65535,
    ensures
        !ipv6::is_ipv6(host + seq![':'] + text::decimal(port)) ==> target_parts(
            host + seq![':'] + text::decimal(port),
            usual,
        ) == (host, port),
        ipv6::is_ipv6(host) ==> target_parts(host, usual) == (host, usual as nat),
        (forall|k: int| 0 <= k < host.len() ==> #[trigger] host[k] != ':') ==> {
            &&& target_parts(host, usual) == (host, usual as nat)
            &&& target_parts(host + seq![':'] + text::decimal(port), usual) == (host, port)
        },
{
    let t = host + seq![':'] + text::decimal(port);
    let n = host.len() as int;
    text::lemma_decimal_digits(port);
    text::law_decimal_reads_back(port, 65535);
    let d = text::decimal(port);
    assert forall|k: int| n < k < t.len() implies #[trigger] t[k] != ':' by {
        assert(t[k] == d[k - n - 1]);
        assert(text::is_digit(d[k - n - 1]));
    }
    lemma_last_index(t, ':', n);
    assert(t.skip(n + 1) =~= d);
    assert(t.take(n) =~= host);
    if forall|k: int| 0 <= k < host.len() ==> #[trigger] host[k] != ':' {
        lemma_last_index(host, ':', -1);
        assert forall|k: int| 0 <= k < n implies #[trigger] t[k] != ':' by {
            assert(t[k] == host[k]);
        }
        lemma_one_colon(t, n);
    }
}

proof fn lemma_last_index(s: Seq<char>, c: char, at: int)
    requires
        -1 <= at < s.len(),
        at >= 0 ==> s[at] == c,
        forall|k: int| at < k < s.len() ==> #[trigger] s[k] != c,
    ensures
        last_index(s, c) == at,
    decreases s.len(),
{
    if s.len() > 0 && at < s.len() - 1 {
        assert(s[s.len() - 1] != c);
        let front = s.drop_last();
        assert forall|k: int| at < k < front.len() implies #[trigger] front[k] != c by {
            assert(front[k] == s[k]);
        }
        lemma_last_index(front, c, at);
    }
}

proof fn lemma_one_colon(t: Seq<char>, n: int)
    requires
        0 <= n < t.len(),
        t[n] == ':',
        forall|k: int| 0 <= k < t.len() && k != n ==> #[trigger] t[k] != ':',
    ensures
        !ipv6::is_ipv6(t),
{
    text::law_first_index(t, ':');
    let i = text::first_index(t, ':');
    if n < i {
        assert(t[n] != ':');
    }
    if i < n {
        assert(t[i] != ':');
    }
    let rest = t.skip(n + 1);
    text::law_first_index(rest, ':');
    let j = text::first_index(rest, ':');
    if j < rest.len() {
        assert(rest[j] == t[n + 1 + j]);
    }
    assert(ipv6::group_count(rest, true, 7) != Some(7nat));
    assert(ipv6::group_count(t, true, 8) != Some(8nat));
    assert forall|k: int| !(#[trigger] ipv6::is_shortened(t, k)) by {
        if ipv6::is_shortened(t, k) {
            assert(t[k] == ':' && t[k + 1] == ':');
        }
    }
}

/// The address that is used is one of those that were found: the first of IPv4, and only where
/// there is none, the first of all.
pub proof fn law_preferred_address(addresses: Seq<IpLiteral>, i: int)
    requires
        0 <= i < addresses.len(),
    ensures
        preferred_address(addresses) is Some,
        addresses[i] is V4 && (forall|k: int| 0 <= k < i ==> (#[trigger] addresses[k]) is V6)
            ==> preferred_address(addresses) == Some(addresses[i]),
        (forall|k: int| 0 <= k < addresses.len() ==> (#[trigger] addresses[k]) is V6)
            ==> preferred_address(addresses) == Some(addresses[0]),
        preferred_address(Seq::empty()) is None,
{
    browser::law_first_v4(addresses);
    let f = browser::first_v4(addresses);
    if f < i {
        assert(addresses[f] is V4);
    }
    if i < f {
        assert(addresses[i] is V6);
    }
}

/// A host is found by its name whatever the case of its letters and with or without a final dot,
/// and a service at another port gives no address for it.
pub proof fn law_hosts_are_compared(s: ServiceRecord, host: Seq<char>, port: u16)
    ensures
        plain_host(host.push('.')) == plain_host(host),
        s.hostname@ == host || s.hostname@ == host.push('.') ==> serves_host(s, host),
        s.port != port ==> announced_address(s, host, port) is None && announced_features(
            s,
            host,
            port,
        ) is None,
        s.port == port && serves_host(s, host) ==> announced_address(s, host, port)
            == preferred_address(s.addresses@),
{
    assert(host.push('.').drop_last() =~= host);
}

/// The size of the first screen in a description: its pixels, or where these are not told, its
/// width and height; sizes of zero do not count.
pub proof fn law_screen_is_told(p: PlistView, screens: Seq<PlistView>, w: int, h: int)
    requires
        plist_value::stands_under(p, "displays"@, PlistView::Array(screens)),
        screens.len() > 0,
        0 < w <= 0xffff_ffff,
        0 < h <= 0xffff_ffff,
    ensures
        plist_value::stands_under(screens[0], "widthPixels"@, PlistView::Integer(w))
            ==> listed_size(Some(p)).0 == Some(w as u32),
        plist_value::stands_under(screens[0], "heightPixels"@, PlistView::Integer(h))
            ==> listed_size(Some(p)).1 == Some(h as u32),
        plist_value::entry(screens[0], "widthPixels"@) is None && plist_value::stands_under(
            screens[0],
            "width"@,
            PlistView::Integer(w),
        ) ==> listed_size(Some(p)).0 == Some(w as u32),
        plist_value::entry(screens[0], "heightPixels"@) is None && plist_value::stands_under(
            screens[0],
            "height"@,
            PlistView::Integer(h),
        ) ==> listed_size(Some(p)).1 == Some(h as u32),
        plist_value::stands_under(screens[0], "widthPixels"@, PlistView::Integer(0))
            ==> listed_size(Some(p)).0 is None,
{
    plist_value::law_entry_is_first_of_its_key(p, "displays"@);
    plist_value::law_entry_is_first_of_its_key(screens[0], "widthPixels"@);
    plist_value::law_entry_is_first_of_its_key(screens[0], "heightPixels"@);
    plist_value::law_entry_is_first_of_its_key(screens[0], "width"@);
    plist_value::law_entry_is_first_of_its_key(screens[0], "height"@);
}

/// The capabilities in a description are its number, or what its text announces; a public key is a
/// text, or 32 bytes in hexadecimal.
pub proof fn law_features_and_key_are_told(
    host: Seq<char>,
    used: Seq<char>,
    port: u16,
    p: PlistView,
    n: int,
    s: Seq<char>,
    key: Seq<u8>,
)
    ensures
        0 <= n <= 0xffff_ffff_ffff_ffff && plist_value::stands_under(
            p,
            "features"@,
            PlistView::Integer(n),
        ) ==> listed_features(Some(p)) == n,
        plist_value::stands_under(p, "features"@, PlistView::Text(s)) ==> listed_features(Some(p))
            == device::announced(s),
        plist_value::entry(p, "features"@) is None ==> listed_features(Some(p)) == 0,
        plist_value::stands_under(p, "pk"@, PlistView::Text(s)) ==> described_device(
            host,
            used,
            port,
            Some(p),
            0,
        ).pk == Some(s),
        plist_value::stands_under(p, "pk"@, PlistView::Data(key)) && key.len() == 32
            ==> (described_device(host, used, port, Some(p), 0).pk is Some && codec::hex_data(
            described_device(host, used, port, Some(p), 0).pk->0,
        ) == key),
        plist_value::stands_under(p, "pk"@, PlistView::Data(key)) && key.len() != 32
            ==> described_device(host, used, port, Some(p), 0).pk is None,
{
    plist_value::law_entry_is_first_of_its_key(p, "features"@);
    plist_value::law_entry_is_first_of_its_key(p, "pk"@);
    codec::law_hex_reads_back(key);
}
/// Announced capabilities count for a host by its name or by one of its addresses, at its port, and
/// only where there are any.
pub proof fn law_announced_capabilities(s: ServiceRecord, host: Seq<char>, port: u16, f: String)
    requires
        s.port == port,
        s.features == Some(f),
    ensures
        plain_host(s.hostname@) == text::ascii_lower(host) && device::announced(f@) != 0
            ==> announced_features(s, host, port) == Some(device::announced(f@)),
        device::announced(f@) == 0 ==> announced_features(s, host, port) is None,
        forall|i: int|
            0 <= i < s.addresses@.len() && browser::ip_text(#[trigger] s.addresses@[i]) == host
                && device::announced(f@) != 0 ==> announced_features(s, host, port) == Some(
                device::announced(f@),
            ),
{
    assert forall|i: int|
        0 <= i < s.addresses@.len() && browser::ip_text(#[trigger] s.addresses@[i]) == host
            && device::announced(f@) != 0 implies announced_features(s, host, port) == Some(
        device::announced(f@),
    ) by {
        assert(text::ascii_lower(browser::ip_text(s.addresses@[i])) == text::ascii_lower(host));
        assert(has_address(s.addresses@, host));
    }
}

/// A failed lookup ends the search for every host but those of the local domain, which may still be
/// browsed for; found addresses never do.
pub proof fn law_local_hosts_go_on(stem: Seq<char>, host: Seq<char>, addr: Seq<char>, e: String)
    ensures
        lookup_error(stem + ".local"@, addr, LookupOutcome::Failed(e)) is None,
        lookup_error(stem + ".local"@, addr, LookupOutcome::TimedOut) is None,
        lookup_error(stem + ".local"@, addr, LookupOutcome::TaskFailed(e)) is Some,
        !text::ends_with_text(host, ".local"@) ==> lookup_error(
            host,
            addr,
            LookupOutcome::Failed(e),
        ) == Some("cannot resolve "@ + addr + ": "@ + e@),
        !text::ends_with_text(host, ".local"@) ==> lookup_error(host, addr, LookupOutcome::TimedOut)
            == Some("DNS timeout resolving "@ + addr),
        forall|a: Vec<IpLiteral>| #[trigger]
            lookup_error(host, addr, LookupOutcome::Addresses(a)) is None,
{
    text::law_texts_are_found(stem, ".local"@, Seq::empty());
}

/// Where a description is fetched: at the address, in brackets where it is one of IPv6, and the
/// port.
pub proof fn law_place_of_description(a: Seq<char>, port: u16)
    ensures
        info_url(address_host((a, true)), port) == "http://"@ + a + ":"@ + text::decimal(
            port as nat,
        ) + "/info"@,
        info_url(address_host((a, false)), port) == "http://"@ + ("["@ + a + "]"@) + ":"@
            + text::decimal(port as nat) + "/info"@,
        host_port(a, port) == a + ":"@ + text::decimal(port as nat),
{
}

/// A description is the dictionary in the body of a reply with a status of success.
pub proof fn law_description_is_taken(status: u16, d: Seq<(Seq<char>, PlistView)>, t: Seq<char>)
    ensures
        200 <= status < 300 ==> described(status, Ok(PlistView::Dict(d))) == Some(
            PlistView::Dict(d),
        ),
        !(200 <= status < 300) ==> described(status, Ok(PlistView::Dict(d))) is None,
        described(status, Err(t)) is None,
{
}
/// A number counts as what it is where it fits 64 bits without a sign, a negative one as zero, and
/// anything that is no number as none.
pub proof fn law_natural_in_list(n: int, s: Seq<char>, d: Seq<u8>, b: bool)
    ensures
        0 <= n < 0x1_0000_0000_0000_0000 ==> list_natural(PlistView::Integer(n)) == Some(n as nat),
        -0x8000_0000_0000_0000 <= n < 0 ==> list_natural(PlistView::Integer(n)) == Some(0nat),
        n >= 0x1_0000_0000_0000_0000 ==> list_natural(PlistView::Integer(n)) is None,
        list_natural(PlistView::Text(s)) is None,
        list_natural(PlistView::Data(d)) is None,
        list_natural(PlistView::Boolean(b)) is None,
{
}

/// A service is that of a host in the local domain where the name of the host, without the domain,
/// stands anywhere in the name of the service, whatever the case of its letters.
pub proof fn law_service_is_named_after_host(
    s: ServiceRecord,
    stem: Seq<char>,
    before: Seq<char>,
    behind: Seq<char>,
)
    requires
        text::ascii_lower(stem) == stem,
        !text::ends_with_text(stem, ".local"@),
        text::ascii_lower(s.fullname@) == before + stem + behind,
    ensures
        serves_host(s, stem + ".local"@),
        serves_host(s, stem + ".local."@),
{
    reveal_strlit(".local");
    reveal_strlit(".local.");
    let host = stem + ".local"@;
    let dotted = stem + ".local."@;
    assert(dotted =~= host.push('.'));
    assert(dotted.drop_last() =~= host);
    assert(host.last() == 'l');
    assert(text::trim_end_char(host, '.') == host);
    assert(text::trim_end_char(dotted, '.') == host);
    assert(text::ascii_lower(host) =~= host) by {
        assert forall|k: int| 0 <= k < host.len() implies text::ascii_lower(host)[k] == host[k] by {
            if k < stem.len() {
                assert(text::ascii_lower(stem)[k] == stem[k]);
                assert(host[k] == stem[k]);
            }
        }
    }
    text::law_final_text_goes(stem, ".local"@);
    text::law_texts_are_found(before, stem, behind);
}
} // verus!
