//! Receivers that announce themselves on the local network.

use crate::debug_log::IpLiteral;
use crate::device::{self, AirPlayDevice, DeviceFeatures, DeviceView};
use crate::text;
use vstd::prelude::*;

verus! {

/// The service that receivers announce.
pub const AIRPLAY_SERVICE: &'static str = "_airplay._tcp.local.";

/// Seconds that a scan takes where no time is given.
pub const DEFAULT_SCAN_SECS: u64 = 5;

/// An announced service, with the values of its properties.
#[derive(Debug, Clone)]
pub struct ServiceRecord {
    pub fullname: String,
    pub hostname: String,
    pub port: u16,
    pub addresses: Vec<IpLiteral>,
    pub device_id: Option<String>,
    pub model: Option<String>,
    pub features: Option<String>,
    pub pi: Option<String>,
    pub pk: Option<String>,
}

/// The address in its usual notation.
pub open spec fn ip_text(ip: IpLiteral) -> Seq<char> {
    match ip {
        IpLiteral::V4(s) => s@,
        IpLiteral::V6(s) => s@,
    }
}

/// Position of the first IPv4 address; the number of addresses where there is none.
pub open spec fn first_v4(addresses: Seq<IpLiteral>) -> int
    decreases addresses.len(),
{
    if addresses.len() == 0 || addresses[0] is V4 {
        0
    } else {
        1 + first_v4(addresses.skip(1))
    }
}

/// Position of the first IPv4 address.
pub fn position_v4(addresses: &[IpLiteral]) -> (r: usize)
    ensures
        r == first_v4(addresses@),
        r <= addresses@.len(),
{
    let mut i: usize = 0;
    assert(addresses@.skip(0) =~= addresses@);
    while i < addresses.len()
        invariant
            i <= addresses@.len(),
            first_v4(addresses@) == i + first_v4(addresses@.skip(i as int)),
        decreases addresses.len() - i,
    {
        assert(addresses@.skip(i as int)[0] == addresses@[i as int]);
        match &addresses[i] {
            IpLiteral::V4(_) => return i,
            IpLiteral::V6(_) => {},
        }
        assert(addresses@.skip(i as int).skip(1) =~= addresses@.skip(i + 1));
        i += 1;
    }
    i
}

/// The text of an address.
pub fn ip_string(ip: &IpLiteral) -> (r: String)
    ensures
        r@ == ip_text(*ip),
{
    match ip {
        IpLiteral::V4(s) => text::owned(s.as_str()),
        IpLiteral::V6(s) => text::owned(s.as_str()),
    }
}

/// Where a service is reached: its first IPv4 address, or its host name without final dots.
pub open spec fn service_host(s: ServiceRecord) -> Seq<char> {
    let i = first_v4(s.addresses@);
    if i < s.addresses@.len() {
        ip_text(s.addresses@[i])
    } else {
        text::trim_end_char(s.hostname@, '.')
    }
}

/// The receiver behind a service.
pub open spec fn service_device(s: ServiceRecord) -> DeviceView {
    DeviceView {
        name: s.fullname@.take(text::first_index(s.fullname@, '.')),
        host: service_host(s),
        port: s.port,
        device_id: match s.device_id {
            Some(id) => id@,
            None => service_host(s),
        },
        model: text::view_text(s.model),
        features: DeviceFeatures {
            raw: match s.features {
                Some(f) => device::announced(f@) as u64,
                None => 0,
            },
        },
        display_width: None,
        display_height: None,
        pi: text::view_text(s.pi),
        pk: text::view_text(s.pk),
    }
}

/// Makes a receiver of a service.
pub fn device_from_service(s: &ServiceRecord) -> (r: AirPlayDevice)
    ensures
        r@ == service_device(*s),
{
    let fullname = text::chars_of(s.fullname.as_str());
    let dot: usize = text::index_of_char(&fullname, '.');
    let name = text::sub_string(&fullname, 0, dot);
    assert(s.fullname@.subrange(0, dot as int) =~= s.fullname@.take(dot as int));
    let at: usize = position_v4(&s.addresses);
    let host = if at < s.addresses.len() {
        ip_string(&s.addresses[at])
    } else {
        let hostname = text::chars_of(s.hostname.as_str());
        let len: usize = text::trimmed_len(&hostname, '.');
        assert(s.hostname@.subrange(0, len as int) =~= s.hostname@.take(len as int));
        text::sub_string(&hostname, 0, len)
    };
    let device_id = match &s.device_id {
        Some(id) => text::owned(id.as_str()),
        None => text::owned(host.as_str()),
    };
    let features = match &s.features {
        Some(f) => DeviceFeatures::from_hex(f.as_str()),
        None => DeviceFeatures::default(),
    };
    AirPlayDevice {
        name,
        host,
        port: s.port,
        device_id,
        model: text::owned_opt(&s.model),
        features,
        display_width: None,
        display_height: None,
        pi: text::owned_opt(&s.pi),
        pk: text::owned_opt(&s.pk),
    }
}

/// Position of the receiver with an identifier; the number of receivers where there is none.
pub open spec fn device_index(devices: Seq<AirPlayDevice>, id: Seq<char>) -> int
    decreases devices.len(),
{
    if devices.len() == 0 || devices[0].device_id@ == id {
        0
    } else {
        1 + device_index(devices.skip(1), id)
    }
}

/// The receiver with an identifier.
pub open spec fn device_under(devices: Seq<AirPlayDevice>, id: Seq<char>) -> Option<AirPlayDevice> {
    let i = device_index(devices, id);
    if i < devices.len() {
        Some(devices[i])
    } else {
        None
    }
}

/// The receivers after one was found: it takes the place of one with the same identifier.
pub open spec fn with_device(devices: Seq<AirPlayDevice>, d: AirPlayDevice) -> Seq<AirPlayDevice> {
    let i = device_index(devices, d.device_id@);
    if i < devices.len() {
        devices.update(i, d)
    } else {
        devices.push(d)
    }
}

/// No two receivers have the same identifier.
pub open spec fn distinct_ids(devices: Seq<AirPlayDevice>) -> bool {
    forall|i: int, j: int|
        0 <= i < j < devices.len() ==> (#[trigger] devices[i]).device_id@ != (
        #[trigger] devices[j]).device_id@
}

/// No receiver comes before one with a smaller name.
pub open spec fn sorted_by_name(devices: Seq<AirPlayDevice>) -> bool {
    forall|i: int, j: int|
        0 <= i < j < devices.len() ==> text::text_le(
            (#[trigger] devices[i]).name@,
            (#[trigger] devices[j]).name@,
        )
}

proof fn lemma_device_index(devices: Seq<AirPlayDevice>, id: Seq<char>)
    ensures
        0 <= device_index(devices, id) <= devices.len(),
        device_index(devices, id) < devices.len() ==> devices[device_index(
            devices,
            id,
        )].device_id@ == id,
        forall|k: int|
            0 <= k < device_index(devices, id) ==> (#[trigger] devices[k]).device_id@ != id,
    decreases devices.len(),
{
    if devices.len() > 0 && devices[0].device_id@ != id {
        let rest = devices.skip(1);
        lemma_device_index(rest, id);
        let n = device_index(devices, id);
        if n < devices.len() {
            assert(devices[n] == rest[n - 1]);
        }
        assert forall|k: int| 0 <= k < n implies (#[trigger] devices[k]).device_id@ != id by {
            if k > 0 {
                assert(devices[k] == rest[k - 1]);
            }
        }
    }
}

proof fn lemma_device_index_at(devices: Seq<AirPlayDevice>, id: Seq<char>, i: int)
    requires
        0 <= i <= devices.len(),
        i < devices.len() ==> devices[i].device_id@ == id,
        forall|k: int| 0 <= k < i ==> (#[trigger] devices[k]).device_id@ != id,
    ensures
        device_index(devices, id) == i,
{
    lemma_device_index(devices, id);
    let n = device_index(devices, id);
    if n < i {
        assert(devices[n].device_id@ != id);
    } else if i < n {
        assert(devices[i].device_id@ != id);
    }
}

/// The receivers that a scan has found, each once.
#[derive(Debug)]
pub struct DeviceTable {
    devices: Vec<AirPlayDevice>,
}

impl DeviceTable {
    /// The receivers in the order in which they were first found.
    pub closed spec fn devices(&self) -> Seq<AirPlayDevice> {
        self.devices@
    }

    /// No identifier occurs twice.
    pub open spec fn wf(&self) -> bool {
        distinct_ids(self.devices())
    }

    pub fn new() -> (r: Self)
        ensures
            r.devices().len() == 0,
            r.wf(),
    {
        DeviceTable { devices: Vec::new() }
    }

    fn position(&self, id: &str) -> (r: usize)
        ensures
            r == device_index(self.devices(), id@),
            r <= self.devices().len(),
    {
        let mut i: usize = 0;
        while i < self.devices.len()
            invariant
                i <= self.devices@.len(),
                forall|k: int| 0 <= k < i ==> (#[trigger] self.devices@[k]).device_id@ != id@,
            decreases self.devices.len() - i,
        {
            if text::same_text(self.devices[i].device_id.as_str(), id) {
                proof {
                    lemma_device_index_at(self.devices@, id@, i as int);
                }
                return i;
            }
            i += 1;
        }
        proof {
            lemma_device_index_at(self.devices@, id@, i as int);
        }
        i
    }

    /// Adds a receiver, in the place of one with the same identifier.
    pub fn insert(&mut self, d: AirPlayDevice)
        requires
            old(self).wf(),
        ensures
            final(self).devices() == with_device(old(self).devices(), d),
            final(self).wf(),
    {
        let i: usize = self.position(d.device_id.as_str());
        proof {
            lemma_device_index(self.devices@, d.device_id@);
            law_insert_keeps_ids_distinct(self.devices@, d);
        }
        if i < self.devices.len() {
            self.devices.set(i, d);
        } else {
            self.devices.push(d);
        }
    }

    /// Takes in an announced service.
    pub fn on_resolved(&mut self, s: &ServiceRecord)
        requires
            old(self).wf(),
        ensures
            final(self).wf(),
            exists|d: AirPlayDevice|
                d@ == service_device(*s) && final(self).devices() == #[trigger] with_device(
                    old(self).devices(),
                    d,
                ),
    {
        let d = device_from_service(s);
        self.insert(d);
    }

    /// The receivers in order of their names.
    pub fn into_list(self) -> (r: Vec<AirPlayDevice>)
        ensures
            r@.to_multiset() == self.devices().to_multiset(),
            sorted_by_name(r@),
    {
        let mut rest = self.devices;
        let ghost all = rest@;
        let mut out: Vec<AirPlayDevice> = Vec::new();
        proof {
            assert(rest@.to_multiset().add(out@.to_multiset()) =~= all.to_multiset()) by {
                broadcast use vstd::seq_lib::group_to_multiset_ensures;

                assert(out@.to_multiset().len() == 0);
                assert(out@.to_multiset() =~= vstd::multiset::Multiset::empty());
            }
        }
        while rest.len() > 0
            invariant
                sorted_by_name(out@),
                rest@.to_multiset().add(out@.to_multiset()) =~= all.to_multiset(),
            decreases rest@.len(),
        {
            let ghost before = rest@;
            let d = rest.pop().unwrap();
            let ghost placed = out@;
            let p: usize = place_for(&out, &d);
            out.insert(p, d);
            proof {
                assert(before =~= rest@.push(d));
                vstd::seq_lib::to_multiset_build(rest@, d);
                vstd::seq_lib::to_multiset_insert(placed, p as int, d);
                assert forall|i: int, j: int| 0 <= i < j < out@.len() implies text::text_le(
                    (#[trigger] out@[i]).name@,
                    (#[trigger] out@[j]).name@,
                ) by {
                    if i < p && j < p {
                        assert(out@[i] == placed[i] && out@[j] == placed[j]);
                    } else if i < p && j > p {
                        assert(out@[i] == placed[i] && out@[j] == placed[j - 1]);
                    } else if i > p {
                        assert(out@[i] == placed[i - 1] && out@[j] == placed[j - 1]);
                    } else if i == p {
                        assert(out@[j] == placed[j - 1]);
                    } else {
                        assert(out@[i] == placed[i]);
                    }
                }
            }
        }
        proof {
            broadcast use vstd::seq_lib::group_to_multiset_ensures;

            assert(rest@.to_multiset() =~= vstd::multiset::Multiset::empty());
            assert(out@.to_multiset() =~= all.to_multiset());
        }
        out
    }
}

/// Where a receiver goes among receivers in order of their names.
fn place_for(sorted: &Vec<AirPlayDevice>, d: &AirPlayDevice) -> (r: usize)
    requires
        sorted_by_name(sorted@),
    ensures
        r <= sorted@.len(),
        forall|k: int| 0 <= k < r ==> text::text_le((#[trigger] sorted@[k]).name@, d.name@),
        forall|k: int|
            r <= k < sorted@.len() ==> text::text_le(d.name@, (#[trigger] sorted@[k]).name@),
{
    let name = text::chars_of(d.name.as_str());
    let mut p: usize = 0;
    while p < sorted.len()
        invariant
            p <= sorted@.len(),
            name@ == d.name@,
            sorted_by_name(sorted@),
            forall|k: int| 0 <= k < p ==> text::text_le((#[trigger] sorted@[k]).name@, d.name@),
        decreases sorted.len() - p,
    {
        let other = text::chars_of(sorted[p].name.as_str());
        if !text::text_not_after(&other, &name) {
            proof {
                let at = sorted@[p as int].name@;
                text::lemma_text_le_total(at, d.name@);
                assert forall|k: int| p <= k < sorted@.len() implies text::text_le(
                    d.name@,
                    (#[trigger] sorted@[k]).name@,
                ) by {
                    if k > p {
                        text::lemma_text_le_transitive(d.name@, at, sorted@[k].name@);
                    }
                }
            }
            return p;
        }
        p += 1;
    }
    p
}

/// Adding a receiver keeps identifiers distinct.
pub proof fn law_insert_keeps_ids_distinct(devices: Seq<AirPlayDevice>, d: AirPlayDevice)
    requires
        distinct_ids(devices),
    ensures
        distinct_ids(with_device(devices, d)),
{
    lemma_device_index(devices, d.device_id@);
    let n = device_index(devices, d.device_id@);
    let after = with_device(devices, d);
    assert forall|i: int, j: int| 0 <= i < j < after.len() implies (
    #[trigger] after[i]).device_id@ != (#[trigger] after[j]).device_id@ by {
        if i == n {
            if j < devices.len() {
                assert(devices[i].device_id@ != devices[j].device_id@);
            }
        } else if j == n {
            assert(devices[i].device_id@ != d.device_id@);
        } else {
            assert(after[i] == devices[i] && after[j] == devices[j]);
        }
    }
}

/// What was found last under an identifier is what the table has under it, and the receivers
/// with other identifiers stay as they are.
pub proof fn law_insert_then_lookup(devices: Seq<AirPlayDevice>, d: AirPlayDevice, id: Seq<char>)
    ensures
        device_under(with_device(devices, d), id) == (if id == d.device_id@ {
            Some(d)
        } else {
            device_under(devices, id)
        }),
{
    let after = with_device(devices, d);
    let n = device_index(devices, d.device_id@);
    lemma_device_index(devices, d.device_id@);
    lemma_device_index(devices, id);
    if id == d.device_id@ {
        assert forall|k: int| 0 <= k < n implies (#[trigger] after[k]).device_id@ != id by {
            assert(after[k] == devices[k]);
        }
        lemma_device_index_at(after, id, n);
    } else {
        let m = device_index(devices, id);
        assert forall|k: int| 0 <= k < m implies (#[trigger] after[k]).device_id@ != id by {
            if k != n {
                assert(after[k] == devices[k]);
            }
        }
        if m < devices.len() {
            assert(after[m] == devices[m]);
            lemma_device_index_at(after, id, m);
        } else if n < devices.len() {
            lemma_device_index_at(after, id, m);
        } else {
            assert(after[m] == d);
            assert forall|k: int| 0 <= k < after.len() implies (#[trigger] after[k]).device_id@
                != id by {
                if k < devices.len() {
                    assert(after[k] == devices[k]);
                }
            }
            lemma_device_index_at(after, id, after.len() as int);
        }
    }
}

/// The first IPv4 address is where one stands and none stands before; there is none where the whole
/// list is passed over.
pub proof fn law_first_v4(addresses: Seq<IpLiteral>)
    ensures
        0 <= first_v4(addresses) <= addresses.len(),
        first_v4(addresses) < addresses.len() ==> addresses[first_v4(addresses)] is V4,
        forall|k: int| 0 <= k < first_v4(addresses) ==> (#[trigger] addresses[k]) is V6,
    decreases addresses.len(),
{
    if addresses.len() > 0 && !(addresses[0] is V4) {
        let rest = addresses.skip(1);
        law_first_v4(rest);
        assert forall|k: int| 0 <= k < first_v4(addresses) implies (#[trigger] addresses[k]) is V6 by {
            if k > 0 {
                assert(addresses[k] == rest[k - 1]);
            }
        }
        if first_v4(addresses) < addresses.len() {
            assert(addresses[first_v4(addresses)] == rest[first_v4(rest)]);
        }
    }
}

/// What an announced service tells of a receiver: its name is what stands before the first dot of
/// the service's name; its host is its first IPv4 address, or else the host name without final
/// dots; everything else is as announced, and the host stands for an id that is not.
pub proof fn law_service_tells(s: ServiceRecord, name: Seq<char>, rest: Seq<char>)
    requires
        s.fullname@ == name + seq!['.'] + rest,
        forall|k: int| 0 <= k < name.len() ==> #[trigger] name[k] != '.',
    ensures
        ({
            let d = service_device(s);
            &&& d.name == name
            &&& d.port == s.port
            &&& d.model == text::view_text(s.model)
            &&& d.pi == text::view_text(s.pi)
            &&& d.pk == text::view_text(s.pk)
            &&& s.device_id is Some ==> d.device_id == s.device_id->0@
            &&& s.device_id is None ==> d.device_id == d.host
            &&& s.features is None ==> d.features.raw == 0
            &&& d.display_width is None && d.display_height is None
            &&& forall|i: int|
                0 <= i < s.addresses@.len() && (#[trigger] s.addresses@[i] matches IpLiteral::V4(a)
                    && (forall|k: int| 0 <= k < i ==> (#[trigger] s.addresses@[k]) is V6)) ==> d.host
                    == ip_text(s.addresses@[i])
            &&& (forall|k: int| 0 <= k < s.addresses@.len() ==> (#[trigger] s.addresses@[k]) is V6)
                ==> d.host == text::trim_end_char(s.hostname@, '.')
        }),
{
    let full = s.fullname@;
    text::law_first_index(full, '.');
    let i = text::first_index(full, '.');
    let n = name.len() as int;
    if i < n {
        assert(full[i] == name[i]);
    }
    if n < i {
        assert(full[n] == '.');
    }
    assert(full.take(n) =~= name);
    law_first_v4(s.addresses@);
    let f = first_v4(s.addresses@);
    assert forall|i: int|
        0 <= i < s.addresses@.len() && (#[trigger] s.addresses@[i] matches IpLiteral::V4(a) && (
        forall|k: int| 0 <= k < i ==> (#[trigger] s.addresses@[k]) is V6)) implies service_device(
        s,
    ).host == ip_text(s.addresses@[i]) by {
        if i < f {
            assert(s.addresses@[i] is V6);
        }
        if f < i {
            assert(s.addresses@[f] is V6);
        }
    }
}
} // verus!
