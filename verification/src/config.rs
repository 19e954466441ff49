//! Configuration of a mirror session, and stored pairing credentials.

use crate::bytes;
use crate::error::{ErrorView, RottenError};
use crate::text;
use vstd::prelude::*;

verus! {

/// Video stream parameters; a bit rate of zero stands for one chosen from the picture size.
#[derive(Debug, Clone)]
pub struct StreamConfig {
    pub width: u32,
    pub height: u32,
    pub fps: u32,
    pub bitrate_kbps: u32,
}

impl Default for StreamConfig {
    fn default() -> (r: Self)
        ensures
            r == (StreamConfig { width: 1920, height: 1080, fps: 30, bitrate_kbps: 0 }),
    {
        StreamConfig { width: 1920, height: 1080, fps: 30, bitrate_kbps: 0 }
    }
}

/// How picture data is encrypted.
#[derive(Debug, Clone, Copy, PartialEq, Eq, Structural)]
pub enum MirrorCipherMode {
    AesCtr,
    ChaCha,
}

impl Default for MirrorCipherMode {
    fn default() -> (r: Self)
        ensures
            r == MirrorCipherMode::ChaCha,
    {
        MirrorCipherMode::ChaCha
    }
}

/// Which hardware encoder is asked for.
#[derive(Debug, Clone, Copy, PartialEq, Eq, Structural)]
pub enum HwAccel {
    Auto,
    Nvenc,
    Vaapi,
    Disabled,
}

impl Default for HwAccel {
    fn default() -> (r: Self)
        ensures
            r == HwAccel::Auto,
    {
        HwAccel::Auto
    }
}

/// A text in lower case.
pub uninterp spec fn lowercase(s: Seq<char>) -> Seq<char>;

/// `str::to_lowercase`: a function of the text; ASCII letters of an ASCII text become small.
#[verifier::external_body]
pub(crate) fn to_lowercase(s: &str) -> (r: String)
    ensures
        r@ == lowercase(s@),
        vstd::utf8::is_ascii_chars(s@) ==> r@ == text::ascii_lower(s@),
{
    s.to_lowercase()
}

/// The encoder that a name in lower case stands for.
pub open spec fn hw_accel_named(name: Seq<char>) -> HwAccel {
    if name == "nvenc"@ {
        HwAccel::Nvenc
    } else if name == "vaapi"@ {
        HwAccel::Vaapi
    } else if name == "none"@ {
        HwAccel::Disabled
    } else {
        HwAccel::Auto
    }
}

impl HwAccel {
    /// The encoder that a name stands for, in any case; automatic for an unknown name.
    pub fn from_str(s: &str) -> (r: Self)
        ensures
            r == hw_accel_named(lowercase(s@)),
            vstd::utf8::is_ascii_chars(s@) ==> r == hw_accel_named(text::ascii_lower(s@)),
    {
        let lower = to_lowercase(s);
        HwAccel::from_lowercase(lower.as_str())
    }

    /// The encoder that a name in lower case stands for.
    pub fn from_lowercase(name: &str) -> (r: Self)
        ensures
            r == hw_accel_named(name@),
    {
        if text::same_text(name, "nvenc") {
            HwAccel::Nvenc
        } else if text::same_text(name, "vaapi") {
            HwAccel::Vaapi
        } else if text::same_text(name, "none") {
            HwAccel::Disabled
        } else {
            HwAccel::Auto
        }
    }
}

/// Full configuration of a mirror session.
#[derive(Debug, Clone)]
pub struct MirrorConfig {
    pub stream: StreamConfig,
    pub pin: Option<String>,
    pub force_pair: bool,
    pub test_mode: bool,
    pub audio: bool,
    pub hw_accel: HwAccel,
    pub credentials_path: String,
    pub display_index: Option<u32>,
    pub virtual_display_only: bool,
    /// Send picture data without encryption.
    pub no_encrypt: bool,
    pub cipher: MirrorCipherMode,
}

impl MirrorConfig {
    /// The default configuration with credentials at `credentials_path`.
    pub fn with_credentials_path(credentials_path: String) -> (r: Self)
        ensures
            r.stream == (StreamConfig { width: 1920, height: 1080, fps: 30, bitrate_kbps: 0 }),
            r.pin is None,
            !r.force_pair,
            !r.test_mode,
            !r.audio,
            r.hw_accel == HwAccel::Auto,
            r.credentials_path == credentials_path,
            r.display_index is None,
            !r.virtual_display_only,
            !r.no_encrypt,
            r.cipher == MirrorCipherMode::ChaCha,
    {
        MirrorConfig {
            stream: StreamConfig::default(),
            pin: None,
            force_pair: false,
            test_mode: false,
            audio: false,
            hw_accel: HwAccel::Auto,
            credentials_path,
            display_index: None,
            virtual_display_only: false,
            no_encrypt: false,
            cipher: MirrorCipherMode::default(),
        }
    }
}

/// Pairing credentials of one device.
#[derive(Debug, Clone)]
pub struct DeviceCredentials {
    pub device_id: String,
    pub identifier: String,
    pub public_key: Vec<u8>,
    pub private_key: Vec<u8>,
    /// The receiver's Ed25519 public key; empty where it is not known.
    pub server_public_key: Vec<u8>,
}

/// What credentials hold: device, identifier and the three keys.
pub open spec fn contents(c: DeviceCredentials) -> (
    Seq<char>,
    Seq<char>,
    Seq<u8>,
    Seq<u8>,
    Seq<u8>,
) {
    (c.device_id@, c.identifier@, c.public_key@, c.private_key@, c.server_public_key@)
}

/// A copy of credentials.
pub fn copy_credentials(c: &DeviceCredentials) -> (r: DeviceCredentials)
    ensures
        contents(r) == contents(*c),
{
    DeviceCredentials {
        device_id: text::owned(c.device_id.as_str()),
        identifier: text::owned(c.identifier.as_str()),
        public_key: bytes::to_vec(&c.public_key),
        private_key: bytes::to_vec(&c.private_key),
        server_public_key: bytes::to_vec(&c.server_public_key),
    }
}

/// Position of the first entry for `device_id`; the number of entries where there is none.
pub open spec fn entry_index(devices: Seq<DeviceCredentials>, device_id: Seq<char>) -> int
    decreases devices.len(),
{
    if devices.len() == 0 {
        0
    } else if devices[0].device_id@ == device_id {
        0
    } else {
        1 + entry_index(devices.skip(1), device_id)
    }
}

/// The first entry for `device_id`.
pub open spec fn lookup(devices: Seq<DeviceCredentials>, device_id: Seq<char>) -> Option<
    DeviceCredentials,
> {
    let i = entry_index(devices, device_id);
    if i < devices.len() {
        Some(devices[i])
    } else {
        None
    }
}

/// The entries after `creds` took the place of the first entry for its device, or was added.
pub open spec fn upserted(
    devices: Seq<DeviceCredentials>,
    creds: DeviceCredentials,
) -> Seq<DeviceCredentials> {
    let i = entry_index(devices, creds.device_id@);
    if i < devices.len() {
        devices.update(i, creds)
    } else {
        devices.push(creds)
    }
}

/// Selects the entries of other devices.
pub open spec fn other_than(device_id: Seq<char>) -> spec_fn(DeviceCredentials) -> bool {
    |d: DeviceCredentials| d.device_id@ != device_id
}

/// The entries of other devices.
pub open spec fn without(devices: Seq<DeviceCredentials>, device_id: Seq<char>) -> Seq<
    DeviceCredentials,
> {
    devices.filter(other_than(device_id))
}

/// No device has two entries.
pub open spec fn unique_devices(devices: Seq<DeviceCredentials>) -> bool {
    forall|i: int, j: int|
        0 <= i < j < devices.len() ==> (#[trigger] devices[i]).device_id@ != (
        #[trigger] devices[j]).device_id@
}

pub proof fn lemma_entry_index(devices: Seq<DeviceCredentials>, device_id: Seq<char>)
    ensures
        0 <= entry_index(devices, device_id) <= devices.len(),
        entry_index(devices, device_id) < devices.len() ==> devices[entry_index(
            devices,
            device_id,
        )].device_id@ == device_id,
        forall|k: int|
            0 <= k < entry_index(devices, device_id) ==> (#[trigger] devices[k]).device_id@
                != device_id,
    decreases devices.len(),
{
    if devices.len() > 0 && devices[0].device_id@ != device_id {
        let rest = devices.skip(1);
        lemma_entry_index(rest, device_id);
        let n = entry_index(devices, device_id);
        if n < devices.len() {
            assert(devices[n] == rest[n - 1]);
        }
        assert forall|k: int| 0 <= k < n implies (#[trigger] devices[k]).device_id@ != device_id by {
            if k > 0 {
                assert(devices[k] == rest[k - 1]);
            }
        }
    }
}

proof fn lemma_entry_index_at(devices: Seq<DeviceCredentials>, device_id: Seq<char>, i: int)
    requires
        0 <= i <= devices.len(),
        i < devices.len() ==> devices[i].device_id@ == device_id,
        forall|k: int| 0 <= k < i ==> (#[trigger] devices[k]).device_id@ != device_id,
    ensures
        entry_index(devices, device_id) == i,
{
    lemma_entry_index(devices, device_id);
    let n = entry_index(devices, device_id);
    if n < i {
        assert(devices[n].device_id@ != device_id);
    } else if i < n {
        assert(devices[i].device_id@ != device_id);
    }
}

/// Stored credentials.
#[derive(Debug, Clone)]
pub struct CredentialsStore {
    pub devices: Vec<DeviceCredentials>,
}

impl Default for CredentialsStore {
    fn default() -> (r: Self)
        ensures
            r.devices@.len() == 0,
    {
        CredentialsStore { devices: Vec::new() }
    }
}

impl CredentialsStore {
    fn position(&self, device_id: &str) -> (r: usize)
        ensures
            r == entry_index(self.devices@, device_id@),
            r <= self.devices@.len(),
    {
        let mut i: usize = 0;
        while i < self.devices.len()
            invariant
                i <= self.devices@.len(),
                forall|k: int|
                    0 <= k < i ==> (#[trigger] self.devices@[k]).device_id@ != device_id@,
            decreases self.devices.len() - i,
        {
            if text::same_text(self.devices[i].device_id.as_str(), device_id) {
                proof {
                    lemma_entry_index_at(self.devices@, device_id@, i as int);
                }
                return i;
            }
            i += 1;
        }
        proof {
            lemma_entry_index_at(self.devices@, device_id@, i as int);
        }
        i
    }

    /// The first entry for a device.
    pub fn get(&self, device_id: &str) -> (r: Option<&DeviceCredentials>)
        ensures
            match r {
                Some(d) => lookup(self.devices@, device_id@) == Some(*d),
                None => lookup(self.devices@, device_id@) is None,
            },
    {
        let i: usize = self.position(device_id);
        if i < self.devices.len() {
            Some(&self.devices[i])
        } else {
            None
        }
    }

    /// Replaces the first entry for the device, or adds one.
    pub fn upsert(&mut self, creds: DeviceCredentials)
        ensures
            final(self).devices@ == upserted(old(self).devices@, creds),
    {
        let i: usize = self.position(creds.device_id.as_str());
        if i < self.devices.len() {
            self.devices.set(i, creds);
        } else {
            self.devices.push(creds);
        }
    }

    /// Removes every entry for a device.
    pub fn remove(&mut self, device_id: &str)
        ensures
            final(self).devices@ == without(old(self).devices@, device_id@),
    {
        let ghost before = self.devices@;
        let ghost keep = other_than(device_id@);
        let ghost mut k: int = 0;
        let mut i: usize = 0;
        proof {
            reveal(Seq::filter);
            assert(before.take(0).filter(keep) + before.skip(0) =~= before);
        }
        while i < self.devices.len()
            invariant
                0 <= k <= before.len(),
                keep == other_than(device_id@),
                self.devices@ == before.take(k).filter(keep) + before.skip(k),
                i == before.take(k).filter(keep).len(),
            decreases self.devices.len() - i,
        {
            let ghost done = before.take(k).filter(keep);
            assert(self.devices@[i as int] == before[k]);
            proof {
                reveal(Seq::filter);
                assert(before.take(k + 1).drop_last() =~= before.take(k));
                assert(before.take(k + 1).last() == before[k]);
            }
            if text::same_text(self.devices[i].device_id.as_str(), device_id) {
                self.devices.remove(i);
                assert(self.devices@ =~= done + before.skip(k + 1));
            } else {
                i += 1;
                assert(self.devices@ =~= done.push(before[k]) + before.skip(k + 1));
            }
            proof {
                k = k + 1;
            }
        }
        proof {
            assert(before.skip(k).len() == 0);
            assert(before.take(k) =~= before);
            assert(self.devices@ =~= before.filter(keep));
        }
    }
}

/// What was stored for a device is found again, and the entries of other devices are not
/// touched.
pub proof fn law_upsert_then_get(
    devices: Seq<DeviceCredentials>,
    creds: DeviceCredentials,
    other: Seq<char>,
)
    ensures
        lookup(upserted(devices, creds), creds.device_id@) == Some(creds),
        other != creds.device_id@ ==> lookup(upserted(devices, creds), other) == lookup(
            devices,
            other,
        ),
{
    let id = creds.device_id@;
    let after = upserted(devices, creds);
    let i = entry_index(devices, id);
    lemma_entry_index(devices, id);
    assert(after[i] == creds);
    assert forall|k: int| 0 <= k < i implies (#[trigger] after[k]).device_id@ != id by {
        assert(after[k] == devices[k]);
    }
    lemma_entry_index_at(after, id, i);
    if other != id {
        let n = entry_index(devices, other);
        lemma_entry_index(devices, other);
        if n < devices.len() {
            assert(after[n] == devices[n]);
            assert forall|k: int| 0 <= k < n implies (#[trigger] after[k]).device_id@ != other by {
                if k != i {
                    assert(after[k] == devices[k]);
                }
            }
            lemma_entry_index_at(after, other, n);
        } else {
            assert forall|k: int| 0 <= k < after.len() implies (#[trigger] after[k]).device_id@
                != other by {
                if k != i {
                    assert(after[k] == devices[k]);
                }
            }
            lemma_entry_index_at(after, other, after.len() as int);
        }
    }
}

/// Storing credentials never gives a device two entries.
pub proof fn law_upsert_keeps_unique(devices: Seq<DeviceCredentials>, creds: DeviceCredentials)
    requires
        unique_devices(devices),
    ensures
        unique_devices(upserted(devices, creds)),
{
    let after = upserted(devices, creds);
    let at = entry_index(devices, creds.device_id@);
    lemma_entry_index(devices, creds.device_id@);
    assert forall|i: int, j: int| 0 <= i < j < after.len() implies (
    #[trigger] after[i]).device_id@ != (#[trigger] after[j]).device_id@ by {
        if i != at {
            assert(after[i] == devices[i]);
        }
        if j != at {
            assert(after[j] == devices[j]);
        }
        if j == at {
            assert(devices[i].device_id@ != creds.device_id@);
        }
        if i == at {
            assert(devices[i].device_id@ == creds.device_id@);
            assert(devices[i].device_id@ != devices[j].device_id@);
        }
    }
}

proof fn lemma_lookup_push(
    devices: Seq<DeviceCredentials>,
    creds: DeviceCredentials,
    device_id: Seq<char>,
)
    ensures
        lookup(devices.push(creds), device_id) == (match lookup(devices, device_id) {
            Some(c) => Some(c),
            None => if creds.device_id@ == device_id {
                Some(creds)
            } else {
                None
            },
        }),
{
    let more = devices.push(creds);
    let n = entry_index(devices, device_id);
    lemma_entry_index(devices, device_id);
    assert forall|k: int| 0 <= k < n implies (#[trigger] more[k]).device_id@ != device_id by {
        assert(more[k] == devices[k]);
    }
    if n < devices.len() || creds.device_id@ == device_id {
        lemma_entry_index_at(more, device_id, n);
    } else {
        lemma_entry_index_at(more, device_id, n + 1);
    }
}

proof fn lemma_lookup_without(
    devices: Seq<DeviceCredentials>,
    device_id: Seq<char>,
    other: Seq<char>,
)
    requires
        other != device_id,
    ensures
        lookup(without(devices, device_id), other) == lookup(devices, other),
    decreases devices.len(),
{
    reveal(Seq::filter);
    if devices.len() > 0 {
        let (rest, last) = (devices.drop_last(), devices.last());
        lemma_lookup_without(rest, device_id, other);
        assert(devices =~= rest.push(last));
        lemma_lookup_push(rest, last, other);
        lemma_lookup_push(without(rest, device_id), last, other);
    }
}

/// After a removal a device has no entry, and every other device has the one that it had.
pub proof fn law_remove_then_get(devices: Seq<DeviceCredentials>, device_id: Seq<char>)
    ensures
        lookup(without(devices, device_id), device_id) is None,
        forall|other: Seq<char>|
            other != device_id ==> #[trigger] lookup(without(devices, device_id), other) == lookup(
                devices,
                other,
            ),
{
    assert forall|other: Seq<char>| other != device_id implies #[trigger] lookup(
        without(devices, device_id),
        other,
    ) == lookup(devices, other) by {
        lemma_lookup_without(devices, device_id, other);
    }
    let keep = other_than(device_id);
    let after = without(devices, device_id);
    assert forall|k: int| 0 <= k < after.len() implies (#[trigger] after[k]).device_id@
        != device_id by {
        devices.lemma_filter_pred(keep, k);
    }
    lemma_entry_index_at(after, device_id, after.len() as int);
}

/// The path given, or else the default one.
pub fn resolve_credentials_path(path: Option<String>, default_path: String) -> (r: String)
    ensures
        r == (match path {
            Some(p) => p,
            None => default_path,
        }),
{
    match path {
        Some(p) => p,
        None => default_path,
    }
}

/// The device id that stands for a host: the host itself, which must not be empty.
pub fn parse_device_id_from_host(host: &str) -> (r: Result<String, RottenError>)
    ensures
        match r {
            Ok(id) => host@.len() > 0 && id@ == host@,
            Err(e) => host@.len() == 0 && e@ == ErrorView::DeviceNotFound("empty host"@),
        },
{
    if host.is_empty() {
        return Err(RottenError::DeviceNotFound(text::owned("empty host")));
    }
    Ok(text::owned(host))
}

/// Three names stand for a choice of their own, and every other one for the automatic choice.
pub proof fn law_names_of_choices(name: Seq<char>)
    ensures
        hw_accel_named(name) == HwAccel::Nvenc <==> name == "nvenc"@,
        hw_accel_named(name) == HwAccel::Vaapi <==> name == "vaapi"@,
        hw_accel_named(name) == HwAccel::Disabled <==> name == "none"@,
{
    reveal_strlit("nvenc");
    reveal_strlit("vaapi");
    reveal_strlit("none");
    assert("nvenc"@[0] != "vaapi"@[0]);
    assert("none"@.len() != "nvenc"@.len());
    assert("none"@.len() != "vaapi"@.len());
}
} // verus!
