//! Pairing state and stored credentials.

use crate::config::{self, CredentialsStore, DeviceCredentials};
use crate::error::{ErrorView, RottenError};
use crate::text;
use vstd::prelude::*;

verus! {

/// Keeps the credentials of paired devices.
pub struct PairingManager {
    store: CredentialsStore,
    path: String,
}

impl PairingManager {
    /// The stored entries.
    pub closed spec fn devices(&self) -> Seq<DeviceCredentials> {
        self.store.devices@
    }

    /// Where the entries are kept.
    pub closed spec fn location(&self) -> Seq<char> {
        self.path@
    }

    /// A manager over what was read from `path`; an error in reading is passed on.
    pub fn load(store: Result<CredentialsStore, RottenError>, path: String) -> (r: Result<
        Self,
        RottenError,
    >)
        ensures
            match store {
                Ok(s) => r matches Ok(m) && m.devices() == s.devices@ && m.location() == path@,
                Err(e) => r matches Err(f) && f == e,
            },
    {
        match store {
            Ok(store) => Ok(PairingManager { store, path }),
            Err(e) => Err(e),
        }
    }

    /// Where the entries are kept.
    pub fn path(&self) -> (r: &str)
        ensures
            r@ == self.location(),
    {
        self.path.as_str()
    }

    /// The store to be written.
    pub fn store(&self) -> (r: &CredentialsStore)
        ensures
            r.devices@ == self.devices(),
    {
        &self.store
    }

    /// Whether a device has credentials.
    pub fn has_credentials(&self, device_id: &str) -> (r: bool)
        ensures
            r == (config::lookup(self.devices(), device_id@) is Some),
    {
        self.store.get(device_id).is_some()
    }

    /// The credentials of a device.
    pub fn get_credentials(&self, device_id: &str) -> (r: Option<&DeviceCredentials>)
        ensures
            match r {
                Some(d) => config::lookup(self.devices(), device_id@) == Some(*d),
                None => config::lookup(self.devices(), device_id@) is None,
            },
    {
        self.store.get(device_id)
    }

    /// The credentials that make a new pairing needless: those stored, unless one is forced.
    pub fn reusable(&self, device_id: &str, force: bool) -> (r: Option<&DeviceCredentials>)
        ensures
            match r {
                Some(d) => !force && config::lookup(self.devices(), device_id@) == Some(*d),
                None => force || config::lookup(self.devices(), device_id@) is None,
            },
    {
        if force {
            None
        } else {
            self.store.get(device_id)
        }
    }

    /// Ends a new pairing, given what the exchange with the receiver came to: credentials are
    /// stored and handed out, and a failed exchange leaves the store as it is.
    pub fn pair(&mut self, exchanged: Result<DeviceCredentials, RottenError>) -> (r: Result<
        DeviceCredentials,
        RottenError,
    >)
        ensures
            final(self).location() == old(self).location(),
            match exchanged {
                Ok(creds) => {
                    &&& final(self).devices() == config::upserted(old(self).devices(), creds)
                    &&& config::lookup(final(self).devices(), creds.device_id@) == Some(creds)
                    &&& r matches Ok(c) && config::contents(c) == config::contents(creds)
                },
                Err(e) => {
                    &&& final(self).devices() == old(self).devices()
                    &&& r matches Err(f) && f == e
                },
            },
    {
        match exchanged {
            Ok(creds) => {
                proof {
                    config::law_upsert_then_get(self.store.devices@, creds, Seq::empty());
                }
                let copy = config::copy_credentials(&creds);
                self.store.upsert(creds);
                Ok(copy)
            },
            Err(e) => Err(e),
        }
    }

    /// Forgets a device.
    pub fn remove(&mut self, device_id: &str)
        ensures
            final(self).devices() == config::without(old(self).devices(), device_id@),
            final(self).location() == old(self).location(),
            config::lookup(final(self).devices(), device_id@) is None,
    {
        proof {
            config::law_remove_then_get(self.store.devices@, device_id@);
        }
        self.store.remove(device_id);
    }
}

/// The digits of a PIN, of which there must be four or six.
pub fn format_pin(pin: &str) -> (r: Result<String, RottenError>)
    ensures
        match r {
            Ok(d) => {
                &&& d@ == text::digits_of(pin@)
                &&& d@.len() == 4 || d@.len() == 6
            },
            Err(e) => {
                let n = text::digits_of(pin@).len();
                &&& n != 4 && n != 6
                &&& e@ == ErrorView::Pairing(
                    "PIN must be 4 or 6 digits, got "@ + text::decimal(n),
                )
            },
        },
{
    let digits = text::keep_digits(pin);
    if digits.len() != 4 && digits.len() != 6 {
        return Err(
            RottenError::Pairing(
                text::numbered("PIN must be 4 or 6 digits, got ", digits.len() as u64),
            ),
        );
    }
    Ok(text::string_of(&digits))
}

} // verus!
