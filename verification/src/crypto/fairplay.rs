//! FairPlay SAP providers.

use crate::bytes;
use crate::error::{self, ErrorView, RottenError};
use vstd::prelude::*;

verus! {

/// A provider of FairPlay SAP, with the relations between its arguments and results.
pub trait SapProvider {
    /// What set-up may return for `data`.
    spec fn sets_up(&self, data: Seq<u8>, r: Result<Vec<u8>, RottenError>) -> bool;

    /// What decryption may return for `encrypted`.
    spec fn decrypts(&self, encrypted: Seq<u8>, r: Result<Vec<u8>, RottenError>) -> bool;

    fn generate_sap_setup(&self, data: &[u8]) -> (r: Result<Vec<u8>, RottenError>)
        ensures
            self.sets_up(data@, r),
    ;

    fn decrypt_key(&self, encrypted: &[u8]) -> (r: Result<Vec<u8>, RottenError>)
        ensures
            self.decrypts(encrypted@, r),
    ;
}

/// A provider that hands back what it gets.
pub struct StubSapProvider;

impl SapProvider for StubSapProvider {
    open spec fn sets_up(&self, data: Seq<u8>, r: Result<Vec<u8>, RottenError>) -> bool {
        r matches Ok(v) && v@ == data
    }

    open spec fn decrypts(&self, encrypted: Seq<u8>, r: Result<Vec<u8>, RottenError>) -> bool {
        match r {
            Ok(v) => encrypted.len() > 0 && v@ == encrypted,
            Err(e) => encrypted.len() == 0 && e@ == ErrorView::Crypto("empty SAP key"@),
        }
    }

    fn generate_sap_setup(&self, data: &[u8]) -> (r: Result<Vec<u8>, RottenError>) {
        Ok(bytes::to_vec(data))
    }

    fn decrypt_key(&self, encrypted: &[u8]) -> (r: Result<Vec<u8>, RottenError>) {
        if encrypted.len() == 0 {
            return Err(error::crypto_error("empty SAP key"));
        }
        Ok(bytes::to_vec(encrypted))
    }
}

/// FairPlay SAP through a provider.
pub struct FairPlaySap<P: SapProvider> {
    provider: P,
}

impl<P: SapProvider> FairPlaySap<P> {
    pub closed spec fn provider(&self) -> P {
        self.provider
    }

    pub fn new(provider: P) -> (r: Self)
        ensures
            r.provider() == provider,
    {
        FairPlaySap { provider }
    }

    /// What the provider returns for `payload`.
    pub fn setup(&self, payload: &[u8]) -> (r: Result<Vec<u8>, RottenError>)
        ensures
            self.provider().sets_up(payload@, r),
    {
        self.provider.generate_sap_setup(payload)
    }

    /// What the provider returns for `encrypted`.
    pub fn decrypt_aes_key(&self, encrypted: &[u8]) -> (r: Result<Vec<u8>, RottenError>)
        ensures
            self.provider().decrypts(encrypted@, r),
    {
        self.provider.decrypt_key(encrypted)
    }
}

} // verus!
