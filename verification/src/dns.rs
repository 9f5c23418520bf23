//! The one thing the verifier asks of the network.

use vstd::prelude::*;
use crate::errors::DKIMError;

verus! {

/// A trait for entities that perform DNS resolution.
///
/// `lookup_txt` returns the strings of the TXT record under `name`, in the
/// order of the record. Where there is no such record it returns
/// `DKIMError::KeyNotFound`, where the query itself failed
/// `DKIMError::DnsLookupFailed`.
pub trait Lookup {
    fn lookup_txt(&self, name: &str) -> Result<Vec<String>, DKIMError>;
}

} // verus!
