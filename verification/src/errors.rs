//! Error taxonomy for store operations and export.

use vstd::prelude::*;

verus! {

/// Failure of a store operation or of building an export document.
///
/// `ValidationError` is raised before any store access when a caller-supplied
/// entry violates a required-field invariant; `NotFound` when an addressed
/// path segment or folder is absent; `AccessDenied` and `StoreError` are
/// reserved for permission failures and other backing-store failures reported
/// by an external store driver.
#[derive(Clone, Copy, Debug, PartialEq, Eq, Structural)]
pub enum Error {
    ValidationError,
    NotFound,
    AccessDenied,
    StoreError,
}

impl Error {
    /// A short human-readable description, surfaced to callers as alert text.
    pub fn message(&self) -> (r: &'static str)
        ensures
            r@ == self.spec_message(),
    {
        match self {
            Error::ValidationError => "one or more required arguments are empty",
            Error::NotFound => "the requested path or folder was not found",
            Error::AccessDenied => "access to the store was denied",
            Error::StoreError => "the backing store reported a failure",
        }
    }

    /// The text that `message` returns for each variant.
    pub open spec fn spec_message(self) -> Seq<char> {
        match self {
            Error::ValidationError => "one or more required arguments are empty"@,
            Error::NotFound => "the requested path or folder was not found"@,
            Error::AccessDenied => "access to the store was denied"@,
            Error::StoreError => "the backing store reported a failure"@,
        }
    }
}

} // verus!
