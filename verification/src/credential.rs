//! The process-wide shared secret.
//!
//! One opaque text value is loaded once at startup (the read itself is
//! the caller's concern), trimmed, and then only ever compared against a
//! client-supplied token, itself trimmed, on every protected call.

use crate::text::{trim_of, trim_str};
use vstd::prelude::*;

verus! {

/// The immutable shared secret a service is deployed with.
pub struct CredentialStore {
    key: String,
}

impl CredentialStore {
    /// The configured secret: the raw loaded text after trimming.
    pub closed spec fn secret(&self) -> Seq<char> {
        self.key@
    }

    /// Builds the store from the raw text of the key file; the secret is
    /// the text with surrounding whitespace removed.
    pub fn new(raw: &str) -> (r: CredentialStore)
        ensures
            r.secret() == trim_of(raw@),
    {
        CredentialStore { key: trim_str(raw) }
    }

    /// Trimmed-string equality of a candidate token against the secret.
    /// The comparison is plain string equality, not constant-time; a
    /// hardened comparison is a product decision left open.
    pub fn matches(&self, candidate: &str) -> (r: bool)
        ensures
            r == (trim_of(candidate@) == self.secret()),
    {
        let trimmed = trim_str(candidate);
        trimmed == self.key
    }
}

} // verus!
