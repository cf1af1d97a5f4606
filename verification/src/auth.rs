//! The request guard in front of every protected endpoint.
//!
//! The guard runs before anything touches a record store: a denied
//! request performs no read and no write.  Denial is uniform — one
//! message for a missing cookie and for a wrong one alike.

use crate::credential::CredentialStore;
use crate::error::{AppError, ErrorKind};
use crate::text::trim_of;
use vstd::prelude::*;

verus! {

/// The view of the optional credential cookie a request carried.
pub open spec fn cookie_view(cookie: Option<&String>) -> Option<Seq<char>> {
    match cookie {
        Some(c) => Some(c@),
        None => None,
    }
}

/// A request is authorized exactly when it carries a cookie whose
/// trimmed value equals the configured secret.
pub open spec fn authorized(cookie: Option<Seq<char>>, secret: Seq<char>) -> bool {
    match cookie {
        Some(c) => trim_of(c) == secret,
        None => false,
    }
}

/// Name of the cookie the shared secret travels in.
pub fn cookie_name() -> (r: &'static str)
    ensures
        r@ == "beebfam-key"@,
{
    "beebfam-key"
}

/// The guard itself: permits continuation exactly for an authorized
/// request, and otherwise produces the uniform denial.
pub fn check_credential(cookie: Option<&String>, cred: &CredentialStore) -> (r: Result<
    (),
    AppError,
>)
    ensures
        r is Ok <==> authorized(cookie_view(cookie), cred.secret()),
        r is Err ==> r->Err_0.kind == ErrorKind::Authorization,
{
    match cookie {
        None => Err(AppError::authorization()),
        Some(value) => {
            if cred.matches(value.as_str()) {
                Ok(())
            } else {
                Err(AppError::authorization())
            }
        },
    }
}

} // verus!
