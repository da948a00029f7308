//! Fresh ids and the current time, from outside the store.

use vstd::prelude::*;

verus! {

/// Relies on `uuid::Uuid::new_v4` and its `Display`: a random id in the
/// hyphenated form, 36 characters long. Nothing is promised of its value.
#[verifier::external_body]
pub(crate) fn new_id() -> (r: String)
    ensures
        r@.len() == 36,
{
    uuid::Uuid::new_v4().to_string()
}

/// Relies on `chrono::Utc::now` and `DateTime::to_rfc3339`: the current time
/// as RFC 3339 text. Nothing is promised of its value.
#[verifier::external_body]
pub(crate) fn now_iso() -> (r: String) {
    chrono::Utc::now().to_rfc3339()
}

} // verus!
