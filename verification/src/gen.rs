//! Generated values the engine needs from outside: fresh identifiers and
//! the current time. Both depend on more than their arguments (randomness,
//! the clock), so the operations that use them state what holds of every
//! outcome and hand the value to verified code as an argument.

use vstd::prelude::*;

verus! {

/// Relies on `uuid::Uuid::new_v4` and its `Display` form: a freshly drawn
/// random version-4 UUID rendered in the hyphenated form, which is always
/// 36 characters. The draw is random, so nothing relates two calls.
#[verifier::external_body]
pub(crate) fn fresh_id() -> (r: String)
    ensures
        r@.len() == 36,
{
    uuid::Uuid::new_v4().to_string()
}

/// Relies on `chrono::Utc::now` and `DateTime::to_rfc3339`: the current
/// UTC time in RFC 3339 form. The value depends on the clock, so nothing
/// is promised of it beyond being some string.
#[verifier::external_body]
pub(crate) fn now_rfc3339() -> (r: String) {
    chrono::Utc::now().to_rfc3339()
}

} // verus!
