use vstd::prelude::*;

verus! {

/// The current time in milliseconds since the Unix epoch (`chrono::Utc::now()`); nothing
/// is stated of its value.
#[verifier::external_body]
pub(crate) fn now_millis() -> i64 {
    chrono::Utc::now().timestamp_millis()
}

/// A new random version-4 UUID in hyphenated form (`uuid::Uuid::new_v4()`), which the
/// crate always prints as 36 characters.
#[verifier::external_body]
pub(crate) fn new_uuid_v4() -> (r: String)
    ensures
        r@.len() == 36,
{
    uuid::Uuid::new_v4().to_string()
}

} // verus!
