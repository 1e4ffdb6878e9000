use vstd::prelude::*;

verus! {

/// Relies on chrono's `Utc::now` and `DateTime::timestamp_millis`: the
/// current time in milliseconds since the Unix epoch. `Utc::now` reads the
/// system clock through `SystemTime::duration_since(UNIX_EPOCH)`, so the
/// value is never negative (it panics on a clock set before the epoch).
#[verifier::external_body]
pub(crate) fn now_millis() -> (r: i64)
    ensures
        r >= 0,
{
    chrono::offset::Utc::now().timestamp_millis()
}

/// Relies on uuid's `Uuid::new_v4` and its `Display`: a random identifier
/// written in the hyphenated form, which is 36 characters long.
#[verifier::external_body]
pub(crate) fn new_id() -> (r: String)
    ensures
        r@.len() == 36,
{
    uuid::Uuid::new_v4().to_string()
}

} // verus!
