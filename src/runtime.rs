use vstd::prelude::*;
use crate::models::Timestamp;

verus! {

/// A fresh identifier. Relies on uuid's `Uuid::new_v4` and its `Display`:
/// a random version-4 UUID, as text. Nothing is promised of the value.
#[verifier::external_body]
pub(crate) fn new_id() -> (r: String) {
    uuid::Uuid::new_v4().to_string()
}

/// The current time. Relies on chrono's `Utc::now` and
/// `DateTime::timestamp_millis`: milliseconds since the Unix epoch, read
/// from the system clock. Nothing is promised of the value.
#[verifier::external_body]
pub(crate) fn now_millis() -> (r: Timestamp) {
    chrono::Utc::now().timestamp_millis()
}

} // verus!
