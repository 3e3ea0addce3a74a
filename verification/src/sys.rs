//! Identifiers and clock readings, which come from outside the library.

use vstd::prelude::*;

verus! {

/// A fresh random identifier: `uuid::Uuid::new_v4()` as its 128-bit value. Nothing is
/// stated of it: it is random.
#[verifier::external_body]
pub fn new_id() -> u128 {
    uuid::Uuid::new_v4().as_u128()
}

/// Milliseconds since the Unix epoch from std's `SystemTime::now()`, 0 when the clock reads
/// before the epoch. Nothing is stated of it: it is the time.
#[verifier::external_body]
pub fn now_ms() -> u64 {
    std::time::SystemTime::now()
        .duration_since(std::time::UNIX_EPOCH)
        .map(|duration| duration.as_millis() as u64)
        .unwrap_or_default()
}

} // verus!
