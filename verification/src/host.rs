//! Values only the host can supply: fresh identifiers and the current time.
//!
//! Both are nondeterministic, so neither wrapper promises anything about its
//! result. Every function that consumes one of these values takes it as an
//! argument and is verified for every value it could be.

use vstd::prelude::*;

verus! {

/// Relies on uuid's `Uuid::new_v4`: a freshly drawn random version-4 UUID,
/// carried as its 128-bit value. Randomness promises nothing, so no clause
/// does either; callers that need freshness check it against the store.
#[verifier::external_body]
pub fn fresh_id() -> u128 {
    uuid::Uuid::new_v4().as_u128()
}

/// Relies on chrono's `Utc::now` and `DateTime::to_rfc3339`: the current
/// instant rendered as an RFC 3339 timestamp. The clock promises nothing
/// about the value, so no clause does either.
#[verifier::external_body]
pub fn now_rfc3339() -> String {
    chrono::Utc::now().to_rfc3339()
}

} // verus!
