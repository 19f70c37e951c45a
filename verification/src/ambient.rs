//! Ambient machine sources the core consumes: freshly drawn identifiers,
//! randomness, and the clock. Each is an external collaborator; nothing about
//! a drawn value can be pinned down, so callers state what holds of every
//! outcome.

use vstd::prelude::*;

verus! {

/// Relies on `uuid::Uuid::new_v4` and `Uuid::as_u128`: a freshly drawn random
/// version-4 identifier as a 128-bit value. Nothing is promised of the value:
/// it depends on the machine's entropy, and two draws may collide.
#[verifier::external_body]
pub fn fresh_id() -> u128 {
    uuid::Uuid::new_v4().as_u128()
}

/// Relies on `rand::random_range` on the half-open range `0..n`: the sampled
/// value lies in the range. The function panics on an empty range, which the
/// precondition rules out.
#[verifier::external_body]
pub fn random_below(n: usize) -> (r: usize)
    requires
        n > 0,
    ensures
        r < n,
{
    rand::random_range(0..n)
}

/// Relies on `chrono::Utc::now` and `DateTime::timestamp_millis`: the current
/// wall-clock time as milliseconds since the Unix epoch. Nothing is promised
/// of the value: it depends on the machine's clock. `Utc::now` itself panics
/// on a machine whose clock is set before the Unix epoch, so on targets where
/// this call returns, the reading is never negative and the clamp in
/// `to_unsigned_millis` is a formality.
#[verifier::external_body]
pub fn now_millis() -> i64 {
    chrono::Utc::now().timestamp_millis()
}

/// Clamps a raw clock reading to the unsigned timestamp domain the core uses:
/// readings before the epoch count as the epoch itself.
pub fn to_unsigned_millis(t: i64) -> (r: u64)
    ensures
        t >= 0 ==> r == t as u64,
        t < 0 ==> r == 0,
{
    if t >= 0 {
        t as u64
    } else {
        0
    }
}

} // verus!
