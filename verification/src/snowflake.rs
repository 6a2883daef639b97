//! Creation times read off record identifiers, and the retention rule.
//!
//! An identifier is a 64-bit number whose bits above the lowest 22 count
//! the milliseconds between a fixed epoch and the moment the record was
//! created. A record is kept while its age, in whole seconds, is below the
//! retention window.

use vstd::prelude::*;

verus! {

/// The epoch of the identifiers, in milliseconds since the Unix epoch.
pub const EPOCH_OFFSET_MS: u64 = 1288834974657;

/// The retention window in days.
pub const MAX_AGE_DAYS: i64 = 25;

/// The retention window in seconds.
pub const MAX_AGE_SECS: i64 = MAX_AGE_DAYS * 24 * 60 * 60;

/// The creation time that `id` encodes, in seconds since the Unix epoch.
pub open spec fn timestamp_secs(id: u64) -> int {
    ((id >> 22) + EPOCH_OFFSET_MS) / 1000
}

/// The age in seconds, at the time `now`, of the record that `id` names.
/// It is negative for an identifier from the future.
pub open spec fn age_secs(id: u64, now: u64) -> int {
    now - timestamp_secs(id)
}

/// The record that `id` names is kept at the time `now`.
pub open spec fn retained(id: u64, now: u64) -> bool {
    age_secs(id, now) < MAX_AGE_SECS
}

/// Shifting an identifier right by 22 bits divides it by 2^22, so the
/// millisecond count fits in 42 bits.
pub proof fn lemma_shift_is_division(id: u64)
    ensures
        id >> 22 == id / 0x40_0000,
        id >> 22 <= 0x3ff_ffff_ffff,
{
    assert(id >> 22 == id / 0x40_0000) by (bit_vector);
    assert(id >> 22 <= 0x3ff_ffff_ffff) by (bit_vector);
}

/// Every creation time lies between the epoch of the identifiers and the
/// last second that 42 bits of milliseconds reach.
pub proof fn lemma_timestamp_range(id: u64)
    ensures
        1288834974 <= timestamp_secs(id) <= 5686881485,
{
    lemma_shift_is_division(id);
}

/// Decodes the creation time of `id`, in seconds since the Unix epoch.
pub fn id_to_ts(id: u64) -> (ts: i64)
    ensures
        ts == timestamp_secs(id),
{
    proof {
        lemma_shift_is_division(id);
    }
    (((id >> 22) + EPOCH_OFFSET_MS) / 1000) as i64
}

/// Decides whether the record that `id` names is kept at the time `now`,
/// given in seconds since the Unix epoch.
pub fn is_retained(id: u64, now: u64) -> (keep: bool)
    ensures
        keep == retained(id, now),
{
    let ts = id_to_ts(id);
    proof {
        lemma_timestamp_range(id);
    }
    let limit: u64 = (ts + MAX_AGE_SECS) as u64;
    now < limit
}

} // verus!
