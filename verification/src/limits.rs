use vstd::prelude::*;

verus! {

/// The history limit a store starts with when nothing was saved before.
pub const DEFAULT_MAX_ENTRIES: usize = 100;

/// The smallest history limit a store accepts.
pub const MIN_ALLOWED_ENTRIES: usize = 20;

/// The largest history limit a store accepts.
pub const MAX_ALLOWED_ENTRIES: usize = 500;

/// `limit` clamped into `[MIN_ALLOWED_ENTRIES, MAX_ALLOWED_ENTRIES]`.
pub open spec fn clamp_limit(limit: int) -> int {
    if limit < MIN_ALLOWED_ENTRIES {
        MIN_ALLOWED_ENTRIES as int
    } else if limit > MAX_ALLOWED_ENTRIES {
        MAX_ALLOWED_ENTRIES as int
    } else {
        limit
    }
}

/// Clamps a requested history limit into the accepted range.
pub fn normalize_limit(limit: usize) -> (r: usize)
    ensures
        r == clamp_limit(limit as int),
        MIN_ALLOWED_ENTRIES <= r <= MAX_ALLOWED_ENTRIES,
{
    if limit < MIN_ALLOWED_ENTRIES {
        MIN_ALLOWED_ENTRIES
    } else if limit > MAX_ALLOWED_ENTRIES {
        MAX_ALLOWED_ENTRIES
    } else {
        limit
    }
}

/// A normalized limit is a fixed point: normalizing twice is normalizing once,
/// and a limit already in range is kept as it is.
pub proof fn lemma_normalize_limit_idempotent(limit: int)
    ensures
        clamp_limit(clamp_limit(limit)) == clamp_limit(limit),
        MIN_ALLOWED_ENTRIES <= limit <= MAX_ALLOWED_ENTRIES ==> clamp_limit(limit) == limit,
{
}

} // verus!
