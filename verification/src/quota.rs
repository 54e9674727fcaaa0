//! Storage quotas: a repository may cap the bytes it holds; a push that would pass the cap is
//! refused.

use vstd::prelude::*;

use crate::error::ApplicationError;

verus! {

/// The cap a repository's `quota_bytes` sets, read as an unsigned byte count (as the stores
/// compare it).
pub open spec fn quota_limit(quota: i64) -> int {
    if quota >= 0 {
        quota as int
    } else {
        quota + 0x1_0000_0000_0000_0000
    }
}

/// Refuses a write of `added_bytes` to a repository holding `used_bytes` when it would pass the
/// repository's quota; without a quota every write fits.
pub fn check_quota(quota_bytes: Option<i64>, used_bytes: u64, added_bytes: u64) -> (r: Result<(), ApplicationError>)
    requires
        used_bytes + added_bytes <= u64::MAX,
    ensures
        match quota_bytes {
            Some(q) if used_bytes + added_bytes > quota_limit(q) => r == Err::<(), ApplicationError>(
                ApplicationError::StorageQuotaExceeded,
            ),
            _ => r is Ok,
        },
{
    match quota_bytes {
        Some(q) => {
            let limit: u64 = if q >= 0 {
                q as u64
            } else {
                (q + 1 + 0x7fff_ffff_ffff_ffff) as u64 + 0x8000_0000_0000_0000
            };
            if used_bytes + added_bytes > limit {
                Err(ApplicationError::StorageQuotaExceeded)
            } else {
                Ok(())
            }
        },
        None => Ok(()),
    }
}

} // verus!
