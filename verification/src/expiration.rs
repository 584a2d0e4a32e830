//! The expiration policy: lazy, per-account point decay.
//!
//! Whenever a fee is requested, the elapsed blocks since the account's last
//! activity are compared to the configured expiration window; strictly more
//! elapsed blocks than the window reset the account's points to zero. The
//! check runs synchronously at call time, never on a timer, and a host that
//! reported a block before the last activity is treated as no elapsed time
//! rather than as underflow.

use vstd::prelude::*;

use crate::Error;
use crate::ledger::{LedgerKey, PointsLedger, spec_entry, spec_last_activity, spec_points};

verus! {

/// Whether an account whose last activity was at `last_activity` has expired
/// by `current_block`: strictly more than `expiration_blocks` blocks elapsed.
pub open spec fn spec_expired(last_activity: u64, current_block: u64, expiration_blocks: u64) -> bool {
    current_block > last_activity && current_block - last_activity > expiration_blocks
}

/// The points balance after the decay check: zeroed exactly when expired.
pub open spec fn spec_expire_points(
    points: u128,
    last_activity: u64,
    current_block: u64,
    expiration_blocks: u64,
) -> u128 {
    if spec_expired(last_activity, current_block, expiration_blocks) {
        0
    } else {
        points
    }
}

/// Decides the decay rule on plain values: true exactly when strictly more
/// than `expiration_blocks` blocks elapsed since `last_activity`.
pub fn is_expired(last_activity: u64, current_block: u64, expiration_blocks: u64) -> (r: bool)
    ensures
        r == spec_expired(last_activity, current_block, expiration_blocks),
{
    current_block > last_activity && current_block - last_activity > expiration_blocks
}

/// Applies the decay rule to `key`'s row: resets its points (and, when a
/// running total is kept, shrinks it by the same amount) exactly when the
/// account has expired. The last-activity block and every other row are
/// untouched.
pub fn maybe_expire<K: LedgerKey, const TRACKS_TOTAL: bool>(
    ledger: &mut PointsLedger<K, TRACKS_TOTAL>,
    key: &K,
    current_block: u64,
    expiration_blocks: u64,
) -> (r: Result<(), Error>)
    requires
        old(ledger).wf(),
    ensures
        final(ledger).wf(),
        r is Ok,
        spec_points(final(ledger).rows@, key@) == spec_expire_points(
            spec_points(old(ledger).rows@, key@),
            spec_last_activity(old(ledger).rows@, key@),
            current_block,
            expiration_blocks,
        ),
        spec_last_activity(final(ledger).rows@, key@) == spec_last_activity(
            old(ledger).rows@,
            key@,
        ),
        forall|k2: K::V|
            k2 != key@ ==> #[trigger] spec_entry(final(ledger).rows@, k2) == spec_entry(
                old(ledger).rows@,
                k2,
            ),
        final(ledger).total_points == old(ledger).total_points - (if TRACKS_TOTAL {
            spec_points(old(ledger).rows@, key@) - spec_points(final(ledger).rows@, key@)
        } else {
            0
        }),
{
    let last: u64 = ledger.get_last_activity(key);
    if is_expired(last, current_block, expiration_blocks) {
        match ledger.reset_points(key) {
            Ok(_) => Ok(()),
            Err(e) => Err(e),
        }
    } else {
        Ok(())
    }
}

/// The expiration boundary is strict: one block past the window resets the
/// points, while landing on the window's last block exactly does not.
pub proof fn lemma_expiration_boundary(points: u128, last_activity: u64, expiration_blocks: u64)
    requires
        last_activity + expiration_blocks + 1 <= u64::MAX,
    ensures
        spec_expire_points(
            points,
            last_activity,
            (last_activity + expiration_blocks + 1) as u64,
            expiration_blocks,
        ) == 0,
        spec_expire_points(
            points,
            last_activity,
            (last_activity + expiration_blocks) as u64,
            expiration_blocks,
        ) == points,
{
}

} // verus!
