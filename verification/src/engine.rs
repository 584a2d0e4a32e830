//! The fee engine: composes the tier table, the points ledger and the
//! expiration policy to answer "what fee applies to this account now", and
//! the accrual calculator with the ledger to record a swap.

use vstd::prelude::*;

use vstd::arithmetic::div_mod::{lemma_div_is_ordered, lemma_div_multiples_vanish};
use vstd::arithmetic::mul::lemma_mul_inequality;

use crate::Error;
use crate::accrual::{points_earned, spec_points_earned};
use crate::expiration::{maybe_expire, spec_expire_points};
use crate::ledger::{LedgerKey, PointsLedger, spec_entry, spec_last_activity, spec_points};
use crate::tier::{TierTable, lemma_discount_bounded, spec_discount_for};

verus! {

/// The fee after a discount of `discount_bps` basis points, by floor
/// division: `base_fee - base_fee * discount_bps / 10000`.
pub open spec fn spec_fee(base_fee: u64, discount_bps: u32) -> int {
    base_fee - (base_fee * discount_bps) / 10000
}

/// A discount of at most 100% leaves the fee between zero and the base fee.
pub proof fn lemma_fee_in_range(base_fee: u64, discount_bps: u32)
    requires
        discount_bps <= 10000,
    ensures
        0 <= spec_fee(base_fee, discount_bps) <= base_fee,
        0 <= (base_fee * discount_bps) / 10000 <= base_fee,
{
    let prod = base_fee as int * discount_bps as int;
    lemma_mul_inequality(discount_bps as int, 10000, base_fee as int);
    assert(prod <= 10000 * base_fee);
    lemma_div_multiples_vanish(base_fee as int, 10000);
    lemma_div_is_ordered(prod, 10000 * base_fee, 10000);
    lemma_div_is_ordered(0, prod, 10000);
}

/// Computes the discounted fee. Infallible: the result never exceeds the
/// base fee and never goes below zero.
pub fn fee_after_discount(base_fee: u64, discount_bps: u32) -> (r: u64)
    requires
        discount_bps <= 10000,
    ensures
        r as int == spec_fee(base_fee, discount_bps),
        r <= base_fee,
{
    proof {
        lemma_fee_in_range(base_fee, discount_bps);
    }
    let prod: u128 = (base_fee as u128) * (discount_bps as u128);
    let discounted: u128 = prod / 10000;
    base_fee - (discounted as u64)
}

/// The loyalty fee engine: per-account points with lazy decay, mapped to a
/// discounted swap fee through the tier table. `TRACKS_TOTAL` selects
/// whether the ledger keeps the process-wide running total of points (the
/// per-user configuration does; the per-pair one does not).
pub struct FeeEngine<K: LedgerKey, const TRACKS_TOTAL: bool> {
    pub base_fee: u64,
    pub expiration_blocks: u64,
    pub table: TierTable,
    pub ledger: PointsLedger<K, TRACKS_TOTAL>,
}

impl<K: LedgerKey, const TRACKS_TOTAL: bool> FeeEngine<K, TRACKS_TOTAL> {
    pub open spec fn wf(self) -> bool {
        &&& self.table.wf()
        &&& self.ledger.wf()
    }

    /// The configuration and the tier table never change after `init`.
    pub open spec fn same_config(self, other: Self) -> bool {
        &&& self.base_fee == other.base_fee
        &&& self.expiration_blocks == other.expiration_blocks
        &&& self.table == other.table
    }

    /// Seeds the engine: base fee, expiration window and a validated tier
    /// table, over an empty ledger.
    pub fn init(base_fee: u64, expiration_blocks: u64, table: TierTable) -> (r: Self)
        requires
            table.wf(),
        ensures
            r.wf(),
            r.base_fee == base_fee,
            r.expiration_blocks == expiration_blocks,
            r.table == table,
            r.ledger.rows@.len() == 0,
            r.ledger.total_points == 0,
    {
        FeeEngine { base_fee, expiration_blocks, table, ledger: PointsLedger::new() }
    }

    /// The points balance of one account; zero for one never observed.
    pub fn get_user_points(&self, key: &K) -> (r: Result<u128, Error>)
        ensures
            r == Ok::<u128, Error>(spec_points(self.ledger.rows@, key@)),
    {
        Ok(self.ledger.get_points(key))
    }

    /// The running total of all accounts' points; zero in the configuration
    /// that keeps none.
    pub fn get_total_points(&self) -> (r: Result<u128, Error>)
        ensures
            r == Ok::<u128, Error>(self.ledger.total_points),
    {
        Ok(self.ledger.get_total_points())
    }

    /// The fee for one account's current points, without the decay check.
    pub fn calculate_fee(&self, key: &K) -> (r: u64)
        requires
            self.wf(),
        ensures
            r as int == spec_fee(
                self.base_fee,
                spec_discount_for(self.table.tiers@, spec_points(self.ledger.rows@, key@)),
            ),
            r <= self.base_fee,
    {
        let points: u128 = self.ledger.get_points(key);
        let discount: u32 = self.table.discount_for(points);
        fee_after_discount(self.base_fee, discount)
    }

    /// The fee that applies to this account now: first the lazy decay check
    /// (the one side effect), then the tier lookup on whatever points remain.
    /// Never fails; the result lies between zero and the base fee.
    pub fn get_fee(&mut self, key: &K, current_block: u64) -> (r: Result<u64, Error>)
        requires
            old(self).wf(),
        ensures
            final(self).wf(),
            old(self).same_config(*final(self)),
            spec_points(final(self).ledger.rows@, key@) == spec_expire_points(
                spec_points(old(self).ledger.rows@, key@),
                spec_last_activity(old(self).ledger.rows@, key@),
                current_block,
                old(self).expiration_blocks,
            ),
            spec_last_activity(final(self).ledger.rows@, key@) == spec_last_activity(
                old(self).ledger.rows@,
                key@,
            ),
            forall|k2: K::V|
                k2 != key@ ==> #[trigger] spec_entry(final(self).ledger.rows@, k2) == spec_entry(
                    old(self).ledger.rows@,
                    k2,
                ),
            final(self).ledger.total_points == old(self).ledger.total_points - (if TRACKS_TOTAL {
                spec_points(old(self).ledger.rows@, key@) - spec_points(
                    final(self).ledger.rows@,
                    key@,
                )
            } else {
                0
            }),
            r matches Ok(fee) && fee as int == spec_fee(
                old(self).base_fee,
                spec_discount_for(
                    old(self).table.tiers@,
                    spec_points(final(self).ledger.rows@, key@),
                ),
            ) && fee <= old(self).base_fee,
    {
        match maybe_expire(&mut self.ledger, key, current_block, self.expiration_blocks) {
            Ok(()) => {},
            Err(e) => {
                return Err(e);
            },
        }
        Ok(self.calculate_fee(key))
    }

    /// Records one swap for an account: accrues the points it earned and
    /// refreshes the last-activity block, atomically. Fails, changing
    /// nothing, exactly when the accrual would leave the representable
    /// range: `Overflow` when the account's own balance would overflow, and
    /// `TotalOverflow` when only the running total (kept in the per-user
    /// configuration alone) would.
    pub fn update_points(
        &mut self,
        key: &K,
        zero_for_one: bool,
        amount_specified: i128,
        delta_amount_0: i128,
        current_block: u64,
    ) -> (r: Result<(), Error>)
        requires
            old(self).wf(),
        ensures
            final(self).wf(),
            old(self).same_config(*final(self)),
            ({
                let earned = spec_points_earned(
                    zero_for_one,
                    amount_specified as int,
                    delta_amount_0 as int,
                );
                &&& (r is Ok <==> spec_points(old(self).ledger.rows@, key@) + earned <= u128::MAX
                    && (TRACKS_TOTAL ==> crate::ledger::sum_points(old(self).ledger.rows@) + earned
                    <= u128::MAX))
                &&& (r == Err::<(), Error>(Error::Overflow) <==> spec_points(
                    old(self).ledger.rows@,
                    key@,
                ) + earned > u128::MAX)
                &&& (r == Err::<(), Error>(Error::TotalOverflow) <==> (spec_points(
                    old(self).ledger.rows@,
                    key@,
                ) + earned <= u128::MAX && TRACKS_TOTAL && crate::ledger::sum_points(
                    old(self).ledger.rows@,
                ) + earned > u128::MAX))
                &&& r is Err ==> *final(self) == *old(self)
                &&& r is Ok ==> {
                    &&& spec_points(final(self).ledger.rows@, key@) == spec_points(
                        old(self).ledger.rows@,
                        key@,
                    ) + earned
                    &&& spec_last_activity(final(self).ledger.rows@, key@) == current_block
                    &&& forall|k2: K::V|
                        k2 != key@ ==> #[trigger] spec_entry(final(self).ledger.rows@, k2)
                            == spec_entry(old(self).ledger.rows@, k2)
                    &&& final(self).ledger.total_points == old(self).ledger.total_points + (
                    if TRACKS_TOTAL {
                        earned
                    } else {
                        0
                    })
                }
            }),
    {
        let earned: u128 = points_earned(zero_for_one, amount_specified, delta_amount_0);
        match self.ledger.add_points(key, earned) {
            Ok(()) => {},
            Err(e) => {
                return Err(e);
            },
        }
        self.ledger.set_last_activity(key, current_block);
        Ok(())
    }
}

/// Requesting the fee twice, with no swap recorded and no block elapsed in
/// between, decays the points once and then leaves them alone: the second
/// answer equals the first.
pub proof fn lemma_get_fee_idempotent(
    tiers: Seq<crate::tier::Tier>,
    base_fee: u64,
    expiration_blocks: u64,
    points: u128,
    last_activity: u64,
    current_block: u64,
)
    ensures
        ({
            let once = spec_expire_points(points, last_activity, current_block, expiration_blocks);
            let twice = spec_expire_points(once, last_activity, current_block, expiration_blocks);
            &&& twice == once
            &&& spec_fee(base_fee, spec_discount_for(tiers, twice)) == spec_fee(
                base_fee,
                spec_discount_for(tiers, once),
            )
        }),
{
}

/// The discount a well-formed table yields always lies in [0, 10000] basis
/// points, and the fee it leaves always lies between zero and the base fee.
pub proof fn lemma_fee_bounded(tiers: Seq<crate::tier::Tier>, base_fee: u64, points: u128)
    requires
        crate::tier::table_wf(tiers),
    ensures
        0 <= spec_discount_for(tiers, points) <= 10000,
        0 <= spec_fee(base_fee, spec_discount_for(tiers, points)) <= base_fee,
{
    lemma_discount_bounded(tiers, points);
    lemma_fee_in_range(base_fee, spec_discount_for(tiers, points));
}

} // verus!
