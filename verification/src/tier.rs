//! The tiered discount table: pure lookup logic, no mutable state.
//!
//! A table is a sequence of tiers kept in descending threshold order; lookup
//! returns the discount of the first tier whose threshold the account's
//! points meet or exceed, so the highest qualifying tier wins. The table is
//! validated once at construction and immutable afterwards; lookups rely on
//! the sortedness invariant instead of re-deriving it.

use vstd::prelude::*;

verus! {

/// One discount bracket: accounts holding at least `threshold` points get a
/// discount of `discount_bps` basis points (10000 = 100%).
#[derive(Clone, Copy, Debug, PartialEq, Eq, Structural)]
pub struct Tier {
    pub threshold: u128,
    pub discount_bps: u32,
}

/// Every discount is at most 100% and thresholds never increase along the
/// sequence, so a front-to-back scan meets the highest qualifying threshold
/// first.
pub open spec fn table_wf(tiers: Seq<Tier>) -> bool {
    &&& forall|i: int| 0 <= i < tiers.len() ==> (#[trigger] tiers[i]).discount_bps <= 10000
    &&& forall|i: int, j: int|
        0 <= i < j < tiers.len() ==> (#[trigger] tiers[i]).threshold >= (#[trigger] tiers[j]).threshold
}

/// The discount owed to `points`: that of the first tier whose threshold is
/// met, or zero when none is.
pub open spec fn spec_discount_for(tiers: Seq<Tier>, points: u128) -> u32
    decreases tiers.len(),
{
    if tiers.len() == 0 {
        0
    } else if tiers[0].threshold <= points {
        tiers[0].discount_bps
    } else {
        spec_discount_for(tiers.drop_first(), points)
    }
}

/// An ordered list of discount tiers, validated at construction.
pub struct TierTable {
    pub tiers: Vec<Tier>,
}

impl TierTable {
    pub open spec fn wf(self) -> bool {
        table_wf(self.tiers@)
    }

    /// Builds a table from a tier list, rejecting one that is not in
    /// descending threshold order or that holds a discount over 100%.
    pub fn new(tiers: Vec<Tier>) -> (r: Option<TierTable>)
        ensures
            r is Some <==> table_wf(tiers@),
            r matches Some(t) ==> t.tiers@ == tiers@,
    {
        let n: usize = tiers.len();
        let mut i: usize = 0;
        while i < n
            invariant
                n == tiers@.len(),
                i <= n,
                forall|k: int| 0 <= k < i ==> (#[trigger] tiers@[k]).discount_bps <= 10000,
                forall|k: int, j: int|
                    0 <= k < j < i ==> (#[trigger] tiers@[k]).threshold >= (#[trigger] tiers@[j]).threshold,
            decreases n - i,
        {
            if tiers[i].discount_bps > 10000 {
                return None;
            }
            if i > 0 && tiers[i - 1].threshold < tiers[i].threshold {
                return None;
            }
            i = i + 1;
        }
        Some(TierTable { tiers })
    }

    /// Looks up the discount owed to `points` by a front-to-back scan.
    pub fn discount_for(&self, points: u128) -> (r: u32)
        requires
            self.wf(),
        ensures
            r == spec_discount_for(self.tiers@, points),
            r <= 10000,
    {
        let n: usize = self.tiers.len();
        let mut i: usize = 0;
        while i < n
            invariant
                self.wf(),
                n == self.tiers@.len(),
                i <= n,
                forall|k: int| 0 <= k < i ==> (#[trigger] self.tiers@[k]).threshold > points,
            decreases n - i,
        {
            if self.tiers[i].threshold <= points {
                proof {
                    lemma_discount_found(self.tiers@, points, i as int);
                }
                return self.tiers[i].discount_bps;
            }
            i = i + 1;
        }
        proof {
            lemma_discount_none(self.tiers@, points);
        }
        0
    }
}

/// When every tier before `i` misses and tier `i` qualifies, the scan's
/// answer is tier `i`'s discount.
proof fn lemma_discount_found(tiers: Seq<Tier>, points: u128, i: int)
    requires
        0 <= i < tiers.len(),
        forall|k: int| 0 <= k < i ==> (#[trigger] tiers[k]).threshold > points,
        tiers[i].threshold <= points,
    ensures
        spec_discount_for(tiers, points) == tiers[i].discount_bps,
    decreases i,
{
    if i > 0 {
        lemma_discount_found(tiers.drop_first(), points, i - 1);
    }
}

/// When no tier qualifies, the scan's answer is zero.
proof fn lemma_discount_none(tiers: Seq<Tier>, points: u128)
    requires
        forall|k: int| 0 <= k < tiers.len() ==> (#[trigger] tiers[k]).threshold > points,
    ensures
        spec_discount_for(tiers, points) == 0,
    decreases tiers.len(),
{
    if tiers.len() > 0 {
        lemma_discount_none(tiers.drop_first(), points);
    }
}

/// The discount a well-formed table returns never exceeds 100%.
pub proof fn lemma_discount_bounded(tiers: Seq<Tier>, points: u128)
    requires
        table_wf(tiers),
    ensures
        spec_discount_for(tiers, points) <= 10000,
    decreases tiers.len(),
{
    if tiers.len() > 0 && !(tiers[0].threshold <= points) {
        lemma_discount_bounded(tiers.drop_first(), points);
    }
}

/// With discounts themselves non-increasing along the table, every answer the
/// scan can give is bounded by the first tier's discount.
proof fn lemma_discount_le_first(tiers: Seq<Tier>, points: u128)
    requires
        tiers.len() > 0,
        forall|i: int, j: int|
            0 <= i < j < tiers.len() ==> (#[trigger] tiers[i]).discount_bps >= (#[trigger] tiers[j]).discount_bps,
    ensures
        spec_discount_for(tiers, points) <= tiers[0].discount_bps,
    decreases tiers.len(),
{
    if tiers[0].threshold <= points {
    } else if tiers.len() == 1 {
        assert(spec_discount_for(tiers.drop_first(), points) == 0);
    } else {
        assert forall|i: int, j: int| 0 <= i < j < tiers.drop_first().len() implies (#[trigger] tiers.drop_first()[i]).discount_bps
            >= (#[trigger] tiers.drop_first()[j]).discount_bps by {
            assert(tiers.drop_first()[i] == tiers[i + 1]);
            assert(tiers.drop_first()[j] == tiers[j + 1]);
        }
        lemma_discount_le_first(tiers.drop_first(), points);
        assert(tiers.drop_first()[0] == tiers[1]);
    }
}

/// Tier selection is monotonic: an account with more points never gets a
/// smaller discount, given a well-formed table whose discounts do not
/// increase as thresholds descend. (Without that alignment of discounts with
/// thresholds a lower bracket could carry the larger discount and the claim
/// would fail.)
pub proof fn lemma_discount_monotonic(tiers: Seq<Tier>, p1: u128, p2: u128)
    requires
        table_wf(tiers),
        forall|i: int, j: int|
            0 <= i < j < tiers.len() ==> (#[trigger] tiers[i]).discount_bps >= (#[trigger] tiers[j]).discount_bps,
        p1 <= p2,
    ensures
        spec_discount_for(tiers, p1) <= spec_discount_for(tiers, p2),
    decreases tiers.len(),
{
    if tiers.len() > 0 {
        if tiers[0].threshold <= p1 {
            // Both scans stop at the first tier.
        } else if tiers[0].threshold <= p2 {
            lemma_discount_le_first(tiers, p1);
        } else {
            lemma_discount_monotonic(tiers.drop_first(), p1, p2);
        }
    }
}

} // verus!
