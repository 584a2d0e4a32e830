//! The points ledger: durable rows of (points, last-activity block) keyed by
//! account, with an optional running total of all points.
//!
//! The key shape is a type parameter: points may be scoped per traded pair or
//! per user alone, and both shapes share this one ledger. A row is created
//! lazily on first observation and defaults to zero points and block zero; a
//! decayed row persists with zero points and may accrue again.
//!
//! The running total is the second configuration dimension
//! (`TRACKS_TOTAL`): the per-user ledger keeps a process-wide total that
//! always equals the sum of all rows' points, maintained in the same atomic
//! method as the row it mirrors so the two cannot drift; the per-pair ledger
//! keeps none, so one account's accrual can never be blocked by the balances
//! of unrelated accounts.

use vstd::prelude::*;

use crate::Error;
use crate::accrual::accrue_points;

verus! {

/// A ledger key: exec equality and cloning must agree with the key's
/// mathematical view.
pub trait LedgerKey: View + Sized {
    /// Decides whether two keys name the same row.
    fn key_eq(&self, other: &Self) -> (r: bool)
        ensures
            r == (self@ == other@),
    ;

    /// An owned copy of the key, naming the same row.
    fn key_clone(&self) -> (r: Self)
        ensures
            r@ == self@,
    ;
}

/// A row key scoping points to one traded pair: (currency, user).
#[derive(Clone, Copy, Debug, PartialEq, Eq, Structural)]
pub struct PairKey {
    pub currency: u128,
    pub user: u128,
}

impl View for PairKey {
    type V = (u128, u128);

    open spec fn view(&self) -> (u128, u128) {
        (self.currency, self.user)
    }
}

impl LedgerKey for PairKey {
    fn key_eq(&self, other: &Self) -> (r: bool) {
        self.currency == other.currency && self.user == other.user
    }

    fn key_clone(&self) -> (r: Self) {
        PairKey { currency: self.currency, user: self.user }
    }
}

/// A row key scoping points to the user alone.
#[derive(Clone, Copy, Debug, PartialEq, Eq, Structural)]
pub struct UserKey {
    pub user: u128,
}

impl View for UserKey {
    type V = u128;

    open spec fn view(&self) -> u128 {
        self.user
    }
}

impl LedgerKey for UserKey {
    fn key_eq(&self, other: &Self) -> (r: bool) {
        self.user == other.user
    }

    fn key_clone(&self) -> (r: Self) {
        UserKey { user: self.user }
    }
}

/// One account's state: points balance and the block of its last activity.
#[derive(Clone, Copy, Debug, PartialEq, Eq, Structural)]
pub struct LedgerEntry {
    pub points: u128,
    pub last_activity_block: u64,
}

/// The state of a key that was never observed.
pub open spec fn default_entry() -> LedgerEntry {
    LedgerEntry { points: 0, last_activity_block: 0 }
}

/// The entry stored under `key`: that of the first row with that key, or the
/// lazy default when none is stored.
pub open spec fn spec_entry<K: LedgerKey>(rows: Seq<(K, LedgerEntry)>, key: K::V) -> LedgerEntry
    decreases rows.len(),
{
    if rows.len() == 0 {
        default_entry()
    } else if rows[0].0@ == key {
        rows[0].1
    } else {
        spec_entry(rows.drop_first(), key)
    }
}

/// The points balance stored under `key`.
pub open spec fn spec_points<K: LedgerKey>(rows: Seq<(K, LedgerEntry)>, key: K::V) -> u128 {
    spec_entry(rows, key).points
}

/// The last-activity block stored under `key`.
pub open spec fn spec_last_activity<K: LedgerKey>(rows: Seq<(K, LedgerEntry)>, key: K::V) -> u64 {
    spec_entry(rows, key).last_activity_block
}

/// The sum of all rows' points.
pub open spec fn sum_points<K: LedgerKey>(rows: Seq<(K, LedgerEntry)>) -> int
    decreases rows.len(),
{
    if rows.len() == 0 {
        0
    } else {
        rows[0].1.points + sum_points(rows.drop_first())
    }
}

/// No two rows name the same key.
pub open spec fn keys_unique<K: LedgerKey>(rows: Seq<(K, LedgerEntry)>) -> bool {
    forall|i: int, j: int|
        0 <= i < j < rows.len() ==> (#[trigger] rows[i]).0@ != (#[trigger] rows[j]).0@
}

/// Skipping rows that do not match the key leaves its entry unchanged.
proof fn lemma_entry_skip<K: LedgerKey>(rows: Seq<(K, LedgerEntry)>, key: K::V, i: int)
    requires
        0 <= i <= rows.len(),
        forall|k: int| 0 <= k < i ==> (#[trigger] rows[k]).0@ != key,
    ensures
        spec_entry(rows, key) == spec_entry(rows.skip(i), key),
    decreases i,
{
    if i == 0 {
        assert(rows.skip(0) =~= rows);
    } else {
        lemma_entry_skip(rows.drop_first(), key, i - 1);
        assert(rows.drop_first().skip(i - 1) =~= rows.skip(i));
    }
}

/// A first match at index `i` is the stored entry.
proof fn lemma_entry_found<K: LedgerKey>(rows: Seq<(K, LedgerEntry)>, key: K::V, i: int)
    requires
        0 <= i < rows.len(),
        forall|k: int| 0 <= k < i ==> (#[trigger] rows[k]).0@ != key,
        rows[i].0@ == key,
    ensures
        spec_entry(rows, key) == rows[i].1,
{
    lemma_entry_skip(rows, key, i);
    assert(rows.skip(i)[0] == rows[i]);
}

/// A key matched by no row holds the default entry.
proof fn lemma_entry_absent<K: LedgerKey>(rows: Seq<(K, LedgerEntry)>, key: K::V)
    requires
        forall|k: int| 0 <= k < rows.len() ==> (#[trigger] rows[k]).0@ != key,
    ensures
        spec_entry(rows, key) == default_entry(),
{
    lemma_entry_skip(rows, key, rows.len() as int);
    assert(rows.skip(rows.len() as int).len() == 0);
}

/// Replacing row `i`'s entry (key kept) rewrites that key's entry and no
/// other, provided keys are unique.
proof fn lemma_entry_update<K: LedgerKey>(
    rows: Seq<(K, LedgerEntry)>,
    i: int,
    e: LedgerEntry,
    key: K::V,
)
    requires
        keys_unique(rows),
        0 <= i < rows.len(),
    ensures
        spec_entry(rows.update(i, (rows[i].0, e)), key) == if key == rows[i].0@ {
            e
        } else {
            spec_entry(rows, key)
        },
    decreases i,
{
    let rows2 = rows.update(i, (rows[i].0, e));
    if i == 0 {
        if key != rows[0].0@ {
            assert(rows2.drop_first() =~= rows.drop_first());
        }
    } else {
        assert(rows2[0] == rows[0]);
        assert(rows2.drop_first() =~= rows.drop_first().update(i - 1, (rows[i].0, e)));
        assert(rows.drop_first()[i - 1] == rows[i]);
        lemma_entry_update(rows.drop_first(), i - 1, e, key);
    }
}

/// Appending a row with a fresh key creates its entry and touches no other.
proof fn lemma_entry_push<K: LedgerKey>(
    rows: Seq<(K, LedgerEntry)>,
    k: K,
    e: LedgerEntry,
    key: K::V,
)
    ensures
        spec_entry(rows.push((k, e)), key) == if key == k@ && !(exists|j: int|
            0 <= j < rows.len() && (#[trigger] rows[j]).0@ == key) {
            e
        } else {
            spec_entry(rows, key)
        },
    decreases rows.len(),
{
    if rows.len() == 0 {
        assert(rows.push((k, e))[0] == (k, e));
        assert(rows.push((k, e)).drop_first() =~= Seq::<(K, LedgerEntry)>::empty());
        assert(spec_entry(Seq::<(K, LedgerEntry)>::empty(), key) == default_entry());
    } else {
        assert(rows.push((k, e))[0] == rows[0]);
        if rows[0].0@ != key {
            assert(rows.push((k, e)).drop_first() =~= rows.drop_first().push((k, e)));
            lemma_entry_push(rows.drop_first(), k, e, key);
            assert((exists|j: int|
                0 <= j < rows.drop_first().len() && (#[trigger] rows.drop_first()[j]).0@ == key)
                <==> (exists|j: int| 0 <= j < rows.len() && (#[trigger] rows[j]).0@ == key)) by {
                if exists|j: int|
                    0 <= j < rows.drop_first().len() && (#[trigger] rows.drop_first()[j]).0@
                        == key {
                    let j = choose|j: int|
                        0 <= j < rows.drop_first().len() && (#[trigger] rows.drop_first()[j]).0@
                            == key;
                    assert(rows[j + 1].0@ == key);
                }
                if exists|j: int| 0 <= j < rows.len() && (#[trigger] rows[j]).0@ == key {
                    let j = choose|j: int| 0 <= j < rows.len() && (#[trigger] rows[j]).0@ == key;
                    assert(j >= 1);
                    assert(rows.drop_first()[j - 1].0@ == key);
                }
            }
        } else {
            assert(exists|j: int| 0 <= j < rows.len() && (#[trigger] rows[j]).0@ == key) by {
                assert(rows[0].0@ == key);
            }
        }
    }
}

/// Replacing row `i`'s entry shifts the sum by the difference of the points.
proof fn lemma_sum_update<K: LedgerKey>(rows: Seq<(K, LedgerEntry)>, i: int, e: LedgerEntry)
    requires
        0 <= i < rows.len(),
    ensures
        sum_points(rows.update(i, (rows[i].0, e))) == sum_points(rows) - rows[i].1.points
            + e.points,
    decreases i,
{
    let rows2 = rows.update(i, (rows[i].0, e));
    if i == 0 {
        assert(rows2.drop_first() =~= rows.drop_first());
    } else {
        assert(rows2[0] == rows[0]);
        assert(rows2.drop_first() =~= rows.drop_first().update(i - 1, (rows[i].0, e)));
        assert(rows.drop_first()[i - 1] == rows[i]);
        lemma_sum_update(rows.drop_first(), i - 1, e);
    }
}

/// Appending a row adds its points to the sum.
proof fn lemma_sum_push<K: LedgerKey>(rows: Seq<(K, LedgerEntry)>, k: K, e: LedgerEntry)
    ensures
        sum_points(rows.push((k, e))) == sum_points(rows) + e.points,
    decreases rows.len(),
{
    if rows.len() == 0 {
        assert(rows.push((k, e))[0] == (k, e));
        assert(rows.push((k, e)).drop_first() =~= Seq::<(K, LedgerEntry)>::empty());
        assert(sum_points(Seq::<(K, LedgerEntry)>::empty()) == 0);
    } else {
        assert(rows.push((k, e))[0] == rows[0]);
        assert(rows.push((k, e)).drop_first() =~= rows.drop_first().push((k, e)));
        lemma_sum_push(rows.drop_first(), k, e);
    }
}

/// The sum of points is never negative.
proof fn lemma_sum_nonneg<K: LedgerKey>(rows: Seq<(K, LedgerEntry)>)
    ensures
        sum_points(rows) >= 0,
    decreases rows.len(),
{
    if rows.len() > 0 {
        lemma_sum_nonneg(rows.drop_first());
    }
}

/// No single entry holds more points than the sum over all rows.
pub proof fn lemma_points_le_sum<K: LedgerKey>(rows: Seq<(K, LedgerEntry)>, key: K::V)
    ensures
        spec_points(rows, key) <= sum_points(rows),
    decreases rows.len(),
{
    if rows.len() == 0 {
    } else if rows[0].0@ == key {
        lemma_sum_nonneg(rows.drop_first());
    } else {
        lemma_points_le_sum(rows.drop_first(), key);
    }
}

/// The durable points ledger: rows keyed by `K`, and — when `TRACKS_TOTAL`
/// is set — the process-wide running total of all points.
pub struct PointsLedger<K: LedgerKey, const TRACKS_TOTAL: bool> {
    pub rows: Vec<(K, LedgerEntry)>,
    pub total_points: u128,
}

impl<K: LedgerKey, const TRACKS_TOTAL: bool> PointsLedger<K, TRACKS_TOTAL> {
    /// Keys are unique, so each key has one authoritative row; a ledger that
    /// keeps the running total keeps it equal to the sum of all rows'
    /// points, and one that does not leaves it at zero.
    pub open spec fn wf(self) -> bool {
        &&& keys_unique(self.rows@)
        &&& if TRACKS_TOTAL {
            self.total_points == sum_points(self.rows@)
        } else {
            self.total_points == 0
        }
    }

    /// An empty ledger: every key reads as never observed.
    pub fn new() -> (r: Self)
        ensures
            r.wf(),
            r.rows@.len() == 0,
            r.total_points == 0,
            forall|key: K::V| #[trigger] spec_entry(r.rows@, key) == default_entry(),
    {
        PointsLedger { rows: Vec::new(), total_points: 0 }
    }

    /// The index of the first row naming `key`, if one is stored.
    fn find_row(&self, key: &K) -> (r: Option<usize>)
        ensures
            match r {
                Some(i) => i < self.rows@.len() && self.rows@[i as int].0@ == key@ && (forall|
                    k: int,
                |
                    0 <= k < i ==> (#[trigger] self.rows@[k]).0@ != key@),
                None => forall|k: int|
                    0 <= k < self.rows@.len() ==> (#[trigger] self.rows@[k]).0@ != key@,
            },
    {
        let n: usize = self.rows.len();
        let mut i: usize = 0;
        while i < n
            invariant
                n == self.rows@.len(),
                i <= n,
                forall|k: int| 0 <= k < i ==> (#[trigger] self.rows@[k]).0@ != key@,
            decreases n - i,
        {
            if self.rows[i].0.key_eq(key) {
                return Some(i);
            }
            i = i + 1;
        }
        None
    }

    /// The points balance of `key`; zero for a key never observed.
    pub fn get_points(&self, key: &K) -> (r: u128)
        ensures
            r == spec_points(self.rows@, key@),
    {
        match self.find_row(key) {
            Some(i) => {
                proof {
                    lemma_entry_found(self.rows@, key@, i as int);
                }
                self.rows[i].1.points
            },
            None => {
                proof {
                    lemma_entry_absent(self.rows@, key@);
                }
                0
            },
        }
    }

    /// The last-activity block of `key`; zero for a key never observed.
    pub fn get_last_activity(&self, key: &K) -> (r: u64)
        ensures
            r == spec_last_activity(self.rows@, key@),
    {
        match self.find_row(key) {
            Some(i) => {
                proof {
                    lemma_entry_found(self.rows@, key@, i as int);
                }
                self.rows[i].1.last_activity_block
            },
            None => {
                proof {
                    lemma_entry_absent(self.rows@, key@);
                }
                0
            },
        }
    }

    /// The running total of all accounts' points; zero in a ledger that
    /// keeps none.
    pub fn get_total_points(&self) -> (r: u128)
        ensures
            r == self.total_points,
    {
        self.total_points
    }

    /// Accrues `delta` points to `key`'s row — and, when the running total
    /// is kept, to the total — in one atomic step. Fails, changing nothing,
    /// exactly when the accrual would leave the representable range:
    /// `Overflow` when the account's own balance would, `TotalOverflow` when
    /// only the running total would.
    pub fn add_points(&mut self, key: &K, delta: u128) -> (r: Result<(), Error>)
        requires
            old(self).wf(),
        ensures
            final(self).wf(),
            r is Ok <==> spec_points(old(self).rows@, key@) + delta <= u128::MAX && (TRACKS_TOTAL
                ==> sum_points(old(self).rows@) + delta <= u128::MAX),
            r == Err::<(), Error>(Error::Overflow) <==> spec_points(old(self).rows@, key@) + delta
                > u128::MAX,
            r == Err::<(), Error>(Error::TotalOverflow) <==> (spec_points(old(self).rows@, key@)
                + delta <= u128::MAX && TRACKS_TOTAL && sum_points(old(self).rows@) + delta
                > u128::MAX),
            r is Err ==> *final(self) == *old(self),
            r is Ok ==> {
                &&& spec_points(final(self).rows@, key@) == spec_points(old(self).rows@, key@)
                    + delta
                &&& spec_last_activity(final(self).rows@, key@) == spec_last_activity(
                    old(self).rows@,
                    key@,
                )
                &&& forall|k2: K::V|
                    k2 != key@ ==> #[trigger] spec_entry(final(self).rows@, k2) == spec_entry(
                        old(self).rows@,
                        k2,
                    )
                &&& final(self).total_points == old(self).total_points + (if TRACKS_TOTAL {
                    delta as int
                } else {
                    0
                })
            },
    {
        match self.find_row(key) {
            Some(i) => {
                proof {
                    lemma_entry_found(self.rows@, key@, i as int);
                    lemma_points_le_sum(self.rows@, key@);
                }
                let new_points: u128 = match accrue_points(self.rows[i].1.points, delta) {
                    Ok(p) => p,
                    Err(e) => {
                        return Err(e);
                    },
                };
                if TRACKS_TOTAL && delta > u128::MAX - self.total_points {
                    return Err(Error::TotalOverflow);
                }
                let ghost rows0 = self.rows@;
                let new_entry = LedgerEntry {
                    points: new_points,
                    last_activity_block: self.rows[i].1.last_activity_block,
                };
                let row: &mut (K, LedgerEntry) = &mut self.rows[i];
                row.1 = new_entry;
                if TRACKS_TOTAL {
                    self.total_points = self.total_points + delta;
                }
                proof {
                    assert(self.rows@ =~= rows0.update(i as int, (rows0[i as int].0, new_entry)));
                    lemma_sum_update(rows0, i as int, new_entry);
                    assert forall|k2: K::V| #[trigger] spec_entry(self.rows@, k2) == if k2 == key@ {
                        new_entry
                    } else {
                        spec_entry(rows0, k2)
                    } by {
                        lemma_entry_update(rows0, i as int, new_entry, k2);
                    }
                    assert(keys_unique(self.rows@));
                }
                Ok(())
            },
            None => {
                proof {
                    lemma_entry_absent(self.rows@, key@);
                }
                if TRACKS_TOTAL && delta > u128::MAX - self.total_points {
                    return Err(Error::TotalOverflow);
                }
                let ghost rows0 = self.rows@;
                let new_entry = LedgerEntry { points: delta, last_activity_block: 0 };
                self.rows.push((key.key_clone(), new_entry));
                if TRACKS_TOTAL {
                    self.total_points = self.total_points + delta;
                }
                proof {
                    let k = self.rows@[rows0.len() as int].0;
                    assert(self.rows@ =~= rows0.push((k, new_entry)));
                    lemma_sum_push(rows0, k, new_entry);
                    assert forall|k2: K::V| #[trigger] spec_entry(self.rows@, k2) == if k2 == key@ {
                        new_entry
                    } else {
                        spec_entry(rows0, k2)
                    } by {
                        lemma_entry_push(rows0, k, new_entry, k2);
                    }
                    assert(keys_unique(self.rows@)) by {
                        assert(forall|j: int|
                            0 <= j < rows0.len() ==> (#[trigger] self.rows@[j]) == rows0[j]);
                    }
                }
                Ok(())
            },
        }
    }

    /// Zeroes `key`'s points — subtracting them from the running total in
    /// the same step, when one is kept — and returns the prior balance. A
    /// prior balance above the running total would mark a bookkeeping defect
    /// and is reported as `Inconsistency` before anything changes; under
    /// this ledger's invariant it is proved never to occur.
    pub fn reset_points(&mut self, key: &K) -> (r: Result<u128, Error>)
        requires
            old(self).wf(),
        ensures
            final(self).wf(),
            r == Ok::<u128, Error>(spec_points(old(self).rows@, key@)),
            spec_points(final(self).rows@, key@) == 0,
            spec_last_activity(final(self).rows@, key@) == spec_last_activity(
                old(self).rows@,
                key@,
            ),
            forall|k2: K::V|
                k2 != key@ ==> #[trigger] spec_entry(final(self).rows@, k2) == spec_entry(
                    old(self).rows@,
                    k2,
                ),
            final(self).total_points == old(self).total_points - (if TRACKS_TOTAL {
                spec_points(old(self).rows@, key@) as int
            } else {
                0
            }),
    {
        match self.find_row(key) {
            Some(i) => {
                proof {
                    lemma_entry_found(self.rows@, key@, i as int);
                    lemma_points_le_sum(self.rows@, key@);
                }
                let prior: u128 = self.rows[i].1.points;
                if TRACKS_TOTAL {
                    if prior > self.total_points {
                        return Err(Error::Inconsistency);
                    }
                }
                let ghost rows0 = self.rows@;
                let new_entry = LedgerEntry {
                    points: 0,
                    last_activity_block: self.rows[i].1.last_activity_block,
                };
                let row: &mut (K, LedgerEntry) = &mut self.rows[i];
                row.1 = new_entry;
                if TRACKS_TOTAL {
                    self.total_points = self.total_points - prior;
                }
                proof {
                    assert(self.rows@ =~= rows0.update(i as int, (rows0[i as int].0, new_entry)));
                    lemma_sum_update(rows0, i as int, new_entry);
                    assert forall|k2: K::V| #[trigger] spec_entry(self.rows@, k2) == if k2 == key@ {
                        new_entry
                    } else {
                        spec_entry(rows0, k2)
                    } by {
                        lemma_entry_update(rows0, i as int, new_entry, k2);
                    }
                    assert(keys_unique(self.rows@));
                }
                Ok(prior)
            },
            None => {
                proof {
                    lemma_entry_absent(self.rows@, key@);
                }
                Ok(0)
            },
        }
    }

    /// Overwrites `key`'s last-activity block, creating the row (with zero
    /// points) when the key was never observed. Points and the running total
    /// are untouched.
    pub fn set_last_activity(&mut self, key: &K, block: u64)
        requires
            old(self).wf(),
        ensures
            final(self).wf(),
            spec_points(final(self).rows@, key@) == spec_points(old(self).rows@, key@),
            spec_last_activity(final(self).rows@, key@) == block,
            forall|k2: K::V|
                k2 != key@ ==> #[trigger] spec_entry(final(self).rows@, k2) == spec_entry(
                    old(self).rows@,
                    k2,
                ),
            final(self).total_points == old(self).total_points,
    {
        match self.find_row(key) {
            Some(i) => {
                proof {
                    lemma_entry_found(self.rows@, key@, i as int);
                }
                let ghost rows0 = self.rows@;
                let new_entry = LedgerEntry {
                    points: self.rows[i].1.points,
                    last_activity_block: block,
                };
                let row: &mut (K, LedgerEntry) = &mut self.rows[i];
                row.1 = new_entry;
                proof {
                    assert(self.rows@ =~= rows0.update(i as int, (rows0[i as int].0, new_entry)));
                    lemma_sum_update(rows0, i as int, new_entry);
                    assert forall|k2: K::V| #[trigger] spec_entry(self.rows@, k2) == if k2 == key@ {
                        new_entry
                    } else {
                        spec_entry(rows0, k2)
                    } by {
                        lemma_entry_update(rows0, i as int, new_entry, k2);
                    }
                    assert(keys_unique(self.rows@));
                }
            },
            None => {
                proof {
                    lemma_entry_absent(self.rows@, key@);
                }
                let ghost rows0 = self.rows@;
                let new_entry = LedgerEntry { points: 0, last_activity_block: block };
                self.rows.push((key.key_clone(), new_entry));
                proof {
                    let k = self.rows@[rows0.len() as int].0;
                    assert(self.rows@ =~= rows0.push((k, new_entry)));
                    lemma_sum_push(rows0, k, new_entry);
                    assert forall|k2: K::V| #[trigger] spec_entry(self.rows@, k2) == if k2 == key@ {
                        new_entry
                    } else {
                        spec_entry(rows0, k2)
                    } by {
                        lemma_entry_push(rows0, k, new_entry, k2);
                    }
                    assert(keys_unique(self.rows@)) by {
                        assert(forall|j: int|
                            0 <= j < rows0.len() ==> (#[trigger] self.rows@[j]) == rows0[j]);
                    }
                }
            },
        }
    }
}

} // verus!
