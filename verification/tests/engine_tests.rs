use loyalty_fee::engine::{fee_after_discount, FeeEngine};
use loyalty_fee::ledger::{PairKey, PointsLedger, UserKey};
use loyalty_fee::tier::{Tier, TierTable};
use loyalty_fee::Error;

fn pair_engine(
    base_fee: u64,
    expiration_blocks: u64,
    tiers: Vec<Tier>,
) -> FeeEngine<PairKey, false> {
    let table = TierTable::new(tiers).expect("tier list should be valid");
    FeeEngine::init(base_fee, expiration_blocks, table)
}

fn user_engine(
    base_fee: u64,
    expiration_blocks: u64,
    tiers: Vec<Tier>,
) -> FeeEngine<UserKey, true> {
    let table = TierTable::new(tiers).expect("tier list should be valid");
    FeeEngine::init(base_fee, expiration_blocks, table)
}

#[test]
fn sample_test() {
    assert_eq!(4, 2 + 2);
}

#[test]
fn calculates_points_calculation() {
    let mut contract = pair_engine(50000, 100, vec![]);

    let swap_amount: i128 = 100;

    let user: u128 = 0xbe04c65f325908911430e6ff79a15ce3;
    let currency_1: u128 = 0x9aa32246d767fccd72e02d6bcbcc375d;
    let key = PairKey { currency: currency_1, user };

    let user_points = contract
        .get_user_points(&key)
        .expect("should get user points for currency 1");
    assert_eq!(user_points, 0);

    contract
        .update_points(&key, true, swap_amount, swap_amount, 1)
        .expect("should update points");

    let user_points = contract
        .get_user_points(&key)
        .expect("should get user points for currency 1");
    assert_eq!(user_points, 100);
}

#[test]
fn fee_stays_between_zero_and_base() {
    let tiers = vec![
        Tier { threshold: 1000, discount_bps: 10000 },
        Tier { threshold: 100, discount_bps: 2500 },
    ];
    let mut engine = user_engine(10000, 100, tiers);
    let key = UserKey { user: 7 };

    let fee = engine.get_fee(&key, 0).expect("fee should never fail");
    assert_eq!(fee, 10000);

    engine
        .update_points(&key, true, -100, 0, 1)
        .expect("should update points");
    let fee = engine.get_fee(&key, 1).expect("fee should never fail");
    assert_eq!(fee, 7500);
    assert!(fee <= 10000);

    engine
        .update_points(&key, true, -900, 0, 1)
        .expect("should update points");
    let fee = engine.get_fee(&key, 1).expect("fee should never fail");
    assert_eq!(fee, 0);
}

#[test]
fn fee_formula_is_exact() {
    assert_eq!(fee_after_discount(777, 3333), 777 - (777 * 3333) / 10000);
    assert_eq!(fee_after_discount(777, 3333), 519);
    assert_eq!(fee_after_discount(50000, 5000), 25000);
    assert_eq!(fee_after_discount(u64::MAX, 10000), 0);
    assert_eq!(fee_after_discount(9999, 1), 9999);
}

#[test]
fn discount_is_monotonic_in_points() {
    let tiers = vec![
        Tier { threshold: 100, discount_bps: 5000 },
        Tier { threshold: 50, discount_bps: 2000 },
    ];
    let table = TierTable::new(tiers).expect("tier list should be valid");
    let mut last: u32 = 0;
    for points in [0u128, 49, 50, 51, 99, 100, 101, 1_000_000] {
        let d = table.discount_for(points);
        assert!(d >= last, "discount dropped as points rose");
        last = d;
    }
    assert_eq!(table.discount_for(49), 0);
    assert_eq!(table.discount_for(50), 2000);
    assert_eq!(table.discount_for(150), 5000);
}

#[test]
fn tier_table_rejects_bad_input() {
    let unsorted = vec![
        Tier { threshold: 50, discount_bps: 2000 },
        Tier { threshold: 100, discount_bps: 5000 },
    ];
    assert!(TierTable::new(unsorted).is_none());

    let over_percent = vec![Tier { threshold: 50, discount_bps: 10001 }];
    assert!(TierTable::new(over_percent).is_none());

    let equal_thresholds = vec![
        Tier { threshold: 50, discount_bps: 5000 },
        Tier { threshold: 50, discount_bps: 2000 },
    ];
    assert!(TierTable::new(equal_thresholds).is_some());
}

#[test]
fn get_fee_is_idempotent_without_activity() {
    let tiers = vec![Tier { threshold: 10, discount_bps: 1000 }];
    let mut engine = user_engine(9000, 5, tiers);
    let key = UserKey { user: 3 };
    engine
        .update_points(&key, true, -20, 0, 100)
        .expect("should update points");

    let fee1 = engine.get_fee(&key, 200).expect("fee should never fail");
    let fee2 = engine.get_fee(&key, 200).expect("fee should never fail");
    assert_eq!(fee1, fee2);

    let fee3 = engine.get_fee(&key, 200).expect("fee should never fail");
    assert_eq!(fee2, fee3);
}

#[test]
fn expiration_boundary_is_strict() {
    let tiers = vec![Tier { threshold: 10, discount_bps: 1000 }];
    let base: u64 = 10000;
    let b: u64 = 1000;
    let e: u64 = 50;

    let mut engine = user_engine(base, e, tiers.clone());
    let key = UserKey { user: 1 };
    engine
        .update_points(&key, true, -20, 0, b)
        .expect("should update points");

    // Exactly at the end of the window: points are kept and still discount.
    let fee = engine.get_fee(&key, b + e).expect("fee should never fail");
    assert_eq!(fee, 9000);
    assert_eq!(engine.get_user_points(&key).unwrap(), 20);

    // One block past the window: points reset before the fee is computed.
    let fee = engine.get_fee(&key, b + e + 1).expect("fee should never fail");
    assert_eq!(fee, 10000);
    assert_eq!(engine.get_user_points(&key).unwrap(), 0);
}

#[test]
fn stale_block_is_a_no_op() {
    let tiers = vec![Tier { threshold: 10, discount_bps: 1000 }];
    let mut engine = user_engine(10000, 5, tiers);
    let key = UserKey { user: 1 };
    engine
        .update_points(&key, true, -20, 0, 1000)
        .expect("should update points");

    // A block before the last activity must not underflow or reset.
    let fee = engine.get_fee(&key, 3).expect("fee should never fail");
    assert_eq!(fee, 9000);
    assert_eq!(engine.get_user_points(&key).unwrap(), 20);
}

#[test]
fn exact_input_accrues_amount_specified() {
    let mut engine = user_engine(50000, 100, vec![]);
    let key = UserKey { user: 9 };
    engine
        .update_points(&key, true, -100, 12345, 1)
        .expect("should update points");
    assert_eq!(engine.get_user_points(&key).unwrap(), 100);

    let mut engine2 = user_engine(50000, 100, vec![]);
    engine2
        .update_points(&key, true, -100, -999, 1)
        .expect("should update points");
    assert_eq!(engine2.get_user_points(&key).unwrap(), 100);
}

#[test]
fn exact_output_accrues_observed_delta() {
    let mut engine = user_engine(50000, 100, vec![]);
    let key = UserKey { user: 9 };
    engine
        .update_points(&key, true, 50, -30, 1)
        .expect("should update points");
    assert_eq!(engine.get_user_points(&key).unwrap(), 30);
}

#[test]
fn opposite_direction_uses_other_sign_convention() {
    let mut engine = user_engine(50000, 100, vec![]);
    let key = UserKey { user: 9 };
    engine
        .update_points(&key, false, 50, -30, 1)
        .expect("should update points");
    assert_eq!(engine.get_user_points(&key).unwrap(), 50);

    let mut engine2 = user_engine(50000, 100, vec![]);
    engine2
        .update_points(&key, false, -50, -30, 1)
        .expect("should update points");
    assert_eq!(engine2.get_user_points(&key).unwrap(), 30);
}

#[test]
fn accrual_overflow_is_reported_and_changes_nothing() {
    let mut engine = user_engine(50000, 100, vec![]);
    let key = UserKey { user: 4 };
    engine
        .update_points(&key, true, i128::MIN, 0, 7)
        .expect("first accrual fits");
    let before = engine.get_user_points(&key).unwrap();
    assert_eq!(before, 1u128 << 127);

    let r = engine.update_points(&key, true, i128::MIN, 0, 9);
    assert_eq!(r, Err(Error::Overflow));

    // The failed call left the ledger untouched.
    assert_eq!(engine.get_user_points(&key).unwrap(), before);
    assert_eq!(engine.get_total_points().unwrap(), before);
}

#[test]
fn pair_accrual_is_independent_of_other_accounts() {
    // Fill two unrelated accounts until their balances sum to u128::MAX.
    let mut engine = pair_engine(50000, 100, vec![]);
    let heavy_a = PairKey { currency: 1, user: 1 };
    let heavy_b = PairKey { currency: 2, user: 2 };
    engine
        .update_points(&heavy_a, true, i128::MIN, 0, 1)
        .expect("first accrual fits");
    engine
        .update_points(&heavy_b, true, i128::MIN + 1, 0, 1)
        .expect("second accrual fits");

    // A third account's own balance is what decides: it must still accrue.
    let light = PairKey { currency: 3, user: 3 };
    engine
        .update_points(&light, true, -100, 0, 2)
        .expect("per-pair accrual never depends on other accounts");
    assert_eq!(engine.get_user_points(&light).unwrap(), 100);
}

#[test]
fn total_overflow_is_distinct_and_changes_nothing() {
    // The per-user ledger keeps a running total as wide as one balance, so
    // the sum of all balances can fill it while each account still has room.
    let mut engine = user_engine(50000, 100, vec![]);
    let heavy_a = UserKey { user: 1 };
    let heavy_b = UserKey { user: 2 };
    engine
        .update_points(&heavy_a, true, i128::MIN, 0, 1)
        .expect("first accrual fits");
    engine
        .update_points(&heavy_b, true, i128::MIN + 1, 0, 1)
        .expect("second accrual fits");
    assert_eq!(engine.get_total_points().unwrap(), u128::MAX);

    let light = UserKey { user: 3 };
    let r = engine.update_points(&light, true, -100, 0, 2);
    assert_eq!(r, Err(Error::TotalOverflow));
    assert_eq!(engine.get_user_points(&light).unwrap(), 0);
    assert_eq!(engine.get_total_points().unwrap(), u128::MAX);
}

#[test]
fn end_to_end_discounted_swap() {
    let tiers = vec![Tier { threshold: 1_000_000_000_000_000_000, discount_bps: 5000 }];
    let mut engine = user_engine(50000, 100, tiers);
    let key = UserKey { user: 42 };

    let fee = engine.get_fee(&key, 1).expect("fee should never fail");
    assert_eq!(fee, 50000);

    engine
        .update_points(&key, true, -1_000_000_000_000_000_000, 0, 1)
        .expect("should update points");

    let fee = engine.get_fee(&key, 1).expect("fee should never fail");
    assert_eq!(fee, 25000);
}

#[test]
fn total_points_tracks_every_row() {
    let tiers = vec![Tier { threshold: 10, discount_bps: 1000 }];
    let mut engine = user_engine(10000, 5, tiers);
    let alice = UserKey { user: 1 };
    let bob = UserKey { user: 2 };

    engine
        .update_points(&alice, true, -20, 0, 100)
        .expect("should update points");
    engine
        .update_points(&bob, true, -30, 0, 105)
        .expect("should update points");
    assert_eq!(engine.get_total_points().unwrap(), 50);
    assert_eq!(engine.get_user_points(&alice).unwrap(), 20);
    assert_eq!(engine.get_user_points(&bob).unwrap(), 30);

    // Alice expires (last activity 100, window 5, now 106): the total drops
    // by exactly her points.
    engine.get_fee(&alice, 106).expect("fee should never fail");
    assert_eq!(engine.get_user_points(&alice).unwrap(), 0);
    assert_eq!(engine.get_total_points().unwrap(), 30);
    assert_eq!(engine.get_user_points(&bob).unwrap(), 30);
}

#[test]
fn pair_keys_scope_points_to_the_pair() {
    let mut engine = pair_engine(50000, 100, vec![]);
    let key_a = PairKey { currency: 11, user: 5 };
    let key_b = PairKey { currency: 22, user: 5 };

    engine
        .update_points(&key_a, true, -100, 0, 1)
        .expect("should update points");
    assert_eq!(engine.get_user_points(&key_a).unwrap(), 100);
    assert_eq!(engine.get_user_points(&key_b).unwrap(), 0);
}

#[test]
fn ledger_defaults_and_reset_bookkeeping() {
    let mut ledger: PointsLedger<UserKey, true> = PointsLedger::new();
    let key = UserKey { user: 77 };
    assert_eq!(ledger.get_points(&key), 0);
    assert_eq!(ledger.get_last_activity(&key), 0);

    ledger.add_points(&key, 500).expect("accrual fits");
    ledger.set_last_activity(&key, 9000);
    assert_eq!(ledger.get_points(&key), 500);
    assert_eq!(ledger.get_last_activity(&key), 9000);
    assert_eq!(ledger.get_total_points(), 500);

    let prior = ledger.reset_points(&key).expect("reset is consistent");
    assert_eq!(prior, 500);
    assert_eq!(ledger.get_points(&key), 0);
    assert_eq!(ledger.get_last_activity(&key), 9000);
    assert_eq!(ledger.get_total_points(), 0);

    // A decayed row accrues again.
    ledger.add_points(&key, 7).expect("accrual fits");
    assert_eq!(ledger.get_points(&key), 7);
}
