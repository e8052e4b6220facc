use secret_staking::errors::ContractError;
use secret_staking::killswitch::KillSwitch;
use secret_staking::rate::{
    calc_deposit, calc_developer_payout, calc_exchange_rate, calc_fee, calc_withdraw,
    displayed_rate, exchange_rate, rate_from_quotient, round_trip, split_fee, whole_units,
    FeeSplit, Rate, RoundTrip,
};

#[test]
fn rate_constructor_checks_the_range() {
    assert!(Rate::new(0, 0).is_some());
    assert!(Rate::new(0xffff_ffff_ffff_ffff_ffff_ffff, 28).is_some());
    assert!(Rate::new(0x1_0000_0000_0000_0000_0000_0000, 0).is_none());
    assert!(Rate::new(1, 29).is_none());
    let r = Rate::new(15, 1).unwrap();
    assert_eq!(r.mantissa(), 15);
    assert_eq!(r.scale(), 1);
    assert!(!r.is_zero());
    assert!(Rate::new(0, 3).unwrap().is_zero());
    assert_eq!(Rate::one(), Rate::new(1, 0).unwrap());
    assert_eq!(Rate::from_u64(7), Rate::new(7, 0).unwrap());
}

#[test]
fn exchange_rate_bootstraps_to_one() {
    assert_eq!(calc_exchange_rate(0, 0), Ok(Rate::one()));
    assert_eq!(calc_exchange_rate(0, 5), Ok(Rate::one()));
    assert_eq!(calc_exchange_rate(5, 0), Ok(Rate::one()));
}

#[test]
fn first_deposit_mints_one_token_per_coin() {
    // zero supply, deposit of 1,000,000 with no fee
    let rate = calc_exchange_rate(0, 0).unwrap();
    let fee = calc_fee(1_000_000, 0);
    assert_eq!(fee, 0);
    assert_eq!(calc_deposit(1_000_000 - fee, rate), Ok(1_000_000));
}

#[test]
fn exchange_rate_is_rounded_up_to_twelve_digits() {
    // 1 / 3 = 0.333333333333... rounds up to 0.333333333334
    assert_eq!(calc_exchange_rate(3, 1), Ok(Rate::new(333_333_333_334, 12).unwrap()));
    // 2 / 1 needs no rounding
    let two = calc_exchange_rate(1, 2).unwrap();
    assert_eq!(calc_deposit(10, two), Ok(20));
    // 1 / 2 = 0.5
    let half = calc_exchange_rate(2, 1).unwrap();
    assert_eq!(calc_deposit(10, half), Ok(5));
    assert_eq!(calc_withdraw(5, half), Ok(10));
}

#[test]
fn exchange_rate_rejects_amounts_beyond_64_bits() {
    let big = u64::MAX as u128 + 1;
    assert_eq!(calc_exchange_rate(big, 1), Err(ContractError::Overflow));
    assert_eq!(calc_exchange_rate(1, big), Err(ContractError::Overflow));
    assert_eq!(calc_deposit(big, Rate::one()), Err(ContractError::Overflow));
    assert_eq!(calc_withdraw(big, Rate::one()), Err(ContractError::Overflow));
}

#[test]
fn frozen_rate_replaces_the_computed_one() {
    let frozen = Rate::new(9, 1).unwrap();
    assert_eq!(exchange_rate(KillSwitch::Closed, Some(frozen), 2, 1), calc_exchange_rate(2, 1));
    assert_eq!(
        exchange_rate(KillSwitch::Closed, Some(frozen), 3, 1),
        Ok(Rate::new(333_333_333_334, 12).unwrap())
    );
    assert_eq!(exchange_rate(KillSwitch::Unbonding, Some(frozen), 2, 1), Ok(frozen));
    assert_eq!(exchange_rate(KillSwitch::Open, Some(frozen), 0, 0), Ok(frozen));
    assert_eq!(
        exchange_rate(KillSwitch::Open, None, 2, 1),
        Err(ContractError::FrozenRateNotSet)
    );
}

#[test]
fn deposit_multiplies_and_truncates() {
    let rate = Rate::new(15, 1).unwrap(); // 1.5
    assert_eq!(calc_deposit(3, rate), Ok(4)); // 4.5 -> 4
    assert_eq!(calc_deposit(1_000_000, rate), Ok(1_500_000));
    assert_eq!(calc_deposit(0, rate), Ok(0));
}

#[test]
fn withdraw_divides_and_truncates() {
    let rate = Rate::new(15, 1).unwrap(); // 1.5
    assert_eq!(calc_withdraw(4, rate), Ok(2)); // 2.66 -> 2
    assert_eq!(calc_withdraw(1_500_000, rate), Ok(1_000_000));
    assert_eq!(calc_withdraw(5, Rate::new(0, 0).unwrap()), Err(ContractError::Overflow));
}

#[test]
fn deposit_then_withdraw_never_returns_more() {
    let rates = [
        Rate::one(),
        Rate::new(15, 1).unwrap(),
        Rate::new(333_333_333_334, 12).unwrap(),
        Rate::new(999_999_999_999, 12).unwrap(),
        Rate::new(7, 0).unwrap(),
    ];
    let amounts: [u128; 6] = [1, 2, 3, 1_000_000, 1_234_567, 999_999_999_999];
    for rate in rates.iter() {
        for amount in amounts.iter() {
            let tokens = calc_deposit(*amount, *rate).unwrap();
            let back = calc_withdraw(tokens, *rate).unwrap();
            assert!(back <= *amount);
        }
    }
    let rate = Rate::new(15, 1).unwrap();
    assert_eq!(calc_withdraw(calc_deposit(1_000_000, rate).unwrap(), rate), Ok(1_000_000));
    assert_eq!(calc_withdraw(calc_deposit(3, rate).unwrap(), rate), Ok(2));
}

#[test]
fn checked_round_trip_never_gains() {
    let rate = Rate::new(15, 1).unwrap();
    assert_eq!(round_trip(1_000_000, rate), Some(RoundTrip { tokens: 1_500_000, back: 1_000_000 }));
    assert_eq!(round_trip(3, rate), Some(RoundTrip { tokens: 4, back: 2 }));
    assert_eq!(round_trip(7, Rate::one()), Some(RoundTrip { tokens: 7, back: 7 }));
    assert_eq!(round_trip(0, Rate::one()), Some(RoundTrip { tokens: 0, back: 0 }));
    assert_eq!(round_trip(7, Rate::new(0, 0).unwrap()), None);
    assert_eq!(round_trip(u64::MAX as u128 + 1, rate), None);
    let third = Rate::new(333_333_333_334, 12).unwrap();
    for amount in [1u128, 3, 1_000_000, 1_234_567] {
        if let Some(trip) = round_trip(amount, third) {
            assert!(trip.back <= amount);
            assert_eq!(calc_deposit(amount, third), Ok(trip.tokens));
            assert_eq!(calc_withdraw(trip.tokens, third), Ok(trip.back));
        }
    }
}

#[test]
fn rate_one_converts_one_to_one() {
    for amount in [0u128, 1, 1_000_000, u64::MAX as u128] {
        assert_eq!(calc_deposit(amount, Rate::one()), Ok(amount));
        assert_eq!(calc_withdraw(amount, Rate::one()), Ok(amount));
    }
    // exact products and quotients: 2.5 * 4 = 10.0, and 10 / 4 has a remainder, 12 / 4 has none
    assert_eq!(calc_deposit(4, Rate::new(25, 1).unwrap()), Ok(10));
    assert_eq!(calc_withdraw(12, Rate::new(4, 0).unwrap()), Ok(3));
    assert_eq!(calc_withdraw(10, Rate::new(4, 0).unwrap()), Ok(2));
    assert_eq!(calc_deposit(0, Rate::new(25, 1).unwrap()), Ok(0));
    assert_eq!(calc_withdraw(0, Rate::new(25, 1).unwrap()), Ok(0));
}

#[test]
fn whole_units_cuts_the_fraction() {
    assert_eq!(whole_units(Some(Rate::new(15, 1).unwrap())), Ok(1));
    assert_eq!(whole_units(Some(Rate::new(1999, 3).unwrap())), Ok(1));
    assert_eq!(whole_units(Some(Rate::new(42, 0).unwrap())), Ok(42));
    assert_eq!(whole_units(None), Err(ContractError::Overflow));
}

#[test]
fn rate_from_quotient_rounds_away_from_zero() {
    let q = Rate::new(1_000_000_000_000_1, 13).unwrap(); // 1.0000000000001
    assert_eq!(rate_from_quotient(Some(q)), Ok(Rate::new(1_000_000_000_001, 12).unwrap()));
    let exact = Rate::new(1_000_000_000_000_0, 13).unwrap(); // 1.0000000000000
    assert_eq!(rate_from_quotient(Some(exact)), Ok(Rate::new(1_000_000_000_000, 12).unwrap()));
    let short = Rate::new(25, 2).unwrap();
    assert_eq!(rate_from_quotient(Some(short)), Ok(short));
    assert_eq!(rate_from_quotient(None), Err(ContractError::Overflow));
}

#[test]
fn displayed_rate_is_the_inverse() {
    assert_eq!(displayed_rate(Rate::new(0, 0).unwrap()), Rate::one());
    let shown = displayed_rate(Rate::new(5, 1).unwrap());
    assert_eq!(whole_units(Some(shown)), Ok(2));
}

#[test]
fn fee_is_parts_per_hundred_thousand() {
    assert_eq!(calc_fee(1_000_000, 1000), 10_000);
    assert_eq!(calc_fee(1_000_000, 0), 0);
    assert_eq!(calc_fee(99_999, 1), 0);
    assert_eq!(calc_fee(100_000, 1), 1);
    assert_eq!(calc_fee(u128::MAX, 2), u128::MAX / 100_000);
}

#[test]
fn activation_fee_is_capped() {
    // 10% of the fee, at most 50
    assert_eq!(split_fee(1000, 10_000, 500), FeeSplit { activation: 100, developer: 900 });
    assert_eq!(split_fee(1000, 10_000, 50), FeeSplit { activation: 50, developer: 950 });
    assert_eq!(split_fee(1000, 0, 50), FeeSplit { activation: 0, developer: 1000 });
    // more than the whole fee is never skimmed
    assert_eq!(split_fee(10, 500_000, 500), FeeSplit { activation: 10, developer: 0 });
}

#[test]
fn developer_is_paid_999_per_mille() {
    assert_eq!(calc_developer_payout(1000), 999);
    assert_eq!(calc_developer_payout(10_000), 9_990);
    assert_eq!(calc_developer_payout(1), 0);
    assert_eq!(calc_developer_payout(1001), 999);
    assert_eq!(calc_developer_payout(u128::MAX), u128::MAX / 1000 * 999 + (u128::MAX % 1000) * 999 / 1000);
}
