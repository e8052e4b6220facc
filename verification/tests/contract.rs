use secret_staking::admin::{
    add_validator, kill_switch_open_withdraws, kill_switch_unbond, redelegate, remove_validator,
};
use secret_staking::config::{ActivationFeeConfig, Config, WithdrawRequest};
use secret_staking::deposit::{
    native_amount, plan_deposit, total_of_one_denomination, try_deposit, Coin, RewardsSummary,
};
use secret_staking::errors::ContractError;
use secret_staking::killswitch::KillSwitch;
use secret_staking::rate::{calc_exchange_rate, Rate};
use secret_staking::staking::{
    redelegate_msg, send_msg, stake_msg, undelegate_msg, withdraw_to_self, Instruction,
};
use secret_staking::user_withdraws::{UserWithdrawManager, WaitingWithdraw, WithdrawStore};
use secret_staking::validator_set::{Validator, ValidatorSet};
use secret_staking::window_manager::WindowManager;
use secret_staking::withdraw::{
    current_rate, perform_helper_claims, release_tokens, total_on_chain, try_withdraw, ChainState,
};

fn config(kill_switch: u8, dev_fee: u64, shared_withdrawals: u8) -> Config {
    Config {
        symbol: "CASH".to_string(),
        admin: "admin".to_string(),
        token_contract: "token".to_string(),
        token_contract_hash: "hash".to_string(),
        gov_token: "gov".to_string(),
        gov_token_hash: "govhash".to_string(),
        voting_admin: "admin".to_string(),
        unbonding_time: 80,
        viewing_key: "yo".to_string(),
        kill_switch,
        dev_address: "dev".to_string(),
        dev_fee,
        shared_withdrawals,
    }
}

fn coin(denom: &str, amount: u128) -> Coin {
    Coin { denom: denom.to_string(), amount }
}

fn val(address: &str, staked: u128, weight: u8) -> Validator {
    Validator { address: address.to_string(), staked, weight }
}

fn no_rewards() -> RewardsSummary {
    RewardsSummary { total: 0, validators: vec![] }
}

const EMPTY_CHAIN: ChainState =
    ChainState { pending_rewards: 0, token_supply: 0, contract_balance: 0 };
const NO_ACTIVATION: ActivationFeeConfig = ActivationFeeConfig { fee: 0, max: 0 };

#[test]
fn message_builders_fill_their_fields() {
    assert_eq!(
        stake_msg("v", 5),
        Instruction::Delegate { validator: "v".to_string(), amount: 5 }
    );
    assert_eq!(
        undelegate_msg("v", 5),
        Instruction::Undelegate { validator: "v".to_string(), amount: 5 }
    );
    assert_eq!(
        redelegate_msg("a", "b", 5),
        Instruction::Redelegate {
            src_validator: "a".to_string(),
            dst_validator: "b".to_string(),
            amount: 5
        }
    );
    assert_eq!(withdraw_to_self("v"), Instruction::WithdrawRewards { validator: "v".to_string() });
    assert_eq!(send_msg("u", 5), Instruction::Send { to_address: "u".to_string(), amount: 5 });
}

#[test]
fn native_amount_takes_the_last_native_coin() {
    assert_eq!(native_amount(&vec![]), 0);
    assert_eq!(native_amount(&vec![coin("uatom", 5)]), 0);
    assert_eq!(native_amount(&vec![coin("uscrt", 5), coin("uatom", 9), coin("uscrt", 7)]), 7);
}

#[test]
fn totals_need_one_denomination() {
    assert_eq!(total_of_one_denomination(&vec![]), Ok(0));
    assert_eq!(total_of_one_denomination(&vec![coin("uscrt", 5), coin("uscrt", 7)]), Ok(12));
    assert_eq!(
        total_of_one_denomination(&vec![coin("uscrt", 5), coin("uatom", 7)]),
        Err(ContractError::MixedDenominations)
    );
    assert_eq!(
        total_of_one_denomination(&vec![coin("uscrt", u128::MAX), coin("uscrt", 1)]),
        Err(ContractError::Overflow)
    );
}

#[test]
fn backing_is_cached_stake_plus_pending_rewards() {
    let set = ValidatorSet::from_validators(vec![val("a", 600, 10), val("b", 400, 10)]);
    assert_eq!(set.total_staked(), Some(1000));
    let chain = ChainState { pending_rewards: 50, token_supply: 2100, contract_balance: 0 };
    assert_eq!(total_on_chain(&set, &chain), Ok(1050));
    assert_eq!(
        current_rate(KillSwitch::Closed, None, &set, &chain),
        calc_exchange_rate(1050, 2100)
    );
    let full = ValidatorSet::from_validators(vec![val("a", u128::MAX, 10), val("b", 1, 10)]);
    assert_eq!(full.total_staked(), None);
    assert_eq!(total_on_chain(&full, &chain), Err(ContractError::Overflow));
    let brim = ValidatorSet::from_validators(vec![val("a", u128::MAX, 10)]);
    assert_eq!(total_on_chain(&brim, &chain), Err(ContractError::Overflow));
    assert_eq!(ValidatorSet::new().total_staked(), Some(0));
}

#[test]
fn first_deposit_scenario() {
    // zero supply, deposit of 1,000,000 native units with no fee
    let mut set = ValidatorSet::from_validators(vec![val("v1", 0, 10)]);
    let mut store = WithdrawStore::new();
    let mut activation_fee: u64 = 0;
    let outcome = try_deposit(
        &config(0, 0, 3),
        &mut set,
        &mut store,
        &mut activation_fee,
        NO_ACTIVATION,
        None,
        &EMPTY_CHAIN,
        0,
        &vec![coin("uscrt", 1_000_000)],
        &"alice".to_string(),
        no_rewards(),
    )
    .unwrap();
    assert_eq!(outcome.token_amount, 1_000_000);
    assert_eq!(
        outcome.messages,
        vec![
            Instruction::Send { to_address: "dev".to_string(), amount: 0 },
            Instruction::Mint { recipient: "alice".to_string(), amount: 1_000_000 },
            Instruction::Delegate { validator: "v1".to_string(), amount: 1_000_000 },
        ]
    );
    assert_eq!(set.validators()[0].staked, 1_000_000);
    assert_eq!(activation_fee, 0);
}

#[test]
fn deposit_takes_fees_and_restakes_rewards() {
    let mut set = ValidatorSet::from_validators(vec![val("v1", 999_800, 10), val("v2", 100, 10)]);
    let mut store = WithdrawStore::new();
    let mut activation_fee: u64 = 5;
    // 999,900 staked and 100 of rewards back 2,000,000 tokens: 2 tokens per coin;
    // fee 1%; 10% of the fee, at most 500, is skimmed
    let chain = ChainState { pending_rewards: 100, token_supply: 2_000_000, contract_balance: 0 };
    let outcome = try_deposit(
        &config(0, 1000, 0),
        &mut set,
        &mut store,
        &mut activation_fee,
        ActivationFeeConfig { fee: 10_000, max: 500 },
        None,
        &chain,
        0,
        &vec![coin("uscrt", 2_000_000)],
        &"alice".to_string(),
        RewardsSummary { total: 300, validators: vec!["v1".to_string()] },
    )
    .unwrap();
    // fee 20,000; skimmed 500; developer 19,500 * 999 / 1000 = 19,480
    assert_eq!(activation_fee, 505);
    assert_eq!(outcome.token_amount, 3_960_000);
    assert_eq!(
        outcome.messages,
        vec![
            Instruction::Send { to_address: "dev".to_string(), amount: 19_480 },
            Instruction::Mint { recipient: "alice".to_string(), amount: 3_960_000 },
            Instruction::WithdrawRewards { validator: "v1".to_string() },
            Instruction::Delegate { validator: "v2".to_string(), amount: 1_980_300 },
        ]
    );
    assert_eq!(set.validators()[0].address, "v2");
    assert_eq!(set.validators()[0].staked, 1_980_400);
    assert_eq!(set.validators()[1].staked, 999_800);
}

#[test]
fn deposit_rejections_change_nothing() {
    let mut set = ValidatorSet::from_validators(vec![val("v1", 0, 10)]);
    let mut store = WithdrawStore::new();
    let mut fee: u64 = 0;
    let alice = "alice".to_string();
    let funds = vec![coin("uscrt", 1_000_000)];
    for (kill_switch, expected) in [
        (1u8, ContractError::Frozen),
        (2u8, ContractError::Frozen),
        (9u8, ContractError::InvalidVariant),
    ] {
        let refused = try_deposit(
            &config(kill_switch, 0, 3),
            &mut set,
            &mut store,
            &mut fee,
            NO_ACTIVATION,
            None,
            &EMPTY_CHAIN,
            0,
            &funds,
            &alice,
            no_rewards(),
        );
        assert_eq!(refused.err(), Some(expected));
    }
    let small = try_deposit(
        &config(0, 0, 3),
        &mut set,
        &mut store,
        &mut fee,
        NO_ACTIVATION,
        None,
        &EMPTY_CHAIN,
        0,
        &vec![coin("uscrt", 999_999)],
        &alice,
        no_rewards(),
    );
    assert_eq!(small.err(), Some(ContractError::BelowMinimum));
    let mut nobody = ValidatorSet::new();
    let unstaked = try_deposit(
        &config(0, 0, 3),
        &mut nobody,
        &mut store,
        &mut fee,
        NO_ACTIVATION,
        None,
        &EMPTY_CHAIN,
        0,
        &funds,
        &alice,
        no_rewards(),
    );
    assert_eq!(unstaked.err(), Some(ContractError::EmptyValidatorSet));
    assert_eq!(set.validators()[0].staked, 0);
    assert_eq!(
        plan_deposit(0, 0, NO_ACTIVATION, 0, None, &set, &EMPTY_CHAIN, 1_000_000, u128::MAX).err(),
        Some(ContractError::Overflow)
    );
    let all = ActivationFeeConfig { fee: 100_000, max: u64::MAX };
    assert_eq!(
        plan_deposit(0, 100_000, all, u64::MAX, None, &set, &EMPTY_CHAIN, 1_000_000, 0).err(),
        Some(ContractError::Overflow)
    );
}

#[test]
fn withdraw_records_the_redemption_and_burns_the_tokens() {
    let mut set = ValidatorSet::from_validators(vec![val("v1", 5_000_000, 10)]);
    let mut store = WithdrawStore::new();
    let mut manager = WindowManager::new(20);
    let alice = "alice".to_string();
    // 5,000,000 staked back 10,000,000 tokens: 2 tokens per coin
    let chain = ChainState { pending_rewards: 0, token_supply: 10_000_000, contract_balance: 0 };
    let messages = try_withdraw(
        &config(0, 0, 3),
        &mut set,
        &mut manager,
        &mut store,
        None,
        &chain,
        10,
        4_000_000,
        &alice,
        Some(WithdrawRequest::Withdraw),
    )
    .unwrap();
    assert_eq!(messages, vec![Instruction::Burn { amount: 4_000_000 }]);
    assert_eq!(manager.window.coins, 2_000_000);
    assert_eq!(
        store.all_waiting_withdraws_for_user(&alice),
        vec![WaitingWithdraw { id: 0, amount: 2_000_000 }]
    );
    assert_eq!(UserWithdrawManager::new(0).len(&store), 1);

    // a second redemption at the closing time merges and closes the window
    let messages = try_withdraw(
        &config(0, 0, 3),
        &mut set,
        &mut manager,
        &mut store,
        None,
        &chain,
        20,
        2_000_000,
        &alice,
        Some(WithdrawRequest::Withdraw),
    )
    .unwrap();
    assert_eq!(
        messages,
        vec![
            Instruction::Burn { amount: 2_000_000 },
            Instruction::Undelegate { validator: "v1".to_string(), amount: 3_000_000 },
        ]
    );
    assert_eq!(manager.current_active_window, 1);
    assert_eq!(manager.window.coins, 0);
    assert_eq!(store.get_claim_time(0), Some(100));
    assert_eq!(
        store.all_waiting_withdraws_for_user(&alice),
        vec![WaitingWithdraw { id: 0, amount: 3_000_000 }]
    );
    assert_eq!(set.validators()[0].staked, 2_000_000);

    // once the window has matured a redemption of another user pays alice on the side;
    // 2,000,000 are still staked and back the 4,000,000 tokens that are left
    let bob = "bob".to_string();
    let chain = ChainState { pending_rewards: 0, token_supply: 4_000_000, contract_balance: 0 };
    let messages = try_withdraw(
        &config(0, 0, 3),
        &mut set,
        &mut manager,
        &mut store,
        None,
        &chain,
        100,
        2_000_000,
        &bob,
        Some(WithdrawRequest::Withdraw),
    )
    .unwrap();
    assert_eq!(messages[0], Instruction::Send { to_address: "alice".to_string(), amount: 3_000_000 });
    assert_eq!(messages[1], Instruction::Burn { amount: 2_000_000 });
    assert_eq!(store.get_active_withdraw_window(), 1);
}

#[test]
fn withdraw_rejections_change_nothing() {
    let mut set = ValidatorSet::from_validators(vec![val("v1", 5_000_000, 10)]);
    let mut store = WithdrawStore::new();
    let mut manager = WindowManager::new(20);
    let alice = "alice".to_string();
    let cases = [
        (0u8, None, 4_000_000u128, ContractError::MissingWithdrawRequest),
        (1u8, Some(WithdrawRequest::Withdraw), 4_000_000, ContractError::Frozen),
        (7u8, Some(WithdrawRequest::Withdraw), 4_000_000, ContractError::InvalidVariant),
        (0u8, Some(WithdrawRequest::Withdraw), 999_999, ContractError::BelowMinimum),
        (2u8, Some(WithdrawRequest::Withdraw), 4_000_000, ContractError::FrozenRateNotSet),
    ];
    for (kill_switch, msg, amount, expected) in cases {
        let refused = try_withdraw(
            &config(kill_switch, 0, 3),
            &mut set,
            &mut manager,
            &mut store,
            None,
            &EMPTY_CHAIN,
            10,
            amount,
            &alice,
            msg,
        );
        assert_eq!(refused.err(), Some(expected));
        assert_eq!(manager, WindowManager::new(20));
        assert!(store.all_waiting_withdraws_for_user(&alice).is_empty());
    }
}

#[test]
fn open_kill_switch_pays_at_the_frozen_rate() {
    let frozen = Rate::new(2, 0).unwrap();
    let alice = "alice".to_string();
    assert_eq!(
        release_tokens(4_000_000, Some(frozen), 5_000_000, &alice),
        Ok(vec![
            Instruction::Burn { amount: 4_000_000 },
            Instruction::Send { to_address: "alice".to_string(), amount: 2_000_000 },
        ])
    );
    // the payout is capped at what the contract can pay
    assert_eq!(
        release_tokens(4_000_000, Some(frozen), 1_500_000, &alice),
        Ok(vec![
            Instruction::Burn { amount: 4_000_000 },
            Instruction::Send { to_address: "alice".to_string(), amount: 1_500_000 },
        ])
    );
    assert_eq!(
        release_tokens(4_000_000, None, 5_000_000, &alice),
        Err(ContractError::FrozenRateNotSet)
    );
    let mut set = ValidatorSet::new();
    let mut store = WithdrawStore::new();
    let mut manager = WindowManager::new(20);
    let chain = ChainState { pending_rewards: 0, token_supply: 0, contract_balance: 3_000_000 };
    let messages = try_withdraw(
        &config(2, 0, 3),
        &mut set,
        &mut manager,
        &mut store,
        Some(frozen),
        &chain,
        10,
        8_000_000,
        &alice,
        Some(WithdrawRequest::Withdraw),
    )
    .unwrap();
    assert_eq!(
        messages,
        vec![
            Instruction::Burn { amount: 8_000_000 },
            Instruction::Send { to_address: "alice".to_string(), amount: 3_000_000 },
        ]
    );
    assert_eq!(manager, WindowManager::new(20));
}

#[test]
fn kill_switch_freezes_the_rate() {
    let mut set = ValidatorSet::from_validators(vec![val("v1", 600, 10), val("v2", 0, 10), val("v3", 400, 10)]);
    let chain = ChainState { pending_rewards: 0, token_supply: 3000, contract_balance: 0 };
    let before = current_rate(KillSwitch::Closed, None, &set, &chain).unwrap();
    assert_eq!(Ok(before), calc_exchange_rate(1000, 3000));
    let outcome = kill_switch_unbond(0, &mut set, &chain).unwrap();
    assert_eq!(outcome.kill_switch, 1);
    assert_eq!(outcome.frozen_exchange_rate, before);
    assert_eq!(
        outcome.messages,
        vec![
            Instruction::Undelegate { validator: "v1".to_string(), amount: 600 },
            Instruction::Undelegate { validator: "v3".to_string(), amount: 400 },
        ]
    );
    assert!(set.validators().iter().all(|v| v.staked == 0));
    // the caches are zero, yet the rate stays
    assert_eq!(set.total_staked(), Some(0));
    let later = current_rate(
        KillSwitch::try_from(outcome.kill_switch).unwrap(),
        Some(outcome.frozen_exchange_rate),
        &set,
        &chain,
    );
    assert_eq!(later, Ok(before));
    // without the switch the zeroed caches would give another rate
    assert_eq!(current_rate(KillSwitch::Closed, None, &set, &chain), Ok(Rate::one()));
    assert_eq!(
        kill_switch_unbond(1, &mut set, &chain).err(),
        Some(ContractError::InvalidTransition)
    );
    assert_eq!(
        kill_switch_unbond(5, &mut set, &chain).err(),
        Some(ContractError::InvalidVariant)
    );
    assert_eq!(kill_switch_open_withdraws(1), Ok(2));
    assert_eq!(kill_switch_open_withdraws(0), Err(ContractError::InvalidTransition));
    assert_eq!(kill_switch_open_withdraws(2), Err(ContractError::InvalidTransition));
    assert_eq!(kill_switch_open_withdraws(3), Err(ContractError::InvalidVariant));
}

#[test]
fn remove_validator_moves_the_stake() {
    let mut set = ValidatorSet::from_validators(vec![val("a", 5, 1), val("b", 7, 1), val("c", 1, 1)]);
    assert_eq!(
        remove_validator(&mut set, &"a".to_string(), None),
        Ok(vec![Instruction::Redelegate {
            src_validator: "a".to_string(),
            dst_validator: "c".to_string(),
            amount: 5
        }])
    );
    assert_eq!(set.validators(), &vec![val("b", 7, 1), val("c", 6, 1)]);
    assert_eq!(
        remove_validator(&mut set, &"b".to_string(), Some(false)),
        Err(ContractError::StakeRemaining)
    );
    assert_eq!(
        remove_validator(&mut set, &"z".to_string(), Some(true)),
        Err(ContractError::NotFound)
    );
    let mut single = ValidatorSet::from_validators(vec![val("a", 0, 1)]);
    assert_eq!(
        remove_validator(&mut single, &"a".to_string(), Some(false)),
        Err(ContractError::EmptyValidatorSet)
    );
    let mut idle = ValidatorSet::from_validators(vec![val("a", 0, 1), val("b", 3, 1)]);
    assert_eq!(remove_validator(&mut idle, &"a".to_string(), Some(false)), Ok(vec![]));
    assert_eq!(idle.validators(), &vec![val("b", 3, 1)]);
}

#[test]
fn remove_validator_and_redelegate_restore_the_order() {
    // ratios: a = 5, b = 4, c = 3
    let mut set = ValidatorSet::from_validators(vec![val("a", 50, 10), val("b", 40, 10), val("c", 30, 10)]);
    remove_validator(&mut set, &"a".to_string(), None).unwrap();
    // c took the stake of a and now carries the most
    assert_eq!(set.validators(), &vec![val("c", 80, 10), val("b", 40, 10)]);
    redelegate(&mut set, "c".to_string(), &"b".to_string()).unwrap();
    assert_eq!(set.validators(), &vec![val("b", 120, 10), val("c", 0, 10)]);
    redelegate(&mut set, "b".to_string(), &"c".to_string()).unwrap();
    assert_eq!(set.validators(), &vec![val("c", 120, 10), val("b", 0, 10)]);
}

#[test]
fn add_validator_needs_a_known_address() {
    let mut set = ValidatorSet::new();
    let known = vec!["a".to_string(), "b".to_string()];
    assert_eq!(add_validator(&mut set, &known, "a".to_string(), Some(3)), Ok(()));
    assert_eq!(
        add_validator(&mut set, &known, "z".to_string(), None),
        Err(ContractError::NotFound)
    );
    assert_eq!(set.validators(), &vec![val("a", 0, 3)]);
}

#[test]
fn redelegate_moves_the_stake_and_keeps_the_validator() {
    let mut set = ValidatorSet::from_validators(vec![val("a", 5, 4), val("b", 7, 1), val("c", 1, 1)]);
    assert_eq!(
        redelegate(&mut set, "a".to_string(), &"b".to_string()),
        Ok(vec![Instruction::Redelegate {
            src_validator: "a".to_string(),
            dst_validator: "b".to_string(),
            amount: 5
        }])
    );
    assert_eq!(set.validators(), &vec![val("b", 12, 1), val("c", 1, 1), val("a", 0, 4)]);
    assert_eq!(
        redelegate(&mut set, "z".to_string(), &"b".to_string()),
        Err(ContractError::NotFound)
    );
    assert_eq!(
        redelegate(&mut set, "b".to_string(), &"z".to_string()),
        Err(ContractError::NotFound)
    );
}

#[test]
fn helper_claims_follow_the_setting() {
    let mut store = WithdrawStore::new();
    let alice = "alice".to_string();
    store.set_withdraws_for_user(&alice, vec![WaitingWithdraw { id: 0, amount: 9 }]).unwrap();
    UserWithdrawManager::new(0).append(&mut store, &alice);
    store.set_claim_time(0, 10);
    assert_eq!(perform_helper_claims(&mut store, 0, 50), Ok(vec![]));
    assert_eq!(perform_helper_claims(&mut store, 2, 50), Ok(vec![]));
    assert_eq!(
        perform_helper_claims(&mut store, 4, 50),
        Err(ContractError::InvalidVariant)
    );
    assert_eq!(
        perform_helper_claims(&mut store, 1, 50),
        Ok(vec![Instruction::Send { to_address: "alice".to_string(), amount: 9 }])
    );
    assert_eq!(perform_helper_claims(&mut store, 3, 50), Ok(vec![]));
}
