use crate::config::{ActivationFeeConfig, Config, MINIMUM_DEPOSIT};
use crate::errors::ContractError;
use crate::killswitch::KillSwitch;
use crate::rate::{activation_share, calc_deposit, calc_developer_payout, calc_fee};
use crate::rate::{deposit_tokens, developer_payout, fee_of, lemma_rate_one_is_exact};
use crate::rate::{split_fee, Rate};
use crate::staking::{instruction_views, send_msg, stake_msg, Instruction, InstructionView};
use crate::user_withdraws::WithdrawStore;
use crate::validator_set::{address_views, lemma_rebalance_restores_order, rewards_messages};
use crate::validator_set::{sort_desc, valid_set, with_stake};
use crate::validator_set::{ValidatorSet, ValidatorView};
use crate::withdraw::{current_rate, helper_claimed, perform_helper_claims, spec_current_rate};
use crate::withdraw::{spec_total_on_chain, ChainState};
use vstd::prelude::*;

verus! {

/// An amount of coin of one denomination.
#[derive(Debug, Clone, PartialEq, Eq)]
pub struct Coin {
    pub denom: String,
    pub amount: u128,
}

/// The denomination of the native coin.
pub open spec fn native_denom() -> Seq<char> {
    "uscrt"@
}

/// The native coin among the funds that came with a message: the amount
/// of the last coin of the native denomination, and nothing where there
/// is none.
pub open spec fn sent_amount(funds: Seq<Coin>) -> u128
    decreases funds.len(),
{
    if funds.len() == 0 {
        0
    } else if funds.last().denom@ == native_denom() {
        funds.last().amount
    } else {
        sent_amount(funds.drop_last())
    }
}

/// The native coin among the funds that came with a message.
pub fn native_amount(sent_funds: &Vec<Coin>) -> (amount: u128)
    ensures
        amount == sent_amount(sent_funds@),
{
    let native: String = "uscrt".to_owned();
    let mut amount_raw: u128 = 0;
    let mut i: usize = 0;
    assert(sent_funds@.take(0) =~= Seq::<Coin>::empty());
    while i < sent_funds.len()
        invariant
            i <= sent_funds@.len(),
            native@ == native_denom(),
            amount_raw == sent_amount(sent_funds@.take(i as int)),
        decreases sent_funds@.len() - i,
    {
        proof {
            assert(sent_funds@.take(i + 1).drop_last() =~= sent_funds@.take(i as int));
            assert(sent_funds@.take(i + 1).last() == sent_funds@[i as int]);
        }
        if sent_funds[i].denom == native {
            amount_raw = sent_funds[i].amount;
        }
        i = i + 1;
    }
    assert(sent_funds@.take(i as int) =~= sent_funds@);
    amount_raw
}

/// The sum of the amounts of a list of coins.
pub open spec fn coins_total(coins: Seq<Coin>) -> nat
    decreases coins.len(),
{
    if coins.len() == 0 {
        0
    } else {
        coins_total(coins.drop_last()) + coins.last().amount as nat
    }
}

/// Whether all coins of a list have the denomination of the first.
pub open spec fn one_denomination(coins: Seq<Coin>) -> bool {
    forall|i: int| 0 <= i < coins.len() ==> (#[trigger] coins[i]).denom@ == coins[0].denom@
}

/// The sum of a list of delegations or rewards that the ledger reports.
/// All of them must be of one denomination.
pub fn total_of_one_denomination(coins: &Vec<Coin>) -> (total: Result<u128, ContractError>)
    ensures
        match total {
            Ok(sum) => one_denomination(coins@) && sum == coins_total(coins@),
            Err(e) => if one_denomination(coins@) {
                e == ContractError::Overflow && coins_total(coins@) > u128::MAX
            } else {
                e == ContractError::MixedDenominations
            },
        },
{
    let mut i: usize = 0;
    while i < coins.len()
        invariant
            i <= coins@.len(),
            forall|k: int| 0 <= k < i ==> (#[trigger] coins@[k]).denom@ == coins@[0].denom@,
        decreases coins@.len() - i,
    {
        if coins[i].denom != coins[0].denom {
            return Err(ContractError::MixedDenominations);
        }
        i = i + 1;
    }
    let mut sum: u128 = 0;
    let mut j: usize = 0;
    assert(coins@.take(0) =~= Seq::<Coin>::empty());
    while j < coins.len()
        invariant
            j <= coins@.len(),
            sum == coins_total(coins@.take(j as int)),
            one_denomination(coins@),
        decreases coins@.len() - j,
    {
        proof {
            assert(coins@.take(j + 1).drop_last() =~= coins@.take(j as int));
            assert(coins@.take(j + 1).last() == coins@[j as int]);
        }
        if coins[j].amount > u128::MAX - sum {
            proof {
                lemma_coins_total_grows(coins@, j + 1);
            }
            return Err(ContractError::Overflow);
        }
        sum = sum + coins[j].amount;
        j = j + 1;
    }
    assert(coins@.take(j as int) =~= coins@);
    Ok(sum)
}

/// The sum of the first coins of a list is at most the sum of all.
pub proof fn lemma_coins_total_grows(coins: Seq<Coin>, n: int)
    requires
        0 <= n <= coins.len(),
    ensures
        coins_total(coins.take(n)) <= coins_total(coins),
    decreases coins.len() - n,
{
    if n < coins.len() {
        assert(coins.take(n + 1).drop_last() =~= coins.take(n));
        lemma_coins_total_grows(coins, n + 1);
    } else {
        assert(coins.take(n) =~= coins);
    }
}

/// The rewards that a deposit restakes: what the validators with the most
/// rewards have accrued, and who they are.
#[derive(Debug, Clone, PartialEq, Eq)]
pub struct RewardsSummary {
    pub total: u128,
    pub validators: Vec<String>,
}

/// The numbers of a deposit.
#[derive(Debug, Clone, Copy, PartialEq, Eq, Structural)]
pub struct DepositPlan {
    /// What is skimmed off the fee for the activation-fee accumulator.
    pub activation: u128,
    /// The accumulator after the deposit.
    pub activation_total: u64,
    /// What the developer is paid.
    pub dev_payout: u128,
    /// The deposit without the fee.
    pub net: u128,
    /// The derivative tokens minted for the depositor.
    pub tokens: u128,
    /// What is delegated: the net deposit and the rewards restaked.
    pub staked: u128,
}

/// The fee on a deposit: the developer fee, but never more than the
/// deposit itself.
pub open spec fn deposit_fee(amount: u128, dev_fee: u64) -> u128 {
    if fee_of(amount, dev_fee) > amount {
        amount
    } else {
        fee_of(amount, dev_fee)
    }
}

/// What is skimmed off a fee for the activation-fee accumulator.
pub open spec fn skimmed(fee: u128, activation: ActivationFeeConfig) -> u128 {
    if activation.fee > 0 {
        activation_share(fee, activation.fee, activation.max)
    } else {
        0
    }
}

/// The numbers of a deposit of `amount`, or why it is rejected: deposits
/// need a closed kill switch, at least the minimum amount, and numbers
/// that fit.
pub open spec fn deposit_plan(
    kill_switch: u8,
    dev_fee: u64,
    activation: ActivationFeeConfig,
    accumulated: u64,
    frozen: Option<Rate>,
    validators: Seq<ValidatorView>,
    chain: ChainState,
    amount: u128,
    rewards: u128,
) -> Result<DepositPlan, ContractError> {
    if kill_switch > 2 {
        Err(ContractError::InvalidVariant)
    } else if kill_switch != 0 {
        Err(ContractError::Frozen)
    } else if amount < MINIMUM_DEPOSIT {
        Err(ContractError::BelowMinimum)
    } else {
        match spec_current_rate(KillSwitch::Closed, frozen, validators, chain) {
            Err(e) => Err(e),
            Ok((m, s)) => {
                let fee = fee_of(amount, dev_fee);
                let net = (amount - deposit_fee(amount, dev_fee)) as u128;
                let skim = skimmed(fee, activation);
                if accumulated + skim > u64::MAX {
                    Err(ContractError::Overflow)
                } else {
                    match deposit_tokens(net, m, s) {
                        Err(e) => Err(e),
                        Ok(tokens) => if rewards + net > u128::MAX {
                            Err(ContractError::Overflow)
                        } else {
                            Ok(
                                DepositPlan {
                                    activation: skim,
                                    activation_total: (accumulated + skim) as u64,
                                    dev_payout: developer_payout((fee - skim) as u128),
                                    net,
                                    tokens,
                                    staked: (rewards + net) as u128,
                                },
                            )
                        },
                    }
                }
            },
        }
    }
}

/// The first deposit mints one token per coin: while no derivative token
/// is in supply, a deposit on which no fee is charged is worth as many
/// tokens as it has coins, and all of it is delegated with the rewards.
pub proof fn lemma_first_deposit_mints_one_to_one(
    activation: ActivationFeeConfig,
    accumulated: u64,
    frozen: Option<Rate>,
    validators: Seq<ValidatorView>,
    chain: ChainState,
    amount: u128,
    rewards: u128,
)
    requires
        chain.token_supply == 0,
        spec_total_on_chain(validators, chain) is Ok,
        MINIMUM_DEPOSIT <= amount <= u64::MAX,
        rewards + amount <= u128::MAX,
    ensures
        deposit_plan(0, 0, activation, accumulated, frozen, validators, chain, amount, rewards)
            == Ok::<DepositPlan, ContractError>(
            DepositPlan {
                activation: 0,
                activation_total: accumulated,
                dev_payout: 0,
                net: amount,
                tokens: amount,
                staked: (rewards + amount) as u128,
            },
        ),
{
    lemma_rate_one_is_exact(amount);
    assert(amount * 0 == 0);
    assert(fee_of(amount, 0) == 0);
    assert(0 * activation.fee == 0) by (nonlinear_arith);
    assert(fee_of(0, activation.fee) == 0);
    assert(skimmed(0, activation) == 0);
    assert(developer_payout(0) == 0);
}

/// Works out the numbers of a deposit: the fee and how it is shared, the
/// tokens to mint at the present rate, and the amount to delegate.
pub fn plan_deposit(
    kill_switch: u8,
    dev_fee: u64,
    activation: ActivationFeeConfig,
    accumulated: u64,
    frozen: Option<Rate>,
    validator_set: &ValidatorSet,
    chain: &ChainState,
    amount: u128,
    rewards: u128,
) -> (plan: Result<DepositPlan, ContractError>)
    requires
        frozen matches Some(f) ==> f.wf(),
    ensures
        plan == deposit_plan(
            kill_switch,
            dev_fee,
            activation,
            accumulated,
            frozen,
            validator_set@,
            *chain,
            amount,
            rewards,
        ),
{
    let switch = match KillSwitch::try_from(kill_switch) {
        Ok(k) => k,
        Err(e) => {
            return Err(e);
        },
    };
    match switch {
        KillSwitch::Closed => {},
        _ => {
            return Err(ContractError::Frozen);
        },
    }
    if amount < MINIMUM_DEPOSIT {
        return Err(ContractError::BelowMinimum);
    }
    let exch_rate = match current_rate(switch, frozen, validator_set, chain) {
        Ok(r) => r,
        Err(e) => {
            return Err(e);
        },
    };
    let fee = calc_fee(amount, dev_fee);
    let net: u128 = if fee > amount {
        0
    } else {
        amount - fee
    };
    let split = split_fee(fee, activation.fee, activation.max);
    if split.activation > (u64::MAX - accumulated) as u128 {
        return Err(ContractError::Overflow);
    }
    let activation_total: u64 = accumulated + split.activation as u64;
    let tokens = match calc_deposit(net, exch_rate) {
        Ok(t) => t,
        Err(e) => {
            return Err(e);
        },
    };
    if net > u128::MAX - rewards {
        return Err(ContractError::Overflow);
    }
    Ok(
        DepositPlan {
            activation: split.activation,
            activation_total,
            dev_payout: calc_developer_payout(split.developer),
            net,
            tokens,
            staked: rewards + net,
        },
    )
}

/// The set after `amount` was delegated to the validator at the back and
/// the allocation order was restored.
pub open spec fn staked_set(s: Seq<ValidatorView>, amount: u128) -> Seq<ValidatorView> {
    sort_desc(s.update(s.len() - 1, with_stake(s.last(), (s.last().staked + amount) as u128)))
}

/// Why `amount` cannot be delegated, if it cannot.
pub open spec fn stake_refused(s: Seq<ValidatorView>, amount: u128) -> Option<ContractError> {
    if s.len() == 0 {
        Some(ContractError::EmptyValidatorSet)
    } else if s.last().staked + amount > u128::MAX {
        Some(ContractError::Overflow)
    } else {
        None
    }
}

/// The instructions of a deposit after the side payments: the developer
/// is paid, the tokens are minted, the rewards of the named validators
/// are collected, and the deposit is delegated.
pub open spec fn deposit_messages(
    plan: DepositPlan,
    validators: Seq<ValidatorView>,
    dev_address: Seq<char>,
    sender: Seq<char>,
    reward_validators: Seq<Seq<char>>,
) -> Seq<InstructionView> {
    seq![
        InstructionView::Send { to_address: dev_address, amount: plan.dev_payout },
        InstructionView::Mint { recipient: sender, amount: plan.tokens },
    ] + rewards_messages(validators, Some(reward_validators)) + seq![
        InstructionView::Delegate { validator: validators.last().address, amount: plan.staked },
    ]
}

/// What a deposit hands back.
pub struct DepositOutcome {
    /// The instructions to carry out.
    pub messages: Vec<Instruction>,
    /// The derivative tokens minted for the depositor.
    pub token_amount: u128,
}

/// Accepts a deposit of native coin from `sender`.
///
/// The deposit is converted to derivative tokens at the present rate
/// after the developer fee is taken off. Part of the fee goes to the
/// accumulator that rewards whoever advances the window. The deposit and
/// the rewards collected on the way are delegated to the validator with
/// the least stake per weight. Matured redemptions of other users are
/// paid on the side where the setting asks for it.
///
/// A deposit that is rejected for its own sake changes nothing. After a
/// later error the records are to be discarded.
pub fn try_deposit(
    config: &Config,
    validator_set: &mut ValidatorSet,
    store: &mut WithdrawStore,
    activation_fee: &mut u64,
    activation: ActivationFeeConfig,
    frozen: Option<Rate>,
    chain: &ChainState,
    now: u64,
    sent_funds: &Vec<Coin>,
    sender: &String,
    rewards: RewardsSummary,
) -> (outcome: Result<DepositOutcome, ContractError>)
    requires
        old(store).wf(),
        frozen matches Some(f) ==> f.wf(),
    ensures
        final(store).wf(),
        match deposit_plan(
            config.kill_switch,
            config.dev_fee,
            activation,
            *old(activation_fee),
            frozen,
            old(validator_set)@,
            *chain,
            sent_amount(sent_funds@),
            rewards.total,
        ) {
            Err(e) => {
                &&& outcome matches Err(cause)
                &&& cause == e
                &&& final(validator_set)@ == old(validator_set)@
                &&& final(store)@ == old(store)@
                &&& *final(activation_fee) == *old(activation_fee)
            },
            Ok(plan) => match helper_claimed(old(store)@, config.shared_withdrawals, now) {
                Err(e) => outcome matches Err(cause) && cause == e,
                Ok((view, batch)) => match stake_refused(old(validator_set)@, plan.staked) {
                    Some(e) => outcome matches Err(cause) && cause == e,
                    None => {
                        &&& outcome matches Ok(done)
                        &&& done.token_amount == plan.tokens
                        &&& instruction_views(done.messages@) == batch.messages + deposit_messages(
                            plan,
                            old(validator_set)@,
                            config.dev_address@,
                            sender@,
                            address_views(rewards.validators@),
                        )
                        &&& final(validator_set)@ == staked_set(old(validator_set)@, plan.staked)
                        &&& final(store)@ == view
                        &&& *final(activation_fee) == plan.activation_total
                    },
                },
            },
        },
        outcome is Ok && valid_set(old(validator_set)@) ==> valid_set(final(validator_set)@),
{
    proof {
        let s = validator_set@;
        if valid_set(s) && s.len() > 0 {
            assert forall|staked: u128|
                valid_set(#[trigger] sort_desc(s.update(s.len() - 1, with_stake(s.last(), staked)))) by {
                lemma_rebalance_restores_order(s, s.len() - 1, staked);
            }
        }
    }
    let amount_raw = native_amount(sent_funds);
    let plan = match plan_deposit(
        config.kill_switch,
        config.dev_fee,
        activation,
        *activation_fee,
        frozen,
        validator_set,
        chain,
        amount_raw,
        rewards.total,
    ) {
        Ok(p) => p,
        Err(e) => {
            return Err(e);
        },
    };
    let mut messages = match perform_helper_claims(store, config.shared_withdrawals, now) {
        Ok(m) => m,
        Err(e) => {
            return Err(e);
        },
    };
    let ghost claimed = instruction_views(messages@);
    let ghost validators = validator_set@;
    let ghost listed = address_views(rewards.validators@);
    let mut rewards_collected = validator_set.withdraw_rewards_messages(Some(rewards.validators));
    let ghost collected = instruction_views(rewards_collected@);
    // add the amount to the stake tracker
    let validator = match validator_set.stake(plan.staked) {
        Ok(v) => v,
        Err(e) => {
            return Err(e);
        },
    };
    validator_set.rebalance();
    *activation_fee = plan.activation_total;
    messages.push(send_msg(config.dev_address.as_str(), plan.dev_payout));
    messages.push(Instruction::Mint { recipient: sender.clone(), amount: plan.tokens });
    let ghost paid = instruction_views(messages@);
    assert(paid =~= claimed + seq![
        InstructionView::Send { to_address: config.dev_address@, amount: plan.dev_payout },
        InstructionView::Mint { recipient: sender@, amount: plan.tokens },
    ]);
    messages.append(&mut rewards_collected);
    assert(instruction_views(messages@) =~= paid + collected);
    let ghost gathered = instruction_views(messages@);
    // the stake instruction goes last
    messages.push(stake_msg(validator.as_str(), plan.staked));
    proof {
        let last = seq![
            InstructionView::Delegate { validator: validators.last().address, amount: plan.staked },
        ];
        assert(instruction_views(messages@) =~= gathered + last);
        assert(instruction_views(messages@) =~= claimed + deposit_messages(
            plan,
            validators,
            config.dev_address@,
            sender@,
            listed,
        ));
    }
    Ok(DepositOutcome { messages, token_amount: plan.tokens })
}

} // verus!
