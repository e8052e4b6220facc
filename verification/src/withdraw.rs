use crate::claim::{batch_claimed, claim_multiple_withdraws, BatchView};
use crate::config::{Config, SharedWithdrawConfig, WithdrawRequest};
use crate::config::{AMOUNT_OF_SHARED_WITHDRAWS, MINIMUM_WITHDRAW};
use crate::errors::ContractError;
use crate::killswitch::KillSwitch;
use crate::rate::{calc_withdraw, exchange_rate, parts, spec_exchange_rate, withdraw_coins, Rate};
use crate::staking::{instruction_views, send_msg, undelegate_msg, Instruction, InstructionView};
use crate::user_withdraws::{merged, user_key};
use crate::user_withdraws::{WithdrawStore, WithdrawStoreView};
use crate::validator_set::{lemma_front_empty_all_empty, lemma_rebalance_restores_order};
use crate::validator_set::{lemma_sort_desc_keeps_total, lemma_total_staked_front};
use crate::validator_set::{sort_desc, sorted_desc, total_staked, unique_addresses, valid_set};
use crate::validator_set::{weights_positive, with_stake};
use crate::validator_set::{ValidatorSet, ValidatorView};
use crate::window_manager::{check_window_advance, WindowManager, WithdrawWindow};
use vstd::prelude::*;

verus! {

/// What the ledger and the derivative token report when asked: the
/// rewards that wait to be collected, the supply of derivative tokens,
/// and the native coin that the contract can pay out at once.
#[derive(Debug, Clone, Copy, PartialEq, Eq, Structural)]
pub struct ChainState {
    pub pending_rewards: u128,
    pub token_supply: u128,
    pub contract_balance: u128,
}

/// The native coin that backs the derivative tokens: the cached stake of
/// all validators and the rewards that wait to be collected.
pub open spec fn spec_total_on_chain(validators: Seq<ValidatorView>, chain: ChainState) -> Result<
    u128,
    ContractError,
> {
    if total_staked(validators) + chain.pending_rewards > u128::MAX {
        Err(ContractError::Overflow)
    } else {
        Ok((total_staked(validators) + chain.pending_rewards) as u128)
    }
}

/// The native coin that backs the derivative tokens: the cached stake of
/// all validators and the rewards that wait to be collected.
pub fn total_on_chain(validator_set: &ValidatorSet, chain: &ChainState) -> (total: Result<
    u128,
    ContractError,
>)
    ensures
        total == spec_total_on_chain(validator_set@, *chain),
{
    match validator_set.total_staked() {
        Some(staked) => {
            if chain.pending_rewards > u128::MAX - staked {
                Err(ContractError::Overflow)
            } else {
                Ok(staked + chain.pending_rewards)
            }
        },
        None => Err(ContractError::Overflow),
    }
}

/// The rate at which the contract converts: while the kill switch is
/// closed, the supply of derivative tokens per unit of native coin that
/// backs them; once it is not, the frozen snapshot.
pub open spec fn spec_current_rate(
    kill_switch: KillSwitch,
    frozen: Option<Rate>,
    validators: Seq<ValidatorView>,
    chain: ChainState,
) -> Result<(u128, u32), ContractError> {
    if kill_switch == KillSwitch::Closed {
        match spec_total_on_chain(validators, chain) {
            Err(e) => Err(e),
            Ok(total) => spec_exchange_rate(kill_switch, frozen, total, chain.token_supply),
        }
    } else {
        spec_exchange_rate(kill_switch, frozen, 0, chain.token_supply)
    }
}

/// The rate at which the contract converts at present. While the kill
/// switch is closed it follows the cached stakes, the pending rewards and
/// the token supply; once the switch has been pulled it is the frozen
/// snapshot, whatever the caches hold.
pub fn current_rate(
    kill_switch: KillSwitch,
    frozen: Option<Rate>,
    validator_set: &ValidatorSet,
    chain: &ChainState,
) -> (rate: Result<Rate, ContractError>)
    requires
        frozen matches Some(f) ==> f.wf(),
    ensures
        parts(rate) == spec_current_rate(kill_switch, frozen, validator_set@, *chain),
        kill_switch != KillSwitch::Closed ==> rate == match frozen {
            Some(f) => Ok::<Rate, ContractError>(f),
            None => Err::<Rate, ContractError>(ContractError::FrozenRateNotSet),
        },
        rate matches Ok(r) ==> r.wf(),
{
    match kill_switch {
        KillSwitch::Closed => {
            let total = match total_on_chain(validator_set, chain) {
                Ok(t) => t,
                Err(e) => {
                    return Err(e);
                },
            };
            exchange_rate(kill_switch, frozen, total, chain.token_supply)
        },
        _ => exchange_rate(kill_switch, frozen, 0, chain.token_supply),
    }
}

/// How much is taken off the validator at the front in one step: all that
/// is asked for, as far as its cached stake goes.
pub open spec fn unbond_step(s: Seq<ValidatorView>, amount: u128) -> u128 {
    if s[0].staked <= amount {
        s[0].staked
    } else {
        amount
    }
}

/// The set one step later: the validator at the front has lost the step
/// and the allocation order is restored.
pub open spec fn after_unbond_step(s: Seq<ValidatorView>, amount: u128) -> Seq<ValidatorView> {
    sort_desc(s.update(0, with_stake(s[0], (s[0].staked - unbond_step(s, amount)) as u128)))
}

/// Whether unbonding goes on: something is still asked for and the
/// validator at the front has cached stake left.
pub open spec fn unbond_continues(s: Seq<ValidatorView>, amount: u128) -> bool {
    amount > 0 && s.len() > 0 && s[0].staked > 0
}

/// The set after `amount` was unbonded from it, front validator by front
/// validator, until the amount is exhausted or the validator at the front
/// has nothing left.
pub open spec fn unbonded_set(s: Seq<ValidatorView>, amount: u128) -> Seq<ValidatorView>
    decreases amount,
{
    if unbond_continues(s, amount) {
        unbonded_set(after_unbond_step(s, amount), (amount - unbond_step(s, amount)) as u128)
    } else {
        s
    }
}

/// The undelegate instructions that unbonding `amount` emits, one for
/// each step.
pub open spec fn unbond_messages(s: Seq<ValidatorView>, amount: u128) -> Seq<InstructionView>
    decreases amount,
{
    if unbond_continues(s, amount) {
        seq![
            InstructionView::Undelegate { validator: s[0].address, amount: unbond_step(s, amount) },
        ] + unbond_messages(
            after_unbond_step(s, amount),
            (amount - unbond_step(s, amount)) as u128,
        )
    } else {
        Seq::empty()
    }
}

/// Unbonds `unbond_amount` from the validators: the one at the front
/// loses as much as it has, up to what is still asked for, the order is
/// restored, and so on until the amount is exhausted or the validator at
/// the front has nothing left. One undelegate instruction is emitted for
/// each step. Validators that together hold less than the amount are
/// unbonded in full and no error is raised.
pub fn unbond(validator_set: &mut ValidatorSet, unbond_amount: u128) -> (messages: Vec<Instruction>)
    ensures
        final(validator_set)@ == unbonded_set(old(validator_set)@, unbond_amount),
        instruction_views(messages@) == unbond_messages(old(validator_set)@, unbond_amount),
        valid_set(old(validator_set)@) ==> valid_set(final(validator_set)@)
            && undelegated_total(instruction_views(messages@)) == if unbond_amount
            <= total_staked(old(validator_set)@) {
            unbond_amount as nat
        } else {
            total_staked(old(validator_set)@)
        },
{
    proof {
        if valid_set(validator_set@) {
            lemma_unbond_takes_what_is_there(validator_set@, unbond_amount);
        }
    }
    let mut messages: Vec<Instruction> = Vec::new();
    let mut left: u128 = unbond_amount;
    let mut more: bool = true;
    let ghost start = validator_set@;
    assert(instruction_views(messages@) =~= Seq::<InstructionView>::empty());
    while more && left > 0
        invariant
            unbonded_set(start, unbond_amount) == unbonded_set(validator_set@, left),
            unbond_messages(start, unbond_amount) == instruction_views(messages@) + unbond_messages(
                validator_set@,
                left,
            ),
            !more ==> !unbond_continues(validator_set@, left),
        decreases
                (if more {
                    1int
                } else {
                    0int
                }),
                left,
    {
        let staked: u128 = match validator_set.next_to_unbond() {
            Some(validator) => validator.staked,
            None => 0,
        };
        if staked == 0 {
            // no validator has any stake left
            more = false;
        } else {
            let ghost before = validator_set@;
            let ghost shown = instruction_views(messages@);
            let to_unbond: u128 = if staked <= left {
                staked
            } else {
                left
            };
            match validator_set.unbond(to_unbond) {
                Ok(address) => {
                    validator_set.rebalance();
                    messages.push(undelegate_msg(address.as_str(), to_unbond));
                    left = left - to_unbond;
                    proof {
                        assert(validator_set@ == after_unbond_step(before, (left + to_unbond) as u128));
                        let step = seq![
                            InstructionView::Undelegate {
                                validator: before[0].address,
                                amount: to_unbond,
                            },
                        ];
                        assert(instruction_views(messages@) =~= shown + step);
                        assert(shown + (step + unbond_messages(validator_set@, left)) =~= (shown
                            + step) + unbond_messages(validator_set@, left));
                    }
                },
                Err(_) => {
                    more = false;
                },
            }
        }
    }
    assert(instruction_views(messages@) + Seq::<InstructionView>::empty() =~= instruction_views(
        messages@,
    ));
    messages
}

/// Unbonding takes what is asked for off the cached stakes, as far as
/// they go: from a sorted set with positive weights it takes the amount
/// asked for, or all cached stake where the validators together hold
/// less. The instructions it emits undelegate exactly that much, each of
/// them a positive amount. The set stays sorted, and valid if it was.
pub proof fn lemma_unbond_takes_what_is_there(s: Seq<ValidatorView>, amount: u128)
    requires
        weights_positive(s),
        sorted_desc(s),
    ensures
        total_staked(unbonded_set(s, amount)) == if amount <= total_staked(s) {
            total_staked(s) - amount
        } else {
            0
        },
        weights_positive(unbonded_set(s, amount)),
        sorted_desc(unbonded_set(s, amount)),
        unique_addresses(s) ==> valid_set(unbonded_set(s, amount)),
        undelegated_total(unbond_messages(s, amount)) == if amount <= total_staked(s) {
            amount as nat
        } else {
            total_staked(s)
        },
        forall|i: int|
            0 <= i < unbond_messages(s, amount).len() ==> undelegates_some(
                #[trigger] unbond_messages(s, amount)[i],
            ),
    decreases amount,
{
    let messages = unbond_messages(s, amount);
    if unbond_continues(s, amount) {
        let rest = unbond_messages(
            after_unbond_step(s, amount),
            (amount - unbond_step(s, amount)) as u128,
        );
        let first = InstructionView::Undelegate {
            validator: s[0].address,
            amount: unbond_step(s, amount),
        };
        assert(messages == seq![first] + rest);
        assert(messages[0] == first);
        assert(messages.drop_first() =~= rest);
        let step = unbond_step(s, amount);
        let left = (s[0].staked - step) as u128;
        let next = after_unbond_step(s, amount);
        lemma_rebalance_restores_order(s, 0, left);
        lemma_sort_desc_keeps_total(s.update(0, with_stake(s[0], left)));
        lemma_total_staked_front(s, left);
        lemma_total_staked_at_least_front(s);
        lemma_unbond_takes_what_is_there(next, (amount - step) as u128);
        assert forall|i: int| 0 <= i < messages.len() implies undelegates_some(
            #[trigger] messages[i],
        ) by {
            if i > 0 {
                assert(messages[i] == rest[i - 1]);
            }
        }
    } else if amount > 0 && s.len() > 0 {
        lemma_front_empty_all_empty(s);
    }
}

/// Whether an instruction undelegates a positive amount.
pub open spec fn undelegates_some(message: InstructionView) -> bool {
    match message {
        InstructionView::Undelegate { amount, .. } => amount > 0,
        _ => false,
    }
}

/// The native coin that a list of instructions undelegates in all.
pub open spec fn undelegated_total(messages: Seq<InstructionView>) -> nat
    decreases messages.len(),
{
    if messages.len() == 0 {
        0
    } else {
        undelegated_total(messages.drop_first()) + match messages[0] {
            InstructionView::Undelegate { amount, .. } => amount as nat,
            _ => 0,
        }
    }
}

/// The total of the cached stakes is at least the stake at the front.
pub proof fn lemma_total_staked_at_least_front(s: Seq<ValidatorView>)
    requires
        s.len() > 0,
    ensures
        total_staked(s) >= s[0].staked,
    decreases s.len(),
{
    if s.len() > 1 {
        lemma_total_staked_at_least_front(s.drop_last());
        assert(s.drop_last()[0] == s[0]);
    } else {
        assert(s.last() == s[0]);
    }
}

/// What closing the window at `now` leaves behind, or why the window
/// cannot be closed.
pub open spec fn window_closed(
    manager: WindowManager,
    validators: Seq<ValidatorView>,
    view: WithdrawStoreView,
    now: u64,
    unbonding_time: u64,
) -> Result<(WindowManager, Seq<ValidatorView>, WithdrawStoreView), ContractError> {
    if manager.time_to_close_window > now {
        Err(ContractError::WindowNotClosed)
    } else if now + unbonding_time > u64::MAX {
        Err(ContractError::Overflow)
    } else {
        match manager.advance_refused(now) {
            Some(e) => Err(e),
            None => Ok(
                (
                    manager.advanced(),
                    unbonded_set(validators, manager.window.coins),
                    WithdrawStoreView {
                        claim_times: view.claim_times.insert(
                            manager.current_active_window,
                            (now + unbonding_time) as u64,
                        ),
                        ..view
                    },
                ),
            ),
        }
    }
}

/// Closes the open window once its closing time is reached: the next
/// window opens, the claim time of the closed window is fixed at the
/// unbonding delay from now, and everything that was redeemed in the
/// closed window is unbonded in one go. Before the closing time nothing
/// changes.
pub fn perform_window_unbond(
    store: &mut WithdrawStore,
    validator_set: &mut ValidatorSet,
    window_manager: &mut WindowManager,
    now: u64,
    unbonding_time: u64,
) -> (messages: Result<Vec<Instruction>, ContractError>)
    requires
        old(store).wf(),
    ensures
        final(store).wf(),
        match window_closed(
            *old(window_manager),
            old(validator_set)@,
            old(store)@,
            now,
            unbonding_time,
        ) {
            Ok((manager, validators, view)) => {
                &&& messages matches Ok(emitted)
                &&& instruction_views(emitted@) == unbond_messages(
                    old(validator_set)@,
                    old(window_manager).window.coins,
                )
                &&& *final(window_manager) == manager
                &&& final(validator_set)@ == validators
                &&& final(store)@ == view
            },
            Err(e) => {
                &&& messages matches Err(cause)
                &&& cause == e
                &&& *final(window_manager) == *old(window_manager)
                &&& final(validator_set)@ == old(validator_set)@
                &&& final(store)@ == old(store)@
            },
        },
        valid_set(old(validator_set)@) ==> valid_set(final(validator_set)@),
        messages is Ok && valid_set(old(validator_set)@) ==> undelegated_total(
            instruction_views(messages->Ok_0@),
        ) == if old(window_manager).window.coins <= total_staked(old(validator_set)@) {
            old(window_manager).window.coins as nat
        } else {
            total_staked(old(validator_set)@)
        },
{
    if !check_window_advance(now, window_manager) {
        return Err(ContractError::WindowNotClosed);
    }
    if unbonding_time > u64::MAX - now {
        return Err(ContractError::Overflow);
    }
    let claim_time: u64 = now + unbonding_time;
    let closed_window = window_manager.current_active_window;
    let withdraw_amount = match window_manager.advance_window(now) {
        Ok(amount) => amount,
        Err(e) => {
            return Err(e);
        },
    };
    store.set_claim_time(closed_window, claim_time);
    Ok(unbond(validator_set, withdraw_amount))
}

/// What the side payments of an operation make of the records: nothing
/// where the setting does not ask for them, a batch of claims for five
/// users otherwise.
pub open spec fn helper_claimed(view: WithdrawStoreView, shared_withdrawals: u8, now: u64) -> Result<
    (WithdrawStoreView, BatchView),
    ContractError,
> {
    if shared_withdrawals > 3 {
        Err(ContractError::InvalidVariant)
    } else if shared_withdrawals == 1 || shared_withdrawals == 3 {
        batch_claimed(view, now, AMOUNT_OF_SHARED_WITHDRAWS)
    } else {
        Ok((view, BatchView { users: view.users, total: 0, messages: Seq::empty() }))
    }
}

/// Pays matured redemptions of up to five users on the side of a deposit
/// or a redemption, where the setting asks for it.
pub fn perform_helper_claims(store: &mut WithdrawStore, shared_withdrawals: u8, now: u64) -> (messages:
    Result<Vec<Instruction>, ContractError>)
    requires
        old(store).wf(),
    ensures
        final(store).wf(),
        match helper_claimed(old(store)@, shared_withdrawals, now) {
            Ok((view, batch)) => {
                &&& messages matches Ok(emitted)
                &&& instruction_views(emitted@) == batch.messages
                &&& final(store)@ == view
            },
            Err(e) => messages matches Err(cause) && cause == e,
        },
{
    let withdraw_config = match SharedWithdrawConfig::try_from(shared_withdrawals) {
        Ok(c) => c,
        Err(e) => {
            return Err(e);
        },
    };
    match withdraw_config {
        SharedWithdrawConfig::Withdraws | SharedWithdrawConfig::All => {
            match claim_multiple_withdraws(store, now, AMOUNT_OF_SHARED_WITHDRAWS) {
                Ok(done) => Ok(done.messages),
                Err(e) => Err(e),
            }
        },
        _ => {
            let messages: Vec<Instruction> = Vec::new();
            assert(instruction_views(messages@) =~= Seq::<InstructionView>::empty());
            Ok(messages)
        },
    }
}

/// What a redemption pays while the kill switch is open, or why it pays
/// nothing: the tokens at the frozen rate, as far as the balance of the
/// contract goes.
pub open spec fn released(amount: u128, frozen: Option<Rate>, balance: u128) -> Result<
    u128,
    ContractError,
> {
    match frozen {
        None => Err(ContractError::FrozenRateNotSet),
        Some(f) => match withdraw_coins(amount, f.spec_mantissa(), f.spec_scale()) {
            Err(e) => Err(e),
            Ok(coins) => Ok(
                if balance <= coins {
                    balance
                } else {
                    coins
                },
            ),
        },
    }
}

/// Redeems tokens while the kill switch is open: the tokens are burned
/// and their worth at the frozen rate is paid out at once, capped at the
/// native coin that the contract can pay.
pub fn release_tokens(amount: u128, frozen: Option<Rate>, balance: u128, sender: &String) -> (messages:
    Result<Vec<Instruction>, ContractError>)
    requires
        frozen matches Some(f) ==> f.wf(),
    ensures
        match released(amount, frozen, balance) {
            Ok(coins) => messages matches Ok(emitted) && instruction_views(emitted@) == seq![
                InstructionView::Burn { amount },
                InstructionView::Send { to_address: sender@, amount: coins },
            ],
            Err(e) => messages matches Err(cause) && cause == e,
        },
{
    let xrate = match frozen {
        Some(f) => f,
        None => {
            return Err(ContractError::FrozenRateNotSet);
        },
    };
    let scrt_amount = match calc_withdraw(amount, xrate) {
        Ok(coins) => coins,
        Err(e) => {
            return Err(e);
        },
    };
    let paid: u128 = if balance <= scrt_amount {
        balance
    } else {
        scrt_amount
    };
    let mut messages: Vec<Instruction> = Vec::new();
    messages.push(Instruction::Burn { amount });
    messages.push(send_msg(sender.as_str(), paid));
    assert(instruction_views(messages@) =~= seq![
        InstructionView::Burn { amount },
        InstructionView::Send { to_address: sender@, amount: paid },
    ]);
    Ok(messages)
}

/// The native coin that a redemption through the window is worth, or why
/// it is rejected before anything changes: a redemption needs a request,
/// a closed kill switch, a rate, and a worth of at least the minimum.
pub open spec fn redemption_worth(
    kill_switch: u8,
    requested: bool,
    frozen: Option<Rate>,
    validators: Seq<ValidatorView>,
    chain: ChainState,
    amount: u128,
) -> Result<u128, ContractError> {
    if !requested {
        Err(ContractError::MissingWithdrawRequest)
    } else if kill_switch > 2 {
        Err(ContractError::InvalidVariant)
    } else if kill_switch == 1 {
        Err(ContractError::Frozen)
    } else {
        match spec_current_rate(KillSwitch::Closed, frozen, validators, chain) {
            Err(e) => Err(e),
            Ok((m, s)) => match withdraw_coins(amount, m, s) {
                Err(e) => Err(e),
                Ok(coins) => if coins < MINIMUM_WITHDRAW {
                    Err(ContractError::BelowMinimum)
                } else {
                    Ok(coins)
                },
            },
        }
    }
}

/// What a redemption of `coins` through the window leaves behind, after
/// the side payments: the redemption is recorded for the sender and, if
/// the window has reached its closing time, the window is closed.
pub open spec fn redemption_recorded(
    manager: WindowManager,
    validators: Seq<ValidatorView>,
    view: WithdrawStoreView,
    sender: Seq<char>,
    coins: u128,
    now: u64,
    unbonding_time: u64,
) -> Result<(WindowManager, Seq<ValidatorView>, WithdrawStoreView), ContractError> {
    let key = user_key(sender);
    let list = view.withdraws_of(key);
    match manager.withdraw_refused(list, view.user_refused(key), coins) {
        Some(e) => Err(e),
        None => {
            let grown = WindowManager {
                window: WithdrawWindow { coins: (manager.window.coins + coins) as u128 },
                ..manager
            };
            let listed = view.with_user(
                key,
                merged(list, manager.current_active_window, coins),
            ).indexed(manager.current_active_window, sender);
            if grown.time_to_close_window <= now {
                window_closed(grown, validators, listed, now, unbonding_time)
            } else {
                Ok((grown, validators, listed))
            }
        },
    }
}

/// The instructions that a redemption through the window emits after the
/// side payments: the tokens are burned and, if the window is closed, all
/// that was redeemed in it is unbonded.
pub open spec fn redemption_messages(
    manager: WindowManager,
    validators: Seq<ValidatorView>,
    amount: u128,
    coins: u128,
    now: u64,
) -> Seq<InstructionView> {
    seq![InstructionView::Burn { amount }] + if manager.time_to_close_window <= now {
        unbond_messages(validators, (manager.window.coins + coins) as u128)
    } else {
        Seq::empty()
    }
}

/// Redeems derivative tokens that the token contract received from
/// `sender`.
///
/// While the kill switch is open the tokens are burned and paid out at
/// once at the frozen rate, and nothing else changes. While it is
/// unbonding the redemption is rejected. While it is closed the worth of
/// the tokens at the present rate is recorded for the sender in the open
/// window, the sender is listed as a withdrawer of that window, the
/// tokens are burned, and the window is closed if its time has come.
/// Matured redemptions of other users are paid on the side where the
/// setting asks for it.
///
/// A redemption that is rejected for its own sake changes nothing. After
/// a later error the records are to be discarded.
pub fn try_withdraw(
    config: &Config,
    validator_set: &mut ValidatorSet,
    window_manager: &mut WindowManager,
    store: &mut WithdrawStore,
    frozen: Option<Rate>,
    chain: &ChainState,
    now: u64,
    amount: u128,
    sender: &String,
    msg: Option<WithdrawRequest>,
) -> (messages: Result<Vec<Instruction>, ContractError>)
    requires
        old(store).wf(),
        frozen matches Some(f) ==> f.wf(),
    ensures
        final(store).wf(),
        msg is Some && config.kill_switch == 2 ==> {
            &&& *final(window_manager) == *old(window_manager)
            &&& final(validator_set)@ == old(validator_set)@
            &&& final(store)@ == old(store)@
            &&& match released(amount, frozen, chain.contract_balance) {
                Ok(coins) => messages matches Ok(emitted) && instruction_views(emitted@) == seq![
                    InstructionView::Burn { amount },
                    InstructionView::Send { to_address: sender@, amount: coins },
                ],
                Err(e) => messages matches Err(cause) && cause == e,
            }
        },
        !(msg is Some && config.kill_switch == 2) ==> match redemption_worth(
            config.kill_switch,
            msg is Some,
            frozen,
            old(validator_set)@,
            *chain,
            amount,
        ) {
            Err(e) => {
                &&& messages matches Err(cause)
                &&& cause == e
                &&& *final(window_manager) == *old(window_manager)
                &&& final(validator_set)@ == old(validator_set)@
                &&& final(store)@ == old(store)@
            },
            Ok(coins) => match helper_claimed(old(store)@, config.shared_withdrawals, now) {
                Err(e) => messages matches Err(cause) && cause == e,
                Ok((view, batch)) => match redemption_recorded(
                    *old(window_manager),
                    old(validator_set)@,
                    view,
                    sender@,
                    coins,
                    now,
                    config.unbonding_time,
                ) {
                    Err(e) => messages matches Err(cause) && cause == e,
                    Ok((manager, validators, recorded)) => {
                        &&& messages matches Ok(emitted)
                        &&& instruction_views(emitted@) == batch.messages + redemption_messages(
                            *old(window_manager),
                            old(validator_set)@,
                            amount,
                            coins,
                            now,
                        )
                        &&& *final(window_manager) == manager
                        &&& final(validator_set)@ == validators
                        &&& final(store)@ == recorded
                    },
                },
            },
        },
        messages is Ok && valid_set(old(validator_set)@) ==> valid_set(final(validator_set)@),
{
    if msg.is_none() {
        return Err(ContractError::MissingWithdrawRequest);
    }
    let kill_switch = match KillSwitch::try_from(config.kill_switch) {
        Ok(k) => k,
        Err(e) => {
            return Err(e);
        },
    };
    match kill_switch {
        KillSwitch::Unbonding => {
            return Err(ContractError::Frozen);
        },
        KillSwitch::Open => {
            return release_tokens(amount, frozen, chain.contract_balance, sender);
        },
        KillSwitch::Closed => {},
    }
    let exch_rate = match current_rate(kill_switch, frozen, validator_set, chain) {
        Ok(r) => r,
        Err(e) => {
            return Err(e);
        },
    };
    let unbond_amount = match calc_withdraw(amount, exch_rate) {
        Ok(coins) => coins,
        Err(e) => {
            return Err(e);
        },
    };
    if unbond_amount < MINIMUM_WITHDRAW {
        return Err(ContractError::BelowMinimum);
    }
    let mut messages = match perform_helper_claims(store, config.shared_withdrawals, now) {
        Ok(m) => m,
        Err(e) => {
            return Err(e);
        },
    };
    let ghost claimed = instruction_views(messages@);
    match window_manager.withdraw(store, sender, unbond_amount) {
        Ok(()) => {},
        Err(e) => {
            return Err(e);
        },
    }
    // the tokens that were sent for redemption are burned
    messages.push(Instruction::Burn { amount });
    assert(instruction_views(messages@) =~= claimed + seq![InstructionView::Burn { amount }]);
    if check_window_advance(now, window_manager) {
        let ghost burned = instruction_views(messages@);
        let mut unbonding = match perform_window_unbond(
            store,
            validator_set,
            window_manager,
            now,
            config.unbonding_time,
        ) {
            Ok(m) => m,
            Err(e) => {
                return Err(e);
            },
        };
        let ghost added = instruction_views(unbonding@);
        messages.append(&mut unbonding);
        assert(instruction_views(messages@) =~= burned + added);
        assert(instruction_views(messages@) =~= claimed + (seq![InstructionView::Burn { amount }]
            + added));
    } else {
        assert(instruction_views(messages@) =~= claimed + (seq![InstructionView::Burn { amount }]
            + Seq::<InstructionView>::empty()));
    }
    Ok(messages)
}

} // verus!
