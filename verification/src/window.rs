use crate::errors::ContractError;
use crate::staking::{instruction_views, send_msg, Instruction, InstructionView};
use crate::user_withdraws::WithdrawStore;
use crate::validator_set::{valid_set, ValidatorSet};
use crate::window_manager::WindowManager;
use crate::withdraw::{perform_window_unbond, unbond_messages, window_closed};
use vstd::prelude::*;

verus! {

/// The instructions that pay the accumulated activation fee to whoever
/// advanced the window: one, or none where nothing has accumulated.
pub open spec fn activation_reward(sender: Seq<char>, accumulated: u64) -> Seq<InstructionView> {
    if accumulated > 0 {
        seq![InstructionView::Send { to_address: sender, amount: accumulated as u128 }]
    } else {
        Seq::empty()
    }
}

/// Advances the window on behalf of `sender`. Once the open window has
/// reached its closing time it is closed, all that was redeemed in it is
/// unbonded, and the sender is paid the activation fee that has
/// accumulated, which starts again at zero. Before the closing time the
/// call is rejected and nothing changes.
pub fn advance_window(
    store: &mut WithdrawStore,
    validator_set: &mut ValidatorSet,
    window_manager: &mut WindowManager,
    activation_fee: &mut u64,
    now: u64,
    unbonding_time: u64,
    sender: &String,
) -> (messages: Result<Vec<Instruction>, ContractError>)
    requires
        old(store).wf(),
    ensures
        final(store).wf(),
        match window_closed(
            *old(window_manager),
            old(validator_set)@,
            old(store)@,
            now,
            unbonding_time,
        ) {
            Ok((manager, validators, view)) => {
                &&& messages matches Ok(emitted)
                &&& instruction_views(emitted@) == unbond_messages(
                    old(validator_set)@,
                    old(window_manager).window.coins,
                ) + activation_reward(sender@, *old(activation_fee))
                &&& *final(window_manager) == manager
                &&& final(validator_set)@ == validators
                &&& final(store)@ == view
                &&& *final(activation_fee) == 0
            },
            Err(e) => {
                &&& messages matches Err(cause)
                &&& cause == e
                &&& *final(window_manager) == *old(window_manager)
                &&& final(validator_set)@ == old(validator_set)@
                &&& final(store)@ == old(store)@
                &&& *final(activation_fee) == *old(activation_fee)
            },
        },
        valid_set(old(validator_set)@) ==> valid_set(final(validator_set)@),
{
    let mut messages = match perform_window_unbond(
        store,
        validator_set,
        window_manager,
        now,
        unbonding_time,
    ) {
        Ok(m) => m,
        Err(e) => {
            return Err(e);
        },
    };
    let ghost unbonding = instruction_views(messages@);
    let fee_for_activation: u64 = *activation_fee;
    if fee_for_activation > 0 {
        messages.push(send_msg(sender.as_str(), fee_for_activation as u128));
        *activation_fee = 0;
        assert(instruction_views(messages@) =~= unbonding + activation_reward(
            sender@,
            fee_for_activation,
        ));
    } else {
        assert(instruction_views(messages@) =~= unbonding + activation_reward(
            sender@,
            fee_for_activation,
        ));
    }
    Ok(messages)
}

} // verus!
