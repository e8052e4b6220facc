use crate::errors::ContractError;
use crate::killswitch::KillSwitch;
use crate::rate::Rate;
use crate::staking::{instruction_views, redelegate_msg, Instruction, InstructionView};
use crate::validator_set::{address_views, first_index_of, lemma_update_keeps_addresses};
use crate::validator_set::{lemma_weights_stay_positive, lists_address, sort_desc, sorted_desc};
use crate::validator_set::{unbond_all_messages, unique_addresses, valid_set, weights_positive};
use crate::validator_set::{weight_or_default, with_stake, ValidatorSet, ValidatorView};
use crate::withdraw::{current_rate, spec_current_rate, ChainState};
use vstd::prelude::*;

verus! {

/// What taking `address` off the set, moving its stake to the validator
/// at the back and restoring the allocation order leaves behind, or why
/// the validator cannot be taken off. The stake is moved when the
/// validator is removed at all; with `redelegate` unset a validator is
/// only removed while it has no cached stake.
pub open spec fn validator_removed(s: Seq<ValidatorView>, address: Seq<char>, redelegate: bool) -> Result<
    Seq<ValidatorView>,
    ContractError,
> {
    match first_index_of(s, address) {
        None => Err(ContractError::NotFound),
        Some(i) => if !redelegate && s[i].staked != 0 {
            Err(ContractError::StakeRemaining)
        } else {
            let rest = s.remove(i);
            if rest.len() == 0 {
                Err(ContractError::EmptyValidatorSet)
            } else if rest.last().staked + s[i].staked > u128::MAX {
                Err(ContractError::Overflow)
            } else {
                Ok(
                    sort_desc(
                        rest.update(
                            rest.len() - 1,
                            with_stake(rest.last(), (rest.last().staked + s[i].staked) as u128),
                        ),
                    ),
                )
            }
        },
    }
}

/// Takes a validator off the set. Its cached stake moves to the
/// validator at the back of the remaining set and, unless `redelegate`
/// is set to false, one instruction redelegates it there. Without the
/// flag the stake is redelegated. The allocation order is restored, so a
/// valid set stays valid. After an error the set is to be discarded.
pub fn remove_validator(validator_set: &mut ValidatorSet, address: &String, redelegate: Option<
    bool,
>) -> (messages: Result<Vec<Instruction>, ContractError>)
    ensures
        ({
            let flag = match redelegate {
                Some(f) => f,
                None => true,
            };
            let s = old(validator_set)@;
            match validator_removed(s, address@, flag) {
                Ok(after) => {
                    &&& messages matches Ok(emitted)
                    &&& final(validator_set)@ == after
                    &&& first_index_of(s, address@) matches Some(i)
                    &&& instruction_views(emitted@) == if flag {
                        seq![
                            InstructionView::Redelegate {
                                src_validator: address@,
                                dst_validator: s.remove(i).last().address,
                                amount: s[i].staked,
                            },
                        ]
                    } else {
                        Seq::empty()
                    }
                },
                Err(e) => messages matches Err(cause) && cause == e,
            }
        }),
        messages is Ok && weights_positive(old(validator_set)@) ==> sorted_desc(
            final(validator_set)@,
        ) && weights_positive(final(validator_set)@),
        messages is Ok && valid_set(old(validator_set)@) ==> valid_set(final(validator_set)@),
{
    let mut messages: Vec<Instruction> = Vec::new();
    let redelegate_flag = match redelegate {
        Some(f) => f,
        None => true,
    };
    let removed = match validator_set.remove(address.as_str(), redelegate_flag) {
        Ok(r) => r,
        Err(e) => {
            return Err(e);
        },
    };
    match removed {
        Some(validator) => {
            let to_stake = validator.staked;
            let ghost rest = validator_set@;
            let dest_validator = match validator_set.stake(to_stake) {
                Ok(d) => d,
                Err(e) => {
                    return Err(e);
                },
            };
            proof {
                let moved = with_stake(rest.last(), (rest.last().staked + to_stake) as u128);
                if weights_positive(old(validator_set)@) {
                    let i = first_index_of(old(validator_set)@, address@)->0;
                    lemma_weights_stay_positive(old(validator_set)@, i, old(validator_set)@[i]);
                    lemma_weights_stay_positive(rest, rest.len() - 1, moved);
                }
                if valid_set(old(validator_set)@) {
                    lemma_update_keeps_addresses(rest, rest.len() - 1, moved);
                }
            }
            validator_set.rebalance();
            if redelegate_flag {
                messages.push(
                    redelegate_msg(address.as_str(), dest_validator.as_str(), to_stake),
                );
                assert(instruction_views(messages@) =~= seq![messages@[0]@]);
            } else {
                assert(instruction_views(messages@) =~= Seq::<InstructionView>::empty());
            }
        },
        None => {},
    }
    Ok(messages)
}

/// Adds a validator to the set, provided the staking module knows it.
pub fn add_validator(
    validator_set: &mut ValidatorSet,
    known_validators: &Vec<String>,
    address: String,
    weight: Option<u8>,
) -> (done: Result<(), ContractError>)
    ensures
        ({
            let s = old(validator_set)@;
            if !address_views(known_validators@).contains(address@) {
                done == Err::<(), ContractError>(ContractError::NotFound) && final(validator_set)@
                    == s
            } else {
                &&& done is Ok
                &&& first_index_of(s, address@) is Some ==> final(validator_set)@ == s
                &&& first_index_of(s, address@) is None ==> final(validator_set)@ == s.push(
                    ValidatorView {
                        address: address@,
                        staked: 0,
                        weight: weight_or_default(weight),
                    },
                )
            }
        }),
        valid_set(old(validator_set)@) ==> valid_set(final(validator_set)@),
{
    if !lists_address(known_validators, &address) {
        return Err(ContractError::NotFound);
    }
    validator_set.add(address, weight);
    Ok(())
}

/// What moving the stake of `from` to `to` leaves behind, or why it
/// cannot be moved: `from` leaves its place, its stake is added to `to`,
/// `from` is listed again at the back with its weight and no stake, and
/// the allocation order is restored.
pub open spec fn redelegated(s: Seq<ValidatorView>, from: Seq<char>, to: Seq<char>) -> Result<
    Seq<ValidatorView>,
    ContractError,
> {
    match first_index_of(s, from) {
        None => Err(ContractError::NotFound),
        Some(i) => {
            let rest = s.remove(i);
            if rest.len() == 0 {
                Err(ContractError::EmptyValidatorSet)
            } else {
                match first_index_of(rest, to) {
                    None => Err(ContractError::NotFound),
                    Some(j) => if rest[j].staked + s[i].staked > u128::MAX {
                        Err(ContractError::Overflow)
                    } else {
                        let moved = rest.update(
                            j,
                            with_stake(rest[j], (rest[j].staked + s[i].staked) as u128),
                        );
                        if first_index_of(moved, from) is Some {
                            Ok(sort_desc(moved))
                        } else {
                            Ok(
                                sort_desc(
                                    moved.push(
                                        ValidatorView {
                                            address: from,
                                            staked: 0,
                                            weight: weight_or_default(Some(s[i].weight)),
                                        },
                                    ),
                                ),
                            )
                        }
                    },
                }
            }
        },
    }
}

/// Moves the cached stake of one validator to another and redelegates it
/// with one instruction. The validator that gave up its stake stays in
/// the set, without stake, and the allocation order is restored, so a
/// valid set stays valid. After an error the set is to be discarded.
pub fn redelegate(validator_set: &mut ValidatorSet, from: String, to: &String) -> (messages: Result<
    Vec<Instruction>,
    ContractError,
>)
    ensures
        ({
            let s = old(validator_set)@;
            match redelegated(s, from@, to@) {
                Ok(after) => {
                    &&& messages matches Ok(emitted)
                    &&& final(validator_set)@ == after
                    &&& first_index_of(s, from@) matches Some(i)
                    &&& instruction_views(emitted@) == seq![
                        InstructionView::Redelegate {
                            src_validator: from@,
                            dst_validator: to@,
                            amount: s[i].staked,
                        },
                    ]
                },
                Err(e) => messages matches Err(cause) && cause == e,
            }
        }),
        messages is Ok && weights_positive(old(validator_set)@) ==> sorted_desc(
            final(validator_set)@,
        ) && weights_positive(final(validator_set)@),
        messages is Ok && valid_set(old(validator_set)@) ==> valid_set(final(validator_set)@),
{
    let mut messages: Vec<Instruction> = Vec::new();
    let removed = match validator_set.remove(from.as_str(), true) {
        Ok(r) => r,
        Err(e) => {
            return Err(e);
        },
    };
    match removed {
        Some(validator) => {
            let to_stake = validator.staked;
            let weight = validator.weight;
            let ghost rest = validator_set@;
            match validator_set.stake_at(to.as_str(), to_stake) {
                Ok(()) => {},
                Err(e) => {
                    return Err(e);
                },
            }
            messages.push(redelegate_msg(from.as_str(), to.as_str(), to_stake));
            assert(instruction_views(messages@) =~= seq![messages@[0]@]);
            let ghost moved = validator_set@;
            validator_set.add(from, Some(weight));
            proof {
                if weights_positive(old(validator_set)@) {
                    let i = first_index_of(old(validator_set)@, from@)->0;
                    let j = first_index_of(rest, to@)->0;
                    lemma_weights_stay_positive(old(validator_set)@, i, old(validator_set)@[i]);
                    lemma_weights_stay_positive(rest, j, moved[j]);
                    let back = ValidatorView {
                        address: from@,
                        staked: 0,
                        weight: weight_or_default(Some(weight)),
                    };
                    assert(weights_positive(moved));
                    lemma_weights_stay_positive(moved, j, back);
                }
                if valid_set(old(validator_set)@) {
                    let j = first_index_of(rest, to@)->0;
                    lemma_update_keeps_addresses(rest, j, moved[j]);
                    let listed = validator_set@;
                    assert(weights_positive(listed) && unique_addresses(listed)) by {
                        if first_index_of(moved, from@) is None {
                            assert forall|k: int| 0 <= k < listed.len() implies (
                            #[trigger] listed[k]).weight > 0 by {
                                if k < moved.len() {
                                    assert(listed[k] == moved[k]);
                                }
                            }
                            assert forall|a: int, b: int|
                                0 <= a < listed.len() && 0 <= b < listed.len() && a != b implies (
                            #[trigger] listed[a]).address != (#[trigger] listed[b]).address by {
                                if a < moved.len() && b < moved.len() {
                                    assert(listed[a] == moved[a] && listed[b] == moved[b]);
                                } else if a < moved.len() {
                                    assert(listed[a] == moved[a]);
                                    assert(moved[a].address != from@);
                                } else {
                                    assert(listed[b] == moved[b]);
                                    assert(moved[b].address != from@);
                                }
                            }
                        }
                    }
                }
            }
            validator_set.rebalance();
            Ok(messages)
        },
        None => Ok(messages),
    }
}

/// What pulling the kill switch hands back: the instructions that unbond
/// everything, the state the switch is in now, and the rate that is
/// frozen.
pub struct KillSwitchOutcome {
    pub messages: Vec<Instruction>,
    pub kill_switch: u8,
    pub frozen_exchange_rate: Rate,
}

/// Pulls the kill switch: the present rate is frozen, every validator
/// with cached stake is unbonded in full, and the cached stakes are
/// cleared. Only a closed switch can be pulled; otherwise nothing
/// changes.
pub fn kill_switch_unbond(kill_switch: u8, validator_set: &mut ValidatorSet, chain: &ChainState) -> (outcome:
    Result<KillSwitchOutcome, ContractError>)
    ensures
        ({
            let s = old(validator_set)@;
            let rate = spec_current_rate(KillSwitch::Closed, None, s, *chain);
            if kill_switch > 2 {
                outcome matches Err(e) && e == ContractError::InvalidVariant && final(validator_set)@ == s
            } else if kill_switch != 0 {
                outcome matches Err(e) && e == ContractError::InvalidTransition && final(validator_set)@ == s
            } else {
                match rate {
                    Err(cause) => outcome matches Err(e) && e == cause && final(validator_set)@ == s,
                    Ok((m, scale)) => {
                        &&& outcome matches Ok(done)
                        &&& done.kill_switch == 1
                        &&& done.frozen_exchange_rate.wf()
                        &&& done.frozen_exchange_rate.reads(m, scale)
                        &&& instruction_views(done.messages@) == unbond_all_messages(s)
                        &&& final(validator_set)@.len() == s.len()
                        &&& forall|i: int|
                            0 <= i < s.len() ==> (#[trigger] final(validator_set)@[i])
                                == with_stake(s[i], 0)
                    },
                }
            }
        }),
        valid_set(old(validator_set)@) ==> valid_set(final(validator_set)@),
{
    let switch = match KillSwitch::try_from(kill_switch) {
        Ok(k) => k,
        Err(e) => {
            return Err(e);
        },
    };
    let next = match switch.begin_unbonding() {
        Ok(n) => n,
        Err(e) => {
            return Err(e);
        },
    };
    let frozen_exchange_rate = match current_rate(switch, None, validator_set, chain) {
        Ok(r) => r,
        Err(e) => {
            return Err(e);
        },
    };
    let messages = validator_set.unbond_all();
    validator_set.zero();
    Ok(KillSwitchOutcome { messages, kill_switch: next.into(), frozen_exchange_rate })
}

/// Opens redemption at the frozen rate. Only a switch that is unbonding
/// can be opened.
pub fn kill_switch_open_withdraws(kill_switch: u8) -> (next: Result<u8, ContractError>)
    ensures
        match next {
            Ok(byte) => kill_switch == 1 && byte == 2,
            Err(e) => if kill_switch > 2 {
                e == ContractError::InvalidVariant
            } else {
                e == ContractError::InvalidTransition && kill_switch != 1
            },
        },
{
    let switch = match KillSwitch::try_from(kill_switch) {
        Ok(k) => k,
        Err(e) => {
            return Err(e);
        },
    };
    match switch.open_withdraws() {
        Ok(n) => Ok(n.into()),
        Err(e) => Err(e),
    }
}

} // verus!
