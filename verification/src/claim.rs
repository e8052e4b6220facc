use crate::errors::ContractError;
use crate::staking::{instruction_views, send_msg, Instruction, InstructionView};
use crate::user_withdraws::{address_position, kept, popped, taken, unique_windows, user_key};
use crate::user_withdraws::{without_address, UserWithdrawManager, WaitingWithdraw};
use crate::user_withdraws::{WithdrawStore, WithdrawStoreView};
use crate::validator_set::address_views;
use vstd::prelude::*;

verus! {

/// Whether a redemption can be paid out at time `now`: its window is not
/// the open one, and the claim time of its window is fixed, is not zero
/// and has been reached.
pub open spec fn claimable(
    entry: WaitingWithdraw,
    active_window: u64,
    claim_times: Map<u64, u64>,
    now: u64,
) -> bool {
    &&& entry.id != active_window
    &&& claim_times.contains_key(entry.id)
    &&& claim_times[entry.id] != 0
    &&& claim_times[entry.id] <= now
}

/// The native coin that the claimable redemptions of a list are worth.
pub open spec fn claim_total(
    list: Seq<WaitingWithdraw>,
    active_window: u64,
    claim_times: Map<u64, u64>,
    now: u64,
) -> nat
    decreases list.len(),
{
    if list.len() == 0 {
        0
    } else {
        claim_total(list.drop_last(), active_window, claim_times, now) + if claimable(
            list.last(),
            active_window,
            claim_times,
            now,
        ) {
            list.last().amount as nat
        } else {
            0
        }
    }
}

/// The redemptions of a list that cannot be claimed yet, in order.
pub open spec fn claim_rest(
    list: Seq<WaitingWithdraw>,
    active_window: u64,
    claim_times: Map<u64, u64>,
    now: u64,
) -> Seq<WaitingWithdraw>
    decreases list.len(),
{
    if list.len() == 0 {
        list
    } else if claimable(list.last(), active_window, claim_times, now) {
        claim_rest(list.drop_last(), active_window, claim_times, now)
    } else {
        claim_rest(list.drop_last(), active_window, claim_times, now).push(list.last())
    }
}

/// The windows of the claimable redemptions of a list, in order.
pub open spec fn claim_windows(
    list: Seq<WaitingWithdraw>,
    active_window: u64,
    claim_times: Map<u64, u64>,
    now: u64,
) -> Seq<u64>
    decreases list.len(),
{
    if list.len() == 0 {
        Seq::empty()
    } else if claimable(list.last(), active_window, claim_times, now) {
        claim_windows(list.drop_last(), active_window, claim_times, now).push(list.last().id)
    } else {
        claim_windows(list.drop_last(), active_window, claim_times, now)
    }
}

/// The native coin that all redemptions of a list are worth.
pub open spec fn recorded_total(list: Seq<WaitingWithdraw>) -> nat
    decreases list.len(),
{
    if list.len() == 0 {
        0
    } else {
        recorded_total(list.drop_last()) + list.last().amount as nat
    }
}

/// The withdrawer lists after `address` was taken off the list of each
/// of the given windows, one window after the other.
pub open spec fn withdrawers_after(
    withdrawers: Map<u64, Seq<Seq<char>>>,
    windows: Seq<u64>,
    address: Seq<char>,
) -> Map<u64, Seq<Seq<char>>>
    decreases windows.len(),
{
    if windows.len() == 0 {
        withdrawers
    } else {
        let before = withdrawers_after(withdrawers, windows.drop_last(), address);
        let window = windows.last();
        let list = if before.contains_key(window) {
            before[window]
        } else {
            Seq::empty()
        };
        if address_position(list, address) is Some {
            before.insert(window, without_address(list, address))
        } else {
            before
        }
    }
}

/// The instructions that pay `total` to `address`: one, or none where
/// there is nothing to pay.
pub open spec fn payout(address: Seq<char>, total: u128) -> Seq<InstructionView> {
    if total > 0 {
        seq![InstructionView::Send { to_address: address, amount: total }]
    } else {
        Seq::empty()
    }
}

/// Whether no window has two records in the list.
pub fn has_unique_windows(list: &Vec<WaitingWithdraw>) -> (unique: bool)
    ensures
        unique == unique_windows(list@),
{
    let mut i: usize = 0;
    while i < list.len()
        invariant
            i <= list@.len(),
            forall|a: int, b: int|
                0 <= a < i && 0 <= b < list@.len() && a != b ==> (#[trigger] list@[a]).id != (
                #[trigger] list@[b]).id,
        decreases list@.len() - i,
    {
        let mut j: usize = 0;
        while j < list.len()
            invariant
                i < list@.len(),
                j <= list@.len(),
                forall|b: int| 0 <= b < j && b != i ==> list@[i as int].id != (#[trigger] list@[b]).id,
            decreases list@.len() - j,
        {
            if j != i && list[j].id == list[i].id {
                return false;
            }
            j = j + 1;
        }
        i = i + 1;
    }
    true
}

/// What a claim pays out and leaves behind.
pub struct ClaimOutcome {
    /// The native coin paid out.
    pub total: u128,
    /// The instructions that pay it.
    pub messages: Vec<Instruction>,
}

/// Pays out the redemption of one user for one window: the record leaves
/// the user's list and one instruction pays what it was worth. A user
/// without a record for the window is paid nothing.
pub fn do_claim(store: &mut WithdrawStore, window: u64, address: &String) -> (outcome: Result<
    ClaimOutcome,
    ContractError,
>)
    requires
        old(store).wf(),
    ensures
        final(store).wf(),
        ({
            let key = user_key(address@);
            let list = old(store)@.withdraws_of(key);
            let found = taken(list, window);
            match outcome {
                Ok(paid) => {
                    &&& found.len() <= 1
                    &&& if found.len() == 1 {
                        &&& paid.total == found[0].amount
                        &&& instruction_views(paid.messages@) == seq![
                            InstructionView::Send { to_address: address@, amount: paid.total },
                        ]
                        &&& final(store)@ == old(store)@.with_user(key, kept(list, window))
                    } else {
                        &&& paid.total == 0
                        &&& paid.messages@.len() == 0
                        &&& final(store)@ == old(store)@
                    }
                },
                Err(e) => e == ContractError::DuplicateWithdraw && found.len() > 1 && final(store)@
                    == old(store)@,
            }
        }),
{
    let mut messages: Vec<Instruction> = Vec::new();
    match store.get_withdraw_for_user(address, window) {
        Ok(Some(amount)) => {
            messages.push(send_msg(address.as_str(), amount));
            assert(instruction_views(messages@) =~= seq![
                InstructionView::Send { to_address: address@, amount },
            ]);
            Ok(ClaimOutcome { total: amount, messages })
        },
        Ok(None) => Ok(ClaimOutcome { total: 0, messages }),
        Err(e) => Err(e),
    }
}

/// Pays out every redemption of `sender` that has matured: a redemption
/// made in a window other than the open one, whose claim time is fixed,
/// not zero and reached. The records leave the user's list, the user
/// leaves the withdrawer list of each window paid, and one instruction
/// pays the sum. Where nothing has matured nothing changes and nothing is
/// paid. A user with two records for one window is an error, and so is a
/// sum that does not fit; neither changes anything.
pub fn claim_withdraws_for_sender(
    store: &mut WithdrawStore,
    active_window: u64,
    sender: &String,
    now: u64,
) -> (outcome: Result<ClaimOutcome, ContractError>)
    requires
        old(store).wf(),
    ensures
        final(store).wf(),
        ({
            let key = user_key(sender@);
            let list = old(store)@.withdraws_of(key);
            let times = old(store)@.claim_times;
            let total = claim_total(list, active_window, times, now);
            let windows = claim_windows(list, active_window, times, now);
            match outcome {
                Ok(paid) => {
                    &&& unique_windows(list)
                    &&& paid.total == total
                    &&& instruction_views(paid.messages@) == payout(sender@, paid.total)
                    &&& if windows.len() == 0 {
                        final(store)@ == old(store)@
                    } else {
                        final(store)@ == (WithdrawStoreView {
                            users: old(store)@.users.insert(
                                key,
                                claim_rest(list, active_window, times, now),
                            ),
                            withdrawers: withdrawers_after(
                                old(store)@.withdrawers,
                                windows,
                                sender@,
                            ),
                            ..old(store)@
                        })
                    }
                },
                Err(e) => {
                    &&& final(store)@ == old(store)@
                    &&& if unique_windows(list) {
                        e == ContractError::Overflow && total > u128::MAX
                    } else {
                        e == ContractError::DuplicateWithdraw
                    }
                },
            }
        }),
{
    let withdraws = store.all_waiting_withdraws_for_user(sender);
    let ghost list = withdraws@;
    let ghost times = store@.claim_times;
    let ghost before = store@;
    if !has_unique_windows(&withdraws) {
        return Err(ContractError::DuplicateWithdraw);
    }
    let mut sum_withdraws: u128 = 0;
    let mut overflow: bool = false;
    let mut rest: Vec<WaitingWithdraw> = Vec::new();
    let mut todo_withdraws: Vec<u64> = Vec::new();
    let mut i: usize = 0;
    assert(list.take(0) =~= Seq::<WaitingWithdraw>::empty());
    while i < withdraws.len()
        invariant
            i <= withdraws@.len(),
            list == withdraws@,
            times == store@.claim_times,
            store@ == before,
            store.wf(),
            rest@ == claim_rest(list.take(i as int), active_window, times, now),
            todo_withdraws@ == claim_windows(list.take(i as int), active_window, times, now),
            !overflow ==> sum_withdraws == claim_total(
                list.take(i as int),
                active_window,
                times,
                now,
            ),
            overflow ==> claim_total(list.take(i as int), active_window, times, now) > u128::MAX,
        decreases withdraws@.len() - i,
    {
        proof {
            assert(list.take(i + 1).drop_last() =~= list.take(i as int));
            assert(list.take(i + 1).last() == list[i as int]);
        }
        let withdraw = withdraws[i];
        let matured = withdraw.id != active_window && match store.get_claim_time(withdraw.id) {
            Some(time) => time != 0 && time <= now,
            None => false,
        };
        if matured {
            todo_withdraws.push(withdraw.id);
            if !overflow {
                if withdraw.amount > u128::MAX - sum_withdraws {
                    overflow = true;
                } else {
                    sum_withdraws = sum_withdraws + withdraw.amount;
                }
            }
        } else {
            rest.push(withdraw);
        }
        i = i + 1;
    }
    assert(list.take(i as int) =~= list);
    if overflow {
        return Err(ContractError::Overflow);
    }
    let mut messages: Vec<Instruction> = Vec::new();
    if todo_withdraws.is_empty() {
        proof {
            lemma_nothing_claimed(list, active_window, times, now);
        }
        return Ok(ClaimOutcome { total: 0, messages });
    }
    let ghost windows = todo_withdraws@;
    let mut k: usize = 0;
    assert(windows.take(0) =~= Seq::<u64>::empty());
    while k < todo_withdraws.len()
        invariant
            k <= todo_withdraws@.len(),
            windows == todo_withdraws@,
            store.wf(),
            store@ == (WithdrawStoreView {
                withdrawers: withdrawers_after(before.withdrawers, windows.take(k as int), sender@),
                ..before
            }),
        decreases todo_withdraws@.len() - k,
    {
        proof {
            assert(windows.take(k + 1).drop_last() =~= windows.take(k as int));
            assert(windows.take(k + 1).last() == windows[k as int]);
        }
        let mut withdraw_manager = UserWithdrawManager::new(todo_withdraws[k]);
        let _found = withdraw_manager.remove_address(store, sender);
        k = k + 1;
    }
    assert(windows.take(k as int) =~= windows);
    proof {
        lemma_claimed_is_listed(list, active_window, times, now);
        assert(before.users.contains_key(user_key(sender@)));
        // a user with records is filed, so filing again cannot fail
        store.lemma_users_counted(user_key(sender@));
    }
    match store.set_withdraws_for_user(sender, rest) {
        Ok(()) => {},
        Err(e) => {
            return Err(e);
        },
    }
    if sum_withdraws > 0 {
        messages.push(send_msg(sender.as_str(), sum_withdraws));
        assert(instruction_views(messages@) =~= payout(sender@, sum_withdraws));
    } else {
        assert(instruction_views(messages@) =~= payout(sender@, sum_withdraws));
    }
    Ok(ClaimOutcome { total: sum_withdraws, messages })
}

/// What a batch of claims makes of the records: the store it leaves, the
/// native coin it pays, and the instructions that pay it.
pub struct BatchView {
    pub users: Map<Seq<u8>, Seq<WaitingWithdraw>>,
    pub total: nat,
    pub messages: Seq<InstructionView>,
}

/// Paying the users of `addresses`, one after the other, what each has
/// recorded for `window`. A user with two records for the window stops
/// the batch with an error, and so does a sum that does not fit.
pub open spec fn batch_paid(
    users: Map<Seq<u8>, Seq<WaitingWithdraw>>,
    window: u64,
    addresses: Seq<Seq<char>>,
) -> Result<BatchView, ContractError>
    decreases addresses.len(),
{
    if addresses.len() == 0 {
        Ok(BatchView { users, total: 0, messages: Seq::empty() })
    } else {
        match batch_paid(users, window, addresses.drop_last()) {
            Err(e) => Err(e),
            Ok(before) => {
                let address = addresses.last();
                let key = user_key(address);
                let list = if before.users.contains_key(key) {
                    before.users[key]
                } else {
                    Seq::empty()
                };
                let found = taken(list, window);
                if found.len() > 1 {
                    Err(ContractError::DuplicateWithdraw)
                } else if found.len() == 0 {
                    Ok(before)
                } else if before.total + found[0].amount > u128::MAX {
                    Err(ContractError::Overflow)
                } else {
                    Ok(
                        BatchView {
                            users: before.users.insert(key, kept(list, window)),
                            total: before.total + found[0].amount as nat,
                            messages: before.messages.push(
                                InstructionView::Send {
                                    to_address: address,
                                    amount: found[0].amount,
                                },
                            ),
                        },
                    )
                }
            },
        }
    }
}

/// Whether the redemptions of `window` can be paid in a batch at `now`:
/// the claim time of the window is fixed and has been reached.
pub open spec fn batch_due(view: WithdrawStoreView, now: u64) -> bool {
    view.claim_times.contains_key(view.active_withdraw_window)
        && view.claim_times[view.active_withdraw_window] <= now
}

/// How many withdrawers a batch of at most `amount` users takes off a
/// list.
pub open spec fn batch_count(list: Seq<Seq<char>>, amount: u32) -> nat {
    if list.len() <= amount {
        list.len()
    } else {
        amount as nat
    }
}

/// What a batch of claims for at most `amount` users makes of the
/// records at time `now`: the records it leaves, the native coin it pays
/// and the instructions that pay it. The batch pays the users at the end
/// of the withdrawer list of the oldest window that may still hold
/// claims, and moves on to the next window once that list is empty.
pub open spec fn batch_claimed(view: WithdrawStoreView, now: u64, amount: u32) -> Result<
    (WithdrawStoreView, BatchView),
    ContractError,
> {
    let window = view.active_withdraw_window;
    let list = view.withdrawers_of(window);
    let count = batch_count(list, amount);
    if !batch_due(view, now) {
        Ok((view, BatchView { users: view.users, total: 0, messages: Seq::empty() }))
    } else {
        match batch_paid(view.users, window, popped(list, count)) {
            Err(e) => Err(e),
            Ok(batch) => if count == list.len() && window == u64::MAX {
                Err(ContractError::Overflow)
            } else {
                Ok(
                    (
                        WithdrawStoreView {
                            users: batch.users,
                            withdrawers: if count == 0 {
                                view.withdrawers
                            } else {
                                view.withdrawers.insert(window, list.take(list.len() - count))
                            },
                            claim_times: view.claim_times,
                            active_withdraw_window: if count == list.len() {
                                (window + 1) as u64
                            } else {
                                window
                            },
                        },
                        batch,
                    ),
                )
            },
        }
    }
}

/// Pays the redemptions of up to `amount` users of the oldest window that
/// may still hold claims, provided the claim time of that window is
/// fixed and reached; otherwise nothing happens. The users are taken off
/// the end of the window's list of withdrawers. Once that list is empty
/// the pointer moves to the next window. On an error the records are
/// left as the batch had changed them up to that point.
pub fn claim_multiple_withdraws(store: &mut WithdrawStore, now: u64, amount: u32) -> (outcome:
    Result<ClaimOutcome, ContractError>)
    requires
        old(store).wf(),
    ensures
        final(store).wf(),
        match batch_claimed(old(store)@, now, amount) {
            Ok((view, batch)) => {
                &&& outcome matches Ok(done)
                &&& done.total == batch.total
                &&& instruction_views(done.messages@) == batch.messages
                &&& final(store)@ == view
            },
            Err(e) => outcome matches Err(cause) && cause == e,
        },
{
    let ghost view = store@;
    let mut sum_withdraws: u128 = 0;
    let mut messages: Vec<Instruction> = Vec::new();
    let window = store.get_active_withdraw_window();
    match store.get_claim_time(window) {
        Some(activation_time) => {
            if activation_time > now {
                return Ok(ClaimOutcome { total: 0, messages });
            }
        },
        None => {
            return Ok(ClaimOutcome { total: 0, messages });
        },
    }
    let withdraw_manager = UserWithdrawManager::new(window);
    let ghost list = view.withdrawers_of(window);
    let ghost count = batch_count(list, amount);
    let users = withdraw_manager.get_many(store, amount);
    let ghost addresses = address_views(users@);
    let ghost popped_view = store@;
    assert(addresses == popped(list, count));
    assert(popped_view.users == view.users);
    let mut i: usize = 0;
    assert(addresses.take(0) =~= Seq::<Seq<char>>::empty());
    assert(instruction_views(messages@) =~= Seq::<InstructionView>::empty());
    while i < users.len()
        invariant
            i <= users@.len(),
            addresses == address_views(users@),
            store.wf(),
            view == old(store)@,
            window == view.active_withdraw_window,
            batch_due(view, now),
            list == view.withdrawers_of(window),
            count == batch_count(list, amount),
            addresses == popped(list, count),
            batch_paid(view.users, window, addresses.take(i as int)) matches Ok(batch)
                && batch.users == store@.users && batch.total == sum_withdraws && batch.messages
                == instruction_views(messages@),
            store@ == (WithdrawStoreView { users: store@.users, ..popped_view }),
        decreases users@.len() - i,
    {
        proof {
            assert(addresses.take(i + 1).drop_last() =~= addresses.take(i as int));
            assert(addresses.take(i + 1).last() == users@[i as int]@);
        }
        let ghost shown = instruction_views(messages@);
        let user = &users[i];
        match do_claim(store, window, user) {
            Ok(paid) => {
                if paid.total > u128::MAX - sum_withdraws {
                    proof {
                        assert(batch_paid(view.users, window, addresses.take(i + 1)) == Err::<
                            BatchView,
                            ContractError,
                        >(ContractError::Overflow));
                        lemma_batch_stops(view.users, window, addresses, i + 1);
                    }
                    return Err(ContractError::Overflow);
                }
                sum_withdraws = sum_withdraws + paid.total;
                let mut temp_messages = paid.messages;
                let ghost added = instruction_views(temp_messages@);
                messages.append(&mut temp_messages);
                assert(instruction_views(messages@) =~= shown + added);
            },
            Err(e) => {
                proof {
                    assert(batch_paid(view.users, window, addresses.take(i + 1)) == Err::<
                        BatchView,
                        ContractError,
                    >(ContractError::DuplicateWithdraw));
                    lemma_batch_stops(view.users, window, addresses, i + 1);
                }
                return Err(e);
            },
        }
        i = i + 1;
    }
    assert(addresses.take(i as int) =~= addresses);
    if withdraw_manager.len(store) == 0 {
        if window == u64::MAX {
            return Err(ContractError::Overflow);
        }
        store.set_active_withdraw_window(window + 1);
    }
    Ok(ClaimOutcome { total: sum_withdraws, messages })
}

/// What the user with `address` is owed for `window`: the worth of the
/// one record that the user has for it, and nothing without such a
/// record.
pub open spec fn owed(
    users: Map<Seq<u8>, Seq<WaitingWithdraw>>,
    window: u64,
    address: Seq<char>,
) -> Option<u128> {
    let key = user_key(address);
    let list = if users.contains_key(key) {
        users[key]
    } else {
        Seq::empty()
    };
    if taken(list, window).len() == 1 {
        Some(taken(list, window)[0].amount)
    } else {
        None
    }
}

/// What the users of `addresses` are owed for `window` in all.
pub open spec fn owed_total(
    users: Map<Seq<u8>, Seq<WaitingWithdraw>>,
    window: u64,
    addresses: Seq<Seq<char>>,
) -> nat
    decreases addresses.len(),
{
    if addresses.len() == 0 {
        0
    } else {
        owed_total(users, window, addresses.drop_last()) + match owed(
            users,
            window,
            addresses.last(),
        ) {
            Some(amount) => amount as nat,
            None => 0,
        }
    }
}

/// One payment for each user of `addresses` that is owed something for
/// `window`, of exactly what the user is owed, in the order of the list.
pub open spec fn owed_messages(
    users: Map<Seq<u8>, Seq<WaitingWithdraw>>,
    window: u64,
    addresses: Seq<Seq<char>>,
) -> Seq<InstructionView>
    decreases addresses.len(),
{
    if addresses.len() == 0 {
        Seq::empty()
    } else {
        let rest = owed_messages(users, window, addresses.drop_last());
        match owed(users, window, addresses.last()) {
            Some(amount) => rest.push(
                InstructionView::Send { to_address: addresses.last(), amount },
            ),
            None => rest,
        }
    }
}

/// No two addresses of a list are filed under the same key.
pub open spec fn distinct_users(addresses: Seq<Seq<char>>) -> bool {
    forall|i: int, j: int|
        0 <= i < addresses.len() && 0 <= j < addresses.len() && i != j ==> user_key(
            #[trigger] addresses[i],
        ) != user_key(#[trigger] addresses[j])
}

/// A batch leaves the records of every user alone that it does not pay.
pub proof fn lemma_batch_leaves_others(
    users: Map<Seq<u8>, Seq<WaitingWithdraw>>,
    window: u64,
    addresses: Seq<Seq<char>>,
    key: Seq<u8>,
)
    requires
        batch_paid(users, window, addresses) is Ok,
        forall|i: int| 0 <= i < addresses.len() ==> user_key(#[trigger] addresses[i]) != key,
    ensures
        batch_paid(users, window, addresses)->Ok_0.users.contains_key(key) == users.contains_key(
            key,
        ),
        users.contains_key(key) ==> batch_paid(users, window, addresses)->Ok_0.users[key]
            == users[key],
    decreases addresses.len(),
{
    if addresses.len() > 0 {
        let shorter = addresses.drop_last();
        assert forall|i: int| 0 <= i < shorter.len() implies user_key(#[trigger] shorter[i])
            != key by {
            assert(shorter[i] == addresses[i]);
        }
        assert(user_key(addresses[addresses.len() - 1]) != key);
        lemma_batch_leaves_others(users, window, shorter, key);
    }
}

/// A batch pays each listed user exactly what the user has recorded for
/// the window: where no two of the users share a key, the payments are
/// one for each user with one record for the window, of the worth of
/// that record, and the total is their sum.
pub proof fn lemma_batch_pays_what_is_recorded(
    users: Map<Seq<u8>, Seq<WaitingWithdraw>>,
    window: u64,
    addresses: Seq<Seq<char>>,
)
    requires
        batch_paid(users, window, addresses) is Ok,
        distinct_users(addresses),
    ensures
        batch_paid(users, window, addresses)->Ok_0.total == owed_total(users, window, addresses),
        batch_paid(users, window, addresses)->Ok_0.messages == owed_messages(
            users,
            window,
            addresses,
        ),
    decreases addresses.len(),
{
    if addresses.len() > 0 {
        let shorter = addresses.drop_last();
        let last = addresses.last();
        assert(distinct_users(shorter)) by {
            assert forall|i: int, j: int|
                0 <= i < shorter.len() && 0 <= j < shorter.len() && i != j implies user_key(
                #[trigger] shorter[i],
            ) != user_key(#[trigger] shorter[j]) by {
                assert(shorter[i] == addresses[i] && shorter[j] == addresses[j]);
            }
        }
        lemma_batch_pays_what_is_recorded(users, window, shorter);
        assert forall|i: int| 0 <= i < shorter.len() implies user_key(#[trigger] shorter[i])
            != user_key(last) by {
            assert(shorter[i] == addresses[i]);
            assert(last == addresses[addresses.len() - 1]);
        }
        lemma_batch_leaves_others(users, window, shorter, user_key(last));
    }
}

/// A batch that fails for its first users fails for all of them, with the
/// same error.
pub proof fn lemma_batch_stops(
    users: Map<Seq<u8>, Seq<WaitingWithdraw>>,
    window: u64,
    addresses: Seq<Seq<char>>,
    n: int,
)
    requires
        0 <= n <= addresses.len(),
        batch_paid(users, window, addresses.take(n)) is Err,
    ensures
        batch_paid(users, window, addresses) == batch_paid(users, window, addresses.take(n)),
    decreases addresses.len() - n,
{
    if n < addresses.len() {
        assert(addresses.take(n + 1).drop_last() =~= addresses.take(n));
        lemma_batch_stops(users, window, addresses, n + 1);
    } else {
        assert(addresses.take(n) =~= addresses);
    }
}

/// Where no redemption of a list is claimable, nothing is paid and the
/// list is left as it is.
pub proof fn lemma_nothing_claimed(
    list: Seq<WaitingWithdraw>,
    active_window: u64,
    claim_times: Map<u64, u64>,
    now: u64,
)
    ensures
        claim_windows(list, active_window, claim_times, now).len() == 0 <==> forall|i: int|
            0 <= i < list.len() ==> !claimable(#[trigger] list[i], active_window, claim_times, now),
        claim_windows(list, active_window, claim_times, now).len() == 0 ==> claim_total(
            list,
            active_window,
            claim_times,
            now,
        ) == 0 && claim_rest(list, active_window, claim_times, now) == list,
    decreases list.len(),
{
    if list.len() > 0 {
        let shorter = list.drop_last();
        lemma_nothing_claimed(shorter, active_window, claim_times, now);
        if claim_windows(list, active_window, claim_times, now).len() == 0 {
            assert forall|i: int| 0 <= i < list.len() implies !claimable(
                #[trigger] list[i],
                active_window,
                claim_times,
                now,
            ) by {
                if i < shorter.len() {
                    assert(shorter[i] == list[i]);
                }
            }
            assert(claim_rest(list, active_window, claim_times, now) =~= list);
        } else {
            if claimable(list.last(), active_window, claim_times, now) {
                assert(claimable(list[list.len() - 1], active_window, claim_times, now));
            } else {
                let i = choose|i: int|
                    0 <= i < shorter.len() && claimable(
                        #[trigger] shorter[i],
                        active_window,
                        claim_times,
                        now,
                    );
                assert(shorter[i] == list[i]);
            }
        }
    }
}

/// Where a redemption of a list is claimable, the list is not empty.
pub proof fn lemma_claimed_is_listed(
    list: Seq<WaitingWithdraw>,
    active_window: u64,
    claim_times: Map<u64, u64>,
    now: u64,
)
    ensures
        claim_windows(list, active_window, claim_times, now).len() <= list.len(),
    decreases list.len(),
{
    if list.len() > 0 {
        lemma_claimed_is_listed(list.drop_last(), active_window, claim_times, now);
    }
}

/// A claim before the maturity of every window returns zero effect: while
/// no claim time of a window with a redemption is fixed, not zero and
/// reached, nothing is paid and the list stays as it is.
pub proof fn lemma_claim_before_maturity(
    list: Seq<WaitingWithdraw>,
    active_window: u64,
    claim_times: Map<u64, u64>,
    now: u64,
)
    requires
        forall|i: int|
            0 <= i < list.len() && claim_times.contains_key((#[trigger] list[i]).id) ==> now
                < claim_times[list[i].id],
    ensures
        claim_total(list, active_window, claim_times, now) == 0,
        claim_rest(list, active_window, claim_times, now) == list,
        claim_windows(list, active_window, claim_times, now).len() == 0,
{
    lemma_nothing_claimed(list, active_window, claim_times, now);
}

/// A claim pays exactly what was recorded and pays it once: what is paid
/// and what stays recorded add up to what was recorded, and claiming
/// again at the same time pays nothing and leaves the rest as it is.
pub proof fn lemma_claim_pays_once(
    list: Seq<WaitingWithdraw>,
    active_window: u64,
    claim_times: Map<u64, u64>,
    now: u64,
)
    ensures
        claim_total(list, active_window, claim_times, now) + recorded_total(
            claim_rest(list, active_window, claim_times, now),
        ) == recorded_total(list),
        claim_total(
            claim_rest(list, active_window, claim_times, now),
            active_window,
            claim_times,
            now,
        ) == 0,
        claim_rest(
            claim_rest(list, active_window, claim_times, now),
            active_window,
            claim_times,
            now,
        ) == claim_rest(list, active_window, claim_times, now),
    decreases list.len(),
{
    if list.len() > 0 {
        let shorter = list.drop_last();
        lemma_claim_pays_once(shorter, active_window, claim_times, now);
        let rest = claim_rest(shorter, active_window, claim_times, now);
        if !claimable(list.last(), active_window, claim_times, now) {
            let longer = rest.push(list.last());
            assert(longer.drop_last() =~= rest);
            assert(longer.last() == list.last());
        }
    }
}

/// A redemption that has matured is paid in full: a user whose only
/// record is claimable is paid exactly its amount, and no record is left.
pub proof fn lemma_claim_after_maturity(
    entry: WaitingWithdraw,
    active_window: u64,
    claim_times: Map<u64, u64>,
    now: u64,
)
    requires
        claimable(entry, active_window, claim_times, now),
    ensures
        claim_total(seq![entry], active_window, claim_times, now) == entry.amount,
        claim_rest(seq![entry], active_window, claim_times, now) == Seq::<WaitingWithdraw>::empty(),
{
    let list = seq![entry];
    assert(list.drop_last() =~= Seq::<WaitingWithdraw>::empty());
    assert(list.last() == entry);
    assert(claim_total(list.drop_last(), active_window, claim_times, now) == 0);
    assert(claim_rest(list.drop_last(), active_window, claim_times, now) =~= Seq::<
        WaitingWithdraw,
    >::empty());
    assert(claim_rest(list, active_window, claim_times, now) =~= Seq::<WaitingWithdraw>::empty());
}

} // verus!
