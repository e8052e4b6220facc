use crate::errors::ContractError;
use crate::user_withdraws::{find_window, merged, unique_windows, user_key, window_position};
use crate::user_withdraws::{UserWithdrawManager, WaitingWithdraw, WithdrawStore};
use vstd::prelude::*;

verus! {

/// How long a window stays open.
pub const WINDOW_TIME: u64 = 20;

/// The native coin that waits in the open window.
#[derive(Debug, Clone, Copy, PartialEq, Eq, Structural)]
pub struct WithdrawWindow {
    pub coins: u128,
}

/// The window that accepts redemptions: its id, the time at which it
/// closes, and the native coin redeemed in it so far.
#[derive(Debug, Clone, Copy, PartialEq, Eq, Structural)]
pub struct WindowManager {
    pub current_active_window: u64,
    pub time_to_close_window: u64,
    pub window: WithdrawWindow,
}

/// Whether the open window has reached its closing time.
pub fn check_window_advance(current_time: u64, window_manager: &WindowManager) -> (due: bool)
    ensures
        due == (window_manager.time_to_close_window <= current_time),
{
    return window_manager.time_to_close_window <= current_time;
}

impl WindowManager {
    /// The manager of window zero, which closes at `time_to_close_window`
    /// and holds nothing yet.
    pub fn new(time_to_close_window: u64) -> (manager: Self)
        ensures
            manager == (WindowManager {
                current_active_window: 0,
                time_to_close_window,
                window: WithdrawWindow { coins: 0 },
            }),
    {
        WindowManager {
            current_active_window: 0,
            time_to_close_window,
            window: WithdrawWindow { coins: 0 },
        }
    }

    /// The manager after its window was closed: the next window is open,
    /// its closing time is one window duration after the closing time of
    /// the window that closed, and it holds nothing.
    pub open spec fn advanced(self) -> WindowManager {
        WindowManager {
            current_active_window: (self.current_active_window + 1) as u64,
            time_to_close_window: (self.time_to_close_window + WINDOW_TIME) as u64,
            window: WithdrawWindow { coins: 0 },
        }
    }

    /// Why the window cannot be advanced at `current_time`, if it cannot:
    /// its closing time is not reached, or the next window id or the next
    /// closing time does not fit.
    pub open spec fn advance_refused(self, current_time: u64) -> Option<ContractError> {
        if self.time_to_close_window > current_time {
            Some(ContractError::WindowNotClosed)
        } else if self.current_active_window == u64::MAX || self.time_to_close_window
            + WINDOW_TIME > u64::MAX {
            Some(ContractError::Overflow)
        } else {
            None
        }
    }

    /// Closes the open window and opens the next one. Valid once the
    /// closing time is reached. The closing time moves forward by one
    /// window duration, however late the call comes. Returns the native
    /// coin that was redeemed in the window that closed, to be unbonded in
    /// one go.
    pub fn advance_window(&mut self, current_time: u64) -> (amount: Result<u128, ContractError>)
        ensures
            match amount {
                Ok(coins) => old(self).advance_refused(current_time) is None && coins == old(self).window.coins && *final(self) == old(self).advanced(),
                Err(e) => old(self).advance_refused(current_time) == Some(e) && *final(self) == *old(self),
            },
    {
        if self.time_to_close_window > current_time {
            return Err(ContractError::WindowNotClosed);
        }
        if self.current_active_window == u64::MAX || self.time_to_close_window > u64::MAX
            - WINDOW_TIME {
            return Err(ContractError::Overflow);
        }
        self.current_active_window = self.current_active_window + 1;
        self.time_to_close_window = self.time_to_close_window + WINDOW_TIME;
        let amount_to_withdraw = self.window.coins;
        self.window.coins = 0;
        return Ok(amount_to_withdraw);
    }

    /// Why a redemption of `amount` cannot be recorded, if it cannot: the
    /// window total or the user's record would overflow, or the store
    /// cannot file the user.
    pub open spec fn withdraw_refused(
        self,
        list: Seq<WaitingWithdraw>,
        store_refuses: Option<ContractError>,
        amount: u128,
    ) -> Option<ContractError> {
        if self.window.coins + amount > u128::MAX {
            Some(ContractError::Overflow)
        } else if window_position(list, self.current_active_window) matches Some(i) && list[i].amount
            + amount > u128::MAX {
            Some(ContractError::Overflow)
        } else {
            store_refuses
        }
    }

    /// Records a redemption of `amount` for `address` in the open window:
    /// the window total grows by the amount, and so does the user's record
    /// for the window, which is created if the user has none, and the user
    /// is listed among the withdrawers of the window. A user has at most
    /// one record for a window and is listed once.
    pub fn withdraw(&mut self, store: &mut WithdrawStore, address: &String, amount: u128) -> (done:
        Result<(), ContractError>)
        requires
            old(store).wf(),
        ensures
            final(store).wf(),
            ({
                let key = user_key(address@);
                let list = old(store)@.withdraws_of(key);
                let refused = old(self).withdraw_refused(
                    list,
                    old(store)@.user_refused(key),
                    amount,
                );
                match done {
                    Ok(()) => {
                        &&& refused is None
                        &&& *final(self) == (WindowManager {
                            window: WithdrawWindow {
                                coins: (old(self).window.coins + amount) as u128,
                            },
                            ..*old(self)
                        })
                        &&& final(store)@ == old(store)@.with_user(
                            key,
                            merged(list, old(self).current_active_window, amount),
                        ).indexed(old(self).current_active_window, address@)
                    },
                    Err(e) => refused == Some(e) && *final(self) == *old(self) && final(store)@
                        == old(store)@,
                }
            }),
    {
        if amount > u128::MAX - self.window.coins {
            return Err(ContractError::Overflow);
        }
        let mut user_withdraws = store.all_waiting_withdraws_for_user(address);
        let ghost list = user_withdraws@;
        match find_window(&user_withdraws, self.current_active_window) {
            Some(active_window) => {
                // the user already has a record for this window
                let recorded = user_withdraws[active_window].amount;
                if amount > u128::MAX - recorded {
                    return Err(ContractError::Overflow);
                }
                user_withdraws[active_window] = WaitingWithdraw {
                    id: self.current_active_window,
                    amount: recorded + amount,
                };
            },
            None => {
                user_withdraws.push(WaitingWithdraw { id: self.current_active_window, amount });
            },
        }
        assert(user_withdraws@ == merged(list, self.current_active_window, amount));
        match store.set_withdraws_for_user(address, user_withdraws) {
            Ok(()) => {
                UserWithdrawManager::new(self.current_active_window).append(store, address);
                self.window.coins = self.window.coins + amount;
                Ok(())
            },
            Err(e) => Err(e),
        }
    }
}

/// Merging a redemption into a list that has at most one record for each
/// window leaves it with at most one record for each window, and with
/// exactly one for the window of the redemption.
pub proof fn lemma_merged_unique(list: Seq<WaitingWithdraw>, window: u64, amount: u128)
    requires
        unique_windows(list),
    ensures
        unique_windows(merged(list, window, amount)),
        window_position(merged(list, window, amount), window) is Some,
{
    let after = merged(list, window, amount);
    match window_position(list, window) {
        Some(i) => {
            assert(list[i].id == window);
            assert forall|a: int, b: int|
                0 <= a < after.len() && 0 <= b < after.len() && a != b implies (#[trigger] after[a]).id
                != (#[trigger] after[b]).id by {
                assert(after[a].id == list[a].id && after[b].id == list[b].id);
            }
            assert(after[i].id == window);
        },
        None => {
            assert forall|a: int, b: int|
                0 <= a < after.len() && 0 <= b < after.len() && a != b implies (#[trigger] after[a]).id
                != (#[trigger] after[b]).id by {
                if a < list.len() {
                    assert(after[a] == list[a]);
                }
                if b < list.len() {
                    assert(after[b] == list[b]);
                }
            }
            assert(after[list.len() as int].id == window);
        },
    }
}

/// A second redemption in the same window adds to the record that the
/// first one made: the list is as long as after the first, and the record
/// of the window holds both amounts.
pub proof fn lemma_second_withdraw_merges(
    list: Seq<WaitingWithdraw>,
    window: u64,
    first: u128,
    second: u128,
)
    requires
        unique_windows(list),
        window_position(list, window) matches Some(i) ==> list[i].amount + first + second
            <= u128::MAX,
        first + second <= u128::MAX,
    ensures
        merged(merged(list, window, first), window, second) == merged(
            list,
            window,
            (first + second) as u128,
        ),
        merged(merged(list, window, first), window, second).len() == merged(
            list,
            window,
            first,
        ).len(),
{
    let once = merged(list, window, first);
    lemma_merged_unique(list, window, first);
    let p = window_position(once, window)->0;
    assert(once[p].id == window);
    match window_position(list, window) {
        Some(i) => {
            assert(list[i].id == window);
            assert(once[i].id == window);
            assert(p == i);
            assert(merged(once, window, second) =~= merged(list, window, (first + second) as u128));
        },
        None => {
            if p < list.len() {
                assert(list[p].id == window);
            }
            assert(p == list.len());
            assert(merged(once, window, second) =~= merged(list, window, (first + second) as u128));
        },
    }
}

} // verus!
