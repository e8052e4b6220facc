use crate::user_withdraws::{WaitingWithdraw, WithdrawStore, user_key};
use crate::window_manager::WindowManager;
use vstd::prelude::*;

verus! {

/// A redemption as queries report it: what it is worth, who receives it,
/// and the time from which it can be claimed; zero while that time is
/// not fixed.
#[derive(Debug, Clone, PartialEq, Eq)]
pub struct PendingWithdraw {
    pub available_time: u64,
    pub receiver: String,
    pub coins: u128,
}

/// A redemption together with what is known of its maturity.
#[derive(Debug, Clone, PartialEq, Eq)]
pub struct PendingClaimsResponse {
    pub withdraw: PendingWithdraw,
    /// Whether the redemption has matured; unknown where the query gave
    /// no time or the redemption is in the open window.
    pub ready_for_claim: Option<bool>,
    pub in_current_window: bool,
}

/// What a query reports of one redemption, without the receiver.
pub struct PendingClaimView {
    pub coins: u128,
    pub available_time: u64,
    pub ready_for_claim: Option<bool>,
    pub in_current_window: bool,
}

/// The time from which a redemption of `window` can be claimed, zero
/// while it is not fixed.
pub open spec fn claimable_time(claim_times: Map<u64, u64>, window: u64) -> u64 {
    if claim_times.contains_key(window) {
        claim_times[window]
    } else {
        0
    }
}

/// What is reported of one redemption at `current_time`. A redemption
/// in the open window has no time and nothing is said of its maturity.
/// Any other has the claim time of its window and, where a time was
/// given, is reported as matured if the claim time is fixed, not zero,
/// and earlier than the time given.
pub open spec fn pending_claim(
    entry: WaitingWithdraw,
    active_window: u64,
    claim_times: Map<u64, u64>,
    current_time: Option<u64>,
) -> PendingClaimView {
    if entry.id == active_window {
        PendingClaimView {
            coins: entry.amount,
            available_time: 0,
            ready_for_claim: None,
            in_current_window: true,
        }
    } else {
        let time = claimable_time(claim_times, entry.id);
        PendingClaimView {
            coins: entry.amount,
            available_time: time,
            ready_for_claim: match current_time {
                Some(t) => Some(t > time && time != 0),
                None => None,
            },
            in_current_window: false,
        }
    }
}

/// The redemptions of `address` that wait to be claimed, oldest first,
/// each with the time from which it can be claimed and, where the query
/// gives a time, whether it has matured by then. Nothing is changed.
pub fn query_pending_claims(
    store: &WithdrawStore,
    window_manager: &WindowManager,
    address: &String,
    current_time: Option<u64>,
) -> (responses: Vec<PendingClaimsResponse>)
    requires
        store.wf(),
    ensures
        ({
            let list = store@.withdraws_of(user_key(address@));
            &&& responses@.len() == list.len()
            &&& forall|i: int|
                0 <= i < list.len() ==> {
                    let shown = #[trigger] responses@[i];
                    let expected = pending_claim(
                        list[i],
                        window_manager.current_active_window,
                        store@.claim_times,
                        current_time,
                    );
                    &&& shown.withdraw.receiver@ == address@
                    &&& shown.withdraw.coins == expected.coins
                    &&& shown.withdraw.available_time == expected.available_time
                    &&& shown.ready_for_claim == expected.ready_for_claim
                    &&& shown.in_current_window == expected.in_current_window
                }
        }),
{
    let pending_withdraws = store.all_waiting_withdraws_for_user(address);
    let mut responses: Vec<PendingClaimsResponse> = Vec::new();
    let mut i: usize = 0;
    while i < pending_withdraws.len()
        invariant
            i <= pending_withdraws@.len(),
            responses@.len() == i,
            forall|k: int|
                0 <= k < i ==> {
                    let shown = #[trigger] responses@[k];
                    let expected = pending_claim(
                        pending_withdraws@[k],
                        window_manager.current_active_window,
                        store@.claim_times,
                        current_time,
                    );
                    &&& shown.withdraw.receiver@ == address@
                    &&& shown.withdraw.coins == expected.coins
                    &&& shown.withdraw.available_time == expected.available_time
                    &&& shown.ready_for_claim == expected.ready_for_claim
                    &&& shown.in_current_window == expected.in_current_window
                },
        decreases pending_withdraws@.len() - i,
    {
        let w = pending_withdraws[i];
        let mut withdraw = PendingWithdraw {
            available_time: 0,
            receiver: address.clone(),
            coins: w.amount,
        };
        let in_current_window: bool = w.id == window_manager.current_active_window;
        let mut matured: Option<bool> = None;
        if !in_current_window {
            let claimable_time: u64 = match store.get_claim_time(w.id) {
                Some(t) => t,
                None => 0,
            };
            match current_time {
                Some(time) => {
                    matured = Some(time > claimable_time && claimable_time != 0);
                },
                None => {},
            }
            withdraw.available_time = claimable_time;
        }
        responses.push(PendingClaimsResponse { withdraw, ready_for_claim: matured, in_current_window });
        i = i + 1;
    }
    responses
}

/// Whether the reward for advancing the window can be had at `time`: the
/// open window has passed its closing time.
pub fn query_activation_fee(fee: u64, window_manager: &WindowManager, time: u64) -> (answer: (
    u64,
    bool,
))
    ensures
        answer.0 == fee,
        answer.1 == (window_manager.time_to_close_window < time),
{
    let is_available = window_manager.time_to_close_window < time;
    (fee, is_available)
}

/// The open window and the time at which it closes.
pub fn query_current_window(window_manager: &WindowManager) -> (answer: (u64, u64))
    ensures
        answer.0 == window_manager.current_active_window,
        answer.1 == window_manager.time_to_close_window,
{
    (window_manager.current_active_window, window_manager.time_to_close_window)
}

} // verus!
