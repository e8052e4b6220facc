use secret_staking::claim::{
    claim_multiple_withdraws, claim_withdraws_for_sender, do_claim, has_unique_windows,
};
use secret_staking::errors::ContractError;
use secret_staking::queries::{query_activation_fee, query_current_window, query_pending_claims};
use secret_staking::staking::Instruction;
use secret_staking::user_withdraws::{
    copy_withdraws, find_address, find_window, take_off, UserWithdrawManager, UserWithdraws,
    WaitingWithdraw, WithdrawStore,
};
use secret_staking::validator_set::{Validator, ValidatorSet};
use secret_staking::window::advance_window;
use secret_staking::window_manager::{
    check_window_advance, WindowManager, WithdrawWindow, WINDOW_TIME,
};
use secret_staking::withdraw::{perform_window_unbond, unbond};

fn user(name: &str) -> String {
    name.to_string()
}

fn send(to: &str, amount: u128) -> Instruction {
    Instruction::Send { to_address: to.to_string(), amount }
}

fn validators() -> ValidatorSet {
    ValidatorSet::from_validators(vec![
        Validator { address: "v1".to_string(), staked: 1500, weight: 10 },
        Validator { address: "v2".to_string(), staked: 1000, weight: 10 },
    ])
}

#[test]
fn second_withdraw_in_a_window_merges() {
    let mut store = WithdrawStore::new();
    let mut manager = WindowManager::new(20);
    let alice = user("alice");
    assert_eq!(manager.withdraw(&mut store, &alice, 700), Ok(()));
    assert_eq!(manager.withdraw(&mut store, &alice, 300), Ok(()));
    assert_eq!(
        store.all_waiting_withdraws_for_user(&alice),
        vec![WaitingWithdraw { id: 0, amount: 1000 }]
    );
    assert_eq!(manager.window.coins, 1000);
    assert_eq!(store.user_withdraws().len(), 1);
}

#[test]
fn withdraws_in_different_windows_get_their_own_records() {
    let mut store = WithdrawStore::new();
    let mut manager = WindowManager::new(20);
    let alice = user("alice");
    manager.withdraw(&mut store, &alice, 700).unwrap();
    assert_eq!(manager.advance_window(20), Ok(700));
    manager.withdraw(&mut store, &alice, 300).unwrap();
    let list = store.all_waiting_withdraws_for_user(&alice);
    assert_eq!(
        list,
        vec![WaitingWithdraw { id: 0, amount: 700 }, WaitingWithdraw { id: 1, amount: 300 }]
    );
    assert!(has_unique_windows(&list));
    assert_eq!(find_window(&list, 1), Some(1));
    assert_eq!(find_window(&list, 2), None);
    assert_eq!(UserWithdraws(copy_withdraws(&list)).position(&0), Some(0));
}

#[test]
fn withdraw_overflow_is_reported_and_changes_nothing() {
    let mut store = WithdrawStore::new();
    let mut manager = WindowManager::new(20);
    let alice = user("alice");
    manager.withdraw(&mut store, &alice, u128::MAX).unwrap();
    assert_eq!(manager.withdraw(&mut store, &alice, 1), Err(ContractError::Overflow));
    assert_eq!(manager.window.coins, u128::MAX);
    assert_eq!(
        store.all_waiting_withdraws_for_user(&alice),
        vec![WaitingWithdraw { id: 0, amount: u128::MAX }]
    );
}

#[test]
fn advance_window_needs_the_closing_time() {
    let mut manager = WindowManager::new(20);
    assert!(!check_window_advance(19, &manager));
    assert!(check_window_advance(20, &manager));
    assert_eq!(manager.advance_window(19), Err(ContractError::WindowNotClosed));
    assert_eq!(manager, WindowManager::new(20));
    assert_eq!(manager.advance_window(25), Ok(0));
    assert_eq!(
        manager,
        WindowManager {
            current_active_window: 1,
            time_to_close_window: 20 + WINDOW_TIME,
            window: WithdrawWindow { coins: 0 },
        }
    );
    assert_eq!(WINDOW_TIME, 20);
    let mut last = WindowManager::new(u64::MAX - 5);
    assert_eq!(last.advance_window(u64::MAX), Err(ContractError::Overflow));
    assert_eq!(last, WindowManager::new(u64::MAX - 5));
}

#[test]
fn a_late_advance_moves_the_closing_time_by_one_window() {
    let mut manager = WindowManager {
        current_active_window: 0,
        time_to_close_window: 20,
        window: WithdrawWindow { coins: 2000 },
    };
    assert_eq!(manager.advance_window(35), Ok(2000));
    assert_eq!(manager.current_active_window, 1);
    assert_eq!(manager.window.coins, 0);
    assert_eq!(manager.time_to_close_window, 40);
}

#[test]
fn withdraw_lists_the_user_once() {
    let mut store = WithdrawStore::new();
    let mut manager = WindowManager::new(20);
    manager.withdraw(&mut store, &user("alice"), 5).unwrap();
    manager.withdraw(&mut store, &user("bob"), 6).unwrap();
    manager.withdraw(&mut store, &user("alice"), 7).unwrap();
    assert_eq!(UserWithdrawManager::new(0).users(&store), vec![user("alice"), user("bob")]);
    assert_eq!(UserWithdrawManager::new(1).len(&store), 0);
    assert_eq!(manager.advance_window(20), Ok(18));
    manager.withdraw(&mut store, &user("bob"), 1).unwrap();
    assert_eq!(UserWithdrawManager::new(1).users(&store), vec![user("bob")]);
    assert_eq!(UserWithdrawManager::new(0).len(&store), 2);
}

#[test]
fn window_scenario_withdraw_advance_claim() {
    // window duration 20, unbonding delay 80
    let mut store = WithdrawStore::new();
    let mut set = validators();
    let mut manager = WindowManager::new(20);
    let alice = user("alice");

    // a withdraw of 2,000 inside window 0
    manager.withdraw(&mut store, &alice, 2000).unwrap();
    assert_eq!(UserWithdrawManager::new(0).users(&store), vec![user("alice")]);
    assert_eq!(manager.current_active_window, 0);

    // before the closing time nothing can be advanced
    assert_eq!(
        perform_window_unbond(&mut store, &mut set, &mut manager, 19, 80).err(),
        Some(ContractError::WindowNotClosed)
    );

    // time advances by 20: the window closes and 2,000 is unbonded in all
    let messages = perform_window_unbond(&mut store, &mut set, &mut manager, 20, 80).unwrap();
    assert_eq!(manager.current_active_window, 1);
    assert_eq!(manager.window.coins, 0);
    assert_eq!(manager.time_to_close_window, 40);
    assert_eq!(
        messages,
        vec![
            Instruction::Undelegate { validator: "v1".to_string(), amount: 1500 },
            Instruction::Undelegate { validator: "v2".to_string(), amount: 500 },
        ]
    );
    assert_eq!(store.get_claim_time(0), Some(100));
    assert_eq!(store.get_claim_time(1), None);

    // a claim before the claim time has no effect
    let early = claim_withdraws_for_sender(&mut store, manager.current_active_window, &alice, 99)
        .unwrap();
    assert_eq!(early.total, 0);
    assert!(early.messages.is_empty());
    assert_eq!(
        store.all_waiting_withdraws_for_user(&alice),
        vec![WaitingWithdraw { id: 0, amount: 2000 }]
    );
    assert_eq!(UserWithdrawManager::new(0).len(&store), 1);

    // after it the claim yields 2,000, once
    let paid = claim_withdraws_for_sender(&mut store, manager.current_active_window, &alice, 100)
        .unwrap();
    assert_eq!(paid.total, 2000);
    assert_eq!(paid.messages, vec![send("alice", 2000)]);
    assert!(store.all_waiting_withdraws_for_user(&alice).is_empty());
    assert_eq!(UserWithdrawManager::new(0).len(&store), 0);

    let again = claim_withdraws_for_sender(&mut store, manager.current_active_window, &alice, 500)
        .unwrap();
    assert_eq!(again.total, 0);
    assert!(again.messages.is_empty());
}

#[test]
fn claim_skips_the_open_window_and_unset_claim_times() {
    let mut store = WithdrawStore::new();
    let alice = user("alice");
    store
        .set_withdraws_for_user(
            &alice,
            vec![
                WaitingWithdraw { id: 0, amount: 10 },
                WaitingWithdraw { id: 1, amount: 20 },
                WaitingWithdraw { id: 2, amount: 30 },
                WaitingWithdraw { id: 3, amount: 40 },
            ],
        )
        .unwrap();
    store.set_claim_time(0, 50);
    store.set_claim_time(1, 0);
    store.set_claim_time(3, 50);
    // window 3 is open, window 1 has a zero claim time, window 2 has none
    let paid = claim_withdraws_for_sender(&mut store, 3, &alice, 60).unwrap();
    assert_eq!(paid.total, 10);
    assert_eq!(paid.messages, vec![send("alice", 10)]);
    assert_eq!(
        store.all_waiting_withdraws_for_user(&alice),
        vec![
            WaitingWithdraw { id: 1, amount: 20 },
            WaitingWithdraw { id: 2, amount: 30 },
            WaitingWithdraw { id: 3, amount: 40 },
        ]
    );
}

#[test]
fn claim_rejects_duplicate_records() {
    let mut store = WithdrawStore::new();
    let alice = user("alice");
    let list = vec![WaitingWithdraw { id: 0, amount: 10 }, WaitingWithdraw { id: 0, amount: 20 }];
    assert!(!has_unique_windows(&list));
    store.set_withdraws_for_user(&alice, list).unwrap();
    store.set_claim_time(0, 50);
    assert_eq!(
        claim_withdraws_for_sender(&mut store, 1, &alice, 60).err(),
        Some(ContractError::DuplicateWithdraw)
    );
    assert_eq!(do_claim(&mut store, 0, &alice).err(), Some(ContractError::DuplicateWithdraw));
    assert_eq!(
        store.get_withdraw_for_user(&alice, 0),
        Err(ContractError::DuplicateWithdraw)
    );
    assert_eq!(store.get_withdraw_for_user(&alice, 1), Ok(None));
}

#[test]
fn claim_reports_a_sum_that_does_not_fit() {
    let mut store = WithdrawStore::new();
    let alice = user("alice");
    let list =
        vec![WaitingWithdraw { id: 0, amount: u128::MAX }, WaitingWithdraw { id: 1, amount: 1 }];
    store.set_withdraws_for_user(&alice, list.clone()).unwrap();
    store.set_claim_time(0, 50);
    store.set_claim_time(1, 50);
    assert_eq!(
        claim_withdraws_for_sender(&mut store, 2, &alice, 60).err(),
        Some(ContractError::Overflow)
    );
    assert_eq!(store.all_waiting_withdraws_for_user(&alice), list);
}

#[test]
fn get_withdraw_for_user_takes_the_record_out() {
    let mut store = WithdrawStore::new();
    let alice = user("alice");
    store
        .set_withdraws_for_user(
            &alice,
            vec![WaitingWithdraw { id: 0, amount: 10 }, WaitingWithdraw { id: 1, amount: 20 }],
        )
        .unwrap();
    assert_eq!(store.get_withdraw_for_user(&alice, 1), Ok(Some(20)));
    assert_eq!(store.get_withdraw_for_user(&alice, 1), Ok(None));
    assert_eq!(
        store.all_waiting_withdraws_for_user(&alice),
        vec![WaitingWithdraw { id: 0, amount: 10 }]
    );
    assert_eq!(store.get_withdraw_for_user(&user("bob"), 0), Ok(None));
}

#[test]
fn withdrawer_index_appends_once_and_pops_from_the_back() {
    let mut store = WithdrawStore::new();
    let manager = UserWithdrawManager::new(7);
    assert_eq!(manager.len(&store), 0);
    manager.append(&mut store, &user("a"));
    manager.append(&mut store, &user("b"));
    manager.append(&mut store, &user("a"));
    manager.append(&mut store, &user("c"));
    assert_eq!(manager.len(&store), 3);
    assert_eq!(manager.get_many(&mut store, 0), Vec::<String>::new());
    assert_eq!(manager.get_many(&mut store, 2), vec![user("c"), user("b")]);
    assert_eq!(manager.len(&store), 1);
    assert_eq!(manager.get_many(&mut store, 5), vec![user("a")]);
    assert_eq!(manager.len(&store), 0);
    assert_eq!(UserWithdrawManager::new(8).get_many(&mut store, 5), Vec::<String>::new());
}

#[test]
fn remove_address_fills_the_gap_with_the_last() {
    let mut store = WithdrawStore::new();
    let mut manager = UserWithdrawManager::new(7);
    for name in ["a", "b", "c", "d"] {
        manager.append(&mut store, &user(name));
    }
    assert!(manager.remove_address(&mut store, &user("b")));
    assert!(!manager.remove_address(&mut store, &user("z")));
    assert_eq!(manager.get_many(&mut store, 9), vec![user("c"), user("d"), user("a")]);

    let mut list = vec![user("a"), user("b")];
    assert_eq!(find_address(&list, &user("b")), Some(1));
    assert!(take_off(&mut list, &user("b")));
    assert_eq!(list, vec![user("a")]);
    assert!(!take_off(&mut list, &user("b")));
}

#[test]
fn batch_claims_pay_the_oldest_window_and_move_on() {
    let mut store = WithdrawStore::new();
    let mut manager = WindowManager::new(20);
    for (name, amount) in [("a", 10u128), ("b", 20), ("c", 30)] {
        manager.withdraw(&mut store, &user(name), amount).unwrap();
    }
    // no claim time yet: nothing happens
    let idle = claim_multiple_withdraws(&mut store, 1000, 5).unwrap();
    assert_eq!(idle.total, 0);
    assert_eq!(store.get_active_withdraw_window(), 0);

    store.set_claim_time(0, 100);
    // too early: nothing happens
    let early = claim_multiple_withdraws(&mut store, 99, 5).unwrap();
    assert_eq!(early.total, 0);
    assert!(early.messages.is_empty());
    assert_eq!(UserWithdrawManager::new(0).len(&store), 3);

    let first = claim_multiple_withdraws(&mut store, 100, 2).unwrap();
    assert_eq!(first.total, 50);
    assert_eq!(first.messages, vec![send("c", 30), send("b", 20)]);
    assert_eq!(store.get_active_withdraw_window(), 0);
    assert_eq!(UserWithdrawManager::new(0).len(&store), 1);

    let second = claim_multiple_withdraws(&mut store, 100, 2).unwrap();
    assert_eq!(second.total, 10);
    assert_eq!(second.messages, vec![send("a", 10)]);
    assert_eq!(store.get_active_withdraw_window(), 1);
    assert!(store.all_waiting_withdraws_for_user(&user("a")).is_empty());
}

#[test]
fn unbond_walks_the_validators_until_the_amount_is_met() {
    let mut set = validators();
    let messages = unbond(&mut set, 2200);
    assert_eq!(
        messages,
        vec![
            Instruction::Undelegate { validator: "v1".to_string(), amount: 1500 },
            Instruction::Undelegate { validator: "v2".to_string(), amount: 700 },
        ]
    );
    assert_eq!(set.validators()[0].staked, 300);
    assert_eq!(set.validators()[1].staked, 0);

    // under-capitalised validators are unbonded in full, without an error
    let rest = unbond(&mut set, 1000);
    assert_eq!(rest, vec![Instruction::Undelegate { validator: "v2".to_string(), amount: 300 }]);
    assert!(unbond(&mut set, 1000).is_empty());
    assert!(unbond(&mut ValidatorSet::new(), 1000).is_empty());
    assert!(unbond(&mut validators(), 0).is_empty());
}

#[test]
fn advance_window_pays_the_activation_fee() {
    let mut store = WithdrawStore::new();
    let mut set = validators();
    let mut manager = WindowManager::new(20);
    let mut fee: u64 = 77;
    manager.withdraw(&mut store, &user("alice"), 100).unwrap();
    assert_eq!(
        advance_window(&mut store, &mut set, &mut manager, &mut fee, 5, 80, &user("bob")).err(),
        Some(ContractError::WindowNotClosed)
    );
    assert_eq!(fee, 77);
    let messages =
        advance_window(&mut store, &mut set, &mut manager, &mut fee, 30, 80, &user("bob")).unwrap();
    assert_eq!(
        messages,
        vec![
            Instruction::Undelegate { validator: "v1".to_string(), amount: 100 },
            send("bob", 77),
        ]
    );
    assert_eq!(fee, 0);
    assert_eq!(store.get_claim_time(0), Some(110));
    assert_eq!(manager.time_to_close_window, 40);
    let empty = advance_window(&mut store, &mut set, &mut manager, &mut fee, 50, 80, &user("bob"))
        .unwrap();
    assert!(empty.is_empty());
}

#[test]
fn pending_claims_report_maturity() {
    let mut store = WithdrawStore::new();
    let alice = user("alice");
    store
        .set_withdraws_for_user(
            &alice,
            vec![
                WaitingWithdraw { id: 0, amount: 10 },
                WaitingWithdraw { id: 1, amount: 20 },
                WaitingWithdraw { id: 2, amount: 30 },
            ],
        )
        .unwrap();
    store.set_claim_time(0, 100);
    let manager = WindowManager {
        current_active_window: 2,
        time_to_close_window: 60,
        window: WithdrawWindow { coins: 30 },
    };
    let at_100 = query_pending_claims(&store, &manager, &alice, Some(100));
    assert_eq!(at_100.len(), 3);
    assert_eq!(at_100[0].withdraw.available_time, 100);
    assert_eq!(at_100[0].withdraw.coins, 10);
    assert_eq!(at_100[0].withdraw.receiver, "alice");
    assert_eq!(at_100[0].ready_for_claim, Some(false));
    assert_eq!(at_100[1].withdraw.available_time, 0);
    assert_eq!(at_100[1].ready_for_claim, Some(false));
    assert!(!at_100[1].in_current_window);
    assert_eq!(at_100[2].ready_for_claim, None);
    assert!(at_100[2].in_current_window);
    assert_eq!(at_100[2].withdraw.available_time, 0);
    let at_101 = query_pending_claims(&store, &manager, &alice, Some(101));
    assert_eq!(at_101[0].ready_for_claim, Some(true));
    let untimed = query_pending_claims(&store, &manager, &alice, None);
    assert_eq!(untimed[0].ready_for_claim, None);
    assert_eq!(untimed[0].withdraw.available_time, 100);
    assert!(query_pending_claims(&store, &manager, &user("bob"), Some(5)).is_empty());

    assert_eq!(query_activation_fee(9, &manager, 60), (9, false));
    assert_eq!(query_activation_fee(9, &manager, 61), (9, true));
    assert_eq!(query_current_window(&manager), (2, 60));
}
