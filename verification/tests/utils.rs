use secret_staking::config::{is_authorized, SharedWithdrawConfig};
use secret_staking::errors::ContractError;
use secret_staking::killswitch::KillSwitch;
use secret_staking::config::authorize;
use secret_staking::utils::{address_to_bytes, dec_to_uint, interest_rate, u64_to_bytes};
use secret_staking::voting::{ct_slice_compare, Proposal, Proposals, VoteOption, VoteTotals};

#[test]
fn u64_to_bytes_is_big_endian() {
    assert_eq!(u64_to_bytes(&0), [0u8; 8]);
    assert_eq!(u64_to_bytes(&1), [0, 0, 0, 0, 0, 0, 0, 1]);
    assert_eq!(u64_to_bytes(&0x0102_0304_0506_0708), [1, 2, 3, 4, 5, 6, 7, 8]);
    assert_eq!(u64_to_bytes(&u64::MAX), [255u8; 8]);
    assert_eq!(u64_to_bytes(&513), 513u64.to_be_bytes());
}

#[test]
fn address_to_bytes_is_utf8() {
    assert_eq!(address_to_bytes(&"abc".to_string()), b"abc");
    assert_eq!(address_to_bytes(&"".to_string()), b"");
}

#[test]
fn dec_to_uint_parses_whole_numbers() {
    assert_eq!(dec_to_uint("123".to_string()), Ok(123));
    assert_eq!(dec_to_uint("0".to_string()), Ok(0));
    assert_eq!(dec_to_uint("0.15".to_string()), Err(ContractError::ParseError));
    assert_eq!(dec_to_uint("x".to_string()), Err(ContractError::ParseError));
}

#[test]
fn interest_rate_divides_inflation_by_bonded_ratio() {
    assert_eq!(interest_rate("15".to_string(), "4".to_string()), Ok(3));
    assert_eq!(interest_rate("15".to_string(), "0".to_string()), Err(ContractError::DivisionByZero));
    assert_eq!(interest_rate("x".to_string(), "4".to_string()), Err(ContractError::ParseError));
    assert_eq!(interest_rate("15".to_string(), "".to_string()), Err(ContractError::ParseError));
}

#[test]
fn kill_switch_bytes() {
    assert_eq!(KillSwitch::try_from(0), Ok(KillSwitch::Closed));
    assert_eq!(KillSwitch::try_from(1), Ok(KillSwitch::Unbonding));
    assert_eq!(KillSwitch::try_from(2), Ok(KillSwitch::Open));
    assert_eq!(KillSwitch::try_from(3), Err(ContractError::InvalidVariant));
    assert_eq!(KillSwitch::Closed.into(), 0);
    assert_eq!(KillSwitch::Unbonding.into(), 1);
    assert_eq!(KillSwitch::Open.into(), 2);
}

#[test]
fn kill_switch_only_moves_forward() {
    assert_eq!(KillSwitch::Closed.begin_unbonding(), Ok(KillSwitch::Unbonding));
    assert_eq!(KillSwitch::Unbonding.begin_unbonding(), Err(ContractError::InvalidTransition));
    assert_eq!(KillSwitch::Open.begin_unbonding(), Err(ContractError::InvalidTransition));
    assert_eq!(KillSwitch::Unbonding.open_withdraws(), Ok(KillSwitch::Open));
    assert_eq!(KillSwitch::Closed.open_withdraws(), Err(ContractError::InvalidTransition));
    assert_eq!(KillSwitch::Open.open_withdraws(), Err(ContractError::InvalidTransition));
}

#[test]
fn shared_withdraw_config_bytes() {
    assert_eq!(SharedWithdrawConfig::try_from(0), Ok(SharedWithdrawConfig::Disabled));
    assert_eq!(SharedWithdrawConfig::try_from(1), Ok(SharedWithdrawConfig::Withdraws));
    assert_eq!(SharedWithdrawConfig::try_from(2), Ok(SharedWithdrawConfig::Deposits));
    assert_eq!(SharedWithdrawConfig::try_from(3), Ok(SharedWithdrawConfig::All));
    assert_eq!(SharedWithdrawConfig::try_from(4), Err(ContractError::InvalidVariant));
    assert_eq!(SharedWithdrawConfig::All.into(), 3);
    assert_eq!(SharedWithdrawConfig::Disabled.into(), 0);
}

#[test]
fn admin_and_contract_are_authorized() {
    let admin = "admin".to_string();
    let contract = "contract".to_string();
    assert!(is_authorized(&admin, &contract, &"admin".to_string()));
    assert!(is_authorized(&admin, &contract, &"contract".to_string()));
    assert!(!is_authorized(&admin, &contract, &"mallory".to_string()));
    assert_eq!(authorize(&admin, &contract, &"admin".to_string()), Ok(()));
    assert_eq!(
        authorize(&admin, &contract, &"mallory".to_string()),
        Err(ContractError::Unauthorized)
    );
}

#[test]
fn proposals_contains_looks_for_the_id() {
    let list = Proposals {
        proposals: vec![
            Proposal { proposal_id: 3, start_time: 0, end_time: 10 },
            Proposal { proposal_id: 9, start_time: 5, end_time: 15 },
        ],
    };
    assert!(list.contains(&3));
    assert!(list.contains(&9));
    assert!(!list.contains(&4));
    assert!(!Proposals { proposals: vec![] }.contains(&0));
}

#[test]
fn vote_totals_pick_the_winner() {
    let mut totals = VoteTotals::new();
    assert_eq!(totals.winner(), VoteOption::Yes);
    totals.change(VoteOption::No, 5, true);
    assert_eq!(totals.winner(), VoteOption::No);
    totals.change(VoteOption::Abstain, 5, true);
    assert_eq!(totals.winner(), VoteOption::Abstain);
    totals.change(VoteOption::NoWithVeto, 6, true);
    assert_eq!(totals.winner(), VoteOption::NoWithVeto);
    totals.change(VoteOption::Yes, 6, true);
    assert_eq!(totals.winner(), VoteOption::Yes);
}

#[test]
fn vote_totals_saturate() {
    let mut totals = VoteTotals::new();
    totals.change(VoteOption::Yes, 5, false);
    assert_eq!(totals.yes, 0);
    totals.change(VoteOption::Yes, u128::MAX, true);
    totals.change(VoteOption::Yes, 1, true);
    assert_eq!(totals.yes, u128::MAX);
    totals.change(VoteOption::Yes, 10, false);
    assert_eq!(totals.yes, u128::MAX - 10);
    assert_eq!(totals.no, 0);
}

#[test]
fn ct_slice_compare_says_whether_slices_are_equal() {
    assert!(ct_slice_compare(b"password", b"password"));
    assert!(!ct_slice_compare(b"password", b"passw0rd"));
    assert!(!ct_slice_compare(b"password", b"pass"));
    assert!(ct_slice_compare(b"", b""));
}
