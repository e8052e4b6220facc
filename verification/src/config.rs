use crate::errors::ContractError;
use vstd::prelude::*;

verus! {

/// Number of users that a deposit or a redemption pays on the side.
pub const AMOUNT_OF_SHARED_WITHDRAWS: u32 = 5;

/// Number of validators whose rewards a deposit collects.
pub const AMOUNT_OF_REWARDS_TO_HANDLE: u32 = 2;

/// The unbonding delay that a new contract starts with.
pub const UNBONDING_TIME: u64 = 80;

/// The smallest deposit, in units of native coin.
pub const MINIMUM_DEPOSIT: u128 = 1_000_000;

/// The smallest redemption, in units of native coin.
pub const MINIMUM_WITHDRAW: u128 = 1_000_000;

/// The settings of the contract.
#[derive(Debug, Clone, PartialEq, Eq)]
pub struct Config {
    pub symbol: String,
    pub admin: String,
    pub token_contract: String,
    pub token_contract_hash: String,
    pub gov_token: String,
    pub gov_token_hash: String,
    pub voting_admin: String,
    pub unbonding_time: u64,
    pub viewing_key: String,
    pub kill_switch: u8,
    pub dev_address: String,
    /// Parts per hundred thousand of every deposit.
    pub dev_fee: u64,
    pub shared_withdrawals: u8,
}

/// How the fee that rewards a window advance is skimmed: `fee` parts per
/// hundred thousand of the developer fee, at most `max` per deposit.
#[derive(Debug, Clone, Copy, PartialEq, Eq, Structural)]
pub struct ActivationFeeConfig {
    pub fee: u64,
    pub max: u64,
}

/// Which operations pay matured redemptions of other users on the side.
#[derive(Debug, Clone, Copy, PartialEq, Eq, Structural)]
pub enum SharedWithdrawConfig {
    Disabled,
    Withdraws,
    Deposits,
    All,
}

impl SharedWithdrawConfig {
    /// The byte under which a setting is stored.
    pub open spec fn spec_to_u8(self) -> u8 {
        match self {
            SharedWithdrawConfig::Disabled => 0,
            SharedWithdrawConfig::Withdraws => 1,
            SharedWithdrawConfig::Deposits => 2,
            SharedWithdrawConfig::All => 3,
        }
    }

    /// The setting that a stored byte stands for.
    pub fn try_from(other: u8) -> (setting: Result<SharedWithdrawConfig, ContractError>)
        ensures
            match setting {
                Ok(s) => s.spec_to_u8() == other,
                Err(e) => e == ContractError::InvalidVariant && other > 3,
            },
    {
        match other {
            0 => Ok(Self::Disabled),
            1 => Ok(Self::Withdraws),
            2 => Ok(Self::Deposits),
            3 => Ok(Self::All),
            _ => Err(ContractError::InvalidVariant),
        }
    }

    /// The byte under which the setting is stored.
    pub fn into(self) -> (byte: u8)
        ensures
            byte == self.spec_to_u8(),
    {
        match self {
            Self::Disabled => 0u8,
            Self::Withdraws => 1u8,
            Self::Deposits => 2u8,
            Self::All => 3u8,
        }
    }
}

/// Whether the sender may run administrator commands: the administrator
/// may, and so may the contract itself.
pub fn is_authorized(admin: &String, contract_address: &String, sender: &String) -> (allowed: bool)
    ensures
        allowed == (admin@ == sender@ || contract_address@ == sender@),
{
    *admin == *sender || *contract_address == *sender
}

/// Lets the administrator and the contract itself pass and rejects
/// everybody else.
pub fn authorize(admin: &String, contract_address: &String, sender: &String) -> (allowed: Result<
    (),
    ContractError,
>)
    ensures
        allowed == if admin@ == sender@ || contract_address@ == sender@ {
            Ok::<(), ContractError>(())
        } else {
            Err::<(), ContractError>(ContractError::Unauthorized)
        },
{
    if is_authorized(admin, contract_address, sender) {
        Ok(())
    } else {
        Err(ContractError::Unauthorized)
    }
}

/// A message from the derivative token that accompanies tokens sent for
/// redemption.
#[derive(Debug, Clone, Copy, PartialEq, Eq, Structural)]
pub enum WithdrawRequest {
    Withdraw,
}

} // verus!
