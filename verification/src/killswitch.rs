use crate::errors::ContractError;
use vstd::prelude::*;

verus! {

/// The safety switch of the contract. `Closed` is normal operation.
/// `Unbonding` has frozen the exchange rate and is unwinding every
/// delegation. `Open` pays redemptions at the frozen rate. The switch only
/// ever moves forward.
#[derive(Debug, Clone, Copy, PartialEq, Eq, Structural)]
pub enum KillSwitch {
    Closed,
    Unbonding,
    Open,
}

impl KillSwitch {
    /// The byte under which a state is stored.
    pub open spec fn spec_to_u8(self) -> u8 {
        match self {
            KillSwitch::Closed => 0,
            KillSwitch::Unbonding => 1,
            KillSwitch::Open => 2,
        }
    }

    /// How far the switch has moved: every transition raises the rank.
    pub open spec fn rank(self) -> nat {
        self.spec_to_u8() as nat
    }

    /// The state that a stored byte stands for.
    pub fn try_from(other: u8) -> (state: Result<KillSwitch, ContractError>)
        ensures
            match state {
                Ok(s) => s.spec_to_u8() == other,
                Err(e) => e == ContractError::InvalidVariant && other > 2,
            },
    {
        match other {
            0 => Ok(KillSwitch::Closed),
            1 => Ok(KillSwitch::Unbonding),
            2 => Ok(KillSwitch::Open),
            _ => Err(ContractError::InvalidVariant),
        }
    }

    /// The byte under which the state is stored.
    pub fn into(self) -> (byte: u8)
        ensures
            byte == self.spec_to_u8(),
    {
        match self {
            KillSwitch::Closed => 0u8,
            KillSwitch::Unbonding => 1u8,
            KillSwitch::Open => 2u8,
        }
    }

    /// Starts the unwinding: only a closed switch can begin to unbond.
    pub fn begin_unbonding(self) -> (next: Result<KillSwitch, ContractError>)
        ensures
            self == KillSwitch::Closed ==> next == Ok::<KillSwitch, ContractError>(
                KillSwitch::Unbonding,
            ),
            self != KillSwitch::Closed ==> next == Err::<KillSwitch, ContractError>(
                ContractError::InvalidTransition,
            ),
    {
        match self {
            KillSwitch::Closed => Ok(KillSwitch::Unbonding),
            _ => Err(ContractError::InvalidTransition),
        }
    }

    /// Opens redemption at the frozen rate: only an unbonding switch can
    /// be opened.
    pub fn open_withdraws(self) -> (next: Result<KillSwitch, ContractError>)
        ensures
            self == KillSwitch::Unbonding ==> next == Ok::<KillSwitch, ContractError>(
                KillSwitch::Open,
            ),
            self != KillSwitch::Unbonding ==> next == Err::<KillSwitch, ContractError>(
                ContractError::InvalidTransition,
            ),
    {
        match self {
            KillSwitch::Unbonding => Ok(KillSwitch::Open),
            _ => Err(ContractError::InvalidTransition),
        }
    }
}

/// Stored bytes and states correspond one to one.
pub proof fn lemma_kill_switch_byte_round_trip(state: KillSwitch, other: KillSwitch)
    ensures
        state.spec_to_u8() <= 2,
        state.spec_to_u8() == other.spec_to_u8() ==> state == other,
{
}

/// A transition moves the switch one step forward, so no sequence of
/// transitions leads back to `Closed`.
pub proof fn lemma_kill_switch_one_way(state: KillSwitch, next: KillSwitch)
    requires
        (state == KillSwitch::Closed && next == KillSwitch::Unbonding) || (state
            == KillSwitch::Unbonding && next == KillSwitch::Open),
    ensures
        next.rank() == state.rank() + 1,
        next != KillSwitch::Closed,
{
}

} // verus!
