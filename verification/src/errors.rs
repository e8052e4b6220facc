use vstd::prelude::*;

verus! {

/// Why an operation of the settlement core was rejected.
#[derive(Debug, Clone, Copy, PartialEq, Eq, Structural)]
pub enum ContractError {
    /// A key, validator or record that the operation needs is absent.
    NotFound,
    /// A page request starts beyond the last stored position.
    OutOfBounds,
    /// The store already holds as many entries as a position can address.
    CapacityExceeded,
    /// A key has the hash of another key that the store already holds.
    HashCollision,
    /// An amount does not fit the arithmetic that the operation performs.
    Overflow,
    /// The allocator holds no validator.
    EmptyValidatorSet,
    /// A validator still has cached stake and removal was not forced.
    StakeRemaining,
    /// A validator cannot have a weight of zero.
    InvalidWeight,
    /// An amount is below the minimum that the contract accepts.
    BelowMinimum,
    /// The kill switch forbids the operation in its present state.
    Frozen,
    /// The frozen exchange rate was asked for before it was stored.
    FrozenRateNotSet,
    /// The window cannot be advanced before its closing time.
    WindowNotClosed,
    /// A redemption arrived without a withdraw request attached.
    MissingWithdrawRequest,
    /// A user holds more than one record for a single window.
    DuplicateWithdraw,
    /// A stored byte does not name a variant of the enum it stands for.
    InvalidVariant,
    /// The kill switch cannot move from its present state to the one asked for.
    InvalidTransition,
    /// The sender is neither the administrator nor the contract itself.
    Unauthorized,
    /// Amounts that should be of one denomination are of several.
    MixedDenominations,
    /// A text that should be a number is not one.
    ParseError,
    /// A ratio has nothing to be divided by.
    DivisionByZero,
}

} // verus!
