use vstd::prelude::*;

verus! {

/// An instruction that the contract hands to the ledger, the staking module
/// or the derivative token. Instructions are carried out after the
/// invocation that emitted them, in the order in which they were emitted.
#[derive(Debug, Clone, PartialEq, Eq)]
pub enum Instruction {
    /// Delegate native coin to a validator.
    Delegate { validator: String, amount: u128 },
    /// Start unbonding native coin from a validator.
    Undelegate { validator: String, amount: u128 },
    /// Move a delegation from one validator to another.
    Redelegate { src_validator: String, dst_validator: String, amount: u128 },
    /// Collect the rewards that accrued at a validator.
    WithdrawRewards { validator: String },
    /// Pay native coin out of the contract's balance.
    Send { to_address: String, amount: u128 },
    /// Issue derivative tokens to an account.
    Mint { recipient: String, amount: u128 },
    /// Destroy derivative tokens that the contract received.
    Burn { amount: u128 },
}

/// What an instruction says, with every address as its characters.
pub enum InstructionView {
    Delegate { validator: Seq<char>, amount: u128 },
    Undelegate { validator: Seq<char>, amount: u128 },
    Redelegate { src_validator: Seq<char>, dst_validator: Seq<char>, amount: u128 },
    WithdrawRewards { validator: Seq<char> },
    Send { to_address: Seq<char>, amount: u128 },
    Mint { recipient: Seq<char>, amount: u128 },
    Burn { amount: u128 },
}

impl View for Instruction {
    type V = InstructionView;

    open spec fn view(&self) -> InstructionView {
        match *self {
            Instruction::Delegate { validator, amount } => InstructionView::Delegate {
                validator: validator@,
                amount,
            },
            Instruction::Undelegate { validator, amount } => InstructionView::Undelegate {
                validator: validator@,
                amount,
            },
            Instruction::Redelegate {
                src_validator,
                dst_validator,
                amount,
            } => InstructionView::Redelegate {
                src_validator: src_validator@,
                dst_validator: dst_validator@,
                amount,
            },
            Instruction::WithdrawRewards { validator } => InstructionView::WithdrawRewards {
                validator: validator@,
            },
            Instruction::Send { to_address, amount } => InstructionView::Send {
                to_address: to_address@,
                amount,
            },
            Instruction::Mint { recipient, amount } => InstructionView::Mint {
                recipient: recipient@,
                amount,
            },
            Instruction::Burn { amount } => InstructionView::Burn { amount },
        }
    }
}

/// What a list of instructions says, in order.
pub open spec fn instruction_views(list: Seq<Instruction>) -> Seq<InstructionView> {
    Seq::new(list.len(), |i: int| list[i]@)
}

/// The instruction that collects the rewards of one validator.
pub fn withdraw_to_self(validator: &str) -> (msg: Instruction)
    ensures
        msg@ == (InstructionView::WithdrawRewards { validator: validator@ }),
{
    Instruction::WithdrawRewards { validator: validator.to_owned() }
}

/// The instruction that delegates `amount` to a validator.
pub fn stake_msg(validator: &str, amount: u128) -> (msg: Instruction)
    ensures
        msg@ == (InstructionView::Delegate { validator: validator@, amount }),
{
    Instruction::Delegate { validator: validator.to_owned(), amount }
}

/// The instruction that starts unbonding `amount` from a validator.
pub fn undelegate_msg(validator: &str, amount: u128) -> (msg: Instruction)
    ensures
        msg@ == (InstructionView::Undelegate { validator: validator@, amount }),
{
    Instruction::Undelegate { validator: validator.to_owned(), amount }
}

/// The instruction that moves `amount` from one validator to another.
pub fn redelegate_msg(from: &str, to: &str, amount: u128) -> (msg: Instruction)
    ensures
        msg@ == (InstructionView::Redelegate {
            src_validator: from@,
            dst_validator: to@,
            amount,
        }),
{
    Instruction::Redelegate {
        src_validator: from.to_owned(),
        dst_validator: to.to_owned(),
        amount,
    }
}

/// The instruction that pays `amount` of native coin to an account.
pub fn send_msg(to_address: &str, amount: u128) -> (msg: Instruction)
    ensures
        msg@ == (InstructionView::Send { to_address: to_address@, amount }),
{
    Instruction::Send { to_address: to_address.to_owned(), amount }
}

} // verus!
