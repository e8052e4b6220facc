use vstd::prelude::*;

verus! {

/// Whether an answer reports success.
#[derive(Debug, Clone, Copy, PartialEq, Eq, Structural)]
pub enum ResponseStatus {
    Success,
    Failure,
}

/// A proposal that is put to the vote between two times.
#[derive(Debug, Clone, Copy, PartialEq, Eq, Structural)]
pub struct Proposal {
    pub proposal_id: u64,
    pub start_time: u64,
    pub end_time: u64,
}

/// A list of proposals.
#[derive(Debug, Clone, PartialEq, Eq)]
pub struct Proposals {
    pub proposals: Vec<Proposal>,
}

impl Proposals {
    /// Whether a proposal with the given id is on the list.
    pub fn contains(&self, proposal_id: &u64) -> (found: bool)
        ensures
            found == exists|i: int|
                0 <= i < self.proposals@.len() && (#[trigger] self.proposals@[i]).proposal_id
                    == *proposal_id,
    {
        let mut i: usize = 0;
        while i < self.proposals.len()
            invariant
                i <= self.proposals@.len(),
                forall|j: int|
                    0 <= j < i ==> (#[trigger] self.proposals@[j]).proposal_id != *proposal_id,
            decreases self.proposals@.len() - i,
        {
            if self.proposals[i].proposal_id == *proposal_id {
                return true;
            }
            i = i + 1;
        }
        false
    }
}

/// What a vote can say.
#[derive(Debug, Clone, Copy, PartialEq, Eq, Structural)]
pub enum VoteOption {
    Yes,
    No,
    Abstain,
    NoWithVeto,
}

/// The voting power behind each option of one proposal.
#[derive(Debug, Clone, Copy, PartialEq, Eq, Structural)]
pub struct VoteTotals {
    pub yes: u128,
    pub no: u128,
    pub abstain: u128,
    pub no_with_veto: u128,
}

/// A tally moved by `change`: up to the largest amount when votes are
/// added, down to zero when they are taken away.
pub open spec fn moved(tally: u128, change: u128, add_votes: bool) -> u128 {
    if add_votes {
        if tally + change > u128::MAX {
            u128::MAX
        } else {
            (tally + change) as u128
        }
    } else {
        if tally >= change {
            (tally - change) as u128
        } else {
            0
        }
    }
}

impl VoteTotals {
    /// The totals of a proposal that nobody has voted on.
    pub fn new() -> (totals: Self)
        ensures
            totals == (VoteTotals { yes: 0, no: 0, abstain: 0, no_with_veto: 0 }),
    {
        VoteTotals { yes: 0, no: 0, abstain: 0, no_with_veto: 0 }
    }

    /// The option that wins: the one with the most voting power, and among
    /// equals yes before abstain before no before no with veto.
    pub open spec fn spec_winner(self) -> VoteOption {
        if self.yes >= self.no && self.yes >= self.abstain && self.yes >= self.no_with_veto {
            VoteOption::Yes
        } else if self.abstain >= self.no && self.abstain >= self.yes && self.abstain
            >= self.no_with_veto {
            VoteOption::Abstain
        } else if self.no >= self.yes && self.no >= self.abstain && self.no >= self.no_with_veto {
            VoteOption::No
        } else {
            VoteOption::NoWithVeto
        }
    }

    /// The voting power behind an option.
    pub open spec fn power(self, vote: VoteOption) -> u128 {
        match vote {
            VoteOption::Yes => self.yes,
            VoteOption::No => self.no,
            VoteOption::Abstain => self.abstain,
            VoteOption::NoWithVeto => self.no_with_veto,
        }
    }

    /// The option that wins.
    pub fn winner(&self) -> (won: VoteOption)
        ensures
            won == self.spec_winner(),
            forall|other: VoteOption| self.power(won) >= self.power(other),
    {
        if self.yes >= self.no && self.yes >= self.abstain && self.yes >= self.no_with_veto {
            return VoteOption::Yes;
        }
        if self.abstain >= self.no && self.abstain >= self.yes && self.abstain
            >= self.no_with_veto {
            return VoteOption::Abstain;
        }
        if self.no >= self.yes && self.no >= self.abstain && self.no >= self.no_with_veto {
            return VoteOption::No;
        }
        VoteOption::NoWithVeto
    }

    /// Adds voting power to an option or takes it away, without leaving
    /// the range of the tally.
    pub fn change(&mut self, vote: VoteOption, change: u128, add_votes: bool)
        ensures
            final(self).power(vote) == moved(old(self).power(vote), change, add_votes),
            forall|other: VoteOption|
                other != vote ==> final(self).power(other) == old(self).power(other),
    {
        match vote {
            VoteOption::Yes => {
                self.yes = move_tally(self.yes, change, add_votes);
            },
            VoteOption::No => {
                self.no = move_tally(self.no, change, add_votes);
            },
            VoteOption::Abstain => {
                self.abstain = move_tally(self.abstain, change, add_votes);
            },
            VoteOption::NoWithVeto => {
                self.no_with_veto = move_tally(self.no_with_veto, change, add_votes);
            },
        }
    }
}

/// A tally moved by `change`.
pub fn move_tally(tally: u128, change: u128, add_votes: bool) -> (after: u128)
    ensures
        after == moved(tally, change, add_votes),
{
    if add_votes {
        if change > u128::MAX - tally {
            u128::MAX
        } else {
            tally + change
        }
    } else {
        if tally >= change {
            tally - change
        } else {
            0
        }
    }
}

/// Calls `subtle::ConstantTimeEq::ct_eq` on the two slices and turns the
/// choice into a `bool`. The contract claims what the crate documents:
/// the result says whether the slices have the same length and the same
/// bytes.
#[verifier::external_body]
pub fn ct_slice_compare(s1: &[u8], s2: &[u8]) -> (same: bool)
    ensures
        same == (s1@ == s2@),
{
    bool::from(subtle::ConstantTimeEq::ct_eq(s1, s2))
}

} // verus!
