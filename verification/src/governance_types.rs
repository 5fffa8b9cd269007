//! Records kept by the governance contract.

use vstd::prelude::*;
use crate::AccountId;

verus! {

/// The lifecycle state of a proposal.
#[derive(Clone, Copy, Debug, PartialEq, Eq, Structural)]
pub enum ProposalState {
    /// Waiting for the voting delay to pass.
    Pending,
    /// Voting is open.
    Active,
    Canceled,
    /// Voting closed without quorum or approval.
    Defeated,
    /// Passed but not yet queued.
    Succeeded,
    /// Queued: executable once the timelock has run, until the grace
    /// period after it ends.
    Queued,
    /// The grace period after the timelock ended without execution.
    Expired,
    Executed,
}

/// How a vote is cast.
#[derive(Clone, Copy, Debug, PartialEq, Eq, Structural)]
pub enum VoteType {
    Against,
    For,
    Abstain,
}

/// A call to be made once a proposal passes.
#[derive(Clone, Debug)]
pub struct TimelockedCall {
    pub target: AccountId,
    pub value: i128,
    pub function: String,
    pub data: Vec<u8>,
    pub eta: u64,
    pub executed: bool,
}

/// A governance proposal.  Proposal ids start at 0.
#[derive(Clone, Debug)]
pub struct Proposal {
    pub id: u64,
    pub proposer: AccountId,
    pub description: String,
    pub targets: Vec<AccountId>,
    pub values: Vec<i128>,
    pub functions: Vec<String>,
    pub calldatas: Vec<Vec<u8>>,
    /// First ledger sequence number at which votes count.
    pub vote_start: u64,
    /// Last ledger sequence number at which votes count.
    pub vote_end: u64,
    /// Earliest execution time once queued; 0 while not queued.
    pub eta: u64,
    pub for_votes: i128,
    pub against_votes: i128,
    pub abstain_votes: i128,
    pub canceled: bool,
    pub executed: bool,
    pub created_at: u64,
}

/// A voter's recorded vote on a proposal.
#[derive(Clone, Copy, Debug, PartialEq, Eq, Structural)]
pub struct ProposalVote {
    pub has_voted: bool,
    pub vote_type: VoteType,
    pub weight: i128,
}

/// A delegation of voting power.
#[derive(Clone, Copy, Debug, PartialEq, Eq, Structural)]
pub struct Delegation {
    pub delegator: AccountId,
    pub delegatee: AccountId,
    pub amount: i128,
    pub timestamp: u64,
}

/// The voting parameters.
#[derive(Clone, Copy, Debug, PartialEq, Eq, Structural)]
pub struct GovernanceSettings {
    /// Ledger sequence numbers between proposal and start of voting.
    pub voting_delay: u64,
    /// Ledger sequence numbers that voting lasts.
    pub voting_period: u64,
    /// Seconds between queueing and execution.
    pub timelock_delay: u64,
    /// Share of the supply that must vote, in basis points.
    pub quorum: i128,
    /// Share of for-votes among for and against votes needed, in basis points.
    pub approval_threshold: i128,
    /// Minimum voting power needed to propose.
    pub proposal_threshold: i128,
}

} // verus!
