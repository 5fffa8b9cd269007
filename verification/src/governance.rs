//! On-chain governance: proposals, voting, delegation, a timelock and
//! parameter updates.
//!
//! The ledger's sequence number and time, the voter's token balance and the
//! token's total supply come from the host and are passed in.

use vstd::prelude::*;
use crate::arith::in_i128;
use crate::governance_types::{ProposalState, VoteType, Proposal, ProposalVote, Delegation, GovernanceSettings};
use crate::AccountId;

verus! {

/// Why a governance entry point refused to act.
#[derive(Clone, Copy, Debug, PartialEq, Eq, Structural)]
pub enum GovernanceError {
    AlreadyInitialized,
    NotInitialized,
    InsufficientVotingPower,
    InvalidInput,
    ProposalNotFound,
    ProposalNotActive,
    AlreadyVoted,
    InvalidProposalState,
    ProposalNotQueued,
    TimelockNotExpired,
    CannotCancelExecuted,
    Unauthorized,
    InsufficientBalance,
    AlreadyDelegated,
    ArithmeticOverflow,
    DelegationToSelf,
}

/// The number under which each refusal is reported, counting the errors
/// in the order they are declared from 1.
pub open spec fn error_code(e: GovernanceError) -> u32 {
    match e {
        GovernanceError::AlreadyInitialized => 1,
        GovernanceError::NotInitialized => 2,
        GovernanceError::InsufficientVotingPower => 3,
        GovernanceError::InvalidInput => 4,
        GovernanceError::ProposalNotFound => 5,
        GovernanceError::ProposalNotActive => 6,
        GovernanceError::AlreadyVoted => 7,
        GovernanceError::InvalidProposalState => 8,
        GovernanceError::ProposalNotQueued => 9,
        GovernanceError::TimelockNotExpired => 10,
        GovernanceError::CannotCancelExecuted => 11,
        GovernanceError::Unauthorized => 12,
        GovernanceError::InsufficientBalance => 13,
        GovernanceError::AlreadyDelegated => 14,
        GovernanceError::ArithmeticOverflow => 15,
        GovernanceError::DelegationToSelf => 16,
    }
}

impl GovernanceError {
    /// The number under which the refusal is reported.
    pub fn code(&self) -> (r: u32)
        ensures
            r == error_code(*self),
    {
        match self {
            GovernanceError::AlreadyInitialized => 1,
            GovernanceError::NotInitialized => 2,
            GovernanceError::InsufficientVotingPower => 3,
            GovernanceError::InvalidInput => 4,
            GovernanceError::ProposalNotFound => 5,
            GovernanceError::ProposalNotActive => 6,
            GovernanceError::AlreadyVoted => 7,
            GovernanceError::InvalidProposalState => 8,
            GovernanceError::ProposalNotQueued => 9,
            GovernanceError::TimelockNotExpired => 10,
            GovernanceError::CannotCancelExecuted => 11,
            GovernanceError::Unauthorized => 12,
            GovernanceError::InsufficientBalance => 13,
            GovernanceError::AlreadyDelegated => 14,
            GovernanceError::ArithmeticOverflow => 15,
            GovernanceError::DelegationToSelf => 16,
        }
    }
}

/// The configuration fixed at initialisation.
#[derive(Clone, Copy, Debug, PartialEq, Eq, Structural)]
pub struct GovernanceConfig {
    pub admin: AccountId,
    pub voting_token: AccountId,
    pub settings: GovernanceSettings,
}

/// A vote as stored: who voted on which proposal, and how.
#[derive(Clone, Copy, Debug, PartialEq, Eq, Structural)]
pub struct VoteRecord {
    pub proposal_id: u64,
    pub voter: AccountId,
    pub vote: ProposalVote,
}

/// A call that an executed proposal makes.
#[derive(Clone, Debug)]
pub struct ProposalCall {
    pub target: AccountId,
    pub value: i128,
    pub function: String,
    pub calldata: Vec<u8>,
}

/// The contract's state.  Proposal `i` is stored at position `i`, so the
/// proposal count is `proposals.len()`.
pub struct GovernanceContract {
    pub config: Option<GovernanceConfig>,
    pub proposals: Vec<Proposal>,
    pub votes: Vec<VoteRecord>,
    pub delegations: Vec<Delegation>,
}

/// Whether quorum is reached: the votes cast, in basis points of the
/// supply, reach the quorum; `Err` where the arithmetic overflows.
pub open spec fn quorum_outcome(p: Proposal, total_supply: i128, quorum: i128) -> Result<bool, GovernanceError> {
    let total = p.for_votes + p.against_votes + p.abstain_votes;
    if !in_i128(p.for_votes + p.against_votes) || !in_i128(total) || !in_i128(total * 10000) || !in_i128(
        total_supply * quorum,
    ) {
        Err(GovernanceError::ArithmeticOverflow)
    } else {
        Ok(total * 10000 >= total_supply * quorum)
    }
}

/// Whether the approval threshold is reached: the for-votes, in basis points
/// of the for and against votes, reach the threshold; never when no for or
/// against vote was cast.
pub open spec fn threshold_outcome(p: Proposal, threshold: i128) -> Result<bool, GovernanceError> {
    let cast = p.for_votes + p.against_votes;
    if !in_i128(cast) {
        Err(GovernanceError::ArithmeticOverflow)
    } else if cast == 0 {
        Ok(false)
    } else if !in_i128(p.for_votes * 10000) || !in_i128(cast * threshold) {
        Err(GovernanceError::ArithmeticOverflow)
    } else {
        Ok(p.for_votes * 10000 >= cast * threshold)
    }
}

/// Whether a proposal's targets, values, functions and calldatas line up.
pub open spec fn calls_consistent(p: Proposal) -> bool {
    &&& p.values@.len() == p.targets@.len()
    &&& p.functions@.len() == p.targets@.len()
    &&& p.calldatas@.len() == p.targets@.len()
}

/// How long a queued proposal stays executable once its timelock has run:
/// 14 days.
pub const EXECUTION_GRACE_PERIOD: u64 = 1_209_600;

/// The state of a passed proposal once voting has closed: queued from the
/// moment it is queued until the grace period after its timelock has run
/// out, expired after that unless it was executed.
pub open spec fn passed_state(p: Proposal, now: u64) -> ProposalState {
    if p.executed {
        ProposalState::Executed
    } else if p.eta == 0 {
        ProposalState::Succeeded
    } else if now >= p.eta + EXECUTION_GRACE_PERIOD {
        ProposalState::Expired
    } else {
        ProposalState::Queued
    }
}

impl GovernanceContract {
    pub open spec fn wf(&self) -> bool {
        &&& self.config.is_none() ==> self.proposals@.len() == 0 && self.votes@.len() == 0
            && self.delegations@.len() == 0
        &&& forall|i: int| 0 <= i < self.proposals@.len() ==> #[trigger] self.proposals@[i].id == i
        &&& forall|i: int| 0 <= i < self.proposals@.len() ==> calls_consistent(#[trigger] self.proposals@[i])
    }

    /// The state of proposal `p` at ledger sequence `block` and time `now`,
    /// given the voting token's total supply.
    pub open spec fn state_outcome(&self, p: Proposal, block: u32, now: u64, total_supply: i128) -> Result<
        ProposalState,
        GovernanceError,
    > {
        if p.canceled {
            Ok(ProposalState::Canceled)
        } else if block < p.vote_start {
            Ok(ProposalState::Pending)
        } else if block <= p.vote_end {
            Ok(ProposalState::Active)
        } else if !in_i128(p.for_votes + p.against_votes) || !in_i128(
            p.for_votes + p.against_votes + p.abstain_votes,
        ) {
            Err(GovernanceError::ArithmeticOverflow)
        } else if self.config.is_none() {
            Err(GovernanceError::NotInitialized)
        } else {
            let s = self.config.unwrap().settings;
            match quorum_outcome(p, total_supply, s.quorum) {
                Err(e) => Err(e),
                Ok(false) => Ok(ProposalState::Defeated),
                Ok(true) => match threshold_outcome(p, s.approval_threshold) {
                    Err(e) => Err(e),
                    Ok(false) => Ok(ProposalState::Defeated),
                    Ok(true) => Ok(passed_state(p, now)),
                },
            }
        }
    }

    /// An empty, uninitialised contract.
    pub fn new() -> (s: GovernanceContract)
        ensures
            s.wf(),
            s.config.is_none(),
            s.proposals@.len() == 0,
            s.votes@.len() == 0,
            s.delegations@.len() == 0,
    {
        GovernanceContract { config: None, proposals: Vec::new(), votes: Vec::new(), delegations: Vec::new() }
    }

    /// Sets the admin, the voting token and the voting parameters.
    pub fn initialize(
        &mut self,
        admin: AccountId,
        voting_token: AccountId,
        voting_delay: u64,
        voting_period: u64,
        timelock_delay: u64,
        quorum: i128,
        approval_threshold: i128,
        proposal_threshold: i128,
    ) -> (r: Result<(), GovernanceError>)
        requires
            old(self).wf(),
        ensures
            final(self).wf(),
            r is Ok <==> old(self).config.is_none(),
            r matches Err(e) ==> e == GovernanceError::AlreadyInitialized,
            r is Err ==> *final(self) == *old(self),
            r is Ok ==> *final(self) == (GovernanceContract {
                config: Some(
                    GovernanceConfig {
                        admin,
                        voting_token,
                        settings: GovernanceSettings {
                            voting_delay,
                            voting_period,
                            timelock_delay,
                            quorum,
                            approval_threshold,
                            proposal_threshold,
                        },
                    },
                ),
                ..*old(self)
            }),
    {
        if self.config.is_some() {
            return Err(GovernanceError::AlreadyInitialized);
        }
        self.config = Some(
            GovernanceConfig {
                admin,
                voting_token,
                settings: GovernanceSettings {
                    voting_delay,
                    voting_period,
                    timelock_delay,
                    quorum,
                    approval_threshold,
                    proposal_threshold,
                },
            },
        );
        Ok(())
    }

    /// Whether quorum is reached for `proposal`.
    pub fn quorum_reached(&self, proposal: &Proposal, total_supply: i128) -> (r: Result<bool, GovernanceError>)
        requires
            self.config.is_some(),
        ensures
            r == quorum_outcome(*proposal, total_supply, self.config.unwrap().settings.quorum),
    {
        let quorum = match self.config {
            Some(c) => c.settings.quorum,
            None => return Err(GovernanceError::NotInitialized),
        };
        let cast = match proposal.for_votes.checked_add(proposal.against_votes) {
            Some(v) => v,
            None => return Err(GovernanceError::ArithmeticOverflow),
        };
        let total = match cast.checked_add(proposal.abstain_votes) {
            Some(v) => v,
            None => return Err(GovernanceError::ArithmeticOverflow),
        };
        let lhs = match total.checked_mul(10000) {
            Some(v) => v,
            None => return Err(GovernanceError::ArithmeticOverflow),
        };
        let rhs = match total_supply.checked_mul(quorum) {
            Some(v) => v,
            None => return Err(GovernanceError::ArithmeticOverflow),
        };
        Ok(lhs >= rhs)
    }

    /// Whether the approval threshold is reached for `proposal`.
    pub fn threshold_reached(&self, proposal: &Proposal) -> (r: Result<bool, GovernanceError>)
        requires
            self.config.is_some(),
        ensures
            r == threshold_outcome(*proposal, self.config.unwrap().settings.approval_threshold),
    {
        let threshold = match self.config {
            Some(c) => c.settings.approval_threshold,
            None => return Err(GovernanceError::NotInitialized),
        };
        let cast = match proposal.for_votes.checked_add(proposal.against_votes) {
            Some(v) => v,
            None => return Err(GovernanceError::ArithmeticOverflow),
        };
        if cast == 0 {
            return Ok(false);
        }
        let lhs = match proposal.for_votes.checked_mul(10000) {
            Some(v) => v,
            None => return Err(GovernanceError::ArithmeticOverflow),
        };
        let rhs = match cast.checked_mul(threshold) {
            Some(v) => v,
            None => return Err(GovernanceError::ArithmeticOverflow),
        };
        Ok(lhs >= rhs)
    }

    /// The state of `proposal` at ledger sequence `block` and time `now`;
    /// `total_supply` is the voting token's supply.
    pub fn state(&self, proposal: &Proposal, block: u32, now: u64, total_supply: i128) -> (r: Result<
        ProposalState,
        GovernanceError,
    >)
        ensures
            r == self.state_outcome(*proposal, block, now, total_supply),
    {
        if proposal.canceled {
            return Ok(ProposalState::Canceled);
        }
        if (block as u64) < proposal.vote_start {
            return Ok(ProposalState::Pending);
        } else if (block as u64) <= proposal.vote_end {
            return Ok(ProposalState::Active);
        }
        let cast = match proposal.for_votes.checked_add(proposal.against_votes) {
            Some(v) => v,
            None => return Err(GovernanceError::ArithmeticOverflow),
        };
        if cast.checked_add(proposal.abstain_votes).is_none() {
            return Err(GovernanceError::ArithmeticOverflow);
        }
        if self.config.is_none() {
            return Err(GovernanceError::NotInitialized);
        }
        if !self.quorum_reached(proposal, total_supply)? || !self.threshold_reached(proposal)? {
            return Ok(ProposalState::Defeated);
        }
        if proposal.executed {
            return Ok(ProposalState::Executed);
        }
        if proposal.eta == 0 {
            return Ok(ProposalState::Succeeded);
        }
        if now >= proposal.eta && now - proposal.eta >= EXECUTION_GRACE_PERIOD {
            return Ok(ProposalState::Expired);
        }
        Ok(ProposalState::Queued)
    }
}


impl GovernanceContract {
    /// Whether `voter` has voted on proposal `proposal_id`.
    pub open spec fn has_voted(&self, proposal_id: u64, voter: AccountId) -> bool {
        exists|i: int|
            0 <= i < self.votes@.len() && (#[trigger] self.votes@[i]).proposal_id == proposal_id
                && self.votes@[i].voter == voter
    }

    /// Whether `delegator` has delegated.
    pub open spec fn has_delegated(&self, delegator: AccountId) -> bool {
        exists|i: int| 0 <= i < self.delegations@.len() && (#[trigger] self.delegations@[i]).delegator == delegator
    }

    fn find_vote(&self, proposal_id: u64, voter: AccountId) -> (r: bool)
        ensures
            r == self.has_voted(proposal_id, voter),
    {
        let mut i: usize = 0;
        while i < self.votes.len()
            invariant
                i <= self.votes@.len(),
                forall|k: int|
                    0 <= k < i ==> !((#[trigger] self.votes@[k]).proposal_id == proposal_id && self.votes@[k].voter
                        == voter),
            decreases self.votes@.len() - i,
        {
            if self.votes[i].proposal_id == proposal_id && self.votes[i].voter == voter {
                return true;
            }
            i = i + 1;
        }
        false
    }

    fn find_delegation(&self, delegator: AccountId) -> (r: bool)
        ensures
            r == self.has_delegated(delegator),
    {
        let mut i: usize = 0;
        while i < self.delegations.len()
            invariant
                i <= self.delegations@.len(),
                forall|k: int| 0 <= k < i ==> (#[trigger] self.delegations@[k]).delegator != delegator,
            decreases self.delegations@.len() - i,
        {
            if self.delegations[i].delegator == delegator {
                return true;
            }
            i = i + 1;
        }
        false
    }

    /// The proposal with id `proposal_id`.
    pub fn get_proposal(&self, proposal_id: u64) -> (r: Result<&Proposal, GovernanceError>)
        ensures
            r is Ok <==> proposal_id < self.proposals@.len(),
            r matches Err(e) ==> e == GovernanceError::ProposalNotFound,
            r matches Ok(p) ==> *p == self.proposals@[proposal_id as int],
    {
        if proposal_id >= self.proposals.len() as u64 {
            return Err(GovernanceError::ProposalNotFound);
        }
        Ok(&self.proposals[proposal_id as usize])
    }

    /// Why `propose` refuses, if it does.
    pub open spec fn propose_error(
        &self,
        n_targets: int,
        n_values: int,
        n_functions: int,
        n_calldatas: int,
        voting_power: i128,
        block: u32,
    ) -> Option<GovernanceError> {
        let s = self.config.unwrap().settings;
        if self.config.is_none() {
            Some(GovernanceError::NotInitialized)
        } else if voting_power < s.proposal_threshold {
            Some(GovernanceError::InsufficientVotingPower)
        } else if n_targets != n_values || n_targets != n_functions || n_targets != n_calldatas {
            Some(GovernanceError::InvalidInput)
        } else if block + s.voting_delay > u64::MAX || block + s.voting_delay + s.voting_period > u64::MAX {
            Some(GovernanceError::ArithmeticOverflow)
        } else if self.proposals@.len() + 1 > u64::MAX {
            Some(GovernanceError::ArithmeticOverflow)
        } else {
            None
        }
    }

    /// Records a new proposal by `proposer`, whose voting power is
    /// `voting_power`, at ledger sequence `block` and time `now`.  Voting
    /// opens after the voting delay and lasts the voting period.  Returns
    /// the new proposal's id, the previous proposal count.
    pub fn propose(
        &mut self,
        proposer: AccountId,
        description: String,
        targets: Vec<AccountId>,
        values: Vec<i128>,
        functions: Vec<String>,
        calldatas: Vec<Vec<u8>>,
        voting_power: i128,
        block: u32,
        now: u64,
    ) -> (r: Result<u64, GovernanceError>)
        requires
            old(self).wf(),
        ensures
            final(self).wf(),
            r is Ok <==> old(self).propose_error(
                targets@.len() as int,
                values@.len() as int,
                functions@.len() as int,
                calldatas@.len() as int,
                voting_power,
                block,
            ) is None,
            r matches Err(e) ==> old(self).propose_error(
                targets@.len() as int,
                values@.len() as int,
                functions@.len() as int,
                calldatas@.len() as int,
                voting_power,
                block,
            ) == Some(e),
            r is Err ==> *final(self) == *old(self),
            r matches Ok(id) ==> {
                let s = old(self).config.unwrap().settings;
                &&& id == old(self).proposals@.len()
                &&& final(self).proposals@ == old(self).proposals@.push(
                    Proposal {
                        id,
                        proposer,
                        description,
                        targets,
                        values,
                        functions,
                        calldatas,
                        vote_start: (block + s.voting_delay) as u64,
                        vote_end: (block + s.voting_delay + s.voting_period) as u64,
                        eta: 0,
                        for_votes: 0,
                        against_votes: 0,
                        abstain_votes: 0,
                        canceled: false,
                        executed: false,
                        created_at: now,
                    },
                )
                &&& *final(self) == (GovernanceContract { proposals: final(self).proposals, ..*old(self) })
            },
    {
        let settings = match self.config {
            Some(c) => c.settings,
            None => return Err(GovernanceError::NotInitialized),
        };
        if voting_power < settings.proposal_threshold {
            return Err(GovernanceError::InsufficientVotingPower);
        }
        if targets.len() != values.len() || targets.len() != functions.len() || targets.len() != calldatas.len() {
            return Err(GovernanceError::InvalidInput);
        }
        let vote_start = match (block as u64).checked_add(settings.voting_delay) {
            Some(v) => v,
            None => return Err(GovernanceError::ArithmeticOverflow),
        };
        let vote_end = match vote_start.checked_add(settings.voting_period) {
            Some(v) => v,
            None => return Err(GovernanceError::ArithmeticOverflow),
        };
        let proposal_id = self.proposals.len() as u64;
        if proposal_id.checked_add(1).is_none() {
            return Err(GovernanceError::ArithmeticOverflow);
        }
        let proposal = Proposal {
            id: proposal_id,
            proposer,
            description,
            targets,
            values,
            functions,
            calldatas,
            vote_start,
            vote_end,
            eta: 0,
            for_votes: 0,
            against_votes: 0,
            abstain_votes: 0,
            canceled: false,
            executed: false,
            created_at: now,
        };
        self.proposals.push(proposal);
        Ok(proposal_id)
    }

    /// Why `cast_vote` refuses, if it does.
    pub open spec fn cast_vote_error(
        &self,
        voter: AccountId,
        proposal_id: u64,
        vote_type: VoteType,
        voting_power: i128,
        block: u32,
        now: u64,
        total_supply: i128,
    ) -> Option<GovernanceError> {
        let p = self.proposals@[proposal_id as int];
        if proposal_id >= self.proposals@.len() {
            Some(GovernanceError::ProposalNotFound)
        } else if self.state_outcome(p, block, now, total_supply) matches Err(e) {
            self.state_error(p, block, now, total_supply)
        } else if self.state_outcome(p, block, now, total_supply) != Ok::<ProposalState, GovernanceError>(
            ProposalState::Active,
        ) {
            Some(GovernanceError::ProposalNotActive)
        } else if self.has_voted(proposal_id, voter) {
            Some(GovernanceError::AlreadyVoted)
        } else if self.config.is_none() {
            Some(GovernanceError::NotInitialized)
        } else if !in_i128(tally_of(p, vote_type) + voting_power) {
            Some(GovernanceError::ArithmeticOverflow)
        } else {
            None
        }
    }

    /// The failure, if any, of computing a proposal's state.
    pub open spec fn state_error(&self, p: Proposal, block: u32, now: u64, total_supply: i128) -> Option<
        GovernanceError,
    > {
        match self.state_outcome(p, block, now, total_supply) {
            Err(e) => Some(e),
            Ok(_) => None,
        }
    }

    /// Adds `voter`'s voting power to the tally of an active proposal.
    pub fn cast_vote(
        &mut self,
        voter: AccountId,
        proposal_id: u64,
        vote_type: VoteType,
        voting_power: i128,
        block: u32,
        now: u64,
        total_supply: i128,
    ) -> (r: Result<(), GovernanceError>)
        requires
            old(self).wf(),
        ensures
            final(self).wf(),
            r is Ok <==> old(self).cast_vote_error(voter, proposal_id, vote_type, voting_power, block, now, total_supply)
                is None,
            r matches Err(e) ==> old(self).cast_vote_error(
                voter,
                proposal_id,
                vote_type,
                voting_power,
                block,
                now,
                total_supply,
            ) == Some(e),
            r is Err ==> *final(self) == *old(self),
            r is Ok ==> {
                let p = old(self).proposals@[proposal_id as int];
                &&& final(self).proposals@ == old(self).proposals@.update(
                    proposal_id as int,
                    with_vote(p, vote_type, voting_power),
                )
                &&& final(self).proposals@[proposal_id as int].for_votes == p.for_votes + if vote_type
                    == VoteType::For {
                    voting_power as int
                } else {
                    0
                }
                &&& final(self).proposals@[proposal_id as int].against_votes == p.against_votes + if vote_type
                    == VoteType::Against {
                    voting_power as int
                } else {
                    0
                }
                &&& final(self).proposals@[proposal_id as int].abstain_votes == p.abstain_votes + if vote_type
                    == VoteType::Abstain {
                    voting_power as int
                } else {
                    0
                }
                &&& final(self).votes@ == old(self).votes@.push(
                    VoteRecord {
                        proposal_id,
                        voter,
                        vote: ProposalVote { has_voted: true, vote_type, weight: voting_power },
                    },
                )
                &&& final(self).config == old(self).config
                &&& final(self).delegations == old(self).delegations
            },
    {
        if proposal_id >= self.proposals.len() as u64 {
            return Err(GovernanceError::ProposalNotFound);
        }
        let idx = proposal_id as usize;
        let st = self.state(&self.proposals[idx], block, now, total_supply)?;
        if st != ProposalState::Active {
            return Err(GovernanceError::ProposalNotActive);
        }
        if self.find_vote(proposal_id, voter) {
            return Err(GovernanceError::AlreadyVoted);
        }
        if self.config.is_none() {
            return Err(GovernanceError::NotInitialized);
        }
        let current = match vote_type {
            VoteType::For => self.proposals[idx].for_votes,
            VoteType::Against => self.proposals[idx].against_votes,
            VoteType::Abstain => self.proposals[idx].abstain_votes,
        };
        let updated = match current.checked_add(voting_power) {
            Some(v) => v,
            None => return Err(GovernanceError::ArithmeticOverflow),
        };
        let mut p = self.proposals.remove(idx);
        match vote_type {
            VoteType::For => p.for_votes = updated,
            VoteType::Against => p.against_votes = updated,
            VoteType::Abstain => p.abstain_votes = updated,
        }
        self.proposals.insert(idx, p);
        self.votes.push(
            VoteRecord { proposal_id, voter, vote: ProposalVote { has_voted: true, vote_type, weight: voting_power } },
        );
        Ok(())
    }
}

/// A proposal's tally for one kind of vote.
pub open spec fn tally_of(p: Proposal, vote_type: VoteType) -> int {
    match vote_type {
        VoteType::For => p.for_votes as int,
        VoteType::Against => p.against_votes as int,
        VoteType::Abstain => p.abstain_votes as int,
    }
}

/// A proposal with `power` added to the tally of `vote_type`.
pub open spec fn with_vote(p: Proposal, vote_type: VoteType, power: i128) -> Proposal {
    match vote_type {
        VoteType::For => Proposal { for_votes: (p.for_votes + power) as i128, ..p },
        VoteType::Against => Proposal { against_votes: (p.against_votes + power) as i128, ..p },
        VoteType::Abstain => Proposal { abstain_votes: (p.abstain_votes + power) as i128, ..p },
    }
}


impl GovernanceContract {
    /// Why `delegate` refuses, if it does.
    pub open spec fn delegate_error(&self, delegator: AccountId, delegatee: AccountId, amount: i128, balance: i128) -> Option<
        GovernanceError,
    > {
        if delegator == delegatee {
            Some(GovernanceError::DelegationToSelf)
        } else if self.has_delegated(delegator) {
            Some(GovernanceError::AlreadyDelegated)
        } else if self.config.is_none() {
            Some(GovernanceError::NotInitialized)
        } else if balance < amount {
            Some(GovernanceError::InsufficientBalance)
        } else {
            None
        }
    }

    /// Records a delegation of `amount` from `delegator`, whose token
    /// balance is `balance`, to `delegatee` at time `now`.  Each account
    /// delegates at most once, and never to itself.
    pub fn delegate(&mut self, delegator: AccountId, delegatee: AccountId, amount: i128, balance: i128, now: u64) -> (r:
        Result<(), GovernanceError>)
        requires
            old(self).wf(),
        ensures
            final(self).wf(),
            r is Ok <==> old(self).delegate_error(delegator, delegatee, amount, balance) is None,
            r matches Err(e) ==> old(self).delegate_error(delegator, delegatee, amount, balance) == Some(e),
            r is Err ==> *final(self) == *old(self),
            r is Ok ==> {
                &&& final(self).delegations@ == old(self).delegations@.push(
                    Delegation { delegator, delegatee, amount, timestamp: now },
                )
                &&& *final(self) == (GovernanceContract { delegations: final(self).delegations, ..*old(self) })
            },
    {
        if delegator == delegatee {
            return Err(GovernanceError::DelegationToSelf);
        }
        if self.find_delegation(delegator) {
            return Err(GovernanceError::AlreadyDelegated);
        }
        if self.config.is_none() {
            return Err(GovernanceError::NotInitialized);
        }
        if balance < amount {
            return Err(GovernanceError::InsufficientBalance);
        }
        self.delegations.push(Delegation { delegator, delegatee, amount, timestamp: now });
        Ok(())
    }

    /// Why `cancel` refuses, if it does.
    pub open spec fn cancel_error(&self, caller: AccountId, proposal_id: u64) -> Option<GovernanceError> {
        let p = self.proposals@[proposal_id as int];
        if proposal_id >= self.proposals@.len() {
            Some(GovernanceError::ProposalNotFound)
        } else if p.executed {
            Some(GovernanceError::CannotCancelExecuted)
        } else if self.config.is_none() {
            Some(GovernanceError::NotInitialized)
        } else if caller != p.proposer && caller != self.config.unwrap().admin {
            Some(GovernanceError::Unauthorized)
        } else {
            None
        }
    }

    /// Cancels a proposal that has not been executed; only its proposer or
    /// the admin may.
    pub fn cancel(&mut self, caller: AccountId, proposal_id: u64) -> (r: Result<(), GovernanceError>)
        requires
            old(self).wf(),
        ensures
            final(self).wf(),
            r is Ok <==> old(self).cancel_error(caller, proposal_id) is None,
            r matches Err(e) ==> old(self).cancel_error(caller, proposal_id) == Some(e),
            r is Err ==> *final(self) == *old(self),
            r is Ok ==> {
                &&& final(self).proposals@ == old(self).proposals@.update(
                    proposal_id as int,
                    Proposal { canceled: true, ..old(self).proposals@[proposal_id as int] },
                )
                &&& *final(self) == (GovernanceContract { proposals: final(self).proposals, ..*old(self) })
            },
    {
        if proposal_id >= self.proposals.len() as u64 {
            return Err(GovernanceError::ProposalNotFound);
        }
        let idx = proposal_id as usize;
        if self.proposals[idx].executed {
            return Err(GovernanceError::CannotCancelExecuted);
        }
        let admin = match self.config {
            Some(c) => c.admin,
            None => return Err(GovernanceError::NotInitialized),
        };
        if caller != self.proposals[idx].proposer && caller != admin {
            return Err(GovernanceError::Unauthorized);
        }
        let mut p = self.proposals.remove(idx);
        p.canceled = true;
        self.proposals.insert(idx, p);
        Ok(())
    }

    /// Why `queue` refuses, if it does.
    pub open spec fn queue_error(&self, proposal_id: u64, block: u32, now: u64, total_supply: i128) -> Option<
        GovernanceError,
    > {
        let p = self.proposals@[proposal_id as int];
        if proposal_id >= self.proposals@.len() {
            Some(GovernanceError::ProposalNotFound)
        } else if self.state_error(p, block, now, total_supply) is Some {
            self.state_error(p, block, now, total_supply)
        } else if self.state_outcome(p, block, now, total_supply) != Ok::<ProposalState, GovernanceError>(
            ProposalState::Succeeded,
        ) {
            Some(GovernanceError::InvalidProposalState)
        } else if self.config.is_none() {
            Some(GovernanceError::NotInitialized)
        } else if now + self.config.unwrap().settings.timelock_delay > u64::MAX {
            Some(GovernanceError::ArithmeticOverflow)
        } else {
            None
        }
    }

    /// Queues a succeeded proposal: it may run once the timelock delay
    /// after `now` has passed.
    pub fn queue(&mut self, caller: AccountId, proposal_id: u64, block: u32, now: u64, total_supply: i128) -> (r:
        Result<(), GovernanceError>)
        requires
            old(self).wf(),
        ensures
            final(self).wf(),
            r is Ok <==> old(self).queue_error(proposal_id, block, now, total_supply) is None,
            r matches Err(e) ==> old(self).queue_error(proposal_id, block, now, total_supply) == Some(e),
            r is Err ==> *final(self) == *old(self),
            r is Ok ==> {
                &&& final(self).proposals@ == old(self).proposals@.update(
                    proposal_id as int,
                    Proposal {
                        eta: (now + old(self).config.unwrap().settings.timelock_delay) as u64,
                        ..old(self).proposals@[proposal_id as int]
                    },
                )
                &&& *final(self) == (GovernanceContract { proposals: final(self).proposals, ..*old(self) })
            },
    {
        if proposal_id >= self.proposals.len() as u64 {
            return Err(GovernanceError::ProposalNotFound);
        }
        let idx = proposal_id as usize;
        let st = self.state(&self.proposals[idx], block, now, total_supply)?;
        if st != ProposalState::Succeeded {
            return Err(GovernanceError::InvalidProposalState);
        }
        let delay = match self.config {
            Some(c) => c.settings.timelock_delay,
            None => return Err(GovernanceError::NotInitialized),
        };
        let eta = match now.checked_add(delay) {
            Some(v) => v,
            None => return Err(GovernanceError::ArithmeticOverflow),
        };
        let mut p = self.proposals.remove(idx);
        p.eta = eta;
        self.proposals.insert(idx, p);
        Ok(())
    }

    /// Why `execute` refuses, if it does.
    pub open spec fn execute_error(&self, proposal_id: u64, block: u32, now: u64, total_supply: i128) -> Option<
        GovernanceError,
    > {
        let p = self.proposals@[proposal_id as int];
        if proposal_id >= self.proposals@.len() {
            Some(GovernanceError::ProposalNotFound)
        } else if self.state_error(p, block, now, total_supply) is Some {
            self.state_error(p, block, now, total_supply)
        } else if self.state_outcome(p, block, now, total_supply) != Ok::<ProposalState, GovernanceError>(
            ProposalState::Queued,
        ) {
            Some(GovernanceError::ProposalNotQueued)
        } else if now < p.eta {
            Some(GovernanceError::TimelockNotExpired)
        } else {
            None
        }
    }

    /// Marks a queued proposal whose timelock has passed as executed and
    /// returns the calls the host must make, in order.
    pub fn execute(&mut self, caller: AccountId, proposal_id: u64, block: u32, now: u64, total_supply: i128) -> (r:
        Result<Vec<ProposalCall>, GovernanceError>)
        requires
            old(self).wf(),
        ensures
            final(self).wf(),
            r is Ok <==> old(self).execute_error(proposal_id, block, now, total_supply) is None,
            r matches Err(e) ==> old(self).execute_error(proposal_id, block, now, total_supply) == Some(e),
            r is Err ==> *final(self) == *old(self),
            r matches Ok(calls) ==> {
                let p = old(self).proposals@[proposal_id as int];
                &&& calls@.len() == p.targets@.len()
                &&& forall|i: int|
                    0 <= i < calls@.len() ==> (#[trigger] calls@[i]).target == p.targets@[i] && calls@[i].value
                        == p.values@[i] && calls@[i].function == p.functions@[i] && calls@[i].calldata@
                        == p.calldatas@[i]@
                &&& final(self).proposals@ == old(self).proposals@.update(
                    proposal_id as int,
                    Proposal { executed: true, ..p },
                )
                &&& *final(self) == (GovernanceContract { proposals: final(self).proposals, ..*old(self) })
            },
    {
        if proposal_id >= self.proposals.len() as u64 {
            return Err(GovernanceError::ProposalNotFound);
        }
        let idx = proposal_id as usize;
        let st = self.state(&self.proposals[idx], block, now, total_supply)?;
        if st != ProposalState::Queued {
            return Err(GovernanceError::ProposalNotQueued);
        }
        if now < self.proposals[idx].eta {
            return Err(GovernanceError::TimelockNotExpired);
        }
        let mut calls: Vec<ProposalCall> = Vec::new();
        let n = self.proposals[idx].targets.len();
        let mut i: usize = 0;
        while i < n
            invariant
                idx < self.proposals@.len(),
                n == self.proposals@[idx as int].targets@.len(),
                calls_consistent(self.proposals@[idx as int]),
                i <= n,
                calls@.len() == i,
                forall|k: int|
                    0 <= k < i ==> (#[trigger] calls@[k]).target == self.proposals@[idx as int].targets@[k]
                        && calls@[k].value == self.proposals@[idx as int].values@[k] && calls@[k].function
                        == self.proposals@[idx as int].functions@[k] && calls@[k].calldata@
                        == self.proposals@[idx as int].calldatas@[k]@,
            decreases n - i,
        {
            let p = &self.proposals[idx];
            calls.push(
                ProposalCall {
                    target: p.targets[i],
                    value: p.values[i],
                    function: p.functions[i].clone(),
                    calldata: p.calldatas[i].clone(),
                },
            );
            i = i + 1;
        }
        let mut p = self.proposals.remove(idx);
        p.executed = true;
        self.proposals.insert(idx, p);
        Ok(calls)
    }

    /// Why `set_voting_params` refuses, if it does.
    pub open spec fn set_params_error(&self, caller: AccountId) -> Option<GovernanceError> {
        if self.config.is_none() {
            Some(GovernanceError::NotInitialized)
        } else if caller != self.config.unwrap().admin {
            Some(GovernanceError::Unauthorized)
        } else {
            None
        }
    }

    /// Replaces the given voting parameters (admin only); parameters
    /// passed as `None` keep their values.
    pub fn set_voting_params(
        &mut self,
        caller: AccountId,
        voting_delay: Option<u64>,
        voting_period: Option<u64>,
        timelock_delay: Option<u64>,
        quorum: Option<i128>,
        approval_threshold: Option<i128>,
    ) -> (r: Result<(), GovernanceError>)
        requires
            old(self).wf(),
        ensures
            final(self).wf(),
            r is Ok <==> old(self).set_params_error(caller) is None,
            r matches Err(e) ==> old(self).set_params_error(caller) == Some(e),
            r is Err ==> *final(self) == *old(self),
            r is Ok ==> {
                let c = old(self).config.unwrap();
                let s = c.settings;
                &&& final(self).config == Some(
                    GovernanceConfig {
                        settings: GovernanceSettings {
                            voting_delay: match voting_delay {
                                Some(v) => v,
                                None => s.voting_delay,
                            },
                            voting_period: match voting_period {
                                Some(v) => v,
                                None => s.voting_period,
                            },
                            timelock_delay: match timelock_delay {
                                Some(v) => v,
                                None => s.timelock_delay,
                            },
                            quorum: match quorum {
                                Some(v) => v,
                                None => s.quorum,
                            },
                            approval_threshold: match approval_threshold {
                                Some(v) => v,
                                None => s.approval_threshold,
                            },
                            ..s
                        },
                        ..c
                    },
                )
                &&& *final(self) == (GovernanceContract { config: final(self).config, ..*old(self) })
            },
    {
        let mut c = match self.config {
            Some(c) => c,
            None => return Err(GovernanceError::NotInitialized),
        };
        if caller != c.admin {
            return Err(GovernanceError::Unauthorized);
        }
        if let Some(v) = voting_delay {
            c.settings.voting_delay = v;
        }
        if let Some(v) = voting_period {
            c.settings.voting_period = v;
        }
        if let Some(v) = timelock_delay {
            c.settings.timelock_delay = v;
        }
        if let Some(v) = quorum {
            c.settings.quorum = v;
        }
        if let Some(v) = approval_threshold {
            c.settings.approval_threshold = v;
        }
        self.config = Some(c);
        Ok(())
    }

    /// The ids of all proposals: `0, 1, ..` up to the count.
    pub fn get_proposal_ids(&self) -> (r: Vec<u64>)
        ensures
            r@.len() == self.proposals@.len(),
            forall|i: int| 0 <= i < r@.len() ==> #[trigger] r@[i] == i,
    {
        let mut ids: Vec<u64> = Vec::new();
        let n = self.proposals.len();
        let mut i: usize = 0;
        while i < n
            invariant
                n == self.proposals@.len(),
                i <= n,
                ids@.len() == i,
                forall|k: int| 0 <= k < i ==> #[trigger] ids@[k] == k,
            decreases n - i,
        {
            ids.push(i as u64);
            i = i + 1;
        }
        ids
    }

    /// The for, against and abstain tallies of a proposal and its state.
    pub fn get_proposal_results(&self, proposal_id: u64, block: u32, now: u64, total_supply: i128) -> (r: Result<
        (i128, i128, i128, ProposalState),
        GovernanceError,
    >)
        ensures
            proposal_id >= self.proposals@.len() ==> r == Err::<(i128, i128, i128, ProposalState), GovernanceError>(
                GovernanceError::ProposalNotFound,
            ),
            proposal_id < self.proposals@.len() ==> {
                let p = self.proposals@[proposal_id as int];
                r == match self.state_outcome(p, block, now, total_supply) {
                    Ok(st) => Ok((p.for_votes, p.against_votes, p.abstain_votes, st)),
                    Err(e) => Err(e),
                }
            },
    {
        let p = self.get_proposal(proposal_id)?;
        let st = self.state(p, block, now, total_supply)?;
        Ok((p.for_votes, p.against_votes, p.abstain_votes, st))
    }
}

/// A queued proposal can be executed once its timelock has run: while it
/// reads as queued and `now` has reached its execution time, `execute`
/// succeeds.
pub proof fn lemma_queued_proposal_executes(
    s: GovernanceContract,
    proposal_id: u64,
    block: u32,
    now: u64,
    total_supply: i128,
)
    requires
        proposal_id < s.proposals@.len(),
        s.state_outcome(s.proposals@[proposal_id as int], block, now, total_supply) == Ok::<
            ProposalState,
            GovernanceError,
        >(ProposalState::Queued),
        now >= s.proposals@[proposal_id as int].eta,
    ensures
        s.execute_error(proposal_id, block, now, total_supply) is None,
{
}

/// A proposal runs at most once: once `execute` has marked it executed (as
/// `execute` states it), it reads as executed whenever voting is over and
/// any further `execute` is refused.
pub proof fn lemma_executed_proposal_is_final(
    before: GovernanceContract,
    after: GovernanceContract,
    proposal_id: u64,
    block: u32,
    now: u64,
    total_supply: i128,
)
    requires
        proposal_id < before.proposals@.len(),
        before.state_outcome(before.proposals@[proposal_id as int], block, now, total_supply) == Ok::<
            ProposalState,
            GovernanceError,
        >(ProposalState::Queued),
        after.config == before.config,
        after.proposals@ == before.proposals@.update(
            proposal_id as int,
            Proposal { executed: true, ..before.proposals@[proposal_id as int] },
        ),
    ensures
        after.state_outcome(after.proposals@[proposal_id as int], block, now, total_supply) == Ok::<
            ProposalState,
            GovernanceError,
        >(ProposalState::Executed),
        after.execute_error(proposal_id, block, now, total_supply) == Some(GovernanceError::ProposalNotQueued),
        after.cancel_error(after.config.unwrap().admin, proposal_id) == Some(
            GovernanceError::CannotCancelExecuted,
        ),
{
}

/// A canceled proposal stays canceled whatever the ledger says.
pub proof fn lemma_canceled_is_final(s: GovernanceContract, p: Proposal, block: u32, now: u64, total_supply: i128)
    requires
        p.canceled,
    ensures
        s.state_outcome(p, block, now, total_supply) == Ok::<ProposalState, GovernanceError>(
            ProposalState::Canceled,
        ),
{
}

/// A vote counts once: after `voter`'s vote on a proposal has been
/// recorded (as `cast_vote` states it), no further vote of theirs on that
/// proposal is accepted, whatever its type, weight or time.
pub proof fn lemma_vote_counts_once(
    before: GovernanceContract,
    after: GovernanceContract,
    voter: AccountId,
    proposal_id: u64,
    vote: ProposalVote,
    vote_type: VoteType,
    voting_power: i128,
    block: u32,
    now: u64,
    total_supply: i128,
)
    requires
        after.votes@ == before.votes@.push(VoteRecord { proposal_id, voter, vote }),
    ensures
        after.has_voted(proposal_id, voter),
        after.cast_vote_error(voter, proposal_id, vote_type, voting_power, block, now, total_supply) is Some,
{
    assert(after.votes@[before.votes@.len() as int].proposal_id == proposal_id);
}

/// An account delegates at most once: after its delegation has been
/// recorded (as `delegate` states it), any further delegation is refused.
pub proof fn lemma_delegation_happens_once(
    before: GovernanceContract,
    after: GovernanceContract,
    delegation: Delegation,
    delegatee: AccountId,
    amount: i128,
    balance: i128,
)
    requires
        after.delegations@ == before.delegations@.push(delegation),
    ensures
        after.has_delegated(delegation.delegator),
        after.delegate_error(delegation.delegator, delegatee, amount, balance) is Some,
{
    assert(after.delegations@[before.delegations@.len() as int].delegator == delegation.delegator);
}

/// Each vote type adds to its own tally only: a vote of `power` raises the
/// tally of its type by `power` and leaves the other two tallies and every
/// other field of the proposal as they were.
pub proof fn lemma_vote_adds_to_its_own_tally(p: Proposal, vote_type: VoteType, power: i128)
    requires
        vote_type == VoteType::For ==> in_i128(p.for_votes + power),
        vote_type == VoteType::Against ==> in_i128(p.against_votes + power),
        vote_type == VoteType::Abstain ==> in_i128(p.abstain_votes + power),
    ensures
        ({
            let q = with_vote(p, vote_type, power);
            &&& q.for_votes == p.for_votes + if vote_type == VoteType::For { power as int } else { 0 }
            &&& q.against_votes == p.against_votes + if vote_type == VoteType::Against { power as int } else { 0 }
            &&& q.abstain_votes == p.abstain_votes + if vote_type == VoteType::Abstain { power as int } else { 0 }
            &&& q == (Proposal {
                for_votes: q.for_votes,
                against_votes: q.against_votes,
                abstain_votes: q.abstain_votes,
                ..p
            })
        }),
{
}

} // verus!
