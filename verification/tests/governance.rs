use soroban_contracts::governance::{GovernanceContract, GovernanceError};
use soroban_contracts::governance_types::{ProposalState, VoteType};
use soroban_contracts::governance_utils::{calculate_bps, safe_add, safe_sub, verify_targets};

const ADMIN: u64 = 1;
const TOKEN: u64 = 2;

fn initialized(proposal_threshold: i128) -> GovernanceContract {
    let mut gov = GovernanceContract::new();
    gov.initialize(ADMIN, TOKEN, 1, 100, 86400, 2000, 5100, proposal_threshold)
        .unwrap();
    gov
}

fn empty_proposal(gov: &mut GovernanceContract, proposer: u64, power: i128, block: u32) -> Result<u64, GovernanceError> {
    gov.propose(
        proposer,
        String::from("Test proposal to update parameters"),
        Vec::new(),
        Vec::new(),
        Vec::new(),
        Vec::new(),
        power,
        block,
        1_000,
    )
}

#[test]
fn test_initialize_contract() {
    let mut gov = GovernanceContract::new();
    gov.initialize(ADMIN, TOKEN, 1, 100, 86400, 2000, 5100, 1000).unwrap();
    let ids = gov.get_proposal_ids();
    assert_eq!(ids.len(), 0);
}

#[test]
#[should_panic(expected = "1")]
fn test_cannot_double_initialize() {
    let mut gov = GovernanceContract::new();
    gov.initialize(ADMIN, TOKEN, 1, 100, 86400, 2000, 5100, 1000).unwrap();
    let second = gov.initialize(ADMIN, TOKEN, 1, 100, 86400, 2000, 5100, 1000);
    assert_eq!(second, Err(GovernanceError::AlreadyInitialized));
    if let Err(e) = second {
        panic!("{}", e.code());
    }
}

#[test]
fn test_create_proposal() {
    let mut gov = initialized(100);
    let proposer = 3;
    let proposal_id = empty_proposal(&mut gov, proposer, 100, 0).unwrap();
    let ids = gov.get_proposal_ids();
    assert_eq!(ids.len(), 1);
    assert_eq!(ids[0], proposal_id);
}

#[test]
fn test_vote_delegation() {
    let mut gov = initialized(1000);
    let delegator = 3;
    let delegatee = 4;
    gov.delegate(delegator, delegatee, 1000, 1000, 0).unwrap();
}

#[test]
#[should_panic(expected = "16")]
fn test_cannot_delegate_to_self() {
    let mut gov = initialized(1000);
    let user = 3;
    let r = gov.delegate(user, user, 1000, 1000, 0);
    assert_eq!(r, Err(GovernanceError::DelegationToSelf));
    if let Err(e) = r {
        panic!("{}", e.code());
    }
}

#[test]
fn test_update_parameters() {
    let mut gov = initialized(1000);
    gov.set_voting_params(ADMIN, None, Some(200), None, Some(2500), None).unwrap();
    let s = gov.config.unwrap().settings;
    assert_eq!(s.voting_delay, 1);
    assert_eq!(s.voting_period, 200);
    assert_eq!(s.timelock_delay, 86400);
    assert_eq!(s.quorum, 2500);
    assert_eq!(s.approval_threshold, 5100);
}

#[test]
fn update_parameters_requires_admin() {
    let mut gov = initialized(1000);
    assert_eq!(
        gov.set_voting_params(9, None, Some(200), None, None, None),
        Err(GovernanceError::Unauthorized)
    );
    assert_eq!(gov.config.unwrap().settings.voting_period, 100);
}

#[test]
fn propose_checks_power_and_shapes() {
    let mut gov = initialized(1000);
    assert_eq!(empty_proposal(&mut gov, 3, 999, 0), Err(GovernanceError::InsufficientVotingPower));
    let r = gov.propose(3, String::from("x"), vec![7], Vec::new(), Vec::new(), Vec::new(), 1000, 0, 0);
    assert_eq!(r, Err(GovernanceError::InvalidInput));
    let mut fresh = GovernanceContract::new();
    assert_eq!(empty_proposal(&mut fresh, 3, 1000, 0), Err(GovernanceError::NotInitialized));
}

#[test]
fn proposal_window_follows_delay_and_period() {
    let mut gov = initialized(100);
    let id = empty_proposal(&mut gov, 3, 100, 10).unwrap();
    let p = gov.get_proposal(id).unwrap();
    assert_eq!(p.vote_start, 11);
    assert_eq!(p.vote_end, 111);
    assert_eq!(p.eta, 0);
    assert_eq!(gov.state(p, 10, 0, 1000), Ok(ProposalState::Pending));
    assert_eq!(gov.state(p, 11, 0, 1000), Ok(ProposalState::Active));
    assert_eq!(gov.state(p, 111, 0, 1000), Ok(ProposalState::Active));
    assert_eq!(gov.state(p, 112, 0, 1000), Ok(ProposalState::Defeated));
}

#[test]
fn full_proposal_lifecycle() {
    let mut gov = initialized(100);
    let id = empty_proposal(&mut gov, 3, 100, 10).unwrap();
    gov.cast_vote(5, id, VoteType::For, 300, 20, 0, 1000).unwrap();
    gov.cast_vote(6, id, VoteType::Against, 100, 20, 0, 1000).unwrap();
    assert_eq!(
        gov.cast_vote(5, id, VoteType::Against, 300, 21, 0, 1000),
        Err(GovernanceError::AlreadyVoted)
    );
    assert_eq!(gov.get_proposal_results(id, 20, 0, 1000), Ok((300, 100, 0, ProposalState::Active)));
    // 400 of 1000 is 40%, above the 20% quorum; 300 of 400 is 75%, above 51%.
    assert_eq!(gov.get_proposal_results(id, 200, 0, 1000), Ok((300, 100, 0, ProposalState::Succeeded)));
    assert_eq!(
        gov.cast_vote(7, id, VoteType::For, 10, 200, 0, 1000),
        Err(GovernanceError::ProposalNotActive)
    );
    gov.queue(ADMIN, id, 200, 1_000, 1000).unwrap();
    assert_eq!(gov.get_proposal(id).unwrap().eta, 1_000 + 86400);
    assert_eq!(gov.get_proposal_results(id, 200, 2_000, 1000), Ok((300, 100, 0, ProposalState::Queued)));
    // Before its timelock has run a queued proposal cannot be executed.
    assert_eq!(gov.execute(ADMIN, id, 200, 2_000, 1000).unwrap_err(), GovernanceError::TimelockNotExpired);
    let calls = gov.execute(ADMIN, id, 200, 1_000 + 86400, 1000).unwrap();
    assert!(calls.is_empty());
    assert!(gov.get_proposal(id).unwrap().executed);
    assert_eq!(
        gov.get_proposal_results(id, 200, 1_000 + 86400, 1000),
        Ok((300, 100, 0, ProposalState::Executed))
    );
    assert_eq!(gov.execute(ADMIN, id, 200, 1_000 + 86400, 1000).unwrap_err(), GovernanceError::ProposalNotQueued);
    assert_eq!(gov.cancel(ADMIN, id), Err(GovernanceError::CannotCancelExecuted));
}

#[test]
fn execution_returns_the_proposal_calls() {
    let mut gov = initialized(100);
    let id = gov
        .propose(
            3,
            String::from("pay"),
            vec![40, 41],
            vec![5, 0],
            vec![String::from("transfer"), String::from("ping")],
            vec![vec![1, 2], Vec::new()],
            100,
            0,
            0,
        )
        .unwrap();
    gov.cast_vote(5, id, VoteType::For, 500, 5, 0, 1000).unwrap();
    gov.queue(ADMIN, id, 500, 10, 1000).unwrap();
    let calls = gov.execute(ADMIN, id, 500, 10 + 86400 + 3, 1000).unwrap();
    assert_eq!(calls.len(), 2);
    assert_eq!((calls[0].target, calls[0].value, calls[0].function.as_str()), (40, 5, "transfer"));
    assert_eq!(calls[0].calldata, vec![1, 2]);
    assert_eq!((calls[1].target, calls[1].value, calls[1].function.as_str()), (41, 0, "ping"));
}

#[test]
fn unexecuted_proposal_expires_after_the_grace_period() {
    let mut gov = initialized(100);
    let id = empty_proposal(&mut gov, 3, 100, 0).unwrap();
    gov.cast_vote(5, id, VoteType::For, 500, 5, 0, 1000).unwrap();
    gov.queue(ADMIN, id, 500, 0, 1000).unwrap();
    let eta = 86400;
    let grace = 14 * 86400;
    assert_eq!(gov.get_proposal_results(id, 500, eta + grace - 1, 1000), Ok((500, 0, 0, ProposalState::Queued)));
    assert_eq!(gov.get_proposal_results(id, 500, eta + grace, 1000), Ok((500, 0, 0, ProposalState::Expired)));
    assert_eq!(gov.execute(ADMIN, id, 500, eta + grace, 1000).unwrap_err(), GovernanceError::ProposalNotQueued);
}

#[test]
fn error_codes() {
    assert_eq!(GovernanceError::AlreadyInitialized.code(), 1);
    assert_eq!(GovernanceError::DelegationToSelf.code(), 16);
    assert_eq!(GovernanceError::ProposalNotQueued.code(), 9);
}

#[test]
fn proposal_without_quorum_is_defeated() {
    let mut gov = initialized(100);
    let id = empty_proposal(&mut gov, 3, 100, 0).unwrap();
    // 100 of 1000 is 10%, below the 20% quorum.
    gov.cast_vote(5, id, VoteType::For, 100, 5, 0, 1000).unwrap();
    assert_eq!(gov.get_proposal_results(id, 500, 0, 1000), Ok((100, 0, 0, ProposalState::Defeated)));
    assert_eq!(gov.queue(ADMIN, id, 500, 0, 1000), Err(GovernanceError::InvalidProposalState));
}

#[test]
fn proposal_below_threshold_is_defeated() {
    let mut gov = initialized(100);
    let id = empty_proposal(&mut gov, 3, 100, 0).unwrap();
    // 500 for, 500 against: 50% is below the 51% threshold.
    gov.cast_vote(5, id, VoteType::For, 500, 5, 0, 1000).unwrap();
    gov.cast_vote(6, id, VoteType::Against, 500, 5, 0, 1000).unwrap();
    assert_eq!(gov.get_proposal_results(id, 500, 0, 1000), Ok((500, 500, 0, ProposalState::Defeated)));
}

#[test]
fn canceled_proposal_stays_canceled() {
    let mut gov = initialized(100);
    let id = empty_proposal(&mut gov, 3, 100, 0).unwrap();
    assert_eq!(gov.cancel(9, id), Err(GovernanceError::Unauthorized));
    gov.cancel(3, id).unwrap();
    for block in [0u32, 5, 500] {
        let p = gov.get_proposal(id).unwrap();
        assert_eq!(gov.state(p, block, 0, 1000), Ok(ProposalState::Canceled));
    }
    assert_eq!(gov.cancel(ADMIN, 42), Err(GovernanceError::ProposalNotFound));
}

#[test]
fn delegation_rules() {
    let mut gov = initialized(100);
    assert_eq!(gov.delegate(3, 4, 1000, 999, 0), Err(GovernanceError::InsufficientBalance));
    gov.delegate(3, 4, 1000, 1000, 7).unwrap();
    assert_eq!(gov.delegate(3, 5, 1, 1000, 8), Err(GovernanceError::AlreadyDelegated));
    let d = &gov.delegations[0];
    assert_eq!((d.delegator, d.delegatee, d.amount, d.timestamp), (3, 4, 1000, 7));
}

#[test]
fn quorum_and_threshold_checks() {
    let mut gov = initialized(100);
    let id = empty_proposal(&mut gov, 3, 100, 0).unwrap();
    gov.cast_vote(5, id, VoteType::Abstain, 200, 5, 0, 1000).unwrap();
    let p = gov.get_proposal(id).unwrap();
    assert_eq!(gov.quorum_reached(p, 1000), Ok(true));
    assert_eq!(gov.quorum_reached(p, 1001), Ok(false));
    assert_eq!(gov.threshold_reached(p), Ok(false));
}

#[test]
fn utility_arithmetic() {
    assert_eq!(safe_add(2, 3), 5);
    assert_eq!(safe_sub(2, 3), -1);
    assert_eq!(calculate_bps(10_000, 2500), 2500);
    assert_eq!(calculate_bps(-15, 5000), -7);
    assert_eq!(calculate_bps(199, 50), 0);
    assert!(verify_targets(&[1, 2], &[2, 3, 1]));
    assert!(!verify_targets(&[1, 4], &[2, 3, 1]));
    assert!(verify_targets(&[], &[]));
}

#[test]
fn vote_tally_overflow_is_refused() {
    let mut gov = initialized(100);
    let id = empty_proposal(&mut gov, 3, 100, 0).unwrap();
    gov.cast_vote(5, id, VoteType::For, i128::MAX, 5, 0, 1000).unwrap();
    assert_eq!(
        gov.cast_vote(6, id, VoteType::For, 1, 5, 0, 1000),
        Err(GovernanceError::ArithmeticOverflow)
    );
    assert_eq!(gov.get_proposal_results(id, 5, 0, 1000), Ok((i128::MAX, 0, 0, ProposalState::Active)));
}
