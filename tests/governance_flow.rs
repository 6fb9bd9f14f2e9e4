use entity::config::{Payment, GAS_LIMIT_WITHDRAW, VOTING_PERIOD_MINUTES_DEFAULT};
use entity::entity::Entity;
use entity::error::{Error, ErrorKind};
use entity::hash::calculate_actions_hash;
use entity::permission::PermissionDetails;
use entity::proposal::{Action, ProposalStatus, VoteType};

const GOV: &[u8] = b"GOV-123456";

fn addr(b: u8) -> Vec<u8> {
    vec![b; 32]
}

fn gov(amount: u128) -> Payment {
    Payment { token: GOV.to_vec(), nonce: 0, amount }
}

fn nft(nonce: u64) -> Payment {
    Payment { token: GOV.to_vec(), nonce, amount: 1 }
}

fn perm_for(endpoint: &[u8], value: u128) -> PermissionDetails {
    PermissionDetails {
        value: Some(value),
        destination: None,
        endpoint: Some(endpoint.to_vec()),
        arguments: None,
        payments: None,
    }
}

/// An organization with a governance token and a member role bound to a
/// token-weighted policy with the given quorum and a ten-minute period.
fn weighted_org(quorum: u128, members: &[Vec<u8>]) -> Entity {
    let mut e = Entity::new(None, &addr(1));
    e.change_gov_token(GOV.to_vec(), 0, false).unwrap();
    e.create_role(b"member".to_vec()).unwrap();
    e.create_permission(b"vote".to_vec(), perm_for(b"nothing", 0)).unwrap();
    e.create_policy_weighted(b"member".to_vec(), b"vote".to_vec(), Some(quorum), Some(10)).unwrap();
    for m in members {
        e.assign_role(m, b"member".to_vec());
    }
    e
}

fn propose_with(e: &mut Entity, proposer: &Vec<u8>, host_id: &[u8], payments: Vec<Payment>, now: u64) -> Result<u64, Error> {
    e.propose(
        proposer,
        host_id.to_vec(),
        b"content".to_vec(),
        true,
        Vec::new(),
        0,
        0,
        vec![b"member".to_vec()],
        Vec::new(),
        payments,
        now,
    )
    .map(|r| r.proposal)
}

#[test]
fn weighted_proposal_with_quorum_payment_succeeds() {
    let proposer = addr(2);
    let mut e = weighted_org(50, &[proposer.clone()]);
    let id = propose_with(&mut e, &proposer, b"a", vec![gov(50)], 1000).unwrap();
    assert_eq!(e.get_proposal_status_view(id, 1000), Ok(ProposalStatus::Active));
    assert_eq!(e.get_proposal_status_view(id, 1000 + 10 * 60), Ok(ProposalStatus::Succeeded));
}

#[test]
fn weighted_proposal_below_quorum_is_defeated() {
    let proposer = addr(2);
    let mut e = weighted_org(50, &[proposer.clone()]);
    let id = propose_with(&mut e, &proposer, b"a", vec![gov(40)], 1000).unwrap();
    assert_eq!(e.get_proposal_status_view(id, 1000 + 10 * 60), Ok(ProposalStatus::Defeated));
}

#[test]
fn against_majority_defeats_a_proposal_that_met_quorum() {
    let proposer = addr(2);
    let v1 = addr(3);
    let v2 = addr(4);
    let mut e = weighted_org(50, &[proposer.clone(), v1.clone(), v2.clone()]);
    let id = propose_with(&mut e, &proposer, b"a", vec![gov(100)], 1000).unwrap();
    e.vote(&v1, id, VoteType::Against, 0, vec![gov(100)], 1001).unwrap();
    e.vote(&v2, id, VoteType::Against, 0, vec![gov(100)], 1002).unwrap();
    assert_eq!(e.get_proposal_status_view(id, 1000 + 10 * 60), Ok(ProposalStatus::Defeated));
}

#[test]
fn signer_majority_succeeds_before_the_period_ends() {
    let (p, s1, s2) = (addr(2), addr(3), addr(4));
    let mut e = Entity::new(None, &addr(1));
    e.create_role(b"builder".to_vec()).unwrap();
    e.create_permission(b"perm".to_vec(), perm_for(b"build", 0)).unwrap();
    e.create_policy_majority(b"builder".to_vec(), b"perm".to_vec()).unwrap();
    for m in [&p, &s1, &s2] {
        e.assign_role(m, b"builder".to_vec());
    }
    let id = e
        .propose(&p, b"id".to_vec(), Vec::new(), true, Vec::new(), 0, 0, vec![b"builder".to_vec()], Vec::new(), Vec::new(), 100)
        .unwrap()
        .proposal;
    assert_eq!(e.get_proposal_status_view(id, 101), Ok(ProposalStatus::Active));
    e.sign(&s1, id, 0, 101).unwrap();
    assert_eq!(e.get_proposal_status_view(id, 102), Ok(ProposalStatus::Succeeded));
    assert!(102 < 100 + VOTING_PERIOD_MINUTES_DEFAULT as u64 * 60);
}

fn action(endpoint: &[u8]) -> Action {
    Action {
        destination: addr(9),
        endpoint: endpoint.to_vec(),
        value: 5,
        payments: Vec::new(),
        arguments: Vec::new(),
        gas_limit: 5_000_000,
    }
}

#[test]
fn execution_requires_the_pinned_actions_and_runs_once() {
    let proposer = addr(2);
    let mut e = weighted_org(1, &[proposer.clone()]);
    e.create_permission(b"perm".to_vec(), perm_for(b"myendpoint", 5)).unwrap();
    e.create_policy_one(b"member".to_vec(), b"perm".to_vec()).unwrap();
    let actions = vec![action(b"myendpoint")];
    let hash = calculate_actions_hash(&actions);
    assert_eq!(hash.len(), 32);
    let id = e
        .propose(
            &proposer,
            b"id".to_vec(),
            Vec::new(),
            true,
            hash,
            0,
            0,
            vec![b"member".to_vec()],
            vec![b"perm".to_vec()],
            vec![gov(10)],
            100,
        )
        .unwrap()
        .proposal;
    let tampered = vec![action(b"otherendpoint")];
    let err = e.execute(id, &tampered, &Vec::new(), 101).unwrap_err();
    assert_eq!(err, Error::ActionsCorrupted);
    assert_eq!(err.kind(), ErrorKind::Integrity);
    assert_eq!(e.execute(id, &actions, &Vec::new(), 101), Ok(()));
    assert!(e.proposals[0].proposal.executed);
    let again = e.execute(id, &actions, &Vec::new(), 102).unwrap_err();
    assert_eq!(again, Error::AlreadyExecuted);
    assert_eq!(again.kind(), ErrorKind::State);
}

#[test]
fn a_non_fungible_unit_votes_once_per_proposal() {
    let proposer = addr(2);
    let voter = addr(3);
    let mut e = weighted_org(1, &[proposer.clone(), voter.clone()]);
    let id = propose_with(&mut e, &proposer, b"a", vec![gov(10)], 100).unwrap();
    let first = e.vote(&voter, id, VoteType::For, 0, vec![nft(7)], 101).unwrap();
    assert_eq!(first.returned.len(), 1);
    assert_eq!(first.returned[0].nonce, 7);
    let second = e.vote(&voter, id, VoteType::For, 0, vec![nft(7)], 102);
    assert_eq!(second.unwrap_err(), Error::AlreadyVotedWithToken);
}

#[test]
fn withdrawal_resumes_where_the_budget_ran_out() {
    let proposer = addr(2);
    let voter = addr(3);
    let mut e = weighted_org(1, &[proposer.clone(), voter.clone()]);
    let mut ids = Vec::new();
    for k in 0..3u8 {
        let id = propose_with(&mut e, &proposer, &[b'h', k], vec![gov(10)], 100).unwrap();
        e.vote(&voter, id, VoteType::For, 0, vec![gov(5)], 101).unwrap();
        ids.push(id);
    }
    let after = 100 + 10 * 60;
    assert_eq!(e.require_tokens_available(&GOV.to_vec(), 0, 0, 44), Err(Error::TokensUnavailable));
    assert_eq!(e.require_tokens_available(&GOV.to_vec(), 0, 0, 45), Ok(()));
    let first = e.withdraw(&voter, 2 * GAS_LIMIT_WITHDRAW, after);
    assert_eq!(first.total, 3);
    assert_eq!(first.withdrawn, 2);
    assert_eq!(first.transfers.len(), 2);
    assert!(first.transfers.iter().all(|t| t.to == voter && t.payment.amount == 5));
    assert_eq!(e.users[2].locked_proposals, vec![ids[2]]);
    let second = e.withdraw(&voter, 5 * GAS_LIMIT_WITHDRAW, after);
    assert_eq!(second.total, 1);
    assert_eq!(second.withdrawn, 1);
    assert!(e.users[2].locked_proposals.is_empty());
    assert_eq!(e.require_tokens_available(&GOV.to_vec(), 0, 0, 30), Ok(()));
}

#[test]
fn withdrawal_waits_for_the_proposal_to_conclude() {
    let proposer = addr(2);
    let mut e = weighted_org(1, &[proposer.clone()]);
    let id = propose_with(&mut e, &proposer, b"a", vec![gov(10)], 100).unwrap();
    let early = e.withdraw(&proposer, 10 * GAS_LIMIT_WITHDRAW, 200);
    assert_eq!(early.withdrawn, 0);
    assert_eq!(e.users[1].locked_proposals, vec![id]);
    let all = e.withdraw_all(id, 10 * GAS_LIMIT_WITHDRAW, 100 + 10 * 60);
    assert_eq!(all.withdrawn, 1);
    assert_eq!(all.transfers.len(), 1);
    assert_eq!(all.transfers[0].to, proposer);
}

#[test]
fn canceled_status_is_final() {
    let proposer = addr(2);
    let mut e = weighted_org(1, &[proposer.clone()]);
    let id = propose_with(&mut e, &proposer, b"a", vec![gov(10)], 100).unwrap();
    assert_eq!(e.cancel_proposal(&addr(3), id, 101), Err(Error::ProposerMustCancel));
    assert_eq!(e.cancel_proposal(&proposer, id, 101), Ok(()));
    assert_eq!(e.get_proposal_status_view(id, 101), Ok(ProposalStatus::Canceled));
    assert_eq!(e.get_proposal_status_view(id, 1_000_000), Ok(ProposalStatus::Canceled));
    assert_eq!(e.cancel_proposal(&proposer, id, 102), Err(Error::ProposalMissing));
}

#[test]
fn archiving_clears_the_detail_records_and_keeps_the_locked_votes() {
    let proposer = addr(2);
    let voter = addr(3);
    let mut e = weighted_org(50, &[proposer.clone(), voter.clone()]);
    let id = propose_with(&mut e, &proposer, b"a", vec![gov(60)], 1000).unwrap();
    e.vote(&voter, id, VoteType::For, 2, vec![gov(5), nft(4)], 1001).unwrap();
    assert_eq!(e.persist_proposal_results(id, 1001), Err(Error::StillActive));
    let end = 1000 + 10 * 60;
    assert_eq!(e.persist_proposal_results(id, end), Ok(ProposalStatus::Succeeded));
    let rec = &e.proposals[(id - 1) as usize];
    assert_eq!(rec.result, Some(ProposalStatus::Succeeded));
    assert!(rec.tallies.is_empty() && rec.poll.is_empty() && rec.nft_votes.is_empty() && rec.plug_votes.is_empty());
    assert!(rec.details.permissions.is_empty());
    assert_eq!(rec.locked.len(), 2);
    assert!(e.get_proposal(id).is_none());
    assert_eq!(e.get_proposal_votes_view(id), Err(Error::ProposalMissing));
    assert_eq!(e.get_proposal_status_view(id, end + 1_000_000), Ok(ProposalStatus::Succeeded));
    assert_eq!(e.persist_proposal_results(id, end), Err(Error::ProposalMissing));
    let report = e.withdraw(&voter, 10 * GAS_LIMIT_WITHDRAW, end);
    assert_eq!(report.withdrawn, 1);
    assert_eq!(report.transfers.len(), 1);
    assert_eq!(report.transfers[0].payment.amount, 5);
}

#[test]
fn canceling_archives_the_proposal() {
    let proposer = addr(2);
    let mut e = weighted_org(1, &[proposer.clone()]);
    let id = propose_with(&mut e, &proposer, b"a", vec![gov(10)], 100).unwrap();
    e.cancel_proposal(&proposer, id, 101).unwrap();
    let rec = &e.proposals[(id - 1) as usize];
    assert_eq!(rec.proposal.ends_at, 0);
    assert!(rec.tallies.is_empty() && rec.poll.is_empty());
    assert_eq!(rec.locked.len(), 1);
    let report = e.withdraw(&proposer, GAS_LIMIT_WITHDRAW, 102);
    assert_eq!(report.withdrawn, 1);
}
