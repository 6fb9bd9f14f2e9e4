use entity::config::{Payment, VOTING_PERIOD_MINUTES_DEFAULT};
use entity::entity::Entity;
use entity::error::Error;
use entity::hash::calculate_actions_hash;
use entity::permission::{PermissionDetails, PolicyMethod};
use entity::proposal::{Action, ProposalStatus, VoteType};

const GOV: &[u8] = b"SUPER-abcdef";
const MIN_PROPOSE_WEIGHT: u128 = 2;
const QURUM: u128 = 50;
const PERIOD_END: u64 = VOTING_PERIOD_MINUTES_DEFAULT as u64 * 60;

fn addr(b: u8) -> Vec<u8> {
    vec![b; 32]
}

fn unit(nonce: u64, amount: u128) -> Vec<Payment> {
    vec![Payment { token: GOV.to_vec(), nonce, amount }]
}

/// An organization with a governance token, a quorum of fifty, and a
/// member role, held by `members`, whose token-weighted policy uses the
/// defaults.
fn org(lock: bool, members: &[&Vec<u8>]) -> Entity {
    let mut e = Entity::new(None, &addr(1));
    e.change_gov_token(GOV.to_vec(), MIN_PROPOSE_WEIGHT, lock).unwrap();
    e.change_quorum(QURUM).unwrap();
    e.change_min_propose_weight(MIN_PROPOSE_WEIGHT).unwrap();
    e.create_role(b"member".to_vec()).unwrap();
    e.create_permission(b"vote".to_vec(), PermissionDetails::noop()).unwrap();
    e.create_policy_weighted(b"member".to_vec(), b"vote".to_vec(), None, None).unwrap();
    for m in members {
        e.assign_role(m, b"member".to_vec());
    }
    e
}

fn propose(e: &mut Entity, who: &Vec<u8>, actions_hash: Vec<u8>, option: u8, permissions: Vec<Vec<u8>>, payments: Vec<Payment>) -> Result<u64, Error> {
    e.propose(who, b"id".to_vec(), b"content hash".to_vec(), true, actions_hash, option, 0, vec![b"member".to_vec()], permissions, payments, 0)
        .map(|r| r.proposal)
}

fn votes(e: &Entity, id: u64) -> (u128, u128) {
    let v = e.get_proposal_votes_view(id).unwrap();
    (v.votes_for, v.votes_against)
}

#[test]
fn it_withdraws_tokens_for_all_voters() {
    let (v1, v2, v3) = (addr(11), addr(12), addr(13));
    let mut e = org(true, &[&v1, &v2, &v3]);
    let id = propose(&mut e, &v1, Vec::new(), 0, Vec::new(), unit(0, 5)).unwrap();
    e.vote(&v2, id, VoteType::For, 0, unit(0, 5), 1).unwrap();
    e.vote(&v3, id, VoteType::Against, 0, unit(0, 5), 1).unwrap();
    let report = e.withdraw_all(id, u64::MAX, PERIOD_END + 1);
    assert_eq!((report.total, report.withdrawn), (3, 3));
    for v in [&v1, &v2, &v3] {
        let back: u128 = report.transfers.iter().filter(|t| &t.to == v).map(|t| t.payment.amount).sum();
        assert_eq!(back, 5);
    }
    assert!(e.get_proposal(id).unwrap().locked.is_empty());
    assert_eq!(e.get_guarded_vote_tokens(&GOV.to_vec(), 0), Some(0));
}

#[test]
fn propose_nft_tests_it_creates_a_proposal() {
    let owner = addr(1);
    let mut e = org(false, &[&owner]);
    e.change_min_propose_weight(1).unwrap();
    let id = propose(&mut e, &owner, Vec::new(), 0, Vec::new(), unit(1, 1)).unwrap();
    let rec = e.get_proposal(id).unwrap();
    assert_eq!(1, rec.proposal.id);
    assert_eq!(e.get_user_id(&owner), rec.proposal.proposer);
    assert_eq!(b"content hash".to_vec(), rec.proposal.content_hash);
    assert!(rec.proposal.actions_hash.is_empty());
    assert!(!rec.proposal.executed);
    assert_eq!(votes(&e, id), (1, 0));
    assert_eq!(2, e.proposals.len() + 1);
    assert!(rec.nft_votes.contains(&1));
    assert!(rec.locked.is_empty());
}

#[test]
fn propose_nft_tests_it_creates_a_proposal_with_poll() {
    let owner = addr(1);
    let mut e = org(false, &[&owner]);
    e.change_min_propose_weight(1).unwrap();
    let id = propose(&mut e, &owner, Vec::new(), 2, Vec::new(), unit(1, 1)).unwrap();
    assert_eq!(e.get_proposal_poll_results_view(id).unwrap()[1], 1);
}

#[test]
fn propose_sft_tests_it_creates_a_proposal() {
    let owner = addr(1);
    let mut e = org(true, &[&owner]);
    let id = propose(&mut e, &owner, Vec::new(), 0, Vec::new(), unit(1, 3)).unwrap();
    let rec = e.get_proposal(id).unwrap();
    assert_eq!(1, rec.proposal.id);
    assert_eq!(votes(&e, id), (3, 0));
    assert_eq!(rec.locked[0].votes[0].payment.nonce, 1);
    assert_eq!(rec.locked[0].votes[0].payment.amount, 3);
    assert_eq!(e.get_guarded_vote_tokens(&GOV.to_vec(), 1), Some(3));
}

#[test]
fn propose_sft_tests_it_creates_a_proposal_with_poll() {
    let owner = addr(1);
    let mut e = org(true, &[&owner]);
    let id = propose(&mut e, &owner, Vec::new(), 2, Vec::new(), unit(1, 2)).unwrap();
    assert_eq!(e.get_proposal_poll_results_view(id).unwrap()[1], 2);
}

#[test]
fn withdraw_nft_tests_it_withdraws_tokens_used_for_voting() {
    let user = addr(2);
    let mut e = org(true, &[&user]);
    let id = propose(&mut e, &user, Vec::new(), 0, Vec::new(), unit(1, 1)).unwrap_err();
    assert_eq!(id, Error::InsufficientProposeWeight);
    e.change_min_propose_weight(1).unwrap();
    let id = propose(&mut e, &user, Vec::new(), 0, Vec::new(), unit(1, 1)).unwrap();
    e.vote(&user, id, VoteType::For, 0, unit(2, 1), 1).unwrap();
    e.vote(&user, id, VoteType::For, 0, unit(3, 1), 1).unwrap();
    let report = e.withdraw(&user, u64::MAX, PERIOD_END + 1);
    let mut nonces: Vec<u64> = report.transfers.iter().map(|t| t.payment.nonce).collect();
    nonces.sort();
    assert_eq!(nonces, vec![1, 2, 3]);
    assert!(report.transfers.iter().all(|t| t.to == user && t.payment.amount == 1));
}

#[test]
fn withdraw_nft_tests_it_clears_the_voters_withdrawable_storage_for_the_proposal() {
    let voter = addr(2);
    let mut e = org(true, &[&voter]);
    e.change_min_propose_weight(1).unwrap();
    let id = propose(&mut e, &voter, Vec::new(), 0, Vec::new(), unit(1, 1)).unwrap();
    e.withdraw(&voter, u64::MAX, PERIOD_END + 1);
    let uid = e.get_user_id(&voter);
    assert!(!e.users[uid - 1].locked_proposals.contains(&id));
    assert!(e.proposals[0].locked.is_empty());
}

#[test]
fn withdraw_nft_tests_it_reduces_the_guarded_vote_token_amount() {
    let voter = addr(2);
    let mut e = org(true, &[&voter]);
    e.change_min_propose_weight(1).unwrap();
    propose(&mut e, &voter, Vec::new(), 0, Vec::new(), unit(1, 1)).unwrap();
    assert_eq!(e.get_guarded_vote_tokens(&GOV.to_vec(), 1), Some(1));
    e.withdraw(&voter, u64::MAX, PERIOD_END + 1);
    assert_eq!(e.get_guarded_vote_tokens(&GOV.to_vec(), 1), Some(0));
}

#[test]
fn withdraw_nft_tests_it_does_not_withdraw_tokens_from_proposals_that_are_still_active() {
    let user = addr(2);
    let mut e = org(true, &[&user]);
    e.change_min_propose_weight(1).unwrap();
    let id = propose(&mut e, &user, Vec::new(), 0, Vec::new(), unit(1, 1)).unwrap();
    let report = e.withdraw(&user, u64::MAX, 1);
    assert!(report.transfers.is_empty());
    let uid = e.get_user_id(&user);
    assert!(e.users[uid - 1].locked_proposals.contains(&id));
    assert_eq!(e.get_guarded_vote_tokens(&GOV.to_vec(), 1), Some(1));
}

#[test]
fn withdraw_sft_tests_it_clears_the_voters_withdrawable_storage_for_the_proposal() {
    let voter = addr(2);
    let mut e = org(true, &[&voter]);
    let id = propose(&mut e, &voter, Vec::new(), 0, Vec::new(), unit(1, 5)).unwrap();
    e.withdraw(&voter, u64::MAX, PERIOD_END + 1);
    let uid = e.get_user_id(&voter);
    assert!(!e.users[uid - 1].locked_proposals.contains(&id));
}

#[test]
fn withdraw_sft_tests_it_reduces_the_guarded_vote_token_amount() {
    let voter = addr(2);
    let mut e = org(true, &[&voter]);
    propose(&mut e, &voter, Vec::new(), 0, Vec::new(), unit(1, 5)).unwrap();
    assert_eq!(e.get_guarded_vote_tokens(&GOV.to_vec(), 1), Some(5));
    e.withdraw(&voter, u64::MAX, PERIOD_END + 1);
    assert_eq!(e.get_guarded_vote_tokens(&GOV.to_vec(), 1), Some(0));
}

#[test]
fn withdraw_sft_tests_it_does_not_withdraw_tokens_from_proposals_that_are_still_active() {
    let user = addr(2);
    let mut e = org(true, &[&user]);
    let id = propose(&mut e, &user, Vec::new(), 0, Vec::new(), unit(1, 5)).unwrap();
    let report = e.withdraw(&user, u64::MAX, 1);
    assert_eq!(report.withdrawn, 0);
    assert_eq!(e.get_proposal(id).unwrap().locked[0].votes[0].payment.amount, 5);
}

#[test]
fn it_fails_to_verify_trusted_host_when_no_signature_given() {
    let user = addr(2);
    let mut e = org(true, &[&user]);
    e.set_trusted_host(Some(addr(3)));
    let r = e.propose(&user, b"id".to_vec(), b"content hash".to_vec(), false, Vec::new(), 0, 0, vec![b"member".to_vec()], Vec::new(), unit(0, 2), 0);
    assert_eq!(r.unwrap_err(), Error::InvalidSignature);
}

#[test]
fn it_creates_a_permission() {
    let mut e = Entity::new(None, &addr(1));
    let d = PermissionDetails { value: Some(0), destination: Some(addr(9)), endpoint: Some(b"myendpoint".to_vec()), arguments: None, payments: None };
    e.create_permission_endpoint(b"testperm".to_vec(), d).unwrap();
    let listed = e.get_permissions_view();
    let entry = listed.iter().find(|p| p.name == b"testperm".to_vec()).unwrap();
    assert_eq!(entry.details.endpoint, Some(b"myendpoint".to_vec()));
}

fn receiver_action(value: u128, payments: Vec<Payment>) -> Action {
    Action { destination: addr(6), endpoint: b"myendpoint".to_vec(), value, payments, arguments: Vec::new(), gas_limit: 5_000_000 }
}

/// A leader-held permission under a signer quorum of one; the proposer
/// holds the leader and member roles.
fn executable() -> (Entity, Vec<u8>) {
    let proposer = addr(2);
    let mut e = org(true, &[&proposer]);
    e.assign_role(&proposer, b"leader".to_vec());
    let d = PermissionDetails { value: Some(5), destination: Some(addr(6)), endpoint: Some(b"myendpoint".to_vec()), arguments: None, payments: None };
    e.create_permission(b"perm".to_vec(), d).unwrap();
    e.create_policy(b"leader".to_vec(), b"perm".to_vec(), PolicyMethod::Quorum, 1, 10).unwrap();
    (e, proposer)
}

fn announced() -> Vec<Vec<u8>> {
    vec![b"*".to_vec(), b"perm".to_vec()]
}

#[test]
fn it_executes_actions_of_a_proposal() {
    let (mut e, proposer) = executable();
    let actions = vec![receiver_action(5, Vec::new())];
    let id = propose(&mut e, &proposer, calculate_actions_hash(&actions), 0, announced(), unit(0, QURUM)).unwrap();
    assert_eq!(e.execute(id, &actions, &Vec::new(), PERIOD_END + 1), Ok(()));
}

#[test]
fn it_marks_a_proposal_as_executed() {
    let (mut e, proposer) = executable();
    let actions = vec![receiver_action(0, Vec::new())];
    let id = propose(&mut e, &proposer, calculate_actions_hash(&actions), 0, announced(), unit(0, QURUM)).unwrap();
    e.execute(id, &actions, &Vec::new(), PERIOD_END + 1).unwrap();
    assert!(e.get_proposal(id).unwrap().proposal.executed);
    assert_eq!(e.get_proposal_status_view(id, PERIOD_END + 2), Ok(ProposalStatus::Executed));
}

#[test]
fn it_fails_when_attempted_to_execute_again() {
    let (mut e, proposer) = executable();
    let actions = vec![receiver_action(0, Vec::new())];
    let id = propose(&mut e, &proposer, calculate_actions_hash(&actions), 0, announced(), unit(0, QURUM)).unwrap();
    e.execute(id, &actions, &Vec::new(), PERIOD_END + 1).unwrap();
    assert_eq!(e.execute(id, &actions, &Vec::new(), PERIOD_END + 1), Err(Error::AlreadyExecuted));
}

#[test]
fn execute_tests_it_fails_when_actions_to_execute_are_incongruent_to_actions_proposed() {
    let (mut e, proposer) = executable();
    let actions = vec![receiver_action(0, Vec::new())];
    let id = propose(&mut e, &proposer, calculate_actions_hash(&actions), 0, announced(), unit(0, QURUM)).unwrap();
    let other = vec![receiver_action(1, Vec::new())];
    assert_eq!(e.execute(id, &other, &Vec::new(), PERIOD_END + 1), Err(Error::ActionsCorrupted));
}

#[test]
fn it_fails_to_spend_sft_vote_tokens() {
    let proposer = addr(2);
    let owner = addr(1);
    let mut e = org(true, &[&proposer, &owner]);
    let d = PermissionDetails { value: Some(0), destination: None, endpoint: None, arguments: None, payments: Some(unit(1, 10)) };
    e.create_permission(b"perm".to_vec(), d).unwrap();
    e.create_policy(b"member".to_vec(), b"perm".to_vec(), PolicyMethod::Weight, QURUM, VOTING_PERIOD_MINUTES_DEFAULT).unwrap();
    let actions = vec![receiver_action(0, unit(1, 6))];
    let id = propose(&mut e, &proposer, calculate_actions_hash(&actions), 0, vec![b"perm".to_vec()], unit(1, QURUM)).unwrap();
    e.vote(&owner, id, VoteType::For, 0, unit(1, 100), 1).unwrap();
    let balances = unit(1, 5 + QURUM + 100);
    assert_eq!(e.execute(id, &actions, &balances, PERIOD_END + 1), Err(Error::TokensUnavailable));
}
