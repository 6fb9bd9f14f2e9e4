use entity::config::{Payment, VOTING_PERIOD_MINUTES_DEFAULT};
use entity::entity::Entity;
use entity::error::Error;
use entity::hash::calculate_actions_hash;
use entity::permission::{PermissionDetails, PolicyMethod};
use entity::proposal::{Action, ProposalStatus};
use entity::settings::require_caller_self;

const GOV: &[u8] = b"SUPER-abcdef";
const QURUM: u128 = 50;
const PERIOD_END: u64 = VOTING_PERIOD_MINUTES_DEFAULT as u64 * 60;

fn addr(b: u8) -> Vec<u8> {
    vec![b; 32]
}

fn contract() -> Vec<u8> {
    addr(100)
}

fn gov(amount: u128) -> Vec<Payment> {
    vec![Payment { token: GOV.to_vec(), nonce: 0, amount }]
}

/// Runs a privileged operation on behalf of `caller`.
fn privileged<T>(caller: &Vec<u8>, op: impl FnOnce() -> Result<T, Error>) -> Result<T, Error> {
    require_caller_self(caller, &contract())?;
    op()
}

fn with_gov_token() -> Entity {
    let mut e = Entity::new(None, &addr(1));
    e.change_gov_token(GOV.to_vec(), 2, true).unwrap();
    e
}

#[test]
fn privileged_calls_pass_for_the_organization_itself() {
    let mut e = Entity::new(None, &addr(1));
    assert_eq!(privileged(&contract(), || e.create_role(b"testrole".to_vec())), Ok(()));
    assert!(e.roles.contains(&b"testrole".to_vec()));
}

#[test]
fn config_gov_token_change_tests_it_fails_when_caller_not_self() {
    let mut e = Entity::new(None, &addr(1));
    assert_eq!(privileged(&addr(2), || e.change_gov_token(b"GOV-123456".to_vec(), 1_000, true)), Err(Error::NotAllowed));
    assert_eq!(e.config.gov_token, None);
}

#[test]
fn config_gov_token_remove_tests_it_fails_when_caller_not_self() {
    let mut e = with_gov_token();
    assert_eq!(privileged(&addr(2), || e.remove_gov_token()), Err(Error::NotAllowed));
    assert_eq!(e.config.gov_token, Some(GOV.to_vec()));
}

#[test]
fn config_min_vote_weight_change_tests_it_fails_when_caller_not_self() {
    let mut e = with_gov_token();
    assert_eq!(privileged(&addr(2), || e.change_min_vote_weight(1_000)), Err(Error::NotAllowed));
    assert_eq!(e.config.min_vote_weight, 0);
}

#[test]
fn config_plug_tests_it_fails_when_caller_not_self() {
    let mut e = Entity::new(None, &addr(1));
    assert_eq!(privileged(&addr(2), || e.set_plug(addr(8), 1_000, 50, 0)), Err(Error::NotAllowed));
    assert!(!e.config.is_plugged());
}

#[test]
fn config_quorum_change_tests_it_fails_when_caller_not_self() {
    let mut e = with_gov_token();
    let before = e.config.default_quorum;
    assert_eq!(privileged(&addr(2), || e.change_quorum(1_000)), Err(Error::NotAllowed));
    assert_eq!(e.config.default_quorum, before);
}

#[test]
fn config_restricted_vote_nonces_set_tests_it_fails_when_caller_not_self() {
    let mut e = with_gov_token();
    let r = privileged(&addr(2), || {
        e.set_restricted_vote_nonces(vec![1, 3]);
        Ok(())
    });
    assert_eq!(r, Err(Error::NotAllowed));
    assert!(e.config.restricted_vote_nonces.is_empty());
}

#[test]
fn it_fails_when_caller_not_trusted_host() {
    let mut e = with_gov_token();
    e.change_vote_token_lock(&GOV.to_vec(), false);
    let r = privileged(&addr(2), || {
        e.change_vote_token_lock(&GOV.to_vec(), true);
        Ok(())
    });
    assert_eq!(r, Err(Error::NotAllowed));
    assert!(!e.config.is_locking_vote_token(&GOV.to_vec()));
}

#[test]
fn config_voting_period_change_tests_it_fails_when_caller_not_self() {
    let mut e = Entity::new(None, &addr(1));
    assert_eq!(privileged(&addr(2), || e.change_voting_period_minutes(60)), Err(Error::NotAllowed));
    assert_eq!(e.config.default_voting_period_minutes, VOTING_PERIOD_MINUTES_DEFAULT);
}

#[test]
fn permission_create_tests_it_fails_when_caller_not_self() {
    let mut e = Entity::new(None, &addr(1));
    let d = PermissionDetails::wildcard();
    assert_eq!(privileged(&addr(2), || e.create_permission_endpoint(b"testperm".to_vec(), d)), Err(Error::NotAllowed));
    assert_eq!(e.permissions.len(), 1);
}

fn policy_setup() -> Entity {
    let mut e = with_gov_token();
    e.create_role(b"testrole".to_vec()).unwrap();
    e.create_permission(b"testperm".to_vec(), PermissionDetails::wildcard()).unwrap();
    e
}

#[test]
fn it_fails_create_weighted_policy_when_caller_not_self() {
    let mut e = policy_setup();
    let r = privileged(&addr(2), || e.create_policy_weighted(b"testrole".to_vec(), b"testperm".to_vec(), None, None));
    assert_eq!(r, Err(Error::NotAllowed));
    assert_eq!(e.policies.len(), 1);
}

#[test]
fn it_fails_create_one_policy_when_caller_not_self() {
    let mut e = policy_setup();
    assert_eq!(privileged(&addr(2), || e.create_policy_one(b"testrole".to_vec(), b"testperm".to_vec())), Err(Error::NotAllowed));
    assert_eq!(e.policies.len(), 1);
}

#[test]
fn it_fails_create_all_policy_when_caller_not_self() {
    let mut e = policy_setup();
    assert_eq!(privileged(&addr(2), || e.create_policy_all(b"testrole".to_vec(), b"testperm".to_vec())), Err(Error::NotAllowed));
    assert_eq!(e.policies.len(), 1);
}

#[test]
fn it_fails_create_quorum_policy_when_caller_not_self() {
    let mut e = policy_setup();
    assert_eq!(privileged(&addr(2), || e.create_policy_quorum(b"testrole".to_vec(), b"testperm".to_vec(), 2)), Err(Error::NotAllowed));
    assert_eq!(e.policies.len(), 1);
}

#[test]
fn it_fails_create_majority_policy_when_caller_not_self() {
    let mut e = policy_setup();
    assert_eq!(privileged(&addr(2), || e.create_policy_majority(b"testrole".to_vec(), b"testperm".to_vec())), Err(Error::NotAllowed));
    assert_eq!(e.policies.len(), 1);
}

#[test]
fn permission_role_assign_tests_it_fails_when_caller_not_self() {
    let mut e = Entity::new(None, &addr(1));
    e.create_role(b"testrole".to_vec()).unwrap();
    let user = addr(2);
    let r = privileged(&user, || {
        e.assign_role(&user, b"testrole".to_vec());
        Ok(())
    });
    assert_eq!(r, Err(Error::NotAllowed));
    assert!(!e.has_role(&user, &b"testrole".to_vec()));
}

#[test]
fn permission_role_create_tests_it_fails_when_caller_not_self() {
    let mut e = Entity::new(None, &addr(1));
    assert_eq!(privileged(&addr(2), || e.create_role(b"testrole".to_vec())), Err(Error::NotAllowed));
    assert!(!e.roles.contains(&b"testrole".to_vec()));
}

#[test]
fn permission_role_remove_tests_it_fails_when_caller_not_self() {
    let mut e = Entity::new(None, &addr(1));
    e.create_role(b"testrole".to_vec()).unwrap();
    assert_eq!(privileged(&addr(2), || e.remove_role(&b"testrole".to_vec())), Err(Error::NotAllowed));
    assert!(e.roles.contains(&b"testrole".to_vec()));
}

#[test]
fn permission_role_unassign_tests_it_fails_when_caller_not_self() {
    let mut e = Entity::new(None, &addr(1));
    let user = addr(2);
    e.assign_role(&user, b"testrole".to_vec());
    assert_eq!(privileged(&user, || e.unassign_role(&user, &b"testrole".to_vec())), Err(Error::NotAllowed));
    assert!(e.has_role(&user, &b"testrole".to_vec()));
}

#[test]
fn token_burn_tests_it_fails_when_caller_not_self() {
    let e = Entity::new(None, &addr(1));
    let r = privileged(&addr(2), || e.require_tokens_available(&b"TOKEN-123456".to_vec(), 0, 1_000, 1_000));
    assert_eq!(r, Err(Error::NotAllowed));
}

/// A role whose members must sign by majority, held by `members`.
fn majority_org(roles: &[(&[u8], &[&Vec<u8>])]) -> Entity {
    let mut e = Entity::new(None, &addr(1));
    for (role, members) in roles {
        let perm = [b"perm-".as_slice(), role].concat();
        e.create_role(role.to_vec()).unwrap();
        e.create_permission(perm.clone(), PermissionDetails::wildcard()).unwrap();
        e.create_policy_majority(role.to_vec(), perm).unwrap();
        for m in members.iter() {
            e.assign_role(m, role.to_vec());
        }
    }
    e
}

fn propose_for(e: &mut Entity, proposer: &Vec<u8>, roles: &[&[u8]]) -> u64 {
    let roles = roles.iter().map(|r| r.to_vec()).collect();
    e.propose(proposer, b"id".to_vec(), Vec::new(), true, Vec::new(), 0, 0, roles, Vec::new(), Vec::new(), 0).unwrap().proposal
}

#[test]
fn it_requires_signer_majority_when_proposer_has_role_and_with_actions_that_do_not_require_any_permissions() {
    let (p, s1, inactive) = (addr(2), addr(3), addr(4));
    let mut e = majority_org(&[(b"builder", &[&p, &s1, &inactive])]);
    let id = propose_for(&mut e, &p, &[b"builder"]);
    assert_eq!(ProposalStatus::Defeated, e.get_proposal_status_view(id, PERIOD_END + 1).unwrap());
    e.sign(&s1, id, 0, 1).unwrap();
    assert_eq!(2, e.member_amount(&b"builder".to_vec()) / 2 + 1);
    assert_eq!(ProposalStatus::Succeeded, e.get_proposal_status_view(id, PERIOD_END + 1).unwrap());
}

#[test]
fn it_fails_when_signer_majority_not_met_when_proposer_has_role_and_with_actions_that_do_not_require_any_permissions() {
    let (p, i1, i2) = (addr(2), addr(3), addr(4));
    let mut e = majority_org(&[(b"builder", &[&p, &i1, &i2])]);
    let id = propose_for(&mut e, &p, &[b"builder"]);
    assert_eq!(ProposalStatus::Defeated, e.get_proposal_status_view(id, PERIOD_END + 1).unwrap());
}

#[test]
fn it_requires_signer_majority_for_multiple_roles() {
    let (p, signer, d1, d2, d3) = (addr(2), addr(3), addr(4), addr(5), addr(6));
    let mut e = majority_org(&[(b"builder", &[&p, &signer]), (b"dev", &[&p, &signer, &d1, &d2, &d3])]);
    let id = propose_for(&mut e, &p, &[b"builder", b"dev"]);
    e.sign(&signer, id, 0, 1).unwrap();
    assert_eq!(ProposalStatus::Defeated, e.get_proposal_status_view(id, PERIOD_END + 1).unwrap());
    e.sign(&d1, id, 0, 1).unwrap();
    assert_eq!(2, e.member_amount(&b"builder".to_vec()) / 2 + 1);
    assert_eq!(ProposalStatus::Succeeded, e.get_proposal_status_view(id, PERIOD_END + 1).unwrap());
}

#[test]
fn it_succeeds_early_when_has_all_required_signatures_for_proposal_with_actions() {
    let (p, s1, inactive) = (addr(2), addr(3), addr(4));
    let mut e = majority_org(&[(b"builder", &[&p, &s1, &inactive])]);
    let id = propose_for(&mut e, &p, &[b"builder"]);
    e.sign(&s1, id, 0, 1).unwrap();
    assert_eq!(ProposalStatus::Succeeded, e.get_proposal_status_view(id, 1).unwrap());
}

fn action(endpoint: &[u8], value: u128, arguments: Vec<&[u8]>) -> Action {
    Action {
        destination: addr(9),
        endpoint: endpoint.to_vec(),
        value,
        payments: Vec::new(),
        arguments: arguments.into_iter().map(|a| a.to_vec()).collect(),
        gas_limit: 5_000_000,
    }
}

/// A governance token, a member role under a token-weighted policy, and a
/// board role whose majority governs `details`; both held by `board`.
fn board_org(board: &[&Vec<u8>], details: PermissionDetails) -> Entity {
    let mut e = with_gov_token();
    e.change_quorum(QURUM).unwrap();
    e.create_role(b"member".to_vec()).unwrap();
    e.create_permission(b"vote".to_vec(), PermissionDetails::noop()).unwrap();
    e.create_policy_weighted(b"member".to_vec(), b"vote".to_vec(), None, None).unwrap();
    e.create_role(b"board".to_vec()).unwrap();
    e.create_permission(b"perm".to_vec(), details).unwrap();
    e.create_policy_majority(b"board".to_vec(), b"perm".to_vec()).unwrap();
    for m in board {
        e.assign_role(m, b"board".to_vec());
        e.assign_role(m, b"member".to_vec());
    }
    e
}

fn run_board_proposal(mut e: Entity, actions: Vec<Action>, announced: Vec<Vec<u8>>) -> Result<(), Error> {
    let (one, two) = (addr(2), addr(3));
    let hash = calculate_actions_hash(&actions);
    let id = e
        .propose(&one, b"id".to_vec(), Vec::new(), true, hash, 0, 0, vec![b"board".to_vec(), b"member".to_vec()], announced, gov(QURUM), 0)
        .unwrap()
        .proposal;
    e.sign(&two, id, 0, 1).unwrap();
    assert_eq!(e.get_proposal_status_view(id, PERIOD_END + 1), Ok(ProposalStatus::Succeeded));
    e.execute(id, &actions, &Vec::new(), PERIOD_END + 1)
}

#[test]
fn it_executes_actions_when_proposed_by_non_leader() {
    let (one, two) = (addr(2), addr(3));
    let d = PermissionDetails { value: Some(5), destination: Some(addr(9)), endpoint: None, arguments: None, payments: None };
    let e = board_org(&[&one, &two], d);
    assert_eq!(run_board_proposal(e, vec![action(b"", 5, Vec::new())], vec![b"perm".to_vec()]), Ok(()));
}

#[test]
fn it_executes_actions_with_advanced_permissions_when_proposed_by_non_leader() {
    let (one, two) = (addr(2), addr(3));
    let d = PermissionDetails {
        value: Some(5),
        destination: Some(addr(9)),
        endpoint: Some(b"myendpoint".to_vec()),
        arguments: Some(vec![b"arg1".to_vec()]),
        payments: None,
    };
    let e = board_org(&[&one, &two], d);
    assert_eq!(run_board_proposal(e, vec![action(b"myendpoint", 5, vec![b"arg1"])], vec![b"perm".to_vec()]), Ok(()));
}

#[test]
fn it_executes_a_contract_call_action() {
    let (one, two) = (addr(2), addr(3));
    let d = PermissionDetails { value: Some(0), destination: Some(addr(9)), endpoint: Some(b"myendpoint".to_vec()), arguments: None, payments: None };
    let e = board_org(&[&one, &two], d);
    let call = action(b"myendpoint", 0, vec![b"a", b"b"]);
    assert_eq!(run_board_proposal(e, vec![call], vec![b"perm".to_vec()]), Ok(()));
}

#[test]
fn it_executes_actions_of_a_succeeded_proposal() {
    let owner = addr(1);
    let proposer = addr(2);
    let mut e = with_gov_token();
    e.change_quorum(QURUM).unwrap();
    e.create_role(b"member".to_vec()).unwrap();
    let d = PermissionDetails { value: Some(5), destination: Some(addr(9)), endpoint: None, arguments: None, payments: None };
    e.create_permission(b"perm".to_vec(), d).unwrap();
    e.create_policy_weighted(b"member".to_vec(), b"perm".to_vec(), None, None).unwrap();
    e.assign_role(&proposer, b"member".to_vec());
    e.unassign_role(&owner, &b"leader".to_vec()).unwrap();
    let actions = vec![action(b"", 5, Vec::new())];
    let hash = calculate_actions_hash(&actions);
    let id = e
        .propose(&proposer, b"id".to_vec(), Vec::new(), true, hash, 0, 0, vec![b"member".to_vec()], vec![b"perm".to_vec()], gov(1_000), 0)
        .unwrap()
        .proposal;
    assert_eq!(e.execute(id, &actions, &Vec::new(), PERIOD_END + 1), Ok(()));
}

#[test]
fn it_returns_executed_for_an_executed_proposal_with_signer_quorum() {
    let owner = addr(1);
    let (p, s1, inactive) = (addr(2), addr(3), addr(4));
    let mut e = with_gov_token();
    e.change_quorum(QURUM).unwrap();
    e.create_role(b"member".to_vec()).unwrap();
    e.create_permission(b"vote".to_vec(), PermissionDetails::noop()).unwrap();
    e.create_policy_weighted(b"member".to_vec(), b"vote".to_vec(), None, None).unwrap();
    for m in [&p, &s1, &inactive] {
        e.assign_role(m, b"leader".to_vec());
    }
    e.assign_role(&p, b"member".to_vec());
    e.unassign_role(&owner, &b"leader".to_vec()).unwrap();
    let actions = vec![action(b"myendpoint", 0, Vec::new())];
    let hash = calculate_actions_hash(&actions);
    let id = e
        .propose(&p, b"id".to_vec(), Vec::new(), true, hash, 0, 0, vec![b"leader".to_vec(), b"member".to_vec()], vec![b"*".to_vec()], gov(QURUM), 0)
        .unwrap()
        .proposal;
    e.sign(&s1, id, 0, 1).unwrap();
    e.execute(id, &actions, &Vec::new(), PERIOD_END + 1).unwrap();
    assert_eq!(ProposalStatus::Executed, e.get_proposal_status_view(id, PERIOD_END + 1).unwrap());
}
