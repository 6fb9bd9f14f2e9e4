use entity::config::{Payment, VOTING_PERIOD_MINUTES_DEFAULT};
use entity::entity::Entity;
use entity::error::Error;
use entity::permission::{PermissionDetails, PolicyMethod};
use entity::proposal::ProposalStatus;

const GOV: &[u8] = b"SUPER-abcdef";
const QURUM: u128 = 50;
const PERIOD_END: u64 = VOTING_PERIOD_MINUTES_DEFAULT as u64 * 60;

fn addr(b: u8) -> Vec<u8> {
    vec![b; 32]
}

fn gov(amount: u128) -> Vec<Payment> {
    vec![Payment { token: GOV.to_vec(), nonce: 0, amount }]
}

fn perm(endpoint: &[u8]) -> PermissionDetails {
    PermissionDetails {
        value: Some(0),
        destination: None,
        endpoint: Some(endpoint.to_vec()),
        arguments: None,
        payments: None,
    }
}

struct Org {
    e: Entity,
    proposer: Vec<u8>,
    signer_one: Vec<u8>,
    signer_two: Vec<u8>,
}

/// An organization with a governance token and a role `testrole` held by
/// the proposer and two signers, with the given policies.
fn org(policies: &[(&[u8], PolicyMethod, u128)], leaderless: bool) -> Org {
    let owner = addr(1);
    let mut e = Entity::new(None, &owner);
    e.change_gov_token(GOV.to_vec(), 2, true).unwrap();
    e.change_quorum(QURUM).unwrap();
    e.change_min_propose_weight(2).unwrap();
    e.create_role(b"testrole".to_vec()).unwrap();
    for (name, method, quorum) in policies {
        e.create_permission(name.to_vec(), perm(name)).unwrap();
        e.create_policy(b"testrole".to_vec(), name.to_vec(), *method, *quorum, VOTING_PERIOD_MINUTES_DEFAULT).unwrap();
    }
    let (proposer, signer_one, signer_two) = (addr(2), addr(3), addr(4));
    for m in [&proposer, &signer_one, &signer_two] {
        e.assign_role(m, b"testrole".to_vec());
    }
    if leaderless {
        e.unassign_role(&owner, &b"leader".to_vec()).unwrap();
    }
    Org { e, proposer, signer_one, signer_two }
}

impl Org {
    fn propose(&mut self, payments: Vec<Payment>, now: u64) -> Result<u64, Error> {
        let proposer = self.proposer.clone();
        self.e
            .propose(&proposer, b"id".to_vec(), Vec::new(), true, Vec::new(), 0, 0, vec![b"testrole".to_vec()], Vec::new(), payments, now)
            .map(|r| r.proposal)
    }

    fn status(&self, id: u64, now: u64) -> ProposalStatus {
        self.e.get_proposal_status_view(id, now).unwrap()
    }

    fn signers(&self, id: u64) -> usize {
        self.e.get_proposal(id).unwrap().tallies[0].signers.len()
    }
}

#[test]
fn it_signs_a_proposal() {
    let mut o = org(&[(b"testperm", PolicyMethod::Quorum, 3)], false);
    let id = o.propose(Vec::new(), 0).unwrap();
    let signer = o.signer_one.clone();
    o.e.sign(&signer, id, 0, 1).unwrap();
    assert_eq!(2, o.signers(id));
    o.e.sign(&signer, id, 0, 2).unwrap();
    assert_eq!(2, o.signers(id));
}

#[test]
fn it_signs_a_proposal_on_proposing_when_proposal_requires_signing() {
    let mut o = org(&[(b"testperm", PolicyMethod::Quorum, 2)], false);
    let id = o.propose(gov(2), 0).unwrap();
    let expected = o.e.get_user_id(&o.proposer.clone());
    assert!(o.e.get_proposal(id).unwrap().tallies[0].signers.contains(&expected));
}

#[test]
fn it_creates_a_proposal_without_esdt_payment_when_not_required() {
    let mut o = org(&[(b"testperm", PolicyMethod::Quorum, 2)], false);
    o.e.create_permission(b"vote".to_vec(), perm(b"vote")).unwrap();
    o.e.create_role(b"member".to_vec()).unwrap();
    o.e.create_policy_weighted(b"member".to_vec(), b"vote".to_vec(), None, None).unwrap();
    let proposer = o.proposer.clone();
    o.e.assign_role(&proposer, b"member".to_vec());
    let weighted = o.e.propose(&proposer, b"w".to_vec(), Vec::new(), true, Vec::new(), 0, 0, vec![b"member".to_vec()], Vec::new(), Vec::new(), 0);
    assert_eq!(weighted.unwrap_err(), Error::InsufficientProposeWeight);
    let id = o.propose(Vec::new(), 0).unwrap();
    assert_eq!(1, o.signers(id));
}

#[test]
fn it_returns_succeeded_when_just_created_but_only_required_proposers_signature() {
    let mut o = org(&[(b"testperm", PolicyMethod::One, 1)], false);
    let id = o.propose(Vec::new(), 0).unwrap();
    assert_eq!(ProposalStatus::Succeeded, o.status(id, 0));
}

#[test]
fn proposal_status_policy_one_tests_it_succeeds_when_one_of_one_permission_policies_reaches_signer_quorum() {
    let mut o = org(&[(b"testperm", PolicyMethod::One, 1)], false);
    let id = o.propose(Vec::new(), 0).unwrap();
    assert_eq!(ProposalStatus::Succeeded, o.status(id, PERIOD_END + 1));
}

#[test]
fn proposal_status_policy_one_tests_it_returns_defeated_when_one_of_two_permission_policies_does_not_meet_quorum_after_voting_period_ended() {
    let mut o = org(&[(b"testperm1", PolicyMethod::One, 1), (b"testperm2", PolicyMethod::Quorum, 2)], false);
    let id = o.propose(Vec::new(), 0).unwrap();
    assert_eq!(ProposalStatus::Active, o.status(id, 1));
    assert_eq!(ProposalStatus::Defeated, o.status(id, PERIOD_END + 1));
}

#[test]
fn it_returns_active_when_just_created() {
    let mut o = org(&[(b"testperm", PolicyMethod::Quorum, 2)], false);
    let id = o.propose(Vec::new(), 0).unwrap();
    assert_eq!(ProposalStatus::Active, o.status(id, 0));
}

#[test]
fn proposal_status_policy_quorum_tests_it_succeeds_when_one_of_one_permission_policies_reaches_signer_quorum() {
    let mut o = org(&[(b"testperm", PolicyMethod::Quorum, 3)], false);
    let id = o.propose(Vec::new(), 0).unwrap();
    let (p, a, b) = (o.proposer.clone(), o.signer_one.clone(), o.signer_two.clone());
    o.e.sign(&p, id, 0, 1).unwrap();
    o.e.sign(&a, id, 0, 1).unwrap();
    assert_eq!(ProposalStatus::Active, o.status(id, 1));
    o.e.sign(&b, id, 0, 1).unwrap();
    assert_eq!(ProposalStatus::Succeeded, o.status(id, PERIOD_END + 1));
}

#[test]
fn it_returns_defeated_when_one_of_one_permission_policies_does_not_meet_quorum_after_voting_period_ended() {
    let mut o = org(&[(b"testperm", PolicyMethod::Quorum, 3)], false);
    let id = o.propose(gov(QURUM), 0).unwrap();
    let p = o.proposer.clone();
    o.e.sign(&p, id, 0, 1).unwrap();
    assert_eq!(ProposalStatus::Defeated, o.status(id, PERIOD_END + 1));
}

#[test]
fn proposal_status_policy_quorum_tests_it_returns_defeated_when_one_of_two_permission_policies_does_not_meet_quorum_after_voting_period_ended() {
    let mut o = org(&[(b"testperm1", PolicyMethod::Quorum, 3), (b"testperm2", PolicyMethod::Weight, QURUM)], false);
    let id = o.propose(gov(QURUM + 1), 0).unwrap();
    let p = o.proposer.clone();
    o.e.sign(&p, id, 0, 1).unwrap();
    assert_eq!(ProposalStatus::Defeated, o.status(id, PERIOD_END + 1));
}

#[test]
fn it_succeeds_early_when_all_policies_are_met() {
    let mut o = org(&[(b"testperm1", PolicyMethod::All, 0), (b"testperm2", PolicyMethod::Quorum, 2)], true);
    let id = o.propose(Vec::new(), 0).unwrap();
    let (p, a, b) = (o.proposer.clone(), o.signer_one.clone(), o.signer_two.clone());
    o.e.sign(&p, id, 0, 1).unwrap();
    o.e.sign(&a, id, 0, 1).unwrap();
    o.e.sign(&b, id, 0, 1).unwrap();
    assert_eq!(ProposalStatus::Succeeded, o.status(id, 2));
}

#[test]
fn it_succeeds_with_token_voting_when_no_policies_exist_for_a_role() {
    let mut o = org(&[], true);
    let id = o.propose(gov(QURUM + 1), 0).unwrap();
    assert_eq!(ProposalStatus::Succeeded, o.status(id, PERIOD_END + 1));
}

#[test]
fn it_returns_defeated_when_not_all_policies_are_met() {
    let mut o = org(&[(b"testperm1", PolicyMethod::All, 0), (b"testperm2", PolicyMethod::Quorum, 2)], true);
    let id = o.propose(Vec::new(), 0).unwrap();
    let (p, a) = (o.proposer.clone(), o.signer_one.clone());
    o.e.sign(&p, id, 0, 1).unwrap();
    o.e.sign(&a, id, 0, 1).unwrap();
    assert_eq!(ProposalStatus::Defeated, o.status(id, PERIOD_END + 1));
}

#[test]
fn it_returns_defeated_when_one_of_two_policies_do_not_meet_quorum() {
    let mut o = org(&[(b"testperm1", PolicyMethod::All, 0), (b"testperm2", PolicyMethod::Quorum, 2)], false);
    let id = o.propose(gov(QURUM + 1), 0).unwrap();
    let p = o.proposer.clone();
    o.e.sign(&p, id, 0, 1).unwrap();
    assert_eq!(ProposalStatus::Defeated, o.status(id, PERIOD_END + 1));
}

#[test]
fn signing_needs_a_role_of_the_proposal_and_an_active_proposal() {
    let mut o = org(&[(b"testperm", PolicyMethod::Quorum, 3)], false);
    let id = o.propose(Vec::new(), 0).unwrap();
    assert_eq!(o.e.sign(&addr(9), id, 0, 1), Err(Error::MissingRoles));
    assert_eq!(o.e.sign(&addr(3), id + 1, 0, 1), Err(Error::ProposalMissing));
    let a = o.signer_one.clone();
    assert_eq!(o.e.sign(&a, id, 0, PERIOD_END + 1), Err(Error::ProposalNotActive));
}

#[test]
fn only_the_first_signature_casts_a_poll_vote() {
    let mut o = org(&[(b"testperm", PolicyMethod::Quorum, 3)], false);
    let id = o.propose(Vec::new(), 0).unwrap();
    let a = o.signer_one.clone();
    o.e.sign(&a, id, 3, 1).unwrap();
    o.e.sign(&a, id, 3, 2).unwrap();
    let poll = o.e.get_proposal_poll_results_view(id).unwrap();
    assert_eq!(poll[2], 1);
    assert_eq!(poll.len(), 20);
}

#[test]
fn all_policy_counts_current_members() {
    let mut o = org(&[(b"testperm", PolicyMethod::All, 0)], false);
    let id = o.propose(Vec::new(), 0).unwrap();
    let a = o.signer_one.clone();
    o.e.sign(&a, id, 0, 1).unwrap();
    assert_eq!(ProposalStatus::Active, o.status(id, 1));
    let b = o.signer_two.clone();
    o.e.unassign_role(&b, &b"testrole".to_vec()).unwrap();
    assert_eq!(ProposalStatus::Succeeded, o.status(id, 1));
}

#[test]
fn proposals_need_roles_and_eligible_proposers() {
    let mut o = org(&[(b"testperm", PolicyMethod::Quorum, 3)], false);
    let proposer = o.proposer.clone();
    let none = o.e.propose(&proposer, b"x".to_vec(), Vec::new(), true, Vec::new(), 0, 0, Vec::new(), Vec::new(), Vec::new(), 0);
    assert_eq!(none.unwrap_err(), Error::NoRoles);
    let with_actions = o.e.propose(&proposer, b"y".to_vec(), Vec::new(), true, vec![7u8; 32], 0, 0, vec![b"testrole".to_vec()], Vec::new(), Vec::new(), 0);
    assert_eq!(with_actions.unwrap_err(), Error::ProposerNotAllowed);
    let bad_hash = o.e.propose(&proposer, b"z".to_vec(), Vec::new(), true, vec![7u8; 5], 0, 0, vec![b"testrole".to_vec()], Vec::new(), Vec::new(), 0);
    assert_eq!(bad_hash.unwrap_err(), Error::ProposerNotAllowed);
    let past = o.e.propose(&proposer, b"p".to_vec(), Vec::new(), true, Vec::new(), 0, 10, vec![b"testrole".to_vec()], Vec::new(), Vec::new(), 10);
    assert_eq!(past.unwrap_err(), Error::StartNotInFuture);
    let future = o.e.propose(&proposer, b"f".to_vec(), Vec::new(), true, Vec::new(), 0, 50, vec![b"testrole".to_vec()], Vec::new(), Vec::new(), 10);
    let id = future.unwrap().proposal;
    assert_eq!(o.status(id, 10), ProposalStatus::Pending);
    assert_eq!(o.status(id, 50), ProposalStatus::Active);
    let rec = o.e.get_proposal(id).unwrap();
    assert_eq!(rec.proposal.ends_at, 50 + VOTING_PERIOD_MINUTES_DEFAULT as u64 * 60);
}

#[test]
fn removing_a_role_keeps_the_signatures_already_recorded() {
    // open question kept as is: signatures recorded for a removed role stay
    let mut o = org(&[(b"testperm", PolicyMethod::Quorum, 2)], false);
    let id = o.propose(Vec::new(), 0).unwrap();
    let a = o.signer_one.clone();
    o.e.sign(&a, id, 0, 1).unwrap();
    o.e.remove_role(&b"testrole".to_vec()).unwrap();
    assert_eq!(2, o.signers(id));
    assert_eq!(o.e.member_amount(&b"testrole".to_vec()), 0);
}
