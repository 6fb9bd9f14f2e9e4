use entity::authorize::{does_permission_apply_to_action, get_actions_execute_info};
use entity::config::Payment;
use entity::entity::Entity;
use entity::permission::{PermissionDetails, PolicyMethod};
use entity::proposal::Action;

fn addr(b: u8) -> Vec<u8> {
    vec![b; 32]
}

fn pay(token: &[u8], amount: u128) -> Payment {
    Payment { token: token.to_vec(), nonce: 0, amount }
}

fn action(endpoint: &[u8], value: u128, arguments: Vec<&[u8]>, payments: Vec<Payment>) -> Action {
    Action {
        destination: addr(9),
        endpoint: endpoint.to_vec(),
        value,
        payments,
        arguments: arguments.into_iter().map(|a| a.to_vec()).collect(),
        gas_limit: 5_000_000,
    }
}

/// A builder role holding one permission under an all-members policy;
/// returns whether the proposer may run the action with the members'
/// approval, and how many permissions it uses.
fn execute_info(name: &[u8], details: PermissionDetails, a: Action) -> (bool, usize) {
    let proposer = addr(2);
    let mut e = Entity::new(None, &addr(1));
    e.create_role(b"builder".to_vec()).unwrap();
    e.assign_role(&proposer, b"builder".to_vec());
    e.create_permission(name.to_vec(), details).unwrap();
    e.create_policy(b"builder".to_vec(), name.to_vec(), PolicyMethod::All, 0, 10).unwrap();
    let uid = e.get_user_id(&proposer);
    let roles = &e.users[uid - 1].roles;
    let (allowed, permissions) = get_actions_execute_info(roles, &e.policies, &e.permissions, &vec![a], true);
    (allowed, permissions.len())
}

fn details(
    value: Option<u128>,
    destination: Option<Vec<u8>>,
    endpoint: Option<&[u8]>,
    arguments: Option<Vec<&[u8]>>,
    payments: Option<Vec<Payment>>,
) -> PermissionDetails {
    PermissionDetails {
        value,
        destination,
        endpoint: endpoint.map(|e| e.to_vec()),
        arguments: arguments.map(|a| a.into_iter().map(|x| x.to_vec()).collect()),
        payments,
    }
}

#[test]
fn it_matches_a_permission_based_on_value_only() {
    let d = details(Some(3), None, None, None, None);
    assert_eq!(execute_info(b"valueOnlyPerm", d, action(b"", 1, vec![], vec![])), (true, 1));
}

#[test]
fn it_matches_a_permission_based_on_destination_only() {
    let d = details(Some(1), Some(addr(9)), None, None, None);
    assert_eq!(execute_info(b"addressOnlyPerm", d, action(b"", 1, vec![], vec![])), (true, 1));
}

#[test]
fn it_matches_a_permission_based_on_endpoint_only() {
    let d = details(Some(0), None, Some(b"someEndpoint"), None, None);
    assert_eq!(execute_info(b"endpointOnlyPerm", d, action(b"someEndpoint", 0, vec![], vec![])), (true, 1));
}

#[test]
fn it_matches_a_permission_based_on_arguments_only() {
    let d = details(Some(0), None, None, Some(vec![b"arg1", b"arg2"]), None);
    assert_eq!(execute_info(b"argumentsOnlyPerm", d, action(b"", 0, vec![b"arg1", b"arg2"], vec![])), (true, 1));
}

#[test]
fn it_matches_a_permission_based_on_payments_only() {
    let d = details(Some(0), None, None, None, Some(vec![pay(b"ONE-123456", 10), pay(b"TWO-123456", 10)]));
    let a = action(b"", 0, vec![], vec![pay(b"ONE-123456", 5)]);
    assert_eq!(execute_info(b"paymentOnlyPerm", d, a), (true, 1));
}

#[test]
fn it_matches_a_permission_based_on_destination_and_endpoint() {
    let d = details(Some(0), Some(addr(9)), Some(b"myendpoint"), None, None);
    assert_eq!(execute_info(b"addressAndEndpoint", d, action(b"myendpoint", 0, vec![], vec![])), (true, 1));
}

#[test]
fn it_matches_a_permission_based_on_destination_and_endpoint_and_one_argument() {
    let d = details(Some(0), Some(addr(9)), Some(b"myendpoint"), Some(vec![b"arg1"]), None);
    let a = action(b"myendpoint", 0, vec![b"arg1", b"arg2"], vec![]);
    assert_eq!(execute_info(b"addressAndEndpoint", d, a), (true, 1));
}

#[test]
fn it_does_not_match_one_of_many_payments_that_exceeds_permission_max_amount() {
    let d = details(Some(0), None, None, None, Some(vec![pay(b"ONE-123456", 10), pay(b"TWO-123456", 20)]));
    let a = action(b"", 0, vec![], vec![pay(b"ONE-123456", 15), pay(b"TWO-123456", 20)]);
    assert_eq!(execute_info(b"perm", d, a), (false, 0));
}

#[test]
fn it_does_not_match_a_payment_when_there_is_no_permission_for_it() {
    let d = details(Some(0), None, None, None, Some(vec![pay(b"TWO-123456", 20)]));
    let a = action(b"", 0, vec![], vec![pay(b"ONE-123456", 1), pay(b"TWO-123456", 20)]);
    assert_eq!(execute_info(b"perm", d, a), (false, 0));
}

#[test]
fn argument_prefix_must_be_index_aligned_and_complete() {
    let d = details(None, None, None, Some(vec![b"arg1", b"arg2"]), None);
    assert!(does_permission_apply_to_action(&d, &action(b"", 0, vec![b"arg1", b"arg2", b"arg3"], vec![])));
    assert!(!does_permission_apply_to_action(&d, &action(b"", 0, vec![b"arg1", b"arg3"], vec![])));
    assert!(!does_permission_apply_to_action(&d, &action(b"", 0, vec![b"arg1"], vec![])));
}

#[test]
fn value_cap_and_unset_fields() {
    let wildcard = PermissionDetails::wildcard();
    assert!(wildcard.is_wildcard());
    assert!(!wildcard.is_noop());
    assert!(does_permission_apply_to_action(&wildcard, &action(b"any", 1_000, vec![b"x"], vec![pay(b"ONE-123456", 7)])));
    let capped = details(Some(5), None, None, None, None);
    assert!(does_permission_apply_to_action(&capped, &action(b"", 5, vec![], vec![])));
    assert!(!does_permission_apply_to_action(&capped, &action(b"", 6, vec![], vec![])));
    let noop = PermissionDetails::noop();
    assert!(noop.is_noop());
    assert!(!noop.is_wildcard());
    assert!(!does_permission_apply_to_action(&noop, &action(b"", 0, vec![], vec![])));
    let mut zero_dest = action(b"", 0, vec![], vec![]);
    zero_dest.destination = vec![0u8; 32];
    assert!(does_permission_apply_to_action(&noop, &zero_dest));
}

#[test]
fn without_approval_only_one_member_policies_authorize() {
    let proposer = addr(2);
    let mut e = Entity::new(None, &addr(1));
    e.create_role(b"builder".to_vec()).unwrap();
    e.assign_role(&proposer, b"builder".to_vec());
    e.create_permission(b"solo".to_vec(), details(None, None, Some(b"solo"), None, None)).unwrap();
    e.create_permission(b"group".to_vec(), details(None, None, Some(b"group"), None, None)).unwrap();
    e.create_policy_one(b"builder".to_vec(), b"solo".to_vec()).unwrap();
    e.create_policy_majority(b"builder".to_vec(), b"group".to_vec()).unwrap();
    let roles = e.users[e.get_user_id(&proposer) - 1].roles.clone();
    let solo = vec![action(b"solo", 0, vec![], vec![])];
    let group = vec![action(b"group", 0, vec![], vec![])];
    let (ok, used) = get_actions_execute_info(&roles, &e.policies, &e.permissions, &solo, false);
    assert!(ok);
    assert_eq!(used, vec![b"solo".to_vec()]);
    assert_eq!(get_actions_execute_info(&roles, &e.policies, &e.permissions, &group, false), (false, Vec::new()));
    assert_eq!(get_actions_execute_info(&roles, &e.policies, &e.permissions, &group, true), (true, vec![b"group".to_vec()]));
}
