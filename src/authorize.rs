use vstd::prelude::*;

use crate::seqs::lemma_prefix;

use crate::config::Payment;
use crate::permission::{
    unique_permission_names, find_permission, PermissionDetails,
    PermissionEntry, PolicyEntry, PolicyMethod,
};
use crate::proposal::Action;

verus! {

/// The arguments of a permission are an index-aligned prefix of `args`.
pub open spec fn arguments_prefix(perm_args: Seq<Vec<u8>>, args: Seq<Vec<u8>>) -> bool {
    &&& perm_args.len() <= args.len()
    &&& forall|i: int| 0 <= i < perm_args.len() ==> #[trigger] perm_args[i]@ == args[i]@
}

/// Some cap in `caps` is for the token of `p` and allows its amount.
pub open spec fn payment_covered(caps: Seq<Payment>, p: Payment) -> bool {
    exists|j: int| 0 <= j < caps.len() && #[trigger] caps[j].token@ == p.token@ && p.amount <= caps[j].amount
}

/// The action stays within every constraint the permission sets.
pub open spec fn permission_applies(d: PermissionDetails, a: Action) -> bool {
    &&& (d.value is Some ==> a.value <= d.value->0)
    &&& (d.destination is Some ==> a.destination@ == d.destination->0@)
    &&& (d.endpoint is Some ==> a.endpoint@ == d.endpoint->0@)
    &&& (d.arguments is Some ==> arguments_prefix(d.arguments->0@, a.arguments@))
    &&& (d.payments is Some && d.payments->0@.len() > 0 ==> forall|i: int|
        0 <= i < a.payments@.len() ==> payment_covered(d.payments->0@, #[trigger] a.payments@[i]))
}

fn arguments_match(perm_args: &Vec<Vec<u8>>, args: &Vec<Vec<u8>>) -> (r: bool)
    ensures
        r == arguments_prefix(perm_args@, args@),
{
    if perm_args.len() > args.len() {
        return false;
    }
    let mut i: usize = 0;
    while i < perm_args.len()
        invariant
            0 <= i <= perm_args.len() <= args.len(),
            forall|j: int| 0 <= j < i ==> #[trigger] perm_args@[j]@ == args@[j]@,
        decreases perm_args.len() - i,
    {
        if !crate::bytes::bytes_eq(&perm_args[i], &args[i]) {
            return false;
        }
        i = i + 1;
    }
    true
}

fn is_payment_covered(caps: &Vec<Payment>, p: &Payment) -> (r: bool)
    ensures
        r == payment_covered(caps@, *p),
{
    let mut j: usize = 0;
    while j < caps.len()
        invariant
            0 <= j <= caps.len(),
            forall|k: int| 0 <= k < j ==> !(#[trigger] caps@[k].token@ == p.token@ && p.amount <= caps@[k].amount),
        decreases caps.len() - j,
    {
        if crate::bytes::bytes_eq(&caps[j].token, &p.token) && p.amount <= caps[j].amount {
            return true;
        }
        j = j + 1;
    }
    false
}

/// Whether the permission covers the action.
pub fn does_permission_apply_to_action(d: &PermissionDetails, a: &Action) -> (r: bool)
    ensures
        r == permission_applies(*d, *a),
{
    if let Some(cap) = d.value {
        if a.value > cap {
            return false;
        }
    }
    if let Some(dest) = &d.destination {
        if !crate::bytes::bytes_eq(dest, &a.destination) {
            return false;
        }
    }
    if let Some(endpoint) = &d.endpoint {
        if !crate::bytes::bytes_eq(endpoint, &a.endpoint) {
            return false;
        }
    }
    if let Some(perm_args) = &d.arguments {
        if !arguments_match(perm_args, &a.arguments) {
            return false;
        }
    }
    if let Some(caps) = &d.payments {
        if caps.len() > 0 {
            let mut i: usize = 0;
            while i < a.payments.len()
                invariant
                    0 <= i <= a.payments.len(),
                    d.payments == Some(*caps),
                    caps@.len() > 0,
                    forall|k: int| 0 <= k < i ==> payment_covered(caps@, #[trigger] a.payments@[k]),
                decreases a.payments.len() - i,
            {
                if !is_payment_covered(caps, &a.payments[i]) {
                    return false;
                }
                i = i + 1;
            }
        }
    }
    true
}

/// The permission called `name` exists and covers the action.
pub open spec fn named_applies(perms: Seq<PermissionEntry>, name: Seq<u8>, a: Action) -> bool {
    exists|j: int|
        0 <= j < perms.len() && #[trigger] perms[j].name@ == name && permission_applies(perms[j].details, a)
}

/// The permissions, in policy order, that the policies of `role` bring to
/// the action.
pub open spec fn applied_in_policies(
    pols: Seq<PolicyEntry>,
    role: Seq<u8>,
    perms: Seq<PermissionEntry>,
    a: Action,
) -> Seq<Seq<u8>>
    decreases pols.len(),
{
    if pols.len() == 0 {
        seq![]
    } else {
        let last = pols.last();
        applied_in_policies(pols.drop_last(), role, perms, a) + if last.role@ == role && named_applies(
            perms,
            last.permission@,
            a,
        ) {
            seq![last.permission@]
        } else {
            seq![]
        }
    }
}

/// The permissions that the policies of all `roles` bring to the action.
pub open spec fn applied_for_roles(
    roles: Seq<Vec<u8>>,
    pols: Seq<PolicyEntry>,
    perms: Seq<PermissionEntry>,
    a: Action,
) -> Seq<Seq<u8>>
    decreases roles.len(),
{
    if roles.len() == 0 {
        seq![]
    } else {
        applied_for_roles(roles.drop_last(), pols, perms, a) + applied_in_policies(pols, roles.last()@, perms, a)
    }
}

/// The permissions that apply to each action in turn.
pub open spec fn applied_for_actions(
    actions: Seq<Action>,
    roles: Seq<Vec<u8>>,
    pols: Seq<PolicyEntry>,
    perms: Seq<PermissionEntry>,
) -> Seq<Seq<u8>>
    decreases actions.len(),
{
    if actions.len() == 0 {
        seq![]
    } else {
        applied_for_actions(actions.drop_last(), roles, pols, perms) + applied_for_roles(roles, pols, perms, actions.last())
    }
}

/// Some policy of one of `roles` binds a permission that covers the action,
/// and either the members approved or that policy lets one member act alone.
pub open spec fn action_authorized(
    roles: Seq<Vec<u8>>,
    pols: Seq<PolicyEntry>,
    perms: Seq<PermissionEntry>,
    a: Action,
    approved: bool,
) -> bool {
    exists|i: int, k: int|
        0 <= i < roles.len() && 0 <= k < pols.len() && #[trigger] pols[k].role@ == #[trigger] roles[i]@
            && named_applies(perms, pols[k].permission@, a) && (approved || pols[k].policy.method
            == PolicyMethod::One)
}

/// Whether a user with `roles` may run `actions`, and the permissions those
/// actions use; none when it may not.
pub open spec fn execute_info_spec(
    roles: Seq<Vec<u8>>,
    pols: Seq<PolicyEntry>,
    perms: Seq<PermissionEntry>,
    actions: Seq<Action>,
    approved: bool,
) -> (bool, Seq<Seq<u8>>) {
    if forall|i: int| 0 <= i < actions.len() ==> action_authorized(roles, pols, perms, #[trigger] actions[i], approved) {
        (true, applied_for_actions(actions, roles, pols, perms))
    } else {
        (false, seq![])
    }
}

/// Scans the policies of one role for permissions covering the action.
fn scan_role_policies(
    pols: &Vec<PolicyEntry>,
    role: &Vec<u8>,
    perms: &Vec<PermissionEntry>,
    a: &Action,
    approved: bool,
    applied: &mut Vec<Vec<u8>>,
) -> (authorized: bool)
    requires
        unique_permission_names(perms@),
    ensures
        crate::bytes::names_view(final(applied)@) == crate::bytes::names_view(old(applied)@)
            + applied_in_policies(pols@, role@, perms@, *a),
        authorized == exists|k: int|
            0 <= k < pols@.len() && #[trigger] pols@[k].role@ == role@ && named_applies(
                perms@,
                pols@[k].permission@,
                *a,
            ) && (approved || pols@[k].policy.method == PolicyMethod::One),
{
    let ghost start = crate::bytes::names_view(applied@);
    let mut authorized = false;
    let mut k: usize = 0;
    while k < pols.len()
        invariant
            0 <= k <= pols.len(),
            unique_permission_names(perms@),
            crate::bytes::names_view(applied@) == start + applied_in_policies(
                pols@.subrange(0, k as int),
                role@,
                perms@,
                *a,
            ),
            authorized == exists|m: int|
                0 <= m < k && #[trigger] pols@[m].role@ == role@ && named_applies(
                    perms@,
                    pols@[m].permission@,
                    *a,
                ) && (approved || pols@[m].policy.method == PolicyMethod::One),
        decreases pols.len() - k,
    {
        proof {
            lemma_prefix(pols@, k as int);
        }
        let entry = &pols[k];
        let mut applies = false;
        if crate::bytes::bytes_eq(&entry.role, role) {
            match find_permission(perms, &entry.permission) {
                Some(j) => {
                    applies = does_permission_apply_to_action(&perms[j].details, a);
                    proof {
                        if named_applies(perms@, entry.permission@, *a) {
                            let j2 = choose|j2: int|
                                0 <= j2 < perms@.len() && #[trigger] perms@[j2].name@ == entry.permission@
                                    && permission_applies(perms@[j2].details, *a);
                            assert(j2 == j as int);
                        }
                    }
                },
                None => {},
            }
        }
        let ghost before = applied@;
        if applies {
            let name = crate::bytes::copy_bytes(&entry.permission);
            applied.push(name);
            assert(crate::bytes::names_view(applied@) =~= crate::bytes::names_view(before).push(entry.permission@));
            if approved || entry.policy.method == PolicyMethod::One {
                authorized = true;
            }
        }
        assert(crate::bytes::names_view(applied@) =~= start + applied_in_policies(
            pols@.subrange(0, k + 1),
            role@,
            perms@,
            *a,
        ));
        k = k + 1;
    }
    assert(pols@.subrange(0, pols@.len() as int) =~= pols@);
    authorized
}

/// Whether the user holding `roles` may run every action, and the names of
/// the permissions the actions use. A refused batch uses none.
pub fn get_actions_execute_info(
    roles: &Vec<Vec<u8>>,
    pols: &Vec<PolicyEntry>,
    perms: &Vec<PermissionEntry>,
    actions: &Vec<Action>,
    approved: bool,
) -> (r: (bool, Vec<Vec<u8>>))
    requires
        unique_permission_names(perms@),
    ensures
        r.0 == execute_info_spec(roles@, pols@, perms@, actions@, approved).0,
        crate::bytes::names_view(r.1@) == execute_info_spec(roles@, pols@, perms@, actions@, approved).1,
{
    let mut applied: Vec<Vec<u8>> = Vec::new();
    let mut i: usize = 0;
    while i < actions.len()
        invariant
            0 <= i <= actions.len(),
            unique_permission_names(perms@),
            crate::bytes::names_view(applied@) == applied_for_actions(
                actions@.subrange(0, i as int),
                roles@,
                pols@,
                perms@,
            ),
            forall|m: int| 0 <= m < i ==> action_authorized(roles@, pols@, perms@, #[trigger] actions@[m], approved),
        decreases actions.len() - i,
    {
        proof {
            lemma_prefix(actions@, i as int);
        }
        let a = &actions[i];
        let ghost at_action = crate::bytes::names_view(applied@);
        let mut authorized = false;
        let mut r: usize = 0;
        while r < roles.len()
            invariant
                0 <= r <= roles.len(),
                unique_permission_names(perms@),
                crate::bytes::names_view(applied@) == at_action + applied_for_roles(
                    roles@.subrange(0, r as int),
                    pols@,
                    perms@,
                    *a,
                ),
                authorized == exists|ri: int, k: int|
                    0 <= ri < r && 0 <= k < pols@.len() && #[trigger] pols@[k].role@ == #[trigger] roles@[ri]@
                        && named_applies(perms@, pols@[k].permission@, *a) && (approved
                        || pols@[k].policy.method == PolicyMethod::One),
            decreases roles.len() - r,
        {
            proof {
                lemma_prefix(roles@, r as int);
            }
            let ghost before = crate::bytes::names_view(applied@);
            let found = scan_role_policies(pols, &roles[r], perms, a, approved, &mut applied);
            if found {
                authorized = true;
            }
            assert(crate::bytes::names_view(applied@) =~= at_action + applied_for_roles(
                roles@.subrange(0, r + 1),
                pols@,
                perms@,
                *a,
            ));
            r = r + 1;
        }
        assert(roles@.subrange(0, roles@.len() as int) =~= roles@);
        if !authorized {
            proof {
                assert(!action_authorized(roles@, pols@, perms@, actions@[i as int], approved));
            }
            return (false, Vec::new());
        }
        assert(crate::bytes::names_view(applied@) =~= applied_for_actions(
            actions@.subrange(0, i + 1),
            roles@,
            pols@,
            perms@,
        ));
        i = i + 1;
    }
    assert(actions@.subrange(0, actions@.len() as int) =~= actions@);
    (true, applied)
}

} // verus!
