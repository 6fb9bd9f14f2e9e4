use vstd::prelude::*;

use crate::seqs::lemma_prefix;

use crate::bytes::{bytes_eq, contains_name, copy_bytes, names_contain};
use crate::config::{Amount, Config, ProposalId, UserId, VOTING_PERIOD_MINUTES_MAX};
use crate::error::Error;
use crate::governance::ProposalRecord;
use crate::permission::{
    find_permission, permission_exists, unique_permission_names, PermissionDetails,
    PermissionEntry, Policy, PolicyEntry, PolicyMethod,
};

verus! {

/// The bytes of the leader role's name.
pub open spec fn leader_role() -> Seq<u8> {
    seq![108u8, 101u8, 97u8, 100u8, 101u8, 114u8]
}

/// The bytes of the member role's name.
pub open spec fn member_role() -> Seq<u8> {
    seq![109u8, 101u8, 109u8, 98u8, 101u8, 114u8]
}

/// The bytes of the wildcard permission's name.
pub open spec fn wildcard_permission() -> Seq<u8> {
    seq![42u8]
}

/// The bytes of the no-op permission's name.
pub open spec fn noop_permission() -> Seq<u8> {
    seq![45u8]
}

/// The name of the built-in leader role.
pub fn leader_role_name() -> (r: Vec<u8>)
    ensures
        r@ == leader_role(),
{
    let r: Vec<u8> = vec![108u8, 101u8, 97u8, 100u8, 101u8, 114u8];
    assert(r@ =~= leader_role());
    r
}

/// The name of the built-in member role.
pub fn member_role_name() -> (r: Vec<u8>)
    ensures
        r@ == member_role(),
{
    let r: Vec<u8> = vec![109u8, 101u8, 109u8, 98u8, 101u8, 114u8];
    assert(r@ =~= member_role());
    r
}

/// The name of the built-in permission that covers every action.
pub fn wildcard_permission_name() -> (r: Vec<u8>)
    ensures
        r@ == wildcard_permission(),
{
    let r: Vec<u8> = vec![42u8];
    assert(r@ =~= wildcard_permission());
    r
}

/// The name of the built-in permission that covers no real action.
pub fn noop_permission_name() -> (r: Vec<u8>)
    ensures
        r@ == noop_permission(),
{
    let r: Vec<u8> = vec![45u8];
    assert(r@ =~= noop_permission());
    r
}

/// A known address, its roles and the proposals it holds locked votes on.
/// Its user id is its index plus one.
#[derive(Debug)]
pub struct UserEntry {
    pub address: Vec<u8>,
    pub roles: Vec<Vec<u8>>,
    pub locked_proposals: Vec<ProposalId>,
}

/// The whole governance state of one organization.
#[derive(Debug)]
pub struct Entity {
    pub config: Config,
    pub users: Vec<UserEntry>,
    pub roles: Vec<Vec<u8>>,
    pub permissions: Vec<PermissionEntry>,
    pub policies: Vec<PolicyEntry>,
    /// The proposal with id `n` is at index `n - 1`.
    pub proposals: Vec<ProposalRecord>,
    /// Proposal ids handed out by the trusted host so far.
    pub known_host_ids: Vec<Vec<u8>>,
}

/// How many of `users` hold `role`.
pub open spec fn member_count(users: Seq<UserEntry>, role: Seq<u8>) -> nat
    decreases users.len(),
{
    if users.len() == 0 {
        0
    } else {
        member_count(users.drop_last(), role) + if contains_name(users.last().roles@, role) {
            1nat
        } else {
            0nat
        }
    }
}

pub open spec fn user_has_role(users: Seq<UserEntry>, user: UserId, role: Seq<u8>) -> bool {
    1 <= user <= users.len() && contains_name(users[user - 1].roles@, role)
}

/// The user id of `address`; zero when unknown.
pub open spec fn user_id_of(users: Seq<UserEntry>, address: Seq<u8>) -> nat
    decreases users.len(),
{
    if users.len() == 0 {
        0
    } else if user_id_of(users.drop_last(), address) != 0 {
        user_id_of(users.drop_last(), address)
    } else if users.last().address@ == address {
        users.len()
    } else {
        0
    }
}

/// Every policy binds an existing role to an existing permission.
pub open spec fn policies_consistent(roles: Seq<Vec<u8>>, perms: Seq<PermissionEntry>, pols: Seq<PolicyEntry>) -> bool {
    forall|k: int|
        0 <= k < pols.len() ==> contains_name(roles, (#[trigger] pols[k]).role@) && permission_exists(
            perms,
            pols[k].permission@,
        )
}

/// A policy stays when a role (`by_role`) or a permission called `name` goes.
pub open spec fn policy_stays(p: PolicyEntry, by_role: bool, name: Seq<u8>) -> bool {
    if by_role {
        p.role@ != name
    } else {
        p.permission@ != name
    }
}

/// `x` is one of the first `m` policies of `a`, and stays.
pub open spec fn kept_from(a: Seq<PolicyEntry>, x: PolicyEntry, m: int, by_role: bool, name: Seq<u8>) -> bool {
    exists|j: int| 0 <= j < m && j < a.len() && a[j] == x && policy_stays(a[j], by_role, name)
}

/// `x` is among the policies of `b`.
pub open spec fn listed(b: Seq<PolicyEntry>, x: PolicyEntry) -> bool {
    exists|k: int| 0 <= k < b.len() && b[k] == x
}

/// The policies of `b` are exactly those of `a` that stay.
pub open spec fn policies_kept(a: Seq<PolicyEntry>, b: Seq<PolicyEntry>, by_role: bool, name: Seq<u8>) -> bool {
    &&& forall|k: int| 0 <= k < b.len() ==> kept_from(a, #[trigger] b[k], a.len() as int, by_role, name)
    &&& forall|j: int| 0 <= j < a.len() && policy_stays(a[j], by_role, name) ==> listed(b, #[trigger] a[j])
}

/// Drops the policies bound to the role (`by_role`) or the permission
/// called `name`.
fn retain_policies(pols: Vec<PolicyEntry>, by_role: bool, name: &Vec<u8>) -> (r: Vec<PolicyEntry>)
    ensures
        policies_kept(pols@, r@, by_role, name@),
{
    let ghost all = pols@;
    let total_len = pols.len();
    let mut rest = pols;
    let mut kept: Vec<PolicyEntry> = Vec::new();
    let mut m: usize = 0;
    while rest.len() > 0
        invariant
            all.len() == total_len,
            m + rest@.len() == all.len(),
            rest@ == all.subrange(m as int, all.len() as int),
            forall|k: int| 0 <= k < kept@.len() ==> kept_from(all, #[trigger] kept@[k], m as int, by_role, name@),
            forall|j: int| 0 <= j < m && policy_stays(all[j], by_role, name@) ==> listed(kept@, #[trigger] all[j]),
        decreases rest.len(),
    {
        let p = rest.remove(0);
        assert(p == all[m as int]);
        assert(rest@ =~= all.subrange(m + 1, all.len() as int));
        let dropped = if by_role {
            bytes_eq(&p.role, name)
        } else {
            bytes_eq(&p.permission, name)
        };
        let ghost prev = kept@;
        if !dropped {
            kept.push(p);
        }
        proof {
            assert forall|k: int| 0 <= k < kept@.len() implies kept_from(all, #[trigger] kept@[k], m + 1, by_role, name@) by {
                if k < prev.len() {
                    assert(kept@[k] == prev[k]);
                    assert(kept_from(all, prev[k], m as int, by_role, name@));
                    let j = choose|j: int| 0 <= j < m && j < all.len() && all[j] == prev[k] && policy_stays(all[j], by_role, name@);
                    assert(all[j] == kept@[k]);
                } else {
                    assert(all[m as int] == kept@[k]);
                }
            }
            assert forall|j: int| 0 <= j < m + 1 && policy_stays(all[j], by_role, name@) implies listed(kept@, #[trigger] all[j]) by {
                if j < m {
                    assert(listed(prev, all[j]));
                    let k = choose|k: int| 0 <= k < prev.len() && prev[k] == all[j];
                    assert(kept@[k] == prev[k]);
                } else {
                    assert(!dropped);
                    assert(kept@[prev.len() as int] == all[j]);
                }
            }
        }
        m = m + 1;
    }
    kept
}

proof fn lemma_policies_after_role_push(roles: Seq<Vec<u8>>, role: Vec<u8>, perms: Seq<PermissionEntry>, pols: Seq<PolicyEntry>)
    requires
        policies_consistent(roles, perms, pols),
    ensures
        policies_consistent(roles.push(role), perms, pols),
{
    assert forall|k: int| 0 <= k < pols.len() implies contains_name(roles.push(role), #[trigger] pols[k].role@) by {
        let i = choose|i: int| 0 <= i < roles.len() && #[trigger] roles[i]@ == pols[k].role@;
        assert(roles.push(role)[i]@ == pols[k].role@);
    }
}

proof fn lemma_policies_after_permission_push(roles: Seq<Vec<u8>>, perms: Seq<PermissionEntry>, entry: PermissionEntry, pols: Seq<PolicyEntry>)
    requires
        policies_consistent(roles, perms, pols),
    ensures
        policies_consistent(roles, perms.push(entry), pols),
{
    assert forall|k: int| 0 <= k < pols.len() implies permission_exists(perms.push(entry), #[trigger] pols[k].permission@) by {
        let i = choose|i: int| 0 <= i < perms.len() && #[trigger] perms[i].name@ == pols[k].permission@;
        assert(perms.push(entry)[i].name@ == pols[k].permission@);
    }
}

/// Some policy binds `role` to `permission`.
pub open spec fn policy_exists(pols: Seq<PolicyEntry>, role: Seq<u8>, permission: Seq<u8>) -> bool {
    exists|k: int| 0 <= k < pols.len() && #[trigger] pols[k].role@ == role && pols[k].permission@ == permission
}


/// A user id is zero or the position of its address.
pub proof fn lemma_user_id_bound(users: Seq<UserEntry>, address: Seq<u8>)
    ensures
        user_id_of(users, address) <= users.len(),
        user_id_of(users, address) != 0 ==> users[user_id_of(users, address) - 1].address@ == address,
    decreases users.len(),
{
    if users.len() > 0 {
        lemma_user_id_bound(users.drop_last(), address);
    }
}

proof fn lemma_user_id_absent(users: Seq<UserEntry>, address: Seq<u8>)
    requires
        forall|j: int| 0 <= j < users.len() ==> #[trigger] users[j].address@ != address,
    ensures
        user_id_of(users, address) == 0,
    decreases users.len(),
{
    if users.len() > 0 {
        lemma_user_id_absent(users.drop_last(), address);
    }
}

proof fn lemma_user_id_first(users: Seq<UserEntry>, i: int, address: Seq<u8>)
    requires
        0 <= i < users.len(),
        users[i].address@ == address,
        forall|j: int| 0 <= j < i ==> #[trigger] users[j].address@ != address,
    ensures
        user_id_of(users, address) == i + 1,
    decreases users.len(),
{
    if users.len() == i + 1 {
        lemma_user_id_absent(users.drop_last(), address);
    } else {
        lemma_user_id_first(users.drop_last(), i, address);
    }
}

/// User ids depend on the addresses alone.
pub proof fn lemma_user_id_frame(a: Seq<UserEntry>, b: Seq<UserEntry>, address: Seq<u8>)
    requires
        a.len() == b.len(),
        forall|j: int| 0 <= j < a.len() ==> #[trigger] a[j].address@ == b[j].address@,
    ensures
        user_id_of(a, address) == user_id_of(b, address),
    decreases a.len(),
{
    if a.len() > 0 {
        lemma_user_id_frame(a.drop_last(), b.drop_last(), address);
    }
}

impl Entity {
    /// The state the entity keeps throughout.
    pub open spec fn wf(&self) -> bool {
        &&& unique_permission_names(self.permissions@)
        &&& policies_consistent(self.roles@, self.permissions@, self.policies@)
        &&& self.users@.len() < usize::MAX
        &&& self.proposals@.len() < u64::MAX
        &&& forall|i: int| 0 <= i < self.proposals@.len() ==> (#[trigger] self.proposals@[i]).wf(i + 1)
    }

    pub open spec fn role_exists(&self, role: Seq<u8>) -> bool {
        contains_name(self.roles@, role)
    }

    pub open spec fn member_amount_spec(&self, role: Seq<u8>) -> nat {
        member_count(self.users@, role)
    }

    pub open spec fn is_leaderless_spec(&self) -> bool {
        self.member_amount_spec(leader_role()) == 0
    }

    /// Everything but the users is as in `other`.
    pub open spec fn same_but_users(&self, other: &Entity) -> bool {
        &&& self.config == other.config
        &&& self.roles == other.roles
        &&& self.permissions == other.permissions
        &&& self.policies == other.policies
        &&& self.proposals == other.proposals
        &&& self.known_host_ids == other.known_host_ids
    }

    /// The user id of `address`, zero when it is unknown.
    pub fn get_user_id(&self, address: &Vec<u8>) -> (r: UserId)
        ensures
            r == user_id_of(self.users@, address@),
    {
        let mut i: usize = 0;
        while i < self.users.len()
            invariant
                0 <= i <= self.users.len(),
                forall|j: int| 0 <= j < i ==> #[trigger] self.users@[j].address@ != address@,
            decreases self.users.len() - i,
        {
            if bytes_eq(&self.users[i].address, address) {
                proof {
                    lemma_user_id_first(self.users@, i as int, address@);
                }
                return i + 1;
            }
            i = i + 1;
        }
        proof {
            lemma_user_id_absent(self.users@, address@);
        }
        0
    }

    /// The user id of `address`, registering the address when it is new.
    pub fn get_or_create_user(&mut self, address: &Vec<u8>) -> (r: UserId)
        requires
            old(self).wf(),
            old(self).users@.len() + 1 < usize::MAX,
        ensures
            final(self).wf(),
            final(self).same_but_users(old(self)),
            1 <= r <= final(self).users@.len(),
            final(self).users@[r - 1].address@ == address@,
            user_id_of(final(self).users@, address@) == r,
            user_id_of(old(self).users@, address@) != 0 ==> final(self).users@ == old(self).users@
                && r == user_id_of(old(self).users@, address@),
            user_id_of(old(self).users@, address@) == 0 ==> final(self).users@.len() == old(self).users@.len() + 1
                && final(self).users@.drop_last() == old(self).users@ && r == final(self).users@.len()
                && final(self).users@.last().roles@.len() == 0
                && final(self).users@.last().locked_proposals@.len() == 0,
    {
        let id = self.get_user_id(address);
        proof {
            lemma_user_id_bound(self.users@, address@);
        }
        if id != 0 {
            return id;
        }
        let ghost before = self.users@;
        let entry = UserEntry { address: copy_bytes(address), roles: Vec::new(), locked_proposals: Vec::new() };
        self.users.push(entry);
        proof {
            assert(self.users@.drop_last() =~= before);
        }
        self.users.len()
    }

    /// How many users hold `role`.
    pub fn member_amount(&self, role: &Vec<u8>) -> (r: usize)
        requires
            self.wf(),
        ensures
            r == self.member_amount_spec(role@),
    {
        let mut count: usize = 0;
        let mut i: usize = 0;
        while i < self.users.len()
            invariant
                0 <= i <= self.users.len(),
                self.users@.len() < usize::MAX,
                count == member_count(self.users@.subrange(0, i as int), role@),
                count <= i,
            decreases self.users.len() - i,
        {
            proof {
                lemma_prefix(self.users@, i as int);
            }
            if names_contain(&self.users[i].roles, role) {
                count = count + 1;
            }
            i = i + 1;
        }
        assert(self.users@.subrange(0, self.users@.len() as int) =~= self.users@);
        count
    }

    /// No one holds the leader role.
    pub fn is_leaderless(&self) -> (r: bool)
        requires
            self.wf(),
        ensures
            r == self.is_leaderless_spec(),
    {
        self.member_amount(&leader_role_name()) == 0
    }

    /// Whether the user `user` holds `role`.
    pub fn user_has_role(&self, user: UserId, role: &Vec<u8>) -> (r: bool)
        ensures
            r == user_has_role(self.users@, user, role@),
    {
        if user == 0 || user > self.users.len() {
            return false;
        }
        names_contain(&self.users[user - 1].roles, role)
    }

    /// Whether `address` holds `role`.
    pub fn has_role(&self, address: &Vec<u8>, role: &Vec<u8>) -> (r: bool)
        ensures
            r == user_has_role(self.users@, user_id_of(self.users@, address@) as UserId, role@),
    {
        let id = self.get_user_id(address);
        proof {
            lemma_user_id_bound(self.users@, address@);
        }
        self.user_has_role(id, role)
    }

    /// Whether `address` holds the leader role.
    pub fn has_leader_role(&self, address: &Vec<u8>) -> (r: bool)
        ensures
            r == user_has_role(self.users@, user_id_of(self.users@, address@) as UserId, leader_role()),
    {
        self.has_role(address, &leader_role_name())
    }

    /// The roles of `address`; none when it is unknown.
    pub fn get_user_roles_view(&self, address: &Vec<u8>) -> (r: Vec<Vec<u8>>)
        ensures
            user_id_of(self.users@, address@) == 0 ==> r@.len() == 0,
            user_id_of(self.users@, address@) != 0 ==> crate::bytes::names_view(r@) == crate::bytes::names_view(
                self.users@[user_id_of(self.users@, address@) - 1].roles@,
            ),
    {
        let id = self.get_user_id(address);
        proof {
            lemma_user_id_bound(self.users@, address@);
        }
        if id == 0 {
            return Vec::new();
        }
        crate::bytes::copy_names(&self.users[id - 1].roles)
    }

    /// Creates a role that does not exist yet.
    pub fn create_role(&mut self, role: Vec<u8>) -> (r: Result<(), Error>)
        requires
            old(self).wf(),
        ensures
            final(self).wf(),
            r is Ok <==> !old(self).role_exists(role@),
            r is Err ==> r == Err::<(), Error>(Error::RoleExists) && *final(self) == *old(self),
            r is Ok ==> *final(self) == (Entity { roles: final(self).roles, ..*old(self) })
                && final(self).roles@ == old(self).roles@.push(role),
    {
        if names_contain(&self.roles, &role) {
            return Err(Error::RoleExists);
        }
        proof {
            lemma_policies_after_role_push(self.roles@, role, self.permissions@, self.policies@);
        }
        self.roles.push(role);
        Ok(())
    }

    /// Everything but the users, the roles and the policies is as in `other`.
    pub open spec fn same_registry_but_roles(&self, other: &Entity) -> bool {
        &&& self.config == other.config
        &&& self.permissions == other.permissions
        &&& self.proposals == other.proposals
        &&& self.known_host_ids == other.known_host_ids
    }

    /// Removes a role, and takes it from every user who held it.
    pub fn remove_role(&mut self, role: &Vec<u8>) -> (r: Result<(), Error>)
        requires
            old(self).wf(),
        ensures
            final(self).wf(),
            r is Ok <==> old(self).role_exists(role@),
            r is Err ==> r == Err::<(), Error>(Error::RoleMissing) && *final(self) == *old(self),
            r is Ok ==> {
                &&& final(self).same_registry_but_roles(old(self))
                &&& policies_kept(old(self).policies@, final(self).policies@, true, role@)
                &&& forall|t: Seq<u8>| #[trigger] final(self).role_exists(t) <==> (t != role@ && old(self).role_exists(t))
                &&& final(self).users@.len() == old(self).users@.len()
                &&& forall|u: int| 0 <= u < final(self).users@.len() ==> {
                    &&& (#[trigger] final(self).users@[u]).address == old(self).users@[u].address
                    &&& final(self).users@[u].locked_proposals == old(self).users@[u].locked_proposals
                    &&& forall|t: Seq<u8>| #[trigger] contains_name(final(self).users@[u].roles@, t) <==> (t != role@
                        && contains_name(old(self).users@[u].roles@, t))
                }
                &&& final(self).member_amount_spec(role@) == 0
            },
    {
        if !names_contain(&self.roles, role) {
            return Err(Error::RoleMissing);
        }
        let ghost old_roles = self.roles@;
        self.roles = crate::bytes::without(&self.roles, role);
        let mut pols: Vec<PolicyEntry> = Vec::new();
        std::mem::swap(&mut pols, &mut self.policies);
        let ghost old_pols = pols@;
        self.policies = retain_policies(pols, true, role);
        proof {
            assert forall|k: int| 0 <= k < self.policies@.len() implies contains_name(self.roles@, #[trigger] self.policies@[k].role@)
                && permission_exists(self.permissions@, self.policies@[k].permission@) by {
                assert(kept_from(old_pols, self.policies@[k], old_pols.len() as int, true, role@));
                let j = choose|j: int| 0 <= j < old_pols.len() && j < old_pols.len() && old_pols[j] == self.policies@[k]
                    && policy_stays(old_pols[j], true, role@);
                assert(contains_name(old_roles, old_pols[j].role@));
            }
        }
        let ghost before = self.users@;
        let ghost roles_after = self.roles;
        let mut i: usize = 0;
        while i < self.users.len()
            invariant
                0 <= i <= self.users.len(),
                self.same_registry_but_roles(old(self)),
                self.roles == roles_after,
                policies_consistent(self.roles@, self.permissions@, self.policies@),
                policies_kept(old(self).policies@, self.policies@, true, role@),
                self.users@.len() == before.len(),
                forall|u: int| 0 <= u < before.len() ==> {
                    &&& (#[trigger] self.users@[u]).address == before[u].address
                    &&& self.users@[u].locked_proposals == before[u].locked_proposals
                },
                forall|u: int| i <= u < before.len() ==> #[trigger] self.users@[u] == before[u],
                forall|u: int, t: Seq<u8>|
                    0 <= u < i ==> (#[trigger] contains_name(self.users@[u].roles@, t) <==> (t
                        != role@ && contains_name(before[u].roles@, t))),
            decreases self.users.len() - i,
        {
            let ghost prev = self.users@;
            let mut entry = self.users.remove(i);
            entry.roles = crate::bytes::without(&entry.roles, role);
            self.users.insert(i, entry);
            assert(self.users@ =~= prev.update(i as int, entry));
            i = i + 1;
        }
        proof {
            lemma_no_members(self.users@, role@);
        }
        Ok(())
    }

    /// Gives `role` to `address`, creating the role and the user if needed.
    /// Giving a role twice counts the member once.
    pub fn assign_role(&mut self, address: &Vec<u8>, role: Vec<u8>)
        requires
            old(self).wf(),
            old(self).users@.len() + 1 < usize::MAX,
        ensures
            final(self).wf(),
            final(self).same_registry_but_roles(old(self)),
            final(self).policies == old(self).policies,
            forall|t: Seq<u8>| #[trigger] final(self).role_exists(t) <==> (t == role@ || old(self).role_exists(t)),
            user_has_role(final(self).users@, user_id_of(final(self).users@, address@) as UserId, role@),
            user_id_of(final(self).users@, address@) != 0,
            forall|u: int|
                0 <= u < final(self).users@.len() && u + 1 != user_id_of(final(self).users@, address@) ==> {
                    &&& u < old(self).users@.len()
                    &&& #[trigger] final(self).users@[u] == old(self).users@[u]
                },
            forall|t: Seq<u8>|
                #[trigger] contains_name(final(self).users@[user_id_of(final(self).users@, address@) - 1].roles@, t) <==> (
                t == role@ || user_has_role(old(self).users@, user_id_of(final(self).users@, address@) as UserId, t)),
    {
        if !names_contain(&self.roles, &role) {
            let c = copy_bytes(&role);
            self.roles.push(c);
            proof {
                assert forall|t: Seq<u8>| #[trigger] contains_name(self.roles@, t) <==> (t == role@ || contains_name(old(self).roles@, t)) by {
                    if contains_name(old(self).roles@, t) {
                        let k = choose|k: int| 0 <= k < old(self).roles@.len() && #[trigger] old(self).roles@[k]@ == t;
                        assert(self.roles@[k]@ == t);
                    }
                    if t == role@ {
                        assert(self.roles@[old(self).roles@.len() as int]@ == t);
                    }
                    if contains_name(self.roles@, t) {
                        let k = choose|k: int| 0 <= k < self.roles@.len() && #[trigger] self.roles@[k]@ == t;
                        if k < old(self).roles@.len() {
                            assert(old(self).roles@[k]@ == t);
                        }
                    }
                }
            }
        }
        let ghost mid = self.users@;
        let id = self.get_or_create_user(address);
        let ghost created = self.users@;
        let mut entry = self.users.remove(id - 1);
        let ghost old_roles = entry.roles@;
        if !names_contain(&entry.roles, &role) {
            entry.roles.push(role);
            proof {
                assert forall|t: Seq<u8>| #[trigger] contains_name(entry.roles@, t) <==> (t == role@ || contains_name(old_roles, t)) by {
                    if contains_name(old_roles, t) {
                        let k = choose|k: int| 0 <= k < old_roles.len() && #[trigger] old_roles[k]@ == t;
                        assert(entry.roles@[k]@ == t);
                    }
                    if t == role@ {
                        assert(entry.roles@[old_roles.len() as int]@ == t);
                    }
                    if contains_name(entry.roles@, t) {
                        let k = choose|k: int| 0 <= k < entry.roles@.len() && #[trigger] entry.roles@[k]@ == t;
                        if k < old_roles.len() {
                            assert(old_roles[k]@ == t);
                        }
                    }
                }
            }
        }
        self.users.insert(id - 1, entry);
        proof {
            assert(self.users@ =~= created.update(id - 1, entry));
            lemma_user_id_frame(self.users@, created, address@);
            if id <= mid.len() {
                assert(created == mid);
            } else {
                assert(!contains_name(old_roles, role@));
            }
        }
    }

    /// Takes `role` from `address`, registering the address if it is new.
    pub fn unassign_role(&mut self, address: &Vec<u8>, role: &Vec<u8>) -> (r: Result<(), Error>)
        requires
            old(self).wf(),
            old(self).users@.len() + 1 < usize::MAX,
        ensures
            final(self).wf(),
            r is Ok <==> old(self).role_exists(role@),
            r is Err ==> r == Err::<(), Error>(Error::RoleMissing) && *final(self) == *old(self),
            r is Ok ==> {
                &&& final(self).same_registry_but_roles(old(self))
                &&& final(self).policies == old(self).policies
                &&& final(self).roles == old(self).roles
                &&& user_id_of(final(self).users@, address@) != 0
                &&& !user_has_role(final(self).users@, user_id_of(final(self).users@, address@) as UserId, role@)
                &&& forall|u: int|
                    0 <= u < final(self).users@.len() && u + 1 != user_id_of(final(self).users@, address@) ==> {
                        &&& u < old(self).users@.len()
                        &&& #[trigger] final(self).users@[u] == old(self).users@[u]
                    }
                &&& forall|t: Seq<u8>|
                    t != role@ ==> (#[trigger] contains_name(
                        final(self).users@[user_id_of(final(self).users@, address@) - 1].roles@,
                        t,
                    ) <==> user_has_role(old(self).users@, user_id_of(final(self).users@, address@) as UserId, t))
            },
    {
        if !names_contain(&self.roles, role) {
            return Err(Error::RoleMissing);
        }
        let ghost mid = self.users@;
        let id = self.get_or_create_user(address);
        let ghost created = self.users@;
        let mut entry = self.users.remove(id - 1);
        entry.roles = crate::bytes::without(&entry.roles, role);
        self.users.insert(id - 1, entry);
        proof {
            assert(self.users@ =~= created.update(id - 1, entry));
            lemma_user_id_frame(self.users@, created, address@);
        }
        Ok(())
    }

    pub open spec fn permission_exists_spec(&self, name: Seq<u8>) -> bool {
        permission_exists(self.permissions@, name)
    }

    /// Creates a permission under a name not taken yet.
    pub fn create_permission(&mut self, name: Vec<u8>, details: PermissionDetails) -> (r: Result<(), Error>)
        requires
            old(self).wf(),
        ensures
            final(self).wf(),
            r is Ok <==> !old(self).permission_exists_spec(name@),
            r is Err ==> r == Err::<(), Error>(Error::PermissionExists) && *final(self) == *old(self),
            r is Ok ==> *final(self) == (Entity { permissions: final(self).permissions, ..*old(self) })
                && final(self).permissions@ == old(self).permissions@.push(PermissionEntry { name, details }),
    {
        if find_permission(&self.permissions, &name).is_some() {
            return Err(Error::PermissionExists);
        }
        let entry = PermissionEntry { name, details };
        proof {
            lemma_policies_after_permission_push(self.roles@, self.permissions@, entry, self.policies@);
        }
        self.permissions.push(entry);
        Ok(())
    }

    /// Creates a permission on a member's behalf: the wildcard and no-op
    /// names are reserved.
    pub fn create_permission_endpoint(&mut self, name: Vec<u8>, details: PermissionDetails) -> (r: Result<(), Error>)
        requires
            old(self).wf(),
        ensures
            final(self).wf(),
            r is Ok <==> (name@ != wildcard_permission() && name@ != noop_permission()
                && !old(self).permission_exists_spec(name@)),
            (name@ == wildcard_permission() || name@ == noop_permission()) ==> r == Err::<(), Error>(Error::ReservedPermission),
            (name@ != wildcard_permission() && name@ != noop_permission() && old(self).permission_exists_spec(name@))
                ==> r == Err::<(), Error>(Error::PermissionExists),
            r is Err ==> *final(self) == *old(self),
            r is Ok ==> *final(self) == (Entity { permissions: final(self).permissions, ..*old(self) })
                && final(self).permissions@ == old(self).permissions@.push(PermissionEntry { name, details }),
    {
        if bytes_eq(&name, &wildcard_permission_name()) || bytes_eq(&name, &noop_permission_name()) {
            return Err(Error::ReservedPermission);
        }
        self.create_permission(name, details)
    }

    /// Removes a permission, and the policies bound to it.
    pub fn remove_permission(&mut self, name: &Vec<u8>) -> (r: Result<(), Error>)
        requires
            old(self).wf(),
        ensures
            final(self).wf(),
            r is Ok <==> old(self).permission_exists_spec(name@),
            r is Err ==> r == Err::<(), Error>(Error::PermissionMissing) && *final(self) == *old(self),
            r is Ok ==> {
                &&& *final(self) == (Entity { permissions: final(self).permissions, policies: final(self).policies, ..*old(self) })
                &&& policies_kept(old(self).policies@, final(self).policies@, false, name@)
                &&& !final(self).permission_exists_spec(name@)
                &&& forall|t: Seq<u8>| t != name@ ==> (#[trigger] final(self).permission_exists_spec(t) <==> old(self).permission_exists_spec(t))
            },
    {
        match find_permission(&self.permissions, name) {
            None => Err(Error::PermissionMissing),
            Some(i) => {
                let ghost before = self.permissions@;
                let _removed = self.permissions.remove(i);
                let mut pols: Vec<PolicyEntry> = Vec::new();
                std::mem::swap(&mut pols, &mut self.policies);
                let ghost old_pols = pols@;
                self.policies = retain_policies(pols, false, name);
                proof {
                    assert forall|t: Seq<u8>| t != name@ implies (#[trigger] permission_exists(self.permissions@, t) <==> permission_exists(before, t)) by {
                        if t != name@ && permission_exists(before, t) {
                            let j = choose|j: int| 0 <= j < before.len() && #[trigger] before[j].name@ == t;
                            if j < i {
                                assert(self.permissions@[j].name@ == t);
                            } else {
                                assert(self.permissions@[j - 1].name@ == t);
                            }
                        }
                        if permission_exists(self.permissions@, t) {
                            let j = choose|j: int| 0 <= j < self.permissions@.len() && #[trigger] self.permissions@[j].name@ == t;
                            if j < i {
                                assert(before[j].name@ == t);
                            } else {
                                assert(before[j + 1].name@ == t);
                            }
                        }
                    }
                    if permission_exists(self.permissions@, name@) {
                        let j = choose|j: int| 0 <= j < self.permissions@.len() && #[trigger] self.permissions@[j].name@ == name@;
                        if j < i {
                            assert(before[j].name@ == name@);
                        } else {
                            assert(before[j + 1].name@ == name@);
                        }
                    }
                    assert forall|k: int| 0 <= k < self.policies@.len() implies contains_name(self.roles@, #[trigger] self.policies@[k].role@)
                        && permission_exists(self.permissions@, self.policies@[k].permission@) by {
                        assert(kept_from(old_pols, self.policies@[k], old_pols.len() as int, false, name@));
                        let j = choose|j: int| 0 <= j < old_pols.len() && j < old_pols.len() && old_pols[j] == self.policies@[k]
                            && policy_stays(old_pols[j], false, name@);
                        assert(permission_exists(before, old_pols[j].permission@));
                        assert(old_pols[j].permission@ != name@);
                        assert(permission_exists(self.permissions@, old_pols[j].permission@));
                    }
                }
                Ok(())
            },
        }
    }

    pub open spec fn policy_exists_spec(&self, role: Seq<u8>, permission: Seq<u8>) -> bool {
        policy_exists(self.policies@, role, permission)
    }

    pub(crate) fn find_policy(&self, role: &Vec<u8>, permission: &Vec<u8>) -> (r: Option<usize>)
        ensures
            r is Some ==> r->0 < self.policies@.len() && self.policies@[r->0 as int].role@ == role@
                && self.policies@[r->0 as int].permission@ == permission@,
            r is None <==> !self.policy_exists_spec(role@, permission@),
    {
        let mut k: usize = 0;
        while k < self.policies.len()
            invariant
                0 <= k <= self.policies.len(),
                forall|m: int| 0 <= m < k ==> !(#[trigger] self.policies@[m].role@ == role@ && self.policies@[m].permission@ == permission@),
            decreases self.policies.len() - k,
        {
            if bytes_eq(&self.policies[k].role, role) && bytes_eq(&self.policies[k].permission, permission) {
                return Some(k);
            }
            k = k + 1;
        }
        None
    }

    /// Binds `role` to `permission`; both must exist, and be bound by no
    /// other policy.
    pub fn create_policy(
        &mut self,
        role: Vec<u8>,
        permission: Vec<u8>,
        method: PolicyMethod,
        quorum: Amount,
        voting_period_minutes: usize,
    ) -> (r: Result<(), Error>)
        requires
            old(self).wf(),
        ensures
            final(self).wf(),
            r is Ok <==> (old(self).role_exists(role@) && old(self).permission_exists_spec(permission@)
                && !old(self).policy_exists_spec(role@, permission@)),
            !old(self).role_exists(role@) ==> r == Err::<(), Error>(Error::RoleMissing),
            old(self).role_exists(role@) && !old(self).permission_exists_spec(permission@) ==> r == Err::<(), Error>(Error::PermissionMissing),
            old(self).role_exists(role@) && old(self).permission_exists_spec(permission@) && old(self).policy_exists_spec(role@, permission@)
                ==> r == Err::<(), Error>(Error::PolicyExists),
            r is Err ==> *final(self) == *old(self),
            r is Ok ==> *final(self) == (Entity { policies: final(self).policies, ..*old(self) })
                && final(self).policies@ == old(self).policies@.push(PolicyEntry {
                    role,
                    permission,
                    policy: Policy { method, quorum, voting_period_minutes },
                }),
    {
        if !names_contain(&self.roles, &role) {
            return Err(Error::RoleMissing);
        }
        if find_permission(&self.permissions, &permission).is_none() {
            return Err(Error::PermissionMissing);
        }
        if self.find_policy(&role, &permission).is_some() {
            return Err(Error::PolicyExists);
        }
        self.policies.push(PolicyEntry { role, permission, policy: Policy { method, quorum, voting_period_minutes } });
        Ok(())
    }

    /// A token-weighted policy. The quorum and the voting period default to
    /// the organization's.
    pub fn create_policy_weighted(
        &mut self,
        role: Vec<u8>,
        permission: Vec<u8>,
        quorum: Option<Amount>,
        voting_period_minutes: Option<usize>,
    ) -> (r: Result<(), Error>)
        requires
            old(self).wf(),
        ensures
            final(self).wf(),
            ({
                let q = match quorum { Some(q) => q, None => old(self).config.default_quorum };
                let p = match voting_period_minutes { Some(p) => p, None => old(self).config.default_voting_period_minutes };
                &&& (old(self).config.gov_token is None && old(self).config.plug is None) ==> r == Err::<(), Error>(Error::NoWeightedGovMethod)
                &&& (old(self).config.gov_token is Some || old(self).config.plug is Some) ==> {
                    &&& q == 0 ==> r == Err::<(), Error>(Error::InvalidQuorum)
                    &&& q > 0 && p == 0 ==> r == Err::<(), Error>(Error::InvalidVotingPeriod)
                    &&& q > 0 && p > VOTING_PERIOD_MINUTES_MAX ==> r == Err::<(), Error>(Error::VotingPeriodTooLong)
                    &&& q > 0 && 0 < p <= VOTING_PERIOD_MINUTES_MAX ==> {
                        &&& (r is Ok <==> (old(self).role_exists(role@) && old(self).permission_exists_spec(permission@)
                            && !old(self).policy_exists_spec(role@, permission@)))
                        &&& r is Ok ==> final(self).policies@ == old(self).policies@.push(PolicyEntry {
                            role,
                            permission,
                            policy: Policy { method: PolicyMethod::Weight, quorum: q, voting_period_minutes: p },
                        })
                    }
                }
            }),
            r is Err ==> *final(self) == *old(self),
            r is Ok ==> *final(self) == (Entity { policies: final(self).policies, ..*old(self) }),
    {
        self.config.require_weighted_gov_method()?;
        let q = match quorum {
            Some(q) => q,
            None => self.config.default_quorum,
        };
        if q == 0 {
            return Err(Error::InvalidQuorum);
        }
        let p = match voting_period_minutes {
            Some(p) => p,
            None => self.config.default_voting_period_minutes,
        };
        if p == 0 {
            return Err(Error::InvalidVotingPeriod);
        }
        if p > VOTING_PERIOD_MINUTES_MAX {
            return Err(Error::VotingPeriodTooLong);
        }
        self.create_policy(role, permission, PolicyMethod::Weight, q, p)
    }

    /// A policy that lets one member act alone.
    pub fn create_policy_one(&mut self, role: Vec<u8>, permission: Vec<u8>) -> (r: Result<(), Error>)
        requires
            old(self).wf(),
        ensures
            final(self).wf(),
            r is Ok <==> (old(self).role_exists(role@) && old(self).permission_exists_spec(permission@)
                && !old(self).policy_exists_spec(role@, permission@)),
            r is Err ==> *final(self) == *old(self),
            r is Ok ==> *final(self) == (Entity { policies: final(self).policies, ..*old(self) })
                && final(self).policies@ == old(self).policies@.push(PolicyEntry {
                    role,
                    permission,
                    policy: Policy { method: PolicyMethod::One, quorum: 1, voting_period_minutes: 0 },
                }),
    {
        self.create_policy(role, permission, PolicyMethod::One, 1, 0)
    }

    /// A policy that every member of the role must sign.
    pub fn create_policy_all(&mut self, role: Vec<u8>, permission: Vec<u8>) -> (r: Result<(), Error>)
        requires
            old(self).wf(),
        ensures
            final(self).wf(),
            r is Ok <==> (old(self).role_exists(role@) && old(self).permission_exists_spec(permission@)
                && !old(self).policy_exists_spec(role@, permission@)),
            r is Err ==> *final(self) == *old(self),
            r is Ok ==> *final(self) == (Entity { policies: final(self).policies, ..*old(self) })
                && final(self).policies@ == old(self).policies@.push(PolicyEntry {
                    role,
                    permission,
                    policy: Policy {
                        method: PolicyMethod::All,
                        quorum: 0,
                        voting_period_minutes: old(self).config.default_voting_period_minutes,
                    },
                }),
    {
        let period = self.config.default_voting_period_minutes;
        self.create_policy(role, permission, PolicyMethod::All, 0, period)
    }

    /// A policy that `quorum` members of the role must sign.
    pub fn create_policy_quorum(&mut self, role: Vec<u8>, permission: Vec<u8>, quorum: usize) -> (r: Result<(), Error>)
        requires
            old(self).wf(),
        ensures
            final(self).wf(),
            r is Ok <==> (old(self).role_exists(role@) && old(self).permission_exists_spec(permission@)
                && !old(self).policy_exists_spec(role@, permission@)),
            r is Err ==> *final(self) == *old(self),
            r is Ok ==> *final(self) == (Entity { policies: final(self).policies, ..*old(self) })
                && final(self).policies@ == old(self).policies@.push(PolicyEntry {
                    role,
                    permission,
                    policy: Policy {
                        method: PolicyMethod::Quorum,
                        quorum: quorum as Amount,
                        voting_period_minutes: old(self).config.default_voting_period_minutes,
                    },
                }),
    {
        let period = self.config.default_voting_period_minutes;
        self.create_policy(role, permission, PolicyMethod::Quorum, quorum as Amount, period)
    }

    /// A policy that more than half of the role's members must sign.
    pub fn create_policy_majority(&mut self, role: Vec<u8>, permission: Vec<u8>) -> (r: Result<(), Error>)
        requires
            old(self).wf(),
        ensures
            final(self).wf(),
            r is Ok <==> (old(self).role_exists(role@) && old(self).permission_exists_spec(permission@)
                && !old(self).policy_exists_spec(role@, permission@)),
            r is Err ==> *final(self) == *old(self),
            r is Ok ==> *final(self) == (Entity { policies: final(self).policies, ..*old(self) })
                && final(self).policies@ == old(self).policies@.push(PolicyEntry {
                    role,
                    permission,
                    policy: Policy {
                        method: PolicyMethod::Majority,
                        quorum: 0,
                        voting_period_minutes: old(self).config.default_voting_period_minutes,
                    },
                }),
    {
        let period = self.config.default_voting_period_minutes;
        self.create_policy(role, permission, PolicyMethod::Majority, 0, period)
    }

    /// Removes the policy binding `role` to `permission`.
    pub fn remove_policy(&mut self, role: &Vec<u8>, permission: &Vec<u8>) -> (r: Result<(), Error>)
        requires
            old(self).wf(),
        ensures
            final(self).wf(),
            r is Ok <==> (old(self).role_exists(role@) && old(self).permission_exists_spec(permission@)
                && old(self).policy_exists_spec(role@, permission@)),
            !old(self).role_exists(role@) ==> r == Err::<(), Error>(Error::RoleMissing),
            old(self).role_exists(role@) && !old(self).permission_exists_spec(permission@) ==> r == Err::<(), Error>(Error::PermissionMissing),
            old(self).role_exists(role@) && old(self).permission_exists_spec(permission@) && !old(self).policy_exists_spec(role@, permission@)
                ==> r == Err::<(), Error>(Error::PolicyMissing),
            r is Err ==> *final(self) == *old(self),
            r is Ok ==> *final(self) == (Entity { policies: final(self).policies, ..*old(self) })
                && exists|k: int| 0 <= k < old(self).policies@.len() && #[trigger] old(self).policies@[k].role@ == role@
                    && old(self).policies@[k].permission@ == permission@
                    && final(self).policies@ == old(self).policies@.remove(k),
    {
        if !names_contain(&self.roles, role) {
            return Err(Error::RoleMissing);
        }
        if find_permission(&self.permissions, permission).is_none() {
            return Err(Error::PermissionMissing);
        }
        match self.find_policy(role, permission) {
            None => Err(Error::PolicyMissing),
            Some(k) => {
                let _removed = self.policies.remove(k);
                Ok(())
            },
        }
    }
}

proof fn lemma_no_members(users: Seq<UserEntry>, role: Seq<u8>)
    requires
        forall|u: int| 0 <= u < users.len() ==> !contains_name(#[trigger] users[u].roles@, role),
    ensures
        member_count(users, role) == 0,
    decreases users.len(),
{
    if users.len() > 0 {
        assert(!contains_name(users[users.len() - 1].roles@, role));
        lemma_no_members(users.drop_last(), role);
    }
}

} // verus!
