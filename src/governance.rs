use vstd::prelude::*;

use crate::authorize::{execute_info_spec, get_actions_execute_info};
use crate::bytes::{bytes_eq, names_eq, names_view};
use crate::config::{Amount, LockedVote, Payment, ProposalId, ProposalRole, Timestamp, UserId, POLL_MAX_OPTIONS};
use crate::entity::{member_count, user_id_of, Entity};
use crate::hash::{actions_hash_spec, calculate_actions_hash};
use crate::ledger::{ensure_tokens_available_for_actions, tokens_available};
use crate::error::Error;
use crate::permission::PolicyMethod;
use crate::proposal::{
    derive_status, policy_fulfilled, policy_fulfilled_spec, status_spec, Action, Proposal,
    ProposalDetails, ProposalStatus,
};

verus! {

/// The tally of one of a proposal's roles: weighted votes and signers.
#[derive(Debug)]
pub struct RoleTally {
    pub votes: ProposalRole,
    /// Distinct users who signed for this role.
    pub signers: Vec<UserId>,
}

/// The payments one voter has locked on one proposal.
#[derive(Debug)]
pub struct VoterLocks {
    pub voter: UserId,
    pub votes: Vec<LockedVote>,
}

/// A proposal with everything recorded about it.
#[derive(Debug)]
pub struct ProposalRecord {
    pub proposal: Proposal,
    pub details: ProposalDetails,
    /// The status, once the proposal concluded and was archived.
    pub result: Option<ProposalStatus>,
    /// One tally per entry of the proposal's roles, in the same order.
    pub tallies: Vec<RoleTally>,
    /// Poll weight of option `k` at index `k - 1`.
    pub poll: Vec<Amount>,
    /// Nonces of non-fungible units that voted.
    pub nft_votes: Vec<u64>,
    /// Users whose oracle weight was counted.
    pub plug_votes: Vec<UserId>,
    pub locked: Vec<VoterLocks>,
}

pub open spec fn no_duplicates(s: Seq<UserId>) -> bool {
    forall|i: int, j: int| 0 <= i < s.len() && 0 <= j < s.len() && i != j ==> s[i] != s[j]
}

impl ProposalRecord {
    /// An open record has one tally per role and a slot per poll option;
    /// an archived one keeps only its proposal, result and locked votes.
    pub open spec fn wf(&self, id: int) -> bool {
        &&& self.proposal.id == id
        &&& self.result is None ==> {
            &&& self.tallies@.len() == self.proposal.roles@.len()
            &&& self.poll@.len() == POLL_MAX_OPTIONS
            &&& forall|i: int| 0 <= i < self.tallies@.len() ==> no_duplicates(#[trigger] self.tallies@[i].signers@)
        }
    }

    /// The record as archived with `status`: the status is kept, the detail
    /// records are cleared, the locked votes stay for withdrawal.
    pub open spec fn archived_as(&self, old: ProposalRecord, status: ProposalStatus) -> bool {
        &&& self.proposal == old.proposal
        &&& self.locked == old.locked
        &&& self.result == Some(status)
        &&& self.details.token == old.details.token
        &&& self.details.plug == old.details.plug
        &&& self.details.quorum == old.details.quorum
        &&& self.details.permissions@.len() == 0
        &&& self.tallies@.len() == 0
        &&& self.poll@.len() == 0
        &&& self.nft_votes@.len() == 0
        &&& self.plug_votes@.len() == 0
    }

    /// Archives the record with `status`.
    fn archive(&mut self, status: ProposalStatus)
        ensures
            final(self).archived_as(*old(self), status),
    {
        self.result = Some(status);
        self.details.permissions = Vec::new();
        self.tallies = Vec::new();
        self.poll = Vec::new();
        self.nft_votes = Vec::new();
        self.plug_votes = Vec::new();
    }
}

/// Whether the policy at index `k` is fulfilled for the proposal's role at
/// index `i`; a policy of another role says nothing about it.
pub open spec fn role_policy_ok(e: Entity, rec: ProposalRecord, i: int, k: int) -> bool {
    let entry = e.policies@[k];
    let tally = rec.tallies@[i];
    entry.role@ == rec.proposal.roles@[i]@ ==> policy_fulfilled_spec(
        entry.policy,
        tally.votes,
        tally.signers@.len(),
        tally.signers@.contains(rec.proposal.proposer),
        member_count(e.users@, entry.role@),
    )
}

/// Every policy of every role of the proposal is fulfilled.
pub open spec fn policies_fulfilled_spec(e: Entity, rec: ProposalRecord) -> bool {
    forall|i: int, k: int|
        0 <= i < rec.proposal.roles@.len() && 0 <= k < e.policies@.len() ==> #[trigger] role_policy_ok(e, rec, i, k)
}

/// Some role of the proposal has a token-weighted policy.
pub open spec fn has_weighted_spec(e: Entity, rec: ProposalRecord) -> bool {
    exists|i: int, k: int|
        0 <= i < rec.proposal.roles@.len() && 0 <= k < e.policies@.len() && #[trigger] e.policies@[k].role@
            == #[trigger] rec.proposal.roles@[i]@ && e.policies@[k].policy.method == PolicyMethod::Weight
}

/// The live status of a proposal record at time `now`.
pub open spec fn live_status(e: Entity, rec: ProposalRecord, now: Timestamp) -> ProposalStatus {
    status_spec(rec.proposal, now, policies_fulfilled_spec(e, rec), has_weighted_spec(e, rec))
}

/// The status of a proposal record: the archived one, or the live one.
pub open spec fn record_status(e: Entity, rec: ProposalRecord, now: Timestamp) -> ProposalStatus {
    match rec.result {
        Some(s) => s,
        None => live_status(e, rec, now),
    }
}

pub(crate) fn contains_user(s: &Vec<UserId>, u: UserId) -> (r: bool)
    ensures
        r == s@.contains(u),
{
    let mut i: usize = 0;
    while i < s.len()
        invariant
            0 <= i <= s.len(),
            forall|j: int| 0 <= j < i ==> s@[j] != u,
        decreases s.len() - i,
    {
        if s[i] == u {
            return true;
        }
        i = i + 1;
    }
    false
}

impl Entity {
    pub open spec fn record(&self, id: ProposalId) -> ProposalRecord {
        self.proposals@[id - 1]
    }

    pub open spec fn has_proposal(&self, id: ProposalId) -> bool {
        1 <= id <= self.proposals@.len()
    }

    /// Whether all policies of the proposal at index `idx` are fulfilled,
    /// and whether any of them is token-weighted.
    pub fn are_policies_fulfilled(&self, idx: usize) -> (r: (bool, bool))
        requires
            self.wf(),
            idx < self.proposals@.len(),
            self.proposals@[idx as int].result is None,
        ensures
            r.0 == policies_fulfilled_spec(*self, self.proposals@[idx as int]),
            r.1 == has_weighted_spec(*self, self.proposals@[idx as int]),
    {
        let rec = &self.proposals[idx];
        assert(rec.wf(idx + 1));
        let ghost n = self.policies@.len() as int;
        let mut all = true;
        let mut weighted = false;
        let mut i: usize = 0;
        while i < rec.proposal.roles.len()
            invariant
                self.wf(),
                idx < self.proposals@.len(),
                rec == self.proposals@[idx as int],
                rec.result is None,
                rec.wf(idx + 1),
                n == self.policies@.len(),
                0 <= i <= rec.proposal.roles@.len(),
                all ==> forall|i2: int, k: int|
                    0 <= i2 < i && 0 <= k < n ==> #[trigger] role_policy_ok(*self, *rec, i2, k),
                !all ==> exists|i2: int, k: int| 0 <= i2 < i && 0 <= k < n && !#[trigger] role_policy_ok(*self, *rec, i2, k),
                weighted ==> exists|i2: int, k: int|
                    0 <= i2 < i && 0 <= k < n && #[trigger] self.policies@[k].role@
                        == #[trigger] rec.proposal.roles@[i2]@ && self.policies@[k].policy.method == PolicyMethod::Weight,
                !weighted ==> forall|i2: int, k: int|
                    0 <= i2 < i && 0 <= k < n && #[trigger] self.policies@[k].role@
                        == #[trigger] rec.proposal.roles@[i2]@ ==> self.policies@[k].policy.method != PolicyMethod::Weight,
            decreases rec.proposal.roles@.len() - i,
        {
            let role = &rec.proposal.roles[i];
            let tally = &rec.tallies[i];
            let mut k: usize = 0;
            while k < self.policies.len()
                invariant
                    self.wf(),
                    idx < self.proposals@.len(),
                    rec == self.proposals@[idx as int],
                    rec.result is None,
                    rec.wf(idx + 1),
                    n == self.policies@.len(),
                    0 <= i < rec.proposal.roles@.len(),
                    role == rec.proposal.roles@[i as int],
                    tally == rec.tallies@[i as int],
                    0 <= k <= n,
                    all ==> forall|i2: int, k2: int|
                        0 <= i2 < i && 0 <= k2 < n ==> #[trigger] role_policy_ok(*self, *rec, i2, k2),
                    all ==> forall|k2: int| 0 <= k2 < k ==> #[trigger] role_policy_ok(*self, *rec, i as int, k2),
                    !all ==> exists|i2: int, k2: int|
                        0 <= i2 <= i && 0 <= k2 < n && !#[trigger] role_policy_ok(*self, *rec, i2, k2),
                    weighted ==> exists|i2: int, k2: int|
                        0 <= i2 <= i && 0 <= k2 < n && #[trigger] self.policies@[k2].role@
                            == #[trigger] rec.proposal.roles@[i2]@ && self.policies@[k2].policy.method == PolicyMethod::Weight,
                    !weighted ==> forall|i2: int, k2: int|
                        0 <= i2 < i && 0 <= k2 < n && #[trigger] self.policies@[k2].role@
                            == #[trigger] rec.proposal.roles@[i2]@ ==> self.policies@[k2].policy.method != PolicyMethod::Weight,
                    !weighted ==> forall|k2: int|
                        0 <= k2 < k && #[trigger] self.policies@[k2].role@ == role@ ==> self.policies@[k2].policy.method
                            != PolicyMethod::Weight,
                decreases n - k,
            {
                let entry = &self.policies[k];
                let ghost this_ok = role_policy_ok(*self, *rec, i as int, k as int);
                if bytes_eq(&entry.role, role) {
                    if entry.policy.method == PolicyMethod::Weight {
                        weighted = true;
                        assert(self.policies@[k as int].role@ == rec.proposal.roles@[i as int]@);
                    }
                    let members = self.member_amount(&entry.role);
                    let signed = contains_user(&tally.signers, rec.proposal.proposer);
                    let ok = policy_fulfilled(&entry.policy, &tally.votes, tally.signers.len(), signed, members);
                    assert(this_ok == ok);
                    if !ok {
                        all = false;
                        assert(!role_policy_ok(*self, *rec, i as int, k as int));
                    }
                } else {
                    assert(this_ok);
                }
                k = k + 1;
            }
            proof {
                if !weighted {
                    assert forall|i2: int, k2: int|
                        0 <= i2 < i + 1 && 0 <= k2 < n && #[trigger] self.policies@[k2].role@
                            == #[trigger] rec.proposal.roles@[i2]@ implies self.policies@[k2].policy.method != PolicyMethod::Weight by {
                        if i2 == i {
                            assert(self.policies@[k2].role@ == role@);
                        }
                    }
                }
                if all {
                    assert forall|i2: int, k2: int|
                        0 <= i2 < i + 1 && 0 <= k2 < n implies #[trigger] role_policy_ok(*self, *rec, i2, k2) by {
                        if i2 == i {
                            assert(role_policy_ok(*self, *rec, i as int, k2));
                        }
                    }
                }
            }
            i = i + 1;
        }
        (all, weighted)
    }
}

/// The user `user` holds the proposal's role at index `i`.
pub open spec fn intersects(e: Entity, rec: ProposalRecord, user: UserId, i: int) -> bool {
    crate::entity::user_has_role(e.users@, user, rec.proposal.roles@[i]@)
}

/// The user holds at least one of the proposal's roles.
pub open spec fn has_intersecting_role(e: Entity, rec: ProposalRecord, user: UserId) -> bool {
    exists|i: int| 0 <= i < rec.proposal.roles@.len() && #[trigger] intersects(e, rec, user, i)
}

/// The poll after `w` more weight went to `option`; option zero, an
/// option past the last one, or no weight leave it as it is.
pub open spec fn poll_after(poll: Seq<Amount>, option: u8, w: nat) -> Seq<Amount> {
    if 1 <= option <= POLL_MAX_OPTIONS && w > 0 {
        poll.update(option - 1, (poll[option - 1] + w) as Amount)
    } else {
        poll
    }
}

/// Adding `w` to the poll stays within the amount type.
pub open spec fn poll_fits(poll: Seq<Amount>, option: u8, w: nat) -> bool {
    1 <= option <= POLL_MAX_OPTIONS && w > 0 ==> poll[option - 1] + w <= u128::MAX
}

impl ProposalRecord {
    pub(crate) fn cast_poll_vote(&mut self, option: u8, w: Amount)
        requires
            old(self).poll@.len() == POLL_MAX_OPTIONS,
            poll_fits(old(self).poll@, option, w as nat),
        ensures
            *final(self) == (ProposalRecord { poll: final(self).poll, ..*old(self) }),
            final(self).poll@ == poll_after(old(self).poll@, option, w as nat),
    {
        if option == 0 || option > POLL_MAX_OPTIONS || w == 0 {
            return;
        }
        let k = (option - 1) as usize;
        let current = self.poll[k];
        self.poll.set(k, current + w);
    }
}

impl Entity {
    /// The proposal with id `id` exists and is not archived.
    pub open spec fn is_open(&self, id: ProposalId) -> bool {
        self.has_proposal(id) && self.record(id).result is None
    }

    pub(crate) fn open_index(&self, id: ProposalId) -> (r: Result<usize, Error>)
        requires
            self.wf(),
        ensures
            r is Ok <==> self.is_open(id),
            r is Ok ==> r->Ok_0 == id - 1,
            r is Err ==> r == Err::<usize, Error>(Error::ProposalMissing),
    {
        if id == 0 || id > self.proposals.len() as u64 {
            return Err(Error::ProposalMissing);
        }
        let idx = (id - 1) as usize;
        if self.proposals[idx].result.is_some() {
            return Err(Error::ProposalMissing);
        }
        Ok(idx)
    }

    /// The live status of the proposal at index `idx`.
    pub fn get_proposal_status(&self, idx: usize, now: Timestamp) -> (r: ProposalStatus)
        requires
            self.wf(),
            idx < self.proposals@.len(),
            self.proposals@[idx as int].result is None,
        ensures
            r == live_status(*self, self.proposals@[idx as int], now),
    {
        let (all, weighted) = self.are_policies_fulfilled(idx);
        derive_status(&self.proposals[idx].proposal, now, all, weighted)
    }

    /// The status of proposal `id`: archived, or derived at time `now`.
    pub fn get_proposal_status_view(&self, id: ProposalId, now: Timestamp) -> (r: Result<ProposalStatus, Error>)
        requires
            self.wf(),
        ensures
            r is Ok <==> self.has_proposal(id),
            r is Ok ==> r->Ok_0 == record_status(*self, self.record(id), now),
            r is Err ==> r == Err::<ProposalStatus, Error>(Error::ProposalMissing),
    {
        if id == 0 || id > self.proposals.len() as u64 {
            return Err(Error::ProposalMissing);
        }
        let idx = (id - 1) as usize;
        match self.proposals[idx].result {
            Some(s) => Ok(s),
            None => Ok(self.get_proposal_status(idx, now)),
        }
    }

    /// Signs proposal `id` for every one of its roles that the signer holds.
    /// Only the signer's first signature casts a poll vote, of weight one.
    pub fn sign(&mut self, signer: &Vec<u8>, id: ProposalId, option: u8, now: Timestamp) -> (r: Result<(), Error>)
        requires
            old(self).wf(),
        ensures
            final(self).wf(),
            ({
                let uid = crate::entity::user_id_of(old(self).users@, signer@) as UserId;
                let rec = old(self).record(id);
                let first = forall|i: int|
                    0 <= i < rec.tallies@.len() && #[trigger] intersects(*old(self), rec, uid, i)
                        ==> !rec.tallies@[i].signers@.contains(uid);
                &&& !old(self).is_open(id) ==> r == Err::<(), Error>(Error::ProposalMissing)
                &&& old(self).is_open(id) && live_status(*old(self), rec, now) != ProposalStatus::Active
                    ==> r == Err::<(), Error>(Error::ProposalNotActive)
                &&& old(self).is_open(id) && live_status(*old(self), rec, now) == ProposalStatus::Active
                    && !has_intersecting_role(*old(self), rec, uid) ==> r == Err::<(), Error>(Error::MissingRoles)
                &&& old(self).is_open(id) && live_status(*old(self), rec, now) == ProposalStatus::Active
                    && has_intersecting_role(*old(self), rec, uid) ==> {
                    &&& r is Ok <==> (!first || poll_fits(rec.poll@, option, 1))
                    &&& r is Err ==> r == Err::<(), Error>(Error::Overflow)
                    &&& r is Ok ==> {
                        let new_rec = final(self).record(id);
                        &&& *final(self) == (Entity { proposals: final(self).proposals, ..*old(self) })
                        &&& final(self).proposals@ == old(self).proposals@.update(id - 1, new_rec)
                        &&& new_rec.proposal == rec.proposal
                        &&& new_rec.details == rec.details
                        &&& new_rec.result == rec.result
                        &&& new_rec.nft_votes == rec.nft_votes
                        &&& new_rec.plug_votes == rec.plug_votes
                        &&& new_rec.locked == rec.locked
                        &&& new_rec.tallies@.len() == rec.tallies@.len()
                        &&& forall|i: int| 0 <= i < rec.tallies@.len() ==> {
                            &&& (#[trigger] new_rec.tallies@[i]).votes == rec.tallies@[i].votes
                            &&& new_rec.tallies@[i].signers@ == if intersects(*old(self), rec, uid, i)
                                && !rec.tallies@[i].signers@.contains(uid) {
                                rec.tallies@[i].signers@.push(uid)
                            } else {
                                rec.tallies@[i].signers@
                            }
                        }
                        &&& new_rec.poll@ == if first {
                            poll_after(rec.poll@, option, 1)
                        } else {
                            rec.poll@
                        }
                    }
                }
            }),
            r is Err ==> *final(self) == *old(self),
            settled_kept(old(self).proposals@, final(self).proposals@),
    {
        let idx = self.open_index(id)?;
        if self.get_proposal_status(idx, now) != ProposalStatus::Active {
            return Err(Error::ProposalNotActive);
        }
        let uid = self.get_user_id(signer);
        let ghost rec0 = self.proposals@[idx as int];
        assert(rec0.wf(idx + 1));
        let mut any = false;
        let mut first = true;
        let mut i: usize = 0;
        while i < self.proposals[idx].proposal.roles.len()
            invariant
                self.wf(),
                idx < self.proposals@.len(),
                self.proposals@[idx as int] == rec0,
                rec0.wf(idx + 1),
                rec0.result is None,
                0 <= i <= rec0.proposal.roles@.len(),
                any ==> exists|i2: int| 0 <= i2 < i && #[trigger] intersects(*self, rec0, uid, i2),
                !any ==> forall|i2: int| 0 <= i2 < i ==> !#[trigger] intersects(*self, rec0, uid, i2),
                first ==> forall|i2: int|
                    0 <= i2 < i && #[trigger] intersects(*self, rec0, uid, i2) ==> !rec0.tallies@[i2].signers@.contains(uid),
                !first ==> exists|i2: int|
                    0 <= i2 < i && #[trigger] intersects(*self, rec0, uid, i2) && rec0.tallies@[i2].signers@.contains(uid),
            decreases rec0.proposal.roles@.len() - i,
        {
            if self.user_has_role(uid, &self.proposals[idx].proposal.roles[i]) {
                any = true;
                assert(intersects(*self, rec0, uid, i as int));
                if contains_user(&self.proposals[idx].tallies[i].signers, uid) {
                    first = false;
                }
            } else {
                assert(!intersects(*self, rec0, uid, i as int));
            }
            i = i + 1;
        }
        if !any {
            return Err(Error::MissingRoles);
        }
        if first && 1 <= option && option <= POLL_MAX_OPTIONS {
            if self.proposals[idx].poll[(option - 1) as usize] == u128::MAX {
                return Err(Error::Overflow);
            }
        }
        let ghost before = *self;
        let mut rec = self.proposals.remove(idx);
        let mut i: usize = 0;
        while i < rec.tallies.len()
            invariant
                self.users == before.users,
                rec.proposal == rec0.proposal,
                rec.details == rec0.details,
                rec.result == rec0.result,
                rec.poll == rec0.poll,
                rec.nft_votes == rec0.nft_votes,
                rec.plug_votes == rec0.plug_votes,
                rec.locked == rec0.locked,
                rec.tallies@.len() == rec0.tallies@.len(),
                rec0.wf(idx + 1),
                rec0.result is None,
                0 <= i <= rec.tallies@.len(),
                forall|i2: int| i <= i2 < rec.tallies@.len() ==> #[trigger] rec.tallies@[i2] == rec0.tallies@[i2],
                forall|i2: int| 0 <= i2 < i ==> {
                    &&& (#[trigger] rec.tallies@[i2]).votes == rec0.tallies@[i2].votes
                    &&& rec.tallies@[i2].signers@ == if intersects(before, rec0, uid, i2)
                        && !rec0.tallies@[i2].signers@.contains(uid) {
                        rec0.tallies@[i2].signers@.push(uid)
                    } else {
                        rec0.tallies@[i2].signers@
                    }
                    &&& no_duplicates(rec.tallies@[i2].signers@)
                },
            decreases rec.tallies@.len() - i,
        {
            if self.user_has_role(uid, &rec.proposal.roles[i]) {
                let ghost t0 = rec.tallies@[i as int];
                let mut tally = rec.tallies.remove(i);
                if !contains_user(&tally.signers, uid) {
                    tally.signers.push(uid);
                    assert(no_duplicates(tally.signers@));
                }
                rec.tallies.insert(i, tally);
            }
            i = i + 1;
        }
        rec.cast_poll_vote(option, if first { 1 } else { 0 });
        self.proposals.insert(idx, rec);
        proof {
            assert(self.proposals@ =~= before.proposals@.update(idx as int, rec));
            assert(rec.wf(idx + 1));
        }
        Ok(())
    }
}

/// The status a record is settled in for good, if any: archived, canceled
/// or executed.
pub open spec fn settled_status(rec: ProposalRecord) -> Option<ProposalStatus> {
    match rec.result {
        Some(s) => if s == ProposalStatus::Executed || s == ProposalStatus::Canceled {
            Some(s)
        } else {
            None
        },
        None => if rec.proposal.ends_at == 0 {
            Some(ProposalStatus::Canceled)
        } else if rec.proposal.executed {
            Some(ProposalStatus::Executed)
        } else {
            None
        },
    }
}

/// No proposal of `a` that was executed or canceled is otherwise in `b`.
pub open spec fn settled_kept(a: Seq<ProposalRecord>, b: Seq<ProposalRecord>) -> bool {
    &&& a.len() <= b.len()
    &&& forall|i: int| 0 <= i < a.len() && (#[trigger] settled_status(a[i])) is Some ==> settled_status(b[i]) == settled_status(a[i])
}

/// The roles of the user `user`; none for an unknown user.
pub open spec fn roles_of(e: Entity, user: UserId) -> Seq<Vec<u8>> {
    if 1 <= user <= e.users@.len() {
        e.users@[user - 1].roles@
    } else {
        seq![]
    }
}

/// Why executing `actions` through proposal `id` at time `now` is refused,
/// given the digest `hash` of the actions; none when it is not.
pub open spec fn execute_error(
    e: Entity,
    id: ProposalId,
    actions: Seq<Action>,
    hash: Seq<u8>,
    balances: Seq<Payment>,
    now: Timestamp,
) -> Option<Error> {
    let rec = e.record(id);
    if actions.len() == 0 {
        Some(Error::NoActions)
    } else if !e.is_open(id) {
        Some(Error::ProposalMissing)
    } else if rec.proposal.actions_hash@ != hash {
        Some(Error::ActionsCorrupted)
    } else if rec.proposal.executed {
        Some(Error::AlreadyExecuted)
    } else {
        let approved = live_status(e, rec, now) == ProposalStatus::Succeeded;
        let info = execute_info_spec(roles_of(e, rec.proposal.proposer), e.policies@, e.permissions@, actions, approved);
        if !info.0 {
            Some(Error::NoPermissionForAction)
        } else if info.1 != names_view(rec.details.permissions@) {
            Some(Error::UntruthfulPermissions)
        } else if !tokens_available(actions, e.proposals@, balances) {
            Some(Error::TokensUnavailable)
        } else {
            None
        }
    }
}

impl Entity {
    /// Whether the user `user` may run `actions`, and the permissions used.
    fn execute_info(&self, user: UserId, actions: &Vec<Action>, approved: bool) -> (r: (bool, Vec<Vec<u8>>))
        requires
            self.wf(),
        ensures
            r.0 == execute_info_spec(roles_of(*self, user), self.policies@, self.permissions@, actions@, approved).0,
            names_view(r.1@) == execute_info_spec(roles_of(*self, user), self.policies@, self.permissions@, actions@, approved).1,
    {
        if user == 0 || user > self.users.len() {
            let empty: Vec<Vec<u8>> = Vec::new();
            assert(empty@ =~= roles_of(*self, user));
            get_actions_execute_info(&empty, &self.policies, &self.permissions, actions, approved)
        } else {
            get_actions_execute_info(&self.users[user - 1].roles, &self.policies, &self.permissions, actions, approved)
        }
    }

    /// Marks proposal `id` executed, given the digest `hash` of `actions`.
    /// The caller then runs the actions.
    pub fn execute_hashed(
        &mut self,
        id: ProposalId,
        actions: &Vec<Action>,
        hash: &Vec<u8>,
        balances: &Vec<Payment>,
        now: Timestamp,
    ) -> (r: Result<(), Error>)
        requires
            old(self).wf(),
        ensures
            final(self).wf(),
            execute_error(*old(self), id, actions@, hash@, balances@, now) is Some ==> r == Err::<(), Error>(
                execute_error(*old(self), id, actions@, hash@, balances@, now)->0,
            ),
            r is Ok <==> execute_error(*old(self), id, actions@, hash@, balances@, now) is None,
            r is Err ==> *final(self) == *old(self),
            r is Ok ==> *final(self) == (Entity { proposals: final(self).proposals, ..*old(self) })
                && final(self).proposals@ == old(self).proposals@.update(
                    id - 1,
                    ProposalRecord {
                        proposal: Proposal { executed: true, ..old(self).record(id).proposal },
                        ..old(self).record(id)
                    },
                ),
            settled_kept(old(self).proposals@, final(self).proposals@),
    {
        if actions.len() == 0 {
            return Err(Error::NoActions);
        }
        let idx = self.open_index(id)?;
        if !bytes_eq(&self.proposals[idx].proposal.actions_hash, hash) {
            return Err(Error::ActionsCorrupted);
        }
        if self.proposals[idx].proposal.executed {
            return Err(Error::AlreadyExecuted);
        }
        let approved = self.get_proposal_status(idx, now) == ProposalStatus::Succeeded;
        let (allowed, permissions) = self.execute_info(self.proposals[idx].proposal.proposer, actions, approved);
        if !allowed {
            return Err(Error::NoPermissionForAction);
        }
        if !names_eq(&permissions, &self.proposals[idx].details.permissions) {
            return Err(Error::UntruthfulPermissions);
        }
        if !ensure_tokens_available_for_actions(actions, &self.proposals, balances) {
            return Err(Error::TokensUnavailable);
        }
        let ghost before = self.proposals@;
        let mut rec = self.proposals.remove(idx);
        rec.proposal.executed = true;
        self.proposals.insert(idx, rec);
        proof {
            assert(self.proposals@ =~= before.update(idx as int, rec));
            assert(rec.wf(idx + 1));
        }
        Ok(())
    }

    /// Executes the actions of proposal `id`: their digest must be the one
    /// the proposal pinned, the proposer must hold permissions covering
    /// every action (approved by the members unless a policy lets one
    /// member act alone), those permissions must be the announced ones,
    /// and the funds they pay out must be available.
    pub fn execute(&mut self, id: ProposalId, actions: &Vec<Action>, balances: &Vec<Payment>, now: Timestamp) -> (r: Result<(), Error>)
        requires
            old(self).wf(),
        ensures
            final(self).wf(),
            execute_error(*old(self), id, actions@, actions_hash_spec(actions@), balances@, now) is Some ==> r == Err::<(), Error>(
                execute_error(*old(self), id, actions@, actions_hash_spec(actions@), balances@, now)->0,
            ),
            r is Ok <==> execute_error(*old(self), id, actions@, actions_hash_spec(actions@), balances@, now) is None,
            r is Err ==> *final(self) == *old(self),
            r is Ok ==> *final(self) == (Entity { proposals: final(self).proposals, ..*old(self) })
                && final(self).proposals@ == old(self).proposals@.update(
                    id - 1,
                    ProposalRecord {
                        proposal: Proposal { executed: true, ..old(self).record(id).proposal },
                        ..old(self).record(id)
                    },
                ),
            settled_kept(old(self).proposals@, final(self).proposals@),
    {
        let hash = calculate_actions_hash(actions);
        self.execute_hashed(id, actions, &hash, balances, now)
    }

    /// Whether `caller` may run `actions` directly, without a proposal: only
    /// actions that a policy lets one member take alone are allowed.
    pub fn direct_execute(&self, caller: &Vec<u8>, actions: &Vec<Action>, balances: &Vec<Payment>) -> (r: Result<(), Error>)
        requires
            self.wf(),
        ensures
            actions@.len() == 0 ==> r == Err::<(), Error>(Error::NoActions),
            actions@.len() > 0 && !execute_info_spec(
                roles_of(*self, user_id_of(self.users@, caller@) as UserId),
                self.policies@,
                self.permissions@,
                actions@,
                false,
            ).0 ==> r == Err::<(), Error>(Error::NoPermissionForAction),
            r is Ok <==> (actions@.len() > 0 && execute_info_spec(
                roles_of(*self, user_id_of(self.users@, caller@) as UserId),
                self.policies@,
                self.permissions@,
                actions@,
                false,
            ).0 && tokens_available(actions@, self.proposals@, balances@)),
            r is Err ==> r == Err::<(), Error>(Error::NoActions) || r == Err::<(), Error>(Error::NoPermissionForAction)
                || r == Err::<(), Error>(Error::TokensUnavailable),
    {
        if actions.len() == 0 {
            return Err(Error::NoActions);
        }
        let user = self.get_user_id(caller);
        let (allowed, _) = self.execute_info(user, actions, false);
        if !allowed {
            return Err(Error::NoPermissionForAction);
        }
        if !ensure_tokens_available_for_actions(actions, &self.proposals, balances) {
            return Err(Error::TokensUnavailable);
        }
        Ok(())
    }

    /// Cancels proposal `id` on its proposer's behalf while it is active,
    /// and archives it, clearing its detail records.
    pub fn cancel_proposal(&mut self, caller: &Vec<u8>, id: ProposalId, now: Timestamp) -> (r: Result<(), Error>)
        requires
            old(self).wf(),
        ensures
            final(self).wf(),
            !old(self).is_open(id) ==> r == Err::<(), Error>(Error::ProposalMissing),
            old(self).is_open(id) && old(self).record(id).proposal.proposer != user_id_of(old(self).users@, caller@)
                ==> r == Err::<(), Error>(Error::ProposerMustCancel),
            old(self).is_open(id) && old(self).record(id).proposal.proposer == user_id_of(old(self).users@, caller@)
                && live_status(*old(self), old(self).record(id), now) != ProposalStatus::Active
                ==> r == Err::<(), Error>(Error::ProposalNotActive),
            r is Ok <==> (old(self).is_open(id) && old(self).record(id).proposal.proposer == user_id_of(old(self).users@, caller@)
                && live_status(*old(self), old(self).record(id), now) == ProposalStatus::Active),
            r is Err ==> *final(self) == *old(self),
            r is Ok ==> *final(self) == (Entity { proposals: final(self).proposals, ..*old(self) })
                && final(self).proposals@.len() == old(self).proposals@.len()
                && (forall|j: int| 0 <= j < old(self).proposals@.len() && j != id - 1
                    ==> #[trigger] final(self).proposals@[j] == old(self).proposals@[j])
                && final(self).record(id).archived_as(
                    ProposalRecord { proposal: Proposal { ends_at: 0, ..old(self).record(id).proposal }, ..old(self).record(id) },
                    ProposalStatus::Canceled,
                ),
            settled_kept(old(self).proposals@, final(self).proposals@),
    {
        let idx = self.open_index(id)?;
        let user = self.get_user_id(caller);
        if self.proposals[idx].proposal.proposer != user {
            return Err(Error::ProposerMustCancel);
        }
        if self.get_proposal_status(idx, now) != ProposalStatus::Active {
            return Err(Error::ProposalNotActive);
        }
        let ghost before = self.proposals@;
        let mut rec = self.proposals.remove(idx);
        rec.proposal.set_canceled();
        let ghost canceled = rec;
        rec.archive(ProposalStatus::Canceled);
        self.proposals.insert(idx, rec);
        proof {
            assert(self.proposals@ =~= before.update(idx as int, rec));
            assert(rec.wf(idx + 1));
        }
        Ok(())
    }

    /// Archives a concluded proposal under its current status, clearing
    /// its detail records; its locked votes stay until withdrawn.
    pub fn persist_proposal_results(&mut self, id: ProposalId, now: Timestamp) -> (r: Result<ProposalStatus, Error>)
        requires
            old(self).wf(),
        ensures
            final(self).wf(),
            !old(self).is_open(id) ==> r == Err::<ProposalStatus, Error>(Error::ProposalMissing),
            old(self).is_open(id) && live_status(*old(self), old(self).record(id), now) == ProposalStatus::Pending
                ==> r == Err::<ProposalStatus, Error>(Error::StillPending),
            old(self).is_open(id) && live_status(*old(self), old(self).record(id), now) == ProposalStatus::Active
                ==> r == Err::<ProposalStatus, Error>(Error::StillActive),
            r is Ok <==> (old(self).is_open(id) && live_status(*old(self), old(self).record(id), now) != ProposalStatus::Pending
                && live_status(*old(self), old(self).record(id), now) != ProposalStatus::Active),
            r is Err ==> *final(self) == *old(self),
            r is Ok ==> r->Ok_0 == live_status(*old(self), old(self).record(id), now)
                && *final(self) == (Entity { proposals: final(self).proposals, ..*old(self) })
                && final(self).proposals@.len() == old(self).proposals@.len()
                && (forall|j: int| 0 <= j < old(self).proposals@.len() && j != id - 1
                    ==> #[trigger] final(self).proposals@[j] == old(self).proposals@[j])
                && final(self).record(id).archived_as(old(self).record(id), r->Ok_0),
            settled_kept(old(self).proposals@, final(self).proposals@),
    {
        let idx = self.open_index(id)?;
        let status = self.get_proposal_status(idx, now);
        if status == ProposalStatus::Pending {
            return Err(Error::StillPending);
        }
        if status == ProposalStatus::Active {
            return Err(Error::StillActive);
        }
        let ghost before = self.proposals@;
        let mut rec = self.proposals.remove(idx);
        rec.archive(status);
        self.proposals.insert(idx, rec);
        proof {
            assert(self.proposals@ =~= before.update(idx as int, rec));
            assert(rec.wf(idx + 1));
        }
        Ok(status)
    }
}

/// Lets `b` keep everything `a` settled; holds of a state and itself.
pub proof fn settled_kept_reflexive(a: Seq<ProposalRecord>)
    ensures
        settled_kept(a, a),
{
}

/// Keeping what is settled carries over a sequence of operations.
pub proof fn settled_kept_transitive(a: Seq<ProposalRecord>, b: Seq<ProposalRecord>, c: Seq<ProposalRecord>)
    requires
        settled_kept(a, b),
        settled_kept(b, c),
    ensures
        settled_kept(a, c),
{
    assert forall|i: int| 0 <= i < a.len() && (#[trigger] settled_status(a[i])) is Some implies settled_status(c[i])
        == settled_status(a[i]) by {
        assert(settled_status(b[i]) == settled_status(a[i]));
    }
}

/// Once a proposal is executed or canceled, its status stays so: at any
/// later time, and in any later state that keeps what was settled (as
/// every operation of the entity does).
pub proof fn settled_status_is_final(e1: Entity, e2: Entity, id: ProposalId, t1: Timestamp, t2: Timestamp)
    requires
        e1.has_proposal(id),
        settled_kept(e1.proposals@, e2.proposals@),
        record_status(e1, e1.record(id), t1) == ProposalStatus::Executed || record_status(e1, e1.record(id), t1)
            == ProposalStatus::Canceled,
    ensures
        e2.has_proposal(id),
        record_status(e2, e2.record(id), t2) == record_status(e1, e1.record(id), t1),
{
    let i = id - 1;
    assert(settled_status(e1.proposals@[i]) == Some(record_status(e1, e1.record(id), t1)));
    assert(settled_status(e2.proposals@[i]) == settled_status(e1.proposals@[i]));
}

/// A proposal executes once: after its actions ran, executing it again is
/// refused as already executed, whatever the time and the balances.
pub proof fn execute_is_one_shot(
    e0: Entity,
    e1: Entity,
    id: ProposalId,
    actions: Seq<Action>,
    hash: Seq<u8>,
    balances: Seq<Payment>,
    later_balances: Seq<Payment>,
    now: Timestamp,
    later: Timestamp,
)
    requires
        execute_error(e0, id, actions, hash, balances, now) is None,
        e1 == (Entity { proposals: e1.proposals, ..e0 }),
        e1.proposals@ == e0.proposals@.update(
            id - 1,
            ProposalRecord { proposal: Proposal { executed: true, ..e0.record(id).proposal }, ..e0.record(id) },
        ),
    ensures
        execute_error(e1, id, actions, hash, later_balances, later) == Some(Error::AlreadyExecuted),
{
}

/// Actions that differ from the pinned ones by their digest are refused as
/// corrupted, before anything else about them is looked at.
pub proof fn execute_needs_pinned_actions(
    e: Entity,
    id: ProposalId,
    actions: Seq<Action>,
    balances: Seq<Payment>,
    now: Timestamp,
)
    requires
        actions.len() > 0,
        e.is_open(id),
        e.record(id).proposal.actions_hash@ != actions_hash_spec(actions),
    ensures
        execute_error(e, id, actions, actions_hash_spec(actions), balances, now) == Some(Error::ActionsCorrupted),
{
}

} // verus!
