use vstd::prelude::*;

use crate::bytes::bytes_eq;
use crate::config::{Amount, ProposalId, ProposalRole, POLL_MAX_OPTIONS};
use crate::entity::{user_id_of, Entity};
use crate::error::Error;
use crate::governance::{contains_user, ProposalRecord};
use crate::ledger::{guarded_amount, guarded_vote_tokens};
use crate::permission::{PermissionEntry, PolicyEntry};
use crate::seqs::lemma_prefix;

verus! {

/// The tally of the first of `roles` whose name is `role`; none when no
/// entry has that name.
pub open spec fn role_votes(roles: Seq<Vec<u8>>, tallies: Seq<crate::governance::RoleTally>, role: Seq<u8>) -> ProposalRole
    decreases roles.len(),
{
    if roles.len() == 0 || tallies.len() == 0 {
        ProposalRole { votes_for: 0, votes_against: 0 }
    } else if roles[0]@ == role {
        tallies[0].votes
    } else {
        role_votes(roles.drop_first(), tallies.drop_first(), role)
    }
}

/// The policies of `role`, in the order they were created.
pub open spec fn policies_of(pols: Seq<PolicyEntry>, role: Seq<u8>) -> Seq<PolicyEntry>
    decreases pols.len(),
{
    if pols.len() == 0 {
        seq![]
    } else if pols.last().role@ == role {
        policies_of(pols.drop_last(), role).push(pols.last())
    } else {
        policies_of(pols.drop_last(), role)
    }
}

impl Entity {
    /// The record of an open proposal.
    pub fn get_proposal(&self, id: ProposalId) -> (r: Option<&ProposalRecord>)
        requires
            self.wf(),
        ensures
            r is Some <==> self.is_open(id),
            r is Some ==> *r->0 == self.record(id),
    {
        match self.open_index(id) {
            Ok(idx) => Some(&self.proposals[idx]),
            Err(_) => None,
        }
    }

    /// The weighted tally of `role` on an open proposal.
    pub fn get_proposal_role_votes(&self, id: ProposalId, role: &Vec<u8>) -> (r: Result<ProposalRole, Error>)
        requires
            self.wf(),
        ensures
            r is Ok <==> self.is_open(id),
            r is Err ==> r == Err::<ProposalRole, Error>(Error::ProposalMissing),
            r is Ok ==> r->Ok_0 == role_votes(self.record(id).proposal.roles@, self.record(id).tallies@, role@),
    {
        let idx = self.open_index(id)?;
        let rec = &self.proposals[idx];
        assert(rec.proposal.roles@.subrange(0, rec.proposal.roles@.len() as int) =~= rec.proposal.roles@);
        assert(rec.tallies@.subrange(0, rec.tallies@.len() as int) =~= rec.tallies@);
        let mut i: usize = 0;
        while i < rec.proposal.roles.len() && i < rec.tallies.len()
            invariant
                self.is_open(id),
                *rec == self.record(id),
                0 <= i <= rec.proposal.roles@.len(),
                i <= rec.tallies@.len(),
                role_votes(rec.proposal.roles@, rec.tallies@, role@) == role_votes(
                    rec.proposal.roles@.subrange(i as int, rec.proposal.roles@.len() as int),
                    rec.tallies@.subrange(i as int, rec.tallies@.len() as int),
                    role@,
                ),
            decreases rec.proposal.roles@.len() - i,
        {
            let ghost rs = rec.proposal.roles@.subrange(i as int, rec.proposal.roles@.len() as int);
            let ghost ts = rec.tallies@.subrange(i as int, rec.tallies@.len() as int);
            assert(rs.drop_first() =~= rec.proposal.roles@.subrange(i + 1, rec.proposal.roles@.len() as int));
            assert(ts.drop_first() =~= rec.tallies@.subrange(i + 1, rec.tallies@.len() as int));
            if bytes_eq(&rec.proposal.roles[i], role) {
                return Ok(rec.tallies[i].votes);
            }
            i = i + 1;
        }
        Ok(ProposalRole { votes_for: 0, votes_against: 0 })
    }

    /// The votes of the member role on an open proposal.
    pub fn get_proposal_votes_view(&self, id: ProposalId) -> (r: Result<ProposalRole, Error>)
        requires
            self.wf(),
        ensures
            r is Ok <==> self.is_open(id),
            r is Err ==> r == Err::<ProposalRole, Error>(Error::ProposalMissing),
            r is Ok ==> r->Ok_0 == role_votes(
                self.record(id).proposal.roles@,
                self.record(id).tallies@,
                crate::entity::member_role(),
            ),
    {
        self.get_proposal_role_votes(id, &crate::entity::member_role_name())
    }

    /// The poll weight of options one to the last, in order.
    pub fn get_proposal_poll_results_view(&self, id: ProposalId) -> (r: Result<Vec<Amount>, Error>)
        requires
            self.wf(),
        ensures
            r is Ok <==> self.is_open(id),
            r is Err ==> r == Err::<Vec<Amount>, Error>(Error::ProposalMissing),
            r is Ok ==> r->Ok_0@ == self.record(id).poll@ && r->Ok_0@.len() == POLL_MAX_OPTIONS,
    {
        let idx = self.open_index(id)?;
        assert(self.proposals@[idx as int].wf(idx + 1));
        let poll = &self.proposals[idx].poll;
        let mut r: Vec<Amount> = Vec::new();
        let mut i: usize = 0;
        while i < poll.len()
            invariant
                0 <= i <= poll.len(),
                r@ == poll@.subrange(0, i as int),
            decreases poll.len() - i,
        {
            r.push(poll[i]);
            i = i + 1;
            assert(r@ =~= poll@.subrange(0, i as int));
        }
        assert(poll@.subrange(0, poll@.len() as int) =~= poll@);
        Ok(r)
    }

    /// Whether the oracle's weight of `address` already counted on the proposal.
    pub fn has_user_plug_voted_view(&self, id: ProposalId, address: &Vec<u8>) -> (r: bool)
        requires
            self.wf(),
        ensures
            r == (self.is_open(id) && self.record(id).plug_votes@.contains(
                user_id_of(self.users@, address@) as crate::config::UserId,
            )),
    {
        match self.open_index(id) {
            Ok(idx) => {
                let user = self.get_user_id(address);
                contains_user(&self.proposals[idx].plug_votes, user)
            },
            Err(_) => false,
        }
    }

    /// The amount of a unit held back for votes, when it fits in an amount.
    pub fn get_guarded_vote_tokens(&self, token: &Vec<u8>, nonce: u64) -> (r: Option<Amount>)
        ensures
            r is Some <==> guarded_amount(self.proposals@, token@, nonce) <= u128::MAX,
            r is Some ==> r->0 == guarded_amount(self.proposals@, token@, nonce),
    {
        guarded_vote_tokens(&self.proposals, token, nonce)
    }

    /// Every permission with its constraints.
    pub fn get_permissions_view(&self) -> (r: &Vec<PermissionEntry>)
        ensures
            r == self.permissions,
    {
        &self.permissions
    }

    /// The policies of `role`: permission, method name, quorum and voting
    /// period of each, in the order they were created.
    pub fn get_policies_view(&self, role: &Vec<u8>) -> (r: Vec<(Vec<u8>, &'static str, Amount, usize)>)
        ensures
            r@.len() == policies_of(self.policies@, role@).len(),
            forall|k: int|
                0 <= k < r@.len() ==> {
                    let p = policies_of(self.policies@, role@)[k];
                    &&& (#[trigger] r@[k]).0@ == p.permission@
                    &&& r@[k].1@ == p.policy.method.name_spec()
                    &&& r@[k].2 == p.policy.quorum
                    &&& r@[k].3 == p.policy.voting_period_minutes
                },
    {
        let mut r: Vec<(Vec<u8>, &'static str, Amount, usize)> = Vec::new();
        let mut k: usize = 0;
        while k < self.policies.len()
            invariant
                0 <= k <= self.policies.len(),
                r@.len() == policies_of(self.policies@.subrange(0, k as int), role@).len(),
                forall|m: int|
                    0 <= m < r@.len() ==> {
                        let p = policies_of(self.policies@.subrange(0, k as int), role@)[m];
                        &&& (#[trigger] r@[m]).0@ == p.permission@
                        &&& r@[m].1@ == p.policy.method.name_spec()
                        &&& r@[m].2 == p.policy.quorum
                        &&& r@[m].3 == p.policy.voting_period_minutes
                    },
            decreases self.policies.len() - k,
        {
            proof {
                lemma_prefix(self.policies@, k as int);
            }
            let entry = &self.policies[k];
            if bytes_eq(&entry.role, role) {
                let name = entry.policy.method.to_name();
                r.push((crate::bytes::copy_bytes(&entry.permission), name, entry.policy.quorum, entry.policy.voting_period_minutes));
            }
            k = k + 1;
        }
        assert(self.policies@.subrange(0, self.policies@.len() as int) =~= self.policies@);
        r
    }
}

} // verus!
