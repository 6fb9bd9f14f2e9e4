use vstd::prelude::*;

use crate::seqs::lemma_prefix;

use crate::config::{LockedVote, Payment, ProposalId, Timestamp, UserId, GAS_LIMIT_WITHDRAW};
use crate::entity::{user_id_of, Entity, UserEntry};
use crate::governance::{record_status, ProposalRecord, VoterLocks};
use crate::proposal::ProposalStatus;

verus! {

/// A payment to send to `to`.
#[derive(Debug)]
pub struct Transfer {
    pub to: Vec<u8>,
    pub payment: Payment,
}

/// What a withdrawal did: how many records were outstanding, how many it
/// released, and the payments to send back.
#[derive(Debug)]
pub struct WithdrawReport {
    pub total: usize,
    pub withdrawn: usize,
    pub transfers: Vec<Transfer>,
}

/// How many records a budget lets a withdrawal attempt: one per unit of
/// `GAS_LIMIT_WITHDRAW`, and no more than there are.
pub open spec fn withdraw_attempts(n: nat, budget: u64) -> nat {
    let fit = (budget / GAS_LIMIT_WITHDRAW) as nat;
    if n <= fit {
        n
    } else {
        fit
    }
}

/// Votes on the proposal may be withdrawn: it is gone or concluded.
pub open spec fn concluded(e: Entity, id: ProposalId, now: Timestamp) -> bool {
    !e.has_proposal(id) || ({
        let s = record_status(e, e.record(id), now);
        s != ProposalStatus::Active && s != ProposalStatus::Pending
    })
}

pub open spec fn votes_payments(vs: Seq<LockedVote>) -> Seq<Payment> {
    vs.map_values(|v: LockedVote| v.payment)
}

pub open spec fn transfers_payments(ts: Seq<Transfer>) -> Seq<Payment> {
    ts.map_values(|t: Transfer| t.payment)
}

/// The address of a user; empty for an unknown one.
pub open spec fn address_of(e: Entity, user: UserId) -> Seq<u8> {
    if 1 <= user <= e.users@.len() {
        e.users@[user - 1].address@
    } else {
        seq![]
    }
}

/// The transfers carry the payments of the records of `ls`, in order, each
/// to the record's voter.
pub open spec fn records_transfers_ok(e: Entity, ls: Seq<VoterLocks>, ts: Seq<Transfer>) -> bool {
    &&& transfers_payments(ts) == records_payments(ls)
    &&& forall|t: int| 0 <= t < ts.len() ==> #[trigger] ts[t].to@ == address_of(e, voter_of_transfer(ls, t))
}

/// All payments of the records, in order.
pub open spec fn records_payments(ls: Seq<VoterLocks>) -> Seq<Payment>
    decreases ls.len(),
{
    if ls.len() == 0 {
        seq![]
    } else {
        records_payments(ls.drop_last()) + votes_payments(ls.last().votes@)
    }
}

/// The voter whose record holds the `t`-th of the records' payments.
pub open spec fn voter_of_transfer(ls: Seq<VoterLocks>, t: int) -> UserId
    decreases ls.len(),
{
    if ls.len() == 0 {
        0
    } else if t < records_payments(ls.drop_last()).len() {
        voter_of_transfer(ls.drop_last(), t)
    } else {
        ls.last().voter
    }
}

/// What `withdraw_all` did to the state `e0`, leaving `e1` and reporting `r`.
pub open spec fn withdraw_all_post(e0: Entity, e1: Entity, id: ProposalId, budget: u64, now: Timestamp, r: WithdrawReport) -> bool {
    if !e0.has_proposal(id) {
        e1 == e0 && r.total == 0 && r.withdrawn == 0 && r.transfers@.len() == 0
    } else {
        let ls = e0.record(id).locked@;
        let n = withdraw_attempts(ls.len(), budget);
        &&& r.total == ls.len()
        &&& !concluded(e0, id, now) ==> e1 == e0 && r.withdrawn == 0 && r.transfers@.len() == 0
        &&& concluded(e0, id, now) ==> {
            &&& r.withdrawn == n
            &&& e1 == (Entity { proposals: e1.proposals, ..e0 })
            &&& e1.proposals@ == e0.proposals@.update(
                id - 1,
                ProposalRecord { locked: e1.record(id).locked, ..e0.record(id) },
            )
            &&& e1.record(id).locked@ == ls.subrange(n as int, ls.len() as int)
            &&& records_transfers_ok(e0, ls.subrange(0, n as int), r.transfers@)
        }
    }
}


impl Entity {
    fn address_copy(&self, user: UserId) -> (r: Vec<u8>)
        ensures
            r@ == address_of(*self, user),
    {
        if user == 0 || user > self.users.len() {
            let r: Vec<u8> = Vec::new();
            assert(r@ =~= seq![]);
            r
        } else {
            crate::bytes::copy_bytes(&self.users[user - 1].address)
        }
    }

    /// Releases the locked votes of a concluded proposal, voter record by
    /// voter record, while the budget lasts: each record takes
    /// `GAS_LIMIT_WITHDRAW` of it. Records left over stay for a later call.
    pub fn withdraw_all(&mut self, id: ProposalId, budget: u64, now: Timestamp) -> (r: WithdrawReport)
        requires
            old(self).wf(),
        ensures
            final(self).wf(),
            withdraw_all_post(*old(self), *final(self), id, budget, now, r),
            crate::governance::settled_kept(old(self).proposals@, final(self).proposals@),
    {
        if id == 0 || id > self.proposals.len() as u64 {
            return WithdrawReport { total: 0, withdrawn: 0, transfers: Vec::new() };
        }
        let idx = (id - 1) as usize;
        let total = self.proposals[idx].locked.len();
        let status = match self.proposals[idx].result {
            Some(s) => s,
            None => self.get_proposal_status(idx, now),
        };
        if status == ProposalStatus::Active || status == ProposalStatus::Pending {
            return WithdrawReport { total, withdrawn: 0, transfers: Vec::new() };
        }
        let fit = budget / GAS_LIMIT_WITHDRAW;
        let n: usize = if (total as u64) <= fit { total } else { fit as usize };
        let ghost e0 = *self;
        let ghost ls = self.proposals@[idx as int].locked@;
        let ghost rec0 = self.proposals@[idx as int];
        assert(rec0.wf(idx + 1));
        let mut rec = self.proposals.remove(idx);
        let mut transfers: Vec<Transfer> = Vec::new();
        assert(ls.subrange(0, 0) =~= Seq::<VoterLocks>::empty());
        assert(transfers_payments(transfers@) =~= Seq::<Payment>::empty());
        let mut k: usize = 0;
        while k < n
            invariant
                0 <= k <= n <= ls.len(),
                self.users == e0.users,
                rec == (ProposalRecord { locked: rec.locked, ..rec0 }),
                rec.locked@ == ls.subrange(k as int, ls.len() as int),
                records_transfers_ok(e0, ls.subrange(0, k as int), transfers@),
            decreases n - k,
        {
            proof {
                lemma_prefix(ls, k as int);
            }
            let entry = rec.locked.remove(0);
            assert(rec.locked@ =~= ls.subrange(k + 1, ls.len() as int));
            let ghost before_t = transfers@;
            let ghost votes = entry.votes@;
            let to_address = self.address_copy(entry.voter);
            let voter = entry.voter;
            assert(to_address@ == address_of(e0, voter));
            let vlen = entry.votes.len();
            let mut votes_left = entry.votes;
            let mut j: usize = 0;
            assert(votes.subrange(0, 0) =~= Seq::<LockedVote>::empty());
            assert(votes_payments(votes.subrange(0, 0)) =~= Seq::<Payment>::empty());
            assert(transfers_payments(transfers@) =~= transfers_payments(before_t) + votes_payments(votes.subrange(0, 0)));
            while votes_left.len() > 0
                invariant
                    j + votes_left@.len() == votes.len(),
                    votes_left@ == votes.subrange(j as int, votes.len() as int),
                    votes.len() == vlen,
                    to_address@ == address_of(e0, voter),
                    transfers_payments(transfers@) == transfers_payments(before_t) + votes_payments(votes.subrange(0, j as int)),
                    transfers@.len() == before_t.len() + j,
                    forall|t: int| 0 <= t < before_t.len() ==> #[trigger] transfers@[t] == before_t[t],
                    forall|t: int| before_t.len() <= t < transfers@.len() ==> (#[trigger] transfers@[t]).to@ == address_of(e0, voter),
                    self.users == e0.users,
                decreases votes_left.len(),
            {
                let v = votes_left.remove(0);
                let ghost tp = transfers@;
                let dest = crate::bytes::copy_bytes(&to_address);
                transfers.push(Transfer { to: dest, payment: v.payment });
                assert(votes_left@ =~= votes.subrange(j + 1, votes.len() as int));
                assert(votes_payments(votes.subrange(0, j + 1)) =~= votes_payments(votes.subrange(0, j as int)).push(v.payment));
                assert(transfers_payments(transfers@) =~= transfers_payments(tp).push(v.payment));
                j = j + 1;
            }
            assert(votes.subrange(0, votes.len() as int) =~= votes);
            proof {
                let pre = ls.subrange(0, k as int);
                let post = ls.subrange(0, k + 1);
                assert(post.drop_last() == pre);
                assert(records_payments(post) == records_payments(pre) + votes_payments(votes));
                assert forall|t: int| 0 <= t < transfers@.len() implies #[trigger] transfers@[t].to@ == address_of(e0, voter_of_transfer(post, t)) by {
                    if t < before_t.len() {
                        assert(transfers@[t] == before_t[t]);
                    }
                }
            }
            k = k + 1;
        }
        self.proposals.insert(idx, rec);
        proof {
            assert(self.proposals@ =~= e0.proposals@.update(idx as int, rec));
            assert(rec.wf(idx + 1));
        }
        WithdrawReport { total, withdrawn: n, transfers }
    }
}

/// The status of a proposal does not depend on its locked votes.
pub proof fn status_ignores_locks(e0: Entity, e1: Entity, id: ProposalId, now: Timestamp)
    requires
        e0.has_proposal(id),
        e1.users@.len() == e0.users@.len(),
        forall|u: int| 0 <= u < e0.users@.len() ==> (#[trigger] e1.users@[u]).roles == e0.users@[u].roles,
        e1.policies == e0.policies,
        e1.proposals@.len() == e0.proposals@.len(),
        e1.record(id) == (ProposalRecord { locked: e1.record(id).locked, ..e0.record(id) }),
    ensures
        record_status(e1, e1.record(id), now) == record_status(e0, e0.record(id), now),
        concluded(e1, id, now) == concluded(e0, id, now),
{
    let r0 = e0.record(id);
    let r1 = e1.record(id);
    assert forall|role: Seq<u8>| #[trigger] crate::entity::member_count(e1.users@, role) == crate::entity::member_count(e0.users@, role) by {
        lemma_member_count_frame(e0.users@, e1.users@, role);
    }
    assert forall|i: int, k: int| #![auto] crate::governance::role_policy_ok(e1, r1, i, k) == crate::governance::role_policy_ok(e0, r0, i, k) by {}
    assert(crate::governance::policies_fulfilled_spec(e1, r1) == crate::governance::policies_fulfilled_spec(e0, r0));
    assert(crate::governance::has_weighted_spec(e1, r1) == crate::governance::has_weighted_spec(e0, r0));
}

/// Withdrawal resumes where it stopped. With `N` locked-vote records on a
/// concluded proposal and a budget for only `K < N` of them, a call
/// releases exactly `K` and leaves `N - K`; a second call with a budget for
/// the rest releases them all, and the two calls together pay out each
/// record's payments exactly once.
pub proof fn withdraw_all_resumes(
    e0: Entity,
    e1: Entity,
    e2: Entity,
    id: ProposalId,
    budget1: u64,
    budget2: u64,
    now: Timestamp,
    r1: WithdrawReport,
    r2: WithdrawReport,
)
    requires
        e0.has_proposal(id),
        concluded(e0, id, now),
        withdraw_all_post(e0, e1, id, budget1, now, r1),
        withdraw_all_post(e1, e2, id, budget2, now, r2),
        budget1 / GAS_LIMIT_WITHDRAW < e0.record(id).locked@.len(),
        budget2 / GAS_LIMIT_WITHDRAW >= e0.record(id).locked@.len() - budget1 / GAS_LIMIT_WITHDRAW,
    ensures
        r1.withdrawn == budget1 / GAS_LIMIT_WITHDRAW,
        e1.record(id).locked@.len() == e0.record(id).locked@.len() - budget1 / GAS_LIMIT_WITHDRAW,
        r2.withdrawn == e0.record(id).locked@.len() - budget1 / GAS_LIMIT_WITHDRAW,
        e2.record(id).locked@.len() == 0,
        transfers_payments(r1.transfers@) + transfers_payments(r2.transfers@) == records_payments(e0.record(id).locked@),
{
    assert(e1.record(id) == e1.proposals@[id - 1]);
    status_ignores_locks(e0, e1, id, now);
    let ls = e0.record(id).locked@;
    let k = withdraw_attempts(ls.len(), budget1) as int;
    let rest = e1.record(id).locked@;
    assert(rest.subrange(0, rest.len() as int) =~= rest);
    lemma_records_payments_split(ls, k);
}

proof fn lemma_records_payments_split(s: Seq<VoterLocks>, k: int)
    requires
        0 <= k <= s.len(),
    ensures
        records_payments(s.subrange(0, k)) + records_payments(s.subrange(k, s.len() as int)) == records_payments(s),
    decreases s.len(),
{
    if k == s.len() {
        assert(s.subrange(0, k) =~= s);
        assert(s.subrange(k, s.len() as int) =~= Seq::<VoterLocks>::empty());
        assert(records_payments(s) + Seq::<Payment>::empty() =~= records_payments(s));
    } else {
        let d = s.drop_last();
        lemma_records_payments_split(d, k);
        assert(s.subrange(0, k) =~= d.subrange(0, k));
        let tail = s.subrange(k, s.len() as int);
        assert(tail.drop_last() =~= d.subrange(k, d.len() as int));
        assert(tail.last() == s.last());
        assert(records_payments(s.subrange(0, k)) + records_payments(tail) =~= records_payments(s));
    }
}

/// The records of `ls` that belong to other voters than `user`.
pub open spec fn others_of(ls: Seq<VoterLocks>, user: UserId) -> Seq<VoterLocks>
    decreases ls.len(),
{
    if ls.len() == 0 {
        seq![]
    } else if ls.last().voter == user {
        others_of(ls.drop_last(), user)
    } else {
        others_of(ls.drop_last(), user).push(ls.last())
    }
}

/// The payments locked by `user` in the records of `ls`, in order.
pub open spec fn mine_payments(ls: Seq<VoterLocks>, user: UserId) -> Seq<Payment>
    decreases ls.len(),
{
    if ls.len() == 0 {
        seq![]
    } else if ls.last().voter == user {
        mine_payments(ls.drop_last(), user) + votes_payments(ls.last().votes@)
    } else {
        mine_payments(ls.drop_last(), user)
    }
}

/// The proposals of `ids` that are not concluded yet.
pub open spec fn kept_ids(e: Entity, ids: Seq<ProposalId>, now: Timestamp) -> Seq<ProposalId>
    decreases ids.len(),
{
    if ids.len() == 0 {
        seq![]
    } else if concluded(e, ids.last(), now) {
        kept_ids(e, ids.drop_last(), now)
    } else {
        kept_ids(e, ids.drop_last(), now).push(ids.last())
    }
}

/// The payments a withdrawal over `ids` releases to `user`: those locked on
/// each concluded proposal, the first time it comes up.
pub open spec fn released(e: Entity, user: UserId, ids: Seq<ProposalId>, now: Timestamp) -> Seq<Payment>
    decreases ids.len(),
{
    if ids.len() == 0 {
        seq![]
    } else {
        let id = ids.last();
        released(e, user, ids.drop_last(), now) + if concluded(e, id, now) && e.has_proposal(id)
            && !ids.drop_last().contains(id) {
            mine_payments(e.record(id).locked@, user)
        } else {
            seq![]
        }
    }
}

/// The proposal `id` is among `ids` and concluded.
pub open spec fn processed(e: Entity, ids: Seq<ProposalId>, id: ProposalId, now: Timestamp) -> bool {
    ids.contains(id) && concluded(e, id, now)
}

/// What `withdraw` did to the state `e0` for `caller`, leaving `e1` and
/// reporting `r`.
pub open spec fn withdraw_post(e0: Entity, e1: Entity, caller: Seq<u8>, budget: u64, now: Timestamp, r: WithdrawReport) -> bool {
    let user = user_id_of(e0.users@, caller) as UserId;
    if user == 0 {
        e1 == e0 && r.total == 0 && r.withdrawn == 0 && r.transfers@.len() == 0
    } else {
        let ids = e0.users@[user - 1].locked_proposals@;
        let n = withdraw_attempts(ids.len(), budget);
        let done = ids.subrange(0, n as int);
        &&& r.total == ids.len()
        &&& r.withdrawn == n - kept_ids(e0, done, now).len()
        &&& e1 == (Entity { users: e1.users, proposals: e1.proposals, ..e0 })
        &&& e1.users@.len() == e0.users@.len()
        &&& forall|u: int| 0 <= u < e0.users@.len() && u != user - 1 ==> #[trigger] e1.users@[u] == e0.users@[u]
        &&& e1.users@[user - 1] == (UserEntry { locked_proposals: e1.users@[user - 1].locked_proposals, ..e0.users@[user - 1] })
        &&& e1.users@[user - 1].locked_proposals@ == kept_ids(e0, done, now) + ids.subrange(n as int, ids.len() as int)
        &&& e1.proposals@.len() == e0.proposals@.len()
        &&& forall|j: int|
            0 <= j < e0.proposals@.len() ==> if processed(e0, done, (j + 1) as ProposalId, now) {
                &&& #[trigger] e1.proposals@[j] == (ProposalRecord { locked: e1.proposals@[j].locked, ..e0.proposals@[j] })
                &&& e1.proposals@[j].locked@ == others_of(e0.proposals@[j].locked@, user)
            } else {
                e1.proposals@[j] == e0.proposals@[j]
            }
        &&& transfers_payments(r.transfers@) == released(e0, user, done, now)
        &&& forall|t: int| 0 <= t < r.transfers@.len() ==> (#[trigger] r.transfers@[t]).to@ == caller
    }
}

proof fn lemma_others_idempotent(ls: Seq<VoterLocks>, user: UserId)
    ensures
        others_of(others_of(ls, user), user) == others_of(ls, user),
        mine_payments(others_of(ls, user), user) == Seq::<Payment>::empty(),
    decreases ls.len(),
{
    if ls.len() > 0 {
        lemma_others_idempotent(ls.drop_last(), user);
        let o = others_of(ls.drop_last(), user);
        if ls.last().voter != user {
            assert(o.push(ls.last()).drop_last() =~= o);
        }
    }
}

/// Moves the records of `user` out of `locked`, sending their payments to
/// `to`; returns the records of the other voters.
fn split_locks(locked: Vec<VoterLocks>, user: UserId, to: &Vec<u8>, transfers: &mut Vec<Transfer>) -> (others: Vec<VoterLocks>)
    ensures
        others@ == others_of(locked@, user),
        transfers_payments(final(transfers)@) == transfers_payments(old(transfers)@) + mine_payments(locked@, user),
        final(transfers)@.len() >= old(transfers)@.len(),
        forall|t: int| 0 <= t < old(transfers)@.len() ==> #[trigger] final(transfers)@[t] == old(transfers)@[t],
        forall|t: int| old(transfers)@.len() <= t < final(transfers)@.len() ==> (#[trigger] final(transfers)@[t]).to@ == to@,
{
    let ghost ls = locked@;
    let ghost t0 = transfers@;
    let total_len = locked.len();
    let mut rest = locked;
    let mut others: Vec<VoterLocks> = Vec::new();
    let mut m: usize = 0;
    assert(ls.subrange(0, 0) =~= Seq::<VoterLocks>::empty());
    assert(transfers_payments(transfers@) =~= transfers_payments(t0) + mine_payments(ls.subrange(0, 0), user));
    while rest.len() > 0
        invariant
            ls.len() == total_len,
            m + rest@.len() == ls.len(),
            rest@ == ls.subrange(m as int, ls.len() as int),
            others@ == others_of(ls.subrange(0, m as int), user),
            transfers_payments(transfers@) == transfers_payments(t0) + mine_payments(ls.subrange(0, m as int), user),
            transfers@.len() >= t0.len(),
            forall|t: int| 0 <= t < t0.len() ==> #[trigger] transfers@[t] == t0[t],
            forall|t: int| t0.len() <= t < transfers@.len() ==> (#[trigger] transfers@[t]).to@ == to@,
        decreases rest.len(),
    {
        proof {
            lemma_prefix(ls, m as int);
        }
        let entry = rest.remove(0);
        assert(rest@ =~= ls.subrange(m + 1, ls.len() as int));
        if entry.voter == user {
            let ghost votes = entry.votes@;
            let ghost before_t = transfers@;
            let vlen = entry.votes.len();
            let mut votes_left = entry.votes;
            let mut j: usize = 0;
            assert(votes.subrange(0, 0) =~= Seq::<LockedVote>::empty());
            assert(transfers_payments(transfers@) =~= transfers_payments(before_t) + votes_payments(votes.subrange(0, 0)));
            while votes_left.len() > 0
                invariant
                    votes.len() == vlen,
                    j + votes_left@.len() == votes.len(),
                    votes_left@ == votes.subrange(j as int, votes.len() as int),
                    transfers_payments(transfers@) == transfers_payments(before_t) + votes_payments(votes.subrange(0, j as int)),
                    transfers@.len() == before_t.len() + j,
                    forall|t: int| 0 <= t < before_t.len() ==> #[trigger] transfers@[t] == before_t[t],
                    forall|t: int| before_t.len() <= t < transfers@.len() ==> (#[trigger] transfers@[t]).to@ == to@,
                decreases votes_left.len(),
            {
                let v = votes_left.remove(0);
                let ghost tp = transfers@;
                let dest = crate::bytes::copy_bytes(to);
                transfers.push(Transfer { to: dest, payment: v.payment });
                assert(votes_left@ =~= votes.subrange(j + 1, votes.len() as int));
                assert(votes_payments(votes.subrange(0, j + 1)) =~= votes_payments(votes.subrange(0, j as int)).push(v.payment));
                assert(transfers_payments(transfers@) =~= transfers_payments(tp).push(v.payment));
                j = j + 1;
            }
            assert(votes.subrange(0, votes.len() as int) =~= votes);
            assert(transfers_payments(transfers@) =~= transfers_payments(t0) + mine_payments(ls.subrange(0, m + 1), user));
        } else {
            others.push(entry);
        }
        m = m + 1;
    }
    assert(ls.subrange(0, ls.len() as int) =~= ls);
    others
}

fn copy_ids(a: &Vec<ProposalId>) -> (r: Vec<ProposalId>)
    ensures
        r@ == a@,
{
    let mut r: Vec<ProposalId> = Vec::new();
    let mut i: usize = 0;
    while i < a.len()
        invariant
            0 <= i <= a.len(),
            r@ == a@.subrange(0, i as int),
        decreases a.len() - i,
    {
        r.push(a[i]);
        i = i + 1;
        assert(r@ =~= a@.subrange(0, i as int));
    }
    assert(a@.subrange(0, a@.len() as int) =~= a@);
    r
}

impl Entity {
    fn is_concluded(&self, id: ProposalId, now: Timestamp) -> (r: bool)
        requires
            self.wf(),
        ensures
            r == concluded(*self, id, now),
    {
        if id == 0 || id > self.proposals.len() as u64 {
            return true;
        }
        let idx = (id - 1) as usize;
        let status = match self.proposals[idx].result {
            Some(s) => s,
            None => self.get_proposal_status(idx, now),
        };
        status != ProposalStatus::Active && status != ProposalStatus::Pending
    }

    /// Releases the caller's locked votes, proposal by proposal in the
    /// order they were recorded, while the budget lasts: each proposal
    /// takes `GAS_LIMIT_WITHDRAW` of it. Proposals still pending or active
    /// stay recorded, as do those the budget did not reach; a later call
    /// resumes with them.
    pub fn withdraw(&mut self, caller: &Vec<u8>, budget: u64, now: Timestamp) -> (r: WithdrawReport)
        requires
            old(self).wf(),
        ensures
            final(self).wf(),
            withdraw_post(*old(self), *final(self), caller@, budget, now, r),
            crate::governance::settled_kept(old(self).proposals@, final(self).proposals@),
    {
        let user = self.get_user_id(caller);
        proof {
            crate::entity::lemma_user_id_bound(self.users@, caller@);
        }
        if user == 0 {
            return WithdrawReport { total: 0, withdrawn: 0, transfers: Vec::new() };
        }
        let ids = copy_ids(&self.users[user - 1].locked_proposals);
        let total = ids.len();
        let fit = budget / GAS_LIMIT_WITHDRAW;
        let n: usize = if (total as u64) <= fit { total } else { fit as usize };
        let ghost e0 = *self;
        let mut transfers: Vec<Transfer> = Vec::new();
        let mut kept: Vec<ProposalId> = Vec::new();
        let mut k: usize = 0;
        assert(ids@.subrange(0, 0) =~= Seq::<ProposalId>::empty());
        assert(transfers_payments(transfers@) =~= Seq::<Payment>::empty());
        while k < n
            invariant
                self.wf(),
                0 <= k <= n <= ids@.len(),
                ids@ == e0.users@[user - 1].locked_proposals@,
                1 <= user <= e0.users@.len(),
                *self == (Entity { proposals: self.proposals, ..e0 }),
                self.proposals@.len() == e0.proposals@.len(),
                forall|j: int|
                    0 <= j < e0.proposals@.len() ==> if processed(e0, ids@.subrange(0, k as int), (j + 1) as ProposalId, now) {
                        &&& #[trigger] self.proposals@[j] == (ProposalRecord { locked: self.proposals@[j].locked, ..e0.proposals@[j] })
                        &&& self.proposals@[j].locked@ == others_of(e0.proposals@[j].locked@, user)
                    } else {
                        self.proposals@[j] == e0.proposals@[j]
                    },
                kept@ == kept_ids(e0, ids@.subrange(0, k as int), now),
                kept@.len() <= k,
                transfers_payments(transfers@) == released(e0, user, ids@.subrange(0, k as int), now),
                forall|t: int| 0 <= t < transfers@.len() ==> (#[trigger] transfers@[t]).to@ == caller@,
                crate::governance::settled_kept(e0.proposals@, self.proposals@),
            decreases n - k,
        {
            let id = ids[k];
            let ghost pre = ids@.subrange(0, k as int);
            let ghost post = ids@.subrange(0, k + 1);
            proof {
                assert(post.drop_last() =~= pre);
                assert(post.last() == id);
                if 1 <= id <= e0.proposals@.len() {
                    let j = id - 1;
                    assert(self.proposals@[j as int] == (ProposalRecord { locked: self.proposals@[j as int].locked, ..e0.proposals@[j as int] }));
                    status_ignores_locks(e0, *self, id, now);
                }
            }
            let done = self.is_concluded(id, now);
            if !done {
                kept.push(id);
                proof {
                    assert forall|j: int| 0 <= j < e0.proposals@.len() implies
                        #[trigger] processed(e0, post, (j + 1) as ProposalId, now) == processed(e0, pre, (j + 1) as ProposalId, now) by {
                        if post.contains((j + 1) as ProposalId) && !pre.contains((j + 1) as ProposalId) {
                            let w = choose|w: int| 0 <= w < post.len() && post[w] == (j + 1) as ProposalId;
                            if w < pre.len() {
                                assert(pre[w] == post[w]);
                            }
                        }
                        if pre.contains((j + 1) as ProposalId) {
                            let w = choose|w: int| 0 <= w < pre.len() && pre[w] == (j + 1) as ProposalId;
                            assert(post[w] == pre[w]);
                        }
                    }
                    assert(transfers_payments(transfers@) =~= released(e0, user, post, now));
                }
            } else if id >= 1 && id <= self.proposals.len() as u64 {
                let idx = (id - 1) as usize;
                let ghost before = *self;
                let ghost cur = self.proposals@[idx as int];
                assert(cur.wf(idx + 1));
                let mut rec = self.proposals.remove(idx);
                let mut locked: Vec<VoterLocks> = Vec::new();
                std::mem::swap(&mut locked, &mut rec.locked);
                let ghost t_before = transfers@;
                let others = split_locks(locked, user, caller, &mut transfers);
                rec.locked = others;
                self.proposals.insert(idx, rec);
                proof {
                    assert(self.proposals@ =~= before.proposals@.update(idx as int, rec));
                    assert(rec.wf(idx + 1));
                    lemma_others_idempotent(e0.proposals@[idx as int].locked@, user);
                    if pre.contains(id) {
                        assert(processed(e0, pre, id, now));
                        assert(cur.locked@ == others_of(e0.proposals@[idx as int].locked@, user));
                    } else {
                        assert(cur == e0.proposals@[idx as int]);
                    }
                    assert(transfers_payments(transfers@) =~= released(e0, user, post, now));
                    assert forall|j: int| 0 <= j < e0.proposals@.len() implies
                        #[trigger] processed(e0, post, (j + 1) as ProposalId, now) == (processed(e0, pre, (j + 1) as ProposalId, now) || j == idx) by {
                        if post.contains((j + 1) as ProposalId) && !pre.contains((j + 1) as ProposalId) {
                            let w = choose|w: int| 0 <= w < post.len() && post[w] == (j + 1) as ProposalId;
                            if w < pre.len() {
                                assert(pre[w] == post[w]);
                            }
                        }
                        if pre.contains((j + 1) as ProposalId) {
                            let w = choose|w: int| 0 <= w < pre.len() && pre[w] == (j + 1) as ProposalId;
                            assert(post[w] == pre[w]);
                        }
                        if j == idx {
                            assert(post[k as int] == id);
                        }
                    }
                    assert forall|t: int| 0 <= t < transfers@.len() implies (#[trigger] transfers@[t]).to@ == caller@ by {
                        if t < t_before.len() {
                            assert(transfers@[t] == t_before[t]);
                        }
                    }
                }
            } else {
                proof {
                    assert forall|j: int| 0 <= j < e0.proposals@.len() implies
                        #[trigger] processed(e0, post, (j + 1) as ProposalId, now) == processed(e0, pre, (j + 1) as ProposalId, now) by {
                        if post.contains((j + 1) as ProposalId) && !pre.contains((j + 1) as ProposalId) {
                            let w = choose|w: int| 0 <= w < post.len() && post[w] == (j + 1) as ProposalId;
                            if w < pre.len() {
                                assert(pre[w] == post[w]);
                            }
                        }
                        if pre.contains((j + 1) as ProposalId) {
                            let w = choose|w: int| 0 <= w < pre.len() && pre[w] == (j + 1) as ProposalId;
                            assert(post[w] == pre[w]);
                        }
                    }
                    assert(transfers_payments(transfers@) =~= released(e0, user, post, now));
                }
            }
            k = k + 1;
        }
        let ghost mid = *self;
        let mut rest: Vec<ProposalId> = Vec::new();
        let mut m: usize = n;
        while m < ids.len()
            invariant
                n <= m <= ids@.len(),
                rest@ == ids@.subrange(n as int, m as int),
            decreases ids.len() - m,
        {
            rest.push(ids[m]);
            m = m + 1;
            assert(rest@ =~= ids@.subrange(n as int, m as int));
        }
        let kept_len = kept.len();
        let mut new_list = kept;
        let ghost kept_view = new_list@;
        new_list.append(&mut rest);
        let ghost before_users = self.users@;
        let mut entry = self.users.remove(user - 1);
        entry.locked_proposals = new_list;
        self.users.insert(user - 1, entry);
        proof {
            assert(self.users@ =~= before_users.update(user - 1, entry));
        }
        WithdrawReport { total, withdrawn: n - kept_len, transfers }
    }
}

proof fn lemma_member_count_frame(a: Seq<UserEntry>, b: Seq<UserEntry>, role: Seq<u8>)
    requires
        a.len() == b.len(),
        forall|u: int| 0 <= u < a.len() ==> (#[trigger] b[u]).roles == a[u].roles,
    ensures
        crate::entity::member_count(b, role) == crate::entity::member_count(a, role),
    decreases a.len(),
{
    if a.len() > 0 {
        lemma_member_count_frame(a.drop_last(), b.drop_last(), role);
    }
}

proof fn lemma_all_concluded(e: Entity, ids: Seq<ProposalId>, now: Timestamp)
    requires
        forall|i: int| 0 <= i < ids.len() ==> concluded(e, #[trigger] ids[i], now),
    ensures
        kept_ids(e, ids, now) == Seq::<ProposalId>::empty(),
    decreases ids.len(),
{
    if ids.len() > 0 {
        assert(concluded(e, ids[ids.len() - 1], now));
        lemma_all_concluded(e, ids.drop_last(), now);
    }
}

/// A caller's withdrawal resumes where it stopped. With `N` proposals of
/// locked votes outstanding, all concluded, and a budget for only `K < N`
/// of them, a call releases exactly `K` and leaves `N - K` recorded; a
/// second call with a budget for the rest releases them all.
pub proof fn withdraw_resumes(
    e0: Entity,
    e1: Entity,
    e2: Entity,
    caller: Seq<u8>,
    budget1: u64,
    budget2: u64,
    now: Timestamp,
    r1: WithdrawReport,
    r2: WithdrawReport,
)
    requires
        e0.wf(),
        user_id_of(e0.users@, caller) != 0,
        forall|i: int|
            0 <= i < e0.users@[user_id_of(e0.users@, caller) - 1].locked_proposals@.len() ==> concluded(
                e0,
                #[trigger] e0.users@[user_id_of(e0.users@, caller) - 1].locked_proposals@[i],
                now,
            ),
        withdraw_post(e0, e1, caller, budget1, now, r1),
        withdraw_post(e1, e2, caller, budget2, now, r2),
        budget1 / GAS_LIMIT_WITHDRAW < e0.users@[user_id_of(e0.users@, caller) - 1].locked_proposals@.len(),
        budget2 / GAS_LIMIT_WITHDRAW >= e0.users@[user_id_of(e0.users@, caller) - 1].locked_proposals@.len()
            - budget1 / GAS_LIMIT_WITHDRAW,
    ensures
        r1.withdrawn == budget1 / GAS_LIMIT_WITHDRAW,
        e1.users@[user_id_of(e0.users@, caller) - 1].locked_proposals@.len() == e0.users@[user_id_of(
            e0.users@,
            caller,
        ) - 1].locked_proposals@.len() - budget1 / GAS_LIMIT_WITHDRAW,
        r2.withdrawn == e0.users@[user_id_of(e0.users@, caller) - 1].locked_proposals@.len() - budget1 / GAS_LIMIT_WITHDRAW,
        e2.users@[user_id_of(e0.users@, caller) - 1].locked_proposals@.len() == 0,
{
    crate::entity::lemma_user_id_bound(e0.users@, caller);
    let user = user_id_of(e0.users@, caller) as UserId;
    let ids = e0.users@[user - 1].locked_proposals@;
    let n = withdraw_attempts(ids.len(), budget1);
    let done = ids.subrange(0, n as int);
    lemma_all_concluded(e0, done, now);
    crate::entity::lemma_user_id_frame(e1.users@, e0.users@, caller);
    let rest = ids.subrange(n as int, ids.len() as int);
    assert(e1.users@[user - 1].locked_proposals@ =~= rest);
    assert forall|i: int| 0 <= i < rest.len() implies concluded(e1, #[trigger] rest[i], now) by {
        assert(rest[i] == ids[i + n]);
        assert(concluded(e0, ids[i + n], now));
        let id = rest[i];
        if e0.has_proposal(id) {
            let j = id - 1;
            if processed(e0, done, id, now) {
                assert(e1.proposals@[j as int] == (ProposalRecord { locked: e1.proposals@[j as int].locked, ..e0.proposals@[j as int] }));
            } else {
                assert(e1.proposals@[j as int] == e0.proposals@[j as int]);
            }
            assert forall|u: int| 0 <= u < e0.users@.len() implies (#[trigger] e1.users@[u]).roles == e0.users@[u].roles by {}
            status_ignores_locks(e0, e1, id, now);
        }
    }
    let n2 = withdraw_attempts(rest.len(), budget2);
    lemma_all_concluded(e1, rest.subrange(0, n2 as int), now);
    assert(rest.subrange(n2 as int, rest.len() as int) =~= Seq::<ProposalId>::empty());
}

} // verus!
