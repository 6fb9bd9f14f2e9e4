use vstd::prelude::*;

use crate::config::{Amount, Payment, ProposalId, ProposalRole, Timestamp, UserId};
use crate::permission::{Policy, PolicyMethod};

verus! {

/// A decision raised by a member, with the roles whose policies govern it.
#[derive(Debug)]
pub struct Proposal {
    pub id: ProposalId,
    pub proposer: UserId,
    pub content_hash: Vec<u8>,
    /// Digest of the actions to run; empty for a proposal without actions.
    pub actions_hash: Vec<u8>,
    pub starts_at: Timestamp,
    /// Zero once the proposal is canceled.
    pub ends_at: Timestamp,
    pub executed: bool,
    pub roles: Vec<Vec<u8>>,
}

impl Proposal {
    pub open spec fn has_actions_spec(&self) -> bool {
        self.actions_hash@.len() != 0
    }

    pub open spec fn is_canceled_spec(&self) -> bool {
        self.ends_at == 0
    }

    /// Whether the proposal pins actions to run.
    pub fn has_actions(&self) -> (r: bool)
        ensures
            r == self.has_actions_spec(),
    {
        self.actions_hash.len() != 0
    }

    /// Whether the proposal was canceled.
    pub fn is_canceled(&self) -> (r: bool)
        ensures
            r == self.is_canceled_spec(),
    {
        self.ends_at == 0
    }

    /// Cancels the proposal.
    pub fn set_canceled(&mut self)
        ensures
            *final(self) == (Proposal { ends_at: 0, ..*old(self) }),
            final(self).is_canceled_spec(),
    {
        self.ends_at = 0;
    }
}

/// Settings a proposal was raised under.
#[derive(Debug)]
pub struct ProposalDetails {
    pub token: Option<Vec<u8>>,
    pub plug: Option<Vec<u8>>,
    pub quorum: Amount,
    /// Permissions the proposer announced its actions will use.
    pub permissions: Vec<Vec<u8>>,
}

/// One call that an executed proposal makes.
#[derive(Debug)]
pub struct Action {
    pub destination: Vec<u8>,
    pub endpoint: Vec<u8>,
    pub value: Amount,
    pub payments: Vec<Payment>,
    pub arguments: Vec<Vec<u8>>,
    pub gas_limit: u64,
}

#[derive(Clone, Copy, PartialEq, Eq, Debug, Structural)]
pub enum ProposalStatus {
    Pending,
    Active,
    Defeated,
    Succeeded,
    Executed,
    Canceled,
}

#[derive(Clone, Copy, PartialEq, Eq, Debug, Structural)]
pub enum VoteType {
    For,
    Against,
}

/// The status of a proposal at time `now`, given whether every policy that
/// applies to it is fulfilled and whether any of them is token-weighted.
pub open spec fn status_spec(p: Proposal, now: Timestamp, fulfilled: bool, weighted: bool) -> ProposalStatus {
    if p.ends_at == 0 {
        ProposalStatus::Canceled
    } else if p.executed {
        ProposalStatus::Executed
    } else if now < p.starts_at {
        ProposalStatus::Pending
    } else if fulfilled && !weighted {
        ProposalStatus::Succeeded
    } else if now < p.ends_at {
        ProposalStatus::Active
    } else if fulfilled {
        ProposalStatus::Succeeded
    } else {
        ProposalStatus::Defeated
    }
}

/// Derives the status of a proposal from the outcome of its policies.
pub fn derive_status(p: &Proposal, now: Timestamp, fulfilled: bool, weighted: bool) -> (r: ProposalStatus)
    ensures
        r == status_spec(*p, now, fulfilled, weighted),
{
    if p.is_canceled() {
        return ProposalStatus::Canceled;
    }
    if p.executed {
        return ProposalStatus::Executed;
    }
    if now < p.starts_at {
        return ProposalStatus::Pending;
    }
    if fulfilled && !weighted {
        return ProposalStatus::Succeeded;
    }
    if now < p.ends_at {
        return ProposalStatus::Active;
    }
    if fulfilled {
        return ProposalStatus::Succeeded;
    }
    ProposalStatus::Defeated
}

/// A weighted tally passes when at least half of its weight is in favor and
/// the weight in favor reaches the quorum.
pub open spec fn sufficient_votes_spec(t: ProposalRole, quorum: Amount) -> bool {
    let total = t.votes_for + t.votes_against;
    &&& total > 0
    &&& t.votes_for * 100 / total >= 50
    &&& t.votes_for >= quorum
}

proof fn lemma_half_in_favor(f: nat, a: nat)
    requires
        f + a > 0,
    ensures
        (f * 100 / (f + a) >= 50) <==> f >= a,
{
    let t = f + a;
    if f >= a {
        assert(f * 100 >= 50 * t) by (nonlinear_arith)
            requires
                f >= a,
                t == f + a,
        ;
        vstd::arithmetic::div_mod::lemma_div_is_ordered((50 * t) as int, (f * 100) as int, t as int);
        vstd::arithmetic::div_mod::lemma_div_by_multiple(50, t as int);
    } else {
        assert(f * 100 < 50 * t) by (nonlinear_arith)
            requires
                f < a,
                t == f + a,
        ;
        vstd::arithmetic::div_mod::lemma_div_by_multiple(50, t as int);
        vstd::arithmetic::div_mod::lemma_div_is_ordered((f * 100) as int, (50 * t - 1) as int, t as int);
        assert((50 * t - 1) as int / t as int <= 49) by {
            vstd::arithmetic::div_mod::lemma_fundamental_div_mod((50 * t - 1) as int, t as int);
            vstd::arithmetic::div_mod::lemma_mod_bound((50 * t - 1) as int, t as int);
            let q = (50 * t - 1) as int / t as int;
            if q >= 50 {
                assert(q * t >= 50 * t) by (nonlinear_arith)
                    requires
                        q >= 50,
                        t > 0,
                ;
            }
        }
    }
}

/// Whether a weighted tally passes for the given quorum.
pub fn has_sufficient_votes(t: &ProposalRole, quorum: Amount) -> (r: bool)
    ensures
        r == sufficient_votes_spec(*t, quorum),
{
    if t.votes_for == 0 && t.votes_against == 0 {
        return false;
    }
    proof {
        lemma_half_in_favor(t.votes_for as nat, t.votes_against as nat);
    }
    t.votes_for >= t.votes_against && t.votes_for >= quorum
}

/// Whether one policy is fulfilled, given the role's weighted tally, how
/// many distinct members signed, whether the proposer signed, and how many
/// members the role has.
pub open spec fn policy_fulfilled_spec(
    policy: Policy,
    tally: ProposalRole,
    signers: nat,
    proposer_signed: bool,
    members: nat,
) -> bool {
    match policy.method {
        PolicyMethod::Weight => sufficient_votes_spec(tally, policy.quorum),
        PolicyMethod::One => proposer_signed,
        PolicyMethod::All => signers >= members,
        PolicyMethod::Quorum => signers >= policy.quorum,
        PolicyMethod::Majority => signers > members / 2,
    }
}

/// Whether one policy is fulfilled, as `policy_fulfilled_spec` says.
pub fn policy_fulfilled(
    policy: &Policy,
    tally: &ProposalRole,
    signers: usize,
    proposer_signed: bool,
    members: usize,
) -> (r: bool)
    ensures
        r == policy_fulfilled_spec(*policy, *tally, signers as nat, proposer_signed, members as nat),
{
    match policy.method {
        PolicyMethod::Weight => has_sufficient_votes(tally, policy.quorum),
        PolicyMethod::One => proposer_signed,
        PolicyMethod::All => signers >= members,
        PolicyMethod::Quorum => signers as u128 >= policy.quorum,
        PolicyMethod::Majority => signers > 0 && signers >= members / 2 + 1,
    }
}

} // verus!
