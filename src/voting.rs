use vstd::prelude::*;

use crate::seqs::lemma_prefix;

use crate::bytes::{bytes_eq, contains_name, names_contain};
use crate::config::{
    Amount, Config, LockedVote, Payment, ProposalId, ProposalRole, Timestamp, UserId, POLL_MAX_OPTIONS,
};
use crate::entity::{user_has_role, user_id_of, Entity, UserEntry};
use crate::error::Error;
use crate::governance::{
    has_intersecting_role, intersects, live_status, poll_after, poll_fits, settled_kept as settled_kept_by,
    ProposalRecord, RoleTally, VoterLocks,
};
use crate::permission::{PolicyEntry, PolicyMethod};
use crate::proposal::{Proposal, ProposalDetails, ProposalStatus, VoteType};

verus! {

/// The total amount the payments carry.
pub open spec fn payments_total(ps: Seq<Payment>) -> nat
    decreases ps.len(),
{
    if ps.len() == 0 {
        0
    } else {
        payments_total(ps.drop_last()) + ps.last().amount as nat
    }
}

/// A payment that stays with the organization as a locked vote: fungible
/// units, and units of tokens configured to be locked.
pub open spec fn is_locking(c: Config, p: Payment) -> bool {
    p.nonce == 0 || c.is_token_locked(p.token@)
}

pub open spec fn locking_payments(c: Config, ps: Seq<Payment>) -> Seq<Payment>
    decreases ps.len(),
{
    if ps.len() == 0 {
        seq![]
    } else if is_locking(c, ps.last()) {
        locking_payments(c, ps.drop_last()).push(ps.last())
    } else {
        locking_payments(c, ps.drop_last())
    }
}

/// Payments of non-fungible units that vote once and go straight back.
pub open spec fn returned_payments(c: Config, ps: Seq<Payment>) -> Seq<Payment>
    decreases ps.len(),
{
    if ps.len() == 0 {
        seq![]
    } else if is_locking(c, ps.last()) {
        returned_payments(c, ps.drop_last())
    } else {
        returned_payments(c, ps.drop_last()).push(ps.last())
    }
}

/// The nonces the returned payments vote with.
pub open spec fn nonces_of(ps: Seq<Payment>) -> Seq<u64> {
    ps.map_values(|p: Payment| p.nonce)
}

/// No nonce voted twice: neither within `fresh` nor with one of `used`.
pub open spec fn nonces_fresh(used: Seq<u64>, fresh: Seq<u64>) -> bool {
    &&& forall|i: int, j: int| 0 <= i < fresh.len() && 0 <= j < fresh.len() && i != j ==> fresh[i] != fresh[j]
    &&& forall|i: int| 0 <= i < fresh.len() ==> !used.contains(#[trigger] fresh[i])
}

/// Some payment is not of the governance token.
pub open spec fn has_foreign_token(c: Config, ps: Seq<Payment>) -> bool {
    exists|i: int| 0 <= i < ps.len() && !#[trigger] is_gov_payment(c, ps[i])
}

pub open spec fn is_gov_payment(c: Config, p: Payment) -> bool {
    c.gov_token is Some && p.token@ == c.gov_token->0@
}

/// Nonces are restricted and some payment's nonce is not allowed.
pub open spec fn has_restricted_nonce(c: Config, ps: Seq<Payment>) -> bool {
    c.restricted_vote_nonces@.len() > 0 && exists|i: int| 0 <= i < ps.len() && !#[trigger] nonce_allowed(c, ps[i])
}

pub open spec fn nonce_allowed(c: Config, p: Payment) -> bool {
    c.restricted_vote_nonces@.contains(p.nonce)
}

/// Why the payments may not carry a vote, if they may not: each must be of
/// the governance token, and of an allowed nonce when nonces are restricted.
pub open spec fn payments_error(c: Config, ps: Seq<Payment>) -> Option<Error> {
    if has_foreign_token(c, ps) {
        Some(Error::InvalidPaymentToken)
    } else if has_restricted_nonce(c, ps) {
        Some(Error::RestrictedNonce)
    } else if payments_total(ps) > u128::MAX {
        Some(Error::Overflow)
    } else {
        None
    }
}


proof fn lemma_total_prefix(s: Seq<Payment>, i: int)
    requires
        0 <= i <= s.len(),
    ensures
        payments_total(s.subrange(0, i)) <= payments_total(s),
    decreases s.len() - i,
{
    if i < s.len() {
        lemma_prefix(s, i);
        lemma_total_prefix(s, i + 1);
    } else {
        assert(s.subrange(0, i) =~= s);
    }
}

fn contains_u64(s: &Vec<u64>, x: u64) -> (r: bool)
    ensures
        r == s@.contains(x),
{
    let mut i: usize = 0;
    while i < s.len()
        invariant
            0 <= i <= s.len(),
            forall|j: int| 0 <= j < i ==> s@[j] != x,
        decreases s.len() - i,
    {
        if s[i] == x {
            return true;
        }
        i = i + 1;
    }
    false
}

fn tokens_ok(c: &Config, ps: &Vec<Payment>) -> (r: bool)
    ensures
        r == !has_foreign_token(*c, ps@),
{
    let mut i: usize = 0;
    while i < ps.len()
        invariant
            0 <= i <= ps.len(),
            forall|j: int| 0 <= j < i ==> #[trigger] is_gov_payment(*c, ps@[j]),
        decreases ps.len() - i,
    {
        match &c.gov_token {
            None => {
                assert(!is_gov_payment(*c, ps@[i as int]));
                return false;
            },
            Some(t) => {
                if !bytes_eq(&ps[i].token, t) {
                    assert(!is_gov_payment(*c, ps@[i as int]));
                    return false;
                }
            },
        }
        i = i + 1;
    }
    true
}

fn nonces_ok(c: &Config, ps: &Vec<Payment>) -> (r: bool)
    ensures
        r == !has_restricted_nonce(*c, ps@),
{
    if c.restricted_vote_nonces.len() == 0 {
        return true;
    }
    let mut i: usize = 0;
    while i < ps.len()
        invariant
            0 <= i <= ps.len(),
            c.restricted_vote_nonces@.len() > 0,
            forall|j: int| 0 <= j < i ==> #[trigger] nonce_allowed(*c, ps@[j]),
        decreases ps.len() - i,
    {
        if !contains_u64(&c.restricted_vote_nonces, ps[i].nonce) {
            assert(!nonce_allowed(*c, ps@[i as int]));

            return false;
        }
        i = i + 1;
    }
    true
}

fn total_of(ps: &Vec<Payment>) -> (r: Option<Amount>)
    ensures
        r is Some <==> payments_total(ps@) <= u128::MAX,
        r is Some ==> r->0 == payments_total(ps@),
{
    let mut total: Amount = 0;
    let mut i: usize = 0;
    while i < ps.len()
        invariant
            0 <= i <= ps.len(),
            total == payments_total(ps@.subrange(0, i as int)),
        decreases ps.len() - i,
    {
        proof {
            lemma_prefix(ps@, i as int);
        }
        if ps[i].amount > u128::MAX - total {
            proof {
                lemma_total_prefix(ps@, i + 1);
            }
            return None;
        }
        total = total + ps[i].amount;
        i = i + 1;
    }
    assert(ps@.subrange(0, ps@.len() as int) =~= ps@);
    Some(total)
}

/// Checks that the payments may carry a vote, and returns their total.
pub fn check_payments(c: &Config, ps: &Vec<Payment>) -> (r: Result<Amount, Error>)
    ensures
        payments_error(*c, ps@) is Some ==> r == Err::<Amount, Error>(payments_error(*c, ps@)->0),
        payments_error(*c, ps@) is None ==> r == Ok::<Amount, Error>(payments_total(ps@) as Amount),
{
    if !tokens_ok(c, ps) {
        return Err(Error::InvalidPaymentToken);
    }
    if !nonces_ok(c, ps) {
        return Err(Error::RestrictedNonce);
    }
    match total_of(ps) {
        None => Err(Error::Overflow),
        Some(t) => Ok(t),
    }
}

/// Parts the payments into those that lock and those that go back.
pub fn split_payments(c: &Config, ps: Vec<Payment>) -> (r: (Vec<Payment>, Vec<Payment>))
    ensures
        r.0@ == locking_payments(*c, ps@),
        r.1@ == returned_payments(*c, ps@),
{
    let total_len = ps.len();
    let ghost all = ps@;
    let mut locking: Vec<Payment> = Vec::new();
    let mut returned: Vec<Payment> = Vec::new();
    let mut rest = ps;
    let mut taken: usize = 0;
    while rest.len() > 0
        invariant
            0 <= taken <= all.len(),
            all.len() == total_len,
            taken + rest@.len() == all.len(),
            rest@ == all.subrange(taken as int, all.len() as int),
            locking@ == locking_payments(*c, all.subrange(0, taken as int)),
            returned@ == returned_payments(*c, all.subrange(0, taken as int)),
        decreases rest.len(),
    {
        proof {
            lemma_prefix(all, taken as int);
        }
        let p = rest.remove(0);
        assert(rest@ =~= all.subrange(taken + 1, all.len() as int));
        if p.nonce == 0 || c.is_locking_vote_token(&p.token) {
            locking.push(p);
        } else {
            returned.push(p);
        }
        taken = taken + 1;
    }
    assert(all.subrange(0, all.len() as int) =~= all);
    (locking, returned)
}

/// Some policy of one of `roles` is token-weighted.
pub open spec fn weighted_roles(pols: Seq<PolicyEntry>, roles: Seq<Vec<u8>>) -> bool {
    exists|i: int, k: int|
        0 <= i < roles.len() && 0 <= k < pols.len() && #[trigger] pols[k].role@ == #[trigger] roles[i]@
            && pols[k].policy.method == PolicyMethod::Weight
}

/// The user holds one of `roles` that has a token-weighted policy.
pub open spec fn holds_weighted_role(e: Entity, user: UserId, roles: Seq<Vec<u8>>) -> bool {
    exists|i: int, k: int|
        0 <= i < roles.len() && 0 <= k < e.policies@.len() && #[trigger] e.policies@[k].role@ == #[trigger] roles[i]@
            && e.policies@[k].policy.method == PolicyMethod::Weight && user_has_role(e.users@, user, roles[i]@)
}

/// A user may propose when it holds a role with a token-weighted policy,
/// when nobody leads the organization, or when nothing is to be executed.
pub open spec fn can_propose_spec(e: Entity, user: UserId, actions_hash: Seq<u8>, roles: Seq<Vec<u8>>) -> bool {
    holds_weighted_role(e, user, roles) || e.is_leaderless_spec() || actions_hash.len() == 0
}

/// The longest voting period among the policies of `roles`, if any applies.
pub open spec fn longest_period(pols: Seq<PolicyEntry>, roles: Seq<Vec<u8>>) -> Option<usize>
    decreases pols.len(),
{
    if pols.len() == 0 {
        None
    } else {
        let prev = longest_period(pols.drop_last(), roles);
        let last = pols.last();
        if contains_name(roles, last.role@) {
            match prev {
                Some(p) => Some(if p >= last.policy.voting_period_minutes {
                    p
                } else {
                    last.policy.voting_period_minutes
                }),
                None => Some(last.policy.voting_period_minutes),
            }
        } else {
            prev
        }
    }
}

pub open spec fn voting_period_spec(e: Entity, roles: Seq<Vec<u8>>) -> usize {
    match longest_period(e.policies@, roles) {
        Some(p) => p,
        None => e.config.default_voting_period_minutes,
    }
}

pub open spec fn start_spec(starts_at: Timestamp, now: Timestamp) -> Timestamp {
    if starts_at != 0 {
        starts_at
    } else {
        now
    }
}

/// Why a proposal with these inputs is refused, if it is.
pub open spec fn propose_error(
    e: Entity,
    proposer: Seq<u8>,
    host_id: Seq<u8>,
    signature_valid: bool,
    actions_hash: Seq<u8>,
    starts_at: Timestamp,
    roles: Seq<Vec<u8>>,
    payments: Seq<Payment>,
    now: Timestamp,
) -> Option<Error> {
    let user = user_id_of(e.users@, proposer) as UserId;
    let start = start_spec(starts_at, now);
    if payments_error(e.config, payments) is Some {
        payments_error(e.config, payments)
    } else if e.config.trusted_host is Some && !signature_valid {
        Some(Error::InvalidSignature)
    } else if contains_name(e.known_host_ids@, host_id) {
        Some(Error::ProposalRegistered)
    } else if !can_propose_spec(e, user, actions_hash, roles) {
        Some(Error::ProposerNotAllowed)
    } else if weighted_roles(e.policies@, roles) && e.config.plug is None && payments_total(payments)
        < e.config.min_propose_weight {
        Some(Error::InsufficientProposeWeight)
    } else if actions_hash.len() != 0 && actions_hash.len() != crate::hash::KECCAK256_RESULT_LEN {
        Some(Error::InvalidActionsHash)
    } else if starts_at != 0 && starts_at <= now {
        Some(Error::StartNotInFuture)
    } else if start + voting_period_spec(e, roles) * 60 > u64::MAX {
        Some(Error::Overflow)
    } else if roles.len() == 0 {
        Some(Error::NoRoles)
    } else if !nonces_fresh(seq![], nonces_of(returned_payments(e.config, payments))) {
        Some(Error::AlreadyVotedWithToken)
    } else {
        None
    }
}

/// What a proposal or a vote hands back to the caller.
#[derive(Debug)]
pub struct VoteReceipt {
    pub proposal: ProposalId,
    /// The weight the payments carried.
    pub weight: Amount,
    /// Non-fungible units to send back to the voter at once.
    pub returned: Vec<Payment>,
    /// The weight oracle must be asked before the step completes.
    pub awaiting_oracle: bool,
}

fn holds_weighted_role_exec(e: &Entity, user: UserId, roles: &Vec<Vec<u8>>) -> (r: (bool, bool))
    ensures
        r.0 == holds_weighted_role(*e, user, roles@),
        r.1 == weighted_roles(e.policies@, roles@),
{
    let mut holds = false;
    let mut weighted = false;
    let mut i: usize = 0;
    while i < roles.len()
        invariant
            0 <= i <= roles.len(),
            holds ==> exists|i2: int, k: int|
                0 <= i2 < i && 0 <= k < e.policies@.len() && #[trigger] e.policies@[k].role@ == #[trigger] roles@[i2]@
                    && e.policies@[k].policy.method == PolicyMethod::Weight && user_has_role(e.users@, user, roles@[i2]@),
            !holds ==> forall|i2: int, k: int|
                0 <= i2 < i && 0 <= k < e.policies@.len() && #[trigger] e.policies@[k].role@ == #[trigger] roles@[i2]@
                    && e.policies@[k].policy.method == PolicyMethod::Weight ==> !user_has_role(e.users@, user, roles@[i2]@),
            weighted ==> exists|i2: int, k: int|
                0 <= i2 < i && 0 <= k < e.policies@.len() && #[trigger] e.policies@[k].role@ == #[trigger] roles@[i2]@
                    && e.policies@[k].policy.method == PolicyMethod::Weight,
            !weighted ==> forall|i2: int, k: int|
                0 <= i2 < i && 0 <= k < e.policies@.len() && #[trigger] e.policies@[k].role@ == #[trigger] roles@[i2]@
                    ==> e.policies@[k].policy.method != PolicyMethod::Weight,
        decreases roles.len() - i,
    {
        let has = e.user_has_role(user, &roles[i]);
        let mut k: usize = 0;
        while k < e.policies.len()
            invariant
                0 <= i < roles.len(),
                0 <= k <= e.policies.len(),
                has == user_has_role(e.users@, user, roles@[i as int]@),
                holds ==> exists|i2: int, k2: int|
                    0 <= i2 <= i && 0 <= k2 < e.policies@.len() && #[trigger] e.policies@[k2].role@ == #[trigger] roles@[i2]@
                        && e.policies@[k2].policy.method == PolicyMethod::Weight && user_has_role(e.users@, user, roles@[i2]@),
                !holds ==> forall|i2: int, k2: int|
                    0 <= i2 < i && 0 <= k2 < e.policies@.len() && #[trigger] e.policies@[k2].role@ == #[trigger] roles@[i2]@
                        && e.policies@[k2].policy.method == PolicyMethod::Weight ==> !user_has_role(e.users@, user, roles@[i2]@),
                !holds ==> forall|k2: int|
                    0 <= k2 < k && #[trigger] e.policies@[k2].role@ == roles@[i as int]@
                        && e.policies@[k2].policy.method == PolicyMethod::Weight ==> has == false,
                weighted ==> exists|i2: int, k2: int|
                    0 <= i2 <= i && 0 <= k2 < e.policies@.len() && #[trigger] e.policies@[k2].role@ == #[trigger] roles@[i2]@
                        && e.policies@[k2].policy.method == PolicyMethod::Weight,
                !weighted ==> forall|i2: int, k2: int|
                    0 <= i2 < i && 0 <= k2 < e.policies@.len() && #[trigger] e.policies@[k2].role@ == #[trigger] roles@[i2]@
                        ==> e.policies@[k2].policy.method != PolicyMethod::Weight,
                !weighted ==> forall|k2: int|
                    0 <= k2 < k && #[trigger] e.policies@[k2].role@ == roles@[i as int]@
                        ==> e.policies@[k2].policy.method != PolicyMethod::Weight,
            decreases e.policies.len() - k,
        {
            if e.policies[k].policy.method == PolicyMethod::Weight && bytes_eq(&e.policies[k].role, &roles[i]) {
                weighted = true;
                if has {
                    holds = true;
                }
            }
            k = k + 1;
        }
        proof {
            if !weighted {
                assert forall|i2: int, k2: int|
                    0 <= i2 < i + 1 && 0 <= k2 < e.policies@.len() && #[trigger] e.policies@[k2].role@ == #[trigger] roles@[i2]@
                        implies e.policies@[k2].policy.method != PolicyMethod::Weight by {
                    if i2 == i {
                        assert(e.policies@[k2].role@ == roles@[i as int]@);
                    }
                }
            }
            if !holds {
                assert forall|i2: int, k2: int|
                    0 <= i2 < i + 1 && 0 <= k2 < e.policies@.len() && #[trigger] e.policies@[k2].role@ == #[trigger] roles@[i2]@
                        && e.policies@[k2].policy.method == PolicyMethod::Weight implies !user_has_role(e.users@, user, roles@[i2]@) by {
                    if i2 == i {
                        assert(e.policies@[k2].role@ == roles@[i as int]@);
                    }
                }
            }
        }
        i = i + 1;
    }
    (holds, weighted)
}

fn voting_period(e: &Entity, roles: &Vec<Vec<u8>>) -> (r: usize)
    ensures
        r == voting_period_spec(*e, roles@),
{
    let mut longest: Option<usize> = None;
    let mut k: usize = 0;
    while k < e.policies.len()
        invariant
            0 <= k <= e.policies.len(),
            longest == longest_period(e.policies@.subrange(0, k as int), roles@),
        decreases e.policies.len() - k,
    {
        proof {
            lemma_prefix(e.policies@, k as int);
        }
        if names_contain(roles, &e.policies[k].role) {
            let p = e.policies[k].policy.voting_period_minutes;
            longest = match longest {
                Some(q) => Some(if q >= p { q } else { p }),
                None => Some(p),
            };
        }
        k = k + 1;
    }
    assert(e.policies@.subrange(0, e.policies@.len() as int) =~= e.policies@);
    match longest {
        Some(p) => p,
        None => e.config.default_voting_period_minutes,
    }
}

/// A poll with no weight on any option.
pub open spec fn empty_poll() -> Seq<Amount> {
    Seq::new(POLL_MAX_OPTIONS as nat, |i: int| 0u128)
}

fn zero_poll() -> (r: Vec<Amount>)
    ensures
        r@ == empty_poll(),
{
    let mut r: Vec<Amount> = Vec::new();
    let mut i: usize = 0;
    while i < POLL_MAX_OPTIONS as usize
        invariant
            0 <= i <= POLL_MAX_OPTIONS,
            r@.len() == i,
            forall|j: int| 0 <= j < i ==> r@[j] == 0,
        decreases POLL_MAX_OPTIONS - i,
    {
        r.push(0);
        i = i + 1;
    }
    assert(r@ =~= empty_poll());
    r
}

/// One tally per role, each with `votes_for` in favor and signed by `user`.
fn new_tallies(n: usize, user: UserId, votes_for: Amount) -> (r: Vec<RoleTally>)
    ensures
        r@.len() == n,
        forall|i: int|
            0 <= i < n ==> (#[trigger] r@[i]).votes == (ProposalRole { votes_for, votes_against: 0 })
                && r@[i].signers@ == seq![user],
{
    let mut r: Vec<RoleTally> = Vec::new();
    let mut i: usize = 0;
    while i < n
        invariant
            0 <= i <= n,
            r@.len() == i,
            forall|j: int|
                0 <= j < i ==> (#[trigger] r@[j]).votes == (ProposalRole { votes_for, votes_against: 0 })
                    && r@[j].signers@ == seq![user],
        decreases n - i,
    {
        let signers: Vec<UserId> = vec![user];
        assert(signers@ =~= seq![user]);
        r.push(RoleTally { votes: ProposalRole { votes_for, votes_against: 0 }, signers });
        i = i + 1;
    }
    r
}

/// Locked votes for the payments, unlocking when the proposal ends.
fn lock_payments(ps: Vec<Payment>, unlocks_at: Timestamp, id: ProposalId) -> (r: Vec<LockedVote>)
    ensures
        r@.len() == ps@.len(),
        forall|k: int|
            0 <= k < r@.len() ==> (#[trigger] r@[k]).unlocks_at == unlocks_at && r@[k].used@ == seq![id]
                && r@[k].payment == ps@[k],
{
    let ghost all = ps@;
    let total_len = ps.len();
    let mut rest = ps;
    let mut r: Vec<LockedVote> = Vec::new();
    while rest.len() > 0
        invariant
            all.len() == total_len,
            r@.len() + rest@.len() == all.len(),
            rest@ == all.subrange(r@.len() as int, all.len() as int),
            forall|k: int|
                0 <= k < r@.len() ==> (#[trigger] r@[k]).unlocks_at == unlocks_at && r@[k].used@ == seq![id]
                    && r@[k].payment == all[k],
        decreases rest.len(),
    {
        let p = rest.remove(0);
        let used: Vec<ProposalId> = vec![id];
        assert(used@ =~= seq![id]);
        let ghost n = r@.len();
        r.push(LockedVote { unlocks_at, used, payment: p });
        assert(rest@ =~= all.subrange(r@.len() as int, all.len() as int));
    }
    r
}

fn nonces(ps: &Vec<Payment>) -> (r: Vec<u64>)
    ensures
        r@ == nonces_of(ps@),
{
    let mut r: Vec<u64> = Vec::new();
    let mut i: usize = 0;
    while i < ps.len()
        invariant
            0 <= i <= ps.len(),
            r@ == nonces_of(ps@.subrange(0, i as int)),
        decreases ps.len() - i,
    {
        r.push(ps[i].nonce);
        i = i + 1;
        assert(r@ =~= nonces_of(ps@.subrange(0, i as int)));
    }
    assert(ps@.subrange(0, ps@.len() as int) =~= ps@);
    r
}

fn nonces_are_fresh(used: &Vec<u64>, fresh: &Vec<u64>) -> (r: bool)
    ensures
        r == nonces_fresh(used@, fresh@),
{
    let mut i: usize = 0;
    while i < fresh.len()
        invariant
            0 <= i <= fresh.len(),
            forall|a: int, b: int| 0 <= a < i && 0 <= b < fresh@.len() && a != b ==> fresh@[a] != fresh@[b],
            forall|a: int| 0 <= a < i ==> !used@.contains(#[trigger] fresh@[a]),
        decreases fresh.len() - i,
    {
        if contains_u64(used, fresh[i]) {
            return false;
        }
        let mut j: usize = 0;
        while j < fresh.len()
            invariant
                0 <= i < fresh.len(),
                0 <= j <= fresh.len(),
                forall|b: int| 0 <= b < j && b != i ==> fresh@[i as int] != fresh@[b],
            decreases fresh.len() - j,
        {
            if j != i && fresh[j] == fresh[i] {
                return false;
            }
            j = j + 1;
        }
        i = i + 1;
    }
    true
}

impl Entity {
    /// Records that `user` holds locked votes on proposal `id`.
    fn note_locked_proposal(&mut self, user: UserId, id: ProposalId)
        requires
            1 <= user <= old(self).users@.len(),
        ensures
            final(self).same_but_users(old(self)),
            final(self).users@.len() == old(self).users@.len(),
            forall|u: int| 0 <= u < old(self).users@.len() && u != user - 1 ==> #[trigger] final(self).users@[u] == old(self).users@[u],
            final(self).users@[user - 1].address == old(self).users@[user - 1].address,
            final(self).users@[user - 1].roles == old(self).users@[user - 1].roles,
            final(self).users@[user - 1].locked_proposals@ == if old(self).users@[user - 1].locked_proposals@.contains(id) {
                old(self).users@[user - 1].locked_proposals@
            } else {
                old(self).users@[user - 1].locked_proposals@.push(id)
            },
    {
        let ghost before = self.users@;
        let mut entry = self.users.remove(user - 1);
        if !contains_u64(&entry.locked_proposals, id) {
            entry.locked_proposals.push(id);
        }
        self.users.insert(user - 1, entry);
        assert(self.users@ =~= before.update(user - 1, entry));
    }

    /// The digest that the trusted host signs for a proposal.
    pub fn proposal_signable_digest(
        proposer: &Vec<u8>,
        entity: &Vec<u8>,
        host_id: &Vec<u8>,
        content_hash: &Vec<u8>,
        actions_hash: &Vec<u8>,
        roles: &Vec<Vec<u8>>,
    ) -> (r: Vec<u8>)
        ensures
            r@ == crate::hash::keccak256_of(
                proposer@ + entity@ + host_id@ + content_hash@ + actions_hash@ + crate::hash::concat_bytes(roles@),
            ),
    {
        let mut signable: Vec<u8> = Vec::new();
        crate::bytes::append_bytes(&mut signable, proposer);
        crate::bytes::append_bytes(&mut signable, entity);
        crate::bytes::append_bytes(&mut signable, host_id);
        crate::bytes::append_bytes(&mut signable, content_hash);
        crate::bytes::append_bytes(&mut signable, actions_hash);
        let ghost head = signable@;
        let mut i: usize = 0;
        while i < roles.len()
            invariant
                0 <= i <= roles.len(),
                signable@ == head + crate::hash::concat_bytes(roles@.subrange(0, i as int)),
            decreases roles.len() - i,
        {
            proof {
                lemma_prefix(roles@, i as int);
            }
            crate::bytes::append_bytes(&mut signable, &roles[i]);
            i = i + 1;
            assert(signable@ =~= head + crate::hash::concat_bytes(roles@.subrange(0, i as int)));
        }
        assert(roles@.subrange(0, roles@.len() as int) =~= roles@);
        assert(head + crate::hash::concat_bytes(roles@) =~= proposer@ + entity@ + host_id@ + content_hash@
            + actions_hash@ + crate::hash::concat_bytes(roles@));
        crate::hash::keccak256(&signable)
    }
}

impl Entity {
    /// Raises a proposal on behalf of `proposer`, paying `payments` as its
    /// own vote in favor. `signature_valid` is the attester's verdict on the
    /// proposal's signable digest; it is only consulted when a trusted host
    /// is configured. When the organization is plugged into a weight
    /// oracle, the receipt says so: the oracle's answer then goes to
    /// `propose_callback`.
    pub fn propose(
        &mut self,
        proposer: &Vec<u8>,
        host_id: Vec<u8>,
        content_hash: Vec<u8>,
        signature_valid: bool,
        actions_hash: Vec<u8>,
        option: u8,
        starts_at: Timestamp,
        roles: Vec<Vec<u8>>,
        permissions: Vec<Vec<u8>>,
        payments: Vec<Payment>,
        now: Timestamp,
    ) -> (r: Result<VoteReceipt, Error>)
        requires
            old(self).wf(),
            old(self).users@.len() + 1 < usize::MAX,
            old(self).proposals@.len() + 1 < u64::MAX,
        ensures
            final(self).wf(),
            propose_error(*old(self), proposer@, host_id@, signature_valid, actions_hash@, starts_at, roles@, payments@, now) is Some
                ==> r == Err::<VoteReceipt, Error>(
                propose_error(*old(self), proposer@, host_id@, signature_valid, actions_hash@, starts_at, roles@, payments@, now)->0,
            ),
            r is Ok <==> propose_error(*old(self), proposer@, host_id@, signature_valid, actions_hash@, starts_at, roles@, payments@, now) is None,
            r is Err ==> *final(self) == *old(self),
            r is Ok ==> {
                let id = old(self).proposals@.len() + 1;
                let user = user_id_of(final(self).users@, proposer@) as UserId;
                let w = payments_total(payments@);
                let start = start_spec(starts_at, now);
                let ends = start + voting_period_spec(*old(self), roles@) * 60;
                let weighted = weighted_roles(old(self).policies@, roles@);
                let locking = locking_payments(old(self).config, payments@);
                let rec = final(self).proposals@.last();
                &&& final(self).config == old(self).config
                &&& final(self).roles == old(self).roles
                &&& final(self).permissions == old(self).permissions
                &&& final(self).policies == old(self).policies
                &&& final(self).known_host_ids@ == old(self).known_host_ids@.push(host_id)
                &&& final(self).proposals@.len() == id
                &&& final(self).proposals@.drop_last() == old(self).proposals@
                &&& r->Ok_0.proposal == id
                &&& r->Ok_0.weight == w
                &&& r->Ok_0.returned@ == returned_payments(old(self).config, payments@)
                &&& r->Ok_0.awaiting_oracle == old(self).config.plug is Some
                &&& rec.proposal == (Proposal {
                    id: id as ProposalId,
                    proposer: user,
                    content_hash,
                    actions_hash,
                    starts_at: start,
                    ends_at: ends as Timestamp,
                    executed: false,
                    roles,
                })
                &&& rec.details.permissions == permissions
                &&& rec.details.quorum == old(self).config.default_quorum
                &&& rec.result is None
                &&& forall|i: int|
                    0 <= i < roles@.len() ==> (#[trigger] rec.tallies@[i]).votes == (ProposalRole {
                        votes_for: if weighted { w as Amount } else { 0 },
                        votes_against: 0,
                    }) && rec.tallies@[i].signers@ == seq![user]
                &&& rec.poll@ == poll_after(empty_poll(), option, w)
                &&& rec.nft_votes@ == nonces_of(returned_payments(old(self).config, payments@))
                &&& rec.plug_votes@ == if old(self).config.plug is Some { seq![user] } else { seq![] }
                &&& locking.len() == 0 ==> rec.locked@.len() == 0
                &&& locking.len() > 0 ==> {
                    &&& rec.locked@.len() == 1
                    &&& rec.locked@[0].voter == user
                    &&& rec.locked@[0].votes@.len() == locking.len()
                    &&& forall|k: int|
                        0 <= k < locking.len() ==> (#[trigger] rec.locked@[0].votes@[k]).payment == locking[k]
                            && rec.locked@[0].votes@[k].unlocks_at == ends && rec.locked@[0].votes@[k].used@ == seq![id as ProposalId]
                }
                &&& 1 <= user <= final(self).users@.len()
                &&& final(self).users@[user - 1].address@ == proposer@
                &&& locking.len() > 0 ==> final(self).users@[user - 1].locked_proposals@.contains(id as ProposalId)
            },
            settled_kept_by(old(self).proposals@, final(self).proposals@),
    {
        let weight = check_payments(&self.config, &payments)?;
        if self.config.trusted_host.is_some() && !signature_valid {
            return Err(Error::InvalidSignature);
        }
        if names_contain(&self.known_host_ids, &host_id) {
            return Err(Error::ProposalRegistered);
        }
        let known = self.get_user_id(proposer);
        proof {
            crate::entity::lemma_user_id_bound(self.users@, proposer@);
        }
        let (holds, weighted) = holds_weighted_role_exec(self, known, &roles);
        if !(holds || self.is_leaderless() || actions_hash.len() == 0) {
            return Err(Error::ProposerNotAllowed);
        }
        if weighted && self.config.plug.is_none() && weight < self.config.min_propose_weight {
            return Err(Error::InsufficientProposeWeight);
        }
        if actions_hash.len() != 0 && actions_hash.len() != crate::hash::KECCAK256_RESULT_LEN {
            return Err(Error::InvalidActionsHash);
        }
        if starts_at != 0 && starts_at <= now {
            return Err(Error::StartNotInFuture);
        }
        let start = if starts_at != 0 { starts_at } else { now };
        let period = voting_period(self, &roles);
        if period as u64 > (u64::MAX - start) / 60 {
            return Err(Error::Overflow);
        }
        let ends = start + period as u64 * 60;
        if roles.len() == 0 {
            return Err(Error::NoRoles);
        }
        let ghost config = self.config;
        let (locking, returned) = split_payments(&self.config, payments);
        let nft = nonces(&returned);
        let no_nonces: Vec<u64> = Vec::new();
        if !nonces_are_fresh(&no_nonces, &nft) {
            assert(no_nonces@ =~= seq![]);
            return Err(Error::AlreadyVotedWithToken);
        }
        assert(no_nonces@ =~= seq![]);
        let ghost before = *self;
        let user = self.get_or_create_user(proposer);
        let id = self.proposals.len() as u64 + 1;
        let tallies = new_tallies(roles.len(), user, if weighted { weight } else { 0 });
        let mut poll = zero_poll();
        let plug_votes: Vec<UserId> = if self.config.plug.is_some() { vec![user] } else { Vec::new() };
        let has_locks = locking.len() > 0;
        let mut locked: Vec<VoterLocks> = Vec::new();
        if has_locks {
            let votes = lock_payments(locking, ends, id);
            locked.push(VoterLocks { voter: user, votes });
        }
        let token = match &self.config.gov_token {
            Some(t) => Some(crate::bytes::copy_bytes(t)),
            None => None,
        };
        let plug = match &self.config.plug {
            Some(p) => Some(crate::bytes::copy_bytes(&p.contract)),
            None => None,
        };
        let mut rec = ProposalRecord {
            proposal: Proposal {
                id,
                proposer: user,
                content_hash,
                actions_hash,
                starts_at: start,
                ends_at: ends,
                executed: false,
                roles,
            },
            details: ProposalDetails { token, plug, quorum: self.config.default_quorum, permissions },
            result: None,
            tallies,
            poll,
            nft_votes: nft,
            plug_votes,
            locked,
        };
        rec.cast_poll_vote(option, weight);
        proof {
            assert forall|i: int| 0 <= i < rec.tallies@.len() implies crate::governance::no_duplicates(#[trigger] rec.tallies@[i].signers@) by {}
            assert(rec.wf(id as int));
        }
        self.proposals.push(rec);
        self.known_host_ids.push(host_id);
        let ghost created = self.users@;
        if has_locks {
            self.note_locked_proposal(user, id);
            proof {
                crate::entity::lemma_user_id_frame(self.users@, created, proposer@);
                let lp = created[user - 1].locked_proposals@;
                if !lp.contains(id) {
                    assert(lp.push(id)[lp.len() as int] == id);
                }
            }
        }
        proof {
            assert(self.proposals@.drop_last() =~= before.proposals@);
        }
        let awaiting_oracle = self.config.plug.is_some();
        Ok(VoteReceipt { proposal: id, weight, returned, awaiting_oracle })
    }
}

/// Adding `w` to the side `vote_type` of every tally of a role the user
/// holds stays within the amount type.
pub open spec fn tallies_fit(e: Entity, rec: ProposalRecord, user: UserId, vote_type: VoteType, w: nat) -> bool {
    forall|i: int|
        0 <= i < rec.tallies@.len() && #[trigger] intersects(e, rec, user, i) ==> match vote_type {
            VoteType::For => rec.tallies@[i].votes.votes_for + w <= u128::MAX,
            VoteType::Against => rec.tallies@[i].votes.votes_against + w <= u128::MAX,
        }
}

/// The tally after `w` more weight went to the side `vote_type`.
pub open spec fn tally_after(t: ProposalRole, vote_type: VoteType, w: nat) -> ProposalRole {
    match vote_type {
        VoteType::For => ProposalRole { votes_for: (t.votes_for + w) as Amount, ..t },
        VoteType::Against => ProposalRole { votes_against: (t.votes_against + w) as Amount, ..t },
    }
}

/// Why the user may not cast `w` on the proposal at time `now`, if it may not.
pub open spec fn cast_error(
    e: Entity,
    rec: ProposalRecord,
    user: UserId,
    vote_type: VoteType,
    w: nat,
    option: u8,
    now: Timestamp,
) -> Option<Error> {
    if w == 0 {
        Some(Error::ZeroVoteWeight)
    } else if w < e.config.min_vote_weight {
        Some(Error::InsufficientVoteWeight)
    } else if live_status(e, rec, now) != ProposalStatus::Active {
        Some(Error::ProposalNotActive)
    } else if !has_intersecting_role(e, rec, user) {
        Some(Error::MissingRoles)
    } else if !tallies_fit(e, rec, user, vote_type, w) || !poll_fits(rec.poll@, option, w) {
        Some(Error::Overflow)
    } else {
        None
    }
}

/// The record after the user cast `w` on the side `vote_type`.
pub open spec fn cast_applied(
    e: Entity,
    old_rec: ProposalRecord,
    new_rec: ProposalRecord,
    user: UserId,
    vote_type: VoteType,
    w: nat,
    option: u8,
) -> bool {
    &&& new_rec.proposal == old_rec.proposal
    &&& new_rec.details == old_rec.details
    &&& new_rec.result == old_rec.result
    &&& new_rec.nft_votes == old_rec.nft_votes
    &&& new_rec.plug_votes == old_rec.plug_votes
    &&& new_rec.locked == old_rec.locked
    &&& new_rec.tallies@.len() == old_rec.tallies@.len()
    &&& forall|i: int|
        0 <= i < old_rec.tallies@.len() ==> (#[trigger] new_rec.tallies@[i]).signers == old_rec.tallies@[i].signers
            && new_rec.tallies@[i].votes == if intersects(e, old_rec, user, i) {
            tally_after(old_rec.tallies@[i].votes, vote_type, w)
        } else {
            old_rec.tallies@[i].votes
        }
    &&& new_rec.poll@ == poll_after(old_rec.poll@, option, w)
}

/// The record after a vote's payments were committed: its units voted, and
/// its locking payments held as locked votes of the voter.
pub open spec fn payments_committed(
    c: Config,
    old_rec: ProposalRecord,
    new_rec: ProposalRecord,
    user: UserId,
    payments: Seq<Payment>,
) -> bool {
    let locking = locking_payments(c, payments);
    &&& new_rec.proposal == old_rec.proposal
    &&& new_rec.details == old_rec.details
    &&& new_rec.result == old_rec.result
    &&& new_rec.tallies == old_rec.tallies
    &&& new_rec.poll == old_rec.poll
    &&& new_rec.plug_votes == old_rec.plug_votes
    &&& new_rec.nft_votes@ == old_rec.nft_votes@ + nonces_of(returned_payments(c, payments))
    &&& locking.len() == 0 ==> new_rec.locked == old_rec.locked
    &&& locking.len() > 0 ==> {
        &&& new_rec.locked@.len() == old_rec.locked@.len() + 1
        &&& new_rec.locked@.drop_last() == old_rec.locked@
        &&& new_rec.locked@.last().voter == user
        &&& new_rec.locked@.last().votes@.len() == locking.len()
        &&& forall|k: int|
            0 <= k < locking.len() ==> (#[trigger] new_rec.locked@.last().votes@[k]).payment == locking[k]
                && new_rec.locked@.last().votes@[k].unlocks_at == old_rec.proposal.ends_at
                && new_rec.locked@.last().votes@[k].used@ == seq![old_rec.proposal.id]
    }
}

impl Entity {
    fn cast_vote(
        &mut self,
        idx: usize,
        user: UserId,
        vote_type: VoteType,
        w: Amount,
        option: u8,
        now: Timestamp,
    ) -> (r: Result<(), Error>)
        requires
            old(self).wf(),
            idx < old(self).proposals@.len(),
            old(self).proposals@[idx as int].result is None,
        ensures
            final(self).wf(),
            cast_error(*old(self), old(self).proposals@[idx as int], user, vote_type, w as nat, option, now) is Some
                ==> r == Err::<(), Error>(
                cast_error(*old(self), old(self).proposals@[idx as int], user, vote_type, w as nat, option, now)->0,
            ),
            r is Ok <==> cast_error(*old(self), old(self).proposals@[idx as int], user, vote_type, w as nat, option, now) is None,
            r is Err ==> *final(self) == *old(self),
            r is Ok ==> *final(self) == (Entity { proposals: final(self).proposals, ..*old(self) })
                && final(self).proposals@.len() == old(self).proposals@.len()
                && (forall|j: int| 0 <= j < old(self).proposals@.len() && j != idx ==> #[trigger] final(self).proposals@[j] == old(self).proposals@[j])
                && cast_applied(*old(self), old(self).proposals@[idx as int], final(self).proposals@[idx as int], user, vote_type, w as nat, option),
    {
        if w == 0 {
            return Err(Error::ZeroVoteWeight);
        }
        if w < self.config.min_vote_weight {
            return Err(Error::InsufficientVoteWeight);
        }
        if self.get_proposal_status(idx, now) != ProposalStatus::Active {
            return Err(Error::ProposalNotActive);
        }
        let ghost rec0 = self.proposals@[idx as int];
        assert(rec0.wf(idx + 1));
        let mut any = false;
        let mut fits = true;
        let mut i: usize = 0;
        while i < self.proposals[idx].proposal.roles.len()
            invariant
                self.wf(),
                idx < self.proposals@.len(),
                self.proposals@[idx as int] == rec0,
                rec0.wf(idx + 1),
                rec0.result is None,
                0 <= i <= rec0.proposal.roles@.len(),
                any ==> exists|i2: int| 0 <= i2 < i && #[trigger] intersects(*self, rec0, user, i2),
                !any ==> forall|i2: int| 0 <= i2 < i ==> !#[trigger] intersects(*self, rec0, user, i2),
                fits ==> forall|i2: int|
                    0 <= i2 < i && #[trigger] intersects(*self, rec0, user, i2) ==> match vote_type {
                        VoteType::For => rec0.tallies@[i2].votes.votes_for + w <= u128::MAX,
                        VoteType::Against => rec0.tallies@[i2].votes.votes_against + w <= u128::MAX,
                    },
                !fits ==> exists|i2: int|
                    0 <= i2 < i && #[trigger] intersects(*self, rec0, user, i2) && !match vote_type {
                        VoteType::For => rec0.tallies@[i2].votes.votes_for + w <= u128::MAX,
                        VoteType::Against => rec0.tallies@[i2].votes.votes_against + w <= u128::MAX,
                    },
            decreases rec0.proposal.roles@.len() - i,
        {
            if self.user_has_role(user, &self.proposals[idx].proposal.roles[i]) {
                any = true;
                assert(intersects(*self, rec0, user, i as int));
                let t = self.proposals[idx].tallies[i].votes;
                let ok = match vote_type {
                    VoteType::For => t.votes_for <= u128::MAX - w,
                    VoteType::Against => t.votes_against <= u128::MAX - w,
                };
                if !ok {
                    fits = false;
                }
            } else {
                assert(!intersects(*self, rec0, user, i as int));
            }
            i = i + 1;
        }
        if !any {
            return Err(Error::MissingRoles);
        }
        if !fits {
            return Err(Error::Overflow);
        }
        if 1 <= option && option <= POLL_MAX_OPTIONS {
            if self.proposals[idx].poll[(option - 1) as usize] > u128::MAX - w {
                return Err(Error::Overflow);
            }
        }
        let ghost before = *self;
        let mut rec = self.proposals.remove(idx);
        let mut i: usize = 0;
        while i < rec.tallies.len()
            invariant
                self.users == before.users,
                self.policies == before.policies,
                rec.proposal == rec0.proposal,
                rec.details == rec0.details,
                rec.result == rec0.result,
                rec.poll == rec0.poll,
                rec.nft_votes == rec0.nft_votes,
                rec.plug_votes == rec0.plug_votes,
                rec.locked == rec0.locked,
                rec.tallies@.len() == rec0.tallies@.len(),
                rec0.wf(idx + 1),
                rec0.result is None,
                tallies_fit(before, rec0, user, vote_type, w as nat),
                0 <= i <= rec.tallies@.len(),
                forall|i2: int| i <= i2 < rec.tallies@.len() ==> #[trigger] rec.tallies@[i2] == rec0.tallies@[i2],
                forall|i2: int|
                    0 <= i2 < i ==> (#[trigger] rec.tallies@[i2]).signers == rec0.tallies@[i2].signers
                        && rec.tallies@[i2].votes == if intersects(before, rec0, user, i2) {
                        tally_after(rec0.tallies@[i2].votes, vote_type, w as nat)
                    } else {
                        rec0.tallies@[i2].votes
                    },
            decreases rec.tallies@.len() - i,
        {
            if self.user_has_role(user, &rec.proposal.roles[i]) {
                assert(intersects(before, rec0, user, i as int));
                let mut tally = rec.tallies.remove(i);
                match vote_type {
                    VoteType::For => {
                        tally.votes.votes_for = tally.votes.votes_for + w;
                    },
                    VoteType::Against => {
                        tally.votes.votes_against = tally.votes.votes_against + w;
                    },
                }
                rec.tallies.insert(i, tally);
            }
            i = i + 1;
        }
        rec.cast_poll_vote(option, w);
        self.proposals.insert(idx, rec);
        proof {
            assert(self.proposals@ =~= before.proposals@.update(idx as int, rec));
            assert forall|i2: int| 0 <= i2 < rec.tallies@.len() implies crate::governance::no_duplicates(#[trigger] rec.tallies@[i2].signers@) by {
                assert(crate::governance::no_duplicates(rec0.tallies@[i2].signers@));
            }
            assert(rec.wf(idx + 1));
        }
        Ok(())
    }
}

/// A user's locked proposals after it locked votes on `id`.
pub open spec fn locked_after(ids: Seq<ProposalId>, id: ProposalId) -> Seq<ProposalId> {
    if ids.contains(id) {
        ids
    } else {
        ids.push(id)
    }
}

/// The users after `user` locked votes on `id` (when `locks`): only that
/// user's locked proposals change.
pub open spec fn users_after_commit(old_users: Seq<UserEntry>, new_users: Seq<UserEntry>, user: UserId, id: ProposalId, locks: bool) -> bool {
    &&& 1 <= user <= old_users.len()
    &&& new_users.len() == old_users.len()
    &&& forall|u: int| 0 <= u < old_users.len() && u != user - 1 ==> #[trigger] new_users[u] == old_users[u]
    &&& new_users[user - 1].address == old_users[user - 1].address
    &&& new_users[user - 1].roles == old_users[user - 1].roles
    &&& new_users[user - 1].locked_proposals@ == if locks {
        locked_after(old_users[user - 1].locked_proposals@, id)
    } else {
        old_users[user - 1].locked_proposals@
    }
}

/// Why a vote with these payments is refused before any weight is cast.
pub open spec fn vote_payments_error(e: Entity, id: ProposalId, payments: Seq<Payment>) -> Option<Error> {
    if !e.is_open(id) {
        Some(Error::ProposalMissing)
    } else if payments_error(e.config, payments) is Some {
        payments_error(e.config, payments)
    } else if !nonces_fresh(e.record(id).nft_votes@, nonces_of(returned_payments(e.config, payments))) {
        Some(Error::AlreadyVotedWithToken)
    } else {
        None
    }
}

impl Entity {
    fn commit_vote_payments(&mut self, idx: usize, user: UserId, locking: Vec<Payment>, nft: &Vec<u64>)
        requires
            old(self).wf(),
            idx < old(self).proposals@.len(),
            1 <= user <= old(self).users@.len(),
        ensures
            final(self).wf(),
            final(self).config == old(self).config,
            final(self).roles == old(self).roles,
            final(self).permissions == old(self).permissions,
            final(self).policies == old(self).policies,
            final(self).known_host_ids == old(self).known_host_ids,
            final(self).users@.len() == old(self).users@.len(),
            forall|u: int| 0 <= u < old(self).users@.len() ==> (#[trigger] final(self).users@[u]).address == old(self).users@[u].address
                && final(self).users@[u].roles == old(self).users@[u].roles,
            forall|u: int| 0 <= u < old(self).users@.len() && u != user - 1 ==> #[trigger] final(self).users@[u] == old(self).users@[u],
            locking@.len() > 0 ==> final(self).users@[user - 1].locked_proposals@ == locked_after(
                old(self).users@[user - 1].locked_proposals@,
                (idx + 1) as ProposalId,
            ),
            locking@.len() > 0 ==> final(self).users@[user - 1].locked_proposals@.contains((idx + 1) as ProposalId),
            locking@.len() == 0 ==> final(self).users == old(self).users,
            final(self).proposals@.len() == old(self).proposals@.len(),
            forall|j: int| 0 <= j < old(self).proposals@.len() && j != idx ==> #[trigger] final(self).proposals@[j] == old(self).proposals@[j],
            ({
                let o = old(self).proposals@[idx as int];
                let n = final(self).proposals@[idx as int];
                &&& n.proposal == o.proposal
                &&& n.details == o.details
                &&& n.result == o.result
                &&& n.tallies == o.tallies
                &&& n.poll == o.poll
                &&& n.plug_votes == o.plug_votes
                &&& n.nft_votes@ == o.nft_votes@ + nft@
                &&& locking@.len() == 0 ==> n.locked == o.locked
                &&& locking@.len() > 0 ==> {
                    &&& n.locked@.len() == o.locked@.len() + 1
                    &&& n.locked@.drop_last() == o.locked@
                    &&& n.locked@.last().voter == user
                    &&& n.locked@.last().votes@.len() == locking@.len()
                    &&& forall|k: int|
                        0 <= k < locking@.len() ==> (#[trigger] n.locked@.last().votes@[k]).payment == locking@[k]
                            && n.locked@.last().votes@[k].unlocks_at == o.proposal.ends_at
                            && n.locked@.last().votes@[k].used@ == seq![o.proposal.id]
                }
            }),
    {
        let ghost before = *self;
        let ghost o = self.proposals@[idx as int];
        assert(o.wf(idx + 1));
        let has_locks = locking.len() > 0;
        let mut rec = self.proposals.remove(idx);
        let mut k: usize = 0;
        let ghost nft0 = rec.nft_votes@;
        while k < nft.len()
            invariant
                0 <= k <= nft.len(),
                rec.proposal == o.proposal,
                rec.details == o.details,
                rec.result == o.result,
                rec.tallies == o.tallies,
                rec.poll == o.poll,
                rec.plug_votes == o.plug_votes,
                rec.locked == o.locked,
                nft0 == o.nft_votes@,
                rec.nft_votes@ == nft0 + nft@.subrange(0, k as int),
            decreases nft.len() - k,
        {
            rec.nft_votes.push(nft[k]);
            k = k + 1;
            assert(rec.nft_votes@ =~= nft0 + nft@.subrange(0, k as int));
        }
        assert(nft@.subrange(0, nft@.len() as int) =~= nft@);
        if has_locks {
            let votes = lock_payments(locking, rec.proposal.ends_at, rec.proposal.id);
            rec.locked.push(VoterLocks { voter: user, votes });
            assert(rec.locked@.drop_last() =~= o.locked@);
        }
        let id = rec.proposal.id;
        self.proposals.insert(idx, rec);
        proof {
            assert(self.proposals@ =~= before.proposals@.update(idx as int, rec));
            assert(rec.wf(idx + 1));
        }
        if has_locks {
            let ghost mid = self.users@;
            self.note_locked_proposal(user, id);
            proof {
                let lp = mid[user - 1].locked_proposals@;
                if !lp.contains(id) {
                    assert(lp.push(id)[lp.len() as int] == id);
                }
            }
        }
    }

    /// Votes on proposal `id` for `voter`, with the weight of `payments`.
    /// Fungible units, and units of tokens configured to be locked, stay
    /// locked until withdrawn; other non-fungible units vote once per
    /// proposal and go straight back. When the organization is plugged into
    /// a weight oracle the payments are committed and the receipt says the
    /// oracle must be asked; its answer goes to `vote_callback`.
    pub fn vote(
        &mut self,
        voter: &Vec<u8>,
        id: ProposalId,
        vote_type: VoteType,
        option: u8,
        payments: Vec<Payment>,
        now: Timestamp,
    ) -> (r: Result<VoteReceipt, Error>)
        requires
            old(self).wf(),
            old(self).users@.len() + 1 < usize::MAX,
        ensures
            final(self).wf(),
            vote_payments_error(*old(self), id, payments@) is Some ==> r == Err::<VoteReceipt, Error>(
                vote_payments_error(*old(self), id, payments@)->0,
            ),
            ({
                let user = user_id_of(old(self).users@, voter@) as UserId;
                let w = payments_total(payments@);
                let err = cast_error(*old(self), old(self).record(id), user, vote_type, w, option, now);
                vote_payments_error(*old(self), id, payments@) is None && old(self).config.plug is None ==> {
                    &&& err is Some ==> r == Err::<VoteReceipt, Error>(err->0)
                    &&& r is Ok <==> err is None
                    &&& r is Ok ==> {
                        &&& final(self).config == old(self).config
                        &&& final(self).roles == old(self).roles
                        &&& final(self).policies == old(self).policies
                        &&& final(self).permissions == old(self).permissions
                        &&& final(self).known_host_ids == old(self).known_host_ids
                        &&& final(self).proposals@.len() == old(self).proposals@.len()
                        &&& forall|j: int| 0 <= j < old(self).proposals@.len() && j != id - 1
                            ==> #[trigger] final(self).proposals@[j] == old(self).proposals@[j]
                        &&& exists|mid: ProposalRecord| cast_applied(*old(self), old(self).record(id), mid, user, vote_type, w, option)
                            && payments_committed(old(self).config, mid, final(self).record(id), user, payments@)
                        &&& r->Ok_0.proposal == id
                        &&& r->Ok_0.weight == w
                        &&& r->Ok_0.returned@ == returned_payments(old(self).config, payments@)
                        &&& !r->Ok_0.awaiting_oracle
                        &&& users_after_commit(
                            old(self).users@,
                            final(self).users@,
                            user,
                            id,
                            locking_payments(old(self).config, payments@).len() > 0,
                        )
                    }
                }
            }),
            vote_payments_error(*old(self), id, payments@) is None && old(self).config.plug is Some ==> {
                let user = user_id_of(final(self).users@, voter@) as UserId;
                &&& r is Ok
                &&& r->Ok_0.awaiting_oracle
                &&& r->Ok_0.weight == payments_total(payments@)
                &&& r->Ok_0.returned@ == returned_payments(old(self).config, payments@)
                &&& final(self).proposals@.len() == old(self).proposals@.len()
                &&& payments_committed(old(self).config, old(self).record(id), final(self).record(id), user, payments@)
                &&& 1 <= user <= final(self).users@.len()
                &&& user_id_of(old(self).users@, voter@) != 0 ==> users_after_commit(
                    old(self).users@,
                    final(self).users@,
                    user,
                    id,
                    locking_payments(old(self).config, payments@).len() > 0,
                )
            },
            r is Err ==> *final(self) == *old(self),
            settled_kept_by(old(self).proposals@, final(self).proposals@),
    {
        let idx = self.open_index(id)?;
        let weight = check_payments(&self.config, &payments)?;
        let ghost config = self.config;
        let (locking, returned) = split_payments(&self.config, payments);
        let nft = nonces(&returned);
        if !nonces_are_fresh(&self.proposals[idx].nft_votes, &nft) {
            return Err(Error::AlreadyVotedWithToken);
        }
        if self.config.plug.is_some() {
            let user = self.get_or_create_user(voter);
            let ghost created = self.users@;
            self.commit_vote_payments(idx, user, locking, &nft);
            proof {
                crate::entity::lemma_user_id_frame(self.users@, created, voter@);
            }
            return Ok(VoteReceipt { proposal: id, weight, returned, awaiting_oracle: true });
        }
        let known = self.get_user_id(voter);
        proof {
            crate::entity::lemma_user_id_bound(self.users@, voter@);
        }
        let ghost before = *self;
        self.cast_vote(idx, known, vote_type, weight, option, now)?;
        let ghost mid = self.proposals@[idx as int];
        proof {
            assert(known >= 1) by {
                if known == 0 {
                    assert(!has_intersecting_role(before, before.proposals@[idx as int], known));
                }
            }
        }
        self.commit_vote_payments(idx, known, locking, &nft);
        Ok(VoteReceipt { proposal: id, weight, returned, awaiting_oracle: false })
    }
}

impl Entity {
    /// Completes a vote that waited for the weight oracle. `oracle` is the
    /// oracle's answer, none when the request failed. The oracle's weight
    /// counts once per voter and proposal.
    pub fn vote_callback(
        &mut self,
        voter: &Vec<u8>,
        payment_weight: Amount,
        id: ProposalId,
        vote_type: VoteType,
        option: u8,
        oracle: Option<Amount>,
        now: Timestamp,
    ) -> (r: Result<(), Error>)
        requires
            old(self).wf(),
        ensures
            final(self).wf(),
            ({
                let user = user_id_of(old(self).users@, voter@) as UserId;
                let counted = old(self).is_open(id) && old(self).record(id).plug_votes@.contains(user);
                let total: nat = match oracle {
                    Some(w) => if counted { payment_weight as nat } else { (payment_weight + w) as nat },
                    None => 0,
                };
                &&& oracle is None ==> r == Err::<(), Error>(Error::WeightUnavailable)
                &&& oracle is Some && !old(self).is_open(id) ==> r == Err::<(), Error>(Error::ProposalMissing)
                &&& oracle is Some && old(self).is_open(id) && total > u128::MAX ==> r == Err::<(), Error>(Error::Overflow)
                &&& oracle is Some && old(self).is_open(id) && total <= u128::MAX ==> {
                    let err = cast_error(*old(self), old(self).record(id), user, vote_type, total, option, now);
                    &&& err is Some ==> r == Err::<(), Error>(err->0)
                    &&& r is Ok <==> err is None
                    &&& r is Ok ==> {
                        &&& final(self).users == old(self).users
                        &&& final(self).proposals@.len() == old(self).proposals@.len()
                        &&& final(self).record(id).plug_votes@ == if counted {
                            old(self).record(id).plug_votes@
                        } else {
                            old(self).record(id).plug_votes@.push(user)
                        }
                        &&& cast_applied(
                            *old(self),
                            old(self).record(id),
                            ProposalRecord { plug_votes: old(self).record(id).plug_votes, ..final(self).record(id) },
                            user,
                            vote_type,
                            total,
                            option,
                        )
                    }
                }
            }),
            r is Err ==> *final(self) == *old(self),
            settled_kept_by(old(self).proposals@, final(self).proposals@),
    {
        let w = match oracle {
            None => {
                return Err(Error::WeightUnavailable);
            },
            Some(w) => w,
        };
        let idx = self.open_index(id)?;
        let user = self.get_user_id(voter);
        proof {
            crate::entity::lemma_user_id_bound(self.users@, voter@);
        }
        let counted = crate::governance::contains_user(&self.proposals[idx].plug_votes, user);
        let total = if counted {
            payment_weight
        } else {
            if w > u128::MAX - payment_weight {
                return Err(Error::Overflow);
            }
            payment_weight + w
        };
        let ghost before = *self;
        self.cast_vote(idx, user, vote_type, total, option, now)?;
        let ghost mid = self.proposals@[idx as int];
        assert(cast_applied(before, before.record(id), mid, user, vote_type, total as nat, option));
        if !counted {
            let ghost after_cast = self.proposals@;
            let mut rec = self.proposals.remove(idx);
            rec.plug_votes.push(user);
            self.proposals.insert(idx, rec);
            proof {
                assert(self.proposals@ =~= after_cast.update(idx as int, rec));
                assert(rec.wf(idx + 1));
                assert(rec == (ProposalRecord { plug_votes: rec.plug_votes, ..mid }));
            }
        } else {
            assert(self.proposals@[idx as int] == (ProposalRecord { plug_votes: mid.plug_votes, ..mid }));
        }
        proof {
            assert(before == *old(self));
            assert(self.users == old(self).users);
            assert(self.proposals@.len() == old(self).proposals@.len());
            assert(self.record(id) == (ProposalRecord { plug_votes: self.record(id).plug_votes, ..mid }));
            assert(mid == (ProposalRecord { plug_votes: old(self).record(id).plug_votes, ..self.record(id) }));
        }
        Ok(())
    }

    /// Completes a proposal that waited for the weight oracle. `oracle` is
    /// the oracle's answer, none when the request failed: the proposal is
    /// then canceled, as it is when a token-weighted proposal's total
    /// weight falls short of the weight needed to propose. Otherwise the
    /// oracle's weight joins the proposer's vote in favor, on every role
    /// when any of them is token-weighted.
    pub fn propose_callback(
        &mut self,
        id: ProposalId,
        payment_weight: Amount,
        oracle: Option<Amount>,
    ) -> (r: Result<bool, Error>)
        requires
            old(self).wf(),
        ensures
            final(self).wf(),
            !old(self).is_open(id) ==> r == Err::<bool, Error>(Error::ProposalMissing),
            old(self).is_open(id) && old(self).record(id).proposal.executed ==> r == Err::<bool, Error>(Error::AlreadyExecuted),
            old(self).is_open(id) && !old(self).record(id).proposal.executed ==> ({
                let rec = old(self).record(id);
                let weighted = weighted_roles(old(self).policies@, rec.proposal.roles@);
                let cancel = match oracle {
                    None => true,
                    Some(w) => weighted && payment_weight + w < old(self).config.min_propose_weight,
                };
                &&& cancel ==> r == Ok::<bool, Error>(false) && *final(self) == (Entity { proposals: final(self).proposals, ..*old(self) })
                    && final(self).proposals@ == old(self).proposals@.update(
                        id - 1,
                        ProposalRecord { proposal: Proposal { ends_at: 0, ..rec.proposal }, ..rec },
                    )
                &&& !cancel && !weighted ==> r == Ok::<bool, Error>(true) && *final(self) == *old(self)
                &&& !cancel && weighted ==> {
                    let w = oracle->0;
                    let fits = forall|i: int| 0 <= i < rec.tallies@.len() ==> #[trigger] rec.tallies@[i].votes.votes_for + w <= u128::MAX;
                    &&& !fits ==> r == Err::<bool, Error>(Error::Overflow) && *final(self) == *old(self)
                    &&& fits ==> r == Ok::<bool, Error>(true) && *final(self) == (Entity { proposals: final(self).proposals, ..*old(self) })
                        && final(self).proposals@.len() == old(self).proposals@.len()
                        && (forall|j: int| 0 <= j < old(self).proposals@.len() && j != id - 1 ==> #[trigger] final(self).proposals@[j] == old(self).proposals@[j])
                        && final(self).record(id).proposal == rec.proposal
                        && final(self).record(id).poll == rec.poll
                        && final(self).record(id).locked == rec.locked
                        && final(self).record(id).result == rec.result
                        && final(self).record(id).tallies@.len() == rec.tallies@.len()
                        && forall|i: int| 0 <= i < rec.tallies@.len() ==> (#[trigger] final(self).record(id).tallies@[i]).signers == rec.tallies@[i].signers
                            && final(self).record(id).tallies@[i].votes == tally_after(rec.tallies@[i].votes, VoteType::For, w as nat)
                }
            }),
            r is Err ==> *final(self) == *old(self),
            settled_kept_by(old(self).proposals@, final(self).proposals@),
    {
        let idx = self.open_index(id)?;
        let ghost rec0 = self.proposals@[idx as int];
        assert(rec0.wf(idx + 1));
        let ghost before = *self;
        if self.proposals[idx].proposal.executed {
            return Err(Error::AlreadyExecuted);
        }
        let (_, weighted) = holds_weighted_role_exec(self, 0, &self.proposals[idx].proposal.roles);
        let cancel = match oracle {
            None => true,
            Some(w) => weighted && w < self.config.min_propose_weight && payment_weight < self.config.min_propose_weight - w,
        };
        if cancel {
            let mut rec = self.proposals.remove(idx);
            rec.proposal.set_canceled();
            self.proposals.insert(idx, rec);
            proof {
                assert(self.proposals@ =~= before.proposals@.update(idx as int, rec));
                assert(rec.wf(idx + 1));
            }
            return Ok(false);
        }
        let w = match oracle {
            Some(w) => w,
            None => 0,
        };
        if !weighted {
            return Ok(true);
        }
        let mut i: usize = 0;
        while i < self.proposals[idx].tallies.len()
            invariant
                self.wf(),
                *self == before,
                before == *old(self),
                old(self).is_open(id),
                idx == id - 1,
                !old(self).record(id).proposal.executed,
                oracle == Some(w),
                weighted,
                !(payment_weight + w < old(self).config.min_propose_weight),
                weighted_roles(old(self).policies@, rec0.proposal.roles@),
                idx < self.proposals@.len(),
                self.proposals@[idx as int] == rec0,
                0 <= i <= rec0.tallies@.len(),
                forall|i2: int| 0 <= i2 < i ==> #[trigger] rec0.tallies@[i2].votes.votes_for + w <= u128::MAX,
            decreases rec0.tallies@.len() - i,
        {
            if self.proposals[idx].tallies[i].votes.votes_for > u128::MAX - w {
                assert(!(rec0.tallies@[i as int].votes.votes_for + w <= u128::MAX));
                return Err(Error::Overflow);
            }
            i = i + 1;
        }
        let mut rec = self.proposals.remove(idx);
        let mut i: usize = 0;
        while i < rec.tallies.len()
            invariant
                rec.proposal == rec0.proposal,
                rec.details == rec0.details,
                rec.result == rec0.result,
                rec.poll == rec0.poll,
                rec.nft_votes == rec0.nft_votes,
                rec.plug_votes == rec0.plug_votes,
                rec.locked == rec0.locked,
                rec.tallies@.len() == rec0.tallies@.len(),
                rec0.wf(idx + 1),
                rec0.result is None,
                0 <= i <= rec.tallies@.len(),
                forall|i2: int| 0 <= i2 < rec0.tallies@.len() ==> #[trigger] rec0.tallies@[i2].votes.votes_for + w <= u128::MAX,
                forall|i2: int| i <= i2 < rec.tallies@.len() ==> #[trigger] rec.tallies@[i2] == rec0.tallies@[i2],
                forall|i2: int|
                    0 <= i2 < i ==> (#[trigger] rec.tallies@[i2]).signers == rec0.tallies@[i2].signers
                        && rec.tallies@[i2].votes == tally_after(rec0.tallies@[i2].votes, VoteType::For, w as nat),
            decreases rec.tallies@.len() - i,
        {
            let mut tally = rec.tallies.remove(i);
            tally.votes.votes_for = tally.votes.votes_for + w;
            rec.tallies.insert(i, tally);
            i = i + 1;
        }
        self.proposals.insert(idx, rec);
        proof {
            assert(self.proposals@ =~= before.proposals@.update(idx as int, rec));
            assert forall|i2: int| 0 <= i2 < rec.tallies@.len() implies crate::governance::no_duplicates(#[trigger] rec.tallies@[i2].signers@) by {
                assert(crate::governance::no_duplicates(rec0.tallies@[i2].signers@));
            }
            assert(rec.wf(idx + 1));
        }
        Ok(true)
    }
}

/// A non-fungible unit votes once per proposal: once a vote committed it,
/// a later vote on the same proposal carrying the same nonce is refused as
/// already voted with that unit.
pub proof fn nft_nonce_votes_once(
    e0: Entity,
    e1: Entity,
    id: ProposalId,
    user: UserId,
    first: Seq<Payment>,
    second: Seq<Payment>,
    k1: int,
    k2: int,
)
    requires
        e1.is_open(id),
        e1.config == e0.config,
        payments_committed(e0.config, e0.record(id), e1.record(id), user, first),
        0 <= k1 < returned_payments(e0.config, first).len(),
        0 <= k2 < returned_payments(e0.config, second).len(),
        returned_payments(e0.config, first)[k1].nonce == returned_payments(e0.config, second)[k2].nonce,
        payments_error(e1.config, second) is None,
    ensures
        vote_payments_error(e1, id, second) == Some(Error::AlreadyVotedWithToken),
{
    let old_votes = e0.record(id).nft_votes@;
    let n = returned_payments(e0.config, first)[k1].nonce;
    assert(e1.record(id).nft_votes@[old_votes.len() + k1] == n);
    assert(e1.record(id).nft_votes@.contains(n));
    assert(nonces_of(returned_payments(e1.config, second))[k2] == n);
}

} // verus!
