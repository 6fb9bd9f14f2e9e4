use vstd::prelude::*;

use crate::error::Error;
use crate::token_id::{is_valid_token_identifier, valid_token_identifier};

verus! {

/// A voting period of three days.
pub const VOTING_PERIOD_MINUTES_DEFAULT: usize = 4320;

/// A voting period of fourteen days.
pub const VOTING_PERIOD_MINUTES_MAX: usize = 20160;

pub const MIN_PROPOSAL_VOTE_WEIGHT_DEFAULT: u128 = 1;

pub const QUORUM_DEFAULT: u128 = 1;

pub const POLL_MAX_OPTIONS: u8 = 20;

/// Compute budget that one withdrawal record may take.
pub const GAS_LIMIT_WITHDRAW: u64 = 1000000;

pub const TOKEN_MAX_DECIMALS: u8 = 18;

pub type UserId = usize;

pub type ProposalId = u64;

pub type ProposalOptionId = u8;

pub type Timestamp = u64;

/// A token amount.
pub type Amount = u128;

/// A transfer of `amount` units of the token `token` with nonce `nonce`
/// (nonce zero: a fungible token).
#[derive(Debug)]
pub struct Payment {
    pub token: Vec<u8>,
    pub nonce: u64,
    pub amount: Amount,
}

impl Payment {
    /// A payment equal to this one.
    pub fn copy(&self) -> (r: Payment)
        ensures
            r.token@ == self.token@,
            r.nonce == self.nonce,
            r.amount == self.amount,
    {
        Payment { token: crate::bytes::copy_bytes(&self.token), nonce: self.nonce, amount: self.amount }
    }
}

/// A payment held by the organization as voting weight.
#[derive(Debug)]
pub struct LockedVote {
    pub unlocks_at: Timestamp,
    /// Proposals that already counted this payment.
    pub used: Vec<ProposalId>,
    pub payment: Payment,
}

/// The weighted tally of one role on one proposal.
#[derive(Clone, Copy, PartialEq, Eq, Debug, Structural)]
pub struct ProposalRole {
    pub votes_for: Amount,
    pub votes_against: Amount,
}

impl Default for ProposalRole {
    fn default() -> (r: Self)
        ensures
            r.votes_for == 0,
            r.votes_against == 0,
    {
        ProposalRole { votes_for: 0, votes_against: 0 }
    }
}

/// The weight oracle the organization is plugged into.
#[derive(Debug)]
pub struct Plug {
    pub contract: Vec<u8>,
    pub weight_decimals: u8,
}

/// Organization-wide governance settings.
#[derive(Debug)]
pub struct Config {
    /// The attester whose signature authenticates proposals; none: no check.
    pub trusted_host: Option<Vec<u8>>,
    pub gov_token: Option<Vec<u8>>,
    /// Tokens whose non-fungible units are locked on vote rather than returned.
    pub locked_tokens: Vec<Vec<u8>>,
    pub default_quorum: Amount,
    pub min_vote_weight: Amount,
    pub min_propose_weight: Amount,
    pub default_voting_period_minutes: usize,
    /// When not empty, only these nonces may carry votes.
    pub restricted_vote_nonces: Vec<u64>,
    pub plug: Option<Plug>,
}

/// The quorum that a governance token with the given supply starts with:
/// five percent of the supply, or one for a supply of at most one hundred.
pub open spec fn initial_quorum(supply: nat) -> nat {
    if supply > 100 {
        supply * 5 / 100
    } else {
        1
    }
}

/// The proposing weight that a governance token with the given supply starts
/// with: one percent of the supply, or one for a supply of at most one hundred.
pub open spec fn initial_min_propose_weight(supply: nat) -> nat {
    if supply > 100 {
        supply / 100
    } else {
        1
    }
}

/// `new` is `old` with `token` as the governance token, locking its units
/// on vote when `lock`, and for a positive supply the quorum and the weight
/// to propose derived from it.
pub open spec fn token_configured(old: Config, new: Config, token: Vec<u8>, supply: Amount, lock: bool) -> bool {
    &&& new.gov_token == Some(token)
    &&& forall|t: Seq<u8>| #![auto] new.is_token_locked(t) == if t == token@ {
        lock
    } else {
        old.is_token_locked(t)
    }
    &&& supply == 0 ==> new.default_quorum == old.default_quorum && new.min_propose_weight == old.min_propose_weight
    &&& supply > 0 ==> new.default_quorum == initial_quorum(supply as nat) && new.min_propose_weight
        == initial_min_propose_weight(supply as nat)
    &&& new.trusted_host == old.trusted_host
    &&& new.min_vote_weight == old.min_vote_weight
    &&& new.default_voting_period_minutes == old.default_voting_period_minutes
    &&& new.restricted_vote_nonces == old.restricted_vote_nonces
    &&& new.plug == old.plug
}

impl Config {
    /// The settings of a new organization.
    pub fn new(trusted_host: Option<Vec<u8>>) -> (r: Config)
        ensures
            r.trusted_host == trusted_host,
            r.gov_token is None,
            r.locked_tokens@.len() == 0,
            r.default_quorum == QUORUM_DEFAULT,
            r.min_vote_weight == 0,
            r.min_propose_weight == MIN_PROPOSAL_VOTE_WEIGHT_DEFAULT,
            r.default_voting_period_minutes == VOTING_PERIOD_MINUTES_DEFAULT,
            r.restricted_vote_nonces@.len() == 0,
            r.plug is None,
    {
        Config {
            trusted_host,
            gov_token: None,
            locked_tokens: Vec::new(),
            default_quorum: QUORUM_DEFAULT,
            min_vote_weight: 0,
            min_propose_weight: MIN_PROPOSAL_VOTE_WEIGHT_DEFAULT,
            default_voting_period_minutes: VOTING_PERIOD_MINUTES_DEFAULT,
            restricted_vote_nonces: Vec::new(),
            plug: None,
        }
    }

    pub open spec fn is_plugged_spec(&self) -> bool {
        self.plug is Some
    }

    /// Whether a weight oracle is plugged in.
    pub fn is_plugged(&self) -> (r: bool)
        ensures
            r == self.is_plugged_spec(),
    {
        self.plug.is_some()
    }

    /// Token-weighted voting needs a governance token or a plug.
    pub fn require_weighted_gov_method(&self) -> (r: Result<(), Error>)
        ensures
            r is Ok <==> (self.gov_token is Some || self.plug is Some),
            r is Err ==> r == Err::<(), Error>(Error::NoWeightedGovMethod),
    {
        if self.gov_token.is_some() || self.plug.is_some() {
            Ok(())
        } else {
            Err(Error::NoWeightedGovMethod)
        }
    }

    pub open spec fn is_token_locked(&self, token: Seq<u8>) -> bool {
        crate::bytes::contains_name(self.locked_tokens@, token)
    }

    /// Whether the non-fungible units of `token` lock on vote.
    pub fn is_locking_vote_token(&self, token: &Vec<u8>) -> (r: bool)
        ensures
            r == self.is_token_locked(token@),
    {
        crate::bytes::names_contain(&self.locked_tokens, token)
    }

    /// Sets whether the non-fungible units of `token` are locked on vote.
    pub fn set_vote_token_lock(&mut self, token: &Vec<u8>, lock: bool)
        ensures
            forall|t: Seq<u8>|
                #![auto]
                final(self).is_token_locked(t) == if t == token@ {
                    lock
                } else {
                    old(self).is_token_locked(t)
                },
            final(self).gov_token == old(self).gov_token,
            final(self).plug == old(self).plug,
            final(self).trusted_host == old(self).trusted_host,
            final(self).default_quorum == old(self).default_quorum,
            final(self).min_vote_weight == old(self).min_vote_weight,
            final(self).min_propose_weight == old(self).min_propose_weight,
            final(self).default_voting_period_minutes == old(self).default_voting_period_minutes,
            final(self).restricted_vote_nonces == old(self).restricted_vote_nonces,
    {
        let ghost before = self.locked_tokens@;
        let mut kept: Vec<Vec<u8>> = Vec::new();
        let mut i: usize = 0;
        while i < self.locked_tokens.len()
            invariant
                0 <= i <= self.locked_tokens.len(),
                self.locked_tokens@ == before,
                forall|t: Seq<u8>|
                    #![auto]
                    crate::bytes::contains_name(kept@, t) <==> (t != token@ && exists|j: int|
                        0 <= j < i && #[trigger] before[j]@ == t),
            decreases self.locked_tokens.len() - i,
        {
            if !crate::bytes::bytes_eq(&self.locked_tokens[i], token) {
                let c = crate::bytes::copy_bytes(&self.locked_tokens[i]);
                let ghost prev = kept@;
                kept.push(c);
                assert forall|t: Seq<u8>|
                    #![auto]
                    crate::bytes::contains_name(kept@, t) <==> (t != token@ && exists|j: int|
                        0 <= j < i + 1 && #[trigger] before[j]@ == t) by {
                    if crate::bytes::contains_name(kept@, t) {
                        let k = choose|k: int| 0 <= k < kept@.len() && #[trigger] kept@[k]@ == t;
                        if k < prev.len() {
                            assert(crate::bytes::contains_name(prev, t));
                            let j = choose|j: int| 0 <= j < i && #[trigger] before[j]@ == t;
                            assert(before[j]@ == t);
                        } else {
                            assert(before[i as int]@ == t);
                        }
                    }
                    if t != token@ && exists|j: int| 0 <= j < i + 1 && #[trigger] before[j]@ == t {
                        let j = choose|j: int| 0 <= j < i + 1 && #[trigger] before[j]@ == t;
                        if j < i {
                            assert(crate::bytes::contains_name(prev, t));
                            let k = choose|k: int| 0 <= k < prev.len() && #[trigger] prev[k]@ == t;
                            assert(kept@[k]@ == t);
                        } else {
                            assert(kept@[prev.len() as int]@ == t);
                        }
                    }
                }
            } else {
                assert forall|t: Seq<u8>|
                    #![auto]
                    crate::bytes::contains_name(kept@, t) <==> (t != token@ && exists|j: int|
                        0 <= j < i + 1 && #[trigger] before[j]@ == t) by {
                    if t != token@ && exists|j: int| 0 <= j < i + 1 && #[trigger] before[j]@ == t {
                        let j = choose|j: int| 0 <= j < i + 1 && #[trigger] before[j]@ == t;
                        assert(j < i);
                    }
                    if crate::bytes::contains_name(kept@, t) {
                        let j = choose|j: int| 0 <= j < i && #[trigger] before[j]@ == t;
                        assert(before[j]@ == t);
                    }
                }
            }
            i = i + 1;
        }
        let ghost unlocked = kept@;
        if lock {
            let c = crate::bytes::copy_bytes(token);
            let ghost prev = kept@;
            kept.push(c);
            assert forall|t: Seq<u8>|
                #![auto]
                crate::bytes::contains_name(kept@, t) <==> (t == token@ || crate::bytes::contains_name(prev, t)) by {
                if crate::bytes::contains_name(kept@, t) {
                    let k = choose|k: int| 0 <= k < kept@.len() && #[trigger] kept@[k]@ == t;
                    if k < prev.len() {
                        assert(crate::bytes::contains_name(prev, t));
                    }
                }
                if crate::bytes::contains_name(prev, t) {
                    let k = choose|k: int| 0 <= k < prev.len() && #[trigger] prev[k]@ == t;
                    assert(kept@[k]@ == t);
                }
                if t == token@ {
                    assert(kept@[prev.len() as int]@ == t);
                }
            }
        }
        self.locked_tokens = kept;
        assert forall|t: Seq<u8>|
            #![auto]
            self.is_token_locked(t) == if t == token@ {
                lock
            } else {
                crate::bytes::contains_name(before, t)
            } by {
            assert(crate::bytes::contains_name(before, t) <==> exists|j: int|
                0 <= j < before.len() && #[trigger] before[j]@ == t);
            assert(crate::bytes::contains_name(unlocked, t) <==> (t != token@
                && crate::bytes::contains_name(before, t)));
        }
    }

    /// Makes a well-formed token identifier the governance token.
    pub fn try_change_governance_token(&mut self, token: Vec<u8>) -> (r: Result<(), Error>)
        ensures
            r is Ok <==> valid_token_identifier(token@),
            r is Err ==> r == Err::<(), Error>(Error::InvalidTokenId) && *final(self) == *old(self),
            r is Ok ==> *final(self) == (Config { gov_token: Some(token), ..*old(self) }),
    {
        if !is_valid_token_identifier(&token) {
            return Err(Error::InvalidTokenId);
        }
        self.gov_token = Some(token);
        Ok(())
    }

    /// Sets a positive default quorum.
    pub fn try_change_default_quorum(&mut self, quorum: Amount) -> (r: Result<(), Error>)
        ensures
            r is Ok <==> quorum != 0,
            r is Err ==> r == Err::<(), Error>(Error::InvalidQuorum) && *final(self) == *old(self),
            r is Ok ==> *final(self) == (Config { default_quorum: quorum, ..*old(self) }),
    {
        if quorum == 0 {
            return Err(Error::InvalidQuorum);
        }
        self.default_quorum = quorum;
        Ok(())
    }

    /// Sets a positive minimum weight for votes.
    pub fn try_change_min_vote_weight(&mut self, weight: Amount) -> (r: Result<(), Error>)
        ensures
            r is Ok <==> weight != 0,
            r is Err ==> r == Err::<(), Error>(Error::InvalidMinVoteWeight) && *final(self) == *old(self),
            r is Ok ==> *final(self) == (Config { min_vote_weight: weight, ..*old(self) }),
    {
        if weight == 0 {
            return Err(Error::InvalidMinVoteWeight);
        }
        self.min_vote_weight = weight;
        Ok(())
    }

    /// Sets a positive minimum weight for proposing.
    pub fn try_change_min_propose_weight(&mut self, weight: Amount) -> (r: Result<(), Error>)
        ensures
            r is Ok <==> weight != 0,
            r is Err ==> r == Err::<(), Error>(Error::InvalidMinProposeWeight) && *final(self) == *old(self),
            r is Ok ==> *final(self) == (Config { min_propose_weight: weight, ..*old(self) }),
    {
        if weight == 0 {
            return Err(Error::InvalidMinProposeWeight);
        }
        self.min_propose_weight = weight;
        Ok(())
    }

    /// Sets a default voting period between one minute and the maximum.
    pub fn try_change_default_voting_period_minutes(&mut self, minutes: usize) -> (r: Result<(), Error>)
        ensures
            minutes == 0 ==> r == Err::<(), Error>(Error::InvalidVotingPeriod),
            minutes > VOTING_PERIOD_MINUTES_MAX ==> r == Err::<(), Error>(Error::VotingPeriodTooLong),
            r is Ok <==> 0 < minutes <= VOTING_PERIOD_MINUTES_MAX,
            r is Err ==> *final(self) == *old(self),
            r is Ok ==> *final(self) == (Config { default_voting_period_minutes: minutes, ..*old(self) }),
    {
        if minutes == 0 {
            return Err(Error::InvalidVotingPeriod);
        }
        if minutes > VOTING_PERIOD_MINUTES_MAX {
            return Err(Error::VotingPeriodTooLong);
        }
        self.default_voting_period_minutes = minutes;
        Ok(())
    }

    /// Makes `token` the governance token, sets whether its units lock on
    /// vote, and, for a positive supply, derives the default quorum and the
    /// weight needed to propose from it.
    pub fn configure_governance_token(&mut self, token: Vec<u8>, supply: Amount, lock: bool) -> (r: Result<(), Error>)
        ensures
            r is Ok <==> valid_token_identifier(token@),
            r is Err ==> r == Err::<(), Error>(Error::InvalidTokenId) && *final(self) == *old(self),
            r is Ok ==> token_configured(*old(self), *final(self), token, supply, lock),
    {
        if !is_valid_token_identifier(&token) {
            return Err(Error::InvalidTokenId);
        }
        self.set_vote_token_lock(&token, lock);
        let ghost locks = self.locked_tokens;
        let ghost mid = *self;
        let ghost token_view = token@;
        self.gov_token = Some(token);
        assert(self.locked_tokens == locks);
        assert forall|t: Seq<u8>| #![auto] self.is_token_locked(t) == if t == token_view {
            lock
        } else {
            old(self).is_token_locked(t)
        } by {
            assert(self.is_token_locked(t) == mid.is_token_locked(t));
        }
        if supply == 0 {
            return Ok(());
        }
        let quorum = if supply > 100 { supply / 20 } else { 1 };
        let min_propose = if supply > 100 { supply / 100 } else { 1 };
        proof {
            if supply > 100 {
                let s = supply as int;
                vstd::arithmetic::div_mod::lemma_fundamental_div_mod(s, 20);
                let q = s / 20;
                let rem = s % 20;
                assert(s * 5 == q * 100 + rem * 5) by (nonlinear_arith)
                    requires
                        s == 20 * q + rem,
                ;
                vstd::arithmetic::div_mod::lemma_fundamental_div_mod_converse(s * 5, 100, q, rem * 5);
            }
        }
        self.default_quorum = quorum;
        self.min_propose_weight = min_propose;
        assert(self.locked_tokens == locks);
        assert(quorum == initial_quorum(supply as nat));
        assert forall|t: Seq<u8>| #![auto] self.is_token_locked(t) == if t == token_view {
            lock
        } else {
            old(self).is_token_locked(t)
        } by {
            assert(self.is_token_locked(t) == mid.is_token_locked(t));
        }
        Ok(())
    }
}

} // verus!
