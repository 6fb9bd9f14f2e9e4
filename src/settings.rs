use vstd::prelude::*;

use crate::config::{Amount, Config, Plug, UserId, TOKEN_MAX_DECIMALS};
use crate::entity::{
    leader_role, leader_role_name, member_role, member_role_name, noop_permission, noop_permission_name,
    user_has_role, user_id_of, wildcard_permission, wildcard_permission_name, Entity,
};
use crate::error::Error;
use crate::ledger::{add_guarded_within, guarded_amount};
use crate::permission::{PermissionDetails, PolicyMethod};

verus! {

/// Privileged operations may only be called by the organization itself,
/// at address `contract`.
pub fn require_caller_self(caller: &Vec<u8>, contract: &Vec<u8>) -> (r: Result<(), Error>)
    ensures
        r is Ok <==> caller@ == contract@,
        r is Err ==> r == Err::<(), Error>(Error::NotAllowed),
{
    if crate::bytes::bytes_eq(caller, contract) {
        Ok(())
    } else {
        Err(Error::NotAllowed)
    }
}

impl Entity {
    /// A new organization: `leader` holds the leader role, whose majority
    /// may do anything through the wildcard permission.
    pub fn new(trusted_host: Option<Vec<u8>>, leader: &Vec<u8>) -> (r: Entity)
        ensures
            r.wf(),
            r.config.trusted_host == trusted_host,
            r.config.gov_token is None,
            r.config.plug is None,
            r.config.default_quorum == crate::config::QUORUM_DEFAULT,
            r.config.min_vote_weight == 0,
            r.config.min_propose_weight == crate::config::MIN_PROPOSAL_VOTE_WEIGHT_DEFAULT,
            r.config.default_voting_period_minutes == crate::config::VOTING_PERIOD_MINUTES_DEFAULT,
            r.config.locked_tokens@.len() == 0,
            r.config.restricted_vote_nonces@.len() == 0,
            r.proposals@.len() == 0,
            r.known_host_ids@.len() == 0,
            user_has_role(r.users@, user_id_of(r.users@, leader@) as UserId, leader_role()),
            r.role_exists(leader_role()),
            r.permission_exists_spec(wildcard_permission()),
            r.permissions@.len() == 1 && r.permissions@[0].details.is_wildcard_spec(),
            r.policies@.len() == 1,
            r.policies@[0].role@ == leader_role(),
            r.policies@[0].permission@ == wildcard_permission(),
            r.policies@[0].policy.method == PolicyMethod::Majority,
            r.policies@[0].policy.quorum == 0,
            r.policies@[0].policy.voting_period_minutes == r.config.default_voting_period_minutes,
    {
        let mut e = Entity {
            config: Config::new(trusted_host),
            users: Vec::new(),
            roles: Vec::new(),
            permissions: Vec::new(),
            policies: Vec::new(),
            proposals: Vec::new(),
            known_host_ids: Vec::new(),
        };
        assert(crate::permission::unique_permission_names(e.permissions@));
        e.assign_role(leader, leader_role_name());
        proof {
            crate::entity::lemma_user_id_bound(e.users@, leader@);
            assert(e.role_exists(leader_role()));
        }
        let ghost users = e.users;
        let _ = e.create_permission(wildcard_permission_name(), PermissionDetails::wildcard());
        assert(e.permissions@[0].name@ == wildcard_permission());
        assert(e.permission_exists_spec(wildcard_permission()));
        assert(!e.policy_exists_spec(leader_role(), wildcard_permission()));
        let period = e.config.default_voting_period_minutes;
        let _ = e.create_policy(leader_role_name(), wildcard_permission_name(), PolicyMethod::Majority, 0, period);
        e
    }

    /// Sets up the member role, bound to the no-op permission by a
    /// token-weighted policy.
    pub fn configure_member_role(&mut self) -> (r: Result<(), Error>)
        requires
            old(self).wf(),
        ensures
            final(self).wf(),
            old(self).role_exists(member_role()) ==> r == Err::<(), Error>(Error::RoleExists),
            !old(self).role_exists(member_role()) && old(self).permission_exists_spec(noop_permission())
                ==> r == Err::<(), Error>(Error::PermissionExists),
            !old(self).role_exists(member_role()) && !old(self).permission_exists_spec(noop_permission())
                && old(self).policy_exists_spec(member_role(), noop_permission()) ==> r == Err::<(), Error>(Error::PolicyExists),
            r is Ok <==> !old(self).role_exists(member_role()) && !old(self).permission_exists_spec(noop_permission())
                && !old(self).policy_exists_spec(member_role(), noop_permission()),
            r is Err ==> *final(self) == *old(self),
            r is Ok ==> {
                &&& final(self).role_exists(member_role())
                &&& final(self).permission_exists_spec(noop_permission())
                &&& final(self).permissions@.last().details.is_noop_spec()
                &&& final(self).policies@.len() == old(self).policies@.len() + 1
                &&& final(self).policies@.last().role@ == member_role()
                &&& final(self).policies@.last().permission@ == noop_permission()
                &&& final(self).policies@.last().policy.method == PolicyMethod::Weight
                &&& final(self).policies@.last().policy.quorum == 0
                &&& final(self).users == old(self).users
                &&& final(self).proposals == old(self).proposals
                &&& final(self).config == old(self).config
            },
    {
        if crate::bytes::names_contain(&self.roles, &member_role_name()) {
            return Err(Error::RoleExists);
        }
        if crate::permission::find_permission(&self.permissions, &noop_permission_name()).is_some() {
            return Err(Error::PermissionExists);
        }
        if self.find_policy(&member_role_name(), &noop_permission_name()).is_some() {
            return Err(Error::PolicyExists);
        }
        let _ = self.create_role(member_role_name());
        assert(self.roles@[self.roles@.len() - 1]@ == member_role());
        assert(self.role_exists(member_role()));
        let _ = self.create_permission(noop_permission_name(), PermissionDetails::noop());
        assert(self.permissions@[self.permissions@.len() - 1].name@ == noop_permission());
        assert(self.permission_exists_spec(noop_permission()));
        let ghost mid = *self;
        let period = self.config.default_voting_period_minutes;
        let _ = self.create_policy(member_role_name(), noop_permission_name(), PolicyMethod::Weight, 0, period);
        assert(self.roles == mid.roles);
        assert(self.permissions == mid.permissions);
        Ok(())
    }

    /// Sets a positive default quorum.
    pub fn change_quorum(&mut self, quorum: Amount) -> (r: Result<(), Error>)
        requires
            old(self).wf(),
        ensures
            final(self).wf(),
            r is Ok <==> quorum != 0,
            r is Err ==> r == Err::<(), Error>(Error::InvalidQuorum) && *final(self) == *old(self),
            r is Ok ==> *final(self) == (Entity { config: Config { default_quorum: quorum, ..old(self).config }, ..*old(self) }),
    {
        self.config.try_change_default_quorum(quorum)
    }

    /// Sets a positive minimum weight for votes.
    pub fn change_min_vote_weight(&mut self, weight: Amount) -> (r: Result<(), Error>)
        requires
            old(self).wf(),
        ensures
            final(self).wf(),
            r is Ok <==> weight != 0,
            r is Err ==> r == Err::<(), Error>(Error::InvalidMinVoteWeight) && *final(self) == *old(self),
            r is Ok ==> *final(self) == (Entity { config: Config { min_vote_weight: weight, ..old(self).config }, ..*old(self) }),
    {
        self.config.try_change_min_vote_weight(weight)
    }

    /// Sets a positive minimum weight for proposing.
    pub fn change_min_propose_weight(&mut self, weight: Amount) -> (r: Result<(), Error>)
        requires
            old(self).wf(),
        ensures
            final(self).wf(),
            r is Ok <==> weight != 0,
            r is Err ==> r == Err::<(), Error>(Error::InvalidMinProposeWeight) && *final(self) == *old(self),
            r is Ok ==> *final(self) == (Entity { config: Config { min_propose_weight: weight, ..old(self).config }, ..*old(self) }),
    {
        self.config.try_change_min_propose_weight(weight)
    }

    /// Sets the default voting period, in minutes.
    pub fn change_voting_period_minutes(&mut self, minutes: usize) -> (r: Result<(), Error>)
        requires
            old(self).wf(),
        ensures
            final(self).wf(),
            minutes == 0 ==> r == Err::<(), Error>(Error::InvalidVotingPeriod),
            minutes > crate::config::VOTING_PERIOD_MINUTES_MAX ==> r == Err::<(), Error>(Error::VotingPeriodTooLong),
            r is Ok <==> 0 < minutes <= crate::config::VOTING_PERIOD_MINUTES_MAX,
            r is Err ==> *final(self) == *old(self),
            r is Ok ==> *final(self) == (Entity {
                config: Config { default_voting_period_minutes: minutes, ..old(self).config },
                ..*old(self)
            }),
    {
        self.config.try_change_default_voting_period_minutes(minutes)
    }

    /// Only the given nonces may carry votes from now on; none: any may.
    pub fn set_restricted_vote_nonces(&mut self, nonces: Vec<u64>)
        requires
            old(self).wf(),
        ensures
            final(self).wf(),
            *final(self) == (Entity { config: Config { restricted_vote_nonces: nonces, ..old(self).config }, ..*old(self) }),
    {
        self.config.restricted_vote_nonces = nonces;
    }

    /// Sets or clears the attester whose signature proposals need.
    pub fn set_trusted_host(&mut self, host: Option<Vec<u8>>)
        requires
            old(self).wf(),
        ensures
            final(self).wf(),
            *final(self) == (Entity { config: Config { trusted_host: host, ..old(self).config }, ..*old(self) }),
    {
        self.config.trusted_host = host;
    }

    /// Sets whether the non-fungible units of `token` lock on vote.
    pub fn change_vote_token_lock(&mut self, token: &Vec<u8>, lock: bool)
        requires
            old(self).wf(),
        ensures
            final(self).wf(),
            *final(self) == (Entity { config: final(self).config, ..*old(self) }),
            forall|t: Seq<u8>| #![auto] final(self).config.is_token_locked(t) == if t == token@ {
                lock
            } else {
                old(self).config.is_token_locked(t)
            },
            final(self).config.gov_token == old(self).config.gov_token,
            final(self).config.plug == old(self).config.plug,
            final(self).config.default_quorum == old(self).config.default_quorum,
            final(self).config.min_vote_weight == old(self).config.min_vote_weight,
            final(self).config.min_propose_weight == old(self).config.min_propose_weight,
    {
        self.config.set_vote_token_lock(token, lock);
    }

    /// Plugs the organization into a weight oracle.
    pub fn set_plug(&mut self, contract: Vec<u8>, quorum: Amount, min_propose_weight: Amount, weight_decimals: u8) -> (r: Result<(), Error>)
        requires
            old(self).wf(),
        ensures
            final(self).wf(),
            weight_decimals > TOKEN_MAX_DECIMALS ==> r == Err::<(), Error>(Error::InvalidWeightDecimals),
            weight_decimals <= TOKEN_MAX_DECIMALS && quorum == 0 ==> r == Err::<(), Error>(Error::InvalidQuorum),
            weight_decimals <= TOKEN_MAX_DECIMALS && quorum != 0 && min_propose_weight == 0
                ==> r == Err::<(), Error>(Error::InvalidMinProposeWeight),
            r is Ok <==> weight_decimals <= TOKEN_MAX_DECIMALS && quorum != 0 && min_propose_weight != 0,
            r is Err ==> *final(self) == *old(self),
            r is Ok ==> *final(self) == (Entity {
                config: Config {
                    plug: Some(Plug { contract, weight_decimals }),
                    default_quorum: quorum,
                    min_propose_weight,
                    ..old(self).config
                },
                ..*old(self)
            }),
    {
        if weight_decimals > TOKEN_MAX_DECIMALS {
            return Err(Error::InvalidWeightDecimals);
        }
        if quorum == 0 {
            return Err(Error::InvalidQuorum);
        }
        if min_propose_weight == 0 {
            return Err(Error::InvalidMinProposeWeight);
        }
        self.config.plug = Some(Plug { contract, weight_decimals });
        self.config.default_quorum = quorum;
        self.config.min_propose_weight = min_propose_weight;
        Ok(())
    }

    /// Gives up the leader role, leaving the organization to token-weighted
    /// governance.
    pub fn set_leaderless_mode(&mut self) -> (r: Result<(), Error>)
        requires
            old(self).wf(),
        ensures
            final(self).wf(),
            old(self).config.gov_token is None && old(self).config.plug is None ==> r == Err::<(), Error>(Error::NoWeightedGovMethod),
            (old(self).config.gov_token is Some || old(self).config.plug is Some) && !old(self).role_exists(leader_role())
                ==> r == Err::<(), Error>(Error::RoleMissing),
            r is Ok <==> (old(self).config.gov_token is Some || old(self).config.plug is Some) && old(self).role_exists(leader_role()),
            r is Err ==> *final(self) == *old(self),
            r is Ok ==> final(self).is_leaderless_spec() && !final(self).role_exists(leader_role())
                && final(self).proposals == old(self).proposals && final(self).config == old(self).config,
    {
        self.config.require_weighted_gov_method()?;
        self.remove_role(&leader_role_name())
    }

    /// Configures a governance token on the leader's behalf, when none is
    /// set and no oracle is plugged.
    pub fn init_gov_token(&mut self, caller: &Vec<u8>, token: Vec<u8>, supply: Amount, lock: bool) -> (r: Result<(), Error>)
        requires
            old(self).wf(),
        ensures
            final(self).wf(),
            old(self).config.gov_token is Some ==> r == Err::<(), Error>(Error::GovTokenAlreadySet),
            old(self).config.gov_token is None && old(self).config.plug is Some ==> r == Err::<(), Error>(Error::AlreadyPlugged),
            old(self).config.gov_token is None && old(self).config.plug is None && !user_has_role(
                old(self).users@,
                user_id_of(old(self).users@, caller@) as UserId,
                leader_role(),
            ) ==> r == Err::<(), Error>(Error::NotAllowed),
            r is Ok <==> (old(self).config.gov_token is None && old(self).config.plug is None && user_has_role(
                old(self).users@,
                user_id_of(old(self).users@, caller@) as UserId,
                leader_role(),
            ) && crate::token_id::valid_token_identifier(token@)),
            r is Err ==> *final(self) == *old(self),
            r is Ok ==> *final(self) == (Entity { config: final(self).config, ..*old(self) })
                && crate::config::token_configured(old(self).config, final(self).config, token, supply, lock),
    {
        if self.config.gov_token.is_some() {
            return Err(Error::GovTokenAlreadySet);
        }
        if self.config.plug.is_some() {
            return Err(Error::AlreadyPlugged);
        }
        if !self.has_leader_role(caller) {
            return Err(Error::NotAllowed);
        }
        self.config.configure_governance_token(token, supply, lock)
    }

    /// Replaces the governance token, deriving the defaults from `supply`.
    pub fn change_gov_token(&mut self, token: Vec<u8>, supply: Amount, lock: bool) -> (r: Result<(), Error>)
        requires
            old(self).wf(),
        ensures
            final(self).wf(),
            r is Ok <==> crate::token_id::valid_token_identifier(token@),
            r is Err ==> r == Err::<(), Error>(Error::InvalidTokenId) && *final(self) == *old(self),
            r is Ok ==> *final(self) == (Entity { config: final(self).config, ..*old(self) })
                && crate::config::token_configured(old(self).config, final(self).config, token, supply, lock),
    {
        self.config.configure_governance_token(token, supply, lock)
    }

    /// Removes the governance token; an organization without leaders keeps it.
    pub fn remove_gov_token(&mut self) -> (r: Result<(), Error>)
        requires
            old(self).wf(),
        ensures
            final(self).wf(),
            r is Ok <==> !old(self).is_leaderless_spec(),
            r is Err ==> r == Err::<(), Error>(Error::NotAllowedWhenLeaderless) && *final(self) == *old(self),
            r is Ok ==> *final(self) == (Entity { config: final(self).config, ..*old(self) })
                && final(self).config.gov_token is None
                && (old(self).config.gov_token is Some ==> !final(self).config.is_token_locked(old(self).config.gov_token->0@)),
    {
        if self.is_leaderless() {
            return Err(Error::NotAllowedWhenLeaderless);
        }
        let mut removed: Option<Vec<u8>> = None;
        std::mem::swap(&mut removed, &mut self.config.gov_token);
        if let Some(token) = removed {
            self.config.set_vote_token_lock(&token, false);
        }
        Ok(())
    }

    /// Whether the leader `caller` may issue a fresh governance token of
    /// `supply` units; the issuing itself happens outside, and its outcome
    /// comes back through `change_gov_token`.
    pub fn check_issue_gov_token(&self, caller: &Vec<u8>, supply: Amount) -> (r: Result<(), Error>)
        requires
            self.wf(),
        ensures
            self.config.gov_token is Some ==> r == Err::<(), Error>(Error::GovTokenAlreadySet),
            self.config.gov_token is None && self.config.plug is Some ==> r == Err::<(), Error>(Error::AlreadyPlugged),
            self.config.gov_token is None && self.config.plug is None && !user_has_role(
                self.users@,
                user_id_of(self.users@, caller@) as UserId,
                leader_role(),
            ) ==> r == Err::<(), Error>(Error::NotAllowed),
            r is Ok <==> (self.config.gov_token is None && self.config.plug is None && user_has_role(
                self.users@,
                user_id_of(self.users@, caller@) as UserId,
                leader_role(),
            ) && supply > 0),
            r is Err && self.config.gov_token is None && self.config.plug is None && user_has_role(
                self.users@,
                user_id_of(self.users@, caller@) as UserId,
                leader_role(),
            ) ==> r == Err::<(), Error>(Error::InvalidSupply),
    {
        if self.config.gov_token.is_some() {
            return Err(Error::GovTokenAlreadySet);
        }
        if self.config.plug.is_some() {
            return Err(Error::AlreadyPlugged);
        }
        if !self.has_leader_role(caller) {
            return Err(Error::NotAllowed);
        }
        if supply == 0 {
            return Err(Error::InvalidSupply);
        }
        Ok(())
    }

    /// Whether `amount` of the unit may leave the organization: with what
    /// is held back for votes it must fit in the balance.
    pub fn require_tokens_available(&self, token: &Vec<u8>, nonce: u64, amount: Amount, balance: Amount) -> (r: Result<(), Error>)
        ensures
            r is Ok <==> amount + guarded_amount(self.proposals@, token@, nonce) <= balance,
            r is Err ==> r == Err::<(), Error>(Error::TokensUnavailable),
    {
        if amount > balance {
            return Err(Error::TokensUnavailable);
        }
        match add_guarded_within(&self.proposals, token, nonce, amount, balance) {
            Some(_) => Ok(()),
            None => Err(Error::TokensUnavailable),
        }
    }
}

} // verus!
