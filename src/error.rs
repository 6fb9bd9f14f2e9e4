use vstd::prelude::*;

verus! {

/// The families that the errors of the governance core fall into.
#[derive(Clone, Copy, PartialEq, Eq, Debug, Structural)]
pub enum ErrorKind {
    Authorization,
    Validation,
    State,
    Resource,
    Integrity,
}

/// Why an operation was refused. A refused operation changes nothing.
#[derive(Clone, Copy, PartialEq, Eq, Debug, Structural)]
pub enum Error {
    NotAllowed,
    NoWeightedGovMethod,
    InvalidTokenId,
    InvalidQuorum,
    InvalidMinVoteWeight,
    InvalidMinProposeWeight,
    InvalidVotingPeriod,
    VotingPeriodTooLong,
    InvalidWeightDecimals,
    GovTokenAlreadySet,
    AlreadyPlugged,
    NotAllowedWhenLeaderless,
    RoleExists,
    RoleMissing,
    PermissionExists,
    PermissionMissing,
    ReservedPermission,
    PolicyExists,
    PolicyMissing,
    ProposalMissing,
    ProposalRegistered,
    ProposerNotAllowed,
    InsufficientProposeWeight,
    InvalidActionsHash,
    StartNotInFuture,
    NoRoles,
    ZeroVoteWeight,
    InsufficientVoteWeight,
    ProposalNotActive,
    MissingRoles,
    ProposerMustCancel,
    NoActions,
    ActionsCorrupted,
    AlreadyExecuted,
    NoPermissionForAction,
    UntruthfulPermissions,
    TokensUnavailable,
    InvalidPaymentToken,
    RestrictedNonce,
    AlreadyVotedWithToken,
    InvalidSignature,
    StillPending,
    StillActive,
    WeightUnavailable,
    InvalidSupply,
    Overflow,
}

impl Error {
    pub open spec fn kind_spec(self) -> ErrorKind {
        match self {
            Error::NotAllowed | Error::RoleMissing | Error::PermissionMissing | Error::PolicyMissing
            | Error::ProposerNotAllowed | Error::MissingRoles | Error::ProposerMustCancel
            | Error::NoPermissionForAction => ErrorKind::Authorization,
            Error::ProposalNotActive | Error::AlreadyExecuted | Error::AlreadyVotedWithToken
            | Error::StillPending | Error::StillActive | Error::GovTokenAlreadySet
            | Error::AlreadyPlugged | Error::NotAllowedWhenLeaderless => ErrorKind::State,
            Error::TokensUnavailable | Error::WeightUnavailable | Error::Overflow => ErrorKind::Resource,
            Error::ActionsCorrupted | Error::UntruthfulPermissions | Error::InvalidSignature => ErrorKind::Integrity,
            _ => ErrorKind::Validation,
        }
    }

    /// The family the error belongs to.
    pub fn kind(&self) -> (r: ErrorKind)
        ensures
            r == self.kind_spec(),
    {
        match self {
            Error::NotAllowed | Error::RoleMissing | Error::PermissionMissing | Error::PolicyMissing
            | Error::ProposerNotAllowed | Error::MissingRoles | Error::ProposerMustCancel
            | Error::NoPermissionForAction => ErrorKind::Authorization,
            Error::ProposalNotActive | Error::AlreadyExecuted | Error::AlreadyVotedWithToken
            | Error::StillPending | Error::StillActive | Error::GovTokenAlreadySet
            | Error::AlreadyPlugged | Error::NotAllowedWhenLeaderless => ErrorKind::State,
            Error::TokensUnavailable | Error::WeightUnavailable | Error::Overflow => ErrorKind::Resource,
            Error::ActionsCorrupted | Error::UntruthfulPermissions | Error::InvalidSignature => ErrorKind::Integrity,
            _ => ErrorKind::Validation,
        }
    }
}

} // verus!
