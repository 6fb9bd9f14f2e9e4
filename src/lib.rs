//! Governance core of an on-chain organization: roles, permissions and
//! policies, the proposal lifecycle, vote and signature tallies, locked
//! vote bookkeeping and the authorization of proposal actions.

pub mod authorize;
pub mod bytes;
pub mod config;
pub mod entity;
pub mod error;
pub mod governance;
pub mod hash;
pub mod ledger;
pub mod permission;
pub mod proposal;
mod seqs;
pub mod settings;
pub mod token_id;
pub mod views;
pub mod voting;
pub mod withdraw;
