//! Verified models of a family of Soroban DeFi contracts: governance,
//! a price oracle, tiered token staking, NFT staking bonuses and a yield
//! aggregator.  Each contract is a plain state value together with the
//! transitions that its entry points perform; the host environment
//! (storage, authorisation, ledger clock, token transfers, events) stays
//! with the caller, which feeds the transitions plain values.

pub mod arith;
pub mod kv;
pub mod governance;
pub mod governance_types;
pub mod governance_utils;
pub mod staking;
pub mod staking_bonuses;
pub mod sorting;
pub mod oracle;
pub mod oracle_errors;
pub mod oracle_types;
pub mod price_aggregator;
pub mod yield_aggregator;

use vstd::prelude::*;

verus! {

/// An account or contract address, identified by an integer.  Addresses are
/// only ever compared for equality, which an integer identity captures.
pub type AccountId = u64;

} // verus!
