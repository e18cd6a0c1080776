//! Consensus-accounting core of a proof-of-stake beacon-chain client.
//!
//! Given an immutable snapshot of a block/state store, this crate
//! resolves logical block identifiers to roots, filters the block tree
//! reachable from the justified checkpoint, derives the current chain
//! heads, evaluates attester-slashing evidence, and computes the exact
//! reward breakdown a block proposer earned for a block.

pub mod accessor;
pub mod rewards;
pub mod slashing;
pub mod tree;
pub mod types;

use vstd::prelude::*;

verus! {

/// The protocol quantum of stake: balances are counted in increments
/// of this many Gwei.
pub const EFFECTIVE_BALANCE_INCREMENT: u64 = 1_000_000_000;

/// Weight of the proposer's share in the total reward weights.
pub const PROPOSER_WEIGHT: u64 = 8;

/// Number of slots in one epoch.
pub const SLOTS_PER_EPOCH: u64 = 32;

/// Number of members of a sync committee.
pub const SYNC_COMMITTEE_SIZE: u64 = 512;

/// Weight of sync-committee participation in the total reward weights.
pub const SYNC_REWARD_WEIGHT: u64 = 2;

/// Denominator that all participation weights are measured against.
pub const WEIGHT_DENOMINATOR: u64 = 64;

/// Divisor of the slashed balance that the whistleblower receives.
pub const WHISTLEBLOWER_REWARD_QUOTIENT: u64 = 512;

/// Largest effective balance a validator can hold, in Gwei.
pub const MAX_EFFECTIVE_BALANCE: u64 = 2_048_000_000_000;

/// Most attestations a block body may carry.
pub const MAX_ATTESTATIONS: u64 = 8;

/// Most proposer-slashing reports a block body may carry.
pub const MAX_PROPOSER_SLASHINGS: u64 = 16;

/// Most attester-slashing reports a block body may carry.
pub const MAX_ATTESTER_SLASHINGS: u64 = 1;

/// Most attesting indices a single attestation may name.
pub const MAX_ATTESTING_INDICES: u64 = 2048;

/// Upper protocol bound on the total active balance, in Gwei.
pub const MAX_TOTAL_ACTIVE_BALANCE: u64 = 9_000_000_000 * EFFECTIVE_BALANCE_INCREMENT;

} // verus!
