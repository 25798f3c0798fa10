//! The protocol parameters that the staking ledger goes by. They are handed
//! to every operation that needs them, since they can change from one epoch
//! to the next.

use crate::decimal::Dec;
use vstd::prelude::*;

verus! {

/// Proof-of-stake system parameters.
#[derive(Debug, Clone, Copy)]
pub struct PosParams {
    /// A maximum number of active validators.
    pub max_validator_slots: u64,
    /// Any change applied during an epoch `n` will become active at the
    /// beginning of epoch `n + pipeline_len`.
    pub pipeline_len: u64,
    /// How many epochs after a bond or an unbond was recorded a slash can
    /// still reach it.
    pub unbonding_len: u64,
    /// The portion of staked tokens that is slashed, at the least, for a
    /// duplicate vote.
    pub duplicate_vote_min_slash_rate: Dec,
    /// The portion of staked tokens that is slashed, at the least, for a
    /// light client attack.
    pub light_client_attack_min_slash_rate: Dec,
}

} // verus!
