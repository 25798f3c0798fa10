//! Slashes: the record of penalties for byzantine behavior.

use crate::decimal::Dec;
use crate::epoch::Epoch;
use crate::parameters::PosParams;
use vstd::prelude::*;

verus! {

/// A slash applied to validator, to punish byzantine behavior by removing
/// their staked tokens at and before the epoch of the slash.
#[derive(Debug, Clone, Copy)]
pub struct Slash {
    /// Epoch at which the slashable event occurred.
    pub epoch: Epoch,
    /// Block height at which the slashable event occurred.
    pub block_height: u64,
    /// A type of slashable event.
    pub slash_type: SlashType,
    /// A rate is the portion of staked tokens that are slashed.
    pub rate: Dec,
}

/// Slashes applied to validator, to punish byzantine behavior by removing
/// their staked tokens at and before the epoch of the slash. New slashes are
/// added at the end; none is moved or taken out.
pub type Slashes = Vec<Slash>;

/// A type of slashable event.
#[derive(Debug, Clone, Copy, PartialEq, Eq, Structural)]
pub enum SlashType {
    /// Duplicate block vote.
    DuplicateVote,
    /// Light client attack.
    LightClientAttack,
}

impl SlashType {
    /// Get the slash rate applicable to the given slash type from the PoS
    /// parameters.
    pub fn get_slash_rate(&self, params: &PosParams) -> (rate: Dec)
        ensures
            rate == match self {
                SlashType::DuplicateVote => params.duplicate_vote_min_slash_rate,
                SlashType::LightClientAttack => params.light_client_attack_min_slash_rate,
            },
    {
        match self {
            SlashType::DuplicateVote => params.duplicate_vote_min_slash_rate,
            SlashType::LightClientAttack => params.light_client_attack_min_slash_rate,
        }
    }

    /// The text that the type of event is shown as.
    pub open spec fn spec_to_string(&self) -> Seq<char> {
        match self {
            SlashType::DuplicateVote => "Duplicate vote"@,
            SlashType::LightClientAttack => "Light client attack"@,
        }
    }

    /// Shows the type of event in words.
    pub fn to_string(&self) -> (text: String)
        ensures
            text@ == self.spec_to_string(),
    {
        match self {
            SlashType::DuplicateVote => String::from_str("Duplicate vote"),
            SlashType::LightClientAttack => String::from_str("Light client attack"),
        }
    }
}

} // verus!
