//! Validators: their state, their weight, and what is published of them.

use crate::address::Address;
use crate::decimal::Dec;
use crate::text::{decimal_digits, decimal_string};
use core::cmp::Ordering;
use vstd::prelude::*;
use vstd::std_specs::cmp::PartialOrdSpecImpl;

verus! {

/// A genesis validator definition.
#[derive(Debug, Clone)]
pub struct GenesisValidator<PK> {
    /// Validator's address
    pub address: Address,
    /// Staked tokens are put into a self-bond
    pub tokens: u64,
    /// A public key used for signing validator's consensus actions
    pub consensus_key: PK,
    /// Commission rate charged on rewards for delegators (bounded inside 0-1)
    pub commission_rate: Dec,
    /// Maximum change in commission rate permitted per epoch
    pub max_commission_rate_change: Dec,
}

/// An update of the active and inactive validator set.
#[derive(Debug, Clone)]
pub enum ValidatorSetUpdate<PK> {
    /// A validator is active
    Active(ActiveValidator<PK>),
    /// A validator who was active in the last update and is now inactive
    Deactivated(PK),
}

/// Active validator's consensus key and its bonded stake.
#[derive(Debug, Clone)]
pub struct ActiveValidator<PK> {
    /// A public key used for signing validator's consensus actions
    pub consensus_key: PK,
    /// Total bonded stake of the validator
    pub bonded_stake: u64,
}

/// Validator's address with its voting power.
///
/// Validators are ranked by their stake, and two of equal stake by their
/// address. The order of the type is this ranking: `<` reads "ranks below".
#[derive(Debug, Clone, Copy, PartialEq, Eq, Ord, Hash, Structural)]
pub struct WeightedValidator {
    /// The `bonded_stake` field must be on top, because lexicographic
    /// ordering is based on the top-to-bottom declaration order and in the
    /// `ValidatorSet` the `WeightedValidator`s these need to be sorted by
    /// the `bonded_stake`.
    pub bonded_stake: u64,
    /// Validator's address
    pub address: Address,
}

/// Validator's state.
#[derive(Debug, Clone, Copy, PartialEq, Eq, Structural)]
pub enum ValidatorState {
    /// Inactive validator may not participate in the consensus.
    Inactive,
    /// A `Pending` validator will become `Candidate` in a future epoch.
    Pending,
    /// A `Candidate` validator may participate in the consensus. It is either
    /// in the active or inactive validator set.
    Candidate,
}

/// Derive Tendermint raw hash from the public key
pub trait PublicKeyTmRawHash {
    /// Derive Tendermint raw hash from the public key
    fn tm_raw_hash(&self) -> String;
}

impl WeightedValidator {
    /// Whether `self` ranks below `other`: by stake, and at equal stake by
    /// address.
    pub open spec fn ranks_below(self, other: WeightedValidator) -> bool {
        self.bonded_stake < other.bonded_stake || (self.bonded_stake == other.bonded_stake
            && self.address < other.address)
    }

    /// The text that the validator is shown as.
    pub open spec fn spec_to_string(&self) -> Seq<char> {
        decimal_digits(self.address as nat) + " with bonded stake "@ + decimal_digits(
            self.bonded_stake as nat,
        )
    }

    /// Shows the validator as `<address> with bonded stake <stake>`.
    pub fn to_string(&self) -> (text: String)
        ensures
            text@ == self.spec_to_string(),
    {
        let stake = decimal_string(self.bonded_stake);
        decimal_string(self.address).concat(" with bonded stake ").concat(stake.as_str())
    }
}

impl PartialOrd for WeightedValidator {
    fn partial_cmp(&self, other: &WeightedValidator) -> (order: Option<Ordering>) {
        if self.bonded_stake < other.bonded_stake {
            Some(Ordering::Less)
        } else if self.bonded_stake > other.bonded_stake {
            Some(Ordering::Greater)
        } else if self.address < other.address {
            Some(Ordering::Less)
        } else if self.address > other.address {
            Some(Ordering::Greater)
        } else {
            Some(Ordering::Equal)
        }
    }
}

impl PartialOrdSpecImpl for WeightedValidator {
    open spec fn obeys_partial_cmp_spec() -> bool {
        true
    }

    open spec fn partial_cmp_spec(&self, other: &WeightedValidator) -> Option<Ordering> {
        if self.ranks_below(*other) {
            Some(Ordering::Less)
        } else if other.ranks_below(*self) {
            Some(Ordering::Greater)
        } else {
            Some(Ordering::Equal)
        }
    }
}

impl ValidatorState {
    /// Whether a validator in this state may take part in the consensus, in
    /// the active or in the inactive set: only a candidate may.
    pub fn is_candidate(&self) -> (candidate: bool)
        ensures
            candidate == (*self == ValidatorState::Candidate),
    {
        match self {
            ValidatorState::Candidate => true,
            _ => false,
        }
    }

    /// The state that follows once the pipeline delay has passed: a pending
    /// validator becomes a candidate, every other state stays.
    pub fn after_pipeline(&self) -> (next: ValidatorState)
        ensures
            next == match self {
                ValidatorState::Pending => ValidatorState::Candidate,
                _ => *self,
            },
    {
        match self {
            ValidatorState::Pending => ValidatorState::Candidate,
            ValidatorState::Inactive => ValidatorState::Inactive,
            ValidatorState::Candidate => ValidatorState::Candidate,
        }
    }
}

} // verus!
