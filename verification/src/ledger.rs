//! The ledger's epoched values, and what is read off them at an epoch: a
//! validator's bonded stake, the candidates, and the validator sets.

use crate::address::Address;
use crate::bond::{Bond, Unbond};
use crate::decimal::Dec;
use crate::epoch::Epoch;
use crate::epoched::{value_at, Epoched};
use crate::epoched_delta::{summable_until, total_until, EpochedDelta};
use crate::parameters::PosParams;
use crate::validator::{ValidatorState, WeightedValidator};
use crate::validator_set::ValidatorSet;
use vstd::prelude::*;

verus! {

/// Epoched validator's consensus key.
pub type ValidatorConsensusKeys<PublicKey> = Epoched<PublicKey>;

/// Epoched validator's state.
pub type ValidatorStates = Epoched<ValidatorState>;

/// Epoched validator's total deltas.
pub type ValidatorDeltas = EpochedDelta<i128>;

/// Epoched bond.
pub type Bonds = EpochedDelta<Bond>;

/// Epoched unbond.
pub type Unbonds = EpochedDelta<Unbond>;

/// Epoched validator set.
pub type ValidatorSets = Epoched<ValidatorSet>;

/// Epoched total deltas.
pub type TotalDeltas = EpochedDelta<i128>;

/// Epoched validator commission rate
pub type CommissionRates = Epoched<Dec>;

/// What the ledger holds of one validator.
#[derive(Debug, Clone)]
pub struct Validator {
    /// Validator's address
    pub address: Address,
    /// Validator's state, epoch by epoch
    pub state: ValidatorStates,
    /// The changes of the validator's bonded stake, epoch by epoch
    pub deltas: ValidatorDeltas,
}

/// Why a bonded stake cannot be given.
#[derive(Debug, Clone, Copy, PartialEq, Eq, Structural)]
pub enum StakeError {
    /// The deltas cannot be added up.
    Overflow,
    /// More was taken from the stake than was put in.
    NegativeStake,
    /// The stake does not fit into a token amount.
    StakeOutOfRange,
}

/// The bonded stake at `epoch` that `deltas` add up to, or why there is none.
pub open spec fn stake_at(deltas: Map<u64, int>, epoch: u64) -> Result<u64, StakeError> {
    if !summable_until::<i128>(deltas, epoch) {
        Err(StakeError::Overflow)
    } else if total_until::<i128>(deltas, epoch) < 0 {
        Err(StakeError::NegativeStake)
    } else if total_until::<i128>(deltas, epoch) > u64::MAX {
        Err(StakeError::StakeOutOfRange)
    } else {
        Ok(total_until::<i128>(deltas, epoch) as u64)
    }
}

/// Of `validators`, those that are candidates at `epoch`, in their order and
/// with their bonded stakes at `epoch`; or why the first stake that cannot be
/// given cannot.
pub open spec fn candidates_at(validators: Seq<Validator>, epoch: u64) -> Result<
    Seq<WeightedValidator>,
    StakeError,
>
    decreases validators.len(),
{
    if validators.len() == 0 {
        Ok(Seq::empty())
    } else {
        match candidates_at(validators.drop_last(), epoch) {
            Err(e) => Err(e),
            Ok(found) => {
                let validator = validators.last();
                if value_at(validator.state@, epoch) == Some(ValidatorState::Candidate) {
                    match stake_at(validator.deltas@, epoch) {
                        Ok(bonded_stake) => Ok(
                            found.push(
                                WeightedValidator { bonded_stake, address: validator.address },
                            ),
                        ),
                        Err(e) => Err(e),
                    }
                } else {
                    Ok(found)
                }
            },
        }
    }
}

/// Whether the epoched values of all of `validators` are well-formed.
pub open spec fn validators_wf(validators: Seq<Validator>) -> bool {
    forall|i: int|
        0 <= i < validators.len() ==> (#[trigger] validators[i]).state.wf()
            && validators[i].deltas.wf()
}

/// The bonded stake of a validator at `epoch`: the sum of the changes of its
/// stake up to then.
pub fn bonded_stake(deltas: &ValidatorDeltas, epoch: Epoch) -> (stake: Result<u64, StakeError>)
    requires
        deltas.wf(),
    ensures
        stake == stake_at(deltas@, epoch.0),
{
    match deltas.sum_until(epoch) {
        None => Err(StakeError::Overflow),
        Some(total) => {
            if total < 0 {
                Err(StakeError::NegativeStake)
            } else if total > u64::MAX as i128 {
                Err(StakeError::StakeOutOfRange)
            } else {
                Ok(total as u64)
            }
        },
    }
}

/// Collects the candidates among `validators` at `epoch`, each with its
/// bonded stake.
pub fn collect_candidates(validators: &Vec<Validator>, epoch: Epoch) -> (found: Result<
    Vec<WeightedValidator>,
    StakeError,
>)
    requires
        validators_wf(validators@),
    ensures
        match found {
            Ok(candidates) => candidates_at(validators@, epoch.0) == Ok::<
                Seq<WeightedValidator>,
                StakeError,
            >(candidates@),
            Err(e) => candidates_at(validators@, epoch.0) == Err::<
                Seq<WeightedValidator>,
                StakeError,
            >(e),
        },
{
    let mut candidates: Vec<WeightedValidator> = Vec::new();
    let mut i: usize = 0;
    assert(validators@.take(0) =~= Seq::<Validator>::empty());
    while i < validators.len()
        invariant
            i <= validators@.len(),
            validators_wf(validators@),
            candidates_at(validators@.take(i as int), epoch.0) == Ok::<
                Seq<WeightedValidator>,
                StakeError,
            >(candidates@),
        decreases validators@.len() - i,
    {
        let validator = &validators[i];
        assert(validators@.take(i + 1).drop_last() =~= validators@.take(i as int));
        assert(validators@.take(i + 1).last() == validators@[i as int]);
        let candidate = match validator.state.get(epoch) {
            Some(state) => state.is_candidate(),
            None => false,
        };
        if candidate {
            match bonded_stake(&validator.deltas, epoch) {
                Ok(stake) => {
                    candidates.push(
                        WeightedValidator { bonded_stake: stake, address: validator.address },
                    );
                },
                Err(e) => {
                    proof {
                        lemma_candidates_fail(validators@, i + 1, epoch.0);
                    }
                    return Err(e);
                },
            }
        }
        i = i + 1;
    }
    assert(validators@.take(i as int) =~= validators@);
    Ok(candidates)
}

/// Where the candidates among the first validators cannot be given, those
/// among all cannot, for the same reason.
proof fn lemma_candidates_fail(validators: Seq<Validator>, n: int, epoch: u64)
    requires
        0 <= n <= validators.len(),
        candidates_at(validators.take(n), epoch) is Err,
    ensures
        candidates_at(validators, epoch) == candidates_at(validators.take(n), epoch),
    decreases validators.len() - n,
{
    if n < validators.len() {
        assert(validators.take(n + 1).drop_last() =~= validators.take(n));
        lemma_candidates_fail(validators, n + 1, epoch);
    } else {
        assert(validators.take(n) =~= validators);
    }
}

/// Computes the validator sets at `epoch` from the ledger's validators and
/// the parameters: the candidates at `epoch` are ranked by their bonded
/// stakes at `epoch`, the top `max_validator_slots` of them are active, the
/// others inactive.
pub fn validator_set_at(validators: &Vec<Validator>, params: &PosParams, epoch: Epoch) -> (made:
    Result<ValidatorSet, StakeError>)
    requires
        validators_wf(validators@),
    ensures
        match made {
            Ok(set) => candidates_at(validators@, epoch.0) matches Ok(candidates) && set.wf()
                && set.ranking().to_set() == candidates.to_set() && set.active@.len()
                <= params.max_validator_slots && (set.active@.len() == params.max_validator_slots
                || set.inactive@.len() == 0),
            Err(e) => candidates_at(validators@, epoch.0) == Err::<
                Seq<WeightedValidator>,
                StakeError,
            >(e),
        },
{
    match collect_candidates(validators, epoch) {
        Ok(candidates) => Ok(ValidatorSet::recompute(&candidates, params)),
        Err(e) => Err(e),
    }
}

} // verus!
