//! The active and the inactive validator set: the candidates ranked by
//! stake, cut after the top `max_validator_slots`.

use crate::address::Address;
use crate::parameters::PosParams;
use crate::validator::WeightedValidator;
use vstd::prelude::*;

verus! {

/// Whether `ranking` is in strictly rising rank: each validator ranks below
/// all that follow it, so that none occurs twice.
pub open spec fn strictly_ranked(ranking: Seq<WeightedValidator>) -> bool {
    forall|i: int, j: int|
        0 <= i < j < ranking.len() ==> (#[trigger] ranking[i]).ranks_below(#[trigger] ranking[j])
}

/// Active and inactive validator sets.
///
/// Each set is held in rising rank. The two are the two sides of one cut
/// through the ranking of all candidates: see [`ValidatorSet::wf`].
#[derive(Debug, Clone)]
pub struct ValidatorSet {
    /// Active validator set with maximum size equal to `max_validator_slots`
    /// in [`PosParams`].
    pub active: Vec<WeightedValidator>,
    /// All the other validators that are not active
    pub inactive: Vec<WeightedValidator>,
}

impl ValidatorSet {
    /// All the validators of the two sets, the inactive ones first.
    pub open spec fn ranking(&self) -> Seq<WeightedValidator> {
        self.inactive@ + self.active@
    }

    /// Whether the inactive validators followed by the active ones are in
    /// strictly rising rank.
    pub open spec fn wf(&self) -> bool {
        strictly_ranked(self.ranking())
    }

    /// The validator set without any validator.
    pub fn new() -> (set: ValidatorSet)
        ensures
            set.wf(),
            set.active@.len() == 0,
            set.inactive@.len() == 0,
    {
        ValidatorSet { active: Vec::new(), inactive: Vec::new() }
    }

    /// Computes the validator sets anew from all the candidates with their
    /// bonded stakes: ranks them, takes the top `max_validator_slots` as
    /// active and leaves the others inactive. A candidate that is listed
    /// twice counts once.
    pub fn recompute(candidates: &Vec<WeightedValidator>, params: &PosParams) -> (set:
        ValidatorSet)
        ensures
            set.wf(),
            set.ranking().to_set() == candidates@.to_set(),
            set.active@.len() <= params.max_validator_slots,
            set.active@.len() == params.max_validator_slots || set.inactive@.len() == 0,
    {
        let mut ranked: Vec<WeightedValidator> = Vec::new();
        let mut i: usize = 0;
        while i < candidates.len()
            invariant
                i <= candidates@.len(),
                ranked@.len() <= i,
                strictly_ranked(ranked@),
                ranked@.to_set() == candidates@.take(i as int).to_set(),
            decreases candidates@.len() - i,
        {
            insert_ranked(&mut ranked, candidates[i]);
            proof {
                let before = candidates@.take(i as int);
                let after = candidates@.take(i + 1);
                assert(after =~= before.push(candidates@[i as int]));
                assert(after.to_set() =~= before.to_set().insert(candidates@[i as int])) by {
                    assert forall|v: WeightedValidator|
                        after.to_set().contains(v) <==> before.to_set().insert(
                            candidates@[i as int],
                        ).contains(v) by {
                        if after.contains(v) {
                            let k = choose|k: int| 0 <= k < after.len() && after[k] == v;
                            if k < i {
                                assert(before[k] == v);
                            }
                        }
                        if before.contains(v) {
                            let k = choose|k: int| 0 <= k < before.len() && before[k] == v;
                            assert(after[k] == v);
                        }
                        assert(after[i as int] == candidates@[i as int]);
                    }
                }
            }
            i = i + 1;
        }
        assert(candidates@.take(i as int) =~= candidates@);
        let total = ranked.len();
        let slots: usize = if params.max_validator_slots < total as u64 {
            params.max_validator_slots as usize
        } else {
            total
        };
        let ghost ranking = ranked@;
        let active = ranked.split_off(total - slots);
        assert(ranked@ + active@ =~= ranking);
        ValidatorSet { active, inactive: ranked }
    }

    /// Whether the validator of the given address is in the active set.
    pub fn is_active(&self, address: Address) -> (found: bool)
        ensures
            found == exists|i: int|
                0 <= i < self.active@.len() && self.active@[i].address == address,
    {
        holds_address(&self.active, address)
    }

    /// Whether the validator of the given address is in the inactive set.
    pub fn is_inactive(&self, address: Address) -> (found: bool)
        ensures
            found == exists|i: int|
                0 <= i < self.inactive@.len() && self.inactive@[i].address == address,
    {
        holds_address(&self.inactive, address)
    }
}

/// Whether one of `validators` has the given address.
fn holds_address(validators: &Vec<WeightedValidator>, address: Address) -> (found: bool)
    ensures
        found == exists|i: int| 0 <= i < validators@.len() && validators@[i].address == address,
{
    let mut i: usize = 0;
    while i < validators.len()
        invariant
            i <= validators@.len(),
            forall|j: int| 0 <= j < i ==> validators@[j].address != address,
        decreases validators@.len() - i,
    {
        if validators[i].address == address {
            return true;
        }
        i = i + 1;
    }
    false
}

/// Puts a validator at its place in a ranking, unless it is there already.
fn insert_ranked(ranking: &mut Vec<WeightedValidator>, validator: WeightedValidator)
    requires
        strictly_ranked(old(ranking)@),
    ensures
        strictly_ranked(final(ranking)@),
        final(ranking)@.to_set() == old(ranking)@.to_set().insert(validator),
        final(ranking)@.len() <= old(ranking)@.len() + 1,
{
    let mut at: usize = 0;
    while at < ranking.len() && ranking[at] < validator
        invariant
            at <= ranking@.len(),
            ranking@ == old(ranking)@,
            forall|j: int| 0 <= j < at ==> (#[trigger] ranking@[j]).ranks_below(validator),
        decreases ranking@.len() - at,
    {
        at = at + 1;
    }
    let ghost before = ranking@;
    if at < ranking.len() && ranking[at] == validator {
        assert(before.to_set() =~= before.to_set().insert(validator)) by {
            assert(before.contains(before[at as int]));
        }
    } else {
        ranking.insert(at, validator);
        proof {
            let after = ranking@;
            before.insert_ensures(at as int, validator);
            assert forall|i: int, j: int| 0 <= i < j < after.len() implies (
            #[trigger] after[i]).ranks_below(#[trigger] after[j]) by {
                if j < at {
                    assert(after[i] == before[i] && after[j] == before[j]);
                } else if j == at {
                    assert(after[i] == before[i]);
                } else if i == at {
                    assert(after[j] == before[j - 1]);
                    assert(validator.ranks_below(before[at as int]));
                    if j - 1 > at {
                        assert(before[at as int].ranks_below(before[j - 1]));
                    }
                } else if i < at {
                    assert(after[i] == before[i] && after[j] == before[j - 1]);
                } else {
                    assert(after[i] == before[i - 1] && after[j] == before[j - 1]);
                }
            }
            assert(after.to_set() =~= before.to_set().insert(validator)) by {
                assert forall|v: WeightedValidator|
                    after.to_set().contains(v) <==> before.to_set().insert(validator).contains(
                        v,
                    ) by {
                    if after.contains(v) {
                        let k = choose|k: int| 0 <= k < after.len() && after[k] == v;
                        if k < at {
                            assert(before[k] == v);
                        } else if k > at {
                            assert(before[k - 1] == v);
                        }
                    }
                    if before.contains(v) {
                        let k = choose|k: int| 0 <= k < before.len() && before[k] == v;
                        if k < at {
                            assert(after[k] == v);
                        } else {
                            assert(after[k + 1] == v);
                        }
                    }
                    assert(after[at as int] == validator);
                }
            }
        }
    }
}

/// What holds of every well-formed validator set: no validator is in both
/// sets, none is twice in one, and every active validator has at least the
/// stake of every inactive one.
pub proof fn lemma_validator_set_cut(set: ValidatorSet)
    requires
        set.wf(),
    ensures
        set.active@.to_set().disjoint(set.inactive@.to_set()),
        set.active@.no_duplicates(),
        set.inactive@.no_duplicates(),
        forall|a: int, i: int|
            0 <= a < set.active@.len() && 0 <= i < set.inactive@.len() ==> (
            #[trigger] set.inactive@[i]).bonded_stake <= (#[trigger] set.active@[a]).bonded_stake,
{
    let ranking = set.ranking();
    let cut = set.inactive@.len() as int;
    assert forall|a: int, i: int|
        0 <= a < set.active@.len() && 0 <= i < set.inactive@.len() implies (
    #[trigger] set.inactive@[i]).ranks_below(#[trigger] set.active@[a]) by {
        assert(ranking[i] == set.inactive@[i]);
        assert(ranking[cut + a] == set.active@[a]);
    }
    assert forall|a: int, b: int| 0 <= a < b < set.active@.len() implies set.active@[a]
        != set.active@[b] by {
        assert(ranking[cut + a] == set.active@[a]);
        assert(ranking[cut + b] == set.active@[b]);
        assert(ranking[cut + a].ranks_below(ranking[cut + b]));
    }
    assert forall|a: int, b: int| 0 <= a < b < set.inactive@.len() implies set.inactive@[a]
        != set.inactive@[b] by {
        assert(ranking[a] == set.inactive@[a]);
        assert(ranking[b] == set.inactive@[b]);
        assert(ranking[a].ranks_below(ranking[b]));
    }
    assert forall|v: WeightedValidator|
        !(set.active@.to_set().contains(v) && set.inactive@.to_set().contains(v)) by {
        if set.active@.contains(v) && set.inactive@.contains(v) {
            let a = choose|a: int| 0 <= a < set.active@.len() && set.active@[a] == v;
            let i = choose|i: int| 0 <= i < set.inactive@.len() && set.inactive@[i] == v;
            assert(set.inactive@[i].ranks_below(set.active@[a]));
        }
    }
}

/// A ranking is determined by the validators in it: two rankings of the same
/// validators are the same.
pub proof fn lemma_ranking_unique(one: Seq<WeightedValidator>, other: Seq<WeightedValidator>)
    requires
        strictly_ranked(one),
        strictly_ranked(other),
        one.to_set() == other.to_set(),
    ensures
        one == other,
    decreases one.len(),
{
    if one.len() == 0 {
        if other.len() > 0 {
            assert(other.to_set().contains(other[0]));
            assert(one.contains(other[0]));
        }
        assert(one =~= other);
    } else {
        let top = one.last();
        assert(one.to_set().contains(one[one.len() - 1]));
        assert(other.contains(top));
        let at = choose|i: int| 0 <= i < other.len() && other[i] == top;
        assert(at == other.len() - 1) by {
            if at < other.len() - 1 {
                let above = other[other.len() - 1];
                assert(top.ranks_below(above));
                assert(other.to_set().contains(other[other.len() - 1]));
                assert(one.contains(above));
                let i = choose|i: int| 0 <= i < one.len() && one[i] == above;
                if i < one.len() - 1 {
                    assert(one[i].ranks_below(one[one.len() - 1]));
                }
            }
        }
        let one_rest = one.drop_last();
        let other_rest = other.drop_last();
        assert forall|i: int, j: int| 0 <= i < j < one_rest.len() implies (
        #[trigger] one_rest[i]).ranks_below(#[trigger] one_rest[j]) by {
            assert(one_rest[i] == one[i] && one_rest[j] == one[j]);
        }
        assert forall|i: int, j: int| 0 <= i < j < other_rest.len() implies (
        #[trigger] other_rest[i]).ranks_below(#[trigger] other_rest[j]) by {
            assert(other_rest[i] == other[i] && other_rest[j] == other[j]);
        }
        assert forall|v: WeightedValidator|
            one_rest.to_set().contains(v) <==> other_rest.to_set().contains(v) by {
            if one_rest.contains(v) {
                let i = choose|i: int| 0 <= i < one_rest.len() && one_rest[i] == v;
                assert(one[i] == v);
                assert(one[i].ranks_below(one[one.len() - 1]));
                assert(one.to_set().contains(one[i]));
                assert(other.contains(v));
                let j = choose|j: int| 0 <= j < other.len() && other[j] == v;
                assert(other_rest[j] == v);
            }
            if other_rest.contains(v) {
                let j = choose|j: int| 0 <= j < other_rest.len() && other_rest[j] == v;
                assert(other[j] == v);
                assert(other[j].ranks_below(other[other.len() - 1]));
                assert(other.to_set().contains(other[j]));
                assert(one.contains(v));
                let i = choose|i: int| 0 <= i < one.len() && one[i] == v;
                assert(one_rest[i] == v);
            }
        }
        assert(one_rest.to_set() =~= other_rest.to_set());
        lemma_ranking_unique(one_rest, other_rest);
        assert(one =~= one_rest.push(top));
        assert(other =~= other_rest.push(top));
    }
}

/// The validator sets are determined by the candidates and the number of
/// slots, whatever the order in which the candidates were listed: two
/// well-formed sets of the same validators, each with all slots taken or no
/// validator left inactive, are the same.
pub proof fn lemma_validator_set_unique(one: ValidatorSet, other: ValidatorSet, slots: u64)
    requires
        one.wf(),
        other.wf(),
        one.ranking().to_set() == other.ranking().to_set(),
        one.active@.len() <= slots,
        other.active@.len() <= slots,
        one.active@.len() == slots || one.inactive@.len() == 0,
        other.active@.len() == slots || other.inactive@.len() == 0,
    ensures
        one.active@ == other.active@,
        one.inactive@ == other.inactive@,
{
    lemma_ranking_unique(one.ranking(), other.ranking());
    let ranking = one.ranking();
    assert(one.inactive@.len() + one.active@.len() == ranking.len());
    assert(other.inactive@.len() + other.active@.len() == ranking.len());
    assert(one.inactive@.len() == other.inactive@.len());
    assert(one.inactive@ =~= ranking.subrange(0, one.inactive@.len() as int));
    assert(other.inactive@ =~= ranking.subrange(0, other.inactive@.len() as int));
    assert(one.active@ =~= ranking.subrange(one.inactive@.len() as int, ranking.len() as int));
    assert(other.active@ =~= ranking.subrange(
        other.inactive@.len() as int,
        ranking.len() as int,
    ));
}

} // verus!
