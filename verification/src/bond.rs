//! Bonds and unbonds: per (source, validator) pair, the epoch-tagged token
//! amounts that were bonded and withdrawn.

use crate::address::Address;
use crate::amounts::{
    amount_at, lemma_merged_map_associates, lemma_merged_map_commutes, lemma_merged_map_sum,
    lemma_pairs_sum, lemma_walk_lists_map, map_sum, maps_mergeable, merged_map, pairs_sum,
};
use crate::epoched_delta::Delta;
use crate::text::{decimal_digits, decimal_string};
use std::collections::BTreeMap;
use std::collections::HashMap;
use vstd::prelude::*;
use vstd::std_specs::iter::IteratorSpec;

verus! {

/// Merges the amounts of `from` into `into`, epoch by epoch: adds to what is
/// there, or inserts. Gives up, and says so, where an amount would leave
/// `u64`; `into` is then left as far as the merge had come.
fn merge_by_epoch(into: &mut HashMap<u64, u64>, from: &HashMap<u64, u64>) -> (fits: bool)
    ensures
        fits == maps_mergeable(old(into)@, from@),
        fits ==> final(into)@ == merged_map(old(into)@, from@),
{
    broadcast use vstd::std_specs::hash::group_hash_axioms;

    let ghost a = into@;
    let ghost b = from@;
    let ghost pairs = from.iter().remaining().unref();
    let ghost mut seen: int = 0;
    let ghost mut done: Map<u64, u64> = Map::empty();
    proof {
        assert(merged_map(a, done) =~= a);
    }
    for (epoch, amount) in it: from.iter()
        invariant
            a == old(into)@,
            b == from@,
            it.seq().unref() == pairs,
            seen == it.index(),
            pairs.no_duplicates(),
            pairs.to_set() == b.kv_pairs(),
            forall|j: int| 0 <= j < seen ==> done.contains_key(#[trigger] pairs[j].0),
            forall|k: u64| #[trigger] done.contains_key(k) ==> b.contains_key(k) && b[k] == done[k],
            forall|j: int| seen <= j < pairs.len() ==> !done.contains_key(#[trigger] pairs[j].0),
            forall|k: u64| #[trigger] done.contains_key(k) ==> amount_at(a, k) + amount_at(b, k)
                <= u64::MAX,
            into@ == merged_map(a, done),
    {
        proof {
            lemma_walk_lists_map(pairs, b);
        }
        assert(pairs[seen] == (*epoch, *amount));
        assert(b.contains_key(pairs[seen].0) && b[pairs[seen].0] == pairs[seen].1);
        assert(!done.contains_key(pairs[seen].0));
        // Add or insert
        let total = match into.get(epoch) {
            Some(value) => match value.checked_add(*amount) {
                Some(total) => total,
                None => {
                    assert(amount_at(a, *epoch) + amount_at(b, *epoch) > u64::MAX);
                    return false;
                },
            },
            None => *amount,
        };
        into.insert(*epoch, total);
        proof {
            assert(into@ =~= merged_map(a, done.insert(*epoch, *amount)));
            done = done.insert(*epoch, *amount);
            seen = seen + 1;
        }
    }
    proof {
        lemma_walk_lists_map(pairs, b);
        assert forall|k: u64| #[trigger] b.contains_key(k) implies done.contains_key(k) by {
            assert(pairs.contains((k, b[k])));
            let j = choose|j: int| 0 <= j < pairs.len() && pairs[j] == (k, b[k]);
            assert(done.contains_key(pairs[j].0));
        }
        assert(done =~= b);
        assert forall|k: u64| #[trigger] amount_at(a, k) + amount_at(b, k) <= u64::MAX by {
            if b.contains_key(k) {
                assert(done.contains_key(k));
            }
        }
    }
    true
}

/// Merges the amounts of `from` into `into`, key by key: adds to what is
/// there, or inserts. Gives up, and says so, where an amount would leave
/// `u64`; `into` is then left as far as the merge had come.
fn merge_by_epochs(into: &mut BTreeMap<(u64, u64), u64>, from: &BTreeMap<(u64, u64), u64>) -> (fits:
    bool)
    ensures
        fits == maps_mergeable(old(into)@, from@),
        fits ==> final(into)@ == merged_map(old(into)@, from@),
{
    broadcast use vstd::std_specs::btree::group_btree_axioms;

    proof {
        lemma_epoch_pairs_ordered();
    }
    let ghost a = into@;
    let ghost b = from@;
    let ghost pairs = from.iter().remaining().unref();
    let ghost mut seen: int = 0;
    let ghost mut done: Map<(u64, u64), u64> = Map::empty();
    proof {
        assert(merged_map(a, done) =~= a);
    }
    for (epochs, amount) in it: from.iter()
        invariant
            a == old(into)@,
            b == from@,
            it.seq().unref() == pairs,
            seen == it.index(),
            pairs.no_duplicates(),
            pairs.to_set() == b.kv_pairs(),
            forall|j: int| 0 <= j < seen ==> done.contains_key(#[trigger] pairs[j].0),
            forall|k: (u64, u64)| #[trigger]
                done.contains_key(k) ==> b.contains_key(k) && b[k] == done[k],
            forall|j: int| seen <= j < pairs.len() ==> !done.contains_key(#[trigger] pairs[j].0),
            forall|k: (u64, u64)| #[trigger]
                done.contains_key(k) ==> amount_at(a, k) + amount_at(b, k) <= u64::MAX,
            into@ == merged_map(a, done),
    {
        proof {
            lemma_epoch_pairs_ordered();
            lemma_walk_lists_map(pairs, b);
        }
        assert(pairs[seen] == (*epochs, *amount));
        assert(b.contains_key(pairs[seen].0) && b[pairs[seen].0] == pairs[seen].1);
        assert(!done.contains_key(pairs[seen].0));
        // Add or insert
        let total = match into.get(epochs) {
            Some(value) => match value.checked_add(*amount) {
                Some(total) => total,
                None => {
                    assert(amount_at(a, *epochs) + amount_at(b, *epochs) > u64::MAX);
                    return false;
                },
            },
            None => *amount,
        };
        into.insert(*epochs, total);
        proof {
            assert(into@ =~= merged_map(a, done.insert(*epochs, *amount)));
            done = done.insert(*epochs, *amount);
            seen = seen + 1;
        }
    }
    proof {
        lemma_walk_lists_map(pairs, b);
        assert forall|k: (u64, u64)| #[trigger] b.contains_key(k) implies done.contains_key(k) by {
            assert(pairs.contains((k, b[k])));
            let j = choose|j: int| 0 <= j < pairs.len() && pairs[j] == (k, b[k]);
            assert(done.contains_key(pairs[j].0));
        }
        assert(done =~= b);
        assert forall|k: (u64, u64)| #[trigger]
            amount_at(a, k) + amount_at(b, k) <= u64::MAX by {
            if b.contains_key(k) {
                assert(done.contains_key(k));
            }
        }
    }
    true
}

/// Pairs of epoch numbers are ordered as std orders tuples, which is what an
/// ordered map keyed by them goes by.
proof fn lemma_epoch_pairs_ordered()
    ensures
        vstd::std_specs::btree::key_obeys_cmp_spec::<(u64, u64)>(),
        vstd::laws_cmp::obeys_cmp::<(u64, u64)>(),
{
    broadcast use vstd::std_specs::btree::group_btree_axioms;
    broadcast use vstd::laws_cmp::group_laws_cmp;

}

/// ID of a bond and/or an unbond.
#[derive(Debug, Clone, Copy, PartialEq, Eq, PartialOrd, Ord, Hash, Structural)]
pub struct BondId {
    /// (Un)bond's source address is the owner of the bonded tokens.
    pub source: Address,
    /// (Un)bond's validator address.
    pub validator: Address,
}

impl BondId {
    /// The text that `source` and `validator` are shown as.
    pub open spec fn spec_to_string(&self) -> Seq<char> {
        "{source: "@ + decimal_digits(self.source as nat) + ", validator: "@ + decimal_digits(
            self.validator as nat,
        ) + "}"@
    }

    /// Shows the pair as `{source: <source>, validator: <validator>}`.
    pub fn to_string(&self) -> (text: String)
        ensures
            text@ == self.spec_to_string(),
    {
        let source = decimal_string(self.source);
        let validator = decimal_string(self.validator);
        String::from_str("{source: ").concat(source.as_str()).concat(", validator: ").concat(
            validator.as_str(),
        ).concat("}")
    }
}

/// What a [`Bond`] holds, as mathematical values.
pub ghost struct BondAmounts {
    /// Bonded amounts by the epoch the bond was set for.
    pub pos_deltas: Map<u64, u64>,
    /// The total that was unbonded.
    pub neg_deltas: u64,
}

impl BondAmounts {
    /// The bonded amounts less what was unbonded.
    pub open spec fn sum(self) -> int {
        map_sum(self.pos_deltas) - self.neg_deltas
    }

    /// Whether `self` and `other` can be merged without an amount leaving
    /// `u64`.
    pub open spec fn mergeable(self, other: BondAmounts) -> bool {
        &&& maps_mergeable(self.pos_deltas, other.pos_deltas)
        &&& self.neg_deltas + other.neg_deltas <= u64::MAX
    }

    /// The merge of two bonds: bonded amounts add up epoch by epoch, and so do
    /// the unbonded totals.
    pub open spec fn merge(self, other: BondAmounts) -> BondAmounts {
        BondAmounts {
            pos_deltas: merged_map(self.pos_deltas, other.pos_deltas),
            neg_deltas: (self.neg_deltas + other.neg_deltas) as u64,
        }
    }
}

/// Why the sum of a bond cannot be given.
#[derive(Debug, Clone, Copy, PartialEq, Eq, Structural)]
pub enum BondSumError {
    /// More was unbonded than was bonded.
    NegativeSum,
    /// The sum does not fit into the token amount type.
    Overflow,
}

/// A bond is either a validator's self-bond or a delegation from a regular
/// account to a validator.
#[derive(Debug, Clone)]
pub struct Bond {
    /// Bonded positive deltas. A key is the number of the epoch set for the
    /// bond. This is used in unbonding, where it's needed for slash epoch
    /// range check.
    pub pos_deltas: HashMap<u64, u64>,
    /// Unbonded negative deltas. The values are recorded as positive, but
    /// should be subtracted when we're finding the total for some given
    /// epoch.
    pub neg_deltas: u64,
}

impl View for Bond {
    type V = BondAmounts;

    open spec fn view(&self) -> BondAmounts {
        BondAmounts { pos_deltas: self.pos_deltas@, neg_deltas: self.neg_deltas }
    }
}

impl Bond {
    /// The sum of the bonded amounts, unbounded.
    fn pos_deltas_sum(&self) -> (total: u128)
        ensures
            total == map_sum(self.pos_deltas@),
    {
        broadcast use vstd::std_specs::hash::group_hash_axioms;

        let count = self.pos_deltas.len();
        let ghost pairs = self.pos_deltas.iter().remaining().unref();
        let ghost mut seen: int = 0;
        let mut total: u128 = 0;
        for (_epoch, amount) in it: self.pos_deltas.iter()
            invariant
                it.seq().unref() == pairs,
                pairs.len() == count,
                seen == it.index(),
                total <= u64::MAX * seen,
                total == pairs_sum(pairs.take(seen)),
        {
            assert(pairs.take(seen + 1).drop_last() =~= pairs.take(seen));
            total = total + (*amount as u128);
            proof {
                seen = seen + 1;
            }
        }
        proof {
            assert(pairs.take(seen) =~= pairs);
            lemma_walk_lists_map(pairs, self.pos_deltas@);
            lemma_pairs_sum(pairs, self.pos_deltas@);
        }
        total
    }

    /// Find the sum of all the bonds amounts, or say why there is none.
    pub fn checked_sum(&self) -> (total: Result<u64, BondSumError>)
        ensures
            match total {
                Ok(sum) => sum == self@.sum(),
                Err(BondSumError::NegativeSum) => self@.sum() < 0,
                Err(BondSumError::Overflow) => self@.sum() > u64::MAX,
            },
    {
        let bonded = self.pos_deltas_sum();
        if bonded < self.neg_deltas as u128 {
            Err(BondSumError::NegativeSum)
        } else {
            let left = bonded - self.neg_deltas as u128;
            if left > u64::MAX as u128 {
                Err(BondSumError::Overflow)
            } else {
                Ok(left as u64)
            }
        }
    }

    /// Find the sum of all the bonds amounts.
    pub fn sum(&self) -> (total: u64)
        requires
            0 <= self@.sum() <= u64::MAX,
        ensures
            total == self@.sum(),
    {
        let bonded = self.pos_deltas_sum();
        (bonded - self.neg_deltas as u128) as u64
    }
}

impl core::ops::Add for Bond {
    type Output = Bond;

    /// Merges two bonds: bonded amounts add up epoch by epoch (an epoch that
    /// only one side has is taken over as it is), and so do the unbonded
    /// totals.
    fn add(self, rhs: Bond) -> (sum: Bond)
        ensures
            sum@ == self@.merge(rhs@),
    {
        let mut merged = self;
        let fits = merge_by_epoch(&mut merged.pos_deltas, &rhs.pos_deltas);
        assert(fits);
        merged.neg_deltas = merged.neg_deltas + rhs.neg_deltas;
        merged
    }
}

impl vstd::std_specs::ops::AddSpecImpl for Bond {
    /// The result is stated by `add` itself, over the views.
    open spec fn obeys_add_spec() -> bool {
        false
    }

    /// No amount may leave `u64` in the merge.
    open spec fn add_req(self, rhs: Bond) -> bool {
        self@.mergeable(rhs@)
    }

    open spec fn add_spec(self, rhs: Bond) -> Bond {
        arbitrary()
    }
}

impl Delta for Bond {
    type Amount = BondAmounts;

    open spec fn amount(&self) -> BondAmounts {
        self@
    }

    open spec fn representable(amount: BondAmounts) -> bool {
        amount.pos_deltas.dom().finite()
    }

    open spec fn zero_amount() -> BondAmounts {
        BondAmounts { pos_deltas: Map::empty(), neg_deltas: 0 }
    }

    open spec fn addable(a: BondAmounts, b: BondAmounts) -> bool {
        a.mergeable(b)
    }

    open spec fn add_amounts(a: BondAmounts, b: BondAmounts) -> BondAmounts {
        a.merge(b)
    }

    proof fn lemma_amount_representable(&self) {
        broadcast use vstd::std_specs::hash::group_hash_axioms;

    }

    proof fn lemma_zero_neutral(a: BondAmounts) {
        let zero = Self::zero_amount();
        assert(zero.merge(a).pos_deltas =~= a.pos_deltas);
    }

    proof fn lemma_sum_representable(a: BondAmounts, b: BondAmounts) {
        lemma_merged_map_sum(a.pos_deltas, b.pos_deltas);
    }

    fn zero() -> (zero: Bond) {
        Bond { pos_deltas: HashMap::new(), neg_deltas: 0 }
    }

    /// The merge of two bonds, or `None` where an amount would leave `u64`.
    fn checked_add(&self, other: &Bond) -> (sum: Option<Bond>) {
        let mut pos_deltas: HashMap<u64, u64> = HashMap::new();
        let copied = merge_by_epoch(&mut pos_deltas, &self.pos_deltas);
        proof {
            assert(maps_mergeable(Map::<u64, u64>::empty(), self.pos_deltas@));
            assert(merged_map(Map::<u64, u64>::empty(), self.pos_deltas@) =~= self.pos_deltas@);
        }
        if !merge_by_epoch(&mut pos_deltas, &other.pos_deltas) {
            return None;
        }
        match self.neg_deltas.checked_add(other.neg_deltas) {
            Some(neg_deltas) => Some(Bond { pos_deltas, neg_deltas }),
            None => None,
        }
    }
}

impl core::default::Default for Bond {
    /// The bond that holds nothing.
    fn default() -> (empty: Bond)
        ensures
            empty@.pos_deltas == Map::<u64, u64>::empty(),
            empty@.neg_deltas == 0,
    {
        Bond { pos_deltas: HashMap::new(), neg_deltas: 0 }
    }
}

/// What an [`Unbond`] holds, as mathematical values.
pub ghost struct UnbondAmounts {
    /// Unbonded amounts by (epoch of the bond, epoch of unbonding).
    pub deltas: Map<(u64, u64), u64>,
}

impl UnbondAmounts {
    /// All the unbonded amounts together.
    pub open spec fn sum(self) -> int {
        map_sum(self.deltas)
    }

    /// Whether `self` and `other` can be merged without an amount leaving
    /// `u64`.
    pub open spec fn mergeable(self, other: UnbondAmounts) -> bool {
        maps_mergeable(self.deltas, other.deltas)
    }

    /// The merge of two unbonds: amounts add up key by key.
    pub open spec fn merge(self, other: UnbondAmounts) -> UnbondAmounts {
        UnbondAmounts { deltas: merged_map(self.deltas, other.deltas) }
    }
}

/// An unbond contains unbonded tokens from a validator's self-bond or a
/// delegation from a regular account to a validator.
#[derive(Debug, Clone)]
pub struct Unbond {
    /// A key is a pair of the epoch of the bond from which a unbond was
    /// created the epoch of unbonding. This is needed for slash epoch range
    /// check.
    pub deltas: BTreeMap<(u64, u64), u64>,
}

impl View for Unbond {
    type V = UnbondAmounts;

    open spec fn view(&self) -> UnbondAmounts {
        UnbondAmounts { deltas: self.deltas@ }
    }
}

impl Unbond {
    /// The sum of the unbonded amounts, unbounded.
    fn deltas_sum(&self) -> (total: u128)
        ensures
            total == map_sum(self.deltas@),
    {
        broadcast use vstd::std_specs::btree::group_btree_axioms;

        proof {
            lemma_epoch_pairs_ordered();
        }
        let count = self.deltas.len();
        let ghost pairs = self.deltas.iter().remaining().unref();
        let ghost mut seen: int = 0;
        let mut total: u128 = 0;
        for (_epochs, amount) in it: self.deltas.iter()
            invariant
                it.seq().unref() == pairs,
                pairs.len() == count,
                seen == it.index(),
                total <= u64::MAX * seen,
                total == pairs_sum(pairs.take(seen)),
        {
            assert(pairs.take(seen + 1).drop_last() =~= pairs.take(seen));
            total = total + (*amount as u128);
            proof {
                seen = seen + 1;
            }
        }
        proof {
            assert(pairs.take(seen) =~= pairs);
            lemma_walk_lists_map(pairs, self.deltas@);
            lemma_pairs_sum(pairs, self.deltas@);
        }
        total
    }

    /// Find the sum of all the unbonds amounts, or `None` where it does not
    /// fit into the token amount type.
    pub fn checked_sum(&self) -> (total: Option<u64>)
        ensures
            total matches Some(sum) ==> sum == self@.sum(),
            total is None <==> self@.sum() > u64::MAX,
    {
        let unbonded = self.deltas_sum();
        if unbonded > u64::MAX as u128 {
            None
        } else {
            Some(unbonded as u64)
        }
    }

    /// Find the sum of all the unbonds amounts.
    pub fn sum(&self) -> (total: u64)
        requires
            self@.sum() <= u64::MAX,
        ensures
            total == self@.sum(),
    {
        self.deltas_sum() as u64
    }
}

impl core::ops::Add for Unbond {
    type Output = Unbond;

    /// Merges two unbonds: amounts add up key by key, and a key that only one
    /// side has is taken over as it is.
    fn add(self, rhs: Unbond) -> (sum: Unbond)
        ensures
            sum@ == self@.merge(rhs@),
    {
        let mut merged = self;
        let fits = merge_by_epochs(&mut merged.deltas, &rhs.deltas);
        assert(fits);
        merged
    }
}

impl vstd::std_specs::ops::AddSpecImpl for Unbond {
    /// The result is stated by `add` itself, over the views.
    open spec fn obeys_add_spec() -> bool {
        false
    }

    /// No amount may leave `u64` in the merge.
    open spec fn add_req(self, rhs: Unbond) -> bool {
        self@.mergeable(rhs@)
    }

    open spec fn add_spec(self, rhs: Unbond) -> Unbond {
        arbitrary()
    }
}

impl Delta for Unbond {
    type Amount = UnbondAmounts;

    open spec fn amount(&self) -> UnbondAmounts {
        self@
    }

    open spec fn representable(amount: UnbondAmounts) -> bool {
        amount.deltas.dom().finite()
    }

    open spec fn zero_amount() -> UnbondAmounts {
        UnbondAmounts { deltas: Map::empty() }
    }

    open spec fn addable(a: UnbondAmounts, b: UnbondAmounts) -> bool {
        a.mergeable(b)
    }

    open spec fn add_amounts(a: UnbondAmounts, b: UnbondAmounts) -> UnbondAmounts {
        a.merge(b)
    }

    proof fn lemma_amount_representable(&self) {
        broadcast use vstd::std_specs::btree::group_btree_axioms;

    }

    proof fn lemma_zero_neutral(a: UnbondAmounts) {
        let zero = Self::zero_amount();
        assert(zero.merge(a).deltas =~= a.deltas);
    }

    proof fn lemma_sum_representable(a: UnbondAmounts, b: UnbondAmounts) {
        lemma_merged_map_sum(a.deltas, b.deltas);
    }

    fn zero() -> (zero: Unbond) {
        Unbond { deltas: BTreeMap::new() }
    }

    /// The merge of two unbonds, or `None` where an amount would leave `u64`.
    fn checked_add(&self, other: &Unbond) -> (sum: Option<Unbond>) {
        let mut deltas: BTreeMap<(u64, u64), u64> = BTreeMap::new();
        let copied = merge_by_epochs(&mut deltas, &self.deltas);
        proof {
            assert(maps_mergeable(Map::<(u64, u64), u64>::empty(), self.deltas@));
            assert(merged_map(Map::<(u64, u64), u64>::empty(), self.deltas@) =~= self.deltas@);
        }
        if !merge_by_epochs(&mut deltas, &other.deltas) {
            return None;
        }
        Some(Unbond { deltas })
    }
}

impl core::default::Default for Unbond {
    /// The unbond that holds nothing.
    fn default() -> (empty: Unbond)
        ensures
            empty@.deltas == Map::<(u64, u64), u64>::empty(),
    {
        Unbond { deltas: BTreeMap::new() }
    }
}

/// The merge of two bonds does not depend on their order.
pub proof fn lemma_bond_merge_commutes(a: BondAmounts, b: BondAmounts)
    requires
        a.mergeable(b),
    ensures
        b.mergeable(a),
        a.merge(b) == b.merge(a),
{
    lemma_merged_map_commutes(a.pos_deltas, b.pos_deltas);
}

/// Where three bonds can be merged, it does not matter which two are merged
/// first.
pub proof fn lemma_bond_merge_associates(a: BondAmounts, b: BondAmounts, c: BondAmounts)
    requires
        a.mergeable(b),
        a.merge(b).mergeable(c),
    ensures
        b.mergeable(c),
        a.mergeable(b.merge(c)),
        a.merge(b).merge(c) == a.merge(b.merge(c)),
{
    lemma_merged_map_associates(a.pos_deltas, b.pos_deltas, c.pos_deltas);
}

/// The merge of two unbonds does not depend on their order.
pub proof fn lemma_unbond_merge_commutes(a: UnbondAmounts, b: UnbondAmounts)
    requires
        a.mergeable(b),
    ensures
        b.mergeable(a),
        a.merge(b) == b.merge(a),
{
    lemma_merged_map_commutes(a.deltas, b.deltas);
}

/// Where three unbonds can be merged, it does not matter which two are
/// merged first.
pub proof fn lemma_unbond_merge_associates(a: UnbondAmounts, b: UnbondAmounts, c: UnbondAmounts)
    requires
        a.mergeable(b),
        a.merge(b).mergeable(c),
    ensures
        b.mergeable(c),
        a.mergeable(b.merge(c)),
        a.merge(b).merge(c) == a.merge(b.merge(c)),
{
    lemma_merged_map_associates(a.deltas, b.deltas, c.deltas);
}

/// Merging two unbonds adds up their sums.
pub proof fn lemma_unbond_merge_sum(a: UnbondAmounts, b: UnbondAmounts)
    requires
        a.deltas.dom().finite(),
        b.deltas.dom().finite(),
        a.mergeable(b),
    ensures
        a.merge(b).sum() == a.sum() + b.sum(),
{
    lemma_merged_map_sum(a.deltas, b.deltas);
}

/// Merging two bonds adds up their sums.
pub proof fn lemma_bond_merge_sum(a: BondAmounts, b: BondAmounts)
    requires
        a.pos_deltas.dom().finite(),
        b.pos_deltas.dom().finite(),
        a.mergeable(b),
    ensures
        a.merge(b).sum() == a.sum() + b.sum(),
{
    lemma_merged_map_sum(a.pos_deltas, b.pos_deltas);
}

} // verus!
