//! A value that is the sum of the deltas recorded up to an epoch. The deltas
//! of the last epochs are held one by one, so that each can still be found
//! by its epoch; older ones may be collapsed into one total.

use crate::epoch::Epoch;
use crate::window::{
    count_until, entries_map, index_of_epoch, lemma_entries_map, lemma_insert_entry,
    lemma_update_entry, position_of, strictly_rising,
};
use vstd::prelude::*;

verus! {

/// What can be recorded as a delta: values that add up, with a zero, whose
/// addition says when the sum cannot be held.
pub trait Delta: Sized {
    /// The mathematical value that a delta stands for.
    type Amount;

    /// The amount that `self` stands for.
    spec fn amount(&self) -> Self::Amount;

    /// Whether some delta stands for `amount`.
    spec fn representable(amount: Self::Amount) -> bool;

    /// The amount of the zero delta.
    spec fn zero_amount() -> Self::Amount;

    /// Whether the sum of two amounts can be held.
    spec fn addable(a: Self::Amount, b: Self::Amount) -> bool;

    /// The sum of two amounts that are addable.
    spec fn add_amounts(a: Self::Amount, b: Self::Amount) -> Self::Amount;

    /// Every delta stands for a representable amount.
    proof fn lemma_amount_representable(&self)
        ensures
            Self::representable(self.amount()),
    ;

    /// Zero is representable, can be added to everything representable and
    /// changes nothing.
    proof fn lemma_zero_neutral(a: Self::Amount)
        ensures
            Self::representable(Self::zero_amount()),
            Self::representable(a) ==> Self::addable(Self::zero_amount(), a)
                && Self::add_amounts(Self::zero_amount(), a) == a,
    ;

    /// A sum that can be held is representable.
    proof fn lemma_sum_representable(a: Self::Amount, b: Self::Amount)
        requires
            Self::representable(a),
            Self::representable(b),
            Self::addable(a, b),
        ensures
            Self::representable(Self::add_amounts(a, b)),
    ;

    /// The zero delta.
    fn zero() -> (zero: Self)
        ensures
            zero.amount() == Self::zero_amount(),
    ;

    /// The sum of two deltas, or `None` where it cannot be held.
    fn checked_add(&self, other: &Self) -> (sum: Option<Self>)
        ensures
            sum is Some <==> Self::addable(self.amount(), other.amount()),
            sum matches Some(s) ==> s.amount() == Self::add_amounts(self.amount(), other.amount()),
    ;
}

/// A change of a token amount, up or down.
impl Delta for i128 {
    type Amount = int;

    open spec fn amount(&self) -> int {
        *self as int
    }

    open spec fn representable(amount: int) -> bool {
        i128::MIN <= amount <= i128::MAX
    }

    open spec fn zero_amount() -> int {
        0
    }

    open spec fn addable(a: int, b: int) -> bool {
        i128::MIN <= a + b <= i128::MAX
    }

    open spec fn add_amounts(a: int, b: int) -> int {
        a + b
    }

    proof fn lemma_amount_representable(&self) {
    }

    proof fn lemma_zero_neutral(a: int) {
    }

    proof fn lemma_sum_representable(a: int, b: int) {
    }

    fn zero() -> (zero: i128) {
        0
    }

    fn checked_add(&self, other: &i128) -> (sum: Option<i128>) {
        i128::checked_add(*self, *other)
    }
}

/// Why a delta was not recorded, or deltas were not collapsed.
#[derive(Debug, Clone, Copy, PartialEq, Eq, Structural)]
pub enum DeltaError {
    /// A sum cannot be held.
    Overflow,
}

/// The sum of the deltas recorded up to an epoch.
///
/// The view is the map from epochs to the amounts recorded at them.
#[derive(Debug, Clone)]
pub struct EpochedDelta<Data> {
    unbonding_len: u64,
    entries: Vec<(u64, Data)>,
}

/// The epochs of `entries` with the amounts of their deltas.
pub open spec fn amounts<Data: Delta>(entries: Seq<(u64, Data)>) -> Seq<(u64, Data::Amount)> {
    Seq::new(entries.len(), |i: int| (entries[i].0, entries[i].1.amount()))
}

/// The deltas of all epochs up to `epoch` added up, from the earliest on.
pub open spec fn total_until<Data: Delta>(
    deltas: Map<u64, Data::Amount>,
    epoch: u64,
) -> Data::Amount
    decreases epoch,
{
    let before = if epoch == 0 {
        Data::zero_amount()
    } else {
        total_until::<Data>(deltas, (epoch - 1) as u64)
    };
    if deltas.contains_key(epoch) {
        Data::add_amounts(before, deltas[epoch])
    } else {
        before
    }
}

/// Whether the deltas of all epochs up to `epoch` can be added up, from the
/// earliest on, with every sum on the way one that can be held.
pub open spec fn summable_until<Data: Delta>(deltas: Map<u64, Data::Amount>, epoch: u64) -> bool
    decreases epoch,
{
    &&& epoch > 0 ==> summable_until::<Data>(deltas, (epoch - 1) as u64)
    &&& deltas.contains_key(epoch) ==> Data::addable(
        if epoch == 0 {
            Data::zero_amount()
        } else {
            total_until::<Data>(deltas, (epoch - 1) as u64)
        },
        deltas[epoch],
    )
}

/// The first `n` of `amounts` added up, from the first on.
pub open spec fn seq_total<Data: Delta>(amounts: Seq<(u64, Data::Amount)>, n: int) -> Data::Amount
    decreases n,
{
    if n <= 0 {
        Data::zero_amount()
    } else {
        Data::add_amounts(seq_total::<Data>(amounts, n - 1), amounts[n - 1].1)
    }
}

/// Whether the first `n` of `amounts` can be added up, from the first on.
pub open spec fn seq_summable<Data: Delta>(amounts: Seq<(u64, Data::Amount)>, n: int) -> bool
    decreases n,
{
    n > 0 ==> seq_summable::<Data>(amounts, n - 1) && Data::addable(
        seq_total::<Data>(amounts, n - 1),
        amounts[n - 1].1,
    )
}

/// Adding up the entries up to an epoch one after the other is adding up the
/// map epoch by epoch.
pub proof fn lemma_fold_matches<Data: Delta>(
    amounts: Seq<(u64, Data::Amount)>,
    n: int,
    epoch: u64,
)
    requires
        strictly_rising(amounts),
        0 <= n <= amounts.len(),
        forall|j: int| 0 <= j < n ==> (#[trigger] amounts[j]).0 <= epoch,
        forall|j: int| n <= j < amounts.len() ==> (#[trigger] amounts[j]).0 > epoch,
    ensures
        total_until::<Data>(entries_map(amounts), epoch) == seq_total::<Data>(amounts, n),
        summable_until::<Data>(entries_map(amounts), epoch) == seq_summable::<Data>(amounts, n),
    decreases epoch,
{
    let m = entries_map(amounts);
    lemma_entries_map(amounts);
    if m.contains_key(epoch) {
        let i = index_of_epoch(amounts, epoch);
        assert(i < n) by {
            if i >= n {
                assert(amounts[i].0 > epoch);
            }
        }
        assert(i == n - 1) by {
            if i < n - 1 {
                assert(amounts[i].0 < amounts[n - 1].0);
            }
        }
        if epoch > 0 {
            assert forall|j: int| 0 <= j < n - 1 implies (#[trigger] amounts[j]).0 <= (epoch
                - 1) as u64 by {
                assert(amounts[j].0 < amounts[n - 1].0);
            }
            assert forall|j: int| n - 1 <= j < amounts.len() implies (#[trigger] amounts[j]).0 > (
            epoch - 1) as u64 by {
                if j > n - 1 {
                    assert(amounts[n - 1].0 < amounts[j].0);
                }
            }
            lemma_fold_matches::<Data>(amounts, n - 1, (epoch - 1) as u64);
        } else {
            assert(n == 1) by {
                if n > 1 {
                    assert(amounts[0].0 < amounts[n - 1].0);
                }
            }
        }
        assert(m[epoch] == amounts[n - 1].1);
        assert(seq_summable::<Data>(amounts, 0));
        assert(seq_total::<Data>(amounts, 0) == Data::zero_amount());
        assert(seq_summable::<Data>(amounts, n) == (seq_summable::<Data>(amounts, n - 1)
            && Data::addable(seq_total::<Data>(amounts, n - 1), amounts[n - 1].1)));
        assert(seq_total::<Data>(amounts, n) == Data::add_amounts(
            seq_total::<Data>(amounts, n - 1),
            amounts[n - 1].1,
        ));
    } else {
        assert forall|j: int| 0 <= j < n implies (#[trigger] amounts[j]).0 < epoch by {
            assert(m.contains_key(amounts[j].0));
        }
        if epoch > 0 {
            lemma_fold_matches::<Data>(amounts, n, (epoch - 1) as u64);
        } else {
            assert(n == 0) by {
                if n > 0 {
                    assert(amounts[0].0 < epoch);
                }
            }
        }
    }
}

/// The epoch up to which deltas are collapsed at `current`: `unbonding_len`
/// epochs before it, or the zero epoch where that would lie before it.
pub open spec fn cutoff_at(current: u64, unbonding_len: u64) -> u64 {
    if current >= unbonding_len {
        (current - unbonding_len) as u64
    } else {
        0
    }
}

/// The deltas after those up to `cutoff` were collapsed: the later ones stay,
/// and the total of the others is recorded at `cutoff`. Nothing changes where
/// nothing is recorded up to `cutoff`.
pub open spec fn collapsed<Data: Delta>(deltas: Map<u64, Data::Amount>, cutoff: u64) -> Map<
    u64,
    Data::Amount,
> {
    if exists|k: u64| k <= cutoff && deltas.contains_key(k) {
        deltas.restrict(Set::new(|k: u64| k > cutoff)).insert(
            cutoff,
            total_until::<Data>(deltas, cutoff),
        )
    } else {
        deltas
    }
}

/// Putting one entry at `cutoff` in place of the first `count` entries, which
/// are those up to `cutoff`, leaves the later epochs in the map and writes
/// the entry at `cutoff`.
pub proof fn lemma_collapse_entries<Data>(
    before: Seq<(u64, Data)>,
    count: int,
    cutoff: u64,
    carried: Data,
)
    requires
        strictly_rising(before),
        0 <= count <= before.len(),
        forall|j: int| 0 <= j < count ==> (#[trigger] before[j]).0 <= cutoff,
        forall|j: int| count <= j < before.len() ==> (#[trigger] before[j]).0 > cutoff,
    ensures
        strictly_rising(seq![(cutoff, carried)] + before.subrange(count, before.len() as int)),
        entries_map(seq![(cutoff, carried)] + before.subrange(count, before.len() as int))
            == entries_map(before).restrict(Set::new(|k: u64| k > cutoff)).insert(cutoff, carried),
{
    let later = before.subrange(count, before.len() as int);
    let after = seq![(cutoff, carried)] + later;
    assert forall|i: int, j: int| 0 <= i < j < after.len() implies (#[trigger] after[i]).0 < (
    #[trigger] after[j]).0 by {
        assert(after[j] == before[count + j - 1]);
        if i > 0 {
            assert(after[i] == before[count + i - 1]);
        }
    }
    lemma_entries_map(before);
    lemma_entries_map(after);
    let expected = entries_map(before).restrict(Set::new(|k: u64| k > cutoff)).insert(
        cutoff,
        carried,
    );
    assert forall|k: u64| entries_map(after).contains_key(k) <==> expected.contains_key(k) by {
        if entries_map(after).contains_key(k) && k != cutoff {
            let i = index_of_epoch(after, k);
            assert(i > 0);
            assert(before[count + i - 1].0 == k);
        }
        if expected.contains_key(k) && k != cutoff {
            let i = index_of_epoch(before, k);
            assert(i >= count) by {
                if i < count {
                    assert(before[i].0 <= cutoff);
                }
            }
            assert(after[i - count + 1].0 == k);
        }
        assert(after[0].0 == cutoff);
    }
    assert forall|k: u64| entries_map(after).contains_key(k) implies entries_map(after)[k]
        == expected[k] by {
        let i = index_of_epoch(after, k);
        if i > 0 {
            assert(after[i] == before[count + i - 1]);
        }
    }
    assert(entries_map(after) =~= expected);
}

/// Where nothing is recorded up to `epoch`, the total up to it is zero.
pub proof fn lemma_nothing_recorded<Data: Delta>(deltas: Map<u64, Data::Amount>, epoch: u64)
    requires
        forall|k: u64| k <= epoch ==> !deltas.contains_key(k),
    ensures
        total_until::<Data>(deltas, epoch) == Data::zero_amount(),
        summable_until::<Data>(deltas, epoch),
    decreases epoch,
{
    if epoch > 0 {
        lemma_nothing_recorded::<Data>(deltas, (epoch - 1) as u64);
    }
}

/// A total that can be added up is representable.
pub proof fn lemma_total_representable<Data: Delta>(deltas: Map<u64, Data::Amount>, epoch: u64)
    requires
        forall|k: u64| deltas.contains_key(k) ==> Data::representable(#[trigger] deltas[k]),
        summable_until::<Data>(deltas, epoch),
    ensures
        Data::representable(total_until::<Data>(deltas, epoch)),
    decreases epoch,
{
    Data::lemma_zero_neutral(Data::zero_amount());
    if epoch > 0 {
        lemma_total_representable::<Data>(deltas, (epoch - 1) as u64);
    }
    if deltas.contains_key(epoch) {
        let before = if epoch == 0 {
            Data::zero_amount()
        } else {
            total_until::<Data>(deltas, (epoch - 1) as u64)
        };
        Data::lemma_sum_representable(before, deltas[epoch]);
    }
}

/// Collapsing changes no sum that can still be asked for: from the epoch of
/// the collapse on, every total is what it was, and can be added up exactly
/// where it could before.
pub proof fn lemma_collapse_keeps_totals<Data: Delta>(
    deltas: Map<u64, Data::Amount>,
    cutoff: u64,
    epoch: u64,
)
    requires
        forall|k: u64| deltas.contains_key(k) ==> Data::representable(#[trigger] deltas[k]),
        summable_until::<Data>(deltas, cutoff),
        cutoff <= epoch,
    ensures
        total_until::<Data>(collapsed::<Data>(deltas, cutoff), epoch) == total_until::<Data>(
            deltas,
            epoch,
        ),
        summable_until::<Data>(collapsed::<Data>(deltas, cutoff), epoch) == summable_until::<Data>(
            deltas,
            epoch,
        ),
    decreases epoch,
{
    let after = collapsed::<Data>(deltas, cutoff);
    if exists|k: u64| k <= cutoff && deltas.contains_key(k) {
        if epoch == cutoff {
            let total = total_until::<Data>(deltas, cutoff);
            lemma_total_representable::<Data>(deltas, cutoff);
            Data::lemma_zero_neutral(total);
            assert(after.contains_key(cutoff) && after[cutoff] == total);
            if cutoff > 0 {
                lemma_nothing_recorded::<Data>(after, (cutoff - 1) as u64);
            }
        } else {
            lemma_collapse_keeps_totals::<Data>(deltas, cutoff, (epoch - 1) as u64);
            assert(after.contains_key(epoch) == deltas.contains_key(epoch));
            if after.contains_key(epoch) {
                assert(after[epoch] == deltas[epoch]);
            }
            if !summable_until::<Data>(deltas, (epoch - 1) as u64) {
            }
        }
    }
}

/// Recording a delta changes no total of an earlier epoch.
pub proof fn lemma_record_keeps_earlier<Data: Delta>(
    deltas: Map<u64, Data::Amount>,
    at: u64,
    amount: Data::Amount,
    epoch: u64,
)
    requires
        epoch < at,
    ensures
        total_until::<Data>(deltas.insert(at, amount), epoch) == total_until::<Data>(deltas, epoch),
        summable_until::<Data>(deltas.insert(at, amount), epoch) == summable_until::<Data>(
            deltas,
            epoch,
        ),
    decreases epoch,
{
    if epoch > 0 {
        lemma_record_keeps_earlier::<Data>(deltas, at, amount, (epoch - 1) as u64);
    }
}

/// Recording a change of a token amount adds it to every total from its
/// epoch on.
pub proof fn lemma_change_adds_to_later_totals(
    deltas: Map<u64, int>,
    at: u64,
    change: int,
    epoch: u64,
)
    requires
        at <= epoch,
    ensures
        total_until::<i128>(
            deltas.insert(
                at,
                if deltas.contains_key(at) {
                    deltas[at] + change
                } else {
                    change
                },
            ),
            epoch,
        ) == total_until::<i128>(deltas, epoch) + change,
    decreases epoch,
{
    let after = deltas.insert(
        at,
        if deltas.contains_key(at) {
            deltas[at] + change
        } else {
            change
        },
    );
    if epoch == at {
        if epoch > 0 {
            lemma_record_keeps_earlier::<i128>(
                deltas,
                at,
                if deltas.contains_key(at) {
                    deltas[at] + change
                } else {
                    change
                },
                (epoch - 1) as u64,
            );
        }
    } else {
        lemma_change_adds_to_later_totals(deltas, at, change, (epoch - 1) as u64);
    }
}

impl<Data: Delta> View for EpochedDelta<Data> {
    type V = Map<u64, Data::Amount>;

    closed spec fn view(&self) -> Map<u64, Data::Amount> {
        entries_map(amounts(self.entries@))
    }
}

impl<Data: Delta> EpochedDelta<Data> {
    /// Whether the container is as every operation leaves it: the deltas are
    /// held in the order of their epochs.
    pub closed spec fn wf(&self) -> bool {
        strictly_rising(self.entries@)
    }

    /// The number of epochs for which a delta stays on its own.
    pub closed spec fn offset(&self) -> u64 {
        self.unbonding_len
    }

    /// The number of deltas that are held.
    pub closed spec fn held(&self) -> nat {
        self.entries@.len()
    }

    /// A container that holds nothing yet.
    pub fn new(unbonding_len: u64) -> (made: EpochedDelta<Data>)
        ensures
            made.wf(),
            made@ == Map::<u64, Data::Amount>::empty(),
            made.offset() == unbonding_len,
            made.held() == 0,
    {
        let made = EpochedDelta { unbonding_len, entries: Vec::new() };
        assert(made@ =~= Map::<u64, Data::Amount>::empty());
        made
    }

    /// The number of epochs for which a delta stays on its own.
    pub fn unbonding_len(&self) -> (len: u64)
        ensures
            len == self.offset(),
    {
        self.unbonding_len
    }

    /// The number of deltas that are held.
    pub fn len(&self) -> (held: usize)
        ensures
            held == self.held(),
    {
        self.entries.len()
    }

    /// Records `delta` at `epoch`: adds it to what is recorded there, or
    /// records it as it is where nothing is. Where the sum cannot be held,
    /// nothing changes.
    pub fn add_at(&mut self, delta: Data, epoch: Epoch) -> (done: Result<(), DeltaError>)
        requires
            old(self).wf(),
        ensures
            final(self).wf(),
            final(self).offset() == old(self).offset(),
            final(self).held() <= old(self).held() + 1,
            match done {
                Ok(()) => final(self)@ == old(self)@.insert(
                    epoch.0,
                    if old(self)@.contains_key(epoch.0) {
                        Data::add_amounts(old(self)@[epoch.0], delta.amount())
                    } else {
                        delta.amount()
                    },
                ) && (old(self)@.contains_key(epoch.0) ==> Data::addable(
                    old(self)@[epoch.0],
                    delta.amount(),
                )),
                Err(_) => final(self)@ == old(self)@ && old(self)@.contains_key(epoch.0)
                    && !Data::addable(old(self)@[epoch.0], delta.amount()),
            },
    {
        let at = position_of(&self.entries, epoch.0);
        let ghost before = self.entries@;
        proof {
            Self::lemma_amounts_rising(before);
            lemma_entries_map(amounts(before));
        }
        if at < self.entries.len() && self.entries[at].0 == epoch.0 {
            assert(amounts(before)[at as int].0 == epoch.0);
            match self.entries[at].1.checked_add(&delta) {
                Some(sum) => {
                    proof {
                        lemma_update_entry(amounts(before), at as int, sum.amount());
                        assert(amounts(before.update(at as int, (epoch.0, sum))) =~= amounts(
                            before,
                        ).update(at as int, (epoch.0, sum.amount())));
                        lemma_update_entry(before, at as int, sum);
                    }
                    self.entries[at] = (epoch.0, sum);
                    Ok(())
                },
                None => Err(DeltaError::Overflow),
            }
        } else {
            proof {
                assert(!self@.contains_key(epoch.0)) by {
                    if self@.contains_key(epoch.0) {
                        let i = index_of_epoch(amounts(before), epoch.0);
                        assert(before[i].0 == epoch.0);
                    }
                }
                assert forall|j: int| at <= j < before.len() implies (#[trigger] before[j]).0
                    > epoch.0 by {
                    if j > at {
                        assert(before[at as int].0 < before[j].0);
                    }
                }
                assert forall|j: int| 0 <= j < at implies (#[trigger] amounts(before)[j]).0
                    < epoch.0 by {
                    assert(before[j].0 < epoch.0);
                }
                assert forall|j: int| at <= j < before.len() implies (#[trigger] amounts(
                    before,
                )[j]).0 > epoch.0 by {
                    assert(before[j].0 > epoch.0);
                }
                lemma_insert_entry(amounts(before), at as int, epoch.0, delta.amount());
                assert(amounts(before.insert(at as int, (epoch.0, delta))) =~= amounts(
                    before,
                ).insert(at as int, (epoch.0, delta.amount())));
                lemma_insert_entry(before, at as int, epoch.0, delta);
            }
            self.entries.insert(at, (epoch.0, delta));
            Ok(())
        }
    }

    /// The sum of all the deltas recorded up to `epoch`, added up from the
    /// earliest on, or `None` where a sum on the way cannot be held.
    pub fn sum_until(&self, epoch: Epoch) -> (sum: Option<Data>)
        requires
            self.wf(),
        ensures
            sum is Some <==> summable_until::<Data>(self@, epoch.0),
            sum matches Some(total) ==> total.amount() == total_until::<Data>(self@, epoch.0),
    {
        let count = count_until(&self.entries, epoch.0);
        proof {
            Self::lemma_amounts_rising(self.entries@);
            assert forall|j: int| 0 <= j < count implies (#[trigger] amounts(self.entries@)[j]).0
                <= epoch.0 by {
                assert(self.entries@[j].0 <= epoch.0);
            }
            assert forall|j: int| count <= j < self.entries@.len() implies (#[trigger] amounts(
                self.entries@,
            )[j]).0 > epoch.0 by {
                assert(self.entries@[j].0 > epoch.0);
            }
            lemma_fold_matches::<Data>(amounts(self.entries@), count as int, epoch.0);
        }
        self.fold_first(count)
    }

    /// Collapses the deltas that are older than the unbonding length at
    /// `current_epoch` into one total: all that are recorded
    /// `unbonding_len` epochs before `current_epoch` or earlier give way to
    /// their sum, recorded at that epoch. Where they cannot be added up,
    /// nothing changes.
    pub fn collapse(&mut self, current_epoch: Epoch) -> (done: Result<(), DeltaError>)
        requires
            old(self).wf(),
        ensures
            final(self).wf(),
            final(self).offset() == old(self).offset(),
            final(self).held() <= old(self).held(),
            match done {
                Ok(()) => summable_until::<Data>(
                    old(self)@,
                    cutoff_at(current_epoch.0, old(self).offset()),
                ) && final(self)@ == collapsed::<Data>(
                    old(self)@,
                    cutoff_at(current_epoch.0, old(self).offset()),
                ),
                Err(_) => final(self)@ == old(self)@ && !summable_until::<Data>(
                    old(self)@,
                    cutoff_at(current_epoch.0, old(self).offset()),
                ),
            },
    {
        let cutoff: u64 = if current_epoch.0 >= self.unbonding_len {
            current_epoch.0 - self.unbonding_len
        } else {
            0
        };
        let ghost before = self.entries@;
        let count = count_until(&self.entries, cutoff);
        proof {
            Self::lemma_amounts_rising(before);
            lemma_entries_map(amounts(before));
            assert forall|j: int| 0 <= j < count implies (#[trigger] amounts(before)[j]).0
                <= cutoff by {
                assert(before[j].0 <= cutoff);
            }
            assert forall|j: int| count <= j < before.len() implies (#[trigger] amounts(
                before,
            )[j]).0 > cutoff by {
                assert(before[j].0 > cutoff);
            }
            lemma_fold_matches::<Data>(amounts(before), count as int, cutoff);
        }
        if count == 0 {
            proof {
                assert forall|k: u64| k <= cutoff implies !self@.contains_key(k) by {
                    if self@.contains_key(k) {
                        let i = index_of_epoch(amounts(before), k);
                        assert(amounts(before)[i].0 > cutoff);
                    }
                }
                assert(seq_summable::<Data>(amounts(before), 0));
            }
            return Ok(());
        }
        match self.fold_first(count) {
            None => Err(DeltaError::Overflow),
            Some(carried) => {
                proof {
                    assert(self@.contains_key(amounts(before)[0].0));
                    lemma_collapse_entries(
                        amounts(before),
                        count as int,
                        cutoff,
                        carried.amount(),
                    );
                    lemma_collapse_entries(before, count as int, cutoff, carried);
                    assert(amounts(seq![(cutoff, carried)] + before.subrange(
                        count as int,
                        before.len() as int,
                    )) =~= seq![(cutoff, carried.amount())] + amounts(before).subrange(
                        count as int,
                        before.len() as int,
                    ));
                }
                let mut later = self.entries.split_off(count);
                let mut kept: Vec<(u64, Data)> = Vec::new();
                kept.push((cutoff, carried));
                kept.append(&mut later);
                assert(kept@ =~= seq![(cutoff, carried)] + before.subrange(
                    count as int,
                    before.len() as int,
                ));
                self.entries = kept;
                Ok(())
            },
        }
    }

    /// The first `count` deltas added up, from the first on.
    fn fold_first(&self, count: usize) -> (sum: Option<Data>)
        requires
            count <= self.entries@.len(),
        ensures
            sum is Some <==> seq_summable::<Data>(amounts(self.entries@), count as int),
            sum matches Some(total) ==> total.amount() == seq_total::<Data>(
                amounts(self.entries@),
                count as int,
            ),
    {
        let mut total = Data::zero();
        let mut i: usize = 0;
        while i < count
            invariant
                i <= count <= self.entries@.len(),
                seq_summable::<Data>(amounts(self.entries@), i as int),
                total.amount() == seq_total::<Data>(amounts(self.entries@), i as int),
            decreases count - i,
        {
            assert(amounts(self.entries@)[i as int].1 == self.entries@[i as int].1.amount());
            match total.checked_add(&self.entries[i].1) {
                Some(sum) => {
                    total = sum;
                },
                None => {
                    proof {
                        Self::lemma_not_summable(amounts(self.entries@), i + 1, count as int);
                    }
                    return None;
                },
            }
            i = i + 1;
        }
        Some(total)
    }

    /// Where the first entries cannot be added up, no more of them can.
    proof fn lemma_not_summable(amounts: Seq<(u64, Data::Amount)>, n: int, more: int)
        requires
            0 <= n <= more,
            !seq_summable::<Data>(amounts, n),
        ensures
            !seq_summable::<Data>(amounts, more),
        decreases more - n,
    {
        if n < more {
            Self::lemma_not_summable(amounts, n, more - 1);
        }
    }

    /// The amounts of entries in rising order are in rising order.
    proof fn lemma_amounts_rising(entries: Seq<(u64, Data)>)
        requires
            strictly_rising(entries),
        ensures
            strictly_rising(amounts(entries)),
    {
        assert forall|i: int, j: int| 0 <= i < j < amounts(entries).len() implies (
        #[trigger] amounts(entries)[i]).0 < (#[trigger] amounts(entries)[j]).0 by {
            assert(entries[i].0 < entries[j].0);
        }
    }
}

} // verus!
