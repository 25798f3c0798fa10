//! A value whose changes take effect only a fixed number of epochs after
//! they were made.

use crate::epoch::Epoch;
use crate::window::{
    count_until, entries_map, latest_at, lemma_entries_map, lemma_insert_entry,
    lemma_latest_absent, lemma_latest_at, lemma_latest_found, lemma_skip_entries,
    lemma_update_entry, position_of, strictly_rising,
};
use vstd::prelude::*;

verus! {

/// A value that changes with the epochs. A value that is set at an epoch
/// takes effect `pipeline_len` epochs later, and stays in effect until the
/// next that was set takes effect.
///
/// The view is the schedule: the map from the epochs at which a value takes
/// effect to these values.
#[derive(Debug, Clone)]
pub struct Epoched<Data> {
    pipeline_len: u64,
    entries: Vec<(u64, Data)>,
}

/// The value that is in effect at `epoch` under `schedule`: the one that
/// took effect last, if any has.
pub open spec fn value_at<Data>(schedule: Map<u64, Data>, epoch: u64) -> Option<Data> {
    match latest_at(schedule, epoch) {
        Some(since) => Some(schedule[since]),
        None => None,
    }
}

impl<Data> View for Epoched<Data> {
    type V = Map<u64, Data>;

    closed spec fn view(&self) -> Map<u64, Data> {
        entries_map(self.entries@)
    }
}

impl<Data> Epoched<Data> {
    /// Whether the container is as every operation leaves it: the scheduled
    /// values are held in the order in which they take effect.
    pub closed spec fn wf(&self) -> bool {
        strictly_rising(self.entries@)
    }

    /// The number of epochs between setting a value and its taking effect.
    pub closed spec fn offset(&self) -> u64 {
        self.pipeline_len
    }

    /// The number of scheduled values that are held.
    pub closed spec fn held(&self) -> nat {
        self.entries@.len()
    }

    /// A container that holds nothing yet.
    pub fn new(pipeline_len: u64) -> (made: Epoched<Data>)
        ensures
            made.wf(),
            made@ == Map::<u64, Data>::empty(),
            made.offset() == pipeline_len,
            made.held() == 0,
    {
        let made = Epoched { pipeline_len, entries: Vec::new() };
        assert(made@ =~= Map::<u64, Data>::empty());
        made
    }

    /// The number of epochs between setting a value and its taking effect.
    pub fn pipeline_len(&self) -> (len: u64)
        ensures
            len == self.offset(),
    {
        self.pipeline_len
    }

    /// The number of scheduled values that are held.
    pub fn len(&self) -> (held: usize)
        ensures
            held == self.held(),
    {
        self.entries.len()
    }

    /// Schedules `value` to take effect `pipeline_len` epochs after
    /// `target_epoch`. A value that was scheduled for the same epoch before
    /// is replaced.
    pub fn set(&mut self, value: Data, target_epoch: Epoch)
        requires
            old(self).wf(),
            target_epoch.0 + old(self).offset() <= u64::MAX,
        ensures
            final(self).wf(),
            final(self)@ == old(self)@.insert((target_epoch.0 + old(self).offset()) as u64, value),
            final(self).offset() == old(self).offset(),
            final(self).held() <= old(self).held() + 1,
    {
        let effective = target_epoch.0 + self.pipeline_len;
        let at = position_of(&self.entries, effective);
        let ghost before = self.entries@;
        if at < self.entries.len() && self.entries[at].0 == effective {
            proof {
                lemma_update_entry(before, at as int, value);
            }
            self.entries[at] = (effective, value);
        } else {
            proof {
                lemma_insert_entry(before, at as int, effective, value);
            }
            self.entries.insert(at, (effective, value));
        }
    }

    /// The value that is in effect at `epoch`: the latest that was scheduled
    /// and has taken effect by then, or `None` where none has.
    pub fn get(&self, epoch: Epoch) -> (value: Option<&Data>)
        requires
            self.wf(),
        ensures
            value == match latest_at(self@, epoch.0) {
                Some(since) => Some(&self@[since]),
                None => None,
            },
            value is None <==> forall|k: u64| k <= epoch.0 ==> !self@.contains_key(k),
            value matches Some(found) ==> exists|since: u64|
                since <= epoch.0 && #[trigger] self@.contains_key(since) && *found == self@[since]
                    && forall|k: u64| since < k <= epoch.0 ==> !self@.contains_key(k),
    {
        proof {
            lemma_latest_at(self@, epoch.0);
        }
        proof {
            lemma_entries_map(self.entries@);
        }
        let count = count_until(&self.entries, epoch.0);
        if count == 0 {
            proof {
                assert forall|k: u64| k <= epoch.0 implies !self@.contains_key(k) by {
                    if self@.contains_key(k) {
                        let i = crate::window::index_of_epoch(self.entries@, k);
                        assert(self.entries@[i].0 > epoch.0);
                    }
                }
                lemma_latest_absent(self@, epoch.0);
            }
            None
        } else {
            proof {
                let since = self.entries@[count - 1].0;
                assert forall|k: u64| since < k <= epoch.0 implies !self@.contains_key(k) by {
                    if self@.contains_key(k) {
                        let i = crate::window::index_of_epoch(self.entries@, k);
                        if i < count - 1 {
                            assert(self.entries@[i].0 < self.entries@[count - 1].0);
                        } else if i >= count {
                            assert(self.entries@[i].0 > epoch.0);
                        }
                    }
                }
                lemma_latest_found(self@, epoch.0, since);
            }
            Some(&self.entries[count - 1].1)
        }
    }

    /// Drops the values that no epoch from `current_epoch` on can see any
    /// more: all that took effect before the one that is in effect at
    /// `current_epoch`.
    pub fn prune(&mut self, current_epoch: Epoch)
        requires
            old(self).wf(),
        ensures
            final(self).wf(),
            final(self)@ == match latest_at(old(self)@, current_epoch.0) {
                Some(since) => old(self)@.restrict(Set::new(|k: u64| k >= since)),
                None => old(self)@,
            },
            final(self).offset() == old(self).offset(),
            final(self).held() <= old(self).held(),
    {
        proof {
            lemma_entries_map(self.entries@);
        }
        let ghost before = self.entries@;
        let count = count_until(&self.entries, current_epoch.0);
        if count == 0 {
            proof {
                assert forall|k: u64| k <= current_epoch.0 implies !self@.contains_key(k) by {
                    if self@.contains_key(k) {
                        let i = crate::window::index_of_epoch(before, k);
                        assert(before[i].0 > current_epoch.0);
                    }
                }
                lemma_latest_absent(self@, current_epoch.0);
            }
        } else {
            proof {
                let since = before[count - 1].0;
                assert forall|k: u64| since < k <= current_epoch.0 implies !self@.contains_key(
                    k,
                ) by {
                    if self@.contains_key(k) {
                        let i = crate::window::index_of_epoch(before, k);
                        if i < count - 1 {
                            assert(before[i].0 < before[count - 1].0);
                        } else if i >= count {
                            assert(before[i].0 > current_epoch.0);
                        }
                    }
                }
                lemma_latest_found(self@, current_epoch.0, since);
                lemma_skip_entries(before, count - 1);
            }
            if count > 1 {
                let kept = self.entries.split_off(count - 1);
                self.entries = kept;
            } else {
                assert(before.subrange(0, before.len() as int) =~= before);
            }
        }
    }
}

/// What is in effect after `value` was set at `target_epoch` under a
/// pipeline of `pipeline_len` epochs: at every epoch before the one at which
/// `value` takes effect, what was in effect there before; from then on
/// `value`, up to the next epoch for which something else is scheduled; and
/// from there on again what was in effect before.
pub proof fn lemma_scheduled_value<Data>(
    schedule: Map<u64, Data>,
    target_epoch: u64,
    pipeline_len: u64,
    value: Data,
    epoch: u64,
)
    requires
        target_epoch + pipeline_len <= u64::MAX,
    ensures
        ({
            let effective = (target_epoch + pipeline_len) as u64;
            let after = schedule.insert(effective, value);
            &&& epoch < effective ==> value_at(after, epoch) == value_at(schedule, epoch)
            &&& epoch >= effective && (forall|k: u64|
                effective < k <= epoch ==> !schedule.contains_key(k)) ==> value_at(after, epoch)
                == Some(value)
            &&& epoch >= effective && (exists|k: u64|
                effective < k <= epoch && schedule.contains_key(k)) ==> value_at(after, epoch)
                == value_at(schedule, epoch)
        }),
{
    let effective = (target_epoch + pipeline_len) as u64;
    let after = schedule.insert(effective, value);
    lemma_latest_at(schedule, epoch);
    lemma_latest_at(after, epoch);
    if epoch < effective {
        match latest_at(schedule, epoch) {
            Some(since) => {
                lemma_latest_found(after, epoch, since);
            },
            None => {
                lemma_latest_absent(after, epoch);
            },
        }
    } else if forall|k: u64| effective < k <= epoch ==> !schedule.contains_key(k) {
        lemma_latest_found(after, epoch, effective);
    } else {
        let k = choose|k: u64| effective < k <= epoch && schedule.contains_key(k);
        let since = latest_at(schedule, epoch)->0;
        assert(since >= k);
        lemma_latest_found(after, epoch, since);
    }
}

/// Pruning at an epoch changes nothing of what is in effect at that epoch or
/// later.
pub proof fn lemma_pruned_value<Data>(schedule: Map<u64, Data>, current: u64, epoch: u64)
    requires
        current <= epoch,
        latest_at(schedule, current) is Some,
    ensures
        value_at(
            schedule.restrict(Set::new(|k: u64| k >= latest_at(schedule, current)->0)),
            epoch,
        ) == value_at(schedule, epoch),
{
    let base = latest_at(schedule, current)->0;
    let kept = schedule.restrict(Set::new(|k: u64| k >= base));
    lemma_latest_at(schedule, current);
    lemma_latest_at(schedule, epoch);
    match latest_at(schedule, epoch) {
        Some(since) => {
            assert(since >= base);
            lemma_latest_found(kept, epoch, since);
        },
        None => {
            assert(schedule.contains_key(base));
        },
    }
}

impl<Data> Epoched<Data> {
    /// The window is short: where at most one value has taken effect by
    /// `current` (as after pruning there) and none takes effect more than
    /// `pipeline_len` epochs after it (as when all were set at `current` or
    /// before), the container holds no more than `pipeline_len + 1` values.
    pub proof fn lemma_held_bound(&self, current: u64)
        requires
            self.wf(),
            forall|k: u64, l: u64|
                self@.contains_key(k) && self@.contains_key(l) && k <= current && l <= current
                    ==> k == l,
            forall|k: u64| self@.contains_key(k) ==> k <= current + self.offset(),
        ensures
            self.held() <= self.offset() + 1,
    {
        let entries = self.entries@;
        lemma_entries_map(entries);
        if entries.len() > 1 {
            let later = entries.subrange(1, entries.len() as int);
            assert forall|i: int| 0 <= i < later.len() implies current + 1 <= (
            #[trigger] later[i]).0 <= current + self.offset() by {
                assert(later[i] == entries[i + 1]);
                assert(entries[0].0 < entries[i + 1].0);
                assert(self@.contains_key(entries[0].0));
                assert(self@.contains_key(entries[i + 1].0));
            }
            assert forall|i: int, j: int| 0 <= i < j < later.len() implies (#[trigger] later[i]).0
                < (#[trigger] later[j]).0 by {
                assert(later[i] == entries[i + 1] && later[j] == entries[j + 1]);
            }
            assert(current + 1 <= later[0].0 <= current + self.offset());
            let high: u64 = if current + self.offset() <= u64::MAX {
                (current + self.offset()) as u64
            } else {
                u64::MAX
            };
            lemma_window_length(later, (current + 1) as u64, high);
        }
    }
}

/// Strictly rising epochs between two bounds are no more than the epochs
/// between the bounds.
proof fn lemma_window_length<Data>(entries: Seq<(u64, Data)>, first_later: u64, last: u64)
    requires
        strictly_rising(entries),
        first_later <= last,
        forall|i: int| 0 <= i < entries.len() ==> first_later <= (#[trigger] entries[i]).0 <= last,
    ensures
        entries.len() <= last - first_later + 1,
    decreases entries.len(),
{
    if entries.len() > 0 {
        let rest = entries.drop_last();
        let top = entries[entries.len() - 1].0;
        assert(first_later <= top <= last);
        if rest.len() > 0 {
            assert forall|i: int, j: int| 0 <= i < j < rest.len() implies (#[trigger] rest[i]).0
                < (#[trigger] rest[j]).0 by {
                assert(rest[i] == entries[i] && rest[j] == entries[j]);
            }
            assert forall|i: int| 0 <= i < rest.len() implies first_later <= (#[trigger] rest[i]).0
                <= (last - 1) as u64 by {
                assert(rest[i] == entries[i]);
                assert(entries[i].0 < entries[entries.len() - 1].0);
            }
            assert(first_later <= rest[0].0 <= (last - 1) as u64);
            lemma_window_length(rest, first_later, (last - 1) as u64);
        }
    }
}

} // verus!
