//! Entries keyed by epoch and held in rising order of their epochs: what the
//! epoch-delayed containers are made of.

use vstd::prelude::*;

verus! {

/// Whether the epochs of `entries` rise strictly, so that none occurs twice.
pub open spec fn strictly_rising<Data>(entries: Seq<(u64, Data)>) -> bool {
    forall|i: int, j: int|
        0 <= i < j < entries.len() ==> (#[trigger] entries[i]).0 < (#[trigger] entries[j]).0
}

/// Whether one of `entries` is keyed by `epoch`.
pub open spec fn has_epoch<Data>(entries: Seq<(u64, Data)>, epoch: u64) -> bool {
    exists|i: int| 0 <= i < entries.len() && (#[trigger] entries[i]).0 == epoch
}

/// The index of an entry that is keyed by `epoch`.
pub open spec fn index_of_epoch<Data>(entries: Seq<(u64, Data)>, epoch: u64) -> int {
    choose|i: int| 0 <= i < entries.len() && (#[trigger] entries[i]).0 == epoch
}

/// The map from epoch to value that `entries` stand for.
pub open spec fn entries_map<Data>(entries: Seq<(u64, Data)>) -> Map<u64, Data> {
    Map::new(
        |epoch: u64| has_epoch(entries, epoch),
        |epoch: u64| entries[index_of_epoch(entries, epoch)].1,
    )
}

/// The greatest epoch of `schedule` that is not after `epoch`.
pub open spec fn latest_at<Data>(schedule: Map<u64, Data>, epoch: u64) -> Option<u64>
    decreases epoch,
{
    if schedule.contains_key(epoch) {
        Some(epoch)
    } else if epoch == 0 {
        None
    } else {
        latest_at(schedule, (epoch - 1) as u64)
    }
}

/// Each entry of a strictly rising sequence is what the map holds under its
/// epoch.
pub proof fn lemma_entries_map<Data>(entries: Seq<(u64, Data)>)
    requires
        strictly_rising(entries),
    ensures
        forall|i: int|
            0 <= i < entries.len() ==> entries_map(entries).contains_key(
                (#[trigger] entries[i]).0,
            ) && entries_map(entries)[entries[i].0] == entries[i].1,
        forall|epoch: u64| #[trigger]
            entries_map(entries).contains_key(epoch) ==> {
                let i = index_of_epoch(entries, epoch);
                0 <= i < entries.len() && entries[i].0 == epoch && entries_map(entries)[epoch]
                    == entries[i].1
            },
{
    assert forall|i: int| 0 <= i < entries.len() implies entries_map(entries).contains_key(
        (#[trigger] entries[i]).0,
    ) && entries_map(entries)[entries[i].0] == entries[i].1 by {
        let j = index_of_epoch(entries, entries[i].0);
        assert(0 <= j < entries.len() && entries[j].0 == entries[i].0);
        if j < i {
            assert(entries[j].0 < entries[i].0);
        } else if i < j {
            assert(entries[i].0 < entries[j].0);
        }
    }
}

/// Where `found` is scheduled, is not after `epoch`, and nothing is scheduled
/// between the two, `found` is the latest at `epoch`.
pub proof fn lemma_latest_found<Data>(schedule: Map<u64, Data>, epoch: u64, found: u64)
    requires
        schedule.contains_key(found),
        found <= epoch,
        forall|k: u64| found < k <= epoch ==> !schedule.contains_key(k),
    ensures
        latest_at(schedule, epoch) == Some(found),
    decreases epoch,
{
    if found < epoch {
        lemma_latest_found(schedule, (epoch - 1) as u64, found);
    }
}

/// Where nothing is scheduled up to `epoch`, there is no latest at `epoch`.
pub proof fn lemma_latest_absent<Data>(schedule: Map<u64, Data>, epoch: u64)
    requires
        forall|k: u64| k <= epoch ==> !schedule.contains_key(k),
    ensures
        latest_at(schedule, epoch) is None,
    decreases epoch,
{
    if epoch > 0 {
        lemma_latest_absent(schedule, (epoch - 1) as u64);
    }
}

/// The latest at `epoch`, where there is one, is scheduled, is not after
/// `epoch`, and nothing is scheduled between the two; where there is none,
/// nothing is scheduled up to `epoch`.
pub proof fn lemma_latest_at<Data>(schedule: Map<u64, Data>, epoch: u64)
    ensures
        match latest_at(schedule, epoch) {
            Some(found) => schedule.contains_key(found) && found <= epoch && forall|k: u64|
                found < k <= epoch ==> !schedule.contains_key(k),
            None => forall|k: u64| k <= epoch ==> !schedule.contains_key(k),
        },
    decreases epoch,
{
    if !schedule.contains_key(epoch) && epoch > 0 {
        lemma_latest_at(schedule, (epoch - 1) as u64);
    }
}

/// The index of the first entry whose epoch is not before `epoch`, or the
/// number of entries where there is none.
pub(crate) fn position_of<Data>(entries: &Vec<(u64, Data)>, epoch: u64) -> (at: usize)
    requires
        strictly_rising(entries@),
    ensures
        at <= entries@.len(),
        forall|j: int| 0 <= j < at ==> (#[trigger] entries@[j]).0 < epoch,
        forall|j: int| at <= j < entries@.len() ==> (#[trigger] entries@[j]).0 >= epoch,
{
    let mut at: usize = 0;
    while at < entries.len() && entries[at].0 < epoch
        invariant
            at <= entries@.len(),
            forall|j: int| 0 <= j < at ==> (#[trigger] entries@[j]).0 < epoch,
        decreases entries@.len() - at,
    {
        at = at + 1;
    }
    proof {
        if at < entries@.len() {
            assert forall|j: int| at <= j < entries@.len() implies (#[trigger] entries@[j]).0
                >= epoch by {
                if j > at {
                    assert(entries@[at as int].0 < entries@[j].0);
                }
            }
        }
    }
    at
}

/// The number of entries whose epoch is not after `epoch`: they are the
/// first so many.
pub(crate) fn count_until<Data>(entries: &Vec<(u64, Data)>, epoch: u64) -> (count: usize)
    requires
        strictly_rising(entries@),
    ensures
        count <= entries@.len(),
        forall|j: int| 0 <= j < count ==> (#[trigger] entries@[j]).0 <= epoch,
        forall|j: int| count <= j < entries@.len() ==> (#[trigger] entries@[j]).0 > epoch,
{
    let mut count: usize = 0;
    while count < entries.len() && entries[count].0 <= epoch
        invariant
            count <= entries@.len(),
            forall|j: int| 0 <= j < count ==> (#[trigger] entries@[j]).0 <= epoch,
        decreases entries@.len() - count,
    {
        count = count + 1;
    }
    proof {
        if count < entries@.len() {
            assert forall|j: int| count <= j < entries@.len() implies (#[trigger] entries@[j]).0
                > epoch by {
                if j > count {
                    assert(entries@[count as int].0 < entries@[j].0);
                }
            }
        }
    }
    count
}

/// Writing an entry at its place in a strictly rising sequence writes it
/// into the map.
pub proof fn lemma_insert_entry<Data>(
    before: Seq<(u64, Data)>,
    at: int,
    epoch: u64,
    value: Data,
)
    requires
        strictly_rising(before),
        0 <= at <= before.len(),
        forall|j: int| 0 <= j < at ==> (#[trigger] before[j]).0 < epoch,
        forall|j: int| at <= j < before.len() ==> (#[trigger] before[j]).0 > epoch,
    ensures
        strictly_rising(before.insert(at, (epoch, value))),
        entries_map(before.insert(at, (epoch, value))) == entries_map(before).insert(epoch, value),
{
    let after = before.insert(at, (epoch, value));
    before.insert_ensures(at, (epoch, value));
    assert forall|i: int, j: int| 0 <= i < j < after.len() implies (#[trigger] after[i]).0 < (
    #[trigger] after[j]).0 by {
        if j < at {
            assert(after[i] == before[i] && after[j] == before[j]);
        } else if j == at {
            assert(after[i] == before[i]);
        } else if i == at {
            assert(after[j] == before[j - 1]);
        } else if i < at {
            assert(after[i] == before[i] && after[j] == before[j - 1]);
        } else {
            assert(after[i] == before[i - 1] && after[j] == before[j - 1]);
        }
    }
    lemma_entries_map(before);
    lemma_entries_map(after);
    assert forall|k: u64|
        entries_map(after).contains_key(k) <==> entries_map(before).insert(
            epoch,
            value,
        ).contains_key(k) by {
        if entries_map(after).contains_key(k) && k != epoch {
            let i = index_of_epoch(after, k);
            if i < at {
                assert(before[i].0 == k);
            } else {
                assert(before[i - 1].0 == k);
            }
        }
        if entries_map(before).contains_key(k) {
            let i = index_of_epoch(before, k);
            if i < at {
                assert(after[i].0 == k);
            } else {
                assert(after[i + 1].0 == k);
            }
        }
        assert(after[at].0 == epoch);
    }
    assert forall|k: u64| entries_map(after).contains_key(k) implies entries_map(after)[k]
        == entries_map(before).insert(epoch, value)[k] by {
        let i = index_of_epoch(after, k);
        if i < at {
            assert(after[i] == before[i]);
        } else if i > at {
            assert(after[i] == before[i - 1]);
        }
    }
    assert(entries_map(after) =~= entries_map(before).insert(epoch, value));
}

/// Writing a new value over the entry of an epoch writes it into the map.
pub proof fn lemma_update_entry<Data>(before: Seq<(u64, Data)>, at: int, value: Data)
    requires
        strictly_rising(before),
        0 <= at < before.len(),
    ensures
        strictly_rising(before.update(at, (before[at].0, value))),
        entries_map(before.update(at, (before[at].0, value))) == entries_map(before).insert(
            before[at].0,
            value,
        ),
{
    let epoch = before[at].0;
    let after = before.update(at, (epoch, value));
    assert forall|i: int, j: int| 0 <= i < j < after.len() implies (#[trigger] after[i]).0 < (
    #[trigger] after[j]).0 by {
        assert(after[i].0 == before[i].0 && after[j].0 == before[j].0);
    }
    lemma_entries_map(before);
    lemma_entries_map(after);
    assert forall|k: u64|
        entries_map(after).contains_key(k) <==> entries_map(before).insert(
            epoch,
            value,
        ).contains_key(k) by {
        if entries_map(after).contains_key(k) {
            let i = index_of_epoch(after, k);
            assert(before[i].0 == k);
        }
        if entries_map(before).contains_key(k) {
            let i = index_of_epoch(before, k);
            assert(after[i].0 == k);
        }
        assert(after[at].0 == epoch);
    }
    assert forall|k: u64| entries_map(after).contains_key(k) implies entries_map(after)[k]
        == entries_map(before).insert(epoch, value)[k] by {
        let i = index_of_epoch(after, k);
        if i != at {
            assert(after[i] == before[i]);
        }
    }
    assert(entries_map(after) =~= entries_map(before).insert(epoch, value));
}

/// Dropping the first entries of a strictly rising sequence drops from the
/// map the epochs before the first that is kept.
pub proof fn lemma_skip_entries<Data>(before: Seq<(u64, Data)>, from: int)
    requires
        strictly_rising(before),
        0 <= from < before.len(),
    ensures
        strictly_rising(before.subrange(from, before.len() as int)),
        entries_map(before.subrange(from, before.len() as int)) == entries_map(before).restrict(
            Set::new(|k: u64| k >= before[from].0),
        ),
{
    let after = before.subrange(from, before.len() as int);
    assert forall|i: int, j: int| 0 <= i < j < after.len() implies (#[trigger] after[i]).0 < (
    #[trigger] after[j]).0 by {
        assert(after[i] == before[from + i] && after[j] == before[from + j]);
    }
    lemma_entries_map(before);
    lemma_entries_map(after);
    let kept = entries_map(before).restrict(Set::new(|k: u64| k >= before[from].0));
    assert forall|k: u64| entries_map(after).contains_key(k) <==> kept.contains_key(k) by {
        if entries_map(after).contains_key(k) {
            let i = index_of_epoch(after, k);
            assert(before[from + i].0 == k);
            if i > 0 {
                assert(before[from].0 < before[from + i].0);
            }
        }
        if kept.contains_key(k) {
            let i = index_of_epoch(before, k);
            if i < from {
                assert(before[i].0 < before[from].0);
            }
            assert(after[i - from].0 == k);
        }
    }
    assert forall|k: u64| entries_map(after).contains_key(k) implies entries_map(after)[k]
        == kept[k] by {
        let i = index_of_epoch(after, k);
        assert(after[i] == before[from + i]);
    }
    assert(entries_map(after) =~= kept);
}

} // verus!
