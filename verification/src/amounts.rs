//! Amounts keyed by epochs: their sums, and their merge key by key.

use vstd::prelude::*;

verus! {

/// The sum of all the amounts that a finite map holds.
pub open spec fn map_sum<K>(m: Map<K, u64>) -> int
    decreases m.dom().len(),
    when m.dom().finite()
{
    if m.dom().len() == 0 {
        0
    } else {
        let k = m.dom().choose();
        m[k] + map_sum(m.remove(k))
    }
}

/// The amount recorded under `k`, zero where nothing is recorded.
pub open spec fn amount_at<K>(m: Map<K, u64>, k: K) -> int {
    if m.contains_key(k) {
        m[k] as int
    } else {
        0
    }
}

/// Whether two maps can be merged key by key without an amount leaving `u64`.
pub open spec fn maps_mergeable<K>(a: Map<K, u64>, b: Map<K, u64>) -> bool {
    forall|k: K| #[trigger] amount_at(a, k) + amount_at(b, k) <= u64::MAX
}

/// The key-wise merge of two maps: every key of either, with the sum of what
/// the two record under it.
pub open spec fn merged_map<K>(a: Map<K, u64>, b: Map<K, u64>) -> Map<K, u64> {
    Map::new(
        |k: K| a.contains_key(k) || b.contains_key(k),
        |k: K| (amount_at(a, k) + amount_at(b, k)) as u64,
    )
}

/// The sum of the amounts of a sequence of (key, amount) pairs.
pub open spec fn pairs_sum<K>(s: Seq<(K, u64)>) -> int
    decreases s.len(),
{
    if s.len() == 0 {
        0
    } else {
        pairs_sum(s.drop_last()) + s.last().1
    }
}

/// Whether `pairs` lists the entries of `m`, each once.
pub open spec fn lists_map<K>(pairs: Seq<(K, u64)>, m: Map<K, u64>) -> bool {
    &&& forall|i: int|
        0 <= i < pairs.len() ==> m.contains_key(#[trigger] pairs[i].0) && m[pairs[i].0]
            == pairs[i].1
    &&& forall|i: int, j: int|
        0 <= i < j < pairs.len() ==> #[trigger] pairs[i].0 != #[trigger] pairs[j].0
    &&& forall|k: K| #[trigger] m.contains_key(k) ==> pairs.contains((k, m[k]))
}

/// What a walk over a map's entries yields lists the map.
pub proof fn lemma_walk_lists_map<K>(pairs: Seq<(K, u64)>, m: Map<K, u64>)
    requires
        pairs.no_duplicates(),
        pairs.to_set() == m.kv_pairs(),
    ensures
        lists_map(pairs, m),
{
    assert forall|i: int| 0 <= i < pairs.len() implies m.contains_key(#[trigger] pairs[i].0)
        && m[pairs[i].0] == pairs[i].1 by {
        assert(pairs.to_set().contains(pairs[i]));
        assert(m.kv_pairs().contains(pairs[i]));
    }
    assert forall|k: K| #[trigger] m.contains_key(k) implies pairs.contains((k, m[k])) by {
        assert(m.kv_pairs().contains((k, m[k])));
        assert(pairs.to_set().contains((k, m[k])));
    }
    assert forall|i: int, j: int| 0 <= i < j < pairs.len() implies #[trigger] pairs[i].0
        != #[trigger] pairs[j].0 by {
        assert(m.contains_key(pairs[i].0) && m[pairs[i].0] == pairs[i].1);
        assert(m.contains_key(pairs[j].0) && m[pairs[j].0] == pairs[j].1);
        if pairs[i].0 == pairs[j].0 {
            assert(pairs[i] == pairs[j]);
        }
    }
}

/// The sum of a map does not depend on which key is taken out first.
pub proof fn lemma_map_sum_remove<K>(m: Map<K, u64>, k: K)
    requires
        m.dom().finite(),
        m.contains_key(k),
    ensures
        map_sum(m) == m[k] + map_sum(m.remove(k)),
    decreases m.dom().len(),
{
    let c = m.dom().choose();
    if c != k {
        lemma_map_sum_remove(m.remove(c), k);
        lemma_map_sum_remove(m.remove(k), c);
        assert(m.remove(c).remove(k) =~= m.remove(k).remove(c));
    }
}

/// Writing `v` under `k` changes the sum by `v` less what stood there.
pub proof fn lemma_map_sum_insert<K>(m: Map<K, u64>, k: K, v: u64)
    requires
        m.dom().finite(),
    ensures
        map_sum(m.insert(k, v)) == map_sum(m) - amount_at(m, k) + v,
{
    lemma_map_sum_remove(m.insert(k, v), k);
    assert(m.insert(k, v).remove(k) =~= m.remove(k));
    if m.contains_key(k) {
        lemma_map_sum_remove(m, k);
    } else {
        assert(m.remove(k) =~= m);
    }
}

/// Pairs that list a map add up to the map's sum.
pub proof fn lemma_pairs_sum<K>(pairs: Seq<(K, u64)>, m: Map<K, u64>)
    requires
        m.dom().finite(),
        lists_map(pairs, m),
    ensures
        pairs_sum(pairs) == map_sum(m),
    decreases pairs.len(),
{
    if pairs.len() == 0 {
        if m.dom().len() != 0 {
            let k = m.dom().choose();
            assert(m.contains_key(k));
            assert(pairs.contains((k, m[k])));
        }
    } else {
        let last = pairs.last();
        let rest = pairs.drop_last();
        let m2 = m.remove(last.0);
        assert(m.contains_key(pairs[pairs.len() - 1].0));
        lemma_map_sum_remove(m, last.0);
        assert forall|i: int| 0 <= i < rest.len() implies m2.contains_key(#[trigger] rest[i].0)
            && m2[rest[i].0] == rest[i].1 by {
            assert(rest[i] == pairs[i]);
            assert(m.contains_key(pairs[i].0));
        }
        assert forall|k: K| #[trigger] m2.contains_key(k) implies rest.contains((k, m2[k])) by {
            assert(m.contains_key(k));
            assert(pairs.contains((k, m[k])));
            let i = choose|i: int| 0 <= i < pairs.len() && pairs[i] == (k, m[k]);
            assert(rest[i] == pairs[i]);
        }
        assert forall|i: int, j: int| 0 <= i < j < rest.len() implies #[trigger] rest[i].0
            != #[trigger] rest[j].0 by {
            assert(rest[i] == pairs[i] && rest[j] == pairs[j]);
        }
        lemma_pairs_sum(rest, m2);
    }
}

/// The sum of a key-wise merge is the sum of the two sums.
pub proof fn lemma_merged_map_sum<K>(a: Map<K, u64>, b: Map<K, u64>)
    requires
        a.dom().finite(),
        b.dom().finite(),
        maps_mergeable(a, b),
    ensures
        merged_map(a, b).dom().finite(),
        map_sum(merged_map(a, b)) == map_sum(a) + map_sum(b),
    decreases b.dom().len(),
{
    if b.dom().len() == 0 {
        assert forall|k: K| !b.contains_key(k) by {
            if b.contains_key(k) {
                assert(b.dom().contains(k));
            }
        }
        assert(merged_map(a, b) =~= a);
    } else {
        let k = b.dom().choose();
        let rest = b.remove(k);
        assert forall|q: K| #[trigger] amount_at(a, q) + amount_at(rest, q) <= u64::MAX by {
            assert(amount_at(a, q) + amount_at(b, q) <= u64::MAX);
        }
        lemma_merged_map_sum(a, rest);
        assert(amount_at(a, k) + amount_at(b, k) <= u64::MAX);
        let v = (amount_at(a, k) + b[k]) as u64;
        assert(merged_map(a, b) =~= merged_map(a, rest).insert(k, v));
        lemma_map_sum_insert(merged_map(a, rest), k, v);
        lemma_map_sum_remove(b, k);
    }
}

/// The key-wise merge does not depend on the order of the two maps.
pub proof fn lemma_merged_map_commutes<K>(a: Map<K, u64>, b: Map<K, u64>)
    ensures
        merged_map(a, b) == merged_map(b, a),
        maps_mergeable(a, b) == maps_mergeable(b, a),
{
    assert(merged_map(a, b) =~= merged_map(b, a));
    if maps_mergeable(a, b) {
        assert forall|k: K| #[trigger] amount_at(b, k) + amount_at(a, k) <= u64::MAX by {
            assert(amount_at(a, k) + amount_at(b, k) <= u64::MAX);
        }
    }
    if maps_mergeable(b, a) {
        assert forall|k: K| #[trigger] amount_at(a, k) + amount_at(b, k) <= u64::MAX by {
            assert(amount_at(b, k) + amount_at(a, k) <= u64::MAX);
        }
    }
}

/// Where three maps can be merged without an amount leaving `u64`, it does
/// not matter which two are merged first.
pub proof fn lemma_merged_map_associates<K>(a: Map<K, u64>, b: Map<K, u64>, c: Map<K, u64>)
    requires
        maps_mergeable(a, b),
        maps_mergeable(merged_map(a, b), c),
    ensures
        maps_mergeable(b, c),
        maps_mergeable(a, merged_map(b, c)),
        merged_map(merged_map(a, b), c) == merged_map(a, merged_map(b, c)),
{
    assert forall|k: K|
        amount_at(merged_map(a, b), k) == amount_at(a, k) + amount_at(b, k) && amount_at(a, k)
            + amount_at(b, k) + amount_at(c, k) <= u64::MAX by {
        assert(amount_at(a, k) + amount_at(b, k) <= u64::MAX);
        assert(amount_at(merged_map(a, b), k) + amount_at(c, k) <= u64::MAX);
    }
    assert forall|k: K| #[trigger] amount_at(b, k) + amount_at(c, k) <= u64::MAX by {
        assert(amount_at(merged_map(a, b), k) == amount_at(a, k) + amount_at(b, k));
    }
    assert forall|k: K| #[trigger]
        amount_at(a, k) + amount_at(merged_map(b, c), k) <= u64::MAX by {
        assert(amount_at(merged_map(a, b), k) == amount_at(a, k) + amount_at(b, k));
        assert(amount_at(b, k) + amount_at(c, k) <= u64::MAX);
    }
    assert forall|k: K|
        merged_map(merged_map(a, b), c).contains_key(k) implies merged_map(
            merged_map(a, b),
            c,
        )[k] == merged_map(a, merged_map(b, c))[k] by {
        assert(amount_at(merged_map(a, b), k) == amount_at(a, k) + amount_at(b, k));
        assert(amount_at(b, k) + amount_at(c, k) <= u64::MAX);
    }
    assert(merged_map(merged_map(a, b), c) =~= merged_map(a, merged_map(b, c)));
}

} // verus!
