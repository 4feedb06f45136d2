//! Name-keyed maps held as vectors of `(name, value)` entries with distinct
//! names, as the header mappings are built.

use vstd::prelude::*;

verus! {

/// The value of the last entry named `k`, if any.
pub open spec fn lookup<V>(entries: Seq<(String, V)>, k: Seq<char>) -> Option<V>
    decreases entries.len(),
{
    if entries.len() == 0 {
        None
    } else if entries.last().0@ == k {
        Some(entries.last().1)
    } else {
        lookup(entries.drop_last(), k)
    }
}

/// No two entries share a name.
pub open spec fn distinct_names<V>(entries: Seq<(String, V)>) -> bool {
    forall|i: int, j: int|
        0 <= i < entries.len() && 0 <= j < entries.len() && i != j ==> #[trigger] entries[i].0@
            != #[trigger] entries[j].0@
}

/// With distinct names, the entry at `j` is the one `lookup` finds.
pub proof fn lemma_lookup_distinct<V>(entries: Seq<(String, V)>, j: int)
    requires
        distinct_names(entries),
        0 <= j < entries.len(),
    ensures
        lookup(entries, entries[j].0@) == Some(entries[j].1),
    decreases entries.len(),
{
    if j != entries.len() - 1 {
        assert(entries.last().0@ != entries[j].0@);
        let d = entries.drop_last();
        assert(d[j] == entries[j]);
        lemma_lookup_distinct(d, j);
    }
}

/// A name that no entry has is not found.
pub proof fn lemma_lookup_absent<V>(entries: Seq<(String, V)>, k: Seq<char>)
    requires
        forall|i: int| 0 <= i < entries.len() ==> #[trigger] entries[i].0@ != k,
    ensures
        lookup(entries, k) is None,
    decreases entries.len(),
{
    if entries.len() > 0 {
        let d = entries.drop_last();
        assert forall|i: int| 0 <= i < d.len() implies #[trigger] d[i].0@ != k by {
            assert(d[i] == entries[i]);
        }
        lemma_lookup_absent(d, k);
    }
}

/// Replacing the value of the entry at `j` changes only what its name maps to.
pub proof fn lemma_lookup_update<V>(entries: Seq<(String, V)>, j: int, e: (String, V), k: Seq<char>)
    requires
        distinct_names(entries),
        0 <= j < entries.len(),
        e.0@ == entries[j].0@,
    ensures
        lookup(entries.update(j, e), k) == (if k == e.0@ {
            Some(e.1)
        } else {
            lookup(entries, k)
        }),
    decreases entries.len(),
{
    let u = entries.update(j, e);
    if j == entries.len() - 1 {
        assert(u.drop_last() =~= entries.drop_last());
    } else {
        assert(u.drop_last() =~= entries.drop_last().update(j, e));
        let d = entries.drop_last();
        assert(distinct_names(d)) by {
            assert forall|a: int, b: int|
                0 <= a < d.len() && 0 <= b < d.len() && a != b implies #[trigger] d[a].0@
                != #[trigger] d[b].0@ by {
                assert(d[a] == entries[a]);
                assert(d[b] == entries[b]);
            }
        }
        assert(d[j] == entries[j]);
        assert(entries.last().0@ != entries[j].0@);
        lemma_lookup_update(d, j, e, k);
    }
}

/// Insert `(key, value)` into a distinct-name map, replacing the value of an
/// existing entry with that name (as `HashMap::insert` does).
pub fn insert_named<V>(map: &mut Vec<(String, V)>, key: String, value: V)
    requires
        distinct_names(old(map)@),
    ensures
        distinct_names(final(map)@),
        forall|k: Seq<char>| #[trigger] lookup(final(map)@, k) == (if k == key@ {
            Some(value)
        } else {
            lookup(old(map)@, k)
        }),
{
    let mut i: usize = 0;
    while i < map.len()
        invariant
            i <= map.len(),
            map@ == old(map)@,
            distinct_names(map@),
            forall|q: int| 0 <= q < i ==> #[trigger] map@[q].0@ != key@,
        decreases map.len() - i,
    {
        if map[i].0 == key {
            let ghost old_map = map@;
            map.set(i, (key, value));
            proof {
                assert forall|k: Seq<char>| #[trigger] lookup(map@, k) == (if k == old_map[i as int].0@ {
                    Some(value)
                } else {
                    lookup(old_map, k)
                }) by {
                    lemma_lookup_update(old_map, i as int, map@[i as int], k);
                }
                assert forall|a: int, b: int|
                    0 <= a < map@.len() && 0 <= b < map@.len() && a != b implies #[trigger] map@[a].0@
                    != #[trigger] map@[b].0@ by {
                    if a != i && b != i {
                        assert(map@[a] == old_map[a]);
                        assert(map@[b] == old_map[b]);
                    } else if a == i {
                        assert(map@[b] == old_map[b]);
                    } else {
                        assert(map@[a] == old_map[a]);
                    }
                }
            }
            return;
        }
        i = i + 1;
    }
    let ghost old_map = map@;
    map.push((key, value));
    proof {
        assert(map@.drop_last() =~= old_map);
        assert forall|a: int, b: int|
            0 <= a < map@.len() && 0 <= b < map@.len() && a != b implies #[trigger] map@[a].0@
            != #[trigger] map@[b].0@ by {
            if a < old_map.len() && b < old_map.len() {
                assert(map@[a] == old_map[a]);
                assert(map@[b] == old_map[b]);
            } else if a < old_map.len() {
                assert(map@[a] == old_map[a]);
            } else {
                assert(map@[b] == old_map[b]);
            }
        }
    }
}

} // verus!
