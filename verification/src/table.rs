//! Lists of keys and values, read as maps, and the keys of maps.

use std::collections::HashMap;

use vstd::prelude::*;

verus! {

broadcast use vstd::std_specs::hash::group_hash_axioms;

/// The keys of `m`, each once, in any order.
pub fn keys_of<V>(m: &HashMap<i32, V>) -> (keys: Vec<i32>)
    ensures
        keys@.no_duplicates(),
        forall|k: i32| #[trigger] m@.contains_key(k) <==> keys@.contains(k),
{
    let mut keys: Vec<i32> = Vec::new();
    for key in it: m.keys()
        invariant
            it.seq().no_duplicates(),
            it.seq().unref().to_set() == m@.dom(),
            keys@ == it.seq().unref().take(it.index() as int),
            it.index() == it.seq().len() ==> keys@ =~= it.seq().unref(),
    {
        keys.push(*key);
    }
    assert forall|k: i32| #[trigger] m@.contains_key(k) <==> keys@.contains(k) by {
        assert(keys@.to_set().contains(k) == keys@.contains(k));
    }
    keys
}

/// The map that a list of keys and values stands for.
pub open spec fn table<K, V>(entries: Seq<(K, V)>) -> Map<K, V>
    decreases entries.len(),
{
    if entries.len() == 0 {
        Map::empty()
    } else {
        table(entries.drop_last()).insert(entries.last().0, entries.last().1)
    }
}

/// Whether no key stands in the list twice.
pub open spec fn distinct_keys<K, V>(entries: Seq<(K, V)>) -> bool {
    forall|i: int, j: int|
        0 <= i < j < entries.len() ==> (#[trigger] entries[i]).0 != (#[trigger] entries[j]).0
}

/// The map has the keys of the list, finitely many.
pub proof fn table_keys<K, V>(entries: Seq<(K, V)>)
    ensures
        table(entries).dom().finite(),
        forall|i: int|
            0 <= i < entries.len() ==> table(entries).contains_key((#[trigger] entries[i]).0),
        forall|k: K| #[trigger]
            table(entries).contains_key(k) ==> exists|i: int|
                0 <= i < entries.len() && (#[trigger] entries[i]).0 == k,
    decreases entries.len(),
{
    if entries.len() > 0 {
        let shorter = entries.drop_last();
        table_keys(shorter);
        assert forall|i: int| 0 <= i < entries.len() implies table(entries).contains_key(
            (#[trigger] entries[i]).0,
        ) by {
            if i < shorter.len() {
                assert(shorter[i] == entries[i]);
            }
        }
        assert forall|k: K| #[trigger] table(entries).contains_key(k) implies exists|i: int|
            0 <= i < entries.len() && (#[trigger] entries[i]).0 == k by {
            if k == entries.last().0 {
                assert(entries[entries.len() - 1].0 == k);
            } else {
                assert(table(shorter).contains_key(k));
                let i = choose|i: int| 0 <= i < shorter.len() && (#[trigger] shorter[i]).0 == k;
                assert(entries[i] == shorter[i]);
            }
        }
    }
}

/// Where no key stands in the list twice, the map gives each key its value, and
/// has as many keys as the list has entries.
pub proof fn table_values<K, V>(entries: Seq<(K, V)>)
    requires
        distinct_keys(entries),
    ensures
        forall|i: int|
            0 <= i < entries.len() ==> table(entries)[(#[trigger] entries[i]).0] == entries[i].1,
        table(entries).len() == entries.len(),
    decreases entries.len(),
{
    if entries.len() > 0 {
        let shorter = entries.drop_last();
        assert forall|i: int, j: int| 0 <= i < j < shorter.len() implies (#[trigger] shorter[i]).0
            != (#[trigger] shorter[j]).0 by {
            assert(shorter[i] == entries[i] && shorter[j] == entries[j]);
        }
        table_values(shorter);
        table_keys(shorter);
        assert forall|i: int| 0 <= i < entries.len() implies table(entries)[(#[trigger] entries[i]).0]
            == entries[i].1 by {
            if i < shorter.len() {
                assert(shorter[i] == entries[i]);
                assert(entries[i].0 != entries[entries.len() - 1].0);
            }
        }
        if table(shorter).contains_key(entries.last().0) {
            let i = choose|i: int|
                0 <= i < shorter.len() && (#[trigger] shorter[i]).0 == entries.last().0;
            assert(entries[i].0 == entries[entries.len() - 1].0);
        }
    } else {
        assert(table(entries).dom() =~= Set::<K>::empty());
    }
}

/// A new value at the place of a key is that key's new value.
pub proof fn table_update<K, V>(entries: Seq<(K, V)>, i: int, v: V)
    requires
        distinct_keys(entries),
        0 <= i < entries.len(),
    ensures
        distinct_keys(entries.update(i, (entries[i].0, v))),
        table(entries.update(i, (entries[i].0, v))) == table(entries).insert(entries[i].0, v),
{
    let k = entries[i].0;
    let after = entries.update(i, (k, v));
    assert forall|a: int, b: int| 0 <= a < b < after.len() implies (#[trigger] after[a]).0 != (
    #[trigger] after[b]).0 by {
        assert(after[a].0 == entries[a].0 && after[b].0 == entries[b].0);
    }
    table_keys(entries);
    table_values(entries);
    table_keys(after);
    table_values(after);
    assert forall|x: K| #[trigger] table(after).contains_key(x) == table(entries).insert(
        k,
        v,
    ).contains_key(x) by {
        if table(after).contains_key(x) {
            let j = choose|j: int| 0 <= j < after.len() && (#[trigger] after[j]).0 == x;
            assert(entries[j].0 == x);
        }
        if table(entries).contains_key(x) {
            let j = choose|j: int| 0 <= j < entries.len() && (#[trigger] entries[j]).0 == x;
            assert(after[j].0 == x);
        }
        assert(after[i].0 == k);
    }
    assert forall|x: K| #[trigger] table(after).contains_key(x) implies table(after)[x] == table(
        entries,
    ).insert(k, v)[x] by {
        let j = choose|j: int| 0 <= j < after.len() && (#[trigger] after[j]).0 == x;
        assert(table(after)[after[j].0] == after[j].1);
        assert(table(entries)[entries[j].0] == entries[j].1);
        assert(after[i].0 == k);
        if j != i {
            assert(after[j] == entries[j]);
            if x == k {
                assert(entries[j].0 == entries[i].0);
            }
        }
    }
    assert(table(after) =~= table(entries).insert(k, v));
}

/// A new key at the end of the list is a new key of the map.
pub proof fn table_push<K, V>(entries: Seq<(K, V)>, k: K, v: V)
    requires
        distinct_keys(entries),
        !table(entries).contains_key(k),
    ensures
        distinct_keys(entries.push((k, v))),
        table(entries.push((k, v))) == table(entries).insert(k, v),
{
    let after = entries.push((k, v));
    table_keys(entries);
    assert forall|a: int, b: int| 0 <= a < b < after.len() implies (#[trigger] after[a]).0 != (
    #[trigger] after[b]).0 by {
        assert(after[a] == entries[a]);
        if b < entries.len() {
            assert(after[b] == entries[b]);
        }
    }
    assert(after.drop_last() =~= entries);
}

/// A list without one of its entries is the map without that key.
pub proof fn table_remove<K, V>(entries: Seq<(K, V)>, i: int)
    requires
        distinct_keys(entries),
        0 <= i < entries.len(),
    ensures
        distinct_keys(entries.remove(i)),
        table(entries.remove(i)) == table(entries).remove(entries[i].0),
{
    let k = entries[i].0;
    let after = entries.remove(i);
    assert forall|a: int, b: int| 0 <= a < b < after.len() implies (#[trigger] after[a]).0 != (
    #[trigger] after[b]).0 by {
        let x = if a < i {
            a
        } else {
            a + 1
        };
        let y = if b < i {
            b
        } else {
            b + 1
        };
        assert(after[a] == entries[x] && after[b] == entries[y]);
    }
    table_keys(entries);
    table_values(entries);
    table_keys(after);
    table_values(after);
    assert forall|x: K| #[trigger] table(after).contains_key(x) == table(entries).remove(
        k,
    ).contains_key(x) by {
        if table(after).contains_key(x) {
            let j = choose|j: int| 0 <= j < after.len() && (#[trigger] after[j]).0 == x;
            let y = if j < i {
                j
            } else {
                j + 1
            };
            assert(after[j] == entries[y]);
            assert(entries[y].0 != entries[i].0);
        }
        if table(entries).contains_key(x) && x != k {
            let y = choose|y: int| 0 <= y < entries.len() && (#[trigger] entries[y]).0 == x;
            let j = if y < i {
                y
            } else {
                y - 1
            };
            assert(after[j] == entries[y]);
        }
    }
    assert forall|x: K| #[trigger] table(after).contains_key(x) implies table(after)[x] == table(
        entries,
    ).remove(k)[x] by {
        let j = choose|j: int| 0 <= j < after.len() && (#[trigger] after[j]).0 == x;
        let y = if j < i {
            j
        } else {
            j + 1
        };
        assert(after[j] == entries[y]);
        assert(table(entries)[entries[y].0] == entries[y].1);
        assert(table(after)[after[j].0] == after[j].1);
        assert(table(entries).remove(k).contains_key(x));
    }
    assert(table(after) =~= table(entries).remove(k));
}

/// A map that has exactly the entries of a list without repeated keys is that
/// list's map.
pub proof fn table_is<K, V>(entries: Seq<(K, V)>, m: Map<K, V>)
    requires
        distinct_keys(entries),
        forall|i: int|
            0 <= i < entries.len() ==> m.contains_key((#[trigger] entries[i]).0) && m[entries[i].0]
                == entries[i].1,
        forall|k: K| #[trigger]
            m.contains_key(k) ==> exists|i: int|
                0 <= i < entries.len() && (#[trigger] entries[i]).0 == k,
    ensures
        table(entries) == m,
{
    table_keys(entries);
    table_values(entries);
    assert forall|k: K| #[trigger] table(entries).contains_key(k) == m.contains_key(k) by {
        if table(entries).contains_key(k) {
            let i = choose|i: int| 0 <= i < entries.len() && (#[trigger] entries[i]).0 == k;
            assert(m.contains_key(entries[i].0));
        }
        if m.contains_key(k) {
            let i = choose|i: int| 0 <= i < entries.len() && (#[trigger] entries[i]).0 == k;
            assert(table(entries).contains_key(entries[i].0));
        }
    }
    assert forall|k: K| #[trigger] table(entries).contains_key(k) implies table(entries)[k]
        == m[k] by {
        let i = choose|i: int| 0 <= i < entries.len() && (#[trigger] entries[i]).0 == k;
        assert(table(entries)[entries[i].0] == entries[i].1);
    }
    assert(table(entries) =~= m);
}

/// What `keep` leaves of each entry, last to first.
pub open spec fn kept_entries<K, V>(entries: Seq<(K, V)>, keep: spec_fn(V) -> Option<V>) -> Seq<
    (K, V),
>
    decreases entries.len(),
{
    if entries.len() == 0 {
        Seq::empty()
    } else {
        let later = kept_entries(entries.drop_first(), keep);
        match keep(entries[0].1) {
            Some(v) => later.push((entries[0].0, v)),
            None => later,
        }
    }
}

/// What `keep` leaves of each value of a map.
pub open spec fn kept_map<K, V>(m: Map<K, V>, keep: spec_fn(V) -> Option<V>) -> Map<K, V> {
    Map::new(|k: K| m.contains_key(k) && keep(m[k]) is Some, |k: K| keep(m[k])->0)
}

proof fn kept_entries_come_from_entries<K, V>(
    entries: Seq<(K, V)>,
    keep: spec_fn(V) -> Option<V>,
)
    ensures
        forall|j: int|
            #![trigger kept_entries(entries, keep)[j]]
            0 <= j < kept_entries(entries, keep).len() ==> exists|i: int|
                #![trigger entries[i]]
                0 <= i < entries.len() && entries[i].0 == kept_entries(entries, keep)[j].0 && keep(
                    entries[i].1,
                ) == Some(kept_entries(entries, keep)[j].1),
    decreases entries.len(),
{
    if entries.len() > 0 {
        let rest = entries.drop_first();
        let later = kept_entries(rest, keep);
        let out = kept_entries(entries, keep);
        kept_entries_come_from_entries(rest, keep);
        assert forall|j: int| #![trigger out[j]] 0 <= j < out.len() implies exists|i: int|
            #![trigger entries[i]]
            0 <= i < entries.len() && entries[i].0 == out[j].0 && keep(entries[i].1) == Some(
                out[j].1,
            ) by {
            if j < later.len() {
                assert(out[j] == later[j]);
                let i = choose|i: int|
                    #![trigger rest[i]]
                    0 <= i < rest.len() && rest[i].0 == later[j].0 && keep(rest[i].1) == Some(
                        later[j].1,
                    );
                assert(entries[i + 1] == rest[i]);
            } else {
                assert(keep(entries[0].1) == Some(out[j].1));
            }
        }
    }
}

proof fn entries_worth_keeping_are_kept<K, V>(
    entries: Seq<(K, V)>,
    keep: spec_fn(V) -> Option<V>,
)
    ensures
        forall|i: int|
            #![trigger entries[i]]
            0 <= i < entries.len() && keep(entries[i].1) is Some ==> exists|j: int|
                #![trigger kept_entries(entries, keep)[j]]
                0 <= j < kept_entries(entries, keep).len() && kept_entries(entries, keep)[j].0
                    == entries[i].0,
    decreases entries.len(),
{
    if entries.len() > 0 {
        let rest = entries.drop_first();
        let later = kept_entries(rest, keep);
        let out = kept_entries(entries, keep);
        entries_worth_keeping_are_kept(rest, keep);
        assert forall|i: int|
            #![trigger entries[i]]
            0 <= i < entries.len() && keep(entries[i].1) is Some implies exists|j: int|
            #![trigger out[j]]
            0 <= j < out.len() && out[j].0 == entries[i].0 by {
            if i == 0 {
                assert(out[out.len() - 1].0 == entries[0].0);
            } else {
                assert(rest[i - 1] == entries[i]);
                let j = choose|j: int|
                    #![trigger later[j]]
                    0 <= j < later.len() && later[j].0 == rest[i - 1].0;
                assert(out[j] == later[j]);
            }
        }
    }
}

proof fn kept_entries_stay_distinct<K, V>(entries: Seq<(K, V)>, keep: spec_fn(V) -> Option<V>)
    requires
        distinct_keys(entries),
    ensures
        distinct_keys(kept_entries(entries, keep)),
    decreases entries.len(),
{
    if entries.len() > 0 {
        let rest = entries.drop_first();
        let later = kept_entries(rest, keep);
        let out = kept_entries(entries, keep);
        assert forall|a: int, b: int| 0 <= a < b < rest.len() implies (#[trigger] rest[a]).0 != (
        #[trigger] rest[b]).0 by {
            assert(rest[a] == entries[a + 1] && rest[b] == entries[b + 1]);
        }
        kept_entries_stay_distinct(rest, keep);
        kept_entries_come_from_entries(rest, keep);
        assert forall|a: int, b: int| 0 <= a < b < out.len() implies (#[trigger] out[a]).0 != (
        #[trigger] out[b]).0 by {
            assert(out[a] == later[a]);
            if b < later.len() {
                assert(out[b] == later[b]);
            } else {
                let i = choose|i: int|
                    #![trigger rest[i]]
                    0 <= i < rest.len() && rest[i].0 == later[a].0 && keep(rest[i].1) == Some(
                        later[a].1,
                    );
                assert(entries[i + 1] == rest[i]);
                assert(entries[0].0 != entries[i + 1].0);
            }
        }
    }
}

/// What is kept of a list without repeated keys is what is kept of its map.
pub proof fn table_keep<K, V>(entries: Seq<(K, V)>, keep: spec_fn(V) -> Option<V>)
    requires
        distinct_keys(entries),
    ensures
        distinct_keys(kept_entries(entries, keep)),
        table(kept_entries(entries, keep)) == kept_map(table(entries), keep),
{
    let out = kept_entries(entries, keep);
    let m = kept_map(table(entries), keep);
    table_keys(entries);
    table_values(entries);
    kept_entries_stay_distinct(entries, keep);
    kept_entries_come_from_entries(entries, keep);
    entries_worth_keeping_are_kept(entries, keep);
    assert forall|j: int| 0 <= j < out.len() implies m.contains_key((#[trigger] out[j]).0)
        && m[out[j].0] == out[j].1 by {
        let i = choose|i: int|
            #![trigger entries[i]]
            0 <= i < entries.len() && entries[i].0 == out[j].0 && keep(entries[i].1) == Some(
                out[j].1,
            );
        assert(table(entries)[entries[i].0] == entries[i].1);
        assert(table(entries).contains_key(entries[i].0));
    }
    assert forall|k: K| #[trigger] m.contains_key(k) implies exists|j: int|
        0 <= j < out.len() && (#[trigger] out[j]).0 == k by {
        let i = choose|i: int| 0 <= i < entries.len() && (#[trigger] entries[i]).0 == k;
        assert(table(entries)[entries[i].0] == entries[i].1);
        assert(keep(entries[i].1) is Some);
    }
    table_is(out, m);
}

} // verus!
