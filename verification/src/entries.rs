//! Sequences used as insertion-ordered maps and sets: a map is a sequence of
//! key-value pairs in which no key occurs twice, a set a sequence in which no
//! item occurs twice. What was put in first stays first.

use vstd::prelude::*;

verus! {

/// Whether some pair of `entries` has the key `key`.
pub open spec fn has_key<K, V>(entries: Seq<(K, V)>, key: K) -> bool {
    exists|i: int| 0 <= i < entries.len() && (#[trigger] entries[i]).0 == key
}

/// Whether no key occurs in two pairs of `entries`.
pub open spec fn distinct_keys<K, V>(entries: Seq<(K, V)>) -> bool {
    forall|i: int, j: int|
        0 <= i < j < entries.len() ==> (#[trigger] entries[i]).0 != (#[trigger] entries[j]).0
}

/// A position at which `entries` has the key `key`, where there is one.
pub open spec fn index_of_key<K, V>(entries: Seq<(K, V)>, key: K) -> int {
    choose|i: int| 0 <= i < entries.len() && (#[trigger] entries[i]).0 == key
}

/// The value that `entries` holds under `key`.
pub open spec fn value_of<K, V>(entries: Seq<(K, V)>, key: K) -> Option<V> {
    if has_key(entries, key) {
        Some(entries[index_of_key(entries, key)].1)
    } else {
        None
    }
}

/// `entries` with `value` under `key`: in the place of the old value where the
/// key was there already, at the end where it was not.
pub open spec fn put<K, V>(entries: Seq<(K, V)>, key: K, value: V) -> Seq<(K, V)> {
    if has_key(entries, key) {
        entries.update(index_of_key(entries, key), (key, value))
    } else {
        entries.push((key, value))
    }
}

/// `entries` after each pair of `more` has been put into it, first to last.
pub open spec fn put_all<K, V>(entries: Seq<(K, V)>, more: Seq<(K, V)>) -> Seq<(K, V)>
    decreases more.len(),
{
    if more.len() == 0 {
        entries
    } else {
        put(put_all(entries, more.drop_last()), more.last().0, more.last().1)
    }
}

/// The pairs of `entries` whose key is not among `keys`, in their old order.
pub open spec fn without<K, V>(entries: Seq<(K, V)>, keys: Seq<K>) -> Seq<(K, V)>
    decreases entries.len(),
{
    if entries.len() == 0 {
        entries
    } else if keys.contains(entries.last().0) {
        without(entries.drop_last(), keys)
    } else {
        without(entries.drop_last(), keys).push(entries.last())
    }
}

/// `items` with `item` in it: unchanged where it was there already, with the
/// item at the end where it was not.
pub open spec fn with_item<T>(items: Seq<T>, item: T) -> Seq<T> {
    if items.contains(item) {
        items
    } else {
        items.push(item)
    }
}

/// `items` after each item of `more` has been put into it, first to last.
pub open spec fn with_items<T>(items: Seq<T>, more: Seq<T>) -> Seq<T>
    decreases more.len(),
{
    if more.len() == 0 {
        items
    } else {
        with_item(with_items(items, more.drop_last()), more.last())
    }
}

/// In a map, a key stands at one position only.
pub proof fn lemma_index_of_key<K, V>(entries: Seq<(K, V)>, i: int)
    requires
        distinct_keys(entries),
        0 <= i < entries.len(),
    ensures
        has_key(entries, entries[i].0),
        index_of_key(entries, entries[i].0) == i,
        value_of(entries, entries[i].0) == Some(entries[i].1),
{
    let key = entries[i].0;
    assert(has_key(entries, key));
    let j = index_of_key(entries, key);
    assert(0 <= j < entries.len() && entries[j].0 == key);
    if j < i {
        assert(entries[j].0 != entries[i].0);
    } else if i < j {
        assert(entries[i].0 != entries[j].0);
    }
}

/// Putting a pair into a map gives a map with the same keys and that key, in
/// which only that key's value has changed.
pub proof fn lemma_put<K, V>(entries: Seq<(K, V)>, key: K, value: V)
    requires
        distinct_keys(entries),
    ensures
        distinct_keys(put(entries, key, value)),
        forall|other: K|
            #![trigger has_key(put(entries, key, value), other)]
            #![trigger has_key(entries, other)]
            has_key(put(entries, key, value), other) <==> (other == key || has_key(
                entries,
                other,
            )),
        forall|other: K|
            #![trigger value_of(put(entries, key, value), other)]
            value_of(put(entries, key, value), other) == (if other == key {
                Some(value)
            } else {
                value_of(entries, other)
            }),
{
    let after = put(entries, key, value);
    if has_key(entries, key) {
        let at = index_of_key(entries, key);
        assert(after.len() == entries.len());
        assert forall|i: int| 0 <= i < after.len() implies (#[trigger] after[i]).0
            == entries[i].0 by {}
        assert forall|i: int, j: int| 0 <= i < j < after.len() implies (#[trigger] after[i]).0
            != (#[trigger] after[j]).0 by {
            assert(entries[i].0 != entries[j].0);
        }
        assert forall|other: K| has_key(after, other) <==> (other == key || has_key(
            entries,
            other,
        )) by {
            if has_key(after, other) {
                let i = index_of_key(after, other);
                assert(entries[i].0 == other);
            }
            if has_key(entries, other) {
                let i = index_of_key(entries, other);
                assert(after[i].0 == other);
            }
        }
        assert forall|other: K|
            value_of(after, other) == (if other == key {
                Some(value)
            } else {
                value_of(entries, other)
            }) by {
            if has_key(after, other) {
                let i = index_of_key(after, other);
                assert(entries[i].0 == other);
                lemma_index_of_key(entries, i);
                lemma_index_of_key(after, i);
            }
        }
    } else {
        assert forall|i: int, j: int| 0 <= i < j < after.len() implies (#[trigger] after[i]).0
            != (#[trigger] after[j]).0 by {
            if j == entries.len() {
                assert(entries[i].0 != key);
            } else {
                assert(entries[i].0 != entries[j].0);
            }
        }
        assert(after[entries.len() as int].0 == key);
        assert forall|other: K| has_key(after, other) <==> (other == key || has_key(
            entries,
            other,
        )) by {
            if has_key(after, other) {
                let i = index_of_key(after, other);
                if i < entries.len() {
                    assert(entries[i].0 == other);
                }
            }
            if has_key(entries, other) {
                let i = index_of_key(entries, other);
                assert(after[i].0 == other);
            }
        }
        assert forall|other: K|
            value_of(after, other) == (if other == key {
                Some(value)
            } else {
                value_of(entries, other)
            }) by {
            if has_key(after, other) {
                let i = index_of_key(after, other);
                lemma_index_of_key(after, i);
                if i < entries.len() {
                    assert(entries[i].0 == other);
                    lemma_index_of_key(entries, i);
                }
            }
        }
    }
}

/// Putting the pairs of one map into another gives a map that holds, under
/// each key of the first, the value of the first, and under every other key
/// what the second held.
pub proof fn lemma_put_all<K, V>(entries: Seq<(K, V)>, more: Seq<(K, V)>)
    requires
        distinct_keys(entries),
        distinct_keys(more),
    ensures
        distinct_keys(put_all(entries, more)),
        forall|key: K|
            #![trigger value_of(put_all(entries, more), key)]
            value_of(put_all(entries, more), key) == (if has_key(more, key) {
                value_of(more, key)
            } else {
                value_of(entries, key)
            }),
    decreases more.len(),
{
    if more.len() > 0 {
        let front = more.drop_last();
        let last = more.last();
        assert(distinct_keys(front)) by {
            assert forall|i: int, j: int| 0 <= i < j < front.len() implies (#[trigger] front[i]).0
                != (#[trigger] front[j]).0 by {
                assert(more[i].0 != more[j].0);
            }
        }
        lemma_put_all(entries, front);
        lemma_put(put_all(entries, front), last.0, last.1);
        assert(!has_key(front, last.0)) by {
            if has_key(front, last.0) {
                let i = index_of_key(front, last.0);
                assert(more[i].0 != more[more.len() - 1].0);
            }
        }
        assert(put(front, last.0, last.1) =~= more);
        lemma_put(front, last.0, last.1);
    } else {
        assert forall|key: K| !has_key(more, key) by {}
    }
}

/// Taking keys out of a map leaves a map, with just the keys that were not
/// taken out, each with its old value.
pub proof fn lemma_without<K, V>(entries: Seq<(K, V)>, keys: Seq<K>)
    requires
        distinct_keys(entries),
    ensures
        distinct_keys(without(entries, keys)),
        without(entries, keys).len() <= entries.len(),
        forall|key: K|
            #![trigger has_key(without(entries, keys), key)]
            #![trigger has_key(entries, key)]
            has_key(without(entries, keys), key) <==> (has_key(entries, key) && !keys.contains(
                key,
            )),
        forall|key: K|
            #![trigger value_of(without(entries, keys), key)]
            !keys.contains(key) ==> value_of(without(entries, keys), key) == value_of(
                entries,
                key,
            ),
    decreases entries.len(),
{
    let after = without(entries, keys);
    if entries.len() > 0 {
        let front = entries.drop_last();
        let last = entries.last();
        let rest = without(front, keys);
        assert(distinct_keys(front)) by {
            assert forall|i: int, j: int| 0 <= i < j < front.len() implies (#[trigger] front[i]).0
                != (#[trigger] front[j]).0 by {
                assert(entries[i].0 != entries[j].0);
            }
        }
        lemma_without(front, keys);
        assert(!has_key(front, last.0)) by {
            if has_key(front, last.0) {
                let i = index_of_key(front, last.0);
                assert(entries[i].0 != entries[entries.len() - 1].0);
            }
        }
        assert forall|key: K| has_key(entries, key) <==> (key == last.0 || has_key(
            front,
            key,
        )) by {
            if has_key(entries, key) {
                let i = index_of_key(entries, key);
                if i < front.len() {
                    assert(front[i].0 == key);
                }
            }
            if has_key(front, key) {
                let i = index_of_key(front, key);
                assert(entries[i].0 == key);
            }
            assert(entries[entries.len() - 1].0 == last.0);
        }
        assert forall|key: K| key != last.0 implies value_of(entries, key) == value_of(
            front,
            key,
        ) by {
            if has_key(front, key) {
                let i = index_of_key(front, key);
                lemma_index_of_key(front, i);
                assert(entries[i].0 == key);
                lemma_index_of_key(entries, i);
            }
        }
        if !keys.contains(last.0) {
            assert(after == rest.push(last));
            assert(!has_key(rest, last.0));
            assert forall|i: int, j: int| 0 <= i < j < after.len() implies (#[trigger] after[i]).0
                != (#[trigger] after[j]).0 by {
                if j == rest.len() {
                    assert(rest[i].0 != last.0);
                } else {
                    assert(rest[i].0 != rest[j].0);
                }
            }
            assert(after[rest.len() as int].0 == last.0);
            assert forall|key: K| has_key(after, key) <==> (key == last.0 || has_key(
                rest,
                key,
            )) by {
                if has_key(after, key) {
                    let i = index_of_key(after, key);
                    if i < rest.len() {
                        assert(rest[i].0 == key);
                    }
                }
                if has_key(rest, key) {
                    let i = index_of_key(rest, key);
                    assert(after[i].0 == key);
                }
            }
            assert forall|key: K| !keys.contains(key) implies value_of(after, key) == value_of(
                entries,
                key,
            ) by {
                if key == last.0 {
                    lemma_index_of_key(after, rest.len() as int);
                    lemma_index_of_key(entries, entries.len() - 1);
                } else if has_key(rest, key) {
                    let i = index_of_key(rest, key);
                    lemma_index_of_key(rest, i);
                    assert(after[i].0 == key);
                    lemma_index_of_key(after, i);
                }
            }
            assert forall|key: K|
                has_key(after, key) <==> (has_key(entries, key) && !keys.contains(key)) by {
                assert(has_key(after, key) <==> (key == last.0 || has_key(rest, key)));
                assert(has_key(rest, key) <==> (has_key(front, key) && !keys.contains(key)));
                assert(has_key(entries, key) <==> (key == last.0 || has_key(front, key)));
            }
        } else {
            assert(after == rest);
            assert forall|key: K|
                has_key(after, key) <==> (has_key(entries, key) && !keys.contains(key)) by {
                assert(has_key(rest, key) <==> (has_key(front, key) && !keys.contains(key)));
                assert(has_key(entries, key) <==> (key == last.0 || has_key(front, key)));
            }
        }
    } else {
        assert forall|key: K|
            has_key(after, key) <==> (has_key(entries, key) && !keys.contains(key)) by {
            assert(!has_key(entries, key));
        }
    }
}

/// Taking no keys out of a map leaves it as it was.
pub proof fn lemma_without_none<K, V>(entries: Seq<(K, V)>, keys: Seq<K>)
    requires
        forall|i: int| 0 <= i < entries.len() ==> !keys.contains((#[trigger] entries[i]).0),
    ensures
        without(entries, keys) == entries,
    decreases entries.len(),
{
    if entries.len() > 0 {
        let front = entries.drop_last();
        assert forall|i: int| 0 <= i < front.len() implies !keys.contains(
            (#[trigger] front[i]).0,
        ) by {
            assert(front[i] == entries[i]);
        }
        lemma_without_none(front, keys);
        assert(!keys.contains(entries[entries.len() - 1].0));
        assert(front.push(entries.last()) =~= entries);
    }
}

/// Taking out one more key is taking it out of what the others left.
pub proof fn lemma_without_push<K, V>(entries: Seq<(K, V)>, keys: Seq<K>, key: K)
    ensures
        without(entries, keys.push(key)) == without(without(entries, keys), seq![key]),
    decreases entries.len(),
{
    let more = keys.push(key);
    let one = seq![key];
    assert(one[0] == key);
    assert(more[keys.len() as int] == key);
    if entries.len() > 0 {
        let front = entries.drop_last();
        let last = entries.last();
        lemma_without_push(front, keys, key);
        assert(one.contains(last.0) <==> last.0 == key);
        assert(more.contains(last.0) <==> (keys.contains(last.0) || last.0 == key)) by {
            if keys.contains(last.0) {
                let i = choose|i: int| 0 <= i < keys.len() && keys[i] == last.0;
                assert(more[i] == last.0);
            }
            if more.contains(last.0) {
                let i = choose|i: int| 0 <= i < more.len() && more[i] == last.0;
                if i < keys.len() {
                    assert(keys[i] == last.0);
                }
            }
        }
        if !keys.contains(last.0) {
            let kept = without(front, keys).push(last);
            assert(kept.drop_last() =~= without(front, keys));
            assert(kept.last() == last);
        }
    }
}

/// Putting an item into a set gives a set with that item and the old ones.
pub proof fn lemma_with_item<T>(items: Seq<T>, item: T)
    requires
        items.no_duplicates(),
    ensures
        with_item(items, item).no_duplicates(),
        forall|other: T|
            #![trigger with_item(items, item).contains(other)]
            #![trigger items.contains(other)]
            with_item(items, item).contains(other) <==> (other == item || items.contains(other)),
        items.len() <= with_item(items, item).len(),
{
    let after = with_item(items, item);
    if !items.contains(item) {
        assert(after[items.len() as int] == item);
        assert forall|other: T| after.contains(other) <==> (other == item || items.contains(
            other,
        )) by {
            if after.contains(other) {
                let i = choose|i: int| 0 <= i < after.len() && after[i] == other;
                if i < items.len() {
                    assert(items[i] == other);
                }
            }
            if items.contains(other) {
                let i = choose|i: int| 0 <= i < items.len() && items[i] == other;
                assert(after[i] == other);
            }
        }
    }
}

/// Putting items into a set gives a set with those items and the old ones.
pub proof fn lemma_with_items<T>(items: Seq<T>, more: Seq<T>)
    requires
        items.no_duplicates(),
    ensures
        with_items(items, more).no_duplicates(),
        forall|other: T|
            #![trigger with_items(items, more).contains(other)]
            #![trigger items.contains(other)]
            #![trigger more.contains(other)]
            with_items(items, more).contains(other) <==> (more.contains(other) || items.contains(
                other,
            )),
        items.len() <= with_items(items, more).len(),
    decreases more.len(),
{
    if more.len() > 0 {
        let front = more.drop_last();
        lemma_with_items(items, front);
        lemma_with_item(with_items(items, front), more.last());
        assert forall|other: T| more.contains(other) <==> (other == more.last() || front.contains(
            other,
        )) by {
            if more.contains(other) {
                let i = choose|i: int| 0 <= i < more.len() && more[i] == other;
                if i < front.len() {
                    assert(front[i] == other);
                }
            }
            if front.contains(other) {
                let i = choose|i: int| 0 <= i < front.len() && front[i] == other;
                assert(more[i] == other);
            }
            assert(more[more.len() - 1] == more.last());
        }
    }
}

/// Putting the items of a set into an empty set, first to last, gives the set
/// back.
pub proof fn lemma_with_items_of_set<T>(items: Seq<T>)
    requires
        items.no_duplicates(),
    ensures
        with_items(Seq::<T>::empty(), items) == items,
    decreases items.len(),
{
    if items.len() > 0 {
        let front = items.drop_last();
        lemma_with_items_of_set(front);
        assert(!front.contains(items.last())) by {
            if front.contains(items.last()) {
                let i = choose|i: int| 0 <= i < front.len() && front[i] == items.last();
                assert(items[i] == items[items.len() - 1]);
            }
        }
        assert(front.push(items.last()) =~= items);
    }
}

} // verus!
