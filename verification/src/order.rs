//! The order of cash note identities: that of their compressed bytes, compared
//! from the first byte on.

use vstd::prelude::*;
use crate::amount::Nano;
use crate::entries::{
    distinct_keys, has_key, index_of_key, lemma_index_of_key, lemma_put, put, value_of,
};
use crate::keys::UniquePubkey;

verus! {

/// Whether `a` comes before `b`: at the first place where their bytes differ,
/// the byte of `a` is the lower one.
pub open spec fn id_before(a: UniquePubkey, b: UniquePubkey) -> bool {
    exists|i: int|
        0 <= i < 48 && #[trigger] a.bytes@[i] < b.bytes@[i] && forall|j: int|
            0 <= j < i ==> a.bytes@[j] == b.bytes@[j]
}

/// The first place at or after `from` where the bytes of `a` and `b` differ;
/// 48 where they differ at none.
pub open spec fn first_difference(a: UniquePubkey, b: UniquePubkey, from: int) -> int
    decreases 48 - from,
{
    if 0 <= from < 48 && a.bytes@[from] == b.bytes@[from] {
        first_difference(a, b, from + 1)
    } else {
        from
    }
}

/// Up to their first difference two identities hold the same bytes.
pub proof fn lemma_first_difference(a: UniquePubkey, b: UniquePubkey, from: int)
    requires
        0 <= from <= 48,
    ensures
        from <= first_difference(a, b, from) <= 48,
        forall|j: int| from <= j < first_difference(a, b, from) ==> a.bytes@[j] == b.bytes@[j],
        first_difference(a, b, from) < 48 ==> a.bytes@[first_difference(a, b, from)]
            != b.bytes@[first_difference(a, b, from)],
    decreases 48 - from,
{
    if from < 48 && a.bytes@[from] == b.bytes@[from] {
        lemma_first_difference(a, b, from + 1);
    }
}

/// Of two different identities one comes before the other.
pub proof fn lemma_before_or_after(a: UniquePubkey, b: UniquePubkey)
    requires
        a != b,
    ensures
        id_before(a, b) || id_before(b, a),
{
    lemma_first_difference(a, b, 0);
    let at = first_difference(a, b, 0);
    if at == 48 {
        assert(a.bytes =~= b.bytes);
    } else if a.bytes@[at] < b.bytes@[at] {
        assert(id_before(a, b));
    } else {
        assert(b.bytes@[at] < a.bytes@[at]);
        assert forall|j: int| 0 <= j < at implies b.bytes@[j] == a.bytes@[j] by {}
        assert(id_before(b, a));
    }
}

/// No identity comes before itself, and none comes both before and after
/// another.
pub proof fn lemma_before_is_one_way(a: UniquePubkey, b: UniquePubkey)
    requires
        id_before(a, b),
    ensures
        a != b,
        !id_before(b, a),
{
    let i = choose|i: int|
        0 <= i < 48 && #[trigger] a.bytes@[i] < b.bytes@[i] && forall|j: int|
            0 <= j < i ==> a.bytes@[j] == b.bytes@[j];
    if id_before(b, a) {
        let k = choose|k: int|
            0 <= k < 48 && #[trigger] b.bytes@[k] < a.bytes@[k] && forall|j: int|
                0 <= j < k ==> b.bytes@[j] == a.bytes@[j];
        if k < i {
            assert(a.bytes@[k] == b.bytes@[k]);
        } else if i < k {
            assert(b.bytes@[i] == a.bytes@[i]);
        }
    }
}

/// What comes before something that comes before a third comes before the
/// third.
pub proof fn lemma_before_chains(a: UniquePubkey, b: UniquePubkey, c: UniquePubkey)
    requires
        id_before(a, b),
        id_before(b, c),
    ensures
        id_before(a, c),
{
    let i = choose|i: int|
        0 <= i < 48 && #[trigger] a.bytes@[i] < b.bytes@[i] && forall|j: int|
            0 <= j < i ==> a.bytes@[j] == b.bytes@[j];
    let k = choose|k: int|
        0 <= k < 48 && #[trigger] b.bytes@[k] < c.bytes@[k] && forall|j: int|
            0 <= j < k ==> b.bytes@[j] == c.bytes@[j];
    let at = if i <= k {
        i
    } else {
        k
    };
    assert(a.bytes@[at] < c.bytes@[at]) by {
        if i < k {
            assert(b.bytes@[i] == c.bytes@[i]);
        } else if k < i {
            assert(a.bytes@[k] == b.bytes@[k]);
        }
    }
    assert forall|j: int| 0 <= j < at implies a.bytes@[j] == c.bytes@[j] by {
        assert(a.bytes@[j] == b.bytes@[j]);
        assert(b.bytes@[j] == c.bytes@[j]);
    }
}

/// Whether `a` comes before `b`.
pub fn comes_before(a: &UniquePubkey, b: &UniquePubkey) -> (r: bool)
    ensures
        r == id_before(*a, *b),
{
    let mut i: usize = 0;
    while i < 48
        invariant
            i <= 48,
            forall|j: int| 0 <= j < i ==> a.bytes@[j] == b.bytes@[j],
        decreases 48 - i,
    {
        if a.bytes[i] < b.bytes[i] {
            assert(a.bytes@[i as int] < b.bytes@[i as int]);
            return true;
        }
        if a.bytes[i] > b.bytes[i] {
            proof {
                assert(b.bytes@[i as int] < a.bytes@[i as int]);
                assert forall|j: int| 0 <= j < i implies b.bytes@[j] == a.bytes@[j] by {}
                assert(id_before(*b, *a));
                if id_before(*a, *b) {
                    lemma_before_is_one_way(*a, *b);
                }
            }
            return false;
        }
        i += 1;
    }
    proof {
        assert(a.bytes =~= b.bytes);
        if id_before(*a, *b) {
            lemma_before_is_one_way(*a, *b);
        }
    }
    false
}

/// Whether the identities of `entries` ascend.
pub open spec fn is_ascending(entries: Seq<(UniquePubkey, Nano)>) -> bool {
    forall|i: int, j: int|
        0 <= i < j < entries.len() ==> id_before(
            (#[trigger] entries[i]).0,
            (#[trigger] entries[j]).0,
        )
}

/// The first place at or after `from` in `sorted` whose identity does not come
/// before `id`; the length where there is none.
pub open spec fn place_of(sorted: Seq<(UniquePubkey, Nano)>, id: UniquePubkey, from: int) -> int
    decreases sorted.len() - from,
{
    if 0 <= from < sorted.len() && id_before(sorted[from].0, id) {
        place_of(sorted, id, from + 1)
    } else {
        from
    }
}

/// `sorted` with `entry` put in at its place.
pub open spec fn insert_ascending(sorted: Seq<(UniquePubkey, Nano)>, entry: (UniquePubkey, Nano))
    -> Seq<(UniquePubkey, Nano)> {
    sorted.insert(place_of(sorted, entry.0, 0), entry)
}

/// The pairs of `entries` in the ascending order of their identities.
pub open spec fn ascending(entries: Seq<(UniquePubkey, Nano)>) -> Seq<(UniquePubkey, Nano)>
    decreases entries.len(),
{
    if entries.len() == 0 {
        entries
    } else {
        insert_ascending(ascending(entries.drop_last()), entries.last())
    }
}

/// The place of an identity lies behind all that come before it.
pub proof fn lemma_place_of(sorted: Seq<(UniquePubkey, Nano)>, id: UniquePubkey, from: int)
    requires
        0 <= from <= sorted.len(),
    ensures
        from <= place_of(sorted, id, from) <= sorted.len(),
        forall|j: int|
            from <= j < place_of(sorted, id, from) ==> id_before((#[trigger] sorted[j]).0, id),
        place_of(sorted, id, from) < sorted.len() ==> !id_before(
            sorted[place_of(sorted, id, from)].0,
            id,
        ),
    decreases sorted.len() - from,
{
    if from < sorted.len() && id_before(sorted[from].0, id) {
        lemma_place_of(sorted, id, from + 1);
    }
}

/// Ascending identities are all different.
pub proof fn lemma_ascending_is_distinct(entries: Seq<(UniquePubkey, Nano)>)
    requires
        is_ascending(entries),
    ensures
        distinct_keys(entries),
{
    assert forall|i: int, j: int| 0 <= i < j < entries.len() implies (#[trigger] entries[i]).0
        != (#[trigger] entries[j]).0 by {
        lemma_before_is_one_way(entries[i].0, entries[j].0);
    }
}

/// Putting a pair with a new identity in at its place keeps the order, and
/// adds just that pair.
pub proof fn lemma_insert_ascending(
    sorted: Seq<(UniquePubkey, Nano)>,
    entry: (UniquePubkey, Nano),
)
    requires
        is_ascending(sorted),
        !has_key(sorted, entry.0),
    ensures
        is_ascending(insert_ascending(sorted, entry)),
        insert_ascending(sorted, entry).len() == sorted.len() + 1,
        forall|key: UniquePubkey|
            #![trigger has_key(insert_ascending(sorted, entry), key)]
            has_key(insert_ascending(sorted, entry), key) <==> (key == entry.0 || has_key(
                sorted,
                key,
            )),
        forall|key: UniquePubkey|
            #![trigger value_of(insert_ascending(sorted, entry), key)]
            value_of(insert_ascending(sorted, entry), key) == (if key == entry.0 {
                Some(entry.1)
            } else {
                value_of(sorted, key)
            }),
{
    let at = place_of(sorted, entry.0, 0);
    let after = insert_ascending(sorted, entry);
    lemma_place_of(sorted, entry.0, 0);
    assert(after[at] == entry);
    assert forall|i: int| 0 <= i < at implies #[trigger] after[i] == sorted[i] by {}
    assert forall|i: int| at < i < after.len() implies #[trigger] after[i] == sorted[i - 1] by {}
    assert forall|j: int| at <= j < sorted.len() implies id_before(
        entry.0,
        (#[trigger] sorted[j]).0,
    ) by {
        assert(sorted[at].0 != entry.0) by {
            if sorted[at].0 == entry.0 {
                assert(has_key(sorted, entry.0));
            }
        }
        lemma_before_or_after(sorted[at].0, entry.0);
        if at < j {
            assert(id_before(sorted[at].0, sorted[j].0));
            lemma_before_chains(entry.0, sorted[at].0, sorted[j].0);
        }
    }
    assert forall|i: int, j: int| 0 <= i < j < after.len() implies id_before(
        (#[trigger] after[i]).0,
        (#[trigger] after[j]).0,
    ) by {
        if j < at {
            assert(id_before(sorted[i].0, sorted[j].0));
        } else if j == at {
            assert(id_before(sorted[i].0, entry.0));
        } else if i == at {
            assert(id_before(entry.0, sorted[j - 1].0));
        } else if i < at {
            assert(id_before(sorted[i].0, sorted[j - 1].0));
        } else {
            assert(id_before(sorted[i - 1].0, sorted[j - 1].0));
        }
    }
    lemma_ascending_is_distinct(sorted);
    lemma_ascending_is_distinct(after);
    assert forall|key: UniquePubkey| has_key(after, key) <==> (key == entry.0 || has_key(
        sorted,
        key,
    )) by {
        if has_key(after, key) {
            let i = index_of_key(after, key);
            if i < at {
                assert(sorted[i].0 == key);
            } else if i > at {
                assert(sorted[i - 1].0 == key);
            }
        }
        if has_key(sorted, key) {
            let i = index_of_key(sorted, key);
            if i < at {
                assert(after[i].0 == key);
            } else {
                assert(after[i + 1].0 == key);
            }
        }
        assert(after[at].0 == entry.0);
    }
    assert forall|key: UniquePubkey|
        value_of(after, key) == (if key == entry.0 {
            Some(entry.1)
        } else {
            value_of(sorted, key)
        }) by {
        if key == entry.0 {
            lemma_index_of_key(after, at);
        } else if has_key(sorted, key) {
            let i = index_of_key(sorted, key);
            lemma_index_of_key(sorted, i);
            if i < at {
                assert(after[i] == sorted[i]);
                lemma_index_of_key(after, i);
            } else {
                assert(after[i + 1] == sorted[i]);
                lemma_index_of_key(after, i + 1);
            }
        }
    }
}

/// The pairs of a map in ascending order are the pairs of the map, and their
/// identities ascend.
pub proof fn lemma_ascending(entries: Seq<(UniquePubkey, Nano)>)
    requires
        distinct_keys(entries),
    ensures
        is_ascending(ascending(entries)),
        ascending(entries).len() == entries.len(),
        forall|key: UniquePubkey|
            #![trigger has_key(ascending(entries), key)]
            has_key(ascending(entries), key) <==> has_key(entries, key),
        forall|key: UniquePubkey|
            #![trigger value_of(ascending(entries), key)]
            value_of(ascending(entries), key) == value_of(entries, key),
    decreases entries.len(),
{
    if entries.len() > 0 {
        let front = entries.drop_last();
        let last = entries.last();
        assert(distinct_keys(front)) by {
            assert forall|i: int, j: int| 0 <= i < j < front.len() implies (#[trigger] front[i]).0
                != (#[trigger] front[j]).0 by {
                assert(entries[i].0 != entries[j].0);
            }
        }
        assert(!has_key(front, last.0)) by {
            if has_key(front, last.0) {
                let i = index_of_key(front, last.0);
                assert(entries[i].0 != entries[entries.len() - 1].0);
            }
        }
        lemma_ascending(front);
        lemma_insert_ascending(ascending(front), last);
        assert(put(front, last.0, last.1) =~= entries);
        lemma_put(front, last.0, last.1);
    } else {
        assert forall|key: UniquePubkey| !has_key(entries, key) by {}
    }
}

/// The pairs of `entries` in the ascending order of their identities.
pub fn in_ascending_order(entries: &Vec<(UniquePubkey, Nano)>) -> (r: Vec<(UniquePubkey, Nano)>)
    ensures
        r@ == ascending(entries@),
{
    let mut sorted: Vec<(UniquePubkey, Nano)> = Vec::new();
    let mut i: usize = 0;
    while i < entries.len()
        invariant
            i <= entries.len(),
            sorted@ == ascending(entries@.take(i as int)),
        decreases entries.len() - i,
    {
        let entry = entries[i];
        let mut at: usize = 0;
        while at < sorted.len() && comes_before(&sorted[at].0, &entry.0)
            invariant
                at <= sorted.len(),
                place_of(sorted@, entry.0, 0) == place_of(sorted@, entry.0, at as int),
            decreases sorted.len() - at,
        {
            at += 1;
        }
        sorted.insert(at, entry);
        proof {
            let next = entries@.take(i + 1);
            assert(next.drop_last() =~= entries@.take(i as int));
            assert(next.last() == entry);
        }
        i += 1;
    }
    assert(entries@.take(entries@.len() as int) =~= entries@);
    sorted
}

} // verus!
