//! Sets of cash note identities, kept as vectors in which no identity occurs
//! twice.

use vstd::prelude::*;
use crate::entries::{with_item, with_items};
use crate::keys::UniquePubkey;

verus! {

/// Whether `id` is among `ids`.
pub fn contains_id(ids: &Vec<UniquePubkey>, id: &UniquePubkey) -> (r: bool)
    ensures
        r == ids@.contains(*id),
{
    let mut i: usize = 0;
    while i < ids.len()
        invariant
            i <= ids.len(),
            forall|j: int| 0 <= j < i ==> ids@[j] != *id,
        decreases ids.len() - i,
    {
        if ids[i].same(id) {
            return true;
        }
        i += 1;
    }
    false
}

/// Puts `id` into `ids` unless it is there already.
pub fn insert_id(ids: &mut Vec<UniquePubkey>, id: UniquePubkey)
    ensures
        final(ids)@ == with_item(old(ids)@, id),
{
    if !contains_id(ids, &id) {
        ids.push(id);
    }
}

/// Puts each identity of `more` into `ids`, first to last, unless it is there
/// already.
pub fn insert_ids(ids: &mut Vec<UniquePubkey>, more: &Vec<UniquePubkey>)
    ensures
        final(ids)@ == with_items(old(ids)@, more@),
{
    let mut i: usize = 0;
    while i < more.len()
        invariant
            i <= more.len(),
            ids@ == with_items(old(ids)@, more@.take(i as int)),
        decreases more.len() - i,
    {
        insert_id(ids, more[i]);
        proof {
            let next = more@.take(i + 1);
            assert(next.drop_last() =~= more@.take(i as int));
            assert(next.last() == more@[i as int]);
        }
        i += 1;
    }
    assert(more@.take(more@.len() as int) =~= more@);
}

/// Whether no identity occurs twice in `ids`.
pub fn all_distinct(ids: &Vec<UniquePubkey>) -> (r: bool)
    ensures
        r == ids@.no_duplicates(),
{
    let mut i: usize = 0;
    while i < ids.len()
        invariant
            i <= ids.len(),
            forall|a: int, b: int| 0 <= a < b < i ==> ids@[a] != ids@[b],
        decreases ids.len() - i,
    {
        let mut j: usize = 0;
        while j < i
            invariant
                j <= i,
                i < ids.len(),
                forall|a: int| 0 <= a < j ==> ids@[a] != ids@[i as int],
            decreases i - j,
        {
            if ids[j].same(&ids[i]) {
                assert(ids@[j as int] == ids@[i as int]);
                return false;
            }
            j += 1;
        }
        i += 1;
    }
    assert forall|a: int, b: int|
        0 <= a < ids@.len() && 0 <= b < ids@.len() && a != b implies ids@[a] != ids@[b] by {
        if a < b {
            assert(ids@[a] != ids@[b]);
        } else {
            assert(ids@[b] != ids@[a]);
        }
    }
    true
}

} // verus!
