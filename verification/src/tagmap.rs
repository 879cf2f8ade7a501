//! An association vector keyed by string tags, viewed as a finite map.
//!
//! Shared by the readiness barrier and the abortable registry: both keep a
//! small vector of (tag, value) entries with pairwise-distinct tags.

use vstd::prelude::*;
use crate::strutil::str_eq;

verus! {

/// The map described by a sequence of (tag, value) entries; a later entry
/// for the same tag wins.
pub open spec fn map_of_entries<V>(entries: Seq<(String, V)>) -> Map<Seq<char>, V>
    decreases entries.len(),
{
    if entries.len() == 0 {
        Map::empty()
    } else {
        map_of_entries(entries.drop_last()).insert(entries.last().0@, entries.last().1)
    }
}

/// Tags are pairwise distinct.
pub open spec fn distinct_tags<V>(entries: Seq<(String, V)>) -> bool {
    forall|i: int, j: int|
        0 <= i < entries.len() && 0 <= j < entries.len() && i != j ==> entries[i].0@
            != entries[j].0@
}

pub proof fn lemma_map_of_contains<V>(entries: Seq<(String, V)>, k: Seq<char>)
    ensures
        map_of_entries(entries).contains_key(k) <==> exists|i: int|
            0 <= i < entries.len() && entries[i].0@ == k,
    decreases entries.len(),
{
    if entries.len() == 0 {
    } else {
        lemma_map_of_contains(entries.drop_last(), k);
        if map_of_entries(entries).contains_key(k) {
            if entries.last().0@ == k {
                assert(entries[entries.len() - 1].0@ == k);
            } else {
                let i = choose|i: int|
                    0 <= i < entries.drop_last().len() && entries.drop_last()[i].0@ == k;
                assert(entries[i].0@ == k);
            }
        }
        if exists|i: int| 0 <= i < entries.len() && entries[i].0@ == k {
            let i = choose|i: int| 0 <= i < entries.len() && entries[i].0@ == k;
            if i < entries.len() - 1 {
                assert(entries.drop_last()[i].0@ == k);
            }
        }
    }
}

pub proof fn lemma_map_of_index<V>(entries: Seq<(String, V)>, i: int)
    requires
        distinct_tags(entries),
        0 <= i < entries.len(),
    ensures
        map_of_entries(entries).contains_key(entries[i].0@),
        map_of_entries(entries)[entries[i].0@] == entries[i].1,
    decreases entries.len(),
{
    if i == entries.len() - 1 {
    } else {
        assert(distinct_tags(entries.drop_last())) by {
            assert(forall|a: int, b: int|
                0 <= a < entries.drop_last().len() && 0 <= b < entries.drop_last().len() && a != b
                    ==> entries.drop_last()[a].0@ != entries.drop_last()[b].0@);
        }
        lemma_map_of_index(entries.drop_last(), i);
        assert(entries.drop_last()[i] == entries[i]);
        assert(entries[i].0@ != entries.last().0@);
    }
}

pub proof fn lemma_map_of_update<V>(entries: Seq<(String, V)>, i: int, e: (String, V))
    requires
        distinct_tags(entries),
        0 <= i < entries.len(),
        e.0@ == entries[i].0@,
    ensures
        map_of_entries(entries.update(i, e)) == map_of_entries(entries).insert(e.0@, e.1),
    decreases entries.len(),
{
    let updated = entries.update(i, e);
    if i == entries.len() - 1 {
        assert(updated.drop_last() =~= entries.drop_last());
        assert(updated.last() == e);
    } else {
        assert(distinct_tags(entries.drop_last())) by {
            assert(forall|a: int, b: int|
                0 <= a < entries.drop_last().len() && 0 <= b < entries.drop_last().len() && a != b
                    ==> entries.drop_last()[a].0@ != entries.drop_last()[b].0@);
        }
        lemma_map_of_update(entries.drop_last(), i, e);
        assert(updated.drop_last() =~= entries.drop_last().update(i, e));
        assert(updated.last() == entries.last());
        assert(entries[i].0@ != entries.last().0@);
        assert(map_of_entries(updated) =~= map_of_entries(entries).insert(e.0@, e.1));
    }
}

pub proof fn lemma_map_of_push<V>(entries: Seq<(String, V)>, e: (String, V))
    ensures
        map_of_entries(entries.push(e)) == map_of_entries(entries).insert(e.0@, e.1),
{
    assert(entries.push(e).drop_last() =~= entries);
}

/// Index of the entry for `tag`, if present.
pub fn find_tag<V>(entries: &Vec<(String, V)>, tag: &str) -> (r: Option<usize>)
    ensures
        match r {
            Some(i) => i < entries@.len() && entries@[i as int].0@ == tag@,
            None => forall|i: int| 0 <= i < entries@.len() ==> entries@[i].0@ != tag@,
        },
{
    let n = entries.len();
    let mut i: usize = 0;
    while i < n
        invariant
            n == entries@.len(),
            i <= n,
            forall|j: int| 0 <= j < i ==> entries@[j].0@ != tag@,
        decreases n - i,
    {
        if str_eq(entries[i].0.as_str(), tag) {
            return Some(i);
        }
        i += 1;
    }
    None
}

} // verus!
