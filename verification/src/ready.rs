//! The readiness barrier: a named set of boolean flags.
//!
//! The front end will not accept new input until every registered name
//! reports ready.  A name that was never registered is never waited on.

use vstd::prelude::*;
use crate::tagmap::{map_of_entries, distinct_tags, find_tag, lemma_map_of_contains,
    lemma_map_of_index, lemma_map_of_update, lemma_map_of_push};

verus! {

/// A finite map of worker names to readiness flags, stored as a vector of
/// entries with pairwise-distinct tags.
pub struct Ready {
    entries: Vec<(String, bool)>,
}

/// All registered names report ready.
pub open spec fn spec_all_ready(m: Map<Seq<char>, bool>) -> bool {
    forall|k: Seq<char>| m.contains_key(k) ==> m[k]
}

impl Ready {
    /// The barrier as a map from registered names to their flags.
    pub closed spec fn flags(&self) -> Map<Seq<char>, bool> {
        map_of_entries(self.entries@)
    }

    /// Well-formed: tags are stored without duplicates.  `new` establishes
    /// this and every method preserves it.
    pub closed spec fn wf(&self) -> bool {
        distinct_tags(self.entries@)
    }

    /// An empty barrier: no name is registered, so nothing blocks.
    pub fn new() -> (r: Self)
        ensures
            r.wf(),
            r.flags() == Map::<Seq<char>, bool>::empty(),
    {
        Ready { entries: Vec::new() }
    }

    /// Set `tag`'s flag, registering the tag if it was never seen before.
    fn set_flag(&mut self, tag: &str, value: bool)
        requires
            old(self).wf(),
        ensures
            final(self).wf(),
            final(self).flags() == old(self).flags().insert(tag@, value),
    {
        let entry = (String::from_str(tag), value);
        match find_tag(&self.entries, tag) {
            Some(i) => {
                proof {
                    lemma_map_of_update(self.entries@, i as int, entry);
                }
                self.entries.set(i, entry);
            },
            None => {
                proof {
                    lemma_map_of_push(self.entries@, entry);
                    assert forall|a: int, b: int|
                        0 <= a < self.entries@.push(entry).len() && 0 <= b < self.entries@.push(
                            entry,
                        ).len() && a != b implies self.entries@.push(entry)[a].0@
                        != self.entries@.push(entry)[b].0@ by {}
                }
                self.entries.push(entry);
            },
        }
    }

    /// Mark `tag` as busy: the barrier will hold until `tag` reports ready.
    pub fn not_ready(&mut self, tag: &str)
        requires
            old(self).wf(),
        ensures
            final(self).wf(),
            final(self).flags() == old(self).flags().insert(tag@, false),
    {
        self.set_flag(tag, false);
    }

    /// Mark `tag` as done with the current round.
    pub fn ready(&mut self, tag: &str)
        requires
            old(self).wf(),
        ensures
            final(self).wf(),
            final(self).flags() == old(self).flags().insert(tag@, true),
    {
        self.set_flag(tag, true);
    }

    /// Whether every registered name reports ready.  A name that never
    /// registered does not exist in the map and is not waited on.
    pub fn all_ready(&self) -> (r: bool)
        requires
            self.wf(),
        ensures
            r == spec_all_ready(self.flags()),
    {
        let n = self.entries.len();
        let mut i: usize = 0;
        while i < n
            invariant
                n == self.entries@.len(),
                i <= n,
                distinct_tags(self.entries@),
                forall|j: int| 0 <= j < i ==> self.entries@[j].1,
            decreases n - i,
        {
            if !self.entries[i].1 {
                proof {
                    lemma_map_of_index(self.entries@, i as int);
                }
                return false;
            }
            i += 1;
        }
        proof {
            assert forall|k: Seq<char>| self.flags().contains_key(k) implies self.flags()[k] by {
                lemma_map_of_contains(self.entries@, k);
                let j = choose|j: int| 0 <= j < self.entries@.len() && self.entries@[j].0@ == k;
                lemma_map_of_index(self.entries@, j);
            }
        }
        true
    }

    /// Set every registered name's flag to `value`; the set of registered
    /// names does not change.
    pub fn set_all(&mut self, value: bool)
        requires
            old(self).wf(),
        ensures
            final(self).wf(),
            final(self).flags().dom() == old(self).flags().dom(),
            forall|k: Seq<char>| #[trigger]
                final(self).flags().contains_key(k) ==> final(self).flags()[k] == value,
    {
        let n = self.entries.len();
        let mut i: usize = 0;
        while i < n
            invariant
                n == self.entries@.len(),
                i <= n,
                distinct_tags(self.entries@),
                self.entries@.len() == old(self).entries@.len(),
                forall|j: int| 0 <= j < n ==> self.entries@[j].0@ == old(self).entries@[j].0@,
                forall|j: int| 0 <= j < i ==> self.entries@[j].1 == value,
                forall|j: int| i <= j < n ==> self.entries@[j].1 == old(self).entries@[j].1,
            decreases n - i,
        {
            let tag = self.entries[i].0.clone();
            let ghost before = self.entries@;
            self.entries.set(i, (tag, value));
            proof {
                assert(self.entries@[i as int].0@ == before[i as int].0@);
            }
            i += 1;
        }
        proof {
            assert forall|k: Seq<char>|
                final(self).flags().contains_key(k) == old(self).flags().contains_key(k) by {
                lemma_map_of_contains(self.entries@, k);
                lemma_map_of_contains(old(self).entries@, k);
            }
            assert(final(self).flags().dom() =~= old(self).flags().dom());
            assert forall|k: Seq<char>| #[trigger]
                final(self).flags().contains_key(k) implies final(self).flags()[k] == value by {
                lemma_map_of_contains(self.entries@, k);
                let j = choose|j: int| 0 <= j < self.entries@.len() && self.entries@[j].0@ == k;
                lemma_map_of_index(self.entries@, j);
            }
        }
    }
}

/// Law: immediately after every registered flag is reset to false, the
/// barrier is closed as soon as at least one name is registered, and it opens
/// exactly when every registered name has reported ready since the reset.
///
/// `reset` is the barrier's map right after `set_all(false)`; `later` is any
/// map reached from it by flipping the names in `reported` to true.
pub proof fn lemma_barrier_round(
    reset: Map<Seq<char>, bool>,
    later: Map<Seq<char>, bool>,
    reported: Set<Seq<char>>,
)
    requires
        forall|k: Seq<char>| #[trigger] reset.contains_key(k) ==> !reset[k],
        later.dom() == reset.dom(),
        forall|k: Seq<char>| #[trigger]
            later.contains_key(k) ==> later[k] == reported.contains(k),
    ensures
        (exists|k: Seq<char>| reset.contains_key(k)) ==> !spec_all_ready(reset),
        spec_all_ready(later) <==> reset.dom().subset_of(reported),
{
    if exists|k: Seq<char>| reset.contains_key(k) {
        let k = choose|k: Seq<char>| reset.contains_key(k);
        assert(!reset[k]);
    }
    if spec_all_ready(later) {
        assert forall|k: Seq<char>| reset.dom().contains(k) implies reported.contains(k) by {
            assert(later.contains_key(k));
        }
    }
    if reset.dom().subset_of(reported) {
        assert forall|k: Seq<char>| later.contains_key(k) implies later[k] by {
            assert(reset.dom().contains(k));
        }
    }
}

} // verus!
