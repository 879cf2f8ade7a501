//! Process-wide control: a liveness flag, a registry of cancelable in-flight
//! operations, and independent feature flags.
//!
//! One `Status` value is shared (behind the caller's lock) by every worker;
//! `stop` flips liveness off and asks every registered operation to cancel
//! itself, best-effort.  Registering under an existing tag replaces the
//! previous handle without cancelling it: its owner is expected to notice
//! that liveness is gone by itself.

use vstd::prelude::*;
use crate::tagmap::{map_of_entries, distinct_tags, find_tag, lemma_map_of_update,
    lemma_map_of_push};

verus! {

/// `futures::future::AbortHandle`: the cancel handle for an abortable
/// future; declared so that the registry can hold it.
#[verifier::external_type_specification]
#[verifier::external_body]
pub struct ExAbortHandle(futures::future::AbortHandle);

/// Relies on futures::future::AbortHandle::abort: it tells the associated
/// task to stop; it promises nothing observable here.
pub assume_specification[ futures::future::AbortHandle::abort ](
    h: &futures::future::AbortHandle,
);

/// Relies on futures::future::AbortHandle::clone (a derived clone of a
/// shared inner handle): both handles cancel the same task; nothing more is
/// assumed of the copy.
pub assume_specification[ <futures::future::AbortHandle as Clone>::clone ](
    h: &futures::future::AbortHandle,
) -> (r: futures::future::AbortHandle);

pub struct Status {
    alive: bool,
    images: bool,
    abortables: Vec<(String, futures::future::AbortHandle)>,
}

impl Status {
    /// Whether the process is still meant to run.
    pub closed spec fn spec_alive(&self) -> bool {
        self.alive
    }

    /// Whether image replies are currently enabled; independent of liveness.
    pub closed spec fn spec_images(&self) -> bool {
        self.images
    }

    /// The registry of cancel handles, one per tag.
    pub closed spec fn registry(&self) -> Map<Seq<char>, futures::future::AbortHandle> {
        map_of_entries(self.abortables@)
    }

    /// Well-formed: registry tags are stored without duplicates.
    pub closed spec fn wf(&self) -> bool {
        distinct_tags(self.abortables@)
    }

    /// A fresh control object: alive, images off, nothing registered.
    pub fn new() -> (r: Self)
        ensures
            r.wf(),
            r.spec_alive(),
            !r.spec_images(),
            r.registry() == Map::<Seq<char>, futures::future::AbortHandle>::empty(),
    {
        Status { alive: true, images: false, abortables: Vec::new() }
    }

    /// Whether the process is still meant to run.
    pub fn is_alive(&self) -> (r: bool)
        ensures
            r == self.spec_alive(),
    {
        self.alive
    }

    /// Shut the process down: liveness goes false — for every holder of this
    /// control object, and irrevocably, since no method sets it back — and
    /// every registered operation is asked to cancel itself.  A cancellation
    /// that fails does not abort the stop sequence, and stopping twice is
    /// harmless.
    pub fn stop(&mut self)
        requires
            old(self).wf(),
        ensures
            final(self).wf(),
            !final(self).spec_alive(),
            final(self).spec_images() == old(self).spec_images(),
            final(self).registry() == old(self).registry(),
    {
        self.alive = false;
        let n = self.abortables.len();
        let mut i: usize = 0;
        while i < n
            invariant
                n == self.abortables@.len(),
            decreases n - i,
        {
            if i < self.abortables.len() {
                self.abortables[i].1.abort();
            }
            i += 1;
        }
    }

    /// Register `handle` as the one cancelable operation under `tag`,
    /// replacing — not cancelling — any handle the tag had before.
    pub fn add_abortable(&mut self, tag: &str, handle: futures::future::AbortHandle)
        requires
            old(self).wf(),
        ensures
            final(self).wf(),
            final(self).registry() == old(self).registry().insert(tag@, handle),
            final(self).spec_alive() == old(self).spec_alive(),
            final(self).spec_images() == old(self).spec_images(),
    {
        let entry = (String::from_str(tag), handle);
        match find_tag(&self.abortables, tag) {
            Some(i) => {
                proof {
                    lemma_map_of_update(self.abortables@, i as int, entry);
                }
                self.abortables.set(i, entry);
            },
            None => {
                proof {
                    lemma_map_of_push(self.abortables@, entry);
                    assert forall|a: int, b: int|
                        0 <= a < self.abortables@.push(entry).len() && 0 <= b
                            < self.abortables@.push(entry).len() && a != b implies
                        self.abortables@.push(entry)[a].0@ != self.abortables@.push(
                            entry,
                        )[b].0@ by {}
                }
                self.abortables.push(entry);
            },
        }
    }

    /// Turn image replies on or off; liveness and the registry are untouched.
    pub fn enable_images(&mut self, enabled: bool)
        ensures
            final(self).spec_images() == enabled,
            final(self).spec_alive() == old(self).spec_alive(),
            final(self).registry() == old(self).registry(),
            final(self).wf() == old(self).wf(),
    {
        self.images = enabled;
    }

    /// Whether image replies are currently enabled.
    pub fn images_enabled(&self) -> (r: bool)
        ensures
            r == self.spec_images(),
    {
        self.images
    }
}

} // verus!
