//! The conversation context manager: the active dialogue window that is fed
//! to the inference backend, and the durable journal of every turn.
//!
//! The window is bounded by `max_context` (0 means unbounded): before each
//! appended turn, the oldest user turns and, independently, the oldest agent
//! turns are dropped until the window is at the bound.  The journal keeps
//! every turn forever, ordered by a strictly increasing sequence id that
//! resumes from the highest loaded id plus one.

use vstd::prelude::*;
use crate::Error;
use crate::journal::{parse_journal, encode_journal, journal_from_text, journal_to_text};
use crate::swap::{swap_persons, swapped};

verus! {

broadcast use vstd::seq_lib::group_to_multiset_ensures;

/// Who uttered a turn.
#[derive(Clone, Copy, Debug, PartialEq, Eq, Structural)]
pub enum Speaker {
    /// The human user.
    Me,
    /// The agent.
    Bot,
}

/// One journaled turn: a speaker, a sequence id, and the utterance itself.
/// Immutable once created.
#[derive(Clone, Debug)]
pub struct Past {
    pub speaker: Speaker,
    pub id: u64,
    pub message: String,
}

/// The mathematical shape of a turn.
pub ghost struct PastView {
    pub speaker: Speaker,
    pub id: u64,
    pub message: Seq<char>,
}

impl View for Past {
    type V = PastView;

    open spec fn view(&self) -> PastView {
        PastView { speaker: self.speaker, id: self.id, message: self.message@ }
    }
}

impl DeepView for Past {
    type V = PastView;

    open spec fn deep_view(&self) -> PastView {
        self@
    }
}

/// The full turn history of a session, ordered by id.
#[derive(Clone, Debug)]
pub struct History {
    pub history: Vec<Past>,
}

impl View for History {
    type V = Seq<PastView>;

    open spec fn view(&self) -> Seq<PastView> {
        self.history.deep_view()
    }
}

/// Ids never decrease along the journal.
pub open spec fn sorted_by_id(j: Seq<PastView>) -> bool {
    forall|i: int, k: int| 0 <= i < k < j.len() ==> #[trigger] j[i].id <= #[trigger] j[k].id
}

/// The id the manager assigns to the next turn: one past the last id, or 0
/// in an empty journal.
pub open spec fn next_id_of(j: Seq<PastView>) -> u64 {
    if j.len() == 0 {
        0
    } else {
        (j.last().id + 1) as u64
    }
}

/// A window with its oldest turns dropped down to the bound; a zero bound
/// means unbounded and drops nothing.
pub open spec fn trimmed(w: Seq<Seq<char>>, max: nat) -> Seq<Seq<char>> {
    if max > 0 && w.len() > max {
        w.skip((w.len() - max) as int)
    } else {
        w
    }
}

/// One replayed turn: both windows are trimmed as for a live turn, then the
/// message joins the speaker's window.
pub open spec fn replay_step(
    wu: Seq<Seq<char>>,
    wa: Seq<Seq<char>>,
    max: nat,
    p: PastView,
) -> (Seq<Seq<char>>, Seq<Seq<char>>) {
    let wu1 = trimmed(wu, max);
    let wa1 = trimmed(wa, max);
    match p.speaker {
        Speaker::Me => (wu1.push(p.message), wa1),
        Speaker::Bot => (wu1, wa1.push(p.message)),
    }
}

/// The windows after replaying `ps` turn by turn.
pub open spec fn replay(
    wu: Seq<Seq<char>>,
    wa: Seq<Seq<char>>,
    max: nat,
    ps: Seq<PastView>,
) -> (Seq<Seq<char>>, Seq<Seq<char>>)
    decreases ps.len(),
{
    if ps.len() == 0 {
        (wu, wa)
    } else {
        let (wu1, wa1) = replay_step(wu, wa, max, ps.first());
        replay(wu1, wa1, max, ps.drop_first())
    }
}

proof fn lemma_replay_snoc(wu: Seq<Seq<char>>, wa: Seq<Seq<char>>, max: nat, ps: Seq<PastView>, p: PastView)
    ensures
        replay(wu, wa, max, ps.push(p)) == replay_step(
            replay(wu, wa, max, ps).0,
            replay(wu, wa, max, ps).1,
            max,
            p,
        ),
    decreases ps.len(),
{
    if ps.len() == 0 {
        assert(ps.push(p).drop_first() =~= Seq::<PastView>::empty());
        assert(ps.push(p).first() == p);
        let (wu1, wa1) = replay_step(wu, wa, max, p);
        assert(replay(wu1, wa1, max, Seq::<PastView>::empty()) == (wu1, wa1));
        assert(replay(wu, wa, max, ps) == (wu, wa));
    } else {
        assert(ps.push(p).first() == ps.first());
        assert(ps.push(p).drop_first() =~= ps.drop_first().push(p));
        let (wu1, wa1) = replay_step(wu, wa, max, ps.first());
        lemma_replay_snoc(wu1, wa1, max, ps.drop_first(), p);
    }
}

/// Law: trimming is idempotent — a window already at or under the bound is
/// left exactly as it is — and a zero bound never trims, whatever the
/// window's size.
pub proof fn lemma_trim(w: Seq<Seq<char>>, max: nat)
    ensures
        trimmed(trimmed(w, max), max) == trimmed(w, max),
        trimmed(w, 0) == w,
        max > 0 ==> trimmed(w, max).len() <= max,
{
}

/// Law: the id assigned to the next turn is strictly greater than every id
/// already present, loaded or assigned.
pub proof fn lemma_monotonic_ids(j: Seq<PastView>)
    requires
        sorted_by_id(j),
        j.len() > 0 ==> j.last().id < u64::MAX,
    ensures
        forall|i: int| 0 <= i < j.len() ==> #[trigger] j[i].id < next_id_of(j),
{
    assert forall|i: int| 0 <= i < j.len() implies #[trigger] j[i].id < next_id_of(j) by {
        assert(j[i].id <= j[j.len() - 1].id);
    }
}

/// Removes the first `k` elements.
fn drop_front(v: &mut Vec<String>, k: usize)
    requires
        k <= old(v)@.len(),
    ensures
        final(v)@ == old(v)@.skip(k as int),
{
    let mut i: usize = 0;
    while i < k
        invariant
            i <= k,
            k <= old(v)@.len(),
            v@ == old(v)@.skip(i as int),
        decreases k - i,
    {
        v.remove(0);
        proof {
            assert(old(v)@.skip(i as int).remove(0) =~= old(v)@.skip(i + 1 as int));
        }
        i += 1;
    }
}

/// Whether the journal entries are already in id order.
fn is_sorted_by_id(v: &Vec<Past>) -> (r: bool)
    ensures
        r == sorted_by_id(v.deep_view()),
{
    let n = v.len();
    let mut i: usize = 1;
    while i < n
        invariant
            1 <= i || n == 0,
            i <= n || n == 0,
            n == v@.len(),
            forall|a: int, b: int|
                0 <= a < b < i ==> #[trigger] v.deep_view()[a].id <= #[trigger] v.deep_view()[b].id,
        decreases n - i,
    {
        if v[i - 1].id > v[i].id {
            proof {
                assert(v.deep_view()[i - 1].id > v.deep_view()[i as int].id);
            }
            return false;
        }
        proof {
            assert forall|a: int, b: int| 0 <= a < b < i + 1 implies #[trigger] v.deep_view()[a].id
                <= #[trigger] v.deep_view()[b].id by {
                if b == i {
                    assert(v.deep_view()[a].id <= v.deep_view()[i - 1].id);
                }
            }
        }
        i += 1;
    }
    true
}

/// The entries in id order; an already-sorted vector comes back unchanged,
/// so a well-formed journal keeps its exact turn order.
fn sort_by_id(v: Vec<Past>) -> (r: Vec<Past>)
    ensures
        sorted_by_id(r.deep_view()),
        r.deep_view().to_multiset() == v.deep_view().to_multiset(),
        sorted_by_id(v.deep_view()) ==> r@ == v@,
{
    if is_sorted_by_id(&v) {
        return v;
    }
    let ghost orig = v.deep_view();
    let mut src = v;
    let mut out: Vec<Past> = Vec::new();
    proof {
        assert(out.deep_view() =~= Seq::<PastView>::empty());
        assert(out.deep_view().to_multiset().add(src.deep_view().to_multiset())
            =~= orig.to_multiset());
    }
    while src.len() > 0
        invariant
            sorted_by_id(out.deep_view()),
            out.deep_view().to_multiset().add(src.deep_view().to_multiset())
                == orig.to_multiset(),
        decreases src@.len(),
    {
        let ghost src_pre = src.deep_view();
        let ghost out_pre = out.deep_view();
        let x = src.remove(0);
        proof {
            assert(src.deep_view() =~= src_pre.remove(0));
            assert(src_pre[0] == x@);
        }
        // find the first position whose id exceeds the new entry's id
        let n = out.len();
        let mut j: usize = 0;
        while j < n && out[j].id <= x.id
            invariant
                j <= n,
                n == out@.len(),
                forall|k: int| 0 <= k < j ==> #[trigger] out.deep_view()[k].id <= x@.id,
            decreases n - j,
        {
            proof {
                assert(out.deep_view()[j as int].id <= x@.id);
            }
            j += 1;
        }
        proof {
            assert(forall|k: int| 0 <= k < j ==> #[trigger] out.deep_view()[k].id <= x@.id);
            assert(j < n ==> out.deep_view()[j as int].id > x@.id);
        }
        out.insert(j, x);
        proof {
            assert(out.deep_view() =~= out_pre.insert(j as int, x@));
            assert forall|a: int, b: int| 0 <= a < b < out.deep_view().len() implies #[trigger] out.deep_view()[a].id
                <= #[trigger] out.deep_view()[b].id by {
                let ov = out.deep_view();
                if a < j && b == j {
                } else if a == j && b > j {
                    assert(ov[b] == out_pre[b - 1]);
                    assert(out_pre[j as int].id > x@.id);
                    assert(out_pre[j as int].id <= out_pre[b - 1].id);
                } else if a < j && b > j {
                    assert(ov[a] == out_pre[a]);
                    assert(ov[b] == out_pre[b - 1]);
                } else if a > j && b > j {
                    assert(ov[a] == out_pre[a - 1]);
                    assert(ov[b] == out_pre[b - 1]);
                }
            }
            assert(out.deep_view().to_multiset().add(src.deep_view().to_multiset())
                =~= orig.to_multiset());
        }
    }
    proof {
        assert(src.deep_view() =~= Seq::<PastView>::empty());
        assert(out.deep_view().to_multiset() =~= orig.to_multiset());
    }
    out
}

/// The conversation context manager.
pub struct Conv {
    max_context: usize,
    window_user: Vec<String>,
    window_agent: Vec<String>,
    history: Vec<Past>,
}

impl Conv {
    /// The configured window bound; 0 means unbounded.
    pub closed spec fn max_ctx(&self) -> nat {
        self.max_context as nat
    }

    /// The user turns currently live in the inference window.
    pub closed spec fn user_window(&self) -> Seq<Seq<char>> {
        self.window_user.deep_view()
    }

    /// The agent turns currently live in the inference window.
    pub closed spec fn agent_window(&self) -> Seq<Seq<char>> {
        self.window_agent.deep_view()
    }

    /// The journal: every turn ever recorded, in id order.
    pub closed spec fn journal(&self) -> Seq<PastView> {
        self.history.deep_view()
    }

    /// Well-formed: the journal is in id order.  `new` establishes this and
    /// every method preserves it.
    pub open spec fn wf(&self) -> bool {
        sorted_by_id(self.journal())
    }

    /// Whether one more id can be assigned without exhausting the id space.
    pub open spec fn can_assign_id(&self) -> bool {
        self.journal().len() > 0 ==> self.journal().last().id < u64::MAX
    }

    /// The id the next recorded turn will carry.
    pub open spec fn next_id(&self) -> u64 {
        next_id_of(self.journal())
    }

    /// A fresh session: empty windows, empty journal.
    pub fn new(max_context: usize) -> (r: Self)
        ensures
            r.wf(),
            r.max_ctx() == max_context as nat,
            r.user_window() == Seq::<Seq<char>>::empty(),
            r.agent_window() == Seq::<Seq<char>>::empty(),
            r.journal() == Seq::<PastView>::empty(),
    {
        let r = Conv {
            max_context,
            window_user: Vec::new(),
            window_agent: Vec::new(),
            history: Vec::new(),
        };
        proof {
            assert(r.user_window() =~= Seq::<Seq<char>>::empty());
            assert(r.agent_window() =~= Seq::<Seq<char>>::empty());
            assert(r.journal() =~= Seq::<PastView>::empty());
        }
        r
    }

    /// The journal entries, for reading and saving.
    pub fn history(&self) -> (r: &Vec<Past>)
        ensures
            r.deep_view() == self.journal(),
    {
        &self.history
    }

    /// The user turns live in the window, oldest first.
    pub fn window_user(&self) -> (r: &Vec<String>)
        ensures
            r.deep_view() == self.user_window(),
    {
        &self.window_user
    }

    /// The agent turns live in the window, oldest first.
    pub fn window_agent(&self) -> (r: &Vec<String>)
        ensures
            r.deep_view() == self.agent_window(),
    {
        &self.window_agent
    }

    /// Record one turn in the journal under the next id.  The id is strictly
    /// greater than every id already present.
    pub fn add_to_journel(&mut self, speaker: Speaker, message: &str)
        requires
            old(self).wf(),
            old(self).can_assign_id(),
        ensures
            final(self).wf(),
            final(self).journal() == old(self).journal().push(
                PastView { speaker, id: old(self).next_id(), message: message@ },
            ),
            final(self).user_window() == old(self).user_window(),
            final(self).agent_window() == old(self).agent_window(),
            final(self).max_ctx() == old(self).max_ctx(),
    {
        let n = self.history.len();
        let new_id: u64 = if n == 0 {
            0
        } else {
            self.history[n - 1].id + 1
        };
        proof {
            assert(n > 0 ==> self.history@[n - 1 as int]@ == self.journal().last());
        }
        self.history.push(Past { speaker, id: new_id, message: String::from_str(message) });
        proof {
            let j = final(self).journal();
            assert(j =~= old(self).journal().push(
                PastView { speaker, id: old(self).next_id(), message: message@ },
            ));
            lemma_monotonic_ids(old(self).journal());
            assert forall|a: int, b: int| 0 <= a < b < j.len() implies #[trigger] j[a].id
                <= #[trigger] j[b].id by {
                if b == j.len() - 1 {
                    assert(j[a] == old(self).journal()[a]);
                }
            }
        }
    }

    /// Trim both windows to the bound, dropping oldest turns first; with a
    /// zero bound nothing is ever dropped.
    pub fn trim_window(&mut self)
        ensures
            final(self).user_window() == trimmed(old(self).user_window(), old(self).max_ctx()),
            final(self).agent_window() == trimmed(old(self).agent_window(), old(self).max_ctx()),
            final(self).journal() == old(self).journal(),
            final(self).max_ctx() == old(self).max_ctx(),
            final(self).wf() == old(self).wf(),
    {
        if self.max_context > 0 {
            if self.window_user.len() > self.max_context {
                let k = self.window_user.len() - self.max_context;
                drop_front(&mut self.window_user, k);
                proof {
                    assert(self.window_user.deep_view() =~= trimmed(
                        old(self).user_window(),
                        old(self).max_ctx(),
                    ));
                }
            }
            if self.window_agent.len() > self.max_context {
                let k = self.window_agent.len() - self.max_context;
                drop_front(&mut self.window_agent, k);
                proof {
                    assert(self.window_agent.deep_view() =~= trimmed(
                        old(self).agent_window(),
                        old(self).max_ctx(),
                    ));
                }
            }
        }
    }

    /// One arriving user utterance: journal it, trim the window, append it
    /// to the live user turns, and return the prompt — the utterance with
    /// grammatical persons swapped — to hand to the inference backend.
    pub fn hear(&mut self, input: &str) -> (prompt: String)
        requires
            old(self).wf(),
            old(self).can_assign_id(),
        ensures
            final(self).wf(),
            prompt@ == swapped(input@),
            final(self).journal() == old(self).journal().push(
                PastView { speaker: Speaker::Me, id: old(self).next_id(), message: input@ },
            ),
            final(self).user_window() == trimmed(
                old(self).user_window(),
                old(self).max_ctx(),
            ).push(prompt@),
            final(self).agent_window() == trimmed(old(self).agent_window(), old(self).max_ctx()),
            final(self).max_ctx() == old(self).max_ctx(),
    {
        self.add_to_journel(Speaker::Me, input);
        self.trim_window();
        let prompt = swap_persons(input);
        let ghost wu = self.window_user.deep_view();
        self.window_user.push(prompt.clone());
        proof {
            assert(self.window_user.deep_view() =~= wu.push(prompt@));
        }
        prompt
    }

    /// The backend's answer for the round: an absent or empty reply aborts
    /// the round with `UnableToSpeak` — the user turn stays journaled — and
    /// a real reply is journaled, joins the live agent turns, and is handed
    /// back to the caller.
    pub fn reply(&mut self, response: Option<String>) -> (r: Result<String, Error>)
        requires
            old(self).wf(),
            old(self).can_assign_id(),
        ensures
            final(self).wf(),
            final(self).max_ctx() == old(self).max_ctx(),
            final(self).user_window() == old(self).user_window(),
            match response {
                None => {
                    &&& r == Err::<String, Error>(Error::UnableToSpeak)
                    &&& final(self).journal() == old(self).journal()
                    &&& final(self).agent_window() == old(self).agent_window()
                },
                Some(text) => {
                    if text@.len() == 0 {
                        &&& r == Err::<String, Error>(Error::UnableToSpeak)
                        &&& final(self).journal() == old(self).journal()
                        &&& final(self).agent_window() == old(self).agent_window()
                    } else {
                        &&& r == Ok::<String, Error>(text)
                        &&& final(self).journal() == old(self).journal().push(
                            PastView {
                                speaker: Speaker::Bot,
                                id: old(self).next_id(),
                                message: text@,
                            },
                        )
                        &&& final(self).agent_window() == old(self).agent_window().push(text@)
                    }
                },
            },
    {
        match response {
            None => Err(Error::UnableToSpeak),
            Some(text) => {
                if text.as_str().is_empty() {
                    return Err(Error::UnableToSpeak);
                }
                self.add_to_journel(Speaker::Bot, text.as_str());
                let ghost wa = self.window_agent.deep_view();
                self.window_agent.push(text.clone());
                proof {
                    assert(self.window_agent.deep_view() =~= wa.push(text@));
                }
                Ok(text)
            },
        }
    }

    /// The journal serialized as text, ready to be written to disk.  The
    /// full journal is saved, not just the window, in id order.
    pub fn save_journal(&self) -> (r: String)
        ensures
            r@ == encode_journal(self.journal()),
    {
        journal_to_text(&self.history)
    }

    /// Load a journal file's text: parse it, sort the loaded turns by id —
    /// the on-disk order is not trusted — replay them through the same
    /// window-trim rule as live turns, and merge them into the journal,
    /// which is sorted again.  Malformed text is a fatal error and changes
    /// nothing; empty text (a missing file, a first run) loads no turns.
    pub fn remember_past(&mut self, text: &str) -> (r: Result<(), Error>)
        requires
            old(self).wf(),
        ensures
            final(self).wf(),
            final(self).max_ctx() == old(self).max_ctx(),
            match r {
                Ok(()) => {
                    &&& parse_journal(text@) is Some
                    &&& final(self).journal().to_multiset() == old(
                        self,
                    ).journal().to_multiset().add(parse_journal(text@).unwrap().to_multiset())
                    &&& (old(self).journal().len() == 0 && sorted_by_id(
                        parse_journal(text@).unwrap(),
                    ) ==> final(self).journal() == parse_journal(text@).unwrap())
                    &&& exists|sl: Seq<PastView>|
                        {
                            &&& sl.to_multiset() == parse_journal(text@).unwrap().to_multiset()
                            &&& sorted_by_id(sl)
                            &&& (final(self).user_window(), final(self).agent_window()) == replay(
                                old(self).user_window(),
                                old(self).agent_window(),
                                old(self).max_ctx(),
                                sl,
                            )
                        }
                    &&& (sorted_by_id(parse_journal(text@).unwrap()) ==> (
                    final(self).user_window(),
                    final(self).agent_window(),
                    ) == replay(
                        old(self).user_window(),
                        old(self).agent_window(),
                        old(self).max_ctx(),
                        parse_journal(text@).unwrap(),
                    ))
                },
                Err(e) => {
                    &&& e == Error::MalformedJournal
                    &&& parse_journal(text@) is None
                    &&& final(self).journal() == old(self).journal()
                    &&& final(self).user_window() == old(self).user_window()
                    &&& final(self).agent_window() == old(self).agent_window()
                },
            },
    {
        let loaded = match journal_from_text(text) {
            Ok(v) => v,
            Err(e) => {
                return Err(e);
            },
        };
        let ghost parsed = parse_journal(text@).unwrap();
        let ghost loaded_pre = loaded.deep_view();
        let loaded = sort_by_id(loaded);
        let ghost sl = loaded.deep_view();
        proof {
            assert(loaded_pre == parsed);
            assert(sl.to_multiset() == parsed.to_multiset());
            if sorted_by_id(parsed) {
                assert(sl == parsed);
            }
        }

        // replay the loaded turns through the live trim rule
        let n = loaded.len();
        let mut i: usize = 0;
        proof {
            assert(sl.take(0) =~= Seq::<PastView>::empty());
        }
        while i < n
            invariant
                i <= n,
                n == loaded@.len(),
                sl == loaded.deep_view(),
                self.max_ctx() == old(self).max_ctx(),
                self.journal() == old(self).journal(),
                sorted_by_id(self.journal()),
                (self.user_window(), self.agent_window()) == replay(
                    old(self).user_window(),
                    old(self).agent_window(),
                    old(self).max_ctx(),
                    sl.take(i as int),
                ),
            decreases n - i,
        {
            self.trim_window();
            let ghost wu = self.window_user.deep_view();
            let ghost wa = self.window_agent.deep_view();
            match loaded[i].speaker {
                Speaker::Me => {
                    self.window_user.push(loaded[i].message.clone());
                    proof {
                        assert(self.window_user.deep_view() =~= wu.push(
                            loaded@[i as int].message@,
                        ));
                    }
                },
                Speaker::Bot => {
                    self.window_agent.push(loaded[i].message.clone());
                    proof {
                        assert(self.window_agent.deep_view() =~= wa.push(
                            loaded@[i as int].message@,
                        ));
                    }
                },
            }
            proof {
                assert(sl[i as int] == loaded@[i as int]@);
                lemma_replay_snoc(
                    old(self).user_window(),
                    old(self).agent_window(),
                    old(self).max_ctx(),
                    sl.take(i as int),
                    sl[i as int],
                );
                assert(sl.take(i + 1 as int) =~= sl.take(i as int).push(sl[i as int]));
            }
            i += 1;
        }
        proof {
            assert(sl.take(n as int) =~= sl);
        }

        // merge into the journal mirror and sort again
        let ghost hist_pre = self.history.deep_view();
        let mut merged: Vec<Past> = Vec::new();
        core::mem::swap(&mut merged, &mut self.history);
        let mut loaded = loaded;
        merged.append(&mut loaded);
        proof {
            assert(merged.deep_view() =~= hist_pre + sl);
            vstd::seq_lib::lemma_multiset_commutative(hist_pre, sl);
        }
        let ghost merged_dv = merged.deep_view();
        let merged = sort_by_id(merged);
        proof {
            if old(self).journal().len() == 0 && sorted_by_id(parsed) {
                assert(merged_dv =~= hist_pre + sl);
                assert(hist_pre + sl =~= sl);
                assert(sorted_by_id(merged_dv));
                assert(merged.deep_view() == merged_dv);
            }
        }
        self.history = merged;
        Ok(())
    }

    /// The utterance with grammatical persons swapped, as handed to the
    /// backend.
    pub fn swap_persons(input: &str) -> (r: String)
        ensures
            r@ == swapped(input@),
    {
        swap_persons(input)
    }
}

} // verus!
