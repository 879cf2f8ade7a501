//! A broadcast bus: one producer feeds many independent readers.
//!
//! The bus keeps every published message and one cursor per reader, which is
//! an explicit fan-out registry rather than a shared ring buffer.  Every
//! reader sees every message published after it subscribed, in publish order;
//! there is no replay of earlier messages.  Backpressure policy: when a
//! reader falls more than `capacity` messages behind, the oldest unread
//! messages are dropped for that reader alone, so publishing never blocks on
//! a slow or absent reader.

use vstd::prelude::*;

verus! {

/// What a reader finds when it polls the bus.
#[derive(Clone, Copy, Debug, PartialEq, Eq, Structural)]
pub enum RecvOutcome {
    /// A message is pending: its index into the bus's message log.
    Ready(usize),
    /// Nothing is pending yet; the producer is still there, so poll again.
    Empty,
    /// Nothing is pending and the producer closed the bus: no message will
    /// ever arrive, which callers treat as a shutdown signal.
    Closed,
}

pub struct Bus<T> {
    messages: Vec<T>,
    capacity: usize,
    cursors: Vec<usize>,
    closed: bool,
}

/// A reader's cursor after one more message was published: unchanged, unless
/// the reader would fall more than `cap` messages behind the new length
/// `new_len`, in which case its oldest unread messages are dropped.
pub open spec fn stepped_cursor(c: nat, new_len: nat, cap: nat) -> nat {
    if new_len > c + cap {
        (new_len - cap) as nat
    } else {
        c
    }
}

/// The message log and one reader's cursor after publishing `more`, message
/// by message, with per-publish drop-oldest at capacity `cap`.
pub open spec fn run_publishes<T>(ms: Seq<T>, c: nat, cap: nat, more: Seq<T>) -> (Seq<T>, nat)
    decreases more.len(),
{
    if more.len() == 0 {
        (ms, c)
    } else {
        let ms1 = ms.push(more[0]);
        let c1 = stepped_cursor(c, ms1.len(), cap);
        run_publishes(ms1, c1, cap, more.drop_first())
    }
}

impl<T> Bus<T> {
    /// The full log of published messages, oldest first.
    pub closed spec fn spec_messages(&self) -> Seq<T> {
        self.messages@
    }

    /// Per-reader positions into the log: reader `r` has consumed or missed
    /// everything before `spec_cursors()[r]`.
    pub closed spec fn spec_cursors(&self) -> Seq<nat> {
        self.cursors@.map_values(|c: usize| c as nat)
    }

    /// How far behind a reader may fall before its oldest unread messages
    /// are dropped.
    pub closed spec fn spec_capacity(&self) -> nat {
        self.capacity as nat
    }

    /// Whether the producer announced that no further message will come.
    pub closed spec fn spec_closed(&self) -> bool {
        self.closed
    }

    /// The messages reader `r` has yet to receive, in publish order.
    pub open spec fn pending(&self, r: int) -> Seq<T> {
        self.spec_messages().skip(self.spec_cursors()[r] as int)
    }

    /// Well-formed: every cursor points into the log.
    pub closed spec fn wf(&self) -> bool {
        forall|r: int|
            0 <= r < self.cursors@.len() ==> #[trigger] self.cursors@[r] <= self.messages@.len()
    }

    /// A fresh bus with no messages and no readers.
    pub fn new(capacity: usize) -> (r: Self)
        ensures
            r.wf(),
            r.spec_messages() == Seq::<T>::empty(),
            r.spec_cursors() == Seq::<nat>::empty(),
            r.spec_capacity() == capacity as nat,
            !r.spec_closed(),
    {
        let r = Bus { messages: Vec::new(), capacity, cursors: Vec::new(), closed: false };
        proof {
            assert(r.spec_cursors() =~= Seq::<nat>::empty());
        }
        r
    }

    /// Register a new reader and return its handle.  The reader starts at
    /// the current end of the log: it will see only messages published from
    /// now on, never a replay.
    pub fn subscribe(&mut self) -> (r: usize)
        requires
            old(self).wf(),
        ensures
            final(self).wf(),
            r as int == old(self).spec_cursors().len(),
            final(self).spec_cursors() == old(self).spec_cursors().push(
                old(self).spec_messages().len(),
            ),
            final(self).spec_messages() == old(self).spec_messages(),
            final(self).spec_capacity() == old(self).spec_capacity(),
            final(self).spec_closed() == old(self).spec_closed(),
            final(self).pending(r as int) == Seq::<T>::empty(),
    {
        let r = self.cursors.len();
        let end = self.messages.len();
        self.cursors.push(end);
        proof {
            assert(final(self).spec_cursors() =~= old(self).spec_cursors().push(
                old(self).spec_messages().len(),
            ));
            assert(final(self).pending(r as int) =~= Seq::<T>::empty());
        }
        r
    }

    /// Publish a message: it is appended to the log for every current
    /// reader; any reader now more than `capacity` behind loses its oldest
    /// unread messages (drop-oldest, per reader).
    pub fn publish(&mut self, m: T)
        requires
            old(self).wf(),
        ensures
            final(self).wf(),
            final(self).spec_messages() == old(self).spec_messages().push(m),
            final(self).spec_cursors().len() == old(self).spec_cursors().len(),
            forall|r: int|
                0 <= r < old(self).spec_cursors().len() ==> final(self).spec_cursors()[r]
                    == stepped_cursor(
                    old(self).spec_cursors()[r],
                    old(self).spec_messages().len() + 1,
                    old(self).spec_capacity(),
                ),
            final(self).spec_capacity() == old(self).spec_capacity(),
            final(self).spec_closed() == old(self).spec_closed(),
    {
        self.messages.push(m);
        let new_len = self.messages.len();
        let n = self.cursors.len();
        let mut r: usize = 0;
        while r < n
            invariant
                n == self.cursors@.len(),
                r <= n,
                new_len == self.messages@.len(),
                self.capacity == old(self).capacity,
                self.messages@ == old(self).messages@.push(m),
                self.closed == old(self).closed,
                forall|j: int|
                    0 <= j < r ==> #[trigger] self.cursors@[j] as nat == stepped_cursor(
                        old(self).cursors@[j] as nat,
                        new_len as nat,
                        self.capacity as nat,
                    ),
                forall|j: int| r <= j < n ==> self.cursors@[j] == old(self).cursors@[j],
                forall|j: int| 0 <= j < n ==> #[trigger] self.cursors@[j] <= new_len,
            decreases n - r,
        {
            let c = self.cursors[r];
            if new_len - c > self.capacity {
                self.cursors.set(r, new_len - self.capacity);
            }
            r += 1;
        }
    }

    /// Announce that no further message will be published.
    pub fn close(&mut self)
        requires
            old(self).wf(),
        ensures
            final(self).wf(),
            final(self).spec_closed(),
            final(self).spec_messages() == old(self).spec_messages(),
            final(self).spec_cursors() == old(self).spec_cursors(),
            final(self).spec_capacity() == old(self).spec_capacity(),
    {
        self.closed = true;
    }

    /// Poll for reader `reader`: the index of its next pending message, or
    /// `Empty` when none is pending yet, or `Closed` when none is pending
    /// and the producer is gone.  `Closed` and `Empty` are distinct so a
    /// caller can retry on the one and shut down on the other.
    pub fn try_recv(&mut self, reader: usize) -> (r: RecvOutcome)
        requires
            old(self).wf(),
            reader < old(self).spec_cursors().len(),
        ensures
            final(self).wf(),
            final(self).spec_messages() == old(self).spec_messages(),
            final(self).spec_capacity() == old(self).spec_capacity(),
            final(self).spec_closed() == old(self).spec_closed(),
            old(self).pending(reader as int).len() > 0 ==> {
                &&& r == RecvOutcome::Ready(old(self).spec_cursors()[reader as int] as usize)
                &&& final(self).spec_cursors() == old(self).spec_cursors().update(
                    reader as int,
                    (old(self).spec_cursors()[reader as int] + 1) as nat,
                )
                &&& final(self).pending(reader as int) == old(self).pending(
                    reader as int,
                ).drop_first()
            },
            old(self).pending(reader as int).len() == 0 ==> {
                &&& final(self).spec_cursors() == old(self).spec_cursors()
                &&& r == (if old(self).spec_closed() {
                    RecvOutcome::Closed
                } else {
                    RecvOutcome::Empty
                })
            },
    {
        let c = self.cursors[reader];
        if c < self.messages.len() {
            self.cursors.set(reader, c + 1);
            proof {
                assert(final(self).spec_cursors() =~= old(self).spec_cursors().update(
                    reader as int,
                    (old(self).spec_cursors()[reader as int] + 1) as nat,
                ));
                assert(final(self).pending(reader as int) =~= old(self).pending(
                    reader as int,
                ).drop_first());
            }
            RecvOutcome::Ready(c)
        } else {
            proof {
                assert(old(self).pending(reader as int).len() == 0);
            }
            if self.closed {
                RecvOutcome::Closed
            } else {
                RecvOutcome::Empty
            }
        }
    }

    /// The message at index `i` of the log, as handed out by `try_recv`.
    pub fn get(&self, i: usize) -> (r: &T)
        requires
            i < self.spec_messages().len(),
        ensures
            *r == self.spec_messages()[i as int],
    {
        &self.messages[i]
    }

    /// How many messages reader `reader` has yet to receive.
    pub fn unread(&self, reader: usize) -> (r: usize)
        requires
            self.wf(),
            reader < self.spec_cursors().len(),
        ensures
            r as int == self.pending(reader as int).len(),
    {
        self.messages.len() - self.cursors[reader]
    }
}

/// A received message, or the reason none was handed out.
#[derive(Clone, Debug)]
pub enum Recv<T> {
    /// The reader's next pending message.
    Msg(T),
    /// Nothing is pending yet; poll again later.
    Empty,
    /// Nothing is pending and the producer closed the bus.
    Closed,
}

impl Bus<String> {
    /// Like `try_recv`, but hands out a copy of the pending message itself.
    pub fn recv(&mut self, reader: usize) -> (r: Recv<String>)
        requires
            old(self).wf(),
            reader < old(self).spec_cursors().len(),
        ensures
            final(self).wf(),
            final(self).spec_messages() == old(self).spec_messages(),
            final(self).spec_capacity() == old(self).spec_capacity(),
            final(self).spec_closed() == old(self).spec_closed(),
            final(self).spec_cursors().len() == old(self).spec_cursors().len(),
            old(self).pending(reader as int).len() > 0 ==> {
                &&& r == Recv::Msg(old(self).pending(reader as int).first())
                &&& final(self).pending(reader as int) == old(self).pending(
                    reader as int,
                ).drop_first()
            },
            old(self).pending(reader as int).len() == 0 ==> {
                &&& final(self).spec_cursors() == old(self).spec_cursors()
                &&& r == (if old(self).spec_closed() {
                    Recv::<String>::Closed
                } else {
                    Recv::<String>::Empty
                })
            },
    {
        match self.try_recv(reader) {
            RecvOutcome::Ready(i) => Recv::Msg(self.get(i).clone()),
            RecvOutcome::Empty => Recv::Empty,
            RecvOutcome::Closed => Recv::Closed,
        }
    }
}

impl Bus<Option<String>> {
    /// Like `try_recv`, but hands out a copy of the pending message itself.
    pub fn recv(&mut self, reader: usize) -> (r: Recv<Option<String>>)
        requires
            old(self).wf(),
            reader < old(self).spec_cursors().len(),
        ensures
            final(self).wf(),
            final(self).spec_messages() == old(self).spec_messages(),
            final(self).spec_capacity() == old(self).spec_capacity(),
            final(self).spec_closed() == old(self).spec_closed(),
            final(self).spec_cursors().len() == old(self).spec_cursors().len(),
            old(self).pending(reader as int).len() > 0 ==> {
                &&& r == Recv::Msg(old(self).pending(reader as int).first())
                &&& final(self).pending(reader as int) == old(self).pending(
                    reader as int,
                ).drop_first()
            },
            old(self).pending(reader as int).len() == 0 ==> {
                &&& final(self).spec_cursors() == old(self).spec_cursors()
                &&& r == (if old(self).spec_closed() {
                    Recv::<Option<String>>::Closed
                } else {
                    Recv::<Option<String>>::Empty
                })
            },
    {
        match self.try_recv(reader) {
            RecvOutcome::Ready(i) => {
                let copy = match self.get(i) {
                    Some(s) => Some(s.clone()),
                    None => None,
                };
                Recv::Msg(copy)
            },
            RecvOutcome::Empty => Recv::Empty,
            RecvOutcome::Closed => Recv::Closed,
        }
    }
}

/// Law: as long as a reader stays within capacity, publishing moves no
/// cursor.  A reader that subscribed when `ms` messages had been published
/// (cursor `c == ms.len()`) therefore has, after `more` messages are
/// published, exactly `more` pending, in publish order; one that subscribed
/// at cursor `c` has `ms.skip(c) + more`: every message from position `c`
/// on, and nothing before it.
pub proof fn lemma_bus_fanout<T>(ms: Seq<T>, c: nat, cap: nat, more: Seq<T>)
    requires
        c <= ms.len(),
        ms.len() + more.len() <= c + cap,
    ensures
        run_publishes(ms, c, cap, more) == (ms + more, c),
        (ms + more).skip(c as int) == ms.skip(c as int) + more,
    decreases more.len(),
{
    if more.len() == 0 {
        assert(ms + more =~= ms);
        assert(ms.skip(c as int) + more =~= ms.skip(c as int));
    } else {
        let ms1 = ms.push(more[0]);
        assert(stepped_cursor(c, ms1.len(), cap) == c);
        lemma_bus_fanout(ms1, c, cap, more.drop_first());
        assert(ms1 + more.drop_first() =~= ms + more);
        assert(ms1.skip(c as int) =~= ms.skip(c as int) + seq![more[0]]);
        assert(ms.skip(c as int) + seq![more[0]] + more.drop_first() =~= ms.skip(c as int) + more);
        assert((ms + more).skip(c as int) =~= ms.skip(c as int) + more);
    }
}

} // verus!
