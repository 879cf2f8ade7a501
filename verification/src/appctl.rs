//! The application control object: process-wide liveness and cancellation
//! plus the three broadcast channels that connect the front end and the
//! workers.
//!
//! `me` carries the user's utterances, `bot` the dialogue worker's replies,
//! `bot_pic` an optional image path chosen for each reply.

use vstd::prelude::*;
use crate::bus::{Bus, Recv};
use crate::status::Status;

verus! {

/// How many unread messages a slow reader may accumulate on each channel
/// before its oldest unread messages are dropped.
pub const CHANNEL_CAPACITY: usize = 1000;

pub struct AppCtl {
    ctl: Status,
    me_channel: Bus<String>,
    bot_channel: Bus<String>,
    bot_pic_channel: Bus<Option<String>>,
}

impl AppCtl {
    /// The liveness/cancellation core.
    pub closed spec fn ctl(&self) -> Status {
        self.ctl
    }

    /// The channel of user utterances.
    pub closed spec fn me(&self) -> Bus<String> {
        self.me_channel
    }

    /// The channel of dialogue replies.
    pub closed spec fn bot(&self) -> Bus<String> {
        self.bot_channel
    }

    /// The channel of optional image paths, one per reply.
    pub closed spec fn bot_pic(&self) -> Bus<Option<String>> {
        self.bot_pic_channel
    }

    pub open spec fn wf(&self) -> bool {
        &&& self.ctl().wf()
        &&& self.me().wf()
        &&& self.bot().wf()
        &&& self.bot_pic().wf()
    }

    /// Alive, images off, nothing registered, all channels empty and open.
    pub fn new() -> (r: Self)
        ensures
            r.wf(),
            r.ctl().spec_alive(),
            !r.ctl().spec_images(),
            r.ctl().registry() == Map::<Seq<char>, futures::future::AbortHandle>::empty(),
            r.me().spec_messages() == Seq::<String>::empty(),
            r.me().spec_cursors() == Seq::<nat>::empty(),
            r.me().spec_capacity() == CHANNEL_CAPACITY as nat,
            !r.me().spec_closed(),
            r.bot().spec_messages() == Seq::<String>::empty(),
            r.bot().spec_cursors() == Seq::<nat>::empty(),
            r.bot().spec_capacity() == CHANNEL_CAPACITY as nat,
            !r.bot().spec_closed(),
            r.bot_pic().spec_messages() == Seq::<Option<String>>::empty(),
            r.bot_pic().spec_cursors() == Seq::<nat>::empty(),
            r.bot_pic().spec_capacity() == CHANNEL_CAPACITY as nat,
            !r.bot_pic().spec_closed(),
    {
        AppCtl {
            ctl: Status::new(),
            me_channel: Bus::new(CHANNEL_CAPACITY),
            bot_channel: Bus::new(CHANNEL_CAPACITY),
            bot_pic_channel: Bus::new(CHANNEL_CAPACITY),
        }
    }

    /// Whether the process is still meant to run.
    pub fn is_alive(&self) -> (r: bool)
        ensures
            r == self.ctl().spec_alive(),
    {
        self.ctl.is_alive()
    }

    /// Shut down: liveness goes false for every holder, every registered
    /// operation is asked to cancel itself, and all three channels close so
    /// that blocked readers observe the shutdown instead of an empty poll.
    pub fn stop(&mut self)
        requires
            old(self).wf(),
        ensures
            final(self).wf(),
            !final(self).ctl().spec_alive(),
            final(self).ctl().spec_images() == old(self).ctl().spec_images(),
            final(self).ctl().registry() == old(self).ctl().registry(),
            final(self).me().spec_closed(),
            final(self).bot().spec_closed(),
            final(self).bot_pic().spec_closed(),
            final(self).me().spec_messages() == old(self).me().spec_messages(),
            final(self).me().spec_cursors() == old(self).me().spec_cursors(),
            final(self).bot().spec_messages() == old(self).bot().spec_messages(),
            final(self).bot().spec_cursors() == old(self).bot().spec_cursors(),
            final(self).bot_pic().spec_messages() == old(self).bot_pic().spec_messages(),
            final(self).bot_pic().spec_cursors() == old(self).bot_pic().spec_cursors(),
    {
        self.ctl.stop();
        self.me_channel.close();
        self.bot_channel.close();
        self.bot_pic_channel.close();
    }

    /// Register `handle` as the one cancelable operation under `tag`,
    /// replacing — not cancelling — any previous handle for the tag.
    pub fn add_abortable(&mut self, tag: &str, handle: futures::future::AbortHandle)
        requires
            old(self).wf(),
        ensures
            final(self).wf(),
            final(self).ctl().registry() == old(self).ctl().registry().insert(tag@, handle),
            final(self).ctl().spec_alive() == old(self).ctl().spec_alive(),
            final(self).ctl().spec_images() == old(self).ctl().spec_images(),
            final(self).me() == old(self).me(),
            final(self).bot() == old(self).bot(),
            final(self).bot_pic() == old(self).bot_pic(),
    {
        self.ctl.add_abortable(tag, handle);
    }

    /// Turn image replies on or off.
    pub fn enable_images(&mut self, enabled: bool)
        requires
            old(self).wf(),
        ensures
            final(self).wf(),
            final(self).ctl().spec_images() == enabled,
            final(self).ctl().spec_alive() == old(self).ctl().spec_alive(),
            final(self).ctl().registry() == old(self).ctl().registry(),
            final(self).me() == old(self).me(),
            final(self).bot() == old(self).bot(),
            final(self).bot_pic() == old(self).bot_pic(),
    {
        self.ctl.enable_images(enabled);
    }

    /// Whether image replies are currently enabled.
    pub fn images_enabled(&self) -> (r: bool)
        ensures
            r == self.ctl().spec_images(),
    {
        self.ctl.images_enabled()
    }

    /// Publish one user utterance to every subscribed worker.
    pub fn broadcast_me_channel(&mut self, message: &str)
        requires
            old(self).wf(),
        ensures
            final(self).wf(),
            final(self).me().spec_messages().len() == old(self).me().spec_messages().len() + 1,
            final(self).me().spec_messages().last()@ == message@,
            final(self).me().spec_messages().drop_last() == old(self).me().spec_messages(),
            final(self).me().spec_cursors().len() == old(self).me().spec_cursors().len(),
            forall|r: int|
                0 <= r < old(self).me().spec_cursors().len() ==> final(self).me().spec_cursors()[r]
                    == crate::bus::stepped_cursor(
                    old(self).me().spec_cursors()[r],
                    old(self).me().spec_messages().len() + 1,
                    old(self).me().spec_capacity(),
                ),
            final(self).ctl() == old(self).ctl(),
            final(self).bot() == old(self).bot(),
            final(self).bot_pic() == old(self).bot_pic(),
    {
        self.me_channel.publish(String::from_str(message));
        proof {
            assert(final(self).me().spec_messages().drop_last() =~= old(self).me().spec_messages());
        }
    }

    /// Subscribe a new reader to the user-utterance channel; it sees only
    /// messages published from now on.
    pub fn listen_me_channel(&mut self) -> (r: usize)
        requires
            old(self).wf(),
        ensures
            final(self).wf(),
            r as int == old(self).me().spec_cursors().len(),
            final(self).me().spec_cursors() == old(self).me().spec_cursors().push(
                old(self).me().spec_messages().len(),
            ),
            final(self).me().spec_messages() == old(self).me().spec_messages(),
            final(self).me().pending(r as int) == Seq::<String>::empty(),
            final(self).ctl() == old(self).ctl(),
            final(self).bot() == old(self).bot(),
            final(self).bot_pic() == old(self).bot_pic(),
    {
        self.me_channel.subscribe()
    }

    /// Poll the user-utterance channel for reader `reader`.
    pub fn recv_me_channel(&mut self, reader: usize) -> (r: Recv<String>)
        requires
            old(self).wf(),
            reader < old(self).me().spec_cursors().len(),
        ensures
            final(self).wf(),
            final(self).me().spec_messages() == old(self).me().spec_messages(),
            final(self).me().spec_cursors().len() == old(self).me().spec_cursors().len(),
            old(self).me().pending(reader as int).len() > 0 ==> {
                &&& r == Recv::Msg(old(self).me().pending(reader as int).first())
                &&& final(self).me().pending(reader as int) == old(self).me().pending(
                    reader as int,
                ).drop_first()
            },
            final(self).me().spec_closed() == old(self).me().spec_closed(),
            final(self).me().spec_capacity() == old(self).me().spec_capacity(),
            old(self).me().pending(reader as int).len() == 0 ==> {
                &&& final(self).me().spec_cursors() == old(self).me().spec_cursors()
                &&& r == (if old(self).me().spec_closed() {
                    Recv::<String>::Closed
                } else {
                    Recv::<String>::Empty
                })
            },
            final(self).ctl() == old(self).ctl(),
            final(self).bot() == old(self).bot(),
            final(self).bot_pic() == old(self).bot_pic(),
    {
        self.me_channel.recv(reader)
    }

    /// Publish one dialogue reply.
    pub fn broadcast_bot_channel(&mut self, message: &str)
        requires
            old(self).wf(),
        ensures
            final(self).wf(),
            final(self).bot().spec_messages().len() == old(self).bot().spec_messages().len() + 1,
            final(self).bot().spec_messages().last()@ == message@,
            final(self).bot().spec_messages().drop_last() == old(self).bot().spec_messages(),
            final(self).bot().spec_cursors().len() == old(self).bot().spec_cursors().len(),
            forall|r: int|
                0 <= r < old(self).bot().spec_cursors().len() ==> final(self).bot().spec_cursors()[r] == crate::bus::stepped_cursor(
                    old(self).bot().spec_cursors()[r],
                    old(self).bot().spec_messages().len() + 1,
                    old(self).bot().spec_capacity(),
                ),
            final(self).ctl() == old(self).ctl(),
            final(self).me() == old(self).me(),
            final(self).bot_pic() == old(self).bot_pic(),
    {
        self.bot_channel.publish(String::from_str(message));
        proof {
            assert(final(self).bot().spec_messages().drop_last() =~= old(self).bot().spec_messages());
        }
    }

    /// Subscribe a new reader to the dialogue-reply channel.
    pub fn listen_bot_channel(&mut self) -> (r: usize)
        requires
            old(self).wf(),
        ensures
            final(self).wf(),
            r as int == old(self).bot().spec_cursors().len(),
            final(self).bot().spec_cursors() == old(self).bot().spec_cursors().push(
                old(self).bot().spec_messages().len(),
            ),
            final(self).bot().spec_messages() == old(self).bot().spec_messages(),
            final(self).bot().pending(r as int) == Seq::<String>::empty(),
            final(self).ctl() == old(self).ctl(),
            final(self).me() == old(self).me(),
            final(self).bot_pic() == old(self).bot_pic(),
    {
        self.bot_channel.subscribe()
    }

    /// Poll the dialogue-reply channel for reader `reader`.
    pub fn recv_bot_channel(&mut self, reader: usize) -> (r: Recv<String>)
        requires
            old(self).wf(),
            reader < old(self).bot().spec_cursors().len(),
        ensures
            final(self).wf(),
            final(self).bot().spec_messages() == old(self).bot().spec_messages(),
            final(self).bot().spec_cursors().len() == old(self).bot().spec_cursors().len(),
            old(self).bot().pending(reader as int).len() > 0 ==> {
                &&& r == Recv::Msg(old(self).bot().pending(reader as int).first())
                &&& final(self).bot().pending(reader as int) == old(self).bot().pending(
                    reader as int,
                ).drop_first()
            },
            final(self).bot().spec_closed() == old(self).bot().spec_closed(),
            final(self).bot().spec_capacity() == old(self).bot().spec_capacity(),
            old(self).bot().pending(reader as int).len() == 0 ==> {
                &&& final(self).bot().spec_cursors() == old(self).bot().spec_cursors()
                &&& r == (if old(self).bot().spec_closed() {
                    Recv::<String>::Closed
                } else {
                    Recv::<String>::Empty
                })
            },
            final(self).ctl() == old(self).ctl(),
            final(self).me() == old(self).me(),
            final(self).bot_pic() == old(self).bot_pic(),
    {
        self.bot_channel.recv(reader)
    }

    /// Publish the image chosen for the current reply, or `None` when no
    /// image is offered this round.
    pub fn broadcast_bot_pic_channel(&mut self, message: Option<String>)
        requires
            old(self).wf(),
        ensures
            final(self).wf(),
            final(self).bot_pic().spec_messages() == old(self).bot_pic().spec_messages().push(
                message,
            ),
            final(self).bot_pic().spec_cursors().len() == old(self).bot_pic().spec_cursors().len(),
            forall|r: int|
                0 <= r < old(self).bot_pic().spec_cursors().len() ==> final(self).bot_pic().spec_cursors()[r] == crate::bus::stepped_cursor(
                    old(self).bot_pic().spec_cursors()[r],
                    old(self).bot_pic().spec_messages().len() + 1,
                    old(self).bot_pic().spec_capacity(),
                ),
            final(self).ctl() == old(self).ctl(),
            final(self).me() == old(self).me(),
            final(self).bot() == old(self).bot(),
    {
        self.bot_pic_channel.publish(message);
    }

    /// Subscribe a new reader to the image channel.
    pub fn listen_bot_pic_channel(&mut self) -> (r: usize)
        requires
            old(self).wf(),
        ensures
            final(self).wf(),
            r as int == old(self).bot_pic().spec_cursors().len(),
            final(self).bot_pic().spec_cursors() == old(self).bot_pic().spec_cursors().push(
                old(self).bot_pic().spec_messages().len(),
            ),
            final(self).bot_pic().spec_messages() == old(self).bot_pic().spec_messages(),
            final(self).bot_pic().pending(r as int) == Seq::<Option<String>>::empty(),
            final(self).ctl() == old(self).ctl(),
            final(self).me() == old(self).me(),
            final(self).bot() == old(self).bot(),
    {
        self.bot_pic_channel.subscribe()
    }

    /// Poll the image channel for reader `reader`.
    pub fn recv_bot_pic_channel(&mut self, reader: usize) -> (r: Recv<Option<String>>)
        requires
            old(self).wf(),
            reader < old(self).bot_pic().spec_cursors().len(),
        ensures
            final(self).wf(),
            final(self).bot_pic().spec_messages() == old(self).bot_pic().spec_messages(),
            final(self).bot_pic().spec_cursors().len() == old(self).bot_pic().spec_cursors().len(),
            old(self).bot_pic().pending(reader as int).len() > 0 ==> {
                &&& r == Recv::Msg(old(self).bot_pic().pending(reader as int).first())
                &&& final(self).bot_pic().pending(reader as int) == old(self).bot_pic().pending(
                    reader as int,
                ).drop_first()
            },
            final(self).bot_pic().spec_closed() == old(self).bot_pic().spec_closed(),
            final(self).bot_pic().spec_capacity() == old(self).bot_pic().spec_capacity(),
            old(self).bot_pic().pending(reader as int).len() == 0 ==> {
                &&& final(self).bot_pic().spec_cursors() == old(self).bot_pic().spec_cursors()
                &&& r == (if old(self).bot_pic().spec_closed() {
                    Recv::<Option<String>>::Closed
                } else {
                    Recv::<Option<String>>::Empty
                })
            },
            final(self).ctl() == old(self).ctl(),
            final(self).me() == old(self).me(),
            final(self).bot() == old(self).bot(),
    {
        self.bot_pic_channel.recv(reader)
    }
}

} // verus!
