//! The pause/resume valve wrapping the polling stream. While paused, polls
//! yield nothing and consume nothing from the inner sequence, so no ready
//! item is ever lost to a pause; while running, polls are forwarded.
//!
//! The surrounding runtime shares the flag between holders of clones; the
//! valve's behaviour under every flag value is specified here.

use vstd::prelude::*;

verus! {

/// The pause/resume flag.
#[derive(Clone, Copy, Debug, PartialEq, Eq, Structural)]
pub struct Controller {
    pub paused: bool,
}

impl Controller {
    /// A running controller.
    pub fn new() -> (c: Controller)
        ensures
            !c.paused,
    {
        Controller { paused: false }
    }

    /// Halts new work; in-flight items are not cancelled.
    pub fn pause(&mut self)
        ensures
            final(self).paused,
    {
        self.paused = true;
    }

    /// Lets polls flow again.
    pub fn resume(&mut self)
        ensures
            !final(self).paused,
    {
        self.paused = false;
    }

    /// True while polls are held back.
    pub fn is_paused(&self) -> (r: bool)
        ensures
            r == self.paused,
    {
        self.paused
    }
}

/// One poll of a controlled sequence whose ready items are `items`: nothing
/// moves while paused or when nothing is ready; otherwise the oldest ready
/// item is yielded.
pub open spec fn controlled_poll<T>(items: Seq<T>, paused: bool) -> (Option<T>, Seq<T>) {
    if paused || items.len() == 0 {
        (None, items)
    } else {
        (Some(items[0]), items.drop_first())
    }
}

/// The polling stream behind its controller. The ready items model what the
/// inner sequence has produced and the consumer has not yet taken.
pub struct BackendStream<T> {
    pub items: Vec<T>,
    pub controller: Controller,
}

impl<T> BackendStream<T> {
    /// Puts `items` behind `controller`.
    pub fn new(items: Vec<T>, controller: Controller) -> (s: BackendStream<T>)
        ensures
            s.items@ == items@,
            s.controller == controller,
    {
        BackendStream { items, controller }
    }

    /// One poll through the controller.
    pub fn poll_next(&mut self) -> (r: Option<T>)
        ensures
            (r, final(self).items@) == controlled_poll(old(self).items@, old(self).controller.paused),
            final(self).controller == old(self).controller,
    {
        if self.controller.is_paused() {
            return None;
        }
        if self.items.len() > 0 {
            let v = self.items.remove(0);
            proof {
                assert(self.items@ =~= old(self).items@.drop_first());
            }
            Some(v)
        } else {
            None
        }
    }

    /// Halts new work.
    pub fn pause(&mut self)
        ensures
            final(self).controller.paused,
            final(self).items@ == old(self).items@,
    {
        self.controller.pause();
    }

    /// Lets polls flow again.
    pub fn resume(&mut self)
        ensures
            !final(self).controller.paused,
            final(self).items@ == old(self).items@,
    {
        self.controller.resume();
    }
}

/// A paused controller yields no item and loses none: the ready items after any
/// poll under pause are exactly what they were, and the first poll after
/// resuming returns precisely what a poll without the pause would have.
pub proof fn lemma_pause_resume_lossless<T>(items: Seq<T>)
    ensures
        controlled_poll(items, true).0 is None,
        controlled_poll(items, true).1 == items,
        controlled_poll(controlled_poll(items, true).1, false) == controlled_poll(items, false),
{
}

} // verus!
