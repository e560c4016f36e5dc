//! The wake-signal channel: a bounded multi-producer, single-consumer
//! buffer of notifications. It is a signalling primitive, not a work
//! queue: when the buffer is full a notification is silently dropped,
//! because producers re-signal on the next poll. Among the items that are
//! not dropped, first-in first-out order is preserved.
//!
//! The surrounding runtime wraps this state in its channel and suspends
//! consumers until an item arrives; every transition of the buffer itself
//! is one of the operations here.

use vstd::prelude::*;

verus! {

/// Buffer capacity. Small on purpose: it is a wake-up, not a work queue.
pub const NOTIFY_CAPACITY: usize = 10;

/// The bounded notification buffer, carrying items of type `T`.
pub struct Notify<T> {
    pub items: Vec<T>,
}

impl<T> View for Notify<T> {
    type V = Seq<T>;

    open spec fn view(&self) -> Seq<T> {
        self.items@
    }
}

impl<T> Notify<T> {
    /// An empty buffer.
    pub fn new() -> (s: Notify<T>)
        ensures
            s@.len() == 0,
    {
        Notify { items: Vec::new() }
    }

    /// Best-effort, non-blocking send: the item is queued behind the items
    /// already there, unless the buffer is full — then it is dropped and
    /// nothing changes.
    pub fn notify(&mut self, value: T)
        ensures
            old(self)@.len() < NOTIFY_CAPACITY ==> final(self)@ == old(self)@.push(value),
            old(self)@.len() >= NOTIFY_CAPACITY ==> final(self)@ == old(self)@,
    {
        if self.items.len() < NOTIFY_CAPACITY {
            self.items.push(value);
        }
    }

    /// Takes the oldest item, if one is there. The consumer suspends on an
    /// empty buffer; what it then receives is the next item queued.
    pub fn poll_next(&mut self) -> (r: Option<T>)
        ensures
            old(self)@.len() > 0 ==> r == Some(old(self)@[0]) && final(self)@ == old(
                self,
            )@.drop_first(),
            old(self)@.len() == 0 ==> r is None && final(self)@ == old(self)@,
    {
        if self.items.len() > 0 {
            let v = self.items.remove(0);
            proof {
                assert(self@ =~= old(self)@.drop_first());
            }
            Some(v)
        } else {
            None
        }
    }

    /// Number of queued items.
    pub fn len(&self) -> (n: usize)
        ensures
            n == self@.len(),
    {
        self.items.len()
    }
}

impl<T> Default for Notify<T> {
    /// An empty buffer.
    fn default() -> (s: Notify<T>)
        ensures
            s@.len() == 0,
    {
        Notify::new()
    }
}

/// The sending side an arbitrary producer sees.
pub trait Notifier<T> {
    /// Offers `msg` to the consumer; a producer may not assume delivery.
    fn notify(&mut self, msg: T) -> Result<(), ()>;
}

impl<T> Notifier<T> for Notify<T> {
    fn notify(&mut self, msg: T) -> Result<(), ()> {
        self.notify(msg);
        Ok(())
    }
}

} // verus!
