//! A model of an unbounded FIFO channel whose liveness is the number of its
//! send-ends: it is closed exactly when every send-end has been released,
//! and closing discards nothing that was already sent.
use vstd::prelude::*;
use std::collections::VecDeque;

verus! {

broadcast use vstd::std_specs::vecdeque::group_vec_dequeue_axioms;

/// The outcome of one receive.
#[derive(Debug)]
pub enum Received<T> {
    /// The oldest pending message.
    Message(T),
    /// Nothing pending, but a send-end is still held: a real receive blocks.
    Pending,
    /// Nothing pending and no send-end left: the channel is closed.
    Closed,
}

/// One channel: its pending messages, the count of its send-ends, and
/// whether its single receive-end is still held.
pub struct Channel<T> {
    queue: VecDeque<T>,
    senders: usize,
    receiver: bool,
}

impl<T> Channel<T> {
    /// Messages sent and not yet received, oldest first.
    pub closed spec fn pending(&self) -> Seq<T> {
        self.queue@
    }

    /// The number of send-ends held.
    pub closed spec fn senders(&self) -> nat {
        self.senders as nat
    }

    /// Whether the receive-end is still held.
    pub closed spec fn receiver_alive(&self) -> bool {
        self.receiver
    }

    /// No send-end is left: no message can ever be added again.
    pub open spec fn is_closed(&self) -> bool {
        self.senders() == 0
    }

    /// A new channel with one send-end and its receive-end.
    pub fn new() -> (c: Channel<T>)
        ensures
            c.pending() == Seq::<T>::empty(),
            c.senders() == 1,
            c.receiver_alive(),
    {
        Channel { queue: VecDeque::new(), senders: 1, receiver: true }
    }

    /// Hands out one more send-end, cloned from one already held.
    pub fn clone_sender(&mut self)
        requires
            old(self).senders() >= 1,
            old(self).senders() < usize::MAX,
        ensures
            final(self).senders() == old(self).senders() + 1,
            final(self).pending() == old(self).pending(),
            final(self).receiver_alive() == old(self).receiver_alive(),
    {
        self.senders = self.senders + 1;
    }

    /// Releases one send-end; releasing the last one closes the channel.
    pub fn drop_sender(&mut self)
        requires
            old(self).senders() >= 1,
        ensures
            final(self).senders() == old(self).senders() - 1,
            final(self).pending() == old(self).pending(),
            final(self).receiver_alive() == old(self).receiver_alive(),
    {
        self.senders = self.senders - 1;
    }

    /// Releases the receive-end; what was pending is discarded, and every
    /// later send is refused.
    pub fn drop_receiver(&mut self)
        ensures
            final(self).senders() == old(self).senders(),
            final(self).pending() == Seq::<T>::empty(),
            !final(self).receiver_alive(),
    {
        self.queue = VecDeque::new();
        self.receiver = false;
    }

    /// Sends through a held send-end: queued at the back while the
    /// receive-end is held, else refused and handed back.
    pub fn send(&mut self, v: T) -> (r: Result<(), T>)
        requires
            old(self).senders() >= 1,
        ensures
            final(self).senders() == old(self).senders(),
            final(self).receiver_alive() == old(self).receiver_alive(),
            old(self).receiver_alive() ==> r is Ok && final(self).pending() == old(
                self,
            ).pending().push(v),
            !old(self).receiver_alive() ==> r == Err::<(), T>(v) && final(self).pending() == old(
                self,
            ).pending(),
    {
        if self.receiver {
            self.queue.push_back(v);
            Ok(())
        } else {
            Err(v)
        }
    }

    /// Receives through the receive-end: the oldest pending message if there
    /// is one; else `Closed` when no send-end is left, `Pending` otherwise.
    pub fn recv(&mut self) -> (r: Received<T>)
        requires
            old(self).receiver_alive(),
        ensures
            final(self).senders() == old(self).senders(),
            final(self).receiver_alive(),
            old(self).pending().len() > 0 ==> r == Received::Message(old(self).pending()[0])
                && final(self).pending() == old(self).pending().drop_first(),
            old(self).pending().len() == 0 ==> final(self).pending() == old(self).pending() && (
            if old(self).is_closed() {
                r == Received::<T>::Closed
            } else {
                r == Received::<T>::Pending
            }),
    {
        match self.queue.pop_front() {
            Some(m) => Received::Message(m),
            None => if self.senders == 0 {
                Received::Closed
            } else {
                Received::Pending
            },
        }
    }
}

} // verus!
