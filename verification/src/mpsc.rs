//! A single-threaded multi-producer, single-consumer message queue: the
//! channel state and every decision made on it. Handles that share one
//! channel are thin shells around these operations.

use std::collections::VecDeque;
use vstd::prelude::*;

verus! {

/// A send failed because the channel is closed; the rejected value is handed
/// back.
#[derive(Debug)]
pub struct SendError<T> {
    pub value: T,
}

/// A receive found nothing: the channel is merely empty, or closed for good.
#[derive(Clone, Copy, Debug, PartialEq, Eq, Structural)]
pub enum ReceiveError {
    Empty,
    Closed,
}

/// The channel: a queue of messages in flight, a closed flag, and a count of
/// the senders that feed it. Once the flag is set it never clears.
pub struct Channel<T> {
    buffer: VecDeque<T>,
    closed: bool,
    sender_count: usize,
}

impl<T> Channel<T> {
    /// The messages in flight, oldest first.
    pub closed spec fn view(&self) -> Seq<T> {
        self.buffer@
    }

    pub closed spec fn spec_closed(&self) -> bool {
        self.closed
    }

    pub closed spec fn spec_senders(&self) -> usize {
        self.sender_count
    }

    /// An open, empty channel with one sender.
    pub fn new() -> (r: Channel<T>)
        ensures
            r.view() == Seq::<T>::empty(),
            !r.spec_closed(),
            r.spec_senders() == 1,
    {
        Self { buffer: VecDeque::new(), closed: false, sender_count: 1 }
    }

    /// Queue a message. Fails, returning the message, exactly when the
    /// channel is closed.
    pub fn send(&mut self, value: T) -> (r: Result<(), SendError<T>>)
        ensures
            final(self).spec_closed() == old(self).spec_closed(),
            final(self).spec_senders() == old(self).spec_senders(),
            if old(self).spec_closed() {
                &&& r matches Err(e) && e.value == value
                &&& final(self).view() == old(self).view()
            } else {
                &&& r is Ok
                &&& final(self).view() == old(self).view().push(value)
            },
    {
        if self.closed {
            return Err(SendError { value });
        }
        self.buffer.push_back(value);
        Ok(())
    }

    /// Whether the channel is closed.
    pub fn is_closed(&self) -> (r: bool)
        ensures
            r == self.spec_closed(),
    {
        self.closed
    }

    /// Take the oldest message. With nothing in flight the error says whether
    /// more could still arrive: `Closed` if the channel is closed, `Empty`
    /// otherwise.
    pub fn recv(&mut self) -> (r: Result<T, ReceiveError>)
        ensures
            final(self).spec_closed() == old(self).spec_closed(),
            final(self).spec_senders() == old(self).spec_senders(),
            if old(self).view().len() > 0 {
                &&& r matches Ok(v) && v == old(self).view()[0]
                &&& final(self).view() == old(self).view().drop_first()
            } else {
                &&& final(self).view() == old(self).view()
                &&& r matches Err(e) && e == (if old(self).spec_closed() {
                    ReceiveError::Closed
                } else {
                    ReceiveError::Empty
                })
            },
    {
        let val = self.buffer.pop_front();
        match val {
            None => {
                if self.closed {
                    return Err(ReceiveError::Closed);
                }
                Err(ReceiveError::Empty)
            },
            Some(elem) => Ok(elem),
        }
    }

    /// Close the channel: senders are refused from here on; messages already
    /// in flight can still be received.
    pub fn close(&mut self)
        ensures
            final(self).spec_closed(),
            final(self).view() == old(self).view(),
            final(self).spec_senders() == old(self).spec_senders(),
    {
        self.closed = true
    }

    /// How many sender handles feed the channel.
    pub fn senders(&self) -> (r: usize)
        ensures
            r == self.spec_senders(),
    {
        self.sender_count
    }

    /// Record one more live sender handle.
    pub fn add_sender(&mut self)
        requires
            old(self).spec_senders() < usize::MAX,
        ensures
            final(self).spec_senders() == old(self).spec_senders() + 1,
            final(self).view() == old(self).view(),
            final(self).spec_closed() == old(self).spec_closed(),
    {
        self.sender_count = self.sender_count + 1;
    }

    /// Record that a sender handle is gone; when the last one goes, the
    /// channel closes.
    pub fn drop_sender(&mut self)
        requires
            old(self).spec_senders() > 0,
        ensures
            final(self).spec_senders() == old(self).spec_senders() - 1,
            final(self).view() == old(self).view(),
            final(self).spec_closed() == (old(self).spec_closed() || old(self).spec_senders()
                == 1),
    {
        self.sender_count = self.sender_count - 1;
        if self.sender_count == 0 {
            self.closed = true;
        }
    }
}

impl<T> Default for Channel<T> {
    fn default() -> (r: Self)
        ensures
            r.view() == Seq::<T>::empty(),
            !r.spec_closed(),
            r.spec_senders() == 1,
    {
        Self::new()
    }
}

} // verus!
