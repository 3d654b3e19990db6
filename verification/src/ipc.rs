//! Minimal kernel IPC: a bounded FIFO channel of `u64` messages between
//! tasks. The blocking `send`/`recv` yield to the scheduler while the
//! channel is full/empty; that loop runs at the scheduler edge.

use vstd::prelude::*;
use std::collections::VecDeque;

verus! {

/// Messages a channel holds before senders must wait.
pub const CAPACITY: usize = 64;

/// A bounded FIFO of `u64` messages.
pub struct Channel {
    queue: VecDeque<u64>,
}

impl Channel {
    /// The queued messages, oldest first.
    pub closed spec fn view(&self) -> Seq<u64> {
        self.queue@
    }

    /// An empty channel.
    pub fn new() -> (c: Channel)
        ensures
            c@ == Seq::<u64>::empty(),
    {
        Channel { queue: VecDeque::new() }
    }

    /// Queue `msg` unless the channel is full; returns whether it was queued.
    pub fn try_send(&mut self, msg: u64) -> (sent: bool)
        ensures
            sent == (old(self)@.len() < CAPACITY),
            sent ==> final(self)@ == old(self)@.push(msg),
            !sent ==> final(self)@ == old(self)@,
    {
        if self.queue.len() >= CAPACITY {
            return false;
        }
        self.queue.push_back(msg);
        true
    }

    /// Take the oldest message, if any.
    pub fn try_recv(&mut self) -> (m: Option<u64>)
        ensures
            old(self)@.len() == 0 ==> m is None && final(self)@ == old(self)@,
            old(self)@.len() > 0 ==> m == Some(old(self)@[0]) && final(self)@ == old(self)@.drop_first(),
    {
        self.queue.pop_front()
    }
}

/// Law: a message sent into an empty channel is the next one received.
pub proof fn lemma_send_then_recv(m: u64)
    ensures
        Seq::<u64>::empty().push(m)[0] == m,
        Seq::<u64>::empty().push(m).drop_first() == Seq::<u64>::empty(),
{
    assert(Seq::<u64>::empty().push(m).drop_first() =~= Seq::<u64>::empty());
}

} // verus!
