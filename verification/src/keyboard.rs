//! Keyboard input queue: the PS/2 IRQ handler pushes decoded characters and
//! the desktop loop drains them. Bounded at 256 characters; extra keys are
//! dropped.

use vstd::prelude::*;
use std::collections::VecDeque;

verus! {

/// Capacity of the keyboard queue.
pub const KEY_QUEUE_CAP: usize = 256;

/// A FIFO of decoded characters.
pub struct KeyQueue {
    q: VecDeque<char>,
}

impl KeyQueue {
    /// The queued characters, oldest first.
    pub closed spec fn view(&self) -> Seq<char> {
        self.q@
    }

    /// An empty queue.
    pub fn new() -> (k: KeyQueue)
        ensures
            k@ == Seq::<char>::empty(),
    {
        KeyQueue { q: VecDeque::new() }
    }
}

/// Called from the keyboard IRQ handler with a decoded character: queued
/// unless 256 characters are already waiting.
pub fn push(k: &mut KeyQueue, c: char)
    ensures
        old(k)@.len() < KEY_QUEUE_CAP ==> final(k)@ == old(k)@.push(c),
        old(k)@.len() >= KEY_QUEUE_CAP ==> final(k)@ == old(k)@,
{
    if k.q.len() < KEY_QUEUE_CAP {
        k.q.push_back(c);
    }
}

/// Drain one queued character (the oldest).
pub fn pop(k: &mut KeyQueue) -> (c: Option<char>)
    ensures
        old(k)@.len() == 0 ==> c is None && final(k)@ == old(k)@,
        old(k)@.len() > 0 ==> c == Some(old(k)@[0]) && final(k)@ == old(k)@.drop_first(),
{
    k.q.pop_front()
}

/// Law: characters come out in the order they went in — pushing onto a
/// queue with room and popping everything returns the queue followed by `c`.
pub proof fn lemma_fifo(q: Seq<char>, c: char)
    requires
        q.len() < KEY_QUEUE_CAP,
    ensures
        q.push(c)[q.len() as int] == c,
        q.len() > 0 ==> q.push(c).drop_first() == q.drop_first().push(c),
{
    if q.len() > 0 {
        assert(q.push(c).drop_first() =~= q.drop_first().push(c));
    }
}

} // verus!
