//! Transient on-screen notifications (catches, level-ups): messages queue up
//! here and are drained into the overlay, which fades each one out.

use vstd::prelude::*;

verus! {

/// Queue of pending messages.
pub struct Toasts {
    pending: Vec<String>,
}

impl Toasts {
    /// The messages waiting to be shown, oldest first.
    pub closed spec fn queued(&self) -> Seq<String> {
        self.pending@
    }
}

impl Default for Toasts {
    /// Nothing queued.
    fn default() -> (t: Toasts)
        ensures
            t.queued().len() == 0,
    {
        Toasts { pending: Vec::new() }
    }
}

impl Toasts {
    /// Queues a message behind those already waiting.
    pub fn push(&mut self, msg: String)
        ensures
            final(self).queued() == old(self).queued().push(msg),
    {
        self.pending.push(msg);
    }

    /// Whether nothing is waiting.
    pub fn is_empty(&self) -> (empty: bool)
        ensures
            empty == (self.queued().len() == 0),
    {
        self.pending.len() == 0
    }

    /// Hands out every waiting message, oldest first, and empties the queue.
    pub fn drain(&mut self) -> (msgs: Vec<String>)
        ensures
            msgs@ == old(self).queued(),
            final(self).queued().len() == 0,
    {
        let mut msgs: Vec<String> = Vec::new();
        std::mem::swap(&mut msgs, &mut self.pending);
        msgs
    }
}

} // verus!
