//! The run loop's callback queue.
//!
//! The host's asynchronous services complete on threads of their own, where
//! nothing of the guest may be touched. What such a completion wants done is
//! written down as a `Completion` and appended to the queue of a run loop.
//! The guest thread that owns the run loop drains the queue at a safe point
//! and carries the entries out, first in, first out.

use crate::libc::network::{Completion, CompletionView};
use vstd::prelude::*;

verus! {

/// Deferred completions, oldest first.
pub struct CallbackQueue {
    entries: Vec<Completion>,
}

/// The entries that one drain took out of a queue, oldest first. Entries
/// that are enqueued after the drain are not among them.
pub struct DrainPass {
    entries: Vec<Completion>,
}

/// The queue after `entry` has been appended.
pub open spec fn enqueued(queue: Seq<CompletionView>, entry: CompletionView) -> Seq<
    CompletionView,
> {
    queue.push(entry)
}

/// The queue after all of `entries` have been appended, in order.
pub open spec fn enqueued_all(queue: Seq<CompletionView>, entries: Seq<CompletionView>) -> Seq<
    CompletionView,
>
    decreases entries.len(),
{
    if entries.len() == 0 {
        queue
    } else {
        enqueued_all(enqueued(queue, entries[0]), entries.drop_first())
    }
}

/// Order is kept: after any number of appends, a drain holds what was
/// queued before, followed by what was appended, each in the order in which
/// it came.
pub proof fn lemma_drain_keeps_order(queue: Seq<CompletionView>, entries: Seq<CompletionView>)
    ensures
        enqueued_all(queue, entries) == queue + entries,
    decreases entries.len(),
{
    if entries.len() == 0 {
        assert(queue + entries =~= queue);
    } else {
        lemma_drain_keeps_order(enqueued(queue, entries[0]), entries.drop_first());
        assert(queue.push(entries[0]) + entries.drop_first() =~= queue + entries);
    }
}

impl View for CallbackQueue {
    type V = Seq<CompletionView>;

    closed spec fn view(&self) -> Seq<CompletionView> {
        self.entries@.map_values(|entry: Completion| entry@)
    }
}

impl CallbackQueue {
    pub fn new() -> (queue: Self)
        ensures
            queue@ == Seq::<CompletionView>::empty(),
    {
        let queue = CallbackQueue { entries: Vec::new() };
        assert(queue@ =~= Seq::<CompletionView>::empty());
        queue
    }

    /// Number of entries that wait to be drained.
    pub fn len(&self) -> (len: usize)
        ensures
            len == self@.len(),
    {
        self.entries.len()
    }

    /// Appends `entry` behind every entry that is queued already.
    pub fn enqueue(&mut self, entry: Completion)
        ensures
            final(self)@ == enqueued(old(self)@, entry@),
    {
        self.entries.push(entry);
        assert(self@ =~= old(self)@.push(entry@));
    }

    /// Takes out every entry that is queued now, in the order of their
    /// arrival, and leaves the queue empty.
    pub fn drain(&mut self) -> (pass: DrainPass)
        ensures
            pass.remaining() == old(self)@,
            final(self)@ == Seq::<CompletionView>::empty(),
    {
        let mut taken: Vec<Completion> = Vec::new();
        std::mem::swap(&mut self.entries, &mut taken);
        assert(self@ =~= Seq::<CompletionView>::empty());
        DrainPass { entries: taken }
    }
}

impl DrainPass {
    /// The entries not yet handed out, oldest first.
    pub closed spec fn remaining(&self) -> Seq<CompletionView> {
        self.entries@.map_values(|entry: Completion| entry@)
    }

    /// Number of entries not yet handed out.
    pub fn len(&self) -> (len: usize)
        ensures
            len == self.remaining().len(),
    {
        self.entries.len()
    }

    /// Hands out the oldest entry not yet handed out, or `None` when the
    /// pass is over. Each entry is handed out once.
    pub fn next_entry(&mut self) -> (entry: Option<Completion>)
        ensures
            old(self).remaining().len() == 0 ==> entry is None && final(self).remaining() == old(
                self,
            ).remaining(),
            old(self).remaining().len() > 0 ==> entry is Some && entry->0@ == old(
                self,
            ).remaining()[0] && final(self).remaining() == old(self).remaining().drop_first(),
    {
        if self.entries.len() == 0 {
            None
        } else {
            let entry = self.entries.remove(0);
            assert(self.remaining() =~= old(self).remaining().drop_first());
            Some(entry)
        }
    }
}

} // verus!
