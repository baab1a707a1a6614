//! The worker model: each worker owns a private queue of deferred
//! operations, appended by the dispatcher and drained from the end, so
//! every queued operation is taken exactly once, by that worker only, in
//! reverse order of insertion. The thread and wake-up channel that drive
//! a worker live outside this crate; they consume this queue through
//! `take_next`.

use vstd::prelude::*;

verus! {

/// What a worker's channel carries: a batch of work to drain, or the
/// order to shut down.
pub enum Message<T> {
    Handle(T),
    Shutdown,
}

/// A worker: an identifier and its queue of pending operations.
pub struct Worker<O> {
    id: usize,
    operations: Vec<O>,
}

impl<O> Worker<O> {
    /// The queued operations, oldest first.
    pub closed spec fn queue(&self) -> Seq<O> {
        self.operations@
    }

    /// This worker's identifier.
    pub closed spec fn spec_id(&self) -> usize {
        self.id
    }

    /// A worker with an empty queue.
    pub fn new(id: usize) -> (w: Worker<O>)
        ensures
            w.spec_id() == id,
            w.queue() =~= Seq::<O>::empty(),
    {
        Worker { id, operations: Vec::new() }
    }

    /// This worker's identifier.
    pub fn id(&self) -> (r: usize)
        ensures
            r == self.spec_id(),
    {
        self.id
    }

    /// How many operations are pending.
    pub fn pending(&self) -> (r: usize)
        ensures
            r == self.queue().len(),
    {
        self.operations.len()
    }

    /// Append an operation to this worker's queue; it will be taken
    /// exactly once, by this worker.
    pub fn enqueue(&mut self, operation: O)
        ensures
            final(self).queue() == old(self).queue().push(operation),
            final(self).spec_id() == old(self).spec_id(),
    {
        self.operations.push(operation);
    }

    /// Take the next operation to run: the most recently queued one,
    /// removed from the queue; none when the queue is empty.
    pub fn take_next(&mut self) -> (r: Option<O>)
        ensures
            old(self).queue().len() == 0 ==> r is None && final(self).queue()
                == old(self).queue(),
            old(self).queue().len() > 0 ==> (r matches Some(op) && op == old(self).queue().last()
                && final(self).queue() == old(self).queue().drop_last()),
            final(self).spec_id() == old(self).spec_id(),
    {
        let r = self.operations.pop();
        proof {
            if old(self).operations@.len() > 0 {
                assert(self.operations@ =~= old(self).operations@.drop_last());
            }
        }
        r
    }
}

} // verus!
