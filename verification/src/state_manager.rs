//! The deferred-mutation queue: a per-container FIFO of pending structural
//! edits, queued during event or tick handling and drained exactly once per
//! frame, outside any in-progress traversal of the container.
use std::collections::VecDeque;
use vstd::prelude::*;

verus! {

/// A FIFO queue of pending mutations of type `Op`. The container that owns
/// the queue interprets the drained operations itself, each one observing the
/// state left by the previous one in the same drain.
pub struct StateManager<Op> {
    funcs: VecDeque<Op>,
}

impl<Op> StateManager<Op> {
    /// The queued operations, oldest first.
    pub closed spec fn view(self) -> Seq<Op> {
        self.funcs@
    }

    /// An empty queue.
    pub fn new() -> (s: Self)
        ensures
            s.view() == Seq::<Op>::empty(),
    {
        StateManager { funcs: VecDeque::new() }
    }

    /// Schedule one more mutation, behind all already queued.
    pub fn add(&mut self, func: Op)
        ensures
            final(self).view() == old(self).view().push(func),
    {
        self.funcs.push_back(func);
    }

    /// Drain the queue: every queued operation is handed back in the order it
    /// was queued, and the queue is left empty. Operations queued after the
    /// drain therefore take effect no earlier than the next drain, which
    /// bounds one frame's structural churn.
    pub fn apply(&mut self) -> (ops: Vec<Op>)
        ensures
            ops@ == old(self).view(),
            final(self).view() == Seq::<Op>::empty(),
    {
        let mut ops: Vec<Op> = Vec::new();
        while self.funcs.len() > 0
            invariant
                ops@ + self.funcs@ == old(self).view(),
            decreases self.funcs@.len(),
        {
            if let Some(op) = self.funcs.pop_front() {
                ops.push(op);
            }
        }
        assert(ops@ + self.funcs@ =~= ops@);
        ops
    }
}

impl<Op> Default for StateManager<Op> {
    /// Same as `new`: an empty queue.
    fn default() -> (s: Self)
        ensures
            s.view() == Seq::<Op>::empty(),
    {
        StateManager { funcs: VecDeque::new() }
    }
}

} // verus!
