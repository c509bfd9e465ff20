//! The deferred-work FIFO drained by the event-loop thread.
//!
//! Background threads append work items and wake the loop; the loop thread
//! pops items from the front one at a time until the queue is empty. The
//! queue itself is single-threaded data: the platform layer wraps it in a
//! mutual-exclusion lock held only around `enqueue` and `pop_front`, never
//! while an item runs.

use vstd::prelude::*;

verus! {

/// Unbounded FIFO of deferred work items, in arrival order. The front of the
/// sequence is the oldest item.
pub struct WorkQueue<T> {
    items: Vec<T>,
}

impl<T> View for WorkQueue<T> {
    type V = Seq<T>;

    closed spec fn view(&self) -> Seq<T> {
        self.items@
    }
}

impl<T> WorkQueue<T> {
    /// A new, empty queue.
    pub fn new() -> (q: Self)
        ensures
            q@ =~= Seq::<T>::empty(),
    {
        WorkQueue { items: Vec::new() }
    }

    /// Number of pending items.
    pub fn len(&self) -> (n: usize)
        ensures
            n == self@.len(),
    {
        self.items.len()
    }

    /// Append an item at the back of the queue.
    pub fn enqueue(&mut self, item: T)
        ensures
            final(self)@ == old(self)@.push(item),
    {
        self.items.push(item);
    }

    /// Pop the oldest item, if any. Returns `None` exactly when the queue is
    /// empty; otherwise returns the front item and removes it.
    pub fn pop_front(&mut self) -> (r: Option<T>)
        ensures
            old(self)@.len() == 0 ==> r is None && final(self)@ == old(self)@,
            old(self)@.len() > 0 ==> r == Some(old(self)@[0]) && final(self)@ == old(self)@.drop_first(),
    {
        if self.items.len() == 0 {
            None
        } else {
            let first = self.items.remove(0);
            proof {
                assert(old(self)@.remove(0) =~= old(self)@.drop_first());
            }
            Some(first)
        }
    }
}

/// FIFO law: starting from an empty queue, enqueuing `a`, `b`, `c` in that
/// order (each enqueue appends at the back, whichever thread performs it
/// under the lock) and then draining pops exactly `a`, then `b`, then `c`,
/// leaving the queue empty. The sequence below is the queue's contents after
/// the three enqueues; each step of the drain is given by `pop_front`'s
/// contract.
pub proof fn lemma_workqueue_fifo<T>(q0: Seq<T>, a: T, b: T, c: T)
    requires
        q0.len() == 0,
    ensures
        ({
            let q3 = q0.push(a).push(b).push(c);
            &&& q3.len() == 3
            &&& q3[0] == a
            &&& q3.drop_first()[0] == b
            &&& q3.drop_first().drop_first()[0] == c
            &&& q3.drop_first().drop_first().drop_first().len() == 0
        }),
{
    let q3 = q0.push(a).push(b).push(c);
    assert(q3 =~= seq![a, b, c]);
    assert(q3.drop_first() =~= seq![b, c]);
    assert(q3.drop_first().drop_first() =~= seq![c]);
    assert(q3.drop_first().drop_first().drop_first() =~= Seq::<T>::empty());
}

} // verus!
