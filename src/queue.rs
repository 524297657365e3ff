use std::collections::VecDeque;
use vstd::prelude::*;
use crate::key::Handle;

verus! {

broadcast use vstd::std_specs::vecdeque::group_vec_dequeue_axioms;

/// FIFO of handles whose first release has been seen, bounded by a capacity:
/// the oldest handle leaves only when the queue holds more than `capacity`.
pub struct ReclaimQueue {
    items: VecDeque<Handle>,
    capacity: usize,
}

impl View for ReclaimQueue {
    type V = Seq<Handle>;

    closed spec fn view(&self) -> Seq<Handle> {
        self.items@
    }
}

impl ReclaimQueue {
    pub closed spec fn spec_capacity(&self) -> usize {
        self.capacity
    }

    pub fn new(capacity: usize) -> (q: ReclaimQueue)
        ensures
            q@ == Seq::<Handle>::empty(),
            q.spec_capacity() == capacity,
    {
        ReclaimQueue { items: VecDeque::new(), capacity }
    }

    /// The configured bound.
    pub fn capacity(&self) -> (c: usize)
        ensures
            c == self.spec_capacity(),
    {
        self.capacity
    }

    pub fn len(&self) -> (n: usize)
        ensures
            n == self@.len(),
    {
        self.items.len()
    }

    /// Appends `h` at the back.
    pub fn push(&mut self, h: Handle)
        ensures
            final(self)@ == old(self)@.push(h),
            final(self).spec_capacity() == old(self).spec_capacity(),
    {
        self.items.push_back(h);
    }

    /// Removes and returns the oldest handle, only when the queue holds more
    /// handles than its capacity.
    pub fn pop_front_if_over_capacity(&mut self) -> (r: Option<Handle>)
        ensures
            final(self).spec_capacity() == old(self).spec_capacity(),
            old(self)@.len() > old(self).spec_capacity() ==> {
                &&& r == Some(old(self)@[0])
                &&& final(self)@ == old(self)@.drop_first()
            },
            old(self)@.len() <= old(self).spec_capacity() ==> {
                &&& r is None
                &&& final(self)@ == old(self)@
            },
    {
        if self.items.len() > self.capacity {
            let r = self.items.pop_front();
            assert(self.items@ =~= old(self)@.drop_first());
            r
        } else {
            None
        }
    }
}

} // verus!
