//! Bounded single-producer/single-consumer queue of indices that overflows safely:
//! a push into a full queue hands the oldest index back to the producer.

use vstd::prelude::*;

verus! {

/// Position of the `k`-th element of a ring that starts at `head`.
pub open spec fn ring_index(head: int, k: int, capacity: int) -> int {
    if head + k < capacity {
        head + k
    } else {
        head + k - capacity
    }
}

/// The queue's contents after `value` is pushed onto `items` in a queue of the
/// given capacity, and the index that leaves it, if any.
pub open spec fn pushed(items: Seq<usize>, value: usize, capacity: nat) -> (Seq<usize>, Option<usize>) {
    if items.len() < capacity {
        (items.push(value), None)
    } else {
        (items.push(value).drop_first(), Some(items.push(value)[0]))
    }
}

/// A ring buffer of indices with a fixed capacity.
#[derive(Debug)]
pub struct SafelyOverflowingIndexQueue {
    data: Vec<usize>,
    head: usize,
    len: usize,
}

impl SafelyOverflowingIndexQueue {
    /// The queued indices, oldest first.
    pub closed spec fn view(&self) -> Seq<usize> {
        Seq::new(self.len as nat, |k: int| self.data@[ring_index(self.head as int, k, self.data@.len() as int)])
    }

    /// The number of indices the queue can hold.
    pub closed spec fn spec_capacity(&self) -> nat {
        self.data@.len()
    }

    pub closed spec fn wf(&self) -> bool {
        &&& self.len <= self.data@.len()
        &&& (self.data@.len() == 0 || self.head < self.data@.len())
        &&& self.head <= self.data@.len()
    }

    /// Creates an empty queue that holds up to `capacity` indices.
    pub fn new(capacity: usize) -> (r: Self)
        ensures
            r.wf(),
            r@ == Seq::<usize>::empty(),
            r.spec_capacity() == capacity,
    {
        let mut data: Vec<usize> = Vec::new();
        let mut i: usize = 0;
        while i < capacity
            invariant
                i <= capacity,
                data@.len() == i,
            decreases capacity - i,
        {
            data.push(0);
            i = i + 1;
        }
        let r = SafelyOverflowingIndexQueue { data, head: 0, len: 0 };
        assert(r@ =~= Seq::<usize>::empty());
        r
    }

    /// A queue holds no more indices than its capacity.
    pub proof fn lemma_len_bound(&self)
        requires
            self.wf(),
        ensures
            self@.len() <= self.spec_capacity(),
    {
    }

    /// Returns the number of indices the queue can hold.
    pub fn capacity(&self) -> (r: usize)
        ensures
            r == self.spec_capacity(),
    {
        self.data.len()
    }

    /// Returns the number of queued indices.
    pub fn len(&self) -> (r: usize)
        requires
            self.wf(),
        ensures
            r == self@.len(),
    {
        self.len
    }

    /// Returns true when no index is queued.
    pub fn is_empty(&self) -> (r: bool)
        requires
            self.wf(),
        ensures
            r == (self@.len() == 0),
    {
        self.len == 0
    }

    /// Returns true when the queue holds as many indices as it can.
    pub fn is_full(&self) -> (r: bool)
        requires
            self.wf(),
        ensures
            r == (self@.len() == self.spec_capacity()),
            self@.len() <= self.spec_capacity(),
    {
        self.len == self.data.len()
    }

    /// Appends `value`. When the queue is full the oldest index leaves it and is
    /// returned, so that the producer takes over the responsibility for it.
    pub fn push(&mut self, value: usize) -> (r: Option<usize>)
        requires
            old(self).wf(),
        ensures
            final(self).wf(),
            final(self).spec_capacity() == old(self).spec_capacity(),
            (final(self)@, r) == pushed(old(self)@, value, old(self).spec_capacity()),
    {
        let ghost old_items = self@;
        let cap = self.data.len();
        if cap == 0 {
            assert(old_items =~= Seq::<usize>::empty());
            assert(old_items.push(value).drop_first() =~= old_items);
            return Some(value);
        }
        if self.len < cap {
            let pos = if self.len < cap - self.head {
                self.head + self.len
            } else {
                self.len - (cap - self.head)
            };
            self.data.set(pos, value);
            self.len = self.len + 1;
            assert(self@ =~= old_items.push(value));
            None
        } else {
            let oldest = self.data[self.head];
            let pos = self.head;
            self.data.set(pos, value);
            self.head = if self.head + 1 == cap { 0 } else { self.head + 1 };
            assert(self@ =~= old_items.push(value).drop_first());
            Some(oldest)
        }
    }

    /// Removes and returns the oldest index, or `None` when the queue is empty.
    pub fn pop(&mut self) -> (r: Option<usize>)
        requires
            old(self).wf(),
        ensures
            final(self).wf(),
            final(self).spec_capacity() == old(self).spec_capacity(),
            old(self)@.len() == 0 ==> r.is_none() && final(self)@ == old(self)@,
            old(self)@.len() > 0 ==> r == Some(old(self)@[0]) && final(self)@ == old(self)@.drop_first(),
    {
        if self.len == 0 {
            return None;
        }
        let ghost old_items = self@;
        let cap = self.data.len();
        let v = self.data[self.head];
        self.head = if self.head + 1 == cap { 0 } else { self.head + 1 };
        self.len = self.len - 1;
        assert(self@ =~= old_items.drop_first());
        Some(v)
    }

    /// Returns the `k`-th queued index, counted from the oldest.
    pub fn get(&self, k: usize) -> (r: usize)
        requires
            self.wf(),
            k < self@.len(),
        ensures
            r == self@[k as int],
    {
        let cap = self.data.len();
        let pos = if k < cap - self.head {
            self.head + k
        } else {
            k - (cap - self.head)
        };
        self.data[pos]
    }

    /// Returns whether `value` is queued.
    pub fn contains(&self, value: usize) -> (r: bool)
        requires
            self.wf(),
        ensures
            r == self@.contains(value),
    {
        let mut k: usize = 0;
        while k < self.len
            invariant
                self.wf(),
                k <= self@.len(),
                forall|m: int| 0 <= m < k ==> self@[m] != value,
            decreases self@.len() - k,
        {
            if self.get(k) == value {
                return true;
            }
            k = k + 1;
        }
        false
    }
}

} // verus!
