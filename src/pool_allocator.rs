//! Fixed-bucket allocator for the payload pool of a publisher. It hands out slot
//! indices; a slot's place in the shared region is its index times the bucket size.

use vstd::prelude::*;

verus! {

#[derive(Debug)]
/// Hands out and takes back the slots of a pool of `number_of_buckets` slots
/// of `bucket_size` bytes each.
pub struct PoolAllocator {
    free: Vec<usize>,
    bucket_size: usize,
    number_of_buckets: usize,
}

impl PoolAllocator {
    /// The free slots; the next one to be handed out is the last.
    pub closed spec fn view(&self) -> Seq<usize> {
        self.free@
    }

    pub closed spec fn spec_number_of_buckets(&self) -> nat {
        self.number_of_buckets as nat
    }

    pub closed spec fn spec_bucket_size(&self) -> nat {
        self.bucket_size as nat
    }

    /// The number of slots fits into `usize`.
    pub proof fn lemma_bounded(&self)
        ensures
            self.spec_number_of_buckets() <= usize::MAX,
    {
    }

    pub open spec fn is_free(&self, i: usize) -> bool {
        self@.contains(i)
    }

    pub closed spec fn wf(&self) -> bool {
        &&& self.free@.no_duplicates()
        &&& forall|k: int| 0 <= k < self.free@.len() ==> self.free@[k] < self.number_of_buckets
        &&& self.number_of_buckets * self.bucket_size <= usize::MAX
    }

    /// Creates a pool whose slots are all free. `None` when the pool's size
    /// does not fit into the address space.
    pub fn new(bucket_size: usize, number_of_buckets: usize) -> (r: Option<Self>)
        ensures
            r.is_some() <==> number_of_buckets * bucket_size <= usize::MAX,
            r matches Some(p) ==> {
                &&& p.wf()
                &&& p.spec_bucket_size() == bucket_size
                &&& p.spec_number_of_buckets() == number_of_buckets
                &&& p@.len() == number_of_buckets
                &&& forall|i: usize| i < number_of_buckets ==> p.is_free(i)
            },
    {
        if bucket_size != 0 && number_of_buckets > usize::MAX / bucket_size {
            proof {
                assert(number_of_buckets * bucket_size > usize::MAX) by (nonlinear_arith)
                    requires
                        bucket_size != 0,
                        number_of_buckets > usize::MAX / bucket_size,
                ;
            }
            return None;
        }
        proof {
            assert(number_of_buckets * bucket_size <= usize::MAX) by (nonlinear_arith)
                requires
                    bucket_size == 0 || number_of_buckets <= usize::MAX / bucket_size,
            ;
        }
        let mut free: Vec<usize> = Vec::new();
        let mut i: usize = number_of_buckets;
        while i > 0
            invariant
                i <= number_of_buckets,
                free@.len() == number_of_buckets - i,
                forall|k: int| 0 <= k < free@.len() ==> free@[k] == number_of_buckets - 1 - k,
            decreases i,
        {
            i = i - 1;
            free.push(i);
        }
        let p = PoolAllocator { free, bucket_size, number_of_buckets };
        assert forall|i: usize| i < number_of_buckets implies p.is_free(i) by {
            assert(p@[number_of_buckets - 1 - i] == i);
        }
        Some(p)
    }

    /// Returns the size of one slot in bytes.
    pub fn bucket_size(&self) -> (r: usize)
        ensures
            r == self.spec_bucket_size(),
    {
        self.bucket_size
    }

    /// Returns the number of slots of the pool.
    pub fn number_of_buckets(&self) -> (r: usize)
        ensures
            r == self.spec_number_of_buckets(),
    {
        self.number_of_buckets
    }

    /// Returns the number of free slots.
    pub fn number_of_free_buckets(&self) -> (r: usize)
        ensures
            r == self@.len(),
    {
        self.free.len()
    }

    /// Returns the byte offset of slot `index` from the start of the pool.
    pub fn offset_of(&self, index: usize) -> (r: usize)
        requires
            self.wf(),
            index < self.spec_number_of_buckets(),
        ensures
            r == index * self.spec_bucket_size(),
    {
        proof {
            assert(index * self.bucket_size <= self.number_of_buckets * self.bucket_size) by (nonlinear_arith)
                requires
                    index < self.number_of_buckets,
            ;
        }
        index * self.bucket_size
    }

    /// Takes a free slot, or returns `None` when every slot is in use.
    pub fn allocate(&mut self) -> (r: Option<usize>)
        requires
            old(self).wf(),
        ensures
            final(self).wf(),
            final(self).spec_bucket_size() == old(self).spec_bucket_size(),
            final(self).spec_number_of_buckets() == old(self).spec_number_of_buckets(),
            old(self)@.len() == 0 <==> r.is_none(),
            r.is_none() ==> final(self)@ == old(self)@,
            r matches Some(i) ==> {
                &&& i < old(self).spec_number_of_buckets()
                &&& old(self).is_free(i)
                &&& !final(self).is_free(i)
                &&& final(self)@ == old(self)@.drop_last()
                &&& final(self)@.to_multiset().insert(i) == old(self)@.to_multiset()
                &&& forall|x: usize| x != i ==> final(self).is_free(x) == old(self).is_free(x)
            },
    {
        let ghost before = self@;
        match self.free.pop() {
            None => None,
            Some(i) => {
                proof {
                    before.drop_last().to_multiset_ensures();
                    assert(before =~= before.drop_last().push(i));
                    assert forall|x: usize| x != i implies self.is_free(x) == before.contains(x) by {
                        if before.contains(x) {
                            let m = choose|m: int| 0 <= m < before.len() && before[m] == x;
                            assert(self@[m] == x);
                        }
                    }
                    assert(!before.drop_last().contains(i)) by {
                        if before.drop_last().contains(i) {
                            let k = choose|k: int| 0 <= k < before.len() - 1 && before.drop_last()[k] == i;
                            assert(before[k] == before[before.len() - 1]);
                        }
                    }
                    assert(before.contains(i)) by {
                        assert(before[before.len() - 1] == i);
                    }
                }
                Some(i)
            }
        }
    }

    /// Gives slot `index` back to the pool.
    pub fn deallocate(&mut self, index: usize)
        requires
            old(self).wf(),
            index < old(self).spec_number_of_buckets(),
            !old(self).is_free(index),
        ensures
            final(self).wf(),
            final(self).spec_bucket_size() == old(self).spec_bucket_size(),
            final(self).spec_number_of_buckets() == old(self).spec_number_of_buckets(),
            final(self)@ == old(self)@.push(index),
            final(self)@.to_multiset() == old(self)@.to_multiset().insert(index),
            final(self).is_free(index),
            forall|x: usize| x != index ==> final(self).is_free(x) == old(self).is_free(x),
    {
        let ghost before = self@;
        self.free.push(index);
        proof {
            assert(self@[before.len() as int] == index);
            assert forall|x: usize| x != index implies self.is_free(x) == before.contains(x) by {
                if before.contains(x) {
                    let m = choose|m: int| 0 <= m < before.len() && before[m] == x;
                    assert(self@[m] == x);
                }
                if self@.contains(x) {
                    let m = choose|m: int| 0 <= m < self@.len() && self@[m] == x;
                    assert(before[m] == x);
                }
            }
            before.to_multiset_ensures();
            assert(self.free@.no_duplicates()) by {
                assert forall|a: int, b: int| 0 <= a < b < self.free@.len() implies self.free@[a] != self.free@[b] by {
                    if b == before.len() {
                        assert(before.contains(before[a]));
                    }
                }
            }
        }
    }
}

} // verus!
