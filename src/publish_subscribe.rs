//! The zero-copy data path of a publish-subscribe service: a publisher's
//! payload pool, the connection to each subscriber with its submission and
//! reclamation queues, the history that late subscribers receive, and the
//! samples that subscribers hold.
//!
//! Slots move by index only: a payload is written once into the pool and every
//! subscriber reads it in place.

use vstd::prelude::*;
use vstd::set_lib::{lemma_int_range, lemma_len_subset, lemma_set_disjoint_lens, set_int_range};
use crate::index_queue::SafelyOverflowingIndexQueue;
use crate::pool_allocator::PoolAllocator;
use crate::port_identifiers::UniquePublisherId;
use crate::static_config::publish_subscribe::StaticConfig;

verus! {

/// What a bounded queue of capacity `capacity` holds after `v` was offered to
/// it: appended while there is room; otherwise, with safe overflow, appended
/// while the oldest leaves, and without it, refused.
pub open spec fn deliver<A>(s: Seq<A>, v: A, capacity: nat, safe_overflow: bool) -> Seq<A> {
    if s.len() < capacity {
        s.push(v)
    } else if safe_overflow {
        s.push(v).drop_first()
    } else {
        s
    }
}

/// What a new subscriber's queue holds after the history `h` was offered to it,
/// oldest first.
pub open spec fn replay<A>(h: Seq<A>, capacity: nat, safe_overflow: bool) -> Seq<A>
    decreases h.len(),
{
    if h.len() == 0 {
        Seq::empty()
    } else {
        deliver(replay(h.drop_last(), capacity, safe_overflow), h.last(), capacity, safe_overflow)
    }
}

/// The payloads in the slots `slots`, in their order.
pub open spec fn values_of<T>(slots: Seq<usize>, payloads: Seq<T>) -> Seq<T> {
    slots.map_values(|s: usize| payloads[s as int])
}

proof fn lemma_values_of_replay<T>(h: Seq<usize>, payloads: Seq<T>, capacity: nat, ov: bool)
    ensures
        values_of(replay(h, capacity, ov), payloads) == replay(values_of(h, payloads), capacity, ov),
    decreases h.len(),
{
    if h.len() > 0 {
        lemma_values_of_replay(h.drop_last(), payloads, capacity, ov);
        assert(values_of(h, payloads).drop_last() =~= values_of(h.drop_last(), payloads));
        lemma_values_of_deliver(replay(h.drop_last(), capacity, ov), h.last(), payloads, capacity, ov);
    }
}

proof fn lemma_values_of_deliver<T>(slots: Seq<usize>, s: usize, payloads: Seq<T>, capacity: nat, ov: bool)
    ensures
        values_of(deliver(slots, s, capacity, ov), payloads) == deliver(values_of(slots, payloads), payloads[s as int], capacity, ov),
{
    if slots.len() < capacity {
        assert(values_of(slots.push(s), payloads) =~= values_of(slots, payloads).push(payloads[s as int]));
    } else if ov {
        assert(values_of(slots.push(s).drop_first(), payloads) =~= values_of(slots, payloads).push(payloads[s as int]).drop_first());
    }
}

/// Outside of the index that leaves and the index that enters, a push keeps
/// which indices a queue holds.
proof fn lemma_contains_after_push(items: Seq<usize>, s: usize, i: usize)
    requires
        i != s,
    ensures
        items.push(s).contains(i) == items.contains(i),
        items.len() > 0 && i != items[0] ==> items.push(s).drop_first().contains(i) == items.contains(i),
{
    if items.contains(i) {
        let m = choose|m: int| 0 <= m < items.len() && items[m] == i;
        assert(items.push(s)[m] == i);
        if items.len() > 0 && i != items[0] {
            assert(items.push(s).drop_first()[m - 1] == i);
        }
    }
    if items.push(s).contains(i) {
        let m = choose|m: int| 0 <= m < items.push(s).len() && items.push(s)[m] == i;
        assert(items[m] == i);
    }
    if items.len() > 0 && items.push(s).drop_first().contains(i) {
        let m = choose|m: int| 0 <= m < items.push(s).drop_first().len() && items.push(s).drop_first()[m] == i;
        assert(items[m + 1] == i);
    }
}

/// The indices of `s` as integers.
spec fn ints(s: Seq<usize>) -> Seq<int> {
    s.map_values(|x: usize| x as int)
}

proof fn lemma_ints_set(s: Seq<usize>)
    ensures
        ints(s).to_set().finite(),
        ints(s).to_set().len() <= s.len(),
        forall|i: usize| s.contains(i) ==> #[trigger] ints(s).to_set().contains(i as int),
{
    broadcast use vstd::seq_lib::seq_to_set_is_finite;
    ints(s).lemma_cardinality_of_set();
    assert forall|i: usize| s.contains(i) implies #[trigger] ints(s).to_set().contains(i as int) by {
        let k = choose|k: int| 0 <= k < s.len() && s[k] == i;
        assert(ints(s)[k] == i as int);
    }
}

/// The header that travels with each payload.
#[derive(Debug, Clone, Copy, PartialEq, Eq, Hash)]
pub struct Header {
    pub publisher_id: UniquePublisherId,
    pub sequence_number: u64,
}

/// Why a publisher could not be created.
#[derive(Debug, Clone, Copy, PartialEq, Eq, Hash, Structural)]
pub enum PublisherCreateError {
    UnableToCreatePayloadPool,
}

/// Why no slot could be loaned.
#[derive(Debug, Clone, Copy, PartialEq, Eq, Hash, Structural)]
pub enum PublisherLoanError {
    OutOfMemory,
}

/// Why no subscriber could be added.
#[derive(Debug, Clone, Copy, PartialEq, Eq, Hash, Structural)]
pub enum SubscriberCreateError {
    ExceedsMaxSupportedPorts,
}

/// Why a subscriber could not receive.
#[derive(Debug, Clone, Copy, PartialEq, Eq, Hash, Structural)]
pub enum SubscriberReceiveError {
    TooManySamplesHeld,
}

/// A slot that the publisher loaned for writing. It is consumed by `send`.
#[derive(Debug)]
pub struct Loan {
    slot: usize,
}

impl Loan {
    pub closed spec fn view(&self) -> usize {
        self.slot
    }
}

/// A payload that a subscriber received and holds until it releases it.
#[derive(Debug)]
pub struct Sample {
    subscriber: usize,
    slot: usize,
}

impl Sample {
    pub closed spec fn spec_subscriber(&self) -> usize {
        self.subscriber
    }

    pub closed spec fn spec_slot(&self) -> usize {
        self.slot
    }

    /// Returns the subscriber that holds the sample.
    pub fn subscriber(&self) -> (r: usize)
        ensures
            r == self.spec_subscriber(),
    {
        self.subscriber
    }
}

/// The resources of one publisher-subscriber pair.
#[derive(Debug)]
struct Connection {
    submission: SafelyOverflowingIndexQueue,
    reclamation: SafelyOverflowingIndexQueue,
    borrowed: Vec<usize>,
    connected: bool,
}

impl Connection {
    spec fn holds(&self, i: usize) -> bool {
        self.submission@.contains(i) || self.reclamation@.contains(i) || self.borrowed@.contains(i)
    }

    spec fn wf(&self, buffer: nat, max_borrowed: nat, k: nat) -> bool {
        &&& self.submission.wf()
        &&& self.reclamation.wf()
        &&& self.submission.spec_capacity() == buffer
        &&& self.reclamation.spec_capacity() == buffer + max_borrowed
        &&& self.submission@.len() <= buffer
        &&& self.borrowed@.len() <= max_borrowed
        &&& !self.connected ==> self.submission@.len() == 0 && self.reclamation@.len() == 0 && self.borrowed@.len() == 0
        &&& self.submission@.len() + self.reclamation@.len() + self.borrowed@.len() <= buffer + max_borrowed
        &&& forall|m: int| 0 <= m < self.submission@.len() ==> #[trigger] self.submission@[m] < k
        &&& forall|m: int| 0 <= m < self.reclamation@.len() ==> #[trigger] self.reclamation@[m] < k
        &&& forall|m: int| 0 <= m < self.borrowed@.len() ==> #[trigger] self.borrowed@[m] < k
    }
}

fn vec_contains(v: &Vec<usize>, x: usize) -> (r: bool)
    ensures
        r == v@.contains(x),
{
    let mut k: usize = 0;
    while k < v.len()
        invariant
            k <= v@.len(),
            forall|m: int| 0 <= m < k ==> v@[m] != x,
        decreases v@.len() - k,
    {
        if v[k] == x {
            return true;
        }
        k = k + 1;
    }
    false
}

fn connection_holds(c: &Connection, i: usize) -> (r: bool)
    requires
        c.submission.wf(),
        c.reclamation.wf(),
    ensures
        r == c.holds(i),
{
    c.submission.contains(i) || c.reclamation.contains(i) || vec_contains(&c.borrowed, i)
}

/// A publisher with its payload pool and the connections to its subscribers.
/// Subscriber `j` is the `j`-th that was added.
#[derive(Debug)]
pub struct PublishSubscribe<T> {
    publisher_id: UniquePublisherId,
    pool: PoolAllocator,
    payloads: Vec<T>,
    sequence_numbers: Vec<u64>,
    loaned: Vec<bool>,
    history: SafelyOverflowingIndexQueue,
    connections: Vec<Connection>,
    buffer_size: usize,
    max_borrowed: usize,
    max_subscribers: usize,
    enable_safe_overflow: bool,
    next_sequence_number: u64,
}

impl<T: Copy> PublishSubscribe<T> {
    /// The number of slots of the payload pool.
    pub closed spec fn spec_capacity(&self) -> nat {
        self.pool.spec_number_of_buckets()
    }

    /// Slot `i` is in the pool's free list.
    pub closed spec fn is_free(&self, i: usize) -> bool {
        self.pool.is_free(i)
    }

    /// The number of free slots.
    pub closed spec fn free_count(&self) -> nat {
        self.pool@.len()
    }

    /// Slot `i` is loaned to the publisher's user for writing.
    pub closed spec fn is_loaned(&self, i: usize) -> bool {
        self.loaned@[i as int]
    }

    /// Slot `i` is in the history, or queued, held or returning on a connection.
    pub closed spec fn is_held(&self, i: usize) -> bool {
        ||| self.history@.contains(i)
        ||| exists|j: int| 0 <= j < self.connections@.len() && #[trigger] self.connections@[j].holds(i)
    }

    pub closed spec fn number_of_subscribers(&self) -> nat {
        self.connections@.len()
    }

    pub closed spec fn spec_buffer_size(&self) -> nat {
        self.buffer_size as nat
    }

    pub closed spec fn spec_max_borrowed(&self) -> nat {
        self.max_borrowed as nat
    }

    pub closed spec fn spec_history_size(&self) -> nat {
        self.history.spec_capacity()
    }

    pub closed spec fn spec_max_subscribers(&self) -> nat {
        self.max_subscribers as nat
    }

    pub closed spec fn spec_safe_overflow(&self) -> bool {
        self.enable_safe_overflow
    }

    pub closed spec fn spec_publisher_id(&self) -> UniquePublisherId {
        self.publisher_id
    }

    /// The payload in slot `i`.
    pub closed spec fn value_of(&self, i: usize) -> T {
        self.payloads@[i as int]
    }

    /// The payloads that subscriber `j` has yet to receive, oldest first.
    pub closed spec fn pending(&self, j: int) -> Seq<T> {
        values_of(self.connections@[j].submission@, self.payloads@)
    }

    /// The payloads that a subscriber added now would receive first.
    pub closed spec fn history_values(&self) -> Seq<T> {
        values_of(self.history@, self.payloads@)
    }

    /// Subscriber `j` is still connected.
    pub closed spec fn is_connected(&self, j: int) -> bool {
        self.connections@[j].connected
    }

    /// The number of samples that subscriber `j` holds.
    pub closed spec fn borrowed_count(&self, j: int) -> nat {
        self.connections@[j].borrowed@.len()
    }

    /// The slots that subscriber `j` returned and the publisher has not yet
    /// taken back, oldest first.
    pub closed spec fn reclaiming(&self, j: int) -> Seq<usize> {
        self.connections@[j].reclamation@
    }

    /// The number of slots that subscriber `j` returned and the publisher has
    /// not yet taken back.
    pub closed spec fn reclaiming_count(&self, j: int) -> nat {
        self.connections@[j].reclamation@.len()
    }

    /// `sample` is held by its subscriber.
    pub closed spec fn holds_sample(&self, sample: &Sample) -> bool {
        &&& sample.subscriber < self.connections@.len()
        &&& self.connections@[sample.subscriber as int].borrowed@.contains(sample.slot)
    }

    /// The sequence number that the next sample sent gets.
    pub closed spec fn spec_next_sequence_number(&self) -> u64 {
        self.next_sequence_number
    }

    /// The sequence number in the header of slot `i`.
    pub closed spec fn sequence_number_of(&self, i: usize) -> u64 {
        self.sequence_numbers@[i as int]
    }

    /// How many of the first `m` subscribers accept one more sample: those with
    /// room in their queue, or all where the oldest sample may be pushed out.
    pub open spec fn accepting_count(&self, m: int) -> nat
        decreases m,
    {
        if m <= 0 {
            0
        } else {
            self.accepting_count(m - 1) + if self.is_connected(m - 1) && (self.pending(m - 1).len()
                < self.spec_buffer_size() || self.spec_safe_overflow()) {
                1nat
            } else {
                0nat
            }
        }
    }

    pub proof fn lemma_accepting_count_eq(&self, other: &Self, m: int)
        requires
            self.spec_buffer_size() == other.spec_buffer_size(),
            self.spec_safe_overflow() == other.spec_safe_overflow(),
            forall|j: int| 0 <= j < m ==> #[trigger] self.pending(j) == other.pending(j),
            forall|j: int| 0 <= j < m ==> #[trigger] self.is_connected(j) == other.is_connected(j),
        ensures
            self.accepting_count(m) == other.accepting_count(m),
        decreases m,
    {
        if m > 0 {
            self.lemma_accepting_count_eq(other, m - 1);
            assert(self.pending(m - 1) == other.pending(m - 1));
            assert(self.is_connected(m - 1) == other.is_connected(m - 1));
        }
    }

    /// The two publishers have the same settings and pool size.
    pub open spec fn same_settings(&self, other: &Self) -> bool {
        &&& self.spec_publisher_id() == other.spec_publisher_id()
        &&& self.spec_buffer_size() == other.spec_buffer_size()
        &&& self.spec_max_borrowed() == other.spec_max_borrowed()
        &&& self.spec_max_subscribers() == other.spec_max_subscribers()
        &&& self.spec_safe_overflow() == other.spec_safe_overflow()
        &&& self.spec_history_size() == other.spec_history_size()
        &&& self.spec_capacity() == other.spec_capacity()
    }

    /// Every slot is in exactly one place: free, loaned, or held.
    pub closed spec fn slot_ok(&self, i: usize) -> bool {
        &&& self.pool.is_free(i) <==> (!self.loaned@[i as int] && !self.is_held(i))
        &&& self.loaned@[i as int] ==> !self.is_held(i)
    }

    spec fn structure_ok(&self) -> bool {
        let k = self.pool.spec_number_of_buckets();
        &&& self.pool.wf()
        &&& self.payloads@.len() == k
        &&& self.sequence_numbers@.len() == k
        &&& self.loaned@.len() == k
        &&& self.history.wf()
        &&& forall|m: int| 0 <= m < self.history@.len() ==> #[trigger] self.history@[m] < k
        &&& self.connections@.len() <= self.max_subscribers
        &&& (self.max_subscribers == 0 || self.buffer_size + self.max_borrowed <= usize::MAX)
        &&& self.max_subscribers * (self.buffer_size + self.max_borrowed) + self.history.spec_capacity() + 1 <= k
        &&& forall|j: int|
            0 <= j < self.connections@.len() ==> #[trigger] self.connections@[j].wf(
                self.buffer_size as nat,
                self.max_borrowed as nat,
                k,
            )
    }

    /// The invariant, except for the slots `a` and `b`, which are neither free
    /// nor loaned while an operation moves them.
    spec fn inv(&self, a: int, b: int) -> bool {
        let k = self.pool.spec_number_of_buckets();
        &&& self.structure_ok()
        &&& forall|i: usize| i < k && i != a && i != b ==> #[trigger] self.slot_ok(i)
        &&& 0 <= a < k ==> !self.pool.is_free(a as usize) && !self.loaned@[a]
        &&& 0 <= b < k ==> !self.pool.is_free(b as usize) && !self.loaned@[b]
    }

    pub closed spec fn wf(&self) -> bool {
        self.inv(-1, -1)
    }

    proof fn lemma_inv_same(&self, a: int)
        ensures
            self.inv(a, a) == self.inv(-1, a),
            self.inv(a, a) == self.inv(a, -1),
    {
    }

    fn is_slot_held(&self, i: usize) -> (r: bool)
        requires
            self.structure_ok(),
        ensures
            r == self.is_held(i),
    {
        if self.history.contains(i) {
            return true;
        }
        let mut j: usize = 0;
        while j < self.connections.len()
            invariant
                self.structure_ok(),
                j <= self.connections@.len(),
                forall|m: int| 0 <= m < j ==> !(#[trigger] self.connections@[m]).holds(i),
            decreases self.connections@.len() - j,
        {
            assert(self.connections@[j as int].wf(self.buffer_size as nat, self.max_borrowed as nat, self.pool.spec_number_of_buckets()));
            if connection_holds(&self.connections[j], i) {
                return true;
            }
            j = j + 1;
        }
        false
    }

    /// Gives slot `d` back to the pool where nothing holds it any more.
    fn recycle(&mut self, a: Ghost<int>, d: usize)
        requires
            old(self).inv(a@, d as int),
            d < old(self).spec_capacity(),
            a@ != d,
        ensures
            final(self).inv(a@, a@),
            final(self).connections == old(self).connections,
            final(self).history == old(self).history,
            final(self).payloads == old(self).payloads,
            final(self).loaned == old(self).loaned,
            final(self).sequence_numbers == old(self).sequence_numbers,
            final(self).publisher_id == old(self).publisher_id,
            final(self).buffer_size == old(self).buffer_size,
            final(self).max_borrowed == old(self).max_borrowed,
            final(self).max_subscribers == old(self).max_subscribers,
            final(self).enable_safe_overflow == old(self).enable_safe_overflow,
            final(self).next_sequence_number == old(self).next_sequence_number,
            final(self).pool.spec_number_of_buckets() == old(self).pool.spec_number_of_buckets(),
            forall|i: usize| old(self).is_free(i) ==> final(self).is_free(i),
    {
        let ghost before = self.pool@;
        let held = self.is_slot_held(d);
        if !held {
            self.pool.deallocate(d);
        }
        proof {
            assert(self.connections@ == old(self).connections@);
            assert(self.history@ == old(self).history@);
            let k = self.pool.spec_number_of_buckets();
            assert forall|i: usize| i != d implies self.pool@.contains(i) == before.contains(i) by {
                if !held {
                    assert(self.pool@ == before.push(d));
                    if before.contains(i) {
                        let m = choose|m: int| 0 <= m < before.len() && before[m] == i;
                        assert(self.pool@[m] == i);
                    }
                    if self.pool@.contains(i) {
                        let m = choose|m: int| 0 <= m < self.pool@.len() && self.pool@[m] == i;
                        assert(before[m] == i);
                    }
                }
            }
            assert forall|i: usize| i < k && i != a@ implies #[trigger] self.slot_ok(i) by {
                assert(old(self).is_held(i) == self.is_held(i));
                if i != d {
                    assert(old(self).slot_ok(i));
                } else if !held {
                    assert(self.pool@[before.len() as int] == d);
                }
            }
            self.pool.lemma_bounded();
            if 0 <= a@ < k {
                let ai = a@ as usize;
                assert(ai != d);
                assert(self.pool@.contains(ai) == before.contains(ai));
            }
        }
    }

    /// Takes back every slot that the subscribers returned: each goes back to the
    /// pool where nothing else holds it.
    fn reclaim_all(&mut self)
        requires
            old(self).wf(),
        ensures
            final(self).wf(),
            final(self).connections@.len() == old(self).connections@.len(),
            forall|m: int|
                0 <= m < final(self).connections@.len() ==> {
                    &&& (#[trigger] final(self).connections@[m]).reclamation@.len() == 0
                    &&& final(self).connections@[m].submission == old(self).connections@[m].submission
                    &&& final(self).connections@[m].borrowed == old(self).connections@[m].borrowed
                    &&& final(self).connections@[m].connected == old(self).connections@[m].connected
                },
            final(self).history == old(self).history,
            final(self).payloads == old(self).payloads,
            final(self).loaned == old(self).loaned,
            final(self).sequence_numbers == old(self).sequence_numbers,
            final(self).publisher_id == old(self).publisher_id,
            final(self).buffer_size == old(self).buffer_size,
            final(self).max_borrowed == old(self).max_borrowed,
            final(self).max_subscribers == old(self).max_subscribers,
            final(self).enable_safe_overflow == old(self).enable_safe_overflow,
            final(self).next_sequence_number == old(self).next_sequence_number,
            final(self).pool.spec_number_of_buckets() == old(self).pool.spec_number_of_buckets(),
            forall|i: usize| old(self).is_free(i) ==> final(self).is_free(i),
    {
        let n = self.connections.len();
        let mut j: usize = 0;
        while j < n
            invariant
                self.wf(),
                n == self.connections@.len(),
                n == old(self).connections@.len(),
                j <= n,
                forall|m: int| 0 <= m < j ==> (#[trigger] self.connections@[m]).reclamation@.len() == 0,
                forall|m: int|
                    0 <= m < n ==> {
                        &&& (#[trigger] self.connections@[m]).submission == old(self).connections@[m].submission
                        &&& self.connections@[m].borrowed == old(self).connections@[m].borrowed
                        &&& self.connections@[m].connected == old(self).connections@[m].connected
                    },
                self.history == old(self).history,
                self.payloads == old(self).payloads,
                self.loaned == old(self).loaned,
                self.sequence_numbers == old(self).sequence_numbers,
                self.publisher_id == old(self).publisher_id,
                self.buffer_size == old(self).buffer_size,
                self.max_borrowed == old(self).max_borrowed,
                self.max_subscribers == old(self).max_subscribers,
                self.enable_safe_overflow == old(self).enable_safe_overflow,
                self.next_sequence_number == old(self).next_sequence_number,
                self.pool.spec_number_of_buckets() == old(self).pool.spec_number_of_buckets(),
                forall|i: usize| old(self).is_free(i) ==> self.is_free(i),
            decreases n - j,
        {
            assert(self.connections@[j as int].wf(self.buffer_size as nat, self.max_borrowed as nat, self.pool.spec_number_of_buckets()));
            while !self.connections[j].reclamation.is_empty()
                invariant
                    self.wf(),
                    n == self.connections@.len(),
                    n == old(self).connections@.len(),
                    j < n,
                    self.connections@[j as int].wf(self.buffer_size as nat, self.max_borrowed as nat, self.pool.spec_number_of_buckets()),
                    forall|m: int| 0 <= m < j ==> (#[trigger] self.connections@[m]).reclamation@.len() == 0,
                    forall|m: int|
                        0 <= m < n ==> {
                            &&& (#[trigger] self.connections@[m]).submission == old(self).connections@[m].submission
                            &&& self.connections@[m].borrowed == old(self).connections@[m].borrowed
                            &&& self.connections@[m].connected == old(self).connections@[m].connected
                        },
                    self.history == old(self).history,
                    self.payloads == old(self).payloads,
                    self.loaned == old(self).loaned,
                    self.sequence_numbers == old(self).sequence_numbers,
                    self.publisher_id == old(self).publisher_id,
                    self.buffer_size == old(self).buffer_size,
                    self.max_borrowed == old(self).max_borrowed,
                    self.max_subscribers == old(self).max_subscribers,
                    self.enable_safe_overflow == old(self).enable_safe_overflow,
                    self.next_sequence_number == old(self).next_sequence_number,
                    self.pool.spec_number_of_buckets() == old(self).pool.spec_number_of_buckets(),
                    forall|i: usize| old(self).is_free(i) ==> self.is_free(i),
                decreases self.connections@[j as int].reclamation@.len(),
            {
                let ghost prev = *self;
                assert(prev.connections@[j as int].wf(prev.buffer_size as nat, prev.max_borrowed as nat, prev.pool.spec_number_of_buckets()));
                let popped = self.connections[j].reclamation.pop();
                let d = match popped {
                    Some(d) => d,
                    None => {
                        proof { assert(false); }
                        0
                    },
                };
                proof {
                    let k = self.pool.spec_number_of_buckets();
                    let c0 = prev.connections@[j as int];
                    let c1 = self.connections@[j as int];
                    assert(c1.reclamation@ == c0.reclamation@.drop_first());
                    assert(c0.reclamation@[0] == d);
                    assert(c0.holds(d));
                    assert(prev.is_held(d));
                    assert(prev.slot_ok(d));
                    assert forall|m: int| 0 <= m < n && m != j implies self.connections@[m] == prev.connections@[m] by {}
                    assert forall|i: usize| i != d implies #[trigger] self.is_held(i) == prev.is_held(i) by {
                        assert(c1.holds(i) == c0.holds(i)) by {
                            if c0.reclamation@.contains(i) {
                                let m = choose|m: int| 0 <= m < c0.reclamation@.len() && c0.reclamation@[m] == i;
                                assert(m != 0);
                                assert(c1.reclamation@[m - 1] == i);
                            }
                            if c1.reclamation@.contains(i) {
                                let m = choose|m: int| 0 <= m < c1.reclamation@.len() && c1.reclamation@[m] == i;
                                assert(c0.reclamation@[m + 1] == i);
                            }
                        }
                        if prev.is_held(i) && !prev.history@.contains(i) {
                            let m = choose|m: int| 0 <= m < prev.connections@.len() && #[trigger] prev.connections@[m].holds(i);
                            assert(self.connections@[m].holds(i));
                        }
                        if self.is_held(i) && !self.history@.contains(i) {
                            let m = choose|m: int| 0 <= m < self.connections@.len() && #[trigger] self.connections@[m].holds(i);
                            assert(prev.connections@[m].holds(i));
                        }
                    }
                    assert(c1.wf(self.buffer_size as nat, self.max_borrowed as nat, k)) by {
                        assert forall|m: int| 0 <= m < c1.reclamation@.len() implies #[trigger] c1.reclamation@[m] < k by {
                            assert(c1.reclamation@[m] == c0.reclamation@[m + 1]);
                        }
                    }
                    assert forall|m: int| 0 <= m < n implies (#[trigger] self.connections@[m]).wf(
                        self.buffer_size as nat, self.max_borrowed as nat, k) by {
                        if m != j {
                            assert(prev.connections@[m].wf(prev.buffer_size as nat, prev.max_borrowed as nat, k));
                        }
                    }
                    assert(self.structure_ok());
                    assert forall|i: usize| i < k && i != -1 && i != d implies #[trigger] self.slot_ok(i) by {
                        assert(prev.slot_ok(i));
                    }
                    assert(self.inv(-1, d as int));
                }
                self.recycle(Ghost(-1), d);
            }
            j = j + 1;
        }
    }

    proof fn lemma_held_frame(&self, other: &Self, j: int, i: usize)
        requires
            self.history@ == other.history@,
            self.connections@.len() == other.connections@.len(),
            forall|m: int| 0 <= m < self.connections@.len() && m != j ==> self.connections@[m] == other.connections@[m],
            0 <= j < self.connections@.len() ==> self.connections@[j].holds(i) == other.connections@[j].holds(i),
        ensures
            self.is_held(i) == other.is_held(i),
    {
        if self.is_held(i) && !self.history@.contains(i) {
            let m = choose|m: int| 0 <= m < self.connections@.len() && #[trigger] self.connections@[m].holds(i);
            assert(other.connections@[m].holds(i));
        }
        if other.is_held(i) && !other.history@.contains(i) {
            let m = choose|m: int| 0 <= m < other.connections@.len() && #[trigger] other.connections@[m].holds(i);
            assert(self.connections@[m].holds(i));
        }
    }

    proof fn lemma_held_history(&self, other: &Self, i: usize)
        requires
            self.history@.contains(i) == other.history@.contains(i),
            self.connections@ == other.connections@,
        ensures
            self.is_held(i) == other.is_held(i),
    {
        if self.is_held(i) && !self.history@.contains(i) {
            let m = choose|m: int| 0 <= m < self.connections@.len() && #[trigger] self.connections@[m].holds(i);
            assert(other.connections@[m].holds(i));
        }
        if other.is_held(i) && !other.history@.contains(i) {
            let m = choose|m: int| 0 <= m < other.connections@.len() && #[trigger] other.connections@[m].holds(i);
            assert(self.connections@[m].holds(i));
        }
    }

    /// Offers slot `s` to the queue of subscriber `j`. A slot that the overflow
    /// pushes out goes back to the pool where nothing else holds it.
    fn deliver_to(&mut self, j: usize, s: usize, a: Ghost<int>) -> (r: bool)
        requires
            old(self).inv(a@, a@),
            a@ == s as int || (a@ == -1 && old(self).is_held(s)),
            j < old(self).connections@.len(),
            s < old(self).spec_capacity(),
            old(self).connections@[j as int].reclamation@.len() == 0,
            old(self).connections@[j as int].connected,
        ensures
            final(self).inv(a@, a@),
            r == (old(self).connections@[j as int].submission@.len() < old(self).buffer_size
                || old(self).enable_safe_overflow),
            final(self).connections@.len() == old(self).connections@.len(),
            final(self).connections@[j as int].submission@ == deliver(
                old(self).connections@[j as int].submission@,
                s,
                old(self).buffer_size as nat,
                old(self).enable_safe_overflow,
            ),
            final(self).connections@[j as int].reclamation@ == old(self).connections@[j as int].reclamation@,
            final(self).connections@[j as int].borrowed == old(self).connections@[j as int].borrowed,
            final(self).connections@[j as int].connected == old(self).connections@[j as int].connected,
            forall|m: int|
                0 <= m < old(self).connections@.len() && m != j ==> final(self).connections@[m]
                    == old(self).connections@[m],
            final(self).history == old(self).history,
            final(self).payloads == old(self).payloads,
            final(self).loaned == old(self).loaned,
            final(self).sequence_numbers == old(self).sequence_numbers,
            final(self).publisher_id == old(self).publisher_id,
            final(self).buffer_size == old(self).buffer_size,
            final(self).max_borrowed == old(self).max_borrowed,
            final(self).max_subscribers == old(self).max_subscribers,
            final(self).enable_safe_overflow == old(self).enable_safe_overflow,
            final(self).next_sequence_number == old(self).next_sequence_number,
            final(self).pool.spec_number_of_buckets() == old(self).pool.spec_number_of_buckets(),
            forall|i: usize| old(self).is_free(i) ==> final(self).is_free(i),
    {
        let ghost prev = *self;
        let ghost k = self.pool.spec_number_of_buckets();
        assert(prev.connections@[j as int].wf(prev.buffer_size as nat, prev.max_borrowed as nat, k));
        let len = self.connections[j].submission.len();
        if len < self.buffer_size {
            let _ = self.connections[j].submission.push(s);
            proof {
                let c0 = prev.connections@[j as int];
                let c1 = self.connections@[j as int];
                assert(c1.submission@ == c0.submission@.push(s));
                assert forall|i: usize| i != s implies #[trigger] self.is_held(i) == prev.is_held(i) by {
                    lemma_contains_after_push(c0.submission@, s, i);
                    self.lemma_held_frame(&prev, j as int, i);
                }
                assert(c1.submission@[c1.submission@.len() - 1] == s);
                assert(c1.holds(s));
                assert(self.is_held(s));
                assert(c1.wf(self.buffer_size as nat, self.max_borrowed as nat, k)) by {
                    assert forall|m: int| 0 <= m < c1.submission@.len() implies #[trigger] c1.submission@[m] < k by {
                        if m < c0.submission@.len() {
                            assert(c1.submission@[m] == c0.submission@[m]);
                        }
                    }
                }
                assert forall|m: int| 0 <= m < self.connections@.len() implies (#[trigger] self.connections@[m]).wf(
                    self.buffer_size as nat, self.max_borrowed as nat, k) by {
                    if m != j {
                        assert(prev.connections@[m].wf(prev.buffer_size as nat, prev.max_borrowed as nat, k));
                    }
                }
                assert forall|i: usize| i < k && i != a@ implies #[trigger] self.slot_ok(i) by {
                    assert(prev.slot_ok(i));
                }
            }
            true
        } else if self.enable_safe_overflow {
            let displaced = self.connections[j].submission.push(s);
            let ghost c0 = prev.connections@[j as int];
            let ghost c1 = self.connections@[j as int];
            proof {
                assert(c1.submission@ == c0.submission@.push(s).drop_first());
                assert(displaced == Some(c0.submission@.push(s)[0]));
                if c0.submission@.len() > 0 {
                    assert(c1.submission@[c1.submission@.len() - 1] == s);
                    assert(c1.holds(s));
                } else {
                    assert(c1.submission@ =~= c0.submission@);
                }
                assert(c1.wf(self.buffer_size as nat, self.max_borrowed as nat, k)) by {
                    assert forall|m: int| 0 <= m < c1.submission@.len() implies #[trigger] c1.submission@[m] < k by {
                        if m + 1 < c0.submission@.len() {
                            assert(c1.submission@[m] == c0.submission@[m + 1]);
                        }
                    }
                }
                assert forall|m: int| 0 <= m < self.connections@.len() implies (#[trigger] self.connections@[m]).wf(
                    self.buffer_size as nat, self.max_borrowed as nat, k) by {
                    if m != j {
                        assert(prev.connections@[m].wf(prev.buffer_size as nat, prev.max_borrowed as nat, k));
                    }
                }
            }
            match displaced {
                Some(d) => {
                    proof {
                        let d0 = c0.submission@.push(s)[0];
                        assert(d == d0);
                        if c0.submission@.len() > 0 {
                            assert forall|i: usize| i != s && i != d implies #[trigger] self.is_held(i) == prev.is_held(i) by {
                                lemma_contains_after_push(c0.submission@, s, i);
                                self.lemma_held_frame(&prev, j as int, i);
                            }
                            if d == s {
                                assert(c1.holds(s));
                                assert(self.is_held(s));
                                assert forall|i: usize| i < k && i != a@ implies #[trigger] self.slot_ok(i) by {
                                    assert(prev.slot_ok(i));
                                }
                            } else {
                                assert(c0.submission@[0] == d);
                                assert(c0.holds(d));
                                assert(prev.is_held(d));
                                assert(prev.slot_ok(d));
                                assert(self.is_held(s));
                                assert forall|i: usize| i < k && i != a@ && i != d implies #[trigger] self.slot_ok(i) by {
                                    assert(prev.slot_ok(i));
                                }
                            }
                        } else {
                            assert(d == s);
                            assert(c1.submission@ =~= c0.submission@);
                            assert forall|i: usize| #[trigger] self.is_held(i) == prev.is_held(i) by {
                                self.lemma_held_frame(&prev, j as int, i);
                            }
                            assert forall|i: usize| i < k && i != a@ implies #[trigger] self.slot_ok(i) by {
                                assert(prev.slot_ok(i));
                            }
                        }
                    }
                    if d != s {
                        self.recycle(a, d);
                    }
                },
                None => {
                    proof { assert(false); }
                },
            }
            true
        } else {
            false
        }
    }

    /// Loans a free slot for writing. The slots that the subscribers returned
    /// are taken back first. Fails with `OutOfMemory` when no slot is free even
    /// then.
    pub fn loan(&mut self) -> (r: Result<Loan, PublisherLoanError>)
        requires
            old(self).wf(),
        ensures
            final(self).wf(),
            final(self).same_settings(old(self)),
            final(self).number_of_subscribers() == old(self).number_of_subscribers(),
            forall|j: int|
                0 <= j < old(self).number_of_subscribers() ==> {
                    &&& #[trigger] final(self).pending(j) == old(self).pending(j)
                    &&& final(self).borrowed_count(j) == old(self).borrowed_count(j)
                    &&& final(self).reclaiming_count(j) == 0
                    &&& final(self).is_connected(j) == old(self).is_connected(j)
                },
            final(self).history_values() == old(self).history_values(),
            r matches Ok(l) ==> {
                &&& l@ < old(self).spec_capacity()
                &&& !old(self).is_loaned(l@)
                &&& final(self).is_loaned(l@)
                &&& forall|i: usize| i != l@ && i < old(self).spec_capacity() ==> final(self).is_loaned(i) == old(self).is_loaned(i)
            },
            r matches Err(e) ==> {
                &&& e == PublisherLoanError::OutOfMemory
                &&& forall|i: usize| i < final(self).spec_capacity() ==> !final(self).is_free(i)
                &&& forall|i: usize| i < old(self).spec_capacity() ==> !old(self).is_free(i)
                &&& forall|i: usize| final(self).is_loaned(i) == old(self).is_loaned(i)
            },
            (forall|i: usize| i < old(self).spec_capacity() ==> !old(self).is_loaned(i)) ==> r is Ok,
    {
        self.reclaim_all();
        proof {
            if forall|i: usize| i < old(self).spec_capacity() ==> !old(self).is_loaned(i) {
                assert forall|i: usize| i < self.spec_capacity() implies !self.is_loaned(i) by {
                    assert(old(self).loaned == self.loaned);
                    assert(i < old(self).spec_capacity());
                    assert(!old(self).is_loaned(i));
                }
                self.lemma_free_slot_without_loans();
            }
        }
        let ghost prev = *self;
        match self.pool.allocate() {
            None => {
                proof {
                    let k = self.pool.spec_number_of_buckets();
                    assert forall|i: usize| i < self.spec_capacity() implies !self.is_free(i) by {}
                    assert forall|x: usize| #[trigger] self.is_held(x) == prev.is_held(x) by {
                        self.lemma_held_frame(&prev, -1, x);
                    }
                    assert forall|x: usize| x < k implies #[trigger] self.slot_ok(x) by {
                        assert(prev.slot_ok(x));
                    }
                }
                Err(PublisherLoanError::OutOfMemory)
            },
            Some(i) => {
                self.loaned.set(i, true);
                proof {
                    let k = self.pool.spec_number_of_buckets();
                    assert(prev.slot_ok(i));
                    assert forall|x: usize| #[trigger] self.is_held(x) == prev.is_held(x) by {
                        self.lemma_held_frame(&prev, -1, x);
                    }
                    assert(!self.pool.is_free(i));
                    assert(self.loaned@[i as int]);
                    assert forall|x: usize| x < k implies #[trigger] self.slot_ok(x) by {
                        assert(prev.slot_ok(x));
                        if x != i {
                            assert(self.loaned@[x as int] == prev.loaned@[x as int]);
                            assert(self.pool.is_free(x) == prev.pool.is_free(x));
                        }
                    }
                }
                Ok(Loan { slot: i })
            },
        }
    }

    /// Writes `value` into the loaned slot.
    pub fn write(&mut self, loan: &Loan, value: T)
        requires
            old(self).wf(),
            old(self).is_loaned(loan@),
            loan@ < old(self).spec_capacity(),
        ensures
            final(self).wf(),
            final(self).same_settings(old(self)),
            final(self).number_of_subscribers() == old(self).number_of_subscribers(),
            forall|j: int|
                0 <= j < old(self).number_of_subscribers() ==> {
                    &&& #[trigger] final(self).pending(j) == old(self).pending(j)
                    &&& final(self).borrowed_count(j) == old(self).borrowed_count(j)
                    &&& final(self).reclaiming_count(j) == old(self).reclaiming_count(j)
                    &&& final(self).is_connected(j) == old(self).is_connected(j)
                },
            final(self).history_values() == old(self).history_values(),
            forall|i: usize| final(self).is_loaned(i) == old(self).is_loaned(i),
            forall|i: usize| final(self).is_free(i) == old(self).is_free(i),
            final(self).value_of(loan@) == value,
    {
        let ghost prev = *self;
        let s = loan.slot;
        self.payloads.set(s, value);
        proof {
            let k = self.pool.spec_number_of_buckets();
            assert(prev.slot_ok(s));
            assert forall|x: usize| #[trigger] self.is_held(x) == prev.is_held(x) by {
                self.lemma_held_frame(&prev, -1, x);
            }
            assert forall|x: usize| x < k implies #[trigger] self.slot_ok(x) by {
                assert(prev.slot_ok(x));
            }
            assert forall|j: int| 0 <= j < prev.number_of_subscribers() implies #[trigger] self.pending(j) == prev.pending(j) by {
                let sub = prev.connections@[j].submission@;
                assert(prev.connections@[j].wf(prev.buffer_size as nat, prev.max_borrowed as nat, k));
                assert forall|m: int| 0 <= m < sub.len() implies sub[m] != s by {
                    if sub[m] == s {
                        assert(prev.connections@[j].holds(s));
                    }
                }
                assert forall|m: int| 0 <= m < sub.len() implies #[trigger] self.pending(j)[m] == prev.pending(j)[m] by {
                    assert(self.payloads@[sub[m] as int] == prev.payloads@[sub[m] as int]);
                }
                assert(self.pending(j) =~= prev.pending(j));
            }
            assert forall|m: int| 0 <= m < prev.history@.len() implies prev.history@[m] != s by {
                if prev.history@[m] == s {
                    assert(prev.history@.contains(s));
                }
            }
            assert forall|m: int| 0 <= m < prev.history@.len() implies #[trigger] self.history_values()[m] == prev.history_values()[m] by {
                assert(self.payloads@[prev.history@[m] as int] == prev.payloads@[prev.history@[m] as int]);
            }
            assert(self.history_values() =~= prev.history_values());
        }
    }

    /// Sends the loaned slot: its header gets the next sequence number, every
    /// subscriber's queue is offered the slot, and the history keeps it. A
    /// subscriber whose queue is full loses its oldest sample with safe
    /// overflow and misses this one without it. Returns how many subscribers
    /// got the sample.
    pub fn send(&mut self, loan: Loan) -> (r: usize)
        requires
            old(self).wf(),
            old(self).is_loaned(loan@),
            loan@ < old(self).spec_capacity(),
        ensures
            final(self).wf(),
            final(self).same_settings(old(self)),
            final(self).number_of_subscribers() == old(self).number_of_subscribers(),
            forall|j: int|
                0 <= j < old(self).number_of_subscribers() ==> {
                    &&& #[trigger] final(self).pending(j) == if old(self).is_connected(j) {
                        deliver(
                            old(self).pending(j),
                            old(self).value_of(loan@),
                            old(self).spec_buffer_size(),
                            old(self).spec_safe_overflow(),
                        )
                    } else {
                        old(self).pending(j)
                    }
                    &&& final(self).borrowed_count(j) == old(self).borrowed_count(j)
                    &&& final(self).reclaiming_count(j) == 0
                    &&& final(self).is_connected(j) == old(self).is_connected(j)
                },
            final(self).history_values() == deliver(
                old(self).history_values(),
                old(self).value_of(loan@),
                old(self).spec_history_size(),
                true,
            ),
            !final(self).is_loaned(loan@),
            forall|i: usize| i != loan@ && i < old(self).spec_capacity() ==> final(self).is_loaned(i) == old(self).is_loaned(i),
            final(self).sequence_number_of(loan@) == old(self).spec_next_sequence_number(),
            final(self).spec_next_sequence_number() == if old(self).spec_next_sequence_number() == u64::MAX {
                0
            } else {
                (old(self).spec_next_sequence_number() + 1) as u64
            },
            r == old(self).accepting_count(old(self).number_of_subscribers() as int),
    {
        let s = loan.slot;
        let ghost v = self.payloads@[s as int];
        self.reclaim_all();
        let ghost start = *self;
        let sequence_number = self.next_sequence_number;
        self.sequence_numbers.set(s, sequence_number);
        self.next_sequence_number = if sequence_number == u64::MAX { 0 } else { sequence_number + 1 };
        self.loaned.set(s, false);
        let ghost mid = *self;
        proof {
            let k = self.pool.spec_number_of_buckets();
            assert(start.slot_ok(s));
            assert forall|x: usize| #[trigger] self.is_held(x) == start.is_held(x) by {
                self.lemma_held_frame(&start, -1, x);
            }
            assert forall|x: usize| x < k && x != s implies #[trigger] self.slot_ok(x) by {
                assert(start.slot_ok(x));
                assert(self.loaned@[x as int] == start.loaned@[x as int]);
            }
            assert forall|m: int| 0 <= m < start.connections@.len() implies #[trigger] start.pending(m) == old(self).pending(m) by {}
            assert forall|m: int| 0 <= m < start.connections@.len() implies #[trigger] start.is_connected(m) == old(self).is_connected(m) by {}
            start.lemma_accepting_count_eq(old(self), start.connections@.len() as int);
        }
        let n = self.connections.len();
        let mut count: usize = 0;
        let mut j: usize = 0;
        while j < n
            invariant
                self.inv(s as int, s as int),
                n == self.connections@.len(),
                n == start.connections@.len(),
                j <= n,
                s < self.spec_capacity(),
                self.spec_capacity() == start.spec_capacity(),
                count == start.accepting_count(j as int),
                count <= j,
                forall|m: int| 0 <= m < n ==> {
                    &&& (#[trigger] self.connections@[m]).reclamation@.len() == 0
                    &&& self.connections@[m].borrowed == start.connections@[m].borrowed
                    &&& self.connections@[m].connected == start.connections@[m].connected
                },
                forall|m: int| 0 <= m < j ==> (#[trigger] self.connections@[m]).submission@ == if start.connections@[m].connected {
                    deliver(
                        start.connections@[m].submission@,
                        s,
                        start.buffer_size as nat,
                        start.enable_safe_overflow,
                    )
                } else {
                    start.connections@[m].submission@
                },
                forall|m: int| j <= m < n ==> (#[trigger] self.connections@[m]).submission@ == start.connections@[m].submission@,
                self.history == mid.history,
                self.payloads == mid.payloads,
                self.loaned == mid.loaned,
                self.sequence_numbers == mid.sequence_numbers,
                self.next_sequence_number == mid.next_sequence_number,
                self.same_settings(&start),
            decreases n - j,
        {
            let accepted = if self.connections[j].connected {
                self.deliver_to(j, s, Ghost(s as int))
            } else {
                false
            };
            proof {
                assert(start.pending(j as int).len() == start.connections@[j as int].submission@.len());
            }
            if accepted {
                count = count + 1;
            }
            j = j + 1;
        }
        let ghost after_loop = *self;
        let displaced = self.history.push(s);
        proof {
            let k = self.pool.spec_number_of_buckets();
            let h0 = after_loop.history@;
            assert(self.history@ == h0.push(s).drop_first() || self.history@ == h0.push(s));
            assert forall|m: int| 0 <= m < self.history@.len() implies #[trigger] self.history@[m] < k by {
                if self.history@ == h0.push(s) {
                    if m < h0.len() {
                        assert(self.history@[m] == h0[m]);
                    }
                } else {
                    if m + 1 < h0.len() {
                        assert(self.history@[m] == h0[m + 1]);
                    }
                }
            }
        }
        match displaced {
            Some(d) => {
                proof {
                    let k = self.pool.spec_number_of_buckets();
                    let h0 = after_loop.history@;
                    assert(self.history@ == h0.push(s).drop_first());
                    assert(d == h0.push(s)[0]);
                    if h0.len() == 0 {
                        assert(d == s);
                        assert(self.history@ =~= h0);
                    }
                    assert forall|i: usize| i != s && i != d implies #[trigger] self.is_held(i) == after_loop.is_held(i) by {
                        lemma_contains_after_push(h0, s, i);
                        assert(self.history@.contains(i) == h0.contains(i));
                        self.lemma_held_history(&after_loop, i);
                    }
                    if d != s {
                        assert(h0[0] == d);
                        assert(h0.contains(d));
                        assert(after_loop.slot_ok(d));
                        assert forall|i: usize| i < k && i != s && i != d implies #[trigger] self.slot_ok(i) by {
                            assert(after_loop.slot_ok(i));
                        }
                    } else {
                        if h0.len() > 0 {
                            assert(self.history@[self.history@.len() - 1] == s);
                            assert(self.history@.contains(s));
                        }
                        assert forall|i: usize| i < k && i != s implies #[trigger] self.slot_ok(i) by {
                            assert(after_loop.slot_ok(i));
                        }
                    }
                }
                if d != s {
                    self.recycle(Ghost(s as int), d);
                }
            },
            None => {
                proof {
                    let k = self.pool.spec_number_of_buckets();
                    let h0 = after_loop.history@;
                    assert(self.history@ == h0.push(s));
                    assert forall|i: usize| i != s implies #[trigger] self.is_held(i) == after_loop.is_held(i) by {
                        lemma_contains_after_push(h0, s, i);
                        self.lemma_held_history(&after_loop, i);
                    }
                    assert forall|i: usize| i < k && i != s implies #[trigger] self.slot_ok(i) by {
                        assert(after_loop.slot_ok(i));
                    }
                }
            },
        }
        proof {
            self.lemma_inv_same(s as int);
        }
        self.recycle(Ghost(-1), s);
        proof {
            assert forall|j: int| 0 <= j < n && old(self).is_connected(j) implies #[trigger] self.pending(j) == deliver(
                old(self).pending(j),
                v,
                old(self).spec_buffer_size(),
                old(self).spec_safe_overflow(),
            ) by {
                lemma_values_of_deliver(start.connections@[j].submission@, s, self.payloads@, start.buffer_size as nat, start.enable_safe_overflow);
                assert(start.pending(j) == old(self).pending(j));
            }
            lemma_values_of_deliver(after_loop.history@, s, self.payloads@, after_loop.history.spec_capacity(), true);
        }
        count
    }

    /// Loans a slot, writes `value` into it and sends it.
    pub fn send_copy(&mut self, value: T) -> (r: Result<usize, PublisherLoanError>)
        requires
            old(self).wf(),
        ensures
            final(self).wf(),
            final(self).same_settings(old(self)),
            final(self).number_of_subscribers() == old(self).number_of_subscribers(),
            forall|i: usize| i < old(self).spec_capacity() ==> final(self).is_loaned(i) == old(self).is_loaned(i),
            (forall|i: usize| i < old(self).spec_capacity() ==> !old(self).is_loaned(i)) ==> r is Ok,
            r matches Ok(c) ==> {
                &&& c == old(self).accepting_count(old(self).number_of_subscribers() as int)
                &&& forall|j: int|
                    0 <= j < old(self).number_of_subscribers() ==> {
                        &&& #[trigger] final(self).pending(j) == if old(self).is_connected(j) {
                            deliver(
                                old(self).pending(j),
                                value,
                                old(self).spec_buffer_size(),
                                old(self).spec_safe_overflow(),
                            )
                        } else {
                            old(self).pending(j)
                        }
                        &&& final(self).borrowed_count(j) == old(self).borrowed_count(j)
                    }
                &&& final(self).history_values() == deliver(
                    old(self).history_values(),
                    value,
                    old(self).spec_history_size(),
                    true,
                )
            },
            r matches Err(e) ==> {
                &&& e == PublisherLoanError::OutOfMemory
                &&& forall|i: usize| i < final(self).spec_capacity() ==> !final(self).is_free(i)
                &&& forall|i: usize| i < old(self).spec_capacity() ==> !old(self).is_free(i)
                &&& exists|i: usize| i < old(self).spec_capacity() && old(self).is_loaned(i)
                &&& forall|j: int|
                    0 <= j < old(self).number_of_subscribers() ==> {
                        &&& #[trigger] final(self).pending(j) == old(self).pending(j)
                        &&& final(self).borrowed_count(j) == old(self).borrowed_count(j)
                    }
                &&& final(self).history_values() == old(self).history_values()
            },
    {
        let loan = match self.loan() {
            Ok(l) => l,
            Err(e) => return Err(e),
        };
        let ghost loaned_state = *self;
        self.write(&loan, value);
        let ghost written = *self;
        proof {
            assert forall|j: int| 0 <= j < old(self).number_of_subscribers() implies #[trigger] written.pending(j) == old(self).pending(j) by {
                assert(loaned_state.pending(j) == old(self).pending(j));
                assert(loaned_state.is_connected(j) == old(self).is_connected(j));
            }
            assert forall|j: int| 0 <= j < old(self).number_of_subscribers() implies #[trigger] written.is_connected(j) == old(self).is_connected(j) by {
                assert(loaned_state.pending(j) == old(self).pending(j));
                assert(written.pending(j) == loaned_state.pending(j));
                assert(loaned_state.is_connected(j) == old(self).is_connected(j));
            }
            written.lemma_accepting_count_eq(old(self), written.number_of_subscribers() as int);
        }
        let c = self.send(loan);
        proof {
            assert forall|j: int| 0 <= j < old(self).number_of_subscribers() implies {
                &&& #[trigger] self.pending(j) == if old(self).is_connected(j) {
                    deliver(old(self).pending(j), value, old(self).spec_buffer_size(), old(self).spec_safe_overflow())
                } else {
                    old(self).pending(j)
                }
                &&& self.borrowed_count(j) == old(self).borrowed_count(j)
            } by {
                assert(written.pending(j) == old(self).pending(j));
                assert(written.is_connected(j) == old(self).is_connected(j));
            }
        }
        Ok(c)
    }

    /// Subscriber `subscriber` takes the oldest sample of its queue. Fails with
    /// `TooManySamplesHeld` while it holds as many samples as it may; returns
    /// `None` and changes nothing where its queue is empty.
    pub fn receive(&mut self, subscriber: usize) -> (r: Result<Option<Sample>, SubscriberReceiveError>)
        requires
            old(self).wf(),
            subscriber < old(self).number_of_subscribers(),
        ensures
            final(self).wf(),
            old(self).borrowed_count(subscriber as int) >= old(self).spec_max_borrowed() ==> {
                &&& r matches Err(SubscriberReceiveError::TooManySamplesHeld)
                &&& *final(self) == *old(self)
            },
            old(self).borrowed_count(subscriber as int) < old(self).spec_max_borrowed()
                && old(self).pending(subscriber as int).len() == 0 ==> {
                &&& r matches Ok(None)
                &&& *final(self) == *old(self)
            },
            old(self).borrowed_count(subscriber as int) < old(self).spec_max_borrowed()
                && old(self).pending(subscriber as int).len() > 0 ==> {
                &&& r matches Ok(Some(sample))
                &&& sample.spec_subscriber() == subscriber
                &&& final(self).holds_sample(&sample)
                &&& final(self).value_of(sample.spec_slot()) == old(self).pending(subscriber as int)[0]
                &&& final(self).sequence_number_of(sample.spec_slot()) == old(self).sequence_number_of(sample.spec_slot())
            },
            final(self).same_settings(old(self)),
            final(self).number_of_subscribers() == old(self).number_of_subscribers(),
            final(self).history_values() == old(self).history_values(),
            final(self).pending(subscriber as int) == if old(self).borrowed_count(subscriber as int) < old(self).spec_max_borrowed()
                && old(self).pending(subscriber as int).len() > 0 {
                old(self).pending(subscriber as int).drop_first()
            } else {
                old(self).pending(subscriber as int)
            },
            final(self).borrowed_count(subscriber as int) == if old(self).borrowed_count(subscriber as int) < old(self).spec_max_borrowed()
                && old(self).pending(subscriber as int).len() > 0 {
                old(self).borrowed_count(subscriber as int) + 1
            } else {
                old(self).borrowed_count(subscriber as int)
            },
            final(self).reclaiming_count(subscriber as int) == old(self).reclaiming_count(subscriber as int),
            forall|m: int|
                0 <= m < old(self).number_of_subscribers() && m != subscriber ==> {
                    &&& #[trigger] final(self).pending(m) == old(self).pending(m)
                    &&& final(self).borrowed_count(m) == old(self).borrowed_count(m)
                    &&& final(self).reclaiming_count(m) == old(self).reclaiming_count(m)
                },
            forall|m: int| 0 <= m < old(self).number_of_subscribers() ==> #[trigger] final(self).is_connected(m) == old(self).is_connected(m),
            forall|i: usize| final(self).is_loaned(i) == old(self).is_loaned(i),
            forall|i: usize| final(self).is_free(i) == old(self).is_free(i),
    {
        let j = subscriber;
        let ghost prev = *self;
        let ghost k = self.pool.spec_number_of_buckets();
        assert(prev.connections@[j as int].wf(prev.buffer_size as nat, prev.max_borrowed as nat, k));
        if self.connections[j].borrowed.len() >= self.max_borrowed {
            return Err(SubscriberReceiveError::TooManySamplesHeld);
        }
        if self.connections[j].submission.is_empty() {
            return Ok(None);
        }
        let popped = self.connections[j].submission.pop();
        let slot = match popped {
            Some(v) => v,
            None => {
                proof { assert(false); }
                0
            },
        };
        self.connections[j].borrowed.push(slot);
        proof {
            let c0 = prev.connections@[j as int];
            let c1 = self.connections@[j as int];
            assert(c1.submission@ == c0.submission@.drop_first());
            assert(c1.borrowed@ == c0.borrowed@.push(slot));
            assert(c0.submission@[0] == slot);
            assert(c1.borrowed@[c1.borrowed@.len() - 1] == slot);
            assert forall|i: usize| #[trigger] c1.holds(i) == c0.holds(i) by {
                if i != slot {
                    lemma_contains_after_push(c0.borrowed@, slot, i);
                    if c0.submission@.contains(i) {
                        let m = choose|m: int| 0 <= m < c0.submission@.len() && c0.submission@[m] == i;
                        assert(c1.submission@[m - 1] == i);
                    }
                    if c1.submission@.contains(i) {
                        let m = choose|m: int| 0 <= m < c1.submission@.len() && c1.submission@[m] == i;
                        assert(c0.submission@[m + 1] == i);
                    }
                } else {
                    assert(c1.borrowed@.contains(i));
                    assert(c0.submission@.contains(i));
                }
            }
            assert forall|i: usize| #[trigger] self.is_held(i) == prev.is_held(i) by {
                self.lemma_held_frame(&prev, j as int, i);
            }
            assert(c1.wf(self.buffer_size as nat, self.max_borrowed as nat, k)) by {
                assert forall|m: int| 0 <= m < c1.submission@.len() implies #[trigger] c1.submission@[m] < k by {
                    assert(c1.submission@[m] == c0.submission@[m + 1]);
                }
                assert forall|m: int| 0 <= m < c1.borrowed@.len() implies #[trigger] c1.borrowed@[m] < k by {
                    if m < c0.borrowed@.len() {
                        assert(c1.borrowed@[m] == c0.borrowed@[m]);
                    }
                }
            }
            assert forall|m: int| 0 <= m < self.connections@.len() implies (#[trigger] self.connections@[m]).wf(
                self.buffer_size as nat, self.max_borrowed as nat, k) by {
                if m != j {
                    assert(prev.connections@[m].wf(prev.buffer_size as nat, prev.max_borrowed as nat, k));
                }
            }
            assert forall|i: usize| i < k implies #[trigger] self.slot_ok(i) by {
                assert(prev.slot_ok(i));
            }
            assert(self.pending(j as int) =~= prev.pending(j as int).drop_first());
            assert forall|m: int| 0 <= m < prev.number_of_subscribers() && m != j implies #[trigger] self.pending(m) == prev.pending(m) by {
                assert(self.connections@[m] == prev.connections@[m]);
            }
            assert forall|m: int| 0 <= m < prev.number_of_subscribers() implies #[trigger] self.is_connected(m) == prev.is_connected(m) by {
                if m != j {
                    assert(self.connections@[m] == prev.connections@[m]);
                }
            }
        }
        Ok(Some(Sample { subscriber: j, slot }))
    }

    /// Returns the payload of a held sample.
    pub fn payload(&self, sample: &Sample) -> (r: T)
        requires
            self.wf(),
            self.holds_sample(sample),
        ensures
            r == self.value_of(sample.spec_slot()),
    {
        proof {
            let c = self.connections@[sample.subscriber as int];
            assert(c.wf(self.buffer_size as nat, self.max_borrowed as nat, self.pool.spec_number_of_buckets()));
            let m = choose|m: int| 0 <= m < c.borrowed@.len() && c.borrowed@[m] == sample.slot;
            assert(c.borrowed@[m] < self.pool.spec_number_of_buckets());
        }
        self.payloads[sample.slot]
    }

    /// Returns the header of a held sample.
    pub fn header(&self, sample: &Sample) -> (r: Header)
        requires
            self.wf(),
            self.holds_sample(sample),
        ensures
            r.publisher_id == self.spec_publisher_id(),
            r.sequence_number == self.sequence_number_of(sample.spec_slot()),
    {
        proof {
            let c = self.connections@[sample.subscriber as int];
            assert(c.wf(self.buffer_size as nat, self.max_borrowed as nat, self.pool.spec_number_of_buckets()));
            let m = choose|m: int| 0 <= m < c.borrowed@.len() && c.borrowed@[m] == sample.slot;
            assert(c.borrowed@[m] < self.pool.spec_number_of_buckets());
        }
        Header { publisher_id: self.publisher_id, sequence_number: self.sequence_numbers[sample.slot] }
    }

    /// The subscriber gives a sample back: its slot goes onto the reclamation
    /// queue, from where the publisher takes it back.
    pub fn release(&mut self, sample: Sample)
        requires
            old(self).wf(),
            old(self).holds_sample(&sample),
        ensures
            final(self).wf(),
            final(self).same_settings(old(self)),
            final(self).number_of_subscribers() == old(self).number_of_subscribers(),
            final(self).history_values() == old(self).history_values(),
            final(self).borrowed_count(sample.spec_subscriber() as int) == old(self).borrowed_count(sample.spec_subscriber() as int) - 1,
            final(self).reclaiming_count(sample.spec_subscriber() as int) == old(self).reclaiming_count(sample.spec_subscriber() as int) + 1,
            final(self).reclaiming(sample.spec_subscriber() as int) == old(self).reclaiming(sample.spec_subscriber() as int).push(sample.spec_slot()),
            forall|m: int|
                0 <= m < old(self).number_of_subscribers() ==> #[trigger] final(self).pending(m) == old(self).pending(m),
            forall|m: int|
                0 <= m < old(self).number_of_subscribers() && m != sample.spec_subscriber() ==> {
                    &&& #[trigger] final(self).borrowed_count(m) == old(self).borrowed_count(m)
                    &&& final(self).reclaiming_count(m) == old(self).reclaiming_count(m)
                },
            forall|m: int| 0 <= m < old(self).number_of_subscribers() ==> #[trigger] final(self).is_connected(m) == old(self).is_connected(m),
            forall|i: usize| final(self).is_loaned(i) == old(self).is_loaned(i),
            forall|i: usize| final(self).is_free(i) == old(self).is_free(i),
    {
        let j = sample.subscriber;
        let slot = sample.slot;
        let ghost prev = *self;
        let ghost k = self.pool.spec_number_of_buckets();
        assert(prev.connections@[j as int].wf(prev.buffer_size as nat, prev.max_borrowed as nat, k));
        let mut pos: usize = 0;
        while self.connections[j].borrowed[pos] != slot
            invariant
                *self == prev,
                j < self.connections@.len(),
                pos < self.connections@[j as int].borrowed@.len(),
                self.connections@[j as int].borrowed@.len() <= self.max_borrowed,
                exists|m: int| pos <= m < self.connections@[j as int].borrowed@.len() && self.connections@[j as int].borrowed@[m] == slot,
            decreases self.connections@[j as int].borrowed@.len() - pos,
        {
            pos = pos + 1;
        }
        let _ = self.connections[j].borrowed.remove(pos);
        let _ = self.connections[j].reclamation.push(slot);
        proof {
            let c0 = prev.connections@[j as int];
            let c1 = self.connections@[j as int];
            assert(c1.borrowed@ == c0.borrowed@.remove(pos as int));
            assert(c0.reclamation@.len() < c0.reclamation.spec_capacity());
            assert(c1.reclamation@ == c0.reclamation@.push(slot));
            assert(c1.reclamation@[c1.reclamation@.len() - 1] == slot);
            assert forall|i: usize| #[trigger] c1.holds(i) == c0.holds(i) by {
                if i != slot {
                    lemma_contains_after_push(c0.reclamation@, slot, i);
                    if c0.borrowed@.contains(i) {
                        let m = choose|m: int| 0 <= m < c0.borrowed@.len() && c0.borrowed@[m] == i;
                        if m < pos {
                            assert(c1.borrowed@[m] == i);
                        } else {
                            assert(c1.borrowed@[m - 1] == i);
                        }
                    }
                    if c1.borrowed@.contains(i) {
                        let m = choose|m: int| 0 <= m < c1.borrowed@.len() && c1.borrowed@[m] == i;
                        if m < pos {
                            assert(c0.borrowed@[m] == i);
                        } else {
                            assert(c0.borrowed@[m + 1] == i);
                        }
                    }
                } else {
                    assert(c1.reclamation@.contains(i));
                }
            }
            assert forall|i: usize| #[trigger] self.is_held(i) == prev.is_held(i) by {
                self.lemma_held_frame(&prev, j as int, i);
            }
            assert(c1.wf(self.buffer_size as nat, self.max_borrowed as nat, k)) by {
                assert forall|m: int| 0 <= m < c1.reclamation@.len() implies #[trigger] c1.reclamation@[m] < k by {
                    if m < c0.reclamation@.len() {
                        assert(c1.reclamation@[m] == c0.reclamation@[m]);
                    } else {
                        assert(c0.borrowed@[pos as int] == slot);
                    }
                }
                assert forall|m: int| 0 <= m < c1.borrowed@.len() implies #[trigger] c1.borrowed@[m] < k by {
                    if m < pos {
                        assert(c1.borrowed@[m] == c0.borrowed@[m]);
                    } else {
                        assert(c1.borrowed@[m] == c0.borrowed@[m + 1]);
                    }
                }
            }
            assert forall|m: int| 0 <= m < self.connections@.len() implies (#[trigger] self.connections@[m]).wf(
                self.buffer_size as nat, self.max_borrowed as nat, k) by {
                if m != j {
                    assert(prev.connections@[m].wf(prev.buffer_size as nat, prev.max_borrowed as nat, k));
                }
            }
            assert forall|i: usize| i < k implies #[trigger] self.slot_ok(i) by {
                assert(prev.slot_ok(i));
            }
            assert forall|m: int| 0 <= m < prev.number_of_subscribers() implies #[trigger] self.pending(m) == prev.pending(m) by {
                if m != j {
                    assert(self.connections@[m] == prev.connections@[m]);
                }
            }
            assert forall|m: int| 0 <= m < prev.number_of_subscribers() implies #[trigger] self.is_connected(m) == prev.is_connected(m) by {
                if m != j {
                    assert(self.connections@[m] == prev.connections@[m]);
                }
            }
        }
    }

    /// Connects a new subscriber. Its queue is offered the history, oldest
    /// first, under the same rules as a send. Fails with
    /// `ExceedsMaxSupportedPorts` where the service has all the subscribers it
    /// supports.
    pub fn add_subscriber(&mut self) -> (r: Result<usize, SubscriberCreateError>)
        requires
            old(self).wf(),
        ensures
            final(self).wf(),
            final(self).same_settings(old(self)),
            final(self).history_values() == old(self).history_values(),
            old(self).number_of_subscribers() >= old(self).spec_max_subscribers() ==> {
                &&& r matches Err(SubscriberCreateError::ExceedsMaxSupportedPorts)
                &&& *final(self) == *old(self)
            },
            old(self).number_of_subscribers() < old(self).spec_max_subscribers() ==> {
                &&& r == Ok::<usize, SubscriberCreateError>(old(self).number_of_subscribers() as usize)
                &&& final(self).number_of_subscribers() == old(self).number_of_subscribers() + 1
                &&& final(self).pending(old(self).number_of_subscribers() as int) == replay(
                    old(self).history_values(),
                    old(self).spec_buffer_size(),
                    old(self).spec_safe_overflow(),
                )
                &&& final(self).borrowed_count(old(self).number_of_subscribers() as int) == 0
                &&& final(self).reclaiming_count(old(self).number_of_subscribers() as int) == 0
                &&& final(self).is_connected(old(self).number_of_subscribers() as int)
            },
            forall|m: int|
                0 <= m < old(self).number_of_subscribers() ==> {
                    &&& #[trigger] final(self).pending(m) == old(self).pending(m)
                    &&& final(self).borrowed_count(m) == old(self).borrowed_count(m)
                    &&& final(self).reclaiming_count(m) == old(self).reclaiming_count(m)
                    &&& final(self).is_connected(m) == old(self).is_connected(m)
                },
            forall|i: usize| final(self).is_loaned(i) == old(self).is_loaned(i),
            forall|i: usize| old(self).is_free(i) ==> final(self).is_free(i),
    {
        if self.connections.len() >= self.max_subscribers {
            return Err(SubscriberCreateError::ExceedsMaxSupportedPorts);
        }
        let ghost prev = *self;
        let ghost k = self.pool.spec_number_of_buckets();
        let n = self.connections.len();
        let connection = Connection {
            submission: SafelyOverflowingIndexQueue::new(self.buffer_size),
            reclamation: SafelyOverflowingIndexQueue::new(self.buffer_size + self.max_borrowed),
            borrowed: Vec::new(),
            connected: true,
        };
        self.connections.push(connection);
        proof {
            let c = self.connections@[n as int];
            assert(c.wf(self.buffer_size as nat, self.max_borrowed as nat, k));
            assert forall|i: usize| !c.holds(i) by {}
            assert forall|m: int| 0 <= m < self.connections@.len() implies (#[trigger] self.connections@[m]).wf(
                self.buffer_size as nat, self.max_borrowed as nat, k) by {
                if m != n {
                    assert(prev.connections@[m].wf(prev.buffer_size as nat, prev.max_borrowed as nat, k));
                }
            }
            assert forall|i: usize| #[trigger] self.is_held(i) == prev.is_held(i) by {
                if self.is_held(i) && !self.history@.contains(i) {
                    let m = choose|m: int| 0 <= m < self.connections@.len() && #[trigger] self.connections@[m].holds(i);
                    assert(m != n);
                    assert(prev.connections@[m].holds(i));
                }
                if prev.is_held(i) && !prev.history@.contains(i) {
                    let m = choose|m: int| 0 <= m < prev.connections@.len() && #[trigger] prev.connections@[m].holds(i);
                    assert(self.connections@[m].holds(i));
                }
            }
            assert forall|i: usize| i < k implies #[trigger] self.slot_ok(i) by {
                assert(prev.slot_ok(i));
            }
            assert(self.connections@[n as int].submission@ =~= replay(self.history@.subrange(0, 0), self.buffer_size as nat, self.enable_safe_overflow));
        }
        let h = self.history.len();
        let mut q: usize = 0;
        while q < h
            invariant
                self.wf(),
                q <= h,
                h == self.history@.len(),
                self.history == prev.history,
                self.payloads == prev.payloads,
                self.loaned == prev.loaned,
                self.same_settings(&prev),
                self.buffer_size == prev.buffer_size,
                self.enable_safe_overflow == prev.enable_safe_overflow,
                self.connections@.len() == n + 1,
                prev.connections@.len() == n,
                forall|m: int| 0 <= m < n ==> (#[trigger] self.connections@[m]) == prev.connections@[m],
                self.connections@[n as int].submission@ == replay(
                    self.history@.subrange(0, q as int),
                    self.buffer_size as nat,
                    self.enable_safe_overflow,
                ),
                self.connections@[n as int].reclamation@.len() == 0,
                self.connections@[n as int].borrowed@.len() == 0,
                self.connections@[n as int].connected,
                forall|i: usize| old(self).is_free(i) ==> self.is_free(i),
            decreases h - q,
        {
            let s = self.history.get(q);
            proof {
                assert(self.history@.contains(s)) by {
                    assert(self.history@[q as int] == s);
                }
                assert(self.inv(-1, -1));
                assert(self.structure_ok());
                assert(self.history@[q as int] < self.pool.spec_number_of_buckets());
                assert(self.history@.subrange(0, q + 1).drop_last() =~= self.history@.subrange(0, q as int));
                assert(self.history@.subrange(0, q + 1).last() == s);
            }
            let _ = self.deliver_to(n, s, Ghost(-1));
            q = q + 1;
        }
        proof {
            assert(self.history@.subrange(0, h as int) =~= self.history@);
            lemma_values_of_replay(self.history@, self.payloads@, self.buffer_size as nat, self.enable_safe_overflow);
            assert forall|m: int| 0 <= m < n implies #[trigger] self.pending(m) == prev.pending(m) by {
                assert(self.connections@[m] == prev.connections@[m]);
            }
        }
        Ok(n)
    }

    /// After slot `d` left connection `j`, where nothing else changed, the
    /// invariant holds but for `d`.
    proof fn lemma_slot_left(&self, prev: &Self, j: int, d: usize)
        requires
            prev.wf(),
            self.structure_ok(),
            self.pool == prev.pool,
            self.loaned == prev.loaned,
            self.history == prev.history,
            self.connections@.len() == prev.connections@.len(),
            0 <= j < prev.connections@.len(),
            forall|m: int| 0 <= m < prev.connections@.len() && m != j ==> self.connections@[m] == prev.connections@[m],
            prev.connections@[j].holds(d),
            forall|i: usize| i != d ==> #[trigger] self.connections@[j].holds(i) == prev.connections@[j].holds(i),
            d < prev.spec_capacity(),
        ensures
            self.inv(-1, d as int),
    {
        let k = self.pool.spec_number_of_buckets();
        assert(prev.is_held(d));
        assert(prev.slot_ok(d));
        assert forall|i: usize| i < k && i != -1 && i != d implies #[trigger] self.slot_ok(i) by {
            self.lemma_held_frame(prev, j, i);
            assert(prev.slot_ok(i));
        }
    }

    /// Disconnects subscriber `j`, as when it has gone away: its queued,
    /// borrowed and returning slots go back to the pool where nothing else
    /// holds them, and it receives nothing any more.
    pub fn disconnect_subscriber(&mut self, j: usize)
        requires
            old(self).wf(),
            j < old(self).number_of_subscribers(),
        ensures
            final(self).wf(),
            final(self).same_settings(old(self)),
            final(self).number_of_subscribers() == old(self).number_of_subscribers(),
            final(self).history_values() == old(self).history_values(),
            !final(self).is_connected(j as int),
            final(self).pending(j as int).len() == 0,
            final(self).borrowed_count(j as int) == 0,
            final(self).reclaiming_count(j as int) == 0,
            forall|m: int|
                0 <= m < old(self).number_of_subscribers() && m != j ==> {
                    &&& #[trigger] final(self).pending(m) == old(self).pending(m)
                    &&& final(self).borrowed_count(m) == old(self).borrowed_count(m)
                    &&& final(self).reclaiming_count(m) == old(self).reclaiming_count(m)
                    &&& final(self).is_connected(m) == old(self).is_connected(m)
                },
            forall|i: usize| final(self).is_loaned(i) == old(self).is_loaned(i),
    {
        let ghost k = self.pool.spec_number_of_buckets();
        let ghost n = self.connections@.len();
        while !self.connections[j].submission.is_empty()
            invariant
                self.wf(),
                j < n,
                n == self.connections@.len(),
                n == old(self).connections@.len(),
                k == self.pool.spec_number_of_buckets(),
                self.connections@[j as int].wf(self.buffer_size as nat, self.max_borrowed as nat, k),
                self.connections@[j as int].connected == old(self).connections@[j as int].connected,
                forall|m: int| 0 <= m < n && m != j ==> (#[trigger] self.connections@[m]) == old(self).connections@[m],
                self.history == old(self).history,
                self.payloads == old(self).payloads,
                self.loaned == old(self).loaned,
                self.same_settings(old(self)),
            decreases self.connections@[j as int].submission@.len(),
        {
            let ghost prev = *self;
            let d = match self.connections[j].submission.pop() {
                Some(d) => d,
                None => {
                    proof { assert(false); }
                    0
                },
            };
            proof {
                let c0 = prev.connections@[j as int];
                let c1 = self.connections@[j as int];
                assert(c0.submission@[0] == d);
                assert(c1.submission@ == c0.submission@.drop_first());
                assert forall|i: usize| i != d implies #[trigger] c1.holds(i) == c0.holds(i) by {
                    if c0.submission@.contains(i) {
                        let m = choose|m: int| 0 <= m < c0.submission@.len() && c0.submission@[m] == i;
                        assert(c1.submission@[m - 1] == i);
                    }
                    if c1.submission@.contains(i) {
                        let m = choose|m: int| 0 <= m < c1.submission@.len() && c1.submission@[m] == i;
                        assert(c0.submission@[m + 1] == i);
                    }
                }
                assert(c1.wf(self.buffer_size as nat, self.max_borrowed as nat, k)) by {
                    assert forall|m: int| 0 <= m < c1.submission@.len() implies #[trigger] c1.submission@[m] < k by {
                        assert(c1.submission@[m] == c0.submission@[m + 1]);
                    }
                }
                assert forall|m: int| 0 <= m < n implies (#[trigger] self.connections@[m]).wf(
                    self.buffer_size as nat, self.max_borrowed as nat, k) by {
                    if m != j {
                        assert(prev.connections@[m].wf(prev.buffer_size as nat, prev.max_borrowed as nat, k));
                    }
                }
                assert(self.structure_ok());
                assert(c0.holds(d));
                self.lemma_slot_left(&prev, j as int, d);
            }
            self.recycle(Ghost(-1), d);
        }
        while !self.connections[j].reclamation.is_empty()
            invariant
                self.wf(),
                j < n,
                n == self.connections@.len(),
                n == old(self).connections@.len(),
                k == self.pool.spec_number_of_buckets(),
                self.connections@[j as int].wf(self.buffer_size as nat, self.max_borrowed as nat, k),
                self.connections@[j as int].submission@.len() == 0,
                self.connections@[j as int].connected == old(self).connections@[j as int].connected,
                forall|m: int| 0 <= m < n && m != j ==> (#[trigger] self.connections@[m]) == old(self).connections@[m],
                self.history == old(self).history,
                self.payloads == old(self).payloads,
                self.loaned == old(self).loaned,
                self.same_settings(old(self)),
            decreases self.connections@[j as int].reclamation@.len(),
        {
            let ghost prev = *self;
            let d = match self.connections[j].reclamation.pop() {
                Some(d) => d,
                None => {
                    proof { assert(false); }
                    0
                },
            };
            proof {
                let c0 = prev.connections@[j as int];
                let c1 = self.connections@[j as int];
                assert(c0.reclamation@[0] == d);
                assert(c1.reclamation@ == c0.reclamation@.drop_first());
                assert forall|i: usize| i != d implies #[trigger] c1.holds(i) == c0.holds(i) by {
                    if c0.reclamation@.contains(i) {
                        let m = choose|m: int| 0 <= m < c0.reclamation@.len() && c0.reclamation@[m] == i;
                        assert(c1.reclamation@[m - 1] == i);
                    }
                    if c1.reclamation@.contains(i) {
                        let m = choose|m: int| 0 <= m < c1.reclamation@.len() && c1.reclamation@[m] == i;
                        assert(c0.reclamation@[m + 1] == i);
                    }
                }
                assert(c1.wf(self.buffer_size as nat, self.max_borrowed as nat, k)) by {
                    assert forall|m: int| 0 <= m < c1.reclamation@.len() implies #[trigger] c1.reclamation@[m] < k by {
                        assert(c1.reclamation@[m] == c0.reclamation@[m + 1]);
                    }
                }
                assert forall|m: int| 0 <= m < n implies (#[trigger] self.connections@[m]).wf(
                    self.buffer_size as nat, self.max_borrowed as nat, k) by {
                    if m != j {
                        assert(prev.connections@[m].wf(prev.buffer_size as nat, prev.max_borrowed as nat, k));
                    }
                }
                assert(self.structure_ok());
                assert(c0.holds(d));
                self.lemma_slot_left(&prev, j as int, d);
            }
            self.recycle(Ghost(-1), d);
        }
        while self.connections[j].borrowed.len() > 0
            invariant
                self.wf(),
                j < n,
                n == self.connections@.len(),
                n == old(self).connections@.len(),
                k == self.pool.spec_number_of_buckets(),
                self.connections@[j as int].wf(self.buffer_size as nat, self.max_borrowed as nat, k),
                self.connections@[j as int].submission@.len() == 0,
                self.connections@[j as int].reclamation@.len() == 0,
                self.connections@[j as int].connected == old(self).connections@[j as int].connected,
                forall|m: int| 0 <= m < n && m != j ==> (#[trigger] self.connections@[m]) == old(self).connections@[m],
                self.history == old(self).history,
                self.payloads == old(self).payloads,
                self.loaned == old(self).loaned,
                self.same_settings(old(self)),
            decreases self.connections@[j as int].borrowed@.len(),
        {
            let ghost prev = *self;
            let d = match self.connections[j].borrowed.pop() {
                Some(d) => d,
                None => {
                    proof { assert(false); }
                    0
                },
            };
            proof {
                let c0 = prev.connections@[j as int];
                let c1 = self.connections@[j as int];
                assert(c0.borrowed@ == c1.borrowed@.push(d));
                assert(c0.borrowed@[c0.borrowed@.len() - 1] == d);
                assert forall|i: usize| i != d implies #[trigger] c1.holds(i) == c0.holds(i) by {
                    lemma_contains_after_push(c1.borrowed@, d, i);
                }
                assert(c1.wf(self.buffer_size as nat, self.max_borrowed as nat, k)) by {
                    assert forall|m: int| 0 <= m < c1.borrowed@.len() implies #[trigger] c1.borrowed@[m] < k by {
                        assert(c1.borrowed@[m] == c0.borrowed@[m]);
                    }
                }
                assert forall|m: int| 0 <= m < n implies (#[trigger] self.connections@[m]).wf(
                    self.buffer_size as nat, self.max_borrowed as nat, k) by {
                    if m != j {
                        assert(prev.connections@[m].wf(prev.buffer_size as nat, prev.max_borrowed as nat, k));
                    }
                }
                assert(self.structure_ok());
                assert(c0.holds(d));
                self.lemma_slot_left(&prev, j as int, d);
            }
            self.recycle(Ghost(-1), d);
        }
        let ghost before = *self;
        self.connections[j].connected = false;
        proof {
            let c0 = before.connections@[j as int];
            let c1 = self.connections@[j as int];
            assert forall|i: usize| #[trigger] c1.holds(i) == c0.holds(i) by {}
            assert forall|i: usize| #[trigger] self.is_held(i) == before.is_held(i) by {
                self.lemma_held_frame(&before, j as int, i);
            }
            assert forall|m: int| 0 <= m < n implies (#[trigger] self.connections@[m]).wf(
                self.buffer_size as nat, self.max_borrowed as nat, k) by {
                if m != j {
                    assert(before.connections@[m].wf(before.buffer_size as nat, before.max_borrowed as nat, k));
                }
            }
            assert forall|i: usize| i < k implies #[trigger] self.slot_ok(i) by {
                assert(before.slot_ok(i));
            }
            assert(self.pending(j as int).len() == 0);
            assert forall|m: int| 0 <= m < n && m != j implies #[trigger] self.pending(m) == old(self).pending(m) by {
                assert(self.connections@[m] == old(self).connections@[m]);
            }
        }
    }

    /// Returns the number of connected subscribers.
    pub fn number_of_subscribers_now(&self) -> (r: usize)
        ensures
            r == self.number_of_subscribers(),
    {
        self.connections.len()
    }

    /// Returns the number of slots of the payload pool.
    pub fn capacity(&self) -> (r: usize)
        ensures
            r == self.spec_capacity(),
    {
        self.pool.number_of_buckets()
    }

    /// Returns the number of free slots of the payload pool.
    pub fn number_of_free_slots(&self) -> (r: usize)
        requires
            self.wf(),
        ensures
            r == self.free_count(),
    {
        self.pool.number_of_free_buckets()
    }

    /// Creates a publisher for a service with the given quality of service. Its
    /// pool holds a slot for each place a sample can be in at once, and one more:
    /// the history, the buffer and the borrowed samples of every subscriber.
    pub fn new(publisher_id: UniquePublisherId, config: &StaticConfig, initial: T) -> (r: Result<
        Self,
        PublisherCreateError,
    >)
        ensures
            r is Err <==> slot_count(config) > usize::MAX || slot_count(config)
                * vstd::layout::size_of::<T>() > usize::MAX,
            r matches Ok(p) ==> {
                &&& p.wf()
                &&& p.number_of_subscribers() == 0
                &&& p.spec_capacity() == slot_count(config)
                &&& p.spec_buffer_size() == config.subscriber_max_buffer_size
                &&& p.spec_max_borrowed() == config.subscriber_max_borrowed_samples
                &&& p.spec_history_size() == config.history_size
                &&& p.spec_max_subscribers() == config.max_subscribers
                &&& p.spec_safe_overflow() == config.enable_safe_overflow
                &&& p.spec_publisher_id() == publisher_id
                &&& p.history_values() == Seq::<T>::empty()
                &&& forall|i: usize| i < p.spec_capacity() ==> p.is_free(i)
                &&& forall|i: usize| i < p.spec_capacity() ==> !p.is_loaned(i)
            },
    {
        let all_subscribers: usize = if config.max_subscribers == 0 {
            0
        } else {
            let per_subscriber = match config.subscriber_max_buffer_size.checked_add(
                config.subscriber_max_borrowed_samples,
            ) {
                Some(v) => v,
                None => {
                    proof {
                        let b = config.subscriber_max_buffer_size + config.subscriber_max_borrowed_samples;
                        assert(config.max_subscribers * b >= b) by (nonlinear_arith)
                            requires
                                config.max_subscribers >= 1,
                                b >= 0,
                        ;
                    }
                    return Err(PublisherCreateError::UnableToCreatePayloadPool);
                },
            };
            match config.max_subscribers.checked_mul(per_subscriber) {
                Some(v) => v,
                None => return Err(PublisherCreateError::UnableToCreatePayloadPool),
            }
        };
        let with_history = match all_subscribers.checked_add(config.history_size) {
            Some(v) => v,
            None => return Err(PublisherCreateError::UnableToCreatePayloadPool),
        };
        let k = match with_history.checked_add(1) {
            Some(v) => v,
            None => return Err(PublisherCreateError::UnableToCreatePayloadPool),
        };
        proof {
            let ms = config.max_subscribers as int;
            let per = config.subscriber_max_buffer_size + config.subscriber_max_borrowed_samples;
            if ms == 0 {
                assert(ms * per == 0) by (nonlinear_arith)
                    requires
                        ms == 0,
                ;
            }
        }
        assert(k == slot_count(config));
        let pool = match PoolAllocator::new(std::mem::size_of::<T>(), k) {
            Some(p) => p,
            None => return Err(PublisherCreateError::UnableToCreatePayloadPool),
        };
        let mut payloads: Vec<T> = Vec::new();
        let mut sequence_numbers: Vec<u64> = Vec::new();
        let mut loaned: Vec<bool> = Vec::new();
        let mut i: usize = 0;
        while i < k
            invariant
                i <= k,
                payloads@.len() == i,
                sequence_numbers@.len() == i,
                loaned@.len() == i,
                forall|m: int| 0 <= m < i ==> !loaned@[m],
            decreases k - i,
        {
            payloads.push(initial);
            sequence_numbers.push(0);
            loaned.push(false);
            i = i + 1;
        }
        let history = SafelyOverflowingIndexQueue::new(config.history_size);
        let p = PublishSubscribe {
            publisher_id,
            pool,
            payloads,
            sequence_numbers,
            loaned,
            history,
            connections: Vec::new(),
            buffer_size: config.subscriber_max_buffer_size,
            max_borrowed: config.subscriber_max_borrowed_samples,
            max_subscribers: config.max_subscribers,
            enable_safe_overflow: config.enable_safe_overflow,
            next_sequence_number: 0,
        };
        assert(p.history_values() =~= Seq::<T>::empty());
        assert forall|i: usize| i < k implies #[trigger] p.slot_ok(i) by {
            assert(!p.history@.contains(i));
        }
        Ok(p)
    }
}

/// The number of slots in the pool of a publisher of a service with the given
/// quality of service.
pub open spec fn slot_count(config: &StaticConfig) -> int {
    config.max_subscribers * (config.subscriber_max_buffer_size + config.subscriber_max_borrowed_samples)
        + config.history_size + 1
}

/// With safe overflow, a queue of capacity `capacity` that was offered `vs`
/// holds the newest `capacity` of them, in the order they were offered.
pub proof fn lemma_overflow_keeps_newest<A>(vs: Seq<A>, capacity: nat)
    ensures
        replay(vs, capacity, true) == vs.subrange(
            if vs.len() > capacity { vs.len() - capacity } else { 0 },
            vs.len() as int,
        ),
    decreases vs.len(),
{
    if vs.len() == 0 {
        assert(vs.subrange(0, 0) =~= Seq::<A>::empty());
    } else {
        let rest = vs.drop_last();
        lemma_overflow_keeps_newest(rest, capacity);
        let lo = if rest.len() > capacity { rest.len() - capacity } else { 0 };
        let r = rest.subrange(lo, rest.len() as int);
        if r.len() < capacity {
            assert(r.push(vs.last()) =~= vs.subrange(lo, vs.len() as int));
        } else {
            assert(r.push(vs.last()).drop_first() =~= vs.subrange(vs.len() - capacity, vs.len() as int));
        }
    }
}

/// Without safe overflow, a queue of capacity `capacity` that was offered `vs`
/// holds the oldest `capacity` of them: an offer to a full queue changes nothing.
pub proof fn lemma_no_overflow_keeps_oldest<A>(vs: Seq<A>, capacity: nat)
    ensures
        replay(vs, capacity, false) == vs.subrange(0, if vs.len() > capacity { capacity as int } else { vs.len() as int }),
    decreases vs.len(),
{
    if vs.len() == 0 {
        assert(vs.subrange(0, 0) =~= Seq::<A>::empty());
    } else {
        let rest = vs.drop_last();
        lemma_no_overflow_keeps_oldest(rest, capacity);
        if rest.len() < capacity {
            assert(rest.subrange(0, rest.len() as int).push(vs.last()) =~= vs.subrange(0, vs.len() as int));
        } else {
            assert(rest.subrange(0, capacity as int) =~= vs.subrange(0, capacity as int));
        }
    }
}

/// Values offered to a queue with room for all of them come out in the order
/// they went in, whatever the overflow policy.
pub proof fn lemma_delivered_in_order<A>(vs: Seq<A>, capacity: nat, safe_overflow: bool)
    requires
        vs.len() <= capacity,
    ensures
        replay(vs, capacity, safe_overflow) == vs,
{
    if safe_overflow {
        lemma_overflow_keeps_newest(vs, capacity);
    } else {
        lemma_no_overflow_keeps_oldest(vs, capacity);
    }
    assert(vs.subrange(0, vs.len() as int) =~= vs);
}

/// What a queue that held `s` holds after `ws` were offered to it, one after
/// the other.
pub open spec fn deliver_all<A>(s: Seq<A>, ws: Seq<A>, capacity: nat, safe_overflow: bool) -> Seq<A>
    decreases ws.len(),
{
    if ws.len() == 0 {
        s
    } else {
        deliver(deliver_all(s, ws.drop_last(), capacity, safe_overflow), ws.last(), capacity, safe_overflow)
    }
}

/// Values offered to a queue with room for them are appended in order.
pub proof fn lemma_deliver_all_with_room<A>(s: Seq<A>, ws: Seq<A>, capacity: nat, safe_overflow: bool)
    requires
        s.len() + ws.len() <= capacity,
    ensures
        deliver_all(s, ws, capacity, safe_overflow) == s + ws,
    decreases ws.len(),
{
    if ws.len() > 0 {
        lemma_deliver_all_with_room(s, ws.drop_last(), capacity, safe_overflow);
        assert((s + ws.drop_last()).push(ws.last()) =~= s + ws);
    }
}

/// A subscriber that connected after `vs` were sent, and to which `ws` were
/// sent afterwards, holds the replayed history first and then `ws`, each in
/// send order, where its buffer has room for all of them.
pub proof fn lemma_history_before_newer<A>(
    vs: Seq<A>,
    ws: Seq<A>,
    history_size: nat,
    buffer_size: nat,
    safe_overflow: bool,
)
    requires
        (if vs.len() > history_size { history_size } else { vs.len() }) + ws.len() <= buffer_size,
    ensures
        deliver_all(replay(replay(vs, history_size, true), buffer_size, safe_overflow), ws, buffer_size, safe_overflow)
            == vs.subrange(if vs.len() > history_size { vs.len() - history_size } else { 0 }, vs.len() as int) + ws,
{
    lemma_history_replay(vs, history_size, buffer_size, safe_overflow);
    let r = replay(replay(vs, history_size, true), buffer_size, safe_overflow);
    lemma_deliver_all_with_room(r, ws, buffer_size, safe_overflow);
}

/// A subscriber that connects after `vs` were sent into an empty history of
/// size `history_size` receives the last `min(|vs|, history_size)` of them, in
/// the order they were sent, where its buffer has room for them.
pub proof fn lemma_history_replay<A>(vs: Seq<A>, history_size: nat, buffer_size: nat, safe_overflow: bool)
    requires
        (if vs.len() > history_size { history_size } else { vs.len() }) <= buffer_size,
    ensures
        replay(replay(vs, history_size, true), buffer_size, safe_overflow) == vs.subrange(
            if vs.len() > history_size { vs.len() - history_size } else { 0 },
            vs.len() as int,
        ),
{
    lemma_overflow_keeps_newest(vs, history_size);
    let h = replay(vs, history_size, true);
    lemma_delivered_in_order(h, buffer_size, safe_overflow);
}

impl<T: Copy> PublishSubscribe<T> {
    /// Every slot of the pool is in exactly one place: free, loaned to the
    /// publisher, or held by the history or a connection (queued, borrowed by
    /// the subscriber, or returning to the publisher).
    pub proof fn lemma_slot_partition(&self, i: usize)
        requires
            self.wf(),
            i < self.spec_capacity(),
        ensures
            self.is_free(i) || self.is_loaned(i) || self.is_held(i),
            !(self.is_free(i) && self.is_loaned(i)),
            !(self.is_free(i) && self.is_held(i)),
            !(self.is_loaned(i) && self.is_held(i)),
    {
        assert(self.slot_ok(i));
    }

    /// The free slots.
    pub open spec fn free_slots(&self) -> Set<int> {
        Set::new(|i: int| 0 <= i < self.spec_capacity() && self.is_free(i as usize))
    }

    /// The slots loaned to the publisher's user.
    pub open spec fn loaned_slots(&self) -> Set<int> {
        Set::new(|i: int| 0 <= i < self.spec_capacity() && self.is_loaned(i as usize))
    }

    /// The slots held by the history or a connection.
    pub open spec fn held_slots(&self) -> Set<int> {
        Set::new(|i: int| 0 <= i < self.spec_capacity() && self.is_held(i as usize))
    }

    /// The free, the loaned and the held slots add up to the pool's capacity.
    pub proof fn lemma_slot_count(&self)
        requires
            self.wf(),
        ensures
            self.free_slots().len() + self.loaned_slots().len() + self.held_slots().len() == self.spec_capacity(),
    {
        let k = self.spec_capacity();
        self.pool.lemma_bounded();
        let all = set_int_range(0, k as int);
        lemma_int_range(0, k as int);
        let f = self.free_slots();
        let l = self.loaned_slots();
        let h = self.held_slots();
        lemma_len_subset(f, all);
        lemma_len_subset(l, all);
        lemma_len_subset(h, all);
        assert forall|i: int| 0 <= i < k implies #[trigger] all.contains(i) && self.slot_ok(i as usize) by {
            assert(self.slot_ok(i as usize));
        }
        assert forall|x: int| f.contains(x) implies !l.contains(x) by {
            assert(self.slot_ok(x as usize));
        }
        assert(f.disjoint(l));
        lemma_set_disjoint_lens(f, l);
        assert forall|x: int| (f + l).contains(x) implies !h.contains(x) by {
            assert(self.slot_ok(x as usize));
        }
        assert((f + l).disjoint(h));
        lemma_set_disjoint_lens(f + l, h);
        assert forall|x: int| all.contains(x) implies (f + l + h).contains(x) by {
            assert(self.slot_ok(x as usize));
        }
        assert(f + l + h =~= all);
    }

    /// The slots held by the first `j` connections.
    spec fn connection_slots(&self, j: int) -> Set<int>
        decreases j,
    {
        if j <= 0 {
            Set::empty()
        } else {
            let c = self.connections@[j - 1];
            self.connection_slots(j - 1) + ints(c.submission@).to_set() + ints(c.reclamation@).to_set()
                + ints(c.borrowed@).to_set()
        }
    }

    proof fn lemma_connection_slots(&self, j: int)
        requires
            self.structure_ok(),
            0 <= j <= self.connections@.len(),
        ensures
            self.connection_slots(j).finite(),
            self.connection_slots(j).len() <= j * (self.buffer_size + self.max_borrowed),
            forall|i: usize, m: int| 0 <= m < j && #[trigger] self.connections@[m].holds(i) ==> self.connection_slots(j).contains(i as int),
        decreases j,
    {
        if j > 0 {
            self.lemma_connection_slots(j - 1);
            let c = self.connections@[j - 1];
            assert(c.wf(self.buffer_size as nat, self.max_borrowed as nat, self.pool.spec_number_of_buckets()));
            lemma_ints_set(c.submission@);
            lemma_ints_set(c.reclamation@);
            lemma_ints_set(c.borrowed@);
            let a = self.connection_slots(j - 1);
            let s1 = ints(c.submission@).to_set();
            let s2 = ints(c.reclamation@).to_set();
            let s3 = ints(c.borrowed@).to_set();
            vstd::set_lib::lemma_len_union(a, s1);
            vstd::set_lib::lemma_len_union(a + s1, s2);
            vstd::set_lib::lemma_len_union(a + s1 + s2, s3);
            let bm = self.buffer_size + self.max_borrowed;
            assert((j - 1) * bm + bm == j * bm) by (nonlinear_arith);
        }
    }

    /// A publisher that has loaned no slot has a free one: the pool has a
    /// slot for every place a sample can be held, and one more.
    pub proof fn lemma_free_slot_without_loans(&self)
        requires
            self.wf(),
            forall|i: usize| i < self.spec_capacity() ==> !self.is_loaned(i),
        ensures
            self.free_count() > 0,
    {
        broadcast use vstd::seq_lib::seq_to_set_is_finite;
        let k = self.spec_capacity();
        let n = self.connections@.len();
        self.lemma_slot_count();
        self.lemma_connection_slots(n as int);
        self.history.lemma_len_bound();
        lemma_ints_set(self.history@);
        let hs = ints(self.history@).to_set();
        let cs = self.connection_slots(n as int);
        vstd::set_lib::lemma_len_union(hs, cs);
        assert(self.held_slots().subset_of(hs + cs)) by {
            assert forall|x: int| self.held_slots().contains(x) implies (hs + cs).contains(x) by {
                self.pool.lemma_bounded();
                let i = x as usize;
                assert(i as int == x);
                assert(self.is_held(i));
                if self.history@.contains(i) {
                    assert(hs.contains(i as int));
                } else {
                    let m = choose|m: int| 0 <= m < self.connections@.len() && #[trigger] self.connections@[m].holds(i);
                    assert(cs.contains(i as int));
                }
            }
        }
        lemma_len_subset(self.held_slots(), hs + cs);
        let bm = self.buffer_size + self.max_borrowed;
        assert(n * bm <= self.max_subscribers * bm) by (nonlinear_arith)
            requires
                n <= self.max_subscribers,
                bm >= 0,
        ;
        assert(self.loaned_slots() =~= Set::<int>::empty());
        assert(self.free_slots().len() > 0);
        self.pool.lemma_bounded();
        let x = self.free_slots().choose();
        assert(self.free_slots().contains(x));
        assert(0 <= x < k);
        assert(self.pool@.contains(x as usize));
    }

    /// A held sample belongs to a subscriber of this publisher, counts against
    /// that subscriber's borrowed samples, and leaves room on its reclamation
    /// queue for the sample's slot.
    pub proof fn lemma_held_sample(&self, sample: &Sample)
        requires
            self.wf(),
            self.holds_sample(sample),
        ensures
            sample.spec_subscriber() < self.number_of_subscribers(),
            self.borrowed_count(sample.spec_subscriber() as int) >= 1,
            self.reclaiming_count(sample.spec_subscriber() as int) < self.spec_buffer_size() + self.spec_max_borrowed(),
    {
        let c = self.connections@[sample.subscriber as int];
        assert(c.wf(self.buffer_size as nat, self.max_borrowed as nat, self.pool.spec_number_of_buckets()));
        assert(c.borrowed@.len() >= 1);
    }

    /// A subscriber's queue holds no more than its buffer size, it holds no
    /// more samples than it may borrow, and its reclamation queue holds no more
    /// than the two together.
    pub proof fn lemma_queue_bounds(&self, j: int)
        requires
            self.wf(),
            0 <= j < self.number_of_subscribers(),
        ensures
            self.pending(j).len() <= self.spec_buffer_size(),
            self.borrowed_count(j) <= self.spec_max_borrowed(),
            self.reclaiming_count(j) <= self.spec_buffer_size() + self.spec_max_borrowed(),
    {
        assert(self.connections@[j].wf(self.buffer_size as nat, self.max_borrowed as nat, self.pool.spec_number_of_buckets()));
    }
}

} // verus!
