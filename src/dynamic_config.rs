//! The live state of a service in shared memory: the reference counter that
//! decides who removes the service, and the tables of attached ports.

use vstd::prelude::*;

verus! {

/// What became of the service when a handle to it was closed.
#[derive(Debug, Clone, Copy, PartialEq, Eq, Hash, Structural)]
pub enum DecrementReferenceCounterResult {
    HasOwners,
    NoMoreOwners,
}

/// The counter after an opener tried to increment `c`, and whether it
/// succeeded. A service whose counter fell to zero is being removed: it cannot
/// be opened again.
pub open spec fn spec_increment(c: u64) -> (u64, bool) {
    if c == 0 || c == u64::MAX {
        (c, false)
    } else {
        ((c + 1) as u64, true)
    }
}

/// The counter after a handle was closed, and what became of the service.
pub open spec fn spec_decrement(c: u64) -> (u64, DecrementReferenceCounterResult) {
    if c == 1 {
        (0, DecrementReferenceCounterResult::NoMoreOwners)
    } else {
        ((c - 1) as u64, DecrementReferenceCounterResult::HasOwners)
    }
}

/// Why a port could not be registered.
#[derive(Debug, Clone, Copy, PartialEq, Eq, Hash, Structural)]
pub enum PortRegistrationError {
    ExceedsMaxSupportedPorts,
}

/// The ids of the ports of one kind that are attached to a service, each once.
#[derive(Debug)]
pub struct PortTable {
    ids: Vec<u128>,
    capacity: usize,
}

impl PortTable {
    /// The registered ids, in the order they were registered.
    pub closed spec fn view(&self) -> Seq<u128> {
        self.ids@
    }

    pub closed spec fn spec_capacity(&self) -> nat {
        self.capacity as nat
    }

    pub closed spec fn wf(&self) -> bool {
        self.ids@.no_duplicates() && self.ids@.len() <= self.capacity
    }

    /// An empty table for up to `capacity` ports.
    pub fn new(capacity: usize) -> (r: Self)
        ensures
            r.wf(),
            r@ == Seq::<u128>::empty(),
            r.spec_capacity() == capacity,
    {
        PortTable { ids: Vec::new(), capacity }
    }

    /// Returns the number of registered ports.
    pub fn len(&self) -> (r: usize)
        ensures
            r == self@.len(),
    {
        self.ids.len()
    }

    /// Returns whether `id` is registered.
    pub fn contains(&self, id: u128) -> (r: bool)
        ensures
            r == self@.contains(id),
    {
        let mut i: usize = 0;
        while i < self.ids.len()
            invariant
                i <= self.ids@.len(),
                forall|m: int| 0 <= m < i ==> self.ids@[m] != id,
            decreases self.ids@.len() - i,
        {
            if self.ids[i] == id {
                return true;
            }
            i = i + 1;
        }
        false
    }

    /// Registers `id`. A registered id stays as it is; a new one is refused
    /// where the table is full.
    pub fn add(&mut self, id: u128) -> (r: Result<(), PortRegistrationError>)
        requires
            old(self).wf(),
        ensures
            final(self).wf(),
            final(self).spec_capacity() == old(self).spec_capacity(),
            old(self)@.contains(id) ==> r is Ok && final(self)@ == old(self)@,
            !old(self)@.contains(id) && old(self)@.len() < old(self).spec_capacity() ==> r is Ok
                && final(self)@ == old(self)@.push(id),
            !old(self)@.contains(id) && old(self)@.len() >= old(self).spec_capacity() ==> r == Err::<(), _>(
                PortRegistrationError::ExceedsMaxSupportedPorts,
            ) && final(self)@ == old(self)@,
    {
        if self.contains(id) {
            return Ok(());
        }
        if self.ids.len() >= self.capacity {
            return Err(PortRegistrationError::ExceedsMaxSupportedPorts);
        }
        let ghost before = self.ids@;
        self.ids.push(id);
        proof {
            assert forall|a: int, b: int| 0 <= a < b < self.ids@.len() implies self.ids@[a] != self.ids@[b] by {
                if b == before.len() {
                    assert(before.contains(before[a]));
                }
            }
        }
        Ok(())
    }

    /// Unregisters `id` and says whether it was registered.
    pub fn remove(&mut self, id: u128) -> (r: bool)
        requires
            old(self).wf(),
        ensures
            final(self).wf(),
            final(self).spec_capacity() == old(self).spec_capacity(),
            r == old(self)@.contains(id),
            !final(self)@.contains(id),
            forall|x: u128| x != id ==> (final(self)@.contains(x) <==> old(self)@.contains(x)),
    {
        let mut i: usize = 0;
        while i < self.ids.len()
            invariant
                i <= self.ids@.len(),
                *self == *old(self),
                self.wf(),
                forall|m: int| 0 <= m < i ==> self.ids@[m] != id,
            decreases self.ids@.len() - i,
        {
            if self.ids[i] == id {
                let ghost before = self.ids@;
                self.ids.remove(i);
                proof {
                    assert(self.ids@ == before.remove(i as int));
                    assert forall|a: int, b: int| 0 <= a < b < self.ids@.len() implies self.ids@[a] != self.ids@[b] by {
                        let a0 = if a < i { a } else { a + 1 };
                        let b0 = if b < i { b } else { b + 1 };
                        assert(self.ids@[a] == before[a0]);
                        assert(self.ids@[b] == before[b0]);
                    }
                    assert forall|x: u128| x != id implies (self.ids@.contains(x) <==> before.contains(x)) by {
                        if before.contains(x) {
                            let m = choose|m: int| 0 <= m < before.len() && before[m] == x;
                            assert(m != i);
                            if m < i {
                                assert(self.ids@[m] == x);
                            } else {
                                assert(self.ids@[m - 1] == x);
                            }
                        }
                        if self.ids@.contains(x) {
                            let m = choose|m: int| 0 <= m < self.ids@.len() && self.ids@[m] == x;
                            if m < i {
                                assert(before[m] == x);
                            } else {
                                assert(before[m + 1] == x);
                            }
                        }
                    }
                    assert(!self.ids@.contains(id)) by {
                        if self.ids@.contains(id) {
                            let m = choose|m: int| 0 <= m < self.ids@.len() && self.ids@[m] == id;
                            if m < i {
                                assert(before[m] == id);
                            } else {
                                assert(before[m + 1] == before[i as int]);
                                assert(m + 1 != i);
                            }
                        }
                    }
                    assert(before.contains(id));
                }
                return true;
            }
            i = i + 1;
        }
        false
    }
}

/// The kind of a port.
#[derive(Debug, Clone, Copy, PartialEq, Eq, Hash, Structural)]
pub enum PortKind {
    Publisher,
    Subscriber,
    Notifier,
    Listener,
}

/// Publishers and notifiers are in the first table of a service, subscribers
/// and listeners in the second.
pub open spec fn is_first_kind(kind: PortKind) -> bool {
    kind == PortKind::Publisher || kind == PortKind::Notifier
}

/// The live part of a service: how many handles to it are open, and the ports
/// that are attached to it, in two tables: publishers and subscribers, or
/// notifiers and listeners.
#[derive(Debug)]
pub struct DynamicConfig {
    reference_counter: u64,
    first_ports: PortTable,
    second_ports: PortTable,
}

impl DynamicConfig {
    pub closed spec fn view(&self) -> u64 {
        self.reference_counter
    }

    /// The ids of the attached ports of the kind.
    pub closed spec fn ports(&self, kind: PortKind) -> Seq<u128> {
        if is_first_kind(kind) {
            self.first_ports@
        } else {
            self.second_ports@
        }
    }

    /// The most ports of the kind that may be attached at once.
    pub closed spec fn max_ports(&self, kind: PortKind) -> nat {
        if is_first_kind(kind) {
            self.first_ports.spec_capacity()
        } else {
            self.second_ports.spec_capacity()
        }
    }

    pub closed spec fn wf(&self) -> bool {
        self.first_ports.wf() && self.second_ports.wf()
    }

    /// The dynamic configuration of a service that its creator just opened,
    /// with room for the given numbers of ports of each kind.
    pub fn new(max_first_ports: usize, max_second_ports: usize) -> (r: Self)
        ensures
            r.wf(),
            r@ == 1,
            forall|kind: PortKind| #[trigger] r.ports(kind) == Seq::<u128>::empty(),
            r.max_ports(PortKind::Publisher) == max_first_ports,
            r.max_ports(PortKind::Notifier) == max_first_ports,
            r.max_ports(PortKind::Subscriber) == max_second_ports,
            r.max_ports(PortKind::Listener) == max_second_ports,
    {
        DynamicConfig {
            reference_counter: 1,
            first_ports: PortTable::new(max_first_ports),
            second_ports: PortTable::new(max_second_ports),
        }
    }

    /// Attaches the port `id` of the kind; refused where as many ports of the
    /// kind are attached as the service supports.
    pub fn register(&mut self, kind: PortKind, id: u128) -> (r: Result<(), PortRegistrationError>)
        requires
            old(self).wf(),
        ensures
            final(self).wf(),
            final(self)@ == old(self)@,
            forall|k: PortKind| #[trigger] final(self).max_ports(k) == old(self).max_ports(k),
            forall|k: PortKind| is_first_kind(k) != is_first_kind(kind) ==> #[trigger] final(self).ports(k) == old(self).ports(k),
            old(self).ports(kind).contains(id) ==> r is Ok && final(self).ports(kind) == old(self).ports(kind),
            !old(self).ports(kind).contains(id) && old(self).ports(kind).len() < old(self).max_ports(kind) ==> r is Ok
                && final(self).ports(kind) == old(self).ports(kind).push(id),
            !old(self).ports(kind).contains(id) && old(self).ports(kind).len() >= old(self).max_ports(kind) ==> r
                == Err::<(), _>(PortRegistrationError::ExceedsMaxSupportedPorts) && final(self).ports(kind) == old(
                self,
            ).ports(kind),
    {
        match kind {
            PortKind::Publisher | PortKind::Notifier => self.first_ports.add(id),
            PortKind::Subscriber | PortKind::Listener => self.second_ports.add(id),
        }
    }

    /// Detaches the port `id` of the kind and says whether it was attached.
    pub fn unregister(&mut self, kind: PortKind, id: u128) -> (r: bool)
        requires
            old(self).wf(),
        ensures
            final(self).wf(),
            final(self)@ == old(self)@,
            forall|k: PortKind| #[trigger] final(self).max_ports(k) == old(self).max_ports(k),
            forall|k: PortKind| is_first_kind(k) != is_first_kind(kind) ==> #[trigger] final(self).ports(k) == old(self).ports(k),
            r == old(self).ports(kind).contains(id),
            !final(self).ports(kind).contains(id),
            forall|x: u128| x != id ==> (final(self).ports(kind).contains(x) <==> old(self).ports(kind).contains(x)),
    {
        match kind {
            PortKind::Publisher | PortKind::Notifier => self.first_ports.remove(id),
            PortKind::Subscriber | PortKind::Listener => self.second_ports.remove(id),
        }
    }

    /// Returns the number of attached ports of the kind.
    pub fn number_of_ports(&self, kind: PortKind) -> (r: usize)
        ensures
            r == self.ports(kind).len(),
    {
        match kind {
            PortKind::Publisher | PortKind::Notifier => self.first_ports.len(),
            PortKind::Subscriber | PortKind::Listener => self.second_ports.len(),
        }
    }

    /// Returns the number of open handles.
    pub fn reference_counter(&self) -> (r: u64)
        ensures
            r == self@,
    {
        self.reference_counter
    }

    /// Registers one more handle; fails where the service is being removed
    /// (the counter is zero) or where the counter cannot grow.
    pub fn increment_reference_counter(&mut self) -> (r: bool)
        ensures
            (final(self)@, r) == spec_increment(old(self)@),
            final(self).wf() == old(self).wf(),
            forall|kind: PortKind| #[trigger] final(self).ports(kind) == old(self).ports(kind),
            forall|kind: PortKind| #[trigger] final(self).max_ports(kind) == old(self).max_ports(kind),
    {
        if self.reference_counter == 0 || self.reference_counter == u64::MAX {
            return false;
        }
        self.reference_counter = self.reference_counter + 1;
        true
    }

    /// Unregisters one handle and says whether it was the last.
    pub fn decrement_reference_counter(&mut self) -> (r: DecrementReferenceCounterResult)
        requires
            old(self)@ > 0,
        ensures
            (final(self)@, r) == spec_decrement(old(self)@),
            final(self).wf() == old(self).wf(),
            forall|kind: PortKind| #[trigger] final(self).ports(kind) == old(self).ports(kind),
            forall|kind: PortKind| #[trigger] final(self).max_ports(kind) == old(self).max_ports(kind),
    {
        self.reference_counter = self.reference_counter - 1;
        if self.reference_counter == 0 {
            DecrementReferenceCounterResult::NoMoreOwners
        } else {
            DecrementReferenceCounterResult::HasOwners
        }
    }
}

/// An operation on the reference counter of a service.
#[derive(Debug, Clone, Copy, PartialEq, Eq, Hash)]
pub enum ReferenceCounterOp {
    Open,
    Close,
}

/// Runs `ops` on the counter `c`; a close where no handle is open is not
/// performed. Gives the final counter and how often a close was the last one.
pub open spec fn run_reference_counter(c: u64, ops: Seq<ReferenceCounterOp>) -> (u64, nat)
    decreases ops.len(),
{
    if ops.len() == 0 {
        (c, 0)
    } else {
        let (next, last) = match ops[0] {
            ReferenceCounterOp::Open => (spec_increment(c).0, 0nat),
            ReferenceCounterOp::Close => if c == 0 {
                (c, 0nat)
            } else {
                (
                    spec_decrement(c).0,
                    if spec_decrement(c).1 == DecrementReferenceCounterResult::NoMoreOwners {
                        1nat
                    } else {
                        0nat
                    },
                )
            },
        };
        let rest = run_reference_counter(next, ops.drop_first());
        (rest.0, last + rest.1)
    }
}

/// A service whose counter fell to zero stays at zero: no opener revives it.
pub proof fn lemma_zero_is_final(ops: Seq<ReferenceCounterOp>)
    ensures
        run_reference_counter(0, ops) == (0u64, 0nat),
    decreases ops.len(),
{
    if ops.len() > 0 {
        lemma_zero_is_final(ops.drop_first());
    }
}

/// From any number of open handles, the counter reaches zero at most once, and
/// it ends at zero exactly when the last close happened.
pub proof fn lemma_counter_reaches_zero_once(c: u64, ops: Seq<ReferenceCounterOp>)
    requires
        c >= 1,
    ensures
        run_reference_counter(c, ops).1 <= 1,
        run_reference_counter(c, ops).0 == 0 <==> run_reference_counter(c, ops).1 == 1,
    decreases ops.len(),
{
    if ops.len() > 0 {
        let next = match ops[0] {
            ReferenceCounterOp::Open => spec_increment(c).0,
            ReferenceCounterOp::Close => spec_decrement(c).0,
        };
        if next == 0 {
            lemma_zero_is_final(ops.drop_first());
        } else {
            lemma_counter_reaches_zero_once(next, ops.drop_first());
        }
    }
}

/// `n` closes, one after the other.
pub open spec fn closes(n: nat) -> Seq<ReferenceCounterOp> {
    Seq::new(n, |_i: int| ReferenceCounterOp::Close)
}

/// When each of `n` open handles is closed, exactly one close is the last one
/// and the counter ends at zero.
pub proof fn lemma_closing_every_handle(n: u64)
    requires
        n >= 1,
    ensures
        run_reference_counter(n, closes(n as nat)) == (0u64, 1nat),
    decreases n,
{
    assert(closes(n as nat).drop_first() =~= closes((n - 1) as nat));
    assert(closes(n as nat).len() > 0);
    assert(closes(n as nat)[0] == ReferenceCounterOp::Close);
    let rest = closes(n as nat).drop_first();
    if n == 1 {
        assert(rest =~= Seq::<ReferenceCounterOp>::empty());
        assert(spec_decrement(1) == (0u64, DecrementReferenceCounterResult::NoMoreOwners));
        assert(run_reference_counter(0, rest) == (0u64, 0nat));
    } else {
        lemma_closing_every_handle((n - 1) as u64);
        assert(spec_decrement(n) == ((n - 1) as u64, DecrementReferenceCounterResult::HasOwners));
        assert(run_reference_counter((n - 1) as u64, rest) == (0u64, 1nat));
    }
}

} // verus!
