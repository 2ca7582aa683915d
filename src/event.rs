//! Event notification: notifiers put small identifiers into the channel of a
//! listener, and the listener takes them out. Repeated notifications may be
//! coalesced: a full channel drops its oldest identifier.

use vstd::prelude::*;
use crate::communication_channel::{Creator, Receiver, spec_try_send};
use crate::port_identifiers::{UniqueListenerId, UniqueNotifierId};
use crate::service::event_concept_name;

verus! {

/// The identifier that an event carries.
#[derive(Debug, Clone, Copy, PartialEq, Eq, Hash, Structural)]
pub struct EventId(pub usize);

/// What a listener that waits with a timeout does next.
#[derive(Debug, Clone, Copy, PartialEq, Eq, Hash, Structural)]
pub enum WaitStep {
    /// An event arrived: the wait returns it.
    Received(EventId),
    /// The timeout passed without an event: the wait returns none.
    TimedOut,
    /// Wait a little longer, then look again.
    Continue,
}

/// Decides the next step of a timed wait from what the last look into the
/// channel found and how long the wait has lasted.
pub fn timed_wait_step(found: Option<EventId>, elapsed_nanoseconds: u128, timeout_nanoseconds: u128) -> (r: WaitStep)
    ensures
        found matches Some(e) ==> r == WaitStep::Received(e),
        found is None && elapsed_nanoseconds >= timeout_nanoseconds ==> r == WaitStep::TimedOut,
        found is None && elapsed_nanoseconds < timeout_nanoseconds ==> r == WaitStep::Continue,
{
    match found {
        Some(e) => WaitStep::Received(e),
        None => if elapsed_nanoseconds >= timeout_nanoseconds {
            WaitStep::TimedOut
        } else {
            WaitStep::Continue
        },
    }
}

/// The receiving end of event notifications.
#[derive(Debug)]
pub struct Listener {
    id: UniqueListenerId,
    channel: Receiver,
}

impl Listener {
    /// The identifiers that wait to be taken, oldest first.
    pub closed spec fn view(&self) -> Seq<usize> {
        self.channel@
    }

    pub closed spec fn spec_capacity(&self) -> nat {
        self.channel.spec_buffer_size()
    }

    pub closed spec fn spec_id(&self) -> UniqueListenerId {
        self.id
    }

    pub closed spec fn wf(&self) -> bool {
        self.channel.wf() && self.channel.spec_safe_overflow()
    }

    /// Creates a listener whose channel holds up to `capacity` identifiers.
    /// The channel is named after the listener.
    pub fn new(id: UniqueListenerId, capacity: usize) -> (r: Self)
        ensures
            r.wf(),
            r@ == Seq::<usize>::empty(),
            r.spec_capacity() == capacity,
            r.spec_id() == id,
    {
        let channel = Creator::new(event_concept_name(&id)).enable_safe_overflow().buffer_size(capacity).create_receiver();
        Listener { id, channel }
    }

    /// Returns the id of the listener.
    pub fn id(&self) -> (r: UniqueListenerId)
        ensures
            r == self.spec_id(),
    {
        self.id
    }

    /// Takes the oldest identifier, or returns `None` where none waits.
    pub fn try_wait(&mut self) -> (r: Option<EventId>)
        requires
            old(self).wf(),
        ensures
            final(self).wf(),
            final(self).spec_capacity() == old(self).spec_capacity(),
            final(self).spec_id() == old(self).spec_id(),
            old(self)@.len() == 0 ==> r.is_none() && final(self)@ == old(self)@,
            old(self)@.len() > 0 ==> r == Some(EventId(old(self)@[0])) && final(self)@ == old(self)@.drop_first(),
    {
        match self.channel.receive() {
            Some(v) => Some(EventId(v)),
            None => None,
        }
    }
}

/// The sending end of event notifications.
#[derive(Debug, Clone, Copy)]
pub struct Notifier {
    pub id: UniqueNotifierId,
    pub default_event_id: EventId,
}

impl Notifier {
    /// Creates a notifier that sends `default_event_id` unless told otherwise.
    pub fn new(id: UniqueNotifierId, default_event_id: EventId) -> (r: Self)
        ensures
            r.id == id,
            r.default_event_id == default_event_id,
    {
        Notifier { id, default_event_id }
    }

    /// Puts `event_id` into the listener's channel. Where the channel is full,
    /// its oldest identifier gives way.
    pub fn notify_with_custom_event_id(&self, listener: &mut Listener, event_id: EventId)
        requires
            old(listener).wf(),
        ensures
            final(listener).wf(),
            final(listener).spec_capacity() == old(listener).spec_capacity(),
            final(listener).spec_id() == old(listener).spec_id(),
            final(listener)@ == spec_try_send(old(listener)@, old(listener).spec_capacity(), true, event_id.0).0,
    {
        let _ = listener.channel.try_send(event_id.0);
    }

    /// Puts the notifier's default identifier into the listener's channel.
    pub fn notify(&self, listener: &mut Listener)
        requires
            old(listener).wf(),
        ensures
            final(listener).wf(),
            final(listener).spec_capacity() == old(listener).spec_capacity(),
            final(listener).spec_id() == old(listener).spec_id(),
            final(listener)@ == spec_try_send(old(listener)@, old(listener).spec_capacity(), true, self.default_event_id.0).0,
    {
        self.notify_with_custom_event_id(listener, self.default_event_id);
    }
}

/// A listener with room for an identifier that is notified finds it at the
/// end of its channel, so a wait returns it once the older ones are taken.
pub proof fn lemma_notification_arrives(items: Seq<usize>, capacity: nat, id: usize)
    requires
        capacity > 0,
    ensures
        spec_try_send(items, capacity, true, id).0.len() > 0,
        spec_try_send(items, capacity, true, id).0.last() == id,
{
}

} // verus!
