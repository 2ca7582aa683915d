//! The system wide unique identifiers of the ports of a service.

use vstd::prelude::*;
use crate::unique_system_id::UniqueSystemId;

verus! {

/// The unique id of a publisher.
#[derive(Debug, Clone, Copy, PartialEq, Eq, Hash)]
pub struct UniquePublisherId(pub UniqueSystemId);

/// The unique id of a subscriber.
#[derive(Debug, Clone, Copy, PartialEq, Eq, Hash)]
pub struct UniqueSubscriberId(pub UniqueSystemId);

/// The unique id of a notifier.
#[derive(Debug, Clone, Copy, PartialEq, Eq, Hash)]
pub struct UniqueNotifierId(pub UniqueSystemId);

/// The unique id of a listener.
#[derive(Debug, Clone, Copy, PartialEq, Eq, Hash)]
pub struct UniqueListenerId(pub UniqueSystemId);

} // verus!
