//! A named channel that carries `usize` values from a sender to a receiver
//! through a safely overflowing index queue.

use vstd::prelude::*;
use crate::index_queue::{SafelyOverflowingIndexQueue, pushed};
use crate::named_concept::Configuration;
use crate::names::FileName;

verus! {

/// The number of values a receiver buffers unless its creator says otherwise.
pub const DEFAULT_RECEIVER_BUFFER_SIZE: usize = 8;

/// Why a value could not be sent.
#[derive(Debug, Clone, Copy, PartialEq, Eq, Hash, Structural)]
pub enum CommunicationChannelSendError {
    ReceiverCacheIsFull,
    ConnectionBroken,
}

/// Why a channel could not be created.
#[derive(Debug, Clone, Copy, PartialEq, Eq, Hash, Structural)]
pub enum CommunicationChannelCreateError {
    AlreadyExists,
    InternalFailure,
}

/// Why a channel could not be opened.
#[derive(Debug, Clone, Copy, PartialEq, Eq, Hash, Structural)]
pub enum CommunicationChannelOpenError {
    DoesNotExist,
    InternalFailure,
}

/// Why the shared storage of a channel could not be created.
#[derive(Debug, Clone, Copy, PartialEq, Eq, Hash, Structural)]
pub enum DynamicStorageCreateError {
    AlreadyExists,
    InsufficientPermissions,
    InitializationFailed,
    InternalError,
}

/// Why the shared storage of a channel could not be opened.
#[derive(Debug, Clone, Copy, PartialEq, Eq, Hash, Structural)]
pub enum DynamicStorageOpenError {
    DoesNotExist,
    InitializationNotYetFinalized,
    VersionMismatch,
    InternalError,
}

/// What a failure to create the storage means for the channel: it exists
/// already, or something else went wrong.
pub fn create_error_of(e: DynamicStorageCreateError) -> (r: CommunicationChannelCreateError)
    ensures
        r == (if e == DynamicStorageCreateError::AlreadyExists {
            CommunicationChannelCreateError::AlreadyExists
        } else {
            CommunicationChannelCreateError::InternalFailure
        }),
{
    match e {
        DynamicStorageCreateError::AlreadyExists => CommunicationChannelCreateError::AlreadyExists,
        _ => CommunicationChannelCreateError::InternalFailure,
    }
}

/// What a failure to open the storage means for the channel: a storage that
/// is missing or not yet initialized is a channel that does not exist.
pub fn open_error_of(e: DynamicStorageOpenError) -> (r: CommunicationChannelOpenError)
    ensures
        r == (if e == DynamicStorageOpenError::DoesNotExist || e == DynamicStorageOpenError::InitializationNotYetFinalized {
            CommunicationChannelOpenError::DoesNotExist
        } else {
            CommunicationChannelOpenError::InternalFailure
        }),
{
    match e {
        DynamicStorageOpenError::DoesNotExist => CommunicationChannelOpenError::DoesNotExist,
        DynamicStorageOpenError::InitializationNotYetFinalized => CommunicationChannelOpenError::DoesNotExist,
        _ => CommunicationChannelOpenError::InternalFailure,
    }
}

/// The result of sending `value` into a channel that holds `items`: the error
/// where the receiver's buffer is full and overflow is off, otherwise the value
/// that the overflow pushed out, if any.
pub open spec fn spec_try_send(
    items: Seq<usize>,
    capacity: nat,
    enable_safe_overflow: bool,
    value: usize,
) -> (Seq<usize>, Result<Option<usize>, CommunicationChannelSendError>) {
    if !enable_safe_overflow && items.len() >= capacity {
        (items, Err(CommunicationChannelSendError::ReceiverCacheIsFull))
    } else {
        (pushed(items, value, capacity).0, Ok(pushed(items, value, capacity).1))
    }
}

/// Collects the settings of a new channel.
#[derive(Debug)]
pub struct Creator {
    pub channel_name: FileName,
    pub enable_safe_overflow: bool,
    pub buffer_size: usize,
    pub config: Option<Configuration>,
}

impl Creator {
    /// Settings of a channel named `channel_name`: no overflow and the default
    /// buffer size.
    pub fn new(channel_name: FileName) -> (r: Self)
        ensures
            r.channel_name == channel_name,
            !r.enable_safe_overflow,
            r.buffer_size == DEFAULT_RECEIVER_BUFFER_SIZE,
            r.config.is_none(),
    {
        Creator {
            channel_name,
            enable_safe_overflow: false,
            buffer_size: DEFAULT_RECEIVER_BUFFER_SIZE,
            config: None,
        }
    }

    /// Sets where the channel is stored.
    pub fn config(self, config: Configuration) -> (r: Self)
        ensures
            r == (Creator { config: Some(config), ..self }),
    {
        Creator { config: Some(config), ..self }
    }

    /// Lets a full buffer drop its oldest value.
    pub fn enable_safe_overflow(self) -> (r: Self)
        ensures
            r == (Creator { enable_safe_overflow: true, ..self }),
    {
        Creator { enable_safe_overflow: true, ..self }
    }

    /// Sets how many values the receiver buffers.
    pub fn buffer_size(self, value: usize) -> (r: Self)
        ensures
            r == (Creator { buffer_size: value, ..self }),
    {
        Creator { buffer_size: value, ..self }
    }

    /// Creates the receiving end with an empty buffer.
    pub fn create_receiver(self) -> (r: Receiver)
        ensures
            r.wf(),
            r@ == Seq::<usize>::empty(),
            r.spec_buffer_size() == self.buffer_size,
            r.spec_safe_overflow() == self.enable_safe_overflow,
            r.spec_name() == self.channel_name,
    {
        Receiver {
            name: self.channel_name,
            index_queue: SafelyOverflowingIndexQueue::new(self.buffer_size),
            enable_safe_overflow: self.enable_safe_overflow,
        }
    }
}

/// A channel: the queue of values that were sent and not yet received.
#[derive(Debug)]
pub struct Receiver {
    name: FileName,
    index_queue: SafelyOverflowingIndexQueue,
    enable_safe_overflow: bool,
}

impl Receiver {
    /// The values in the channel, oldest first.
    pub closed spec fn view(&self) -> Seq<usize> {
        self.index_queue@
    }

    pub closed spec fn spec_buffer_size(&self) -> nat {
        self.index_queue.spec_capacity()
    }

    pub closed spec fn spec_safe_overflow(&self) -> bool {
        self.enable_safe_overflow
    }

    pub closed spec fn spec_name(&self) -> FileName {
        self.name
    }

    pub closed spec fn wf(&self) -> bool {
        self.index_queue.wf()
    }

    /// Returns the name of the channel.
    pub fn name(&self) -> (r: &FileName)
        ensures
            *r == self.spec_name(),
    {
        &self.name
    }

    /// Returns how many values the channel buffers.
    pub fn buffer_size(&self) -> (r: usize)
        ensures
            r == self.spec_buffer_size(),
    {
        self.index_queue.capacity()
    }

    /// Returns whether a full buffer drops its oldest value.
    pub fn does_enable_safe_overflow(&self) -> (r: bool)
        ensures
            r == self.spec_safe_overflow(),
    {
        self.enable_safe_overflow
    }

    /// Takes the oldest value out of the channel.
    pub fn receive(&mut self) -> (r: Option<usize>)
        requires
            old(self).wf(),
        ensures
            final(self).wf(),
            final(self).spec_buffer_size() == old(self).spec_buffer_size(),
            final(self).spec_safe_overflow() == old(self).spec_safe_overflow(),
            old(self)@.len() == 0 ==> r.is_none() && final(self)@ == old(self)@,
            old(self)@.len() > 0 ==> r == Some(old(self)@[0]) && final(self)@ == old(self)@.drop_first(),
    {
        self.index_queue.pop()
    }

    /// Puts `value` into the channel. Where the buffer is full, it fails when
    /// overflow is off, and otherwise hands back the oldest value, which
    /// leaves the channel.
    pub fn try_send(&mut self, value: usize) -> (r: Result<Option<usize>, CommunicationChannelSendError>)
        requires
            old(self).wf(),
        ensures
            final(self).wf(),
            final(self).spec_buffer_size() == old(self).spec_buffer_size(),
            final(self).spec_safe_overflow() == old(self).spec_safe_overflow(),
            (final(self)@, r) == spec_try_send(
                old(self)@,
                old(self).spec_buffer_size(),
                old(self).spec_safe_overflow(),
                value,
            ),
    {
        if !self.enable_safe_overflow && self.index_queue.is_full() {
            return Err(CommunicationChannelSendError::ReceiverCacheIsFull);
        }
        Ok(self.index_queue.push(value))
    }

    /// Sends like [`Receiver::try_send`].
    pub fn send(&mut self, value: usize) -> (r: Result<Option<usize>, CommunicationChannelSendError>)
        requires
            old(self).wf(),
        ensures
            final(self).wf(),
            final(self).spec_buffer_size() == old(self).spec_buffer_size(),
            final(self).spec_safe_overflow() == old(self).spec_safe_overflow(),
            (final(self)@, r) == spec_try_send(
                old(self)@,
                old(self).spec_buffer_size(),
                old(self).spec_safe_overflow(),
                value,
            ),
    {
        self.try_send(value)
    }
}

/// The contents of a channel that held `items` after `vs` were sent into it,
/// one after the other.
pub open spec fn send_all(items: Seq<usize>, vs: Seq<usize>, capacity: nat, enable_safe_overflow: bool) -> Seq<usize>
    decreases vs.len(),
{
    if vs.len() == 0 {
        items
    } else {
        spec_try_send(send_all(items, vs.drop_last(), capacity, enable_safe_overflow), capacity, enable_safe_overflow, vs.last()).0
    }
}

/// Values sent into a channel with room for all of them are each accepted
/// without displacing anything, and the channel then holds them after what it
/// held, in send order; receiving takes them out in that order.
pub proof fn lemma_sent_in_order(items: Seq<usize>, vs: Seq<usize>, capacity: nat, enable_safe_overflow: bool)
    requires
        items.len() + vs.len() <= capacity,
    ensures
        send_all(items, vs, capacity, enable_safe_overflow) == items + vs,
        forall|k: int| 0 <= k < vs.len() ==> #[trigger] spec_try_send(
            send_all(items, vs.take(k), capacity, enable_safe_overflow),
            capacity,
            enable_safe_overflow,
            vs[k],
        ).1 == Ok::<Option<usize>, CommunicationChannelSendError>(None),
    decreases vs.len(),
{
    if vs.len() > 0 {
        lemma_sent_in_order(items, vs.drop_last(), capacity, enable_safe_overflow);
        assert(items + vs.drop_last() + seq![vs.last()] =~= items + vs);
        assert((items + vs.drop_last()).push(vs.last()) =~= items + vs);
        assert forall|k: int| 0 <= k < vs.len() implies #[trigger] spec_try_send(
            send_all(items, vs.take(k), capacity, enable_safe_overflow),
            capacity,
            enable_safe_overflow,
            vs[k],
        ).1 == Ok::<Option<usize>, CommunicationChannelSendError>(None) by {
            lemma_sent_in_order(items, vs.take(k), capacity, enable_safe_overflow);
        }
    }
}

/// With safe overflow, a value sent into a full channel pushes the oldest
/// value out and hands it back; the channel then holds the newest values.
pub proof fn lemma_full_channel_overflows(items: Seq<usize>, capacity: nat, value: usize)
    requires
        items.len() == capacity,
        capacity >= 1,
    ensures
        spec_try_send(items, capacity, true, value).1 == Ok::<Option<usize>, CommunicationChannelSendError>(Some(items[0])),
        spec_try_send(items, capacity, true, value).0 == items.drop_first().push(value),
{
    assert(items.push(value).drop_first() =~= items.drop_first().push(value));
}

} // verus!
