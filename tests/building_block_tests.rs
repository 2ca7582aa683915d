use elkodon::communication_channel::{
    create_error_of, open_error_of, CommunicationChannelCreateError, CommunicationChannelOpenError,
    CommunicationChannelSendError, Creator, DynamicStorageCreateError, DynamicStorageOpenError, DEFAULT_RECEIVER_BUFFER_SIZE,
};
use elkodon::config::Config;
use elkodon::index_queue::SafelyOverflowingIndexQueue;
use elkodon::names::{FileName, Path, SemanticStringError, ServiceName};
use elkodon::pool_allocator::PoolAllocator;
use elkodon::port_identifiers::{UniqueListenerId, UniquePublisherId, UniqueSubscriberId};
use elkodon::service::{connection_name, event_concept_name};
use elkodon::unique_system_id::{ProcessId, Time, UniqueSystemId};

#[test]
fn index_queue_is_fifo() {
    let mut q = SafelyOverflowingIndexQueue::new(3);
    assert!(q.is_empty());
    assert_eq!(q.push(1), None);
    assert_eq!(q.push(2), None);
    assert_eq!(q.pop(), Some(1));
    assert_eq!(q.push(3), None);
    assert_eq!(q.push(4), None);
    assert!(q.is_full());
    assert_eq!(q.pop(), Some(2));
    assert_eq!(q.pop(), Some(3));
    assert_eq!(q.pop(), Some(4));
    assert_eq!(q.pop(), None);
}

#[test]
fn index_queue_overflow_returns_oldest() {
    let mut q = SafelyOverflowingIndexQueue::new(2);
    assert_eq!(q.push(5), None);
    assert_eq!(q.push(6), None);
    assert_eq!(q.push(7), Some(5));
    assert!(q.contains(6));
    assert!(!q.contains(5));
    assert_eq!(q.pop(), Some(6));
    assert_eq!(q.pop(), Some(7));
}

#[test]
fn index_queue_of_capacity_zero_hands_value_back() {
    let mut q = SafelyOverflowingIndexQueue::new(0);
    assert_eq!(q.push(9), Some(9));
    assert_eq!(q.pop(), None);
}

#[test]
fn pool_allocator_hands_out_every_slot_once() {
    let mut p = PoolAllocator::new(16, 3).unwrap();
    let mut got = Vec::new();
    while let Some(i) = p.allocate() {
        got.push(i);
    }
    got.sort();
    assert_eq!(got, vec![0, 1, 2]);
    assert_eq!(p.number_of_free_buckets(), 0);
    p.deallocate(1);
    assert_eq!(p.allocate(), Some(1));
    assert_eq!(p.offset_of(2), 32);
}

#[test]
fn pool_allocator_too_large_is_refused() {
    assert!(PoolAllocator::new(usize::MAX, 2).is_none());
    assert!(PoolAllocator::new(0, 5).is_some());
}

#[test]
fn channel_without_overflow_refuses_when_full() {
    let mut r = Creator::new(FileName::new(b"chan").unwrap()).buffer_size(2).create_receiver();
    assert_eq!(r.buffer_size(), 2);
    assert!(!r.does_enable_safe_overflow());
    assert_eq!(r.try_send(1), Ok(None));
    assert_eq!(r.try_send(2), Ok(None));
    assert_eq!(r.try_send(3), Err(CommunicationChannelSendError::ReceiverCacheIsFull));
    assert_eq!(r.receive(), Some(1));
    assert_eq!(r.receive(), Some(2));
    assert_eq!(r.receive(), None);
}

#[test]
fn channel_with_overflow_returns_oldest() {
    let mut r = Creator::new(FileName::new(b"chan").unwrap())
        .enable_safe_overflow()
        .buffer_size(1)
        .create_receiver();
    assert_eq!(r.send(1), Ok(None));
    assert_eq!(r.send(2), Ok(Some(1)));
    assert_eq!(r.receive(), Some(2));
}

#[test]
fn channel_default_buffer_size() {
    let r = Creator::new(FileName::new(b"c").unwrap()).create_receiver();
    assert_eq!(r.buffer_size(), DEFAULT_RECEIVER_BUFFER_SIZE);
    assert_eq!(r.name().as_bytes(), b"c");
}

#[test]
fn file_name_validation() {
    assert!(FileName::new(b"abc.service").is_ok());
    assert_eq!(FileName::new(b"").unwrap_err(), SemanticStringError::InvalidContent);
    assert_eq!(FileName::new(b"a/b").unwrap_err(), SemanticStringError::InvalidContent);
    assert_eq!(FileName::new(b"..").unwrap_err(), SemanticStringError::InvalidContent);
    assert_eq!(FileName::new(&[b'a'; 256]).unwrap_err(), SemanticStringError::ExceedsMaximumLength);
    let mut f = FileName::new(b"ab").unwrap();
    assert!(f.push(b'_').is_ok());
    assert!(f.push(b'/').is_err());
    assert!(f.push_bytes(b"12").is_ok());
    assert_eq!(f.as_bytes(), b"ab_12");
}

#[test]
fn path_and_service_name_validation() {
    let mut p = Path::new(b"/tmp/x/").unwrap();
    assert!(p.push_bytes(b"services").is_ok());
    assert_eq!(p.as_bytes(), b"/tmp/x/services");
    assert!(Path::new(b"a\0b").is_err());
    assert!(ServiceName::new(b"Demo/U64").is_ok());
    assert!(ServiceName::new(b"").is_err());
    assert!(ServiceName::new(b"My/Funk/ServiceName").unwrap().equals(&ServiceName::new(b"My/Funk/ServiceName").unwrap()));
}

#[test]
fn unique_system_id_round_trip() {
    let id = UniqueSystemId::from_parts(ProcessId::new(1234), Time { seconds: 1_700_000_000, nanoseconds: 999_999_999 });
    assert_eq!(id.pid().value(), 1234);
    assert_eq!(id.creation_time(), Time { seconds: 1_700_000_000, nanoseconds: 999_999_999 });
    assert_eq!(id.value(), (1234u128 << 96) | (1_700_000_000u128 << 32) | 999_999_999u128);
    let big = UniqueSystemId::from_parts(ProcessId::new(u32::MAX), Time { seconds: u64::MAX, nanoseconds: u32::MAX });
    assert_eq!(big.value(), u128::MAX);
    assert_eq!(big.creation_time().seconds, u64::MAX);
}

#[test]
fn artifact_names_from_ids() {
    let p = UniquePublisherId(UniqueSystemId::from_value(123));
    let s = UniqueSubscriberId(UniqueSystemId::from_value(45));
    assert_eq!(connection_name(p, s).as_bytes(), b"123_45");
    let l = UniqueListenerId(UniqueSystemId::from_value((7u128 << 96) | 5));
    let expected = format!("7_{}", (7u128 << 96) | 5);
    assert_eq!(event_concept_name(&l).as_bytes(), expected.as_bytes());
    let max = UniquePublisherId(UniqueSystemId::from_value(u128::MAX));
    let zero = UniqueSubscriberId(UniqueSystemId::from_value(0));
    assert_eq!(connection_name(max, zero).as_bytes(), format!("{}_0", u128::MAX).as_bytes());
}

#[test]
fn config_defaults() {
    let c = Config::default();
    assert_eq!(c.defaults.event.max_listeners, 2);
    assert_eq!(c.defaults.event.max_notifiers, 16);
    assert_eq!(c.global.service.static_config_storage_suffix, b".service".to_vec());
    assert_eq!(c.global.service.dynamic_config_storage_suffix, b".dynamic".to_vec());
}

#[test]
fn channel_storage_errors_are_mapped() {
    assert_eq!(create_error_of(DynamicStorageCreateError::AlreadyExists), CommunicationChannelCreateError::AlreadyExists);
    assert_eq!(create_error_of(DynamicStorageCreateError::InternalError), CommunicationChannelCreateError::InternalFailure);
    assert_eq!(open_error_of(DynamicStorageOpenError::DoesNotExist), CommunicationChannelOpenError::DoesNotExist);
    assert_eq!(
        open_error_of(DynamicStorageOpenError::InitializationNotYetFinalized),
        CommunicationChannelOpenError::DoesNotExist
    );
    assert_eq!(open_error_of(DynamicStorageOpenError::VersionMismatch), CommunicationChannelOpenError::InternalFailure);
}
