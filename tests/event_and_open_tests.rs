use elkodon::config::Config;
use elkodon::event::{timed_wait_step, EventId, Listener, Notifier, WaitStep};
use elkodon::names::ServiceName;
use elkodon::port_identifiers::{UniqueListenerId, UniqueNotifierId};
use elkodon::dynamic_config::PortKind;
use elkodon::service::{
    check_open, create_service, open_among, open_service, open_or_create_next, OpenOrCreateAction, OpenOrCreateOutcome, ServiceCreateError,
    ServiceOpenError, MAX_OPEN_OR_CREATE_ATTEMPTS,
};
use elkodon::static_config::{event, publish_subscribe, MessagingPattern, StaticConfig};
use elkodon::unique_system_id::UniqueSystemId;

fn listener() -> Listener {
    Listener::new(UniqueListenerId(UniqueSystemId::from_value((3u128 << 96) | 17)), 4)
}

#[test]
fn listener_without_notification_finds_nothing() {
    let mut l = listener();
    assert_eq!(l.try_wait(), None);
    assert_eq!(l.try_wait(), None);
}

#[test]
fn notified_event_id_is_received() {
    let mut l = listener();
    let n = Notifier::new(UniqueNotifierId(UniqueSystemId::from_value(5)), EventId(1));
    n.notify_with_custom_event_id(&mut l, EventId(7));
    assert_eq!(l.try_wait(), Some(EventId(7)));
    n.notify(&mut l);
    assert_eq!(l.try_wait(), Some(EventId(1)));
    assert_eq!(l.try_wait(), None);
}

#[test]
fn full_listener_coalesces_oldest() {
    let mut l = Listener::new(UniqueListenerId(UniqueSystemId::from_value(9)), 2);
    let n = Notifier::new(UniqueNotifierId(UniqueSystemId::from_value(5)), EventId(0));
    for id in [1usize, 2, 3] {
        n.notify_with_custom_event_id(&mut l, EventId(id));
    }
    assert_eq!(l.try_wait(), Some(EventId(2)));
    assert_eq!(l.try_wait(), Some(EventId(3)));
    assert_eq!(l.try_wait(), None);
}

#[test]
fn timed_wait_steps() {
    let timeout = 50_000_000u128;
    assert_eq!(timed_wait_step(None, 0, timeout), WaitStep::Continue);
    assert_eq!(timed_wait_step(None, 50_000_000, timeout), WaitStep::TimedOut);
    assert_eq!(timed_wait_step(Some(EventId(7)), 60_000_000, timeout), WaitStep::Received(EventId(7)));
}

fn pubsub(payload: &[u8]) -> MessagingPattern {
    MessagingPattern::PublishSubscribe(publish_subscribe::StaticConfig::new(&Config::default(), payload))
}

#[test]
fn open_checks_pattern_type_and_qos() {
    let name = ServiceName::new(b"Demo/U64").unwrap();
    let existing = StaticConfig::new(&name, pubsub(b"u64"));
    assert_eq!(check_open(&existing, &pubsub(b"u64")), Ok(()));
    assert_eq!(check_open(&existing, &pubsub(b"u32")), Err(ServiceOpenError::IncompatibleTypes));
    let ev = MessagingPattern::Event(event::StaticConfig::new(&Config::default()));
    assert_eq!(check_open(&existing, &ev), Err(ServiceOpenError::IncompatibleMessagingPattern));
    let ev_service = StaticConfig::new(&name, ev.clone());
    assert_eq!(check_open(&ev_service, &MessagingPattern::Event(event::StaticConfig::from_parts(100, 1))), Err(ServiceOpenError::IncompatibleQoS));
}

#[test]
fn open_among_listed_services() {
    let a = ServiceName::new(b"A").unwrap();
    let b = ServiceName::new(b"B").unwrap();
    let services = vec![StaticConfig::new(&a, pubsub(b"u64")), StaticConfig::new(&b, pubsub(b"u8"))];
    assert_eq!(open_among(&services, &b, &pubsub(b"u8")), Ok(1));
    assert_eq!(open_among(&services, &b, &pubsub(b"u64")), Err(ServiceOpenError::IncompatibleTypes));
    let c = ServiceName::new(b"C").unwrap();
    assert_eq!(open_among(&services, &c, &pubsub(b"u8")), Err(ServiceOpenError::DoesNotExist));
}

#[test]
fn open_or_create_sequence() {
    assert_eq!(open_or_create_next(0, OpenOrCreateOutcome::Start), OpenOrCreateAction::Open);
    assert_eq!(
        open_or_create_next(1, OpenOrCreateOutcome::OpenFailed(ServiceOpenError::DoesNotExist)),
        OpenOrCreateAction::Create
    );
    assert_eq!(
        open_or_create_next(2, OpenOrCreateOutcome::CreateFailed(ServiceCreateError::AlreadyExists)),
        OpenOrCreateAction::Open
    );
    assert_eq!(
        open_or_create_next(1, OpenOrCreateOutcome::OpenFailed(ServiceOpenError::IncompatibleQoS)),
        OpenOrCreateAction::FailOpen(ServiceOpenError::IncompatibleQoS)
    );
    assert_eq!(
        open_or_create_next(MAX_OPEN_OR_CREATE_ATTEMPTS, OpenOrCreateOutcome::CreateFailed(ServiceCreateError::AlreadyExists)),
        OpenOrCreateAction::FailOpen(ServiceOpenError::ServiceInCorruptedState)
    );
    assert_eq!(
        open_or_create_next(1, OpenOrCreateOutcome::CreateFailed(ServiceCreateError::InsufficientPermissions)),
        OpenOrCreateAction::FailCreate(ServiceCreateError::InsufficientPermissions)
    );
}

#[test]
fn two_openers_share_a_service_until_the_last_closes() {
    let name = ServiceName::new(b"E").unwrap();
    let pattern = MessagingPattern::Event(event::StaticConfig::from_parts(4, 2));
    let (mut first, mut dynamic) = create_service(&name, pattern.clone());
    assert_eq!(dynamic.reference_counter(), 1);
    assert_eq!(first.static_config().service_name().as_bytes(), b"E");
    let existing = first.static_config().clone();
    let mut second = open_service(existing, &pattern, &mut dynamic).unwrap();
    assert_eq!(dynamic.reference_counter(), 2);
    assert!(dynamic.register(PortKind::Listener, 1).is_ok());
    assert!(dynamic.register(PortKind::Listener, 2).is_ok());
    assert!(dynamic.register(PortKind::Listener, 3).is_err());
    first.close(&mut dynamic);
    assert!(!first.owns_artifacts());
    second.close(&mut dynamic);
    assert!(second.owns_artifacts());
    let late = open_service(first.static_config().clone(), &pattern, &mut dynamic);
    assert!(matches!(late, Err(ServiceOpenError::DoesNotExist)));
    assert_eq!(dynamic.reference_counter(), 0);
}

#[test]
fn open_with_incompatible_request_leaves_counter() {
    let name = ServiceName::new(b"Demo/U64").unwrap();
    let (state, mut dynamic) = create_service(&name, pubsub(b"u64"));
    let r = open_service(state.static_config().clone(), &pubsub(b"u32"), &mut dynamic);
    assert!(matches!(r, Err(ServiceOpenError::IncompatibleTypes)));
    assert_eq!(dynamic.reference_counter(), 1);
}
