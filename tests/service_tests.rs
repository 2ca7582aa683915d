use elkodon::config::Config;
use elkodon::named_concept::NamedConceptListError;
use elkodon::names::ServiceName;
use elkodon::dynamic_config::{DecrementReferenceCounterResult, DynamicConfig, PortKind, PortRegistrationError};
use elkodon::service::{
    connection_config, does_exist, dynamic_config_storage_config, dynamic_config_storage_name, list,
    static_config_storage_config, static_config_storage_name, ServiceDoesExistError, ServiceListError, ServiceState,
    StoredService,
};
use elkodon::static_config::event;
use elkodon::static_config::publish_subscribe::{self, PublishSubscribeCompatibilityError};
use elkodon::static_config::{uuid_of, MessagingPattern, StaticConfig};

fn event_config(name: &[u8]) -> StaticConfig {
    let n = ServiceName::new(name).unwrap();
    StaticConfig::new(&n, MessagingPattern::Event(event::StaticConfig::new(&Config::default())))
}

fn stored(cfg: StaticConfig) -> StoredService {
    StoredService { storage_name: cfg.uuid().to_vec(), content: Some(cfg) }
}

#[test]
fn uuid_is_sha1_of_the_name() {
    let n = ServiceName::new(b"abc").unwrap();
    assert_eq!(uuid_of(&n), b"a9993e364706816aba3e25717850c26c9cd0d89d".to_vec());
    let c = event_config(b"abc");
    assert_eq!(c.uuid(), b"a9993e364706816aba3e25717850c26c9cd0d89d");
    assert_eq!(c.service_name().as_bytes(), b"abc");
}

#[test]
fn event_static_config_takes_defaults() {
    let mut cfg = Config::default();
    cfg.defaults.event.max_notifiers = 12;
    cfg.defaults.event.max_listeners = 3;
    let c = event::StaticConfig::new(&cfg);
    assert_eq!(c.max_supported_notifiers(), 12);
    assert_eq!(c.max_supported_listeners(), 3);
    assert!(c.supports(&event::StaticConfig::from_parts(12, 1)));
    assert!(!c.supports(&event::StaticConfig::from_parts(13, 1)));
}

#[test]
fn does_exist_finds_consistent_service() {
    let services = vec![stored(event_config(b"E")), stored(event_config(b"F"))];
    let e = ServiceName::new(b"E").unwrap();
    let g = ServiceName::new(b"G").unwrap();
    assert_eq!(does_exist(Ok(&services), &e), Ok(true));
    assert_eq!(does_exist(Ok(&services), &g), Ok(false));
    assert_eq!(does_exist(Ok(&Vec::new()), &e), Ok(false));
}

#[test]
fn does_exist_passes_over_inconsistent_entries() {
    let mut wrong_name = stored(event_config(b"E"));
    wrong_name.storage_name = b"0000".to_vec();
    let unreadable = StoredService { storage_name: event_config(b"E").uuid().to_vec(), content: None };
    let forged = {
        let real = event_config(b"X");
        let n = ServiceName::new(b"E").unwrap();
        let c = StaticConfig::from_parts(real.uuid().to_vec(), n, real.messaging_pattern().clone());
        stored(c)
    };
    let services = vec![wrong_name, unreadable, forged];
    let e = ServiceName::new(b"E").unwrap();
    assert_eq!(does_exist(Ok(&services), &e), Ok(false));
}

#[test]
fn does_exist_maps_listing_errors() {
    let e = ServiceName::new(b"E").unwrap();
    assert_eq!(
        does_exist(Err(NamedConceptListError::InsufficientPermissions), &e),
        Err(ServiceDoesExistError::InsufficientPermissions)
    );
    assert_eq!(does_exist(Err(NamedConceptListError::InternalError), &e), Err(ServiceDoesExistError::InternalError));
}

#[test]
fn list_returns_consistent_services_in_order() {
    let mut bad = stored(event_config(b"B"));
    bad.storage_name = b"nope".to_vec();
    let services = vec![stored(event_config(b"A")), bad, stored(event_config(b"C"))];
    let listed = list(Ok(services)).unwrap();
    assert_eq!(listed.len(), 2);
    assert_eq!(listed[0].service_name().as_bytes(), b"A");
    assert_eq!(listed[1].service_name().as_bytes(), b"C");
    assert!(matches!(list(Err(NamedConceptListError::InternalError)), Err(ServiceListError::InternalError)));
    assert!(matches!(
        list(Err(NamedConceptListError::InsufficientPermissions)),
        Err(ServiceListError::InsufficientPermissions)
    ));
}

#[test]
fn service_lifecycle_reference_counting() {
    let mut dynamic = DynamicConfig::new(1, 1);
    let mut first = ServiceState::new(event_config(b"E"));
    assert!(dynamic.increment_reference_counter());
    let mut second = ServiceState::new(event_config(b"E"));
    assert_eq!(dynamic.reference_counter(), 2);
    assert_eq!(first.close(&mut dynamic), DecrementReferenceCounterResult::HasOwners);
    assert!(!first.owns_artifacts());
    assert_eq!(second.close(&mut dynamic), DecrementReferenceCounterResult::NoMoreOwners);
    assert!(second.owns_artifacts());
    assert_eq!(dynamic.reference_counter(), 0);
    assert!(!dynamic.increment_reference_counter());
    assert_eq!(dynamic.reference_counter(), 0);
    let remaining: Vec<StoredService> = Vec::new();
    assert_eq!(does_exist(Ok(&remaining), &ServiceName::new(b"E").unwrap()), Ok(false));
}

#[test]
fn storage_configurations_follow_the_config() {
    let cfg = Config::default();
    let s = static_config_storage_config(&cfg);
    assert_eq!(s.get_suffix().as_bytes(), b".service");
    assert_eq!(s.get_path_hint().as_bytes(), b"/tmp/elkodon/services");
    let name = static_config_storage_name(b"abcd");
    assert_eq!(s.path_of(&name), b"/tmp/elkodon/services/abcd.service".to_vec());
    let d = dynamic_config_storage_config(&cfg);
    assert_eq!(d.get_suffix().as_bytes(), b".dynamic");
    assert_eq!(d.get_path_hint().as_bytes(), b"/tmp/elkodon/services");
    let c = connection_config(&cfg);
    assert_eq!(c.get_suffix().as_bytes(), b".connection");
    assert_eq!(c.get_path_hint().as_bytes(), b"/tmp/elkodon/services");
    let e = event_config(b"E");
    assert_eq!(dynamic_config_storage_name(&e).as_bytes(), e.uuid());
}

#[test]
fn publish_subscribe_compatibility() {
    let cfg = Config::default();
    let stored_qos = publish_subscribe::StaticConfig::new(&cfg, b"u64");
    let mut requested = publish_subscribe::StaticConfig::new(&cfg, b"u64");
    assert_eq!(stored_qos.check_compatibility(&requested), Ok(()));
    requested.set_max_subscribers(1);
    assert_eq!(stored_qos.check_compatibility(&requested), Ok(()));
    requested.set_max_subscribers(100);
    assert_eq!(stored_qos.check_compatibility(&requested), Err(PublishSubscribeCompatibilityError::IncompatibleQoS));
    let other = publish_subscribe::StaticConfig::new(&cfg, b"u32");
    assert_eq!(stored_qos.check_compatibility(&other), Err(PublishSubscribeCompatibilityError::IncompatibleTypes));
    assert_eq!(stored_qos.payload_type(), b"u64");
    let mut other_overflow = publish_subscribe::StaticConfig::new(&cfg, b"u64");
    other_overflow.set_safe_overflow(!stored_qos.has_safe_overflow());
    assert_eq!(stored_qos.check_compatibility(&other_overflow), Ok(()));
}

#[test]
fn ports_are_registered_up_to_the_maximum() {
    let mut dynamic = DynamicConfig::new(1, 2);
    assert_eq!(dynamic.register(PortKind::Publisher, 10), Ok(()));
    assert_eq!(dynamic.register(PortKind::Publisher, 10), Ok(()));
    assert_eq!(dynamic.register(PortKind::Publisher, 11), Err(PortRegistrationError::ExceedsMaxSupportedPorts));
    assert_eq!(dynamic.register(PortKind::Subscriber, 20), Ok(()));
    assert_eq!(dynamic.register(PortKind::Subscriber, 21), Ok(()));
    assert_eq!(dynamic.register(PortKind::Subscriber, 22), Err(PortRegistrationError::ExceedsMaxSupportedPorts));
    assert_eq!(dynamic.number_of_ports(PortKind::Subscriber), 2);
    assert!(dynamic.unregister(PortKind::Subscriber, 20));
    assert!(!dynamic.unregister(PortKind::Subscriber, 20));
    assert_eq!(dynamic.register(PortKind::Subscriber, 22), Ok(()));
    assert_eq!(dynamic.number_of_ports(PortKind::Publisher), 1);
}

#[test]
fn storage_configuration_reads_only_its_own_suffix() {
    let mut cfg = Config::default();
    cfg.global.service.static_config_storage_suffix = b"a/b".to_vec();
    cfg.global.service.connection_suffix = Vec::new();
    let d = dynamic_config_storage_config(&cfg);
    assert_eq!(d.get_suffix().as_bytes(), b".dynamic");
}
