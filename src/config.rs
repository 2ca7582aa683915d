//! The process wide configuration: where the artifacts of the services live and
//! which quality of service a new service gets unless its builder says otherwise.

use vstd::prelude::*;
use crate::names::to_vec;
use vstd::string::StringSliceAdditionalSpecFns;

verus! {

/// Where and under which suffixes the artifacts of a service are stored.
#[derive(Debug, Clone)]
pub struct ServiceSettings {
    pub directory: Vec<u8>,
    pub publisher_data_segment_suffix: Vec<u8>,
    pub static_config_storage_suffix: Vec<u8>,
    pub dynamic_config_storage_suffix: Vec<u8>,
    pub connection_suffix: Vec<u8>,
    pub event_connection_suffix: Vec<u8>,
}

/// Settings that hold for every service.
#[derive(Debug, Clone)]
pub struct Global {
    pub root_path: Vec<u8>,
    pub service: ServiceSettings,
}

/// The quality of service of a new publish-subscribe service.
#[derive(Debug, Clone, Copy, PartialEq, Eq, Hash)]
pub struct PublishSubscribeDefaults {
    pub max_subscribers: usize,
    pub max_publishers: usize,
    pub subscriber_max_buffer_size: usize,
    pub subscriber_max_borrowed_samples: usize,
    pub publisher_history_size: usize,
    pub enable_safe_overflow: bool,
}

/// The quality of service of a new event service.
#[derive(Debug, Clone, Copy, PartialEq, Eq, Hash)]
pub struct EventDefaults {
    pub max_listeners: usize,
    pub max_notifiers: usize,
}

/// The quality of service of new services.
#[derive(Debug, Clone, Copy, PartialEq, Eq, Hash)]
pub struct Defaults {
    pub publish_subscribe: PublishSubscribeDefaults,
    pub event: EventDefaults,
}

/// The configuration of the middleware within one process.
#[derive(Debug, Clone)]
pub struct Config {
    pub global: Global,
    pub defaults: Defaults,
}

impl Default for Config {
    fn default() -> (r: Self)
        ensures
            r.defaults.publish_subscribe.max_subscribers == 8,
            r.defaults.publish_subscribe.max_publishers == 2,
            r.defaults.publish_subscribe.subscriber_max_buffer_size == 2,
            r.defaults.publish_subscribe.subscriber_max_borrowed_samples == 2,
            r.defaults.publish_subscribe.publisher_history_size == 1,
            r.defaults.publish_subscribe.enable_safe_overflow,
            r.defaults.event.max_listeners == 2,
            r.defaults.event.max_notifiers == 16,
            r.global.root_path@ == "/tmp/elkodon/".spec_bytes(),
            r.global.service.directory@ == "services".spec_bytes(),
            r.global.service.static_config_storage_suffix@ == ".service".spec_bytes(),
            r.global.service.dynamic_config_storage_suffix@ == ".dynamic".spec_bytes(),
    {
        Config {
            global: Global {
                root_path: to_vec("/tmp/elkodon/".as_bytes()),
                service: ServiceSettings {
                    directory: to_vec("services".as_bytes()),
                    publisher_data_segment_suffix: to_vec(".publisher_data".as_bytes()),
                    static_config_storage_suffix: to_vec(".service".as_bytes()),
                    dynamic_config_storage_suffix: to_vec(".dynamic".as_bytes()),
                    connection_suffix: to_vec(".connection".as_bytes()),
                    event_connection_suffix: to_vec(".event".as_bytes()),
                },
            },
            defaults: Defaults {
                publish_subscribe: PublishSubscribeDefaults {
                    max_subscribers: 8,
                    max_publishers: 2,
                    subscriber_max_buffer_size: 2,
                    subscriber_max_borrowed_samples: 2,
                    publisher_history_size: 1,
                    enable_safe_overflow: true,
                },
                event: EventDefaults { max_listeners: 2, max_notifiers: 16 },
            },
        }
    }
}

} // verus!
