//! The static configuration of a publish-subscribe service.

use vstd::prelude::*;
use crate::config::Config;
use crate::names::{bytes_equal, to_vec};

verus! {

/// The payload type and quality of service of a publish-subscribe service. It
/// does not change during the lifetime of the service.
#[derive(Debug, Clone, PartialEq, Eq, Hash)]
pub struct StaticConfig {
    pub max_subscribers: usize,
    pub max_publishers: usize,
    pub history_size: usize,
    pub subscriber_max_buffer_size: usize,
    pub subscriber_max_borrowed_samples: usize,
    pub enable_safe_overflow: bool,
    pub payload_type: Vec<u8>,
}

/// Why an opener cannot use an existing publish-subscribe service.
#[derive(Debug, Clone, Copy, PartialEq, Eq, Hash)]
pub enum PublishSubscribeCompatibilityError {
    IncompatibleTypes,
    IncompatibleQoS,
}

impl StaticConfig {
    /// The quality of service that the configuration gives new services of the
    /// payload type `payload_type`.
    pub fn new(config: &Config, payload_type: &[u8]) -> (r: Self)
        ensures
            r.max_subscribers == config.defaults.publish_subscribe.max_subscribers,
            r.max_publishers == config.defaults.publish_subscribe.max_publishers,
            r.history_size == config.defaults.publish_subscribe.publisher_history_size,
            r.subscriber_max_buffer_size == config.defaults.publish_subscribe.subscriber_max_buffer_size,
            r.subscriber_max_borrowed_samples
                == config.defaults.publish_subscribe.subscriber_max_borrowed_samples,
            r.enable_safe_overflow == config.defaults.publish_subscribe.enable_safe_overflow,
            r.payload_type@ == payload_type@,
    {
        let d = &config.defaults.publish_subscribe;
        StaticConfig {
            max_subscribers: d.max_subscribers,
            max_publishers: d.max_publishers,
            history_size: d.publisher_history_size,
            subscriber_max_buffer_size: d.subscriber_max_buffer_size,
            subscriber_max_borrowed_samples: d.subscriber_max_borrowed_samples,
            enable_safe_overflow: d.enable_safe_overflow,
            payload_type: to_vec(payload_type),
        }
    }

    /// Returns the maximum supported amount of subscriber ports.
    pub fn max_supported_subscribers(&self) -> (r: usize)
        ensures
            r == self.max_subscribers,
    {
        self.max_subscribers
    }

    /// Returns the maximum supported amount of publisher ports.
    pub fn max_supported_publishers(&self) -> (r: usize)
        ensures
            r == self.max_publishers,
    {
        self.max_publishers
    }

    /// Returns how many samples a late subscriber receives on connect.
    pub fn history_size(&self) -> (r: usize)
        ensures
            r == self.history_size,
    {
        self.history_size
    }

    /// Returns how many samples a subscriber's queue holds.
    pub fn subscriber_max_buffer_size(&self) -> (r: usize)
        ensures
            r == self.subscriber_max_buffer_size,
    {
        self.subscriber_max_buffer_size
    }

    /// Returns how many samples a subscriber may hold at once.
    pub fn subscriber_max_borrowed_samples(&self) -> (r: usize)
        ensures
            r == self.subscriber_max_borrowed_samples,
    {
        self.subscriber_max_borrowed_samples
    }

    /// Returns whether a full subscriber queue drops its oldest sample.
    pub fn has_safe_overflow(&self) -> (r: bool)
        ensures
            r == self.enable_safe_overflow,
    {
        self.enable_safe_overflow
    }

    /// Returns the identifier of the payload type.
    pub fn payload_type(&self) -> (r: &[u8])
        ensures
            r@ == self.payload_type@,
    {
        self.payload_type.as_slice()
    }

    /// Sets the maximum supported amount of subscriber ports.
    pub fn set_max_subscribers(&mut self, value: usize)
        ensures
            *final(self) == (StaticConfig { max_subscribers: value, ..*old(self) }),
    {
        self.max_subscribers = value;
    }

    /// Sets the maximum supported amount of publisher ports.
    pub fn set_max_publishers(&mut self, value: usize)
        ensures
            *final(self) == (StaticConfig { max_publishers: value, ..*old(self) }),
    {
        self.max_publishers = value;
    }

    /// Sets how many samples a late subscriber receives on connect.
    pub fn set_history_size(&mut self, value: usize)
        ensures
            *final(self) == (StaticConfig { history_size: value, ..*old(self) }),
    {
        self.history_size = value;
    }

    /// Sets how many samples a subscriber's queue holds.
    pub fn set_subscriber_max_buffer_size(&mut self, value: usize)
        ensures
            *final(self) == (StaticConfig { subscriber_max_buffer_size: value, ..*old(self) }),
    {
        self.subscriber_max_buffer_size = value;
    }

    /// Sets how many samples a subscriber may hold at once.
    pub fn set_subscriber_max_borrowed_samples(&mut self, value: usize)
        ensures
            *final(self) == (StaticConfig { subscriber_max_borrowed_samples: value, ..*old(self) }),
    {
        self.subscriber_max_borrowed_samples = value;
    }

    /// Sets whether a full subscriber queue drops its oldest sample.
    pub fn set_safe_overflow(&mut self, value: bool)
        ensures
            *final(self) == (StaticConfig { enable_safe_overflow: value, ..*old(self) }),
    {
        self.enable_safe_overflow = value;
    }

    /// An opener that asks for `requested` may use a service created with `self`
    /// when the payload types are the same and it asks for no more than the
    /// service offers.
    pub open spec fn spec_check_compatibility(&self, requested: &StaticConfig) -> Result<
        (),
        PublishSubscribeCompatibilityError,
    > {
        if self.payload_type@ != requested.payload_type@ {
            Err(PublishSubscribeCompatibilityError::IncompatibleTypes)
        } else if requested.max_subscribers > self.max_subscribers || requested.max_publishers
            > self.max_publishers || requested.history_size > self.history_size
            || requested.subscriber_max_buffer_size > self.subscriber_max_buffer_size
            || requested.subscriber_max_borrowed_samples > self.subscriber_max_borrowed_samples {
            Err(PublishSubscribeCompatibilityError::IncompatibleQoS)
        } else {
            Ok(())
        }
    }

    /// Decides whether an opener that asks for `requested` may use this service.
    pub fn check_compatibility(&self, requested: &StaticConfig) -> (r: Result<
        (),
        PublishSubscribeCompatibilityError,
    >)
        ensures
            r == self.spec_check_compatibility(requested),
    {
        if !bytes_equal(self.payload_type.as_slice(), requested.payload_type.as_slice()) {
            Err(PublishSubscribeCompatibilityError::IncompatibleTypes)
        } else if requested.max_subscribers > self.max_subscribers || requested.max_publishers
            > self.max_publishers || requested.history_size > self.history_size
            || requested.subscriber_max_buffer_size > self.subscriber_max_buffer_size
            || requested.subscriber_max_borrowed_samples > self.subscriber_max_borrowed_samples {
            Err(PublishSubscribeCompatibilityError::IncompatibleQoS)
        } else {
            Ok(())
        }
    }
}

} // verus!
