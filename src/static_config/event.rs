//! The static configuration of an event service.

use vstd::prelude::*;
use crate::config::Config;

verus! {

/// The quality of service of an event based service. It does not change during
/// the lifetime of the service.
#[derive(Debug, Clone, Copy, PartialEq, Eq, Hash)]
pub struct StaticConfig {
    pub max_notifiers: usize,
    pub max_listeners: usize,
}

impl StaticConfig {
    /// The quality of service that the configuration gives new event services.
    pub fn new(config: &Config) -> (r: Self)
        ensures
            r.max_notifiers == config.defaults.event.max_notifiers,
            r.max_listeners == config.defaults.event.max_listeners,
    {
        StaticConfig {
            max_notifiers: config.defaults.event.max_notifiers,
            max_listeners: config.defaults.event.max_listeners,
        }
    }

    /// Builds a configuration from its parts.
    pub fn from_parts(max_notifiers: usize, max_listeners: usize) -> (r: Self)
        ensures
            r.max_notifiers == max_notifiers,
            r.max_listeners == max_listeners,
    {
        StaticConfig { max_notifiers, max_listeners }
    }

    /// Returns the maximum supported amount of notifier ports.
    pub fn max_supported_notifiers(&self) -> (r: usize)
        ensures
            r == self.max_notifiers,
    {
        self.max_notifiers
    }

    /// Returns the maximum supported amount of listener ports.
    pub fn max_supported_listeners(&self) -> (r: usize)
        ensures
            r == self.max_listeners,
    {
        self.max_listeners
    }

    /// An opener that asks for `requested` may use a service created with `self`:
    /// it asks for no more ports than the service supports.
    pub open spec fn spec_supports(&self, requested: &StaticConfig) -> bool {
        requested.max_notifiers <= self.max_notifiers && requested.max_listeners <= self.max_listeners
    }

    /// Decides whether an opener that asks for `requested` may use this service.
    pub fn supports(&self, requested: &StaticConfig) -> (r: bool)
        ensures
            r == self.spec_supports(requested),
    {
        requested.max_notifiers <= self.max_notifiers && requested.max_listeners <= self.max_listeners
    }
}

} // verus!
