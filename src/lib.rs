//! Verified core of a zero-copy inter-process publish/subscribe and event middleware.
//!
//! The library holds the logic of the middleware: identifiers and names, the
//! safely overflowing index queue, the payload pool, the communication channel,
//! the service registry and the publish/subscribe data path. Everything that
//! touches the operating system lives outside of it.

pub mod unique_system_id;
pub mod index_queue;
pub mod pool_allocator;
pub mod names;
pub mod config;
pub mod static_config;
pub mod port_identifiers;
pub mod named_concept;
pub mod dynamic_config;
pub mod service;
pub mod communication_channel;
pub mod publish_subscribe;
pub mod event;
