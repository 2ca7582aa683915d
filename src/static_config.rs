//! The static configuration of a service: its uuid, its name and its messaging
//! pattern with the pattern's quality of service. It is written once when the
//! service is created and stored under the uuid's name.

pub mod event;
pub mod publish_subscribe;

use vstd::prelude::*;
use crate::names::{ServiceName, is_valid_file_name};

verus! {

/// The lowercase hexadecimal SHA-1 digest of a byte string.
pub uninterp spec fn sha1_hex_of(bytes: Seq<u8>) -> Seq<u8>;

pub open spec fn is_lower_hex_digit(b: u8) -> bool {
    (48u8 <= b <= 57u8) || (97u8 <= b <= 102u8)
}

/// Relies on sha1_smol's `Sha1::from(..).digest()` and its `Display`, which
/// writes the five words of the digest as eight lowercase hex digits each.
#[verifier::external_body]
fn sha1_hex(bytes: &[u8]) -> (r: Vec<u8>)
    ensures
        r@ == sha1_hex_of(bytes@),
        r@.len() == 40,
        forall|i: int| 0 <= i < r@.len() ==> is_lower_hex_digit(#[trigger] r@[i]),
{
    sha1_smol::Sha1::from(bytes).digest().to_string().into_bytes()
}

/// The uuid of the service named `name`: the hash of the name.
pub open spec fn service_uuid(name: Seq<u8>) -> Seq<u8> {
    sha1_hex_of(name)
}

/// A uuid is a valid file name: forty hex digits.
pub proof fn lemma_uuid_is_file_name(uuid: Seq<u8>)
    requires
        uuid.len() == 40,
        forall|i: int| 0 <= i < uuid.len() ==> is_lower_hex_digit(#[trigger] uuid[i]),
    ensures
        is_valid_file_name(uuid),
{
    assert(uuid[0] != 46u8);
    assert(uuid != seq![46u8]);
    assert(uuid != seq![46u8, 46u8]);
}

/// The messaging pattern of a service with its quality of service.
#[derive(Debug, Clone)]
pub enum MessagingPattern {
    PublishSubscribe(publish_subscribe::StaticConfig),
    Event(event::StaticConfig),
}

/// Computes the uuid of the service named `name`.
pub fn uuid_of(name: &ServiceName) -> (r: Vec<u8>)
    ensures
        r@ == service_uuid(name@),
        is_valid_file_name(r@),
{
    let r = sha1_hex(name.as_bytes());
    proof {
        lemma_uuid_is_file_name(r@);
    }
    r
}

/// The static configuration of a service.
#[derive(Debug, Clone)]
pub struct StaticConfig {
    pub uuid: Vec<u8>,
    pub service_name: ServiceName,
    pub messaging_pattern: MessagingPattern,
}

impl StaticConfig {
    /// The configuration of a new service named `name`; its uuid is the hash of
    /// the name.
    pub fn new(name: &ServiceName, messaging_pattern: MessagingPattern) -> (r: Self)
        ensures
            r.uuid@ == service_uuid(name@),
            r.service_name@ == name@,
            r.messaging_pattern == messaging_pattern,
    {
        StaticConfig { uuid: uuid_of(name), service_name: name.clone_name(), messaging_pattern }
    }

    /// Builds a configuration from its stored parts, as they were read back.
    pub fn from_parts(uuid: Vec<u8>, service_name: ServiceName, messaging_pattern: MessagingPattern) -> (r: Self)
        ensures
            r.uuid == uuid,
            r.service_name == service_name,
            r.messaging_pattern == messaging_pattern,
    {
        StaticConfig { uuid, service_name, messaging_pattern }
    }

    /// Returns the uuid of the service.
    pub fn uuid(&self) -> (r: &[u8])
        ensures
            r@ == self.uuid@,
    {
        self.uuid.as_slice()
    }

    /// Returns the name of the service.
    pub fn service_name(&self) -> (r: &ServiceName)
        ensures
            *r == self.service_name,
    {
        &self.service_name
    }

    /// Returns the messaging pattern of the service with its quality of service.
    pub fn messaging_pattern(&self) -> (r: &MessagingPattern)
        ensures
            *r == self.messaging_pattern,
    {
        &self.messaging_pattern
    }
}

} // verus!
