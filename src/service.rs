//! The service registry: finding services among the stored static
//! configurations, the names of a service's artifacts, and the reference
//! counting that decides who removes a service.

use vstd::prelude::*;
use crate::config::Config;
use crate::named_concept::{Configuration, NamedConceptListError};
use crate::names::{
    FileName, Path, ServiceName, bytes_equal, decimal, is_valid_file_name, is_valid_path,
    lemma_decimal_digits, pow10, push_decimal,
};
use crate::port_identifiers::{UniqueListenerId, UniquePublisherId, UniqueSubscriberId};
use crate::static_config::{MessagingPattern, StaticConfig, service_uuid, uuid_of};
use crate::static_config::publish_subscribe::PublishSubscribeCompatibilityError;
use crate::unique_system_id::pid_of;
use crate::dynamic_config::{DecrementReferenceCounterResult, DynamicConfig, PortKind, spec_decrement, spec_increment};

verus! {

/// Failure that can be reported when it is checked whether a service exists.
#[derive(Debug, Clone, Copy, PartialEq, Eq, Hash)]
pub enum ServiceDoesExistError {
    InsufficientPermissions,
    InternalError,
}

/// Failure that can be reported when the services are listed.
#[derive(Debug, Clone, Copy, PartialEq, Eq, Hash)]
pub enum ServiceListError {
    InsufficientPermissions,
    InternalError,
}

/// One stored static configuration: the name of its artifact and, where it
/// could be opened, read and deserialized, its content.
#[derive(Debug, Clone)]
pub struct StoredService {
    pub storage_name: Vec<u8>,
    pub content: Option<StaticConfig>,
}

/// A stored configuration counts only where it could be read, where the name
/// of its artifact is its uuid, and where that uuid is the hash of its name.
pub open spec fn is_consistent(e: StoredService) -> bool {
    &&& e.content is Some
    &&& e.storage_name@ == e.content->0.uuid@
    &&& e.content->0.uuid@ == service_uuid(e.content->0.service_name@)
}

/// The consistent configurations among `s`, in their order.
pub open spec fn consistent_configs(s: Seq<StoredService>) -> Seq<StaticConfig>
    decreases s.len(),
{
    if s.len() == 0 {
        Seq::empty()
    } else if is_consistent(s[0]) {
        seq![s[0].content->0] + consistent_configs(s.drop_first())
    } else {
        consistent_configs(s.drop_first())
    }
}

/// Some consistent configuration among `s` belongs to the service `name`.
pub open spec fn lists_service(s: Seq<StoredService>, name: Seq<u8>) -> bool {
    exists|i: int| 0 <= i < s.len() && is_consistent(#[trigger] s[i]) && s[i].content->0.service_name@ == name
}

fn check_consistency(e: &StoredService) -> (r: bool)
    ensures
        r == is_consistent(*e),
{
    match &e.content {
        None => false,
        Some(c) => {
            if !bytes_equal(e.storage_name.as_slice(), c.uuid.as_slice()) {
                return false;
            }
            let expected = uuid_of(&c.service_name);
            bytes_equal(expected.as_slice(), c.uuid.as_slice())
        },
    }
}

/// Decides whether the service `service_name` is among the stored configurations
/// that a listing found. Inconsistent entries are passed over.
pub fn does_exist(
    listing: Result<&Vec<StoredService>, NamedConceptListError>,
    service_name: &ServiceName,
) -> (r: Result<bool, ServiceDoesExistError>)
    ensures
        listing matches Err(NamedConceptListError::InsufficientPermissions) ==> r == Err::<bool, _>(
            ServiceDoesExistError::InsufficientPermissions,
        ),
        listing matches Err(NamedConceptListError::InternalError) ==> r == Err::<bool, _>(
            ServiceDoesExistError::InternalError,
        ),
        listing matches Ok(s) ==> r == Ok::<bool, ServiceDoesExistError>(lists_service(s@, service_name@)),
{
    let services = match listing {
        Err(NamedConceptListError::InsufficientPermissions) => {
            return Err(ServiceDoesExistError::InsufficientPermissions);
        },
        Err(NamedConceptListError::InternalError) => {
            return Err(ServiceDoesExistError::InternalError);
        },
        Ok(s) => s,
    };
    assert(listing == Ok::<&Vec<StoredService>, NamedConceptListError>(services));
    let mut i: usize = 0;
    while i < services.len()
        invariant
            i <= services@.len(),
            listing == Ok::<&Vec<StoredService>, NamedConceptListError>(services),
            forall|k: int|
                0 <= k < i ==> !(is_consistent(#[trigger] services@[k])
                    && services@[k].content->0.service_name@ == service_name@),
        decreases services@.len() - i,
    {
        let e = &services[i];
        if check_consistency(e) {
            match &e.content {
                Some(c) => {
                    if c.service_name.equals(service_name) {
                        assert(is_consistent(services@[i as int]));
                        assert(lists_service(services@, service_name@));
                        return Ok(true);
                    }
                },
                None => {},
            }
        }
        i = i + 1;
    }
    assert(!lists_service(services@, service_name@));
    Ok(false)
}

/// Returns the consistent configurations among those that a listing found, in
/// their order.
pub fn list(listing: Result<Vec<StoredService>, NamedConceptListError>) -> (r: Result<
    Vec<StaticConfig>,
    ServiceListError,
>)
    ensures
        listing matches Err(NamedConceptListError::InsufficientPermissions) ==> r matches Err(
            ServiceListError::InsufficientPermissions,
        ),
        listing matches Err(NamedConceptListError::InternalError) ==> r matches Err(
            ServiceListError::InternalError,
        ),
        listing matches Ok(s) ==> r matches Ok(v) && v@ == consistent_configs(s@),
{
    let mut services = match listing {
        Err(NamedConceptListError::InsufficientPermissions) => {
            return Err(ServiceListError::InsufficientPermissions);
        },
        Err(NamedConceptListError::InternalError) => {
            return Err(ServiceListError::InternalError);
        },
        Ok(s) => s,
    };
    let ghost all = services@;
    let mut out: Vec<StaticConfig> = Vec::new();
    assert(out@ + consistent_configs(services@) =~= consistent_configs(all));
    while services.len() > 0
        invariant
            out@ + consistent_configs(services@) == consistent_configs(all),
        decreases services@.len(),
    {
        let ghost before = services@;
        let e = services.remove(0);
        assert(services@ =~= before.drop_first());
        if check_consistency(&e) {
            match e.content {
                Some(c) => {
                    let ghost prev = out@;
                    out.push(c);
                    assert(out@ + consistent_configs(services@) =~= prev + consistent_configs(before));
                },
                None => {},
            }
        }
    }
    assert(consistent_configs(services@) =~= Seq::<StaticConfig>::empty());
    assert(out@ =~= consistent_configs(all));
    Ok(out)
}

/// Every configuration that the registry lists belongs to the artifact that
/// carries the hash of its service name as its name.
pub proof fn lemma_listed_configs_are_consistent(s: Seq<StoredService>, j: int)
    requires
        0 <= j < consistent_configs(s).len(),
    ensures
        exists|i: int|
            0 <= i < s.len() && #[trigger] s[i].content == Some(consistent_configs(s)[j])
                && s[i].storage_name@ == service_uuid(consistent_configs(s)[j].service_name@),
    decreases s.len(),
{
    if is_consistent(s[0]) && j == 0 {
        assert(s[0].content == Some(consistent_configs(s)[j]));
    } else {
        let jj = if is_consistent(s[0]) { j - 1 } else { j };
        lemma_listed_configs_are_consistent(s.drop_first(), jj);
        let i = choose|i: int|
            0 <= i < s.drop_first().len() && #[trigger] s.drop_first()[i].content == Some(
                consistent_configs(s.drop_first())[jj],
            ) && s.drop_first()[i].storage_name@ == service_uuid(
                consistent_configs(s.drop_first())[jj].service_name@,
            );
        assert(s[i + 1] == s.drop_first()[i]);
    }
}

/// The name of the connection from a publisher to a subscriber:
/// `{publisher id}_{subscriber id}`, both in decimal.
pub open spec fn spec_connection_name(publisher_id: u128, subscriber_id: u128) -> Seq<u8> {
    decimal(publisher_id as nat) + seq![95u8] + decimal(subscriber_id as nat)
}

/// The name of a listener's event channel: `{process id}_{listener id}`, both
/// in decimal.
pub open spec fn spec_event_concept_name(listener_id: u128) -> Seq<u8> {
    decimal(pid_of(listener_id) as nat) + seq![95u8] + decimal(listener_id as nat)
}

proof fn lemma_joined_ids_are_file_name(a: nat, b: nat)
    requires
        a <= u128::MAX,
        b <= u128::MAX,
    ensures
        is_valid_file_name(decimal(a) + seq![95u8] + decimal(b)),
{
    reveal_with_fuel(pow10, 40);
    assert(pow10(39) > u128::MAX);
    lemma_decimal_digits(a, 39);
    lemma_decimal_digits(b, 39);
    let s = decimal(a) + seq![95u8] + decimal(b);
    assert forall|i: int| 0 <= i < s.len() implies crate::names::is_file_name_byte(#[trigger] s[i]) by {
        if i < decimal(a).len() {
            assert(s[i] == decimal(a)[i]);
        } else if i > decimal(a).len() {
            assert(s[i] == decimal(b)[i - decimal(a).len() - 1]);
        }
    }
    assert(s.len() >= 3);
}

fn joined_ids(a: u128, b: u128) -> (r: FileName)
    ensures
        r@ == decimal(a as nat) + seq![95u8] + decimal(b as nat),
{
    let mut v: Vec<u8> = Vec::new();
    push_decimal(a, &mut v);
    v.push(95u8);
    push_decimal(b, &mut v);
    proof {
        assert(v@ =~= decimal(a as nat) + seq![95u8] + decimal(b as nat));
        lemma_joined_ids_are_file_name(a as nat, b as nat);
    }
    FileName::from_valid(v)
}

/// Returns the name of the connection from `publisher_id` to `subscriber_id`.
pub fn connection_name(publisher_id: UniquePublisherId, subscriber_id: UniqueSubscriberId) -> (r: FileName)
    ensures
        r@ == spec_connection_name(publisher_id.0@, subscriber_id.0@),
        is_valid_file_name(r@),
{
    proof {
        lemma_joined_ids_are_file_name(publisher_id.0@ as nat, subscriber_id.0@ as nat);
    }
    joined_ids(publisher_id.0.value(), subscriber_id.0.value())
}

/// Returns the name of the event channel of `listener_id`.
pub fn event_concept_name(listener_id: &UniqueListenerId) -> (r: FileName)
    ensures
        r@ == spec_event_concept_name(listener_id.0@),
        is_valid_file_name(r@),
{
    let pid = listener_id.0.pid().value();
    proof {
        lemma_joined_ids_are_file_name(pid as nat, listener_id.0@ as nat);
    }
    joined_ids(pid as u128, listener_id.0.value())
}

/// Returns the name of the artifact that stores the static configuration of
/// the service with the given uuid.
pub fn static_config_storage_name(uuid: &[u8]) -> (r: FileName)
    requires
        is_valid_file_name(uuid@),
    ensures
        r@ == uuid@,
{
    FileName::from_valid(crate::names::to_vec(uuid))
}

/// Returns the name of the artifact that holds the dynamic configuration of
/// the service.
pub fn dynamic_config_storage_name(static_config: &StaticConfig) -> (r: FileName)
    requires
        is_valid_file_name(static_config.uuid@),
    ensures
        r@ == static_config.uuid@,
{
    FileName::from_valid(crate::names::to_vec(static_config.uuid.as_slice()))
}

/// The directory of a service's artifacts: the service directory below the
/// root path.
pub open spec fn spec_service_directory(config: &Config) -> Seq<u8> {
    config.global.root_path@ + config.global.service.directory@
}

fn service_directory(config: &Config) -> (r: Path)
    requires
        is_valid_path(spec_service_directory(config)),
    ensures
        r@ == spec_service_directory(config),
{
    let mut bytes = crate::names::to_vec(config.global.root_path.as_slice());
    let mut directory = crate::names::to_vec(config.global.service.directory.as_slice());
    bytes.append(&mut directory);
    Path::from_valid(bytes)
}

/// Returns where the static configurations of the services are stored: the
/// service directory below the root path, under the static config suffix.
pub fn static_config_storage_config(config: &Config) -> (r: Configuration)
    requires
        is_valid_file_name(config.global.service.static_config_storage_suffix@),
        is_valid_path(spec_service_directory(config)),
    ensures
        r.wf(),
        r.spec_suffix() == config.global.service.static_config_storage_suffix@,
        r.spec_path_hint() == spec_service_directory(config),
{
    let suffix = FileName::from_valid(crate::names::to_vec(config.global.service.static_config_storage_suffix.as_slice()));
    Configuration::new(suffix, service_directory(config))
}

/// Returns where the dynamic configurations of the services are stored: the
/// service directory below the root path, under the dynamic config suffix.
pub fn dynamic_config_storage_config(config: &Config) -> (r: Configuration)
    requires
        is_valid_file_name(config.global.service.dynamic_config_storage_suffix@),
        is_valid_path(spec_service_directory(config)),
    ensures
        r.wf(),
        r.spec_suffix() == config.global.service.dynamic_config_storage_suffix@,
        r.spec_path_hint() == spec_service_directory(config),
{
    let suffix = FileName::from_valid(crate::names::to_vec(config.global.service.dynamic_config_storage_suffix.as_slice()));
    Configuration::new(suffix, service_directory(config))
}

/// Returns where the connections between publishers and subscribers are
/// stored: the service directory below the root path, under the connection
/// suffix.
pub fn connection_config(config: &Config) -> (r: Configuration)
    requires
        is_valid_file_name(config.global.service.connection_suffix@),
        is_valid_path(spec_service_directory(config)),
    ensures
        r.wf(),
        r.spec_suffix() == config.global.service.connection_suffix@,
        r.spec_path_hint() == spec_service_directory(config),
{
    let suffix = FileName::from_valid(crate::names::to_vec(config.global.service.connection_suffix.as_slice()));
    Configuration::new(suffix, service_directory(config))
}

/// The state of an open handle to a service.
#[derive(Debug)]
pub struct ServiceState {
    static_config: StaticConfig,
    owns_artifacts: bool,
}

impl ServiceState {
    pub closed spec fn spec_static_config(&self) -> StaticConfig {
        self.static_config
    }

    pub closed spec fn spec_owns_artifacts(&self) -> bool {
        self.owns_artifacts
    }

    /// The state of a handle that was opened or created successfully.
    pub fn new(static_config: StaticConfig) -> (r: Self)
        ensures
            r.spec_static_config() == static_config,
            !r.spec_owns_artifacts(),
    {
        ServiceState { static_config, owns_artifacts: false }
    }

    /// Closes the handle. The last handle takes over the service's artifacts:
    /// it is the one that removes them.
    pub fn close(&mut self, dynamic_config: &mut DynamicConfig) -> (r: DecrementReferenceCounterResult)
        requires
            old(dynamic_config)@ > 0,
        ensures
            (final(dynamic_config)@, r) == spec_decrement(old(dynamic_config)@),
            final(self).spec_owns_artifacts() == (r == DecrementReferenceCounterResult::NoMoreOwners),
            final(self).spec_static_config() == old(self).spec_static_config(),
    {
        let r = dynamic_config.decrement_reference_counter();
        self.owns_artifacts = match r {
            DecrementReferenceCounterResult::HasOwners => false,
            DecrementReferenceCounterResult::NoMoreOwners => true,
        };
        r
    }

    /// Returns the static configuration of the service.
    pub fn static_config(&self) -> (r: &StaticConfig)
        ensures
            *r == self.spec_static_config(),
    {
        &self.static_config
    }

    /// Returns whether this handle removes the service's artifacts.
    pub fn owns_artifacts(&self) -> (r: bool)
        ensures
            r == self.spec_owns_artifacts(),
    {
        self.owns_artifacts
    }
}

/// Why a service could not be opened.
#[derive(Debug, Clone, Copy, PartialEq, Eq, Hash, Structural)]
pub enum ServiceOpenError {
    DoesNotExist,
    IncompatibleTypes,
    IncompatibleMessagingPattern,
    IncompatibleQoS,
    InsufficientPermissions,
    ServiceInCorruptedState,
}

/// Why a service could not be created.
#[derive(Debug, Clone, Copy, PartialEq, Eq, Hash, Structural)]
pub enum ServiceCreateError {
    AlreadyExists,
    InsufficientPermissions,
    InternalError,
    OldServiceStateStillExists,
    HashCollision,
    IsBeingCreatedByAnotherInstance,
}

/// Whether an opener that asks for `requested` may use the existing service
/// `existing`: the messaging patterns must agree, and then the payload types and
/// the quality of service.
pub open spec fn spec_check_open(existing: MessagingPattern, requested: MessagingPattern) -> Result<(), ServiceOpenError> {
    match (existing, requested) {
        (MessagingPattern::PublishSubscribe(e), MessagingPattern::PublishSubscribe(r)) => match e.spec_check_compatibility(&r) {
            Ok(()) => Ok(()),
            Err(PublishSubscribeCompatibilityError::IncompatibleTypes) => Err(ServiceOpenError::IncompatibleTypes),
            Err(PublishSubscribeCompatibilityError::IncompatibleQoS) => Err(ServiceOpenError::IncompatibleQoS),
        },
        (MessagingPattern::Event(e), MessagingPattern::Event(r)) => if e.spec_supports(&r) {
            Ok(())
        } else {
            Err(ServiceOpenError::IncompatibleQoS)
        },
        _ => Err(ServiceOpenError::IncompatibleMessagingPattern),
    }
}

/// Decides whether an opener that asks for `requested` may use the existing
/// service `existing`.
pub fn check_open(existing: &StaticConfig, requested: &MessagingPattern) -> (r: Result<(), ServiceOpenError>)
    ensures
        r == spec_check_open(existing.messaging_pattern, *requested),
{
    match (&existing.messaging_pattern, requested) {
        (MessagingPattern::PublishSubscribe(e), MessagingPattern::PublishSubscribe(r)) => match e.check_compatibility(r) {
            Ok(()) => Ok(()),
            Err(PublishSubscribeCompatibilityError::IncompatibleTypes) => Err(ServiceOpenError::IncompatibleTypes),
            Err(PublishSubscribeCompatibilityError::IncompatibleQoS) => Err(ServiceOpenError::IncompatibleQoS),
        },
        (MessagingPattern::Event(e), MessagingPattern::Event(r)) => if e.supports(r) {
            Ok(())
        } else {
            Err(ServiceOpenError::IncompatibleQoS)
        },
        _ => Err(ServiceOpenError::IncompatibleMessagingPattern),
    }
}

/// Opens the service `name` among the listed services: fails with
/// `DoesNotExist` where none has that name, and otherwise checks the first
/// that has it against the request. Returns its position.
pub fn open_among(services: &Vec<StaticConfig>, name: &ServiceName, requested: &MessagingPattern) -> (r: Result<usize, ServiceOpenError>)
    ensures
        r matches Ok(i) ==> {
            &&& i < services@.len()
            &&& services@[i as int].service_name@ == name@
            &&& forall|m: int| 0 <= m < i ==> services@[m].service_name@ != name@
            &&& spec_check_open(services@[i as int].messaging_pattern, *requested) == Ok::<(), ServiceOpenError>(())
        },
        r == Err::<usize, _>(ServiceOpenError::DoesNotExist) <==> forall|m: int| 0 <= m < services@.len() ==> services@[m].service_name@ != name@,
        r matches Err(e) ==> e == ServiceOpenError::DoesNotExist || exists|i: int| {
            &&& 0 <= i < services@.len()
            &&& services@[i].service_name@ == name@
            &&& forall|m: int| 0 <= m < i ==> services@[m].service_name@ != name@
            &&& spec_check_open(services@[i].messaging_pattern, *requested) == Err::<(), _>(e)
        },
{
    let mut i: usize = 0;
    while i < services.len()
        invariant
            i <= services@.len(),
            forall|m: int| 0 <= m < i ==> services@[m].service_name@ != name@,
        decreases services@.len() - i,
    {
        if services[i].service_name.equals(name) {
            return match check_open(&services[i], requested) {
                Ok(()) => Ok(i),
                Err(e) => {
                    assert(e != ServiceOpenError::DoesNotExist);
                    Err(e)
                },
            };
        }
        i = i + 1;
    }
    Err(ServiceOpenError::DoesNotExist)
}

/// How many times open-or-create tries before it gives up.
pub const MAX_OPEN_OR_CREATE_ATTEMPTS: usize = 8;

/// What the last step of open-or-create found.
#[derive(Debug, Clone, Copy, PartialEq, Eq, Hash, Structural)]
pub enum OpenOrCreateOutcome {
    /// Nothing was tried yet.
    Start,
    /// Opening failed.
    OpenFailed(ServiceOpenError),
    /// Creating failed.
    CreateFailed(ServiceCreateError),
}

/// What open-or-create does next.
#[derive(Debug, Clone, Copy, PartialEq, Eq, Hash, Structural)]
pub enum OpenOrCreateAction {
    Open,
    Create,
    FailOpen(ServiceOpenError),
    FailCreate(ServiceCreateError),
}

/// Open-or-create first opens; where the service does not exist it creates;
/// where another process created it meanwhile it opens again. After
/// `MAX_OPEN_OR_CREATE_ATTEMPTS` attempts it gives up: the service is in a
/// corrupted state. Every other failure ends it.
pub open spec fn spec_open_or_create_next(attempt: usize, last: OpenOrCreateOutcome) -> OpenOrCreateAction {
    match last {
        OpenOrCreateOutcome::Start => OpenOrCreateAction::Open,
        OpenOrCreateOutcome::OpenFailed(ServiceOpenError::DoesNotExist) => if attempt < MAX_OPEN_OR_CREATE_ATTEMPTS {
            OpenOrCreateAction::Create
        } else {
            OpenOrCreateAction::FailOpen(ServiceOpenError::ServiceInCorruptedState)
        },
        OpenOrCreateOutcome::OpenFailed(e) => OpenOrCreateAction::FailOpen(e),
        OpenOrCreateOutcome::CreateFailed(ServiceCreateError::AlreadyExists) => if attempt < MAX_OPEN_OR_CREATE_ATTEMPTS {
            OpenOrCreateAction::Open
        } else {
            OpenOrCreateAction::FailOpen(ServiceOpenError::ServiceInCorruptedState)
        },
        OpenOrCreateOutcome::CreateFailed(e) => OpenOrCreateAction::FailCreate(e),
    }
}

/// Decides the next step of open-or-create after `attempt` attempts.
pub fn open_or_create_next(attempt: usize, last: OpenOrCreateOutcome) -> (r: OpenOrCreateAction)
    ensures
        r == spec_open_or_create_next(attempt, last),
{
    match last {
        OpenOrCreateOutcome::Start => OpenOrCreateAction::Open,
        OpenOrCreateOutcome::OpenFailed(ServiceOpenError::DoesNotExist) => if attempt < MAX_OPEN_OR_CREATE_ATTEMPTS {
            OpenOrCreateAction::Create
        } else {
            OpenOrCreateAction::FailOpen(ServiceOpenError::ServiceInCorruptedState)
        },
        OpenOrCreateOutcome::OpenFailed(e) => OpenOrCreateAction::FailOpen(e),
        OpenOrCreateOutcome::CreateFailed(ServiceCreateError::AlreadyExists) => if attempt < MAX_OPEN_OR_CREATE_ATTEMPTS {
            OpenOrCreateAction::Open
        } else {
            OpenOrCreateAction::FailOpen(ServiceOpenError::ServiceInCorruptedState)
        },
        OpenOrCreateOutcome::CreateFailed(e) => OpenOrCreateAction::FailCreate(e),
    }
}

/// The most ports of the first and of the second kind that a service with
/// this messaging pattern supports: publishers and subscribers, or notifiers
/// and listeners.
pub open spec fn spec_port_limits(pattern: MessagingPattern) -> (usize, usize) {
    match pattern {
        MessagingPattern::PublishSubscribe(c) => (c.max_publishers, c.max_subscribers),
        MessagingPattern::Event(c) => (c.max_notifiers, c.max_listeners),
    }
}

/// Creates the state of a new service named `name`: its static configuration,
/// whose uuid is the hash of the name, and its dynamic configuration with one
/// open handle and room for the ports that the pattern supports.
pub fn create_service(name: &ServiceName, messaging_pattern: MessagingPattern) -> (r: (ServiceState, DynamicConfig))
    ensures
        r.0.spec_static_config().uuid@ == service_uuid(name@),
        r.0.spec_static_config().service_name@ == name@,
        r.0.spec_static_config().messaging_pattern == messaging_pattern,
        !r.0.spec_owns_artifacts(),
        r.1.wf(),
        r.1@ == 1,
        forall|kind: PortKind| #[trigger] r.1.ports(kind) == Seq::<u128>::empty(),
        r.1.max_ports(PortKind::Publisher) == spec_port_limits(messaging_pattern).0,
        r.1.max_ports(PortKind::Notifier) == spec_port_limits(messaging_pattern).0,
        r.1.max_ports(PortKind::Subscriber) == spec_port_limits(messaging_pattern).1,
        r.1.max_ports(PortKind::Listener) == spec_port_limits(messaging_pattern).1,
{
    let (first, second) = match &messaging_pattern {
        MessagingPattern::PublishSubscribe(c) => (c.max_publishers, c.max_subscribers),
        MessagingPattern::Event(c) => (c.max_notifiers, c.max_listeners),
    };
    let static_config = StaticConfig::new(name, messaging_pattern);
    (ServiceState::new(static_config), DynamicConfig::new(first, second))
}

/// Opens the existing service `existing` for an opener that asks for
/// `requested`: the request must be compatible, and the service must not be
/// on its way out. Registers the new handle in the reference counter.
pub fn open_service(existing: StaticConfig, requested: &MessagingPattern, dynamic_config: &mut DynamicConfig) -> (r: Result<ServiceState, ServiceOpenError>)
    ensures
        spec_check_open(existing.messaging_pattern, *requested) is Err ==> final(dynamic_config)@ == old(dynamic_config)@,
        spec_check_open(existing.messaging_pattern, *requested) matches Err(e) ==> (r matches Err(e2) && e2 == e),
        spec_check_open(existing.messaging_pattern, *requested) is Ok ==> final(dynamic_config)@ == spec_increment(
            old(dynamic_config)@,
        ).0,
        spec_check_open(existing.messaging_pattern, *requested) is Ok && old(dynamic_config)@ == 0 ==> (r matches Err(
            ServiceOpenError::DoesNotExist,
        )),
        spec_check_open(existing.messaging_pattern, *requested) is Ok && old(dynamic_config)@ == u64::MAX ==> (r matches Err(
            ServiceOpenError::ServiceInCorruptedState,
        )),
        spec_check_open(existing.messaging_pattern, *requested) is Ok && 0 < old(dynamic_config)@ < u64::MAX ==> (r matches Ok(
            state,
        ) && state.spec_static_config() == existing && !state.spec_owns_artifacts()),
        final(dynamic_config).wf() == old(dynamic_config).wf(),
        forall|kind: PortKind| #[trigger] final(dynamic_config).ports(kind) == old(dynamic_config).ports(kind),
{
    if let Err(e) = check_open(&existing, requested) {
        return Err(e);
    }
    let before = dynamic_config.reference_counter();
    if !dynamic_config.increment_reference_counter() {
        if before == 0 {
            return Err(ServiceOpenError::DoesNotExist);
        }
        return Err(ServiceOpenError::ServiceInCorruptedState);
    }
    Ok(ServiceState::new(existing))
}

} // verus!
