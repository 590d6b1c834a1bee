//! The daemon: one versioned request/response facade over the contract
//! store and the two registries, with a cursor-numbered event stream.
use vstd::prelude::*;
use vstd::string::StringExecFns;
use crate::endpoints::{
    endpoint_claim_outcome, sorted_by_name, EndpointClaimResult, EndpointError, EndpointEvent,
    EndpointLease, EndpointRegistry,
};
use crate::lifecycle::{
    allowed_edge, initial_status, transition_outcome, AttentionTier, Contract, ContractEvent,
    ContractStatus,
};
use crate::resources::{claim_outcome, ClaimResult, ResourceEvent, ResourceKey, ResourceLease, ResourceRegistry};
use crate::store::{describe_sqlite_error, SqliteContractStore, StoreError};

verus! {

#[verifier::external_type_specification]
#[verifier::external_body]
#[verifier::reject_recursive_types(T)]
pub struct ExSender<T>(std::sync::mpsc::Sender<T>);

#[verifier::external_type_specification]
#[verifier::external_body]
#[verifier::reject_recursive_types(T)]
pub struct ExReceiver<T>(std::sync::mpsc::Receiver<T>);

/// The version every response carries.
pub const API_VERSION: &'static str = "v1";

/// A response wrapped with the API version.
#[derive(Debug, Clone, PartialEq, Eq)]
pub struct ApiEnvelope<T> {
    pub version: &'static str,
    pub data: T,
}

#[derive(Debug, Clone, PartialEq, Eq)]
pub enum ApiRequest {
    Health,
    CreateContract { id: String, blocked_by: Vec<String> },
    ListContracts,
    AttentionStatus,
    TransitionContract { id: String, to: ContractStatus },
    GetContract { id: String },
    ClaimResource { resource: ResourceKey, owner: String },
    ClaimEndpoint { name: String, owner: String, port: Option<u16> },
    ListEndpoints,
    ReleaseEndpoint { name: String, owner: String },
}

#[derive(Debug, Clone, PartialEq, Eq)]
pub enum ApiResponse {
    Health { status: String },
    ContractState(Contract),
    Contracts(Vec<Contract>),
    Attention(AttentionCounts),
    ResourceClaim(ClaimResult),
    EndpointClaim(EndpointClaimResult),
    Endpoints(Vec<EndpointLease>),
    EndpointReleased(EndpointLease),
}

/// How many contracts sit in each attention tier.
#[derive(Debug, Clone, Copy, PartialEq, Eq, Structural)]
pub struct AttentionCounts {
    pub needs_decision: usize,
    pub anomaly: usize,
    pub completed: usize,
    pub running: usize,
    pub queued: usize,
}

/// The counts of the five attention tiers, one per list.
pub fn counts_from_tiers(
    needs_decision: &Vec<Contract>,
    anomaly: &Vec<Contract>,
    completed: &Vec<Contract>,
    running: &Vec<Contract>,
    queued: &Vec<Contract>,
) -> (r: AttentionCounts)
    ensures
        r.needs_decision == needs_decision@.len(),
        r.anomaly == anomaly@.len(),
        r.completed == completed@.len(),
        r.running == running@.len(),
        r.queued == queued@.len(),
{
    AttentionCounts {
        needs_decision: needs_decision.len(),
        anomaly: anomaly.len(),
        completed: completed.len(),
        running: running.len(),
        queued: queued.len(),
    }
}

/// A typed error: a stable code and a readable message.
#[derive(Debug, Clone, PartialEq, Eq)]
pub struct ApiError {
    pub code: &'static str,
    pub message: String,
}

#[derive(Debug, Clone, PartialEq, Eq)]
pub struct DaemonEvent {
    pub cursor: u64,
    pub kind: DaemonEventKind,
}

#[derive(Debug, Clone, PartialEq, Eq)]
pub enum DaemonEventKind {
    ContractCreated { id: String },
    ContractTransitioned { id: String, from: ContractStatus, to: ContractStatus },
    ResourceConflictEscalated {
        resource: ResourceKey,
        requested_by: String,
        held_by: String,
        reason: &'static str,
    },
    EndpointRangeExhausted { name: String, owner: String, requested_port: u16, reason: &'static str },
}

impl ApiError {
    pub fn not_found(message: String) -> (r: ApiError)
        ensures
            r.code@ == "not_found"@,
            r.message == message,
    {
        ApiError { code: "not_found", message }
    }

    pub fn invalid_transition(message: String) -> (r: ApiError)
        ensures
            r.code@ == "invalid_transition"@,
            r.message == message,
    {
        ApiError { code: "invalid_transition", message }
    }

    pub fn storage(message: String) -> (r: ApiError)
        ensures
            r.code@ == "storage_error"@,
            r.message == message,
    {
        ApiError { code: "storage_error", message }
    }

    pub fn not_owner(message: String) -> (r: ApiError)
        ensures
            r.code@ == "not_owner"@,
            r.message == message,
    {
        ApiError { code: "not_owner", message }
    }
}

impl DaemonEventKind {
    /// A copy with equal fields.
    pub fn duplicate(&self) -> (r: DaemonEventKind)
        ensures
            r == *self,
    {
        match self {
            DaemonEventKind::ContractCreated { id } => DaemonEventKind::ContractCreated { id: id.clone() },
            DaemonEventKind::ContractTransitioned { id, from, to } => DaemonEventKind::ContractTransitioned {
                id: id.clone(),
                from: *from,
                to: *to,
            },
            DaemonEventKind::ResourceConflictEscalated { resource, requested_by, held_by, reason } =>
                DaemonEventKind::ResourceConflictEscalated {
                resource: *resource,
                requested_by: requested_by.clone(),
                held_by: held_by.clone(),
                reason: *reason,
            },
            DaemonEventKind::EndpointRangeExhausted { name, owner, requested_port, reason } =>
                DaemonEventKind::EndpointRangeExhausted {
                name: name.clone(),
                owner: owner.clone(),
                requested_port: *requested_port,
                reason: *reason,
            },
        }
    }
}

impl DaemonEvent {
    /// A copy with equal fields.
    pub fn duplicate(&self) -> (r: DaemonEvent)
        ensures
            r == *self,
    {
        DaemonEvent { cursor: self.cursor, kind: self.kind.duplicate() }
    }
}

/// The published events, with cursors 1, 2, ... in order.
pub open spec fn numbered(history: Seq<DaemonEvent>) -> bool {
    forall|i: int| 0 <= i < history.len() ==> (#[trigger] history[i]).cursor == i + 1
}

/// The cursor counter and the history of published events.
pub struct EventBus {
    next_cursor: u64,
    history: Vec<DaemonEvent>,
}

impl EventBus {
    pub open spec fn wf(&self) -> bool {
        &&& numbered(self.events())
        &&& self.cursor() == self.events().len()
    }

    /// The cursor of the latest published event, 0 before the first.
    pub closed spec fn cursor(&self) -> u64 {
        self.next_cursor
    }

    pub closed spec fn events(&self) -> Seq<DaemonEvent> {
        self.history@
    }

    pub fn new() -> (r: EventBus)
        ensures
            r.wf(),
            r.cursor() == 0,
            r.events() == Seq::<DaemonEvent>::empty(),
    {
        EventBus { next_cursor: 0, history: Vec::new() }
    }

    /// Whether another event can still be numbered.
    pub fn has_room(&self) -> (r: bool)
        ensures
            r == (self.cursor() < u64::MAX),
    {
        self.next_cursor < u64::MAX
    }

    /// Numbers an event with the next cursor and appends it to the history.
    pub fn publish(&mut self, kind: DaemonEventKind) -> (r: DaemonEvent)
        requires
            old(self).wf(),
            old(self).cursor() < u64::MAX,
        ensures
            final(self).wf(),
            final(self).cursor() == old(self).cursor() + 1,
            r == (DaemonEvent { cursor: final(self).cursor(), kind }),
            final(self).events() == old(self).events().push(r),
    {
        self.next_cursor = self.next_cursor + 1;
        let event = DaemonEvent { cursor: self.next_cursor, kind };
        self.history.push(event.duplicate());
        event
    }

    /// The events with a cursor strictly greater than `cursor`, in order.
    pub fn replay_from(&self, cursor: u64) -> (r: Vec<DaemonEvent>)
        requires
            self.wf(),
        ensures
            r@ == (if cursor < self.events().len() {
                self.events().subrange(cursor as int, self.events().len() as int)
            } else {
                Seq::<DaemonEvent>::empty()
            }),
    {
        let mut out: Vec<DaemonEvent> = Vec::new();
        let mut i: usize = 0;
        let ghost all = self.history@;
        let ghost lo: int = if cursor < all.len() { cursor as int } else { all.len() as int };
        while i < self.history.len()
            invariant
                0 <= i <= all.len(),
                all == self.history@,
                numbered(all),
                lo == (if cursor < all.len() { cursor as int } else { all.len() as int }),
                out@ == (if i <= lo { Seq::<DaemonEvent>::empty() } else { all.subrange(lo, i as int) }),
            decreases all.len() - i,
        {
            if self.history[i].cursor > cursor {
                out.push(self.history[i].duplicate());
                proof {
                    assert(out@ =~= all.subrange(lo, i + 1));
                }
            }
            i = i + 1;
        }
        proof {
            if cursor < all.len() {
                assert(out@ =~= all.subrange(cursor as int, all.len() as int));
            }
        }
        out
    }
}

/// Relies on std's `mpsc::channel`: a connected sender and receiver.
#[verifier::external_body]
fn open_channel() -> (r: (std::sync::mpsc::Sender<DaemonEvent>, std::sync::mpsc::Receiver<DaemonEvent>)) {
    std::sync::mpsc::channel()
}

/// Relies on std's `Sender::send`: true when the receiver is still there.
#[verifier::external_body]
fn deliver(tx: &std::sync::mpsc::Sender<DaemonEvent>, event: DaemonEvent) -> (r: bool) {
    tx.send(event).is_ok()
}

/// The escalation a resource event becomes on the daemon's stream.
pub open spec fn resource_event_kind(e: ResourceEvent) -> DaemonEventKind {
    match e {
        ResourceEvent::ConflictEscalated { requested, requested_by, held_by, reason } =>
            DaemonEventKind::ResourceConflictEscalated { resource: requested, requested_by, held_by, reason },
    }
}

/// The exhaustion an endpoint event becomes on the daemon's stream.
pub open spec fn endpoint_event_kind(e: EndpointEvent) -> DaemonEventKind {
    match e {
        EndpointEvent::RangeExhausted { name, owner, requested_port, reason } =>
            DaemonEventKind::EndpointRangeExhausted { name, owner, requested_port, reason },
    }
}

/// `after` is `before` with events of the given kinds published in order.
pub open spec fn published(before: Seq<DaemonEvent>, kinds: Seq<DaemonEventKind>, after: Seq<DaemonEvent>) -> bool {
    &&& after.len() == before.len() + kinds.len()
    &&& after.subrange(0, before.len() as int) == before
    &&& forall|i: int| 0 <= i < kinds.len() ==> (#[trigger] after[before.len() + i]).kind == kinds[i]
}

fn resource_event_to_kind(e: ResourceEvent) -> (r: DaemonEventKind)
    ensures
        r == resource_event_kind(e),
{
    match e {
        ResourceEvent::ConflictEscalated { requested, requested_by, held_by, reason } =>
            DaemonEventKind::ResourceConflictEscalated { resource: requested, requested_by, held_by, reason },
    }
}

fn endpoint_event_to_kind(e: EndpointEvent) -> (r: DaemonEventKind)
    ensures
        r == endpoint_event_kind(e),
{
    match e {
        EndpointEvent::RangeExhausted { name, owner, requested_port, reason } =>
            DaemonEventKind::EndpointRangeExhausted { name, owner, requested_port, reason },
    }
}

fn storage_error(e: StoreError) -> (r: ApiError)
    ensures
        r.code@ == "storage_error"@,
{
    let message = match e {
        StoreError::Sqlite(inner) => describe_sqlite_error(&inner),
        StoreError::InvalidQuery => String::from_str("invalid query"),
        StoreError::NoRows => String::from_str("query returned no rows"),
        StoreError::Encoding => String::from_str("could not encode blocked_by"),
    };
    ApiError::storage(message)
}

fn contract_not_found(id: &str) -> (r: ApiError)
    ensures
        r.code@ == "not_found"@,
{
    let mut message = String::from_str("contract not found: ");
    message.append(id);
    ApiError::not_found(message)
}

pub struct Daemon {
    store: SqliteContractStore,
    resources: ResourceRegistry,
    endpoints: EndpointRegistry,
    bus: EventBus,
    subscribers: Vec<std::sync::mpsc::Sender<DaemonEvent>>,
}

impl Daemon {
    pub open spec fn wf(&self) -> bool {
        &&& self.resource_registry().wf()
        &&& self.endpoint_registry().wf()
        &&& self.event_bus().wf()
        &&& self.resource_registry().pending_events().len() == 0
        &&& self.endpoint_registry().pending_events().len() == 0
    }

    pub closed spec fn resource_registry(&self) -> ResourceRegistry {
        self.resources
    }

    pub closed spec fn endpoint_registry(&self) -> EndpointRegistry {
        self.endpoints
    }

    pub closed spec fn event_bus(&self) -> EventBus {
        self.bus
    }

    /// The cursor of the latest published event.
    pub open spec fn next_cursor(&self) -> u64 {
        self.event_bus().cursor()
    }

    pub open spec fn history(&self) -> Seq<DaemonEvent> {
        self.event_bus().events()
    }

    /// Opens a daemon over the database at `path` with the default ranges:
    /// resources 3000-4999, endpoints 4100-4999.
    pub fn new(path: &str) -> (r: Result<Daemon, ApiError>)
        ensures
            r matches Ok(d) ==> d.wf() && d.next_cursor() == 0 && d.resource_registry().range()
                == (3000u16, 4999u16) && d.endpoint_registry().range() == (4100u16, 4999u16)
                && d.resource_registry().lease_seq().len() == 0 && d.endpoint_registry().lease_seq().len() == 0,
            r matches Err(e) ==> e.code@ == "storage_error"@,
    {
        let store = match SqliteContractStore::open(path) {
            Ok(s) => s,
            Err(e) => {
                return Err(storage_error(e));
            },
        };
        Ok(Daemon {
            store,
            resources: ResourceRegistry::with_port_range(3000, 4999),
            endpoints: EndpointRegistry::with_port_range(4100, 4999),
            bus: EventBus::new(),
            subscribers: Vec::new(),
        })
    }

    /// Opens a daemon whose resource and endpoint ranges are both `[start, end]`.
    pub fn with_port_range(path: &str, start: u16, end: u16) -> (r: Result<Daemon, ApiError>)
        requires
            start <= end,
        ensures
            r matches Ok(d) ==> d.wf() && d.next_cursor() == 0 && d.resource_registry().range()
                == (start, end) && d.endpoint_registry().range() == (start, end)
                && d.resource_registry().lease_seq().len() == 0 && d.endpoint_registry().lease_seq().len() == 0,
            r matches Err(e) ==> e.code@ == "storage_error"@,
    {
        let store = match SqliteContractStore::open(path) {
            Ok(s) => s,
            Err(e) => {
                return Err(storage_error(e));
            },
        };
        Ok(Daemon {
            store,
            resources: ResourceRegistry::with_port_range(start, end),
            endpoints: EndpointRegistry::with_port_range(start, end),
            bus: EventBus::new(),
            subscribers: Vec::new(),
        })
    }

    /// Loads persisted endpoint leases, replacing the ones held.
    pub fn import_endpoint_leases(&mut self, leases: Vec<EndpointLease>)
        requires
            old(self).wf(),
        ensures
            final(self).wf(),
            crate::endpoints::endpoint_import_outcome(old(self).endpoint_registry(), leases@, final(self).endpoint_registry()),
            final(self).resource_registry() == old(self).resource_registry(),
            final(self).event_bus() == old(self).event_bus(),
    {
        self.endpoints.import_leases(leases);
    }

    /// The endpoint leases to persist, in name order.
    pub fn export_endpoint_leases(&self) -> (r: Vec<EndpointLease>)
        ensures
            r@.to_multiset() == self.endpoint_registry().lease_seq().to_multiset(),
            sorted_by_name(r@),
    {
        self.endpoints.export_leases()
    }

    /// Loads persisted resource leases, replacing the ones held.
    pub fn import_resource_leases(&mut self, leases: Vec<ResourceLease>)
        requires
            old(self).wf(),
        ensures
            final(self).wf(),
            crate::resources::resource_import_outcome(old(self).resource_registry(), leases@, final(self).resource_registry()),
            final(self).endpoint_registry() == old(self).endpoint_registry(),
            final(self).event_bus() == old(self).event_bus(),
    {
        self.resources.import_leases(leases);
    }

    /// The resource leases to persist.
    pub fn export_resource_leases(&self) -> (r: Vec<ResourceLease>)
        ensures
            r@ == self.resource_registry().lease_seq(),
    {
        self.resources.export_leases()
    }

    /// Registers a new subscriber; it receives every event published from now on.
    pub fn subscribe(&mut self) -> (r: std::sync::mpsc::Receiver<DaemonEvent>)
        ensures
            final(self).resource_registry() == old(self).resource_registry(),
            final(self).endpoint_registry() == old(self).endpoint_registry(),
            final(self).event_bus() == old(self).event_bus(),
    {
        let (tx, rx) = open_channel();
        self.subscribers.push(tx);
        rx
    }

    /// The published events whose cursor is strictly greater than `cursor`.
    pub fn replay_from(&self, cursor: u64) -> (r: Vec<DaemonEvent>)
        requires
            self.wf(),
        ensures
            r@ == (if cursor < self.history().len() {
                self.history().subrange(cursor as int, self.history().len() as int)
            } else {
                Seq::<DaemonEvent>::empty()
            }),
    {
        self.bus.replay_from(cursor)
    }

    /// Numbers and records an event, then offers it to every subscriber,
    /// dropping those that have gone away.
    fn publish(&mut self, kind: DaemonEventKind)
        requires
            old(self).wf(),
            old(self).next_cursor() < u64::MAX,
        ensures
            final(self).wf(),
            final(self).next_cursor() == old(self).next_cursor() + 1,
            final(self).history() == old(self).history().push(DaemonEvent { cursor: final(self).next_cursor(), kind }),
            final(self).resource_registry() == old(self).resource_registry(),
            final(self).endpoint_registry() == old(self).endpoint_registry(),
    {
        let event = self.bus.publish(kind);
        let mut kept: Vec<std::sync::mpsc::Sender<DaemonEvent>> = Vec::new();
        let mut senders = Vec::new();
        std::mem::swap(&mut senders, &mut self.subscribers);
        let ghost bus = self.bus;
        while senders.len() > 0
            invariant
                self.bus == bus,
                self.resources == old(self).resources,
                self.endpoints == old(self).endpoints,
            decreases senders@.len(),
        {
            let tx = senders.remove(0);
            if deliver(&tx, event.duplicate()) {
                kept.push(tx);
            }
        }
        self.subscribers = kept;
    }
}

/// Only the event stream may have changed.
pub open spec fn registries_unchanged(before: Daemon, after: Daemon) -> bool {
    &&& after.resource_registry() == before.resource_registry()
    &&& after.endpoint_registry() == before.endpoint_registry()
}

/// Nothing the daemon holds in memory changed.
pub open spec fn unchanged(before: Daemon, after: Daemon) -> bool {
    &&& registries_unchanged(before, after)
    &&& after.event_bus() == before.event_bus()
}

/// `after` published exactly one more event, of kind `kind`.
pub open spec fn published_one(before: Daemon, after: Daemon, kind: DaemonEventKind) -> bool {
    &&& after.next_cursor() == before.next_cursor() + 1
    &&& after.history() == before.history().push(DaemonEvent { cursor: after.next_cursor(), kind })
}

/// What CreateContract does.
pub open spec fn create_outcome(
    before: Daemon,
    id: String,
    blocked_by: Vec<String>,
    after: Daemon,
    r: Result<ApiResponse, ApiError>,
) -> bool {
    &&& registries_unchanged(before, after)
    &&& r matches Ok(data) ==> data == ApiResponse::ContractState(
        Contract { id, status: initial_status(blocked_by@), blocked_by },
    ) && published_one(before, after, DaemonEventKind::ContractCreated { id })
    &&& r matches Err(e) ==> after.event_bus() == before.event_bus() && e.code@ == "storage_error"@
    &&& before.next_cursor() == u64::MAX ==> (r matches Err(e) && e.code@ == "storage_error"@
        && unchanged(before, after))
}

/// What TransitionContract does.
pub open spec fn transition_request_outcome(
    before: Daemon,
    id: Seq<char>,
    to: ContractStatus,
    after: Daemon,
    r: Result<ApiResponse, ApiError>,
) -> bool {
    &&& registries_unchanged(before, after)
    &&& r matches Ok(data) ==> (data matches ApiResponse::ContractState(c) && c.status == to
        && c.id@ == id && exists|from: ContractStatus|
        allowed_edge(from, to) && published_one(
            before,
            after,
            DaemonEventKind::ContractTransitioned { id: c.id, from, to },
        ))
    &&& r matches Err(e) ==> after.event_bus() == before.event_bus() && (e.code@ == "not_found"@
        || e.code@ == "invalid_transition"@ || e.code@ == "storage_error"@)
    &&& before.next_cursor() == u64::MAX ==> (r matches Err(e) && e.code@ == "storage_error"@
        && unchanged(before, after))
}

/// `after` published one event for each of `kinds`, in order.
pub open spec fn published_all(before: Daemon, after: Daemon, kinds: Seq<DaemonEventKind>) -> bool {
    &&& after.next_cursor() == before.next_cursor() + kinds.len()
    &&& after.history().len() == before.history().len() + kinds.len()
    &&& after.history().subrange(0, before.history().len() as int) == before.history()
    &&& forall|i: int|
        0 <= i < kinds.len() ==> (#[trigger] after.history()[before.history().len() + i]).kind
            == kinds[i]
}

/// What ClaimResource does: the registry's claim, with any escalation it
/// raised published on the stream.
pub open spec fn claim_resource_outcome(
    before: Daemon,
    resource: ResourceKey,
    owner: Seq<char>,
    after: Daemon,
    r: Result<ApiResponse, ApiError>,
) -> bool {
    &&& after.endpoint_registry() == before.endpoint_registry()
    &&& r matches Ok(data) ==> (data matches ApiResponse::ResourceClaim(res) && exists|
        mid: ResourceRegistry,
    |
        claim_outcome(before.resource_registry(), resource, owner, mid, res)
            && after.resource_registry().lease_seq() == mid.lease_seq()
            && after.resource_registry().range() == mid.range() && published_all(
            before,
            after,
            mid.pending_events().map_values(|e: ResourceEvent| resource_event_kind(e)),
        ))
    &&& r matches Err(e) ==> unchanged(before, after) && e.code@ == "storage_error"@
    &&& before.next_cursor() < u64::MAX ==> r is Ok
}

/// What ClaimEndpoint does: the registry's claim, with any exhaustion it
/// raised published on the stream and reported as an
/// `endpoint_range_exhausted` error.
pub open spec fn claim_endpoint_outcome(
    before: Daemon,
    name: Seq<char>,
    owner: Seq<char>,
    port: Option<u16>,
    after: Daemon,
    r: Result<ApiResponse, ApiError>,
) -> bool {
    let exhausted = r matches Err(e) && e.code@ == "endpoint_range_exhausted"@;
    &&& after.resource_registry() == before.resource_registry()
    &&& (r is Ok || exhausted) ==> exists|mid: EndpointRegistry, res: EndpointClaimResult|
        endpoint_claim_outcome(before.endpoint_registry(), name, owner, port, mid, res)
            && after.endpoint_registry().lease_seq() == mid.lease_seq()
            && after.endpoint_registry().range() == mid.range() && published_all(
            before,
            after,
            mid.pending_events().map_values(|e: EndpointEvent| endpoint_event_kind(e)),
        ) && (exhausted <==> mid.pending_events().len() > 0) && (r matches Ok(data) ==> data
            == ApiResponse::EndpointClaim(res))
    &&& (r is Err && !exhausted) ==> unchanged(before, after) && (r matches Err(e) && e.code@
        == "storage_error"@)
    &&& before.next_cursor() < u64::MAX ==> (r is Ok || exhausted)
}

/// What ReleaseEndpoint does.
pub open spec fn release_endpoint_outcome(
    before: Daemon,
    name: Seq<char>,
    owner: Seq<char>,
    after: Daemon,
    r: Result<ApiResponse, ApiError>,
) -> bool {
    let m = before.endpoint_registry().lease_map();
    &&& after.resource_registry() == before.resource_registry()
    &&& after.event_bus() == before.event_bus()
    &&& !m.contains_key(name) ==> (r matches Err(e) && e.code@ == "not_found"@)
    &&& m.contains_key(name) && m[name].owner@ != owner ==> (r matches Err(e) && e.code@ == "not_owner"@)
    &&& m.contains_key(name) && m[name].owner@ == owner ==> r == Ok::<ApiResponse, ApiError>(
        ApiResponse::EndpointReleased(m[name]),
    ) && after.endpoint_registry().lease_map() == m.remove(name)
    &&& r is Err ==> after.endpoint_registry() == before.endpoint_registry()
}

/// What a request that only reads does.
pub open spec fn read_only(req: ApiRequest) -> bool {
    req is Health || req is ListContracts || req is AttentionStatus || req is GetContract
        || req is ListEndpoints
}

/// The response without its envelope.
pub open spec fn data_of(r: Result<ApiEnvelope<ApiResponse>, ApiError>) -> Result<ApiResponse, ApiError> {
    match r {
        Ok(env) => Ok(env.data),
        Err(e) => Err(e),
    }
}

fn cursor_exhausted() -> (r: ApiError)
    ensures
        r.code@ == "storage_error"@,
{
    ApiError::storage(String::from_str("event cursor exhausted"))
}

fn transition_message(from: ContractStatus, to: ContractStatus) -> (r: String) {
    let mut message = String::from_str("invalid transition from ");
    message.append(from.as_db_str());
    message.append(" to ");
    message.append(to.as_db_str());
    message
}

/// What a transition request decides on the snapshot that was loaded for
/// it: no snapshot is `not_found`, an edge the lifecycle forbids is
/// `invalid_transition`, and otherwise the contract moves and the event
/// records both ends.
pub fn plan_transition(loaded: Option<Contract>, id: &str, to: ContractStatus) -> (r: Result<
    (Contract, ContractEvent),
    ApiError,
>)
    ensures
        loaded is None ==> (r matches Err(e) && e.code@ == "not_found"@),
        loaded is Some && !allowed_edge(loaded->Some_0.status, to) ==> (r matches Err(e)
            && e.code@ == "invalid_transition"@),
        loaded is Some && allowed_edge(loaded->Some_0.status, to) ==> (r matches Ok(p)
            && transition_outcome(loaded->Some_0, p.0, to, Ok(p.1))),
{
    let mut contract = match loaded {
        Some(c) => c,
        None => {
            return Err(contract_not_found(id));
        },
    };
    let from = contract.status;
    match contract.transition_to(to) {
        Ok(event) => Ok((contract, event)),
        Err(_) => Err(ApiError::invalid_transition(transition_message(from, to))),
    }
}

impl Daemon {
    fn handle_create(&mut self, id: String, blocked_by: Vec<String>) -> (r: Result<ApiResponse, ApiError>)
        requires
            old(self).wf(),
        ensures
            final(self).wf(),
            create_outcome(*old(self), id, blocked_by, *final(self), r),
    {
        if !self.bus.has_room() {
            return Err(cursor_exhausted());
        }
        let status = if blocked_by.len() == 0 {
            ContractStatus::Ready
        } else {
            ContractStatus::Pending
        };
        let contract = Contract { id: id.clone(), status, blocked_by };
        if let Err(e) = self.store.save_contract(&contract) {
            return Err(storage_error(e));
        }
        self.publish(DaemonEventKind::ContractCreated { id });
        Ok(ApiResponse::ContractState(contract))
    }

    fn handle_transition(&mut self, id: String, to: ContractStatus) -> (r: Result<ApiResponse, ApiError>)
        requires
            old(self).wf(),
        ensures
            final(self).wf(),
            transition_request_outcome(*old(self), id@, to, *final(self), r),
    {
        if !self.bus.has_room() {
            return Err(cursor_exhausted());
        }
        let loaded = match self.store.load_contract(id.as_str()) {
            Ok(found) => found,
            Err(e) => {
                return Err(storage_error(e));
            },
        };
        let (contract, event) = plan_transition(loaded, id.as_str(), to)?;
        if let Err(e) = self.store.record_transition(&contract, &event) {
            return Err(storage_error(e));
        }
        self.publish(
            DaemonEventKind::ContractTransitioned { id: contract.id.clone(), from: event.from, to: event.to },
        );
        Ok(ApiResponse::ContractState(contract))
    }

    fn handle_claim_resource(&mut self, resource: ResourceKey, owner: String) -> (r: Result<
        ApiResponse,
        ApiError,
    >)
        requires
            old(self).wf(),
        ensures
            final(self).wf(),
            claim_resource_outcome(*old(self), resource, owner@, *final(self), r),
    {
        if !self.bus.has_room() {
            return Err(cursor_exhausted());
        }
        let res = self.resources.claim(resource, owner.as_str());
        let ghost mid = self.resources;
        let mut drained = self.resources.drain_events();
        let ghost before = *old(self);
        let ghost kinds = mid.pending_events().map_values(|e: ResourceEvent| resource_event_kind(e));
        assert(drained@.len() <= 1);
        if drained.len() > 0 {
            let e = drained.remove(0);
            self.publish(resource_event_to_kind(e));
            proof {
                assert(kinds =~= seq![resource_event_kind(mid.pending_events()[0])]);
                assert(self.history()[before.history().len() as int + 0] == self.history().last());
                assert(self.history().subrange(0, before.history().len() as int) =~= before.history());
            }
        } else {
            proof {
                assert(kinds =~= Seq::<DaemonEventKind>::empty());
                assert(self.history().subrange(0, before.history().len() as int) =~= before.history());
            }
        }
        assert(claim_outcome(before.resource_registry(), resource, owner@, mid, res));
        Ok(ApiResponse::ResourceClaim(res))
    }

    fn handle_claim_endpoint(&mut self, name: String, owner: String, port: Option<u16>) -> (r: Result<
        ApiResponse,
        ApiError,
    >)
        requires
            old(self).wf(),
        ensures
            final(self).wf(),
            claim_endpoint_outcome(*old(self), name@, owner@, port, *final(self), r),
    {
        proof {
            reveal_strlit("storage_error");
            reveal_strlit("endpoint_range_exhausted");
        }
        if !self.bus.has_room() {
            let e = cursor_exhausted();
            proof {
                assert(e.code@[0] != "endpoint_range_exhausted"@[0]);
            }
            return Err(e);
        }
        let res = self.endpoints.claim(name.as_str(), owner.as_str(), port);
        let ghost mid = self.endpoints;
        let mut drained = self.endpoints.drain_events();
        let ghost before = *old(self);
        let ghost kinds = mid.pending_events().map_values(|e: EndpointEvent| endpoint_event_kind(e));
        assert(drained@.len() <= 1);
        if drained.len() > 0 {
            let e = drained.remove(0);
            self.publish(endpoint_event_to_kind(e));
            proof {
                assert(kinds =~= seq![endpoint_event_kind(mid.pending_events()[0])]);
                assert(self.history()[before.history().len() as int + 0] == self.history().last());
                assert(self.history().subrange(0, before.history().len() as int) =~= before.history());
                assert(endpoint_claim_outcome(before.endpoint_registry(), name@, owner@, port, mid, res));
            }
            let mut message = String::from_str("no free endpoint port for ");
            message.append(name.as_str());
            proof {
                reveal_strlit("endpoint_range_exhausted");
            }
            return Err(ApiError { code: "endpoint_range_exhausted", message });
        } else {
            proof {
                assert(kinds =~= Seq::<DaemonEventKind>::empty());
                assert(self.history().subrange(0, before.history().len() as int) =~= before.history());
            }
        }
        assert(endpoint_claim_outcome(before.endpoint_registry(), name@, owner@, port, mid, res));
        Ok(ApiResponse::EndpointClaim(res))
    }

    fn handle_release_endpoint(&mut self, name: String, owner: String) -> (r: Result<
        ApiResponse,
        ApiError,
    >)
        requires
            old(self).wf(),
        ensures
            final(self).wf(),
            release_endpoint_outcome(*old(self), name@, owner@, *final(self), r),
    {
        match self.endpoints.release(name.as_str(), owner.as_str()) {
            Ok(lease) => Ok(ApiResponse::EndpointReleased(lease)),
            Err(EndpointError::NotFound { .. }) => {
                let mut message = String::from_str("endpoint not found: ");
                message.append(name.as_str());
                Err(ApiError::not_found(message))
            },
            Err(EndpointError::NotOwner { expected_owner, .. }) => {
                let mut message = String::from_str("endpoint is owned by ");
                message.append(expected_owner.as_str());
                Err(ApiError::not_owner(message))
            },
        }
    }

    fn attention_counts(&self) -> (r: Result<AttentionCounts, ApiError>)
        ensures
            r matches Err(e) ==> e.code@ == "storage_error"@,
    {
        let needs_decision_list = match self.store.list_by_attention_tier(AttentionTier::NeedsDecision) {
            Ok(cs) => cs,
            Err(e) => {
                return Err(storage_error(e));
            },
        };
        let anomaly_list = match self.store.list_by_attention_tier(AttentionTier::Anomaly) {
            Ok(cs) => cs,
            Err(e) => {
                return Err(storage_error(e));
            },
        };
        let completed_list = match self.store.list_by_attention_tier(AttentionTier::Completed) {
            Ok(cs) => cs,
            Err(e) => {
                return Err(storage_error(e));
            },
        };
        let running_list = match self.store.list_by_attention_tier(AttentionTier::Running) {
            Ok(cs) => cs,
            Err(e) => {
                return Err(storage_error(e));
            },
        };
        let queued_list = match self.store.list_by_attention_tier(AttentionTier::Queued) {
            Ok(cs) => cs,
            Err(e) => {
                return Err(storage_error(e));
            },
        };
        Ok(counts_from_tiers(&needs_decision_list, &anomaly_list, &completed_list, &running_list, &queued_list))
    }

    /// Handles one request and wraps the response in the versioned envelope.
    pub fn handle(&mut self, req: ApiRequest) -> (r: Result<ApiEnvelope<ApiResponse>, ApiError>)
        requires
            old(self).wf(),
        ensures
            final(self).wf(),
            r matches Ok(env) ==> env.version@ == "v1"@,
            read_only(req) ==> unchanged(*old(self), *final(self)),
            req is Health ==> (r matches Ok(env) && (env.data matches ApiResponse::Health { status }
                && status@ == "ok"@)),
            req is ListEndpoints ==> (r matches Ok(env) && (env.data matches ApiResponse::Endpoints(v)
                && v@.to_multiset() == old(self).endpoint_registry().lease_seq().to_multiset()
                && sorted_by_name(v@))),
            req matches ApiRequest::GetContract { id } ==> (r matches Ok(env) ==> (env.data matches ApiResponse::ContractState(c)
                && c.id@ == id@)),
            req is GetContract ==> (r matches Err(e) ==> (e.code@ == "not_found"@ || e.code@
                == "storage_error"@)),
            (req is ListContracts || req is AttentionStatus) ==> (r matches Err(e) ==> e.code@
                == "storage_error"@),
            req matches ApiRequest::CreateContract { id, blocked_by } ==> create_outcome(
                *old(self),
                id,
                blocked_by,
                *final(self),
                data_of(r),
            ),
            req matches ApiRequest::TransitionContract { id, to } ==> transition_request_outcome(
                *old(self),
                id@,
                to,
                *final(self),
                data_of(r),
            ),
            req matches ApiRequest::ClaimResource { resource, owner } ==> claim_resource_outcome(
                *old(self),
                resource,
                owner@,
                *final(self),
                data_of(r),
            ),
            req matches ApiRequest::ClaimEndpoint { name, owner, port } ==> claim_endpoint_outcome(
                *old(self),
                name@,
                owner@,
                port,
                *final(self),
                data_of(r),
            ),
            req matches ApiRequest::ReleaseEndpoint { name, owner } ==> release_endpoint_outcome(
                *old(self),
                name@,
                owner@,
                *final(self),
                data_of(r),
            ),
    {
        let data = match req {
            ApiRequest::Health => {
                proof {
                    reveal_strlit("ok");
                }
                ApiResponse::Health { status: String::from_str("ok") }
            },
            ApiRequest::CreateContract { id, blocked_by } => self.handle_create(id, blocked_by)?,
            ApiRequest::ListContracts => match self.store.list_contracts() {
                Ok(cs) => ApiResponse::Contracts(cs),
                Err(e) => {
                    return Err(storage_error(e));
                },
            },
            ApiRequest::AttentionStatus => ApiResponse::Attention(self.attention_counts()?),
            ApiRequest::TransitionContract { id, to } => self.handle_transition(id, to)?,
            ApiRequest::GetContract { id } => match self.store.load_contract(id.as_str()) {
                Ok(Some(c)) => ApiResponse::ContractState(c),
                Ok(None) => {
                    return Err(contract_not_found(id.as_str()));
                },
                Err(e) => {
                    return Err(storage_error(e));
                },
            },
            ApiRequest::ClaimResource { resource, owner } => self.handle_claim_resource(resource, owner)?,
            ApiRequest::ClaimEndpoint { name, owner, port } => self.handle_claim_endpoint(name, owner, port)?,
            ApiRequest::ListEndpoints => ApiResponse::Endpoints(self.endpoints.list()),
            ApiRequest::ReleaseEndpoint { name, owner } => self.handle_release_endpoint(name, owner)?,
        };
        Ok(ApiEnvelope { version: API_VERSION, data })
    }
}

/// A successful CreateContract or TransitionContract advances the cursor by
/// exactly one and publishes exactly one event.
pub proof fn lemma_contract_mutation_publishes_one(
    before: Daemon,
    req: ApiRequest,
    after: Daemon,
    data: ApiResponse,
)
    requires
        req matches ApiRequest::CreateContract { id, blocked_by } ==> create_outcome(
            before,
            id,
            blocked_by,
            after,
            Ok(data),
        ),
        req matches ApiRequest::TransitionContract { id, to } ==> transition_request_outcome(
            before,
            id@,
            to,
            after,
            Ok(data),
        ),
        req is CreateContract || req is TransitionContract,
    ensures
        after.next_cursor() == before.next_cursor() + 1,
        after.history().len() == before.history().len() + 1,
        after.history().drop_last() == before.history(),
{
    if req is CreateContract {
        assert(after.history().drop_last() =~= before.history());
    } else {
        let to = req->TransitionContract_to;
        let c = data->ContractState_0;
        let from = choose|from: ContractStatus|
            allowed_edge(from, to) && published_one(
                before,
                after,
                DaemonEventKind::ContractTransitioned { id: c.id, from, to },
            );
        assert(after.history().drop_last() =~= before.history());
    }
}

} // verus!
