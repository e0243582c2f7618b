//! Read-only Runtime snapshots and immutable committed transition records.

use crate::event::{
    DispatchOutcomeKind, EventOperation, ListenerMetaView, ListenerObservationMeta,
    ObservationRouting,
};
use crate::ids::{FiberId, ServicePublicationId};
use crate::service::ServiceRealm;
use crate::state::{FiberRole, FiberState};
use crate::text::views;
use vstd::prelude::*;

verus! {

/// Fiber residency transition kind.
#[derive(Clone, Copy, PartialEq, Eq, Structural, Debug)]
pub enum ResidencyChange {
    /// One ordinary Fiber became Registry-resident.
    Admitted,
    /// One ordinary Fiber completed exact Registry unlink.
    Removed,
}

/// Listener occurrence transition kind.
#[derive(Clone, Copy, PartialEq, Eq, Structural, Debug)]
pub enum ListenerChange {
    /// One exact listener occurrence committed registration.
    Registered,
    /// One exact listener occurrence committed unregistration.
    Unregistered,
}

/// One self-consistent Fiber record in a Runtime snapshot.
#[derive(Debug)]
pub struct FiberSnapshot {
    id: FiberId,
    role: FiberRole,
    name: String,
    state: FiberState,
    missing_services: Vec<String>,
}

/// A Fiber record as a mathematical value.
pub struct FiberSnapshotView {
    pub id: FiberId,
    pub role: FiberRole,
    pub name: Seq<char>,
    pub state: FiberState,
    pub missing_services: Seq<Seq<char>>,
}

impl View for FiberSnapshot {
    type V = FiberSnapshotView;

    closed spec fn view(&self) -> FiberSnapshotView {
        FiberSnapshotView {
            id: self.id,
            role: self.role,
            name: self.name@,
            state: self.state,
            missing_services: views(self.missing_services@),
        }
    }
}

impl FiberSnapshot {
    /// The record of one Fiber.
    pub fn new(
        id: FiberId,
        role: FiberRole,
        name: String,
        state: FiberState,
        missing_services: Vec<String>,
    ) -> (r: FiberSnapshot)
        ensures
            r@ == (FiberSnapshotView {
                id,
                role,
                name: name@,
                state,
                missing_services: views(missing_services@),
            }),
    {
        FiberSnapshot { id, role, name, state, missing_services }
    }

    /// Opaque correlation identity only; it grants no lookup or control power.
    pub fn id(&self) -> (r: &FiberId)
        ensures
            *r == self@.id,
    {
        &self.id
    }

    /// Root versus ordinary Runtime role.
    pub fn role(&self) -> (r: FiberRole)
        ensures
            r == self@.role,
    {
        self.role
    }

    /// Display name of the Fiber.
    pub fn name(&self) -> (r: &str)
        ensures
            r@ == self@.name,
    {
        self.name.as_str()
    }

    /// Lifecycle state captured for this record.
    pub fn state(&self) -> (r: FiberState)
        ensures
            r == self@.state,
    {
        self.state
    }

    /// Missing Service names for this captured Pending record.
    pub fn missing_services(&self) -> (r: &[String])
        ensures
            views(r@) == self@.missing_services,
    {
        self.missing_services.as_slice()
    }
}

/// One current occupied Service publication occurrence.
#[derive(Debug)]
pub struct ServiceSnapshot {
    id: ServicePublicationId,
    service: String,
    realm: ServiceRealm,
    provider: FiberId,
    visible: bool,
}

/// A publication record as a mathematical value.
pub struct ServiceSnapshotView {
    pub id: ServicePublicationId,
    pub service: Seq<char>,
    pub realm: ServiceRealm,
    pub provider: FiberId,
    pub visible: bool,
}

impl View for ServiceSnapshot {
    type V = ServiceSnapshotView;

    closed spec fn view(&self) -> ServiceSnapshotView {
        ServiceSnapshotView {
            id: self.id,
            service: self.service@,
            realm: self.realm,
            provider: self.provider,
            visible: self.visible,
        }
    }
}

impl ServiceSnapshot {
    /// The record of one occupied occurrence.
    pub fn new(
        id: ServicePublicationId,
        service: String,
        realm: ServiceRealm,
        provider: FiberId,
        visible: bool,
    ) -> (r: ServiceSnapshot)
        ensures
            r@ == (ServiceSnapshotView { id, service: service@, realm, provider, visible }),
    {
        ServiceSnapshot { id, service, realm, provider, visible }
    }

    /// Opaque correlation identity only; it grants no mutation authority.
    pub fn id(&self) -> (r: &ServicePublicationId)
        ensures
            *r == self@.id,
    {
        &self.id
    }

    /// Service contract name.
    pub fn service(&self) -> (r: &str)
        ensures
            r@ == self@.service,
    {
        self.service.as_str()
    }

    /// Exact Runtime-local Service realm.
    pub fn realm(&self) -> (r: &ServiceRealm)
        ensures
            *r == self@.realm,
    {
        &self.realm
    }

    /// Opaque provider Fiber correlation identity.
    pub fn provider(&self) -> (r: &FiberId)
        ensures
            *r == self@.provider,
    {
        &self.provider
    }

    /// Whether the occupied occurrence is currently lookup-visible.
    pub fn visible(&self) -> (r: bool)
        ensures
            r == self@.visible,
    {
        self.visible
    }
}

/// A flat read-only projection of one Runtime's current semantic state.
#[derive(Debug)]
pub struct RuntimeSnapshot {
    fibers: Vec<FiberSnapshot>,
    services: Vec<ServiceSnapshot>,
}

/// A snapshot as a mathematical value.
#[verifier::ext_equal]
pub struct SnapshotView {
    pub fibers: Seq<FiberSnapshotView>,
    pub services: Seq<ServiceSnapshotView>,
}

/// The views of a list of Fiber records.
pub open spec fn fiber_records(s: Seq<FiberSnapshot>) -> Seq<FiberSnapshotView> {
    s.map_values(|f: FiberSnapshot| f@)
}

/// The views of a list of publication records.
pub open spec fn service_records(s: Seq<ServiceSnapshot>) -> Seq<ServiceSnapshotView> {
    s.map_values(|f: ServiceSnapshot| f@)
}

impl View for RuntimeSnapshot {
    type V = SnapshotView;

    closed spec fn view(&self) -> SnapshotView {
        SnapshotView {
            fibers: fiber_records(self.fibers@),
            services: service_records(self.services@),
        }
    }
}

impl RuntimeSnapshot {
    /// The snapshot of two lists of records.
    pub fn new(fibers: Vec<FiberSnapshot>, services: Vec<ServiceSnapshot>) -> (r: RuntimeSnapshot)
        ensures
            r@ == (SnapshotView {
                fibers: fiber_records(fibers@),
                services: service_records(services@),
            }),
    {
        RuntimeSnapshot { fibers, services }
    }

    /// Current root plus Registry-resident ordinary Fibers.
    pub fn fibers(&self) -> (r: &[FiberSnapshot])
        ensures
            fiber_records(r@) == self@.fibers,
    {
        self.fibers.as_slice()
    }

    /// Current occupied Service publication occurrences.
    pub fn services(&self) -> (r: &[ServiceSnapshot])
        ensures
            service_records(r@) == self@.services,
    {
        self.services.as_slice()
    }
}

/// One immutable committed Runtime transition record.
#[allow(inconsistent_fields)]
pub enum RuntimeObservation {
    /// One ordinary Fiber entered or left Runtime residency.
    FiberResidency {
        /// Whether the occurrence was admitted or removed.
        change: ResidencyChange,
        /// Self-contained Fiber facts captured at the residency boundary.
        fiber: FiberSnapshot,
    },
    /// One Fiber lifecycle state transitioned.
    FiberState {
        /// Opaque Fiber correlation identity.
        fiber: FiberId,
        /// State before the committed transition.
        previous: FiberState,
        /// State after the committed transition.
        current: FiberState,
    },
    /// Visibility of one exact Service slot changed.
    ServiceVisibility {
        /// Service contract name.
        service: String,
        /// Exact Runtime-local Service realm.
        realm: ServiceRealm,
        /// Previously visible exact publication, if any.
        previous: Option<ServicePublicationId>,
        /// Currently visible exact publication, if any.
        current: Option<ServicePublicationId>,
    },
    /// One exact Event listener occurrence registered or unregistered.
    ListenerRegistration {
        /// Registration or unregistration transition.
        change: ListenerChange,
        /// The listener's correlation facts.
        listener: ListenerObservationMeta,
    },
    /// One primitive Event dispatch completed.
    DispatchCompleted {
        /// Primitive dispatch operation.
        operation: EventOperation,
        /// Semantic Event name.
        event: String,
        /// Correlation-only routing projection.
        routing: ObservationRouting,
        /// Semantic completion outcome.
        outcome: DispatchOutcomeKind,
    },
}

/// A record as a mathematical value.
#[allow(inconsistent_fields)]
pub enum ObservationView {
    FiberResidency { change: ResidencyChange, fiber: FiberSnapshotView },
    FiberState { fiber: FiberId, previous: FiberState, current: FiberState },
    ServiceVisibility {
        service: Seq<char>,
        realm: ServiceRealm,
        previous: Option<ServicePublicationId>,
        current: Option<ServicePublicationId>,
    },
    ListenerRegistration { change: ListenerChange, listener: ListenerMetaView },
    DispatchCompleted {
        operation: EventOperation,
        event: Seq<char>,
        routing: ObservationRouting,
        outcome: DispatchOutcomeKind,
    },
}

impl View for RuntimeObservation {
    type V = ObservationView;

    open spec fn view(&self) -> ObservationView {
        match self {
            RuntimeObservation::FiberResidency { change, fiber } => ObservationView::FiberResidency {
                change: *change,
                fiber: fiber@,
            },
            RuntimeObservation::FiberState { fiber, previous, current } => ObservationView::FiberState {
                fiber: *fiber,
                previous: *previous,
                current: *current,
            },
            RuntimeObservation::ServiceVisibility { service, realm, previous, current } =>
                ObservationView::ServiceVisibility {
                service: service@,
                realm: *realm,
                previous: *previous,
                current: *current,
            },
            RuntimeObservation::ListenerRegistration { change, listener } =>
                ObservationView::ListenerRegistration { change: *change, listener: listener@ },
            RuntimeObservation::DispatchCompleted { operation, event, routing, outcome } =>
                ObservationView::DispatchCompleted {
                operation: *operation,
                event: event@,
                routing: *routing,
                outcome: *outcome,
            },
        }
    }
}

/// One committed record and the observers that were registered when it was
/// published. Delivery is detached and best-effort.
pub struct Publication {
    /// The record.
    pub record: RuntimeObservation,
    /// The host's names for the observers to deliver it to.
    pub observers: Vec<u64>,
}

/// A publication as a mathematical value.
pub struct PublicationView {
    pub record: ObservationView,
    pub observers: Seq<u64>,
}

impl View for Publication {
    type V = PublicationView;

    open spec fn view(&self) -> PublicationView {
        PublicationView { record: self.record@, observers: self.observers@ }
    }
}

/// One registered observer.
#[derive(Clone, Copy, PartialEq, Eq, Structural, Debug)]
pub struct Observer {
    /// Cleanup key of the registration.
    pub id: u64,
    /// The host's name for the callback.
    pub callback: u64,
}

/// Whether an observer has another key.
pub open spec fn not_observer(id: u64) -> spec_fn(Observer) -> bool {
    |o: Observer| o.id != id
}

/// Registered observers and the records published for them.
pub struct ObservationHub {
    next_id: u64,
    observers: Vec<Observer>,
    published: Vec<Publication>,
}

/// The hub as a mathematical value.
#[verifier::ext_equal]
pub struct HubView {
    /// The last cleanup key issued.
    pub next_id: u64,
    /// The registered observers.
    pub observers: Seq<Observer>,
    /// The records published and not yet taken for delivery.
    pub published: Seq<PublicationView>,
}

impl View for ObservationHub {
    type V = HubView;

    closed spec fn view(&self) -> HubView {
        HubView {
            next_id: self.next_id,
            observers: self.observers@,
            published: self.published@.map_values(|p: Publication| p@),
        }
    }
}

impl HubView {
    /// A hub without observers.
    pub open spec fn empty() -> HubView {
        HubView { next_id: 0, observers: Seq::empty(), published: Seq::empty() }
    }

    /// The callbacks of the registered observers.
    pub open spec fn callbacks(self) -> Seq<u64> {
        self.observers.map_values(|o: Observer| o.callback)
    }

    /// The hub with one record more.
    pub open spec fn publishing(self, record: ObservationView) -> HubView {
        HubView {
            published: self.published.push(
                PublicationView { record, observers: self.callbacks() },
            ),
            ..self
        }
    }

    /// The hub with one observer more, under a fresh key.
    pub open spec fn observing(self, callback: u64) -> HubView {
        let id = (self.next_id + 1) as u64;
        HubView { next_id: id, observers: self.observers.push(Observer { id, callback }), ..self }
    }

    /// The hub without an observer.
    pub open spec fn unobserving(self, id: u64) -> HubView {
        HubView { observers: self.observers.filter(not_observer(id)), ..self }
    }
}

impl ObservationHub {
    /// A hub without observers.
    pub fn new() -> (r: ObservationHub)
        ensures
            r@ == HubView::empty(),
    {
        let r = ObservationHub { next_id: 0, observers: Vec::new(), published: Vec::new() };
        assert(r@ =~= HubView::empty());
        r
    }

    /// The last cleanup key issued.
    pub fn issued(&self) -> (r: u64)
        ensures
            r == self@.next_id,
    {
        self.next_id
    }

    /// Registers an observer under a fresh cleanup key.
    pub fn register(&mut self, callback: u64) -> (id: u64)
        requires
            old(self)@.next_id < u64::MAX,
        ensures
            id == old(self)@.next_id + 1,
            final(self)@ == old(self)@.observing(callback),
    {
        let id: u64 = self.next_id + 1;
        self.next_id = id;
        self.observers.push(Observer { id, callback });
        assert(self@.published =~= old(self)@.published);
        id
    }

    /// Removes the observer with this cleanup key.
    pub fn remove(&mut self, id: u64)
        ensures
            final(self)@ == old(self)@.unobserving(id),
    {
        let ghost all = self.observers@;
        let ghost p = not_observer(id);
        let mut kept: Vec<Observer> = Vec::new();
        let mut i: usize = 0;
        proof {
            assert(all.take(0) =~= Seq::empty());
            reveal(Seq::filter);
        }
        while i < self.observers.len()
            invariant
                i <= all.len(),
                all == self.observers@,
                *self == *old(self),
                p == not_observer(id),
                kept@ == all.take(i as int).filter(p),
            decreases all.len() - i,
        {
            proof {
                crate::seqs::lemma_filter_step(all, p, i as int);
            }
            if self.observers[i].id != id {
                kept.push(self.observers[i]);
            }
            i = i + 1;
        }
        assert(all.take(i as int) =~= all);
        self.observers = kept;
        assert(self@.published =~= old(self)@.published);
    }

    /// Publishes one committed record to the observers registered now.
    pub fn publish(&mut self, record: RuntimeObservation)
        ensures
            final(self)@ == old(self)@.publishing(record@),
    {
        let mut observers: Vec<u64> = Vec::new();
        let mut i: usize = 0;
        while i < self.observers.len()
            invariant
                i <= self.observers@.len(),
                *self == *old(self),
                observers@ == self@.callbacks().take(i as int),
            decreases self.observers@.len() - i,
        {
            observers.push(self.observers[i].callback);
            assert(observers@ =~= self@.callbacks().take(i + 1));
            i = i + 1;
        }
        assert(observers@ =~= self@.callbacks());
        let publication = Publication { record, observers };
        self.published.push(publication);
        assert(self@.published =~= old(self)@.published.push(publication@));
    }

    /// Takes the published records for delivery.
    pub fn take(&mut self) -> (r: Vec<Publication>)
        ensures
            r@.map_values(|p: Publication| p@) == old(self)@.published,
            final(self)@ == (HubView { published: Seq::empty(), ..old(self)@ }),
    {
        let mut out: Vec<Publication> = Vec::new();
        std::mem::swap(&mut out, &mut self.published);
        assert(self@.published =~= Seq::empty());
        out
    }
}

/// The diagnostic line for an observer that returned an error.
pub fn observer_failure_text(error: &str) -> (r: String)
    ensures
        r@ == "cordis: runtime observer failed: "@ + error@,
{
    crate::text::join2("cordis: runtime observer failed: ", error)
}

/// The diagnostic line for an observer that panicked.
pub fn observer_panic_text(payload: &str) -> (r: String)
    ensures
        r@ == "cordis: runtime observer panicked: "@ + payload@,
{
    crate::text::join2("cordis: runtime observer panicked: ", payload)
}

} // verus!
