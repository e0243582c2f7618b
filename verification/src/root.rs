//! Root: the state of one Runtime, the targets its Fibers settle against, and
//! the durable rechecks that Service drift commits.

use crate::context::{Context, ContextView};
use crate::deps::{
    any_common, edge_views, touches, DependencyEdge, DependencyIndex, EdgeView, IndexView,
};
use crate::event::{EventContract, ListenerOptions};
use crate::event_store::{EventStore, EventsView, Hook, HookKind, HookView};
use crate::fiber::{Fiber, FiberView};
use crate::ids::{FiberId, ListenerRegistrationId, RealmKey, ServiceOccurrenceId};
use crate::inertia::{
    assignment_views, target_view, Assignment, AssignmentView, SemanticTarget, TargetView,
};
use crate::logger::{LoggerService, LoggerView};
use crate::observation::{HubView, ObservationHub, ObservationView, RuntimeObservation};
use crate::registry::{Registry, RegistryView};
use crate::scope::{clone_layer, layer_chain, ScopeNode};
use crate::seqs::{lemma_filter_step, lemma_fold_step};
use crate::service::{ServiceRealm, ServiceStore, ServicesView, SlotView};
use crate::text::views;
use crate::update::{UpdateStore, UpdatesView};
use std::sync::Arc;
use vstd::prelude::*;

verus! {

/// The state of one Runtime: its Fibers and its stores.
pub struct Root {
    runtime: u64,
    executor: bool,
    next: u64,
    realm: u64,
    fibers: Vec<Fiber>,
    services: ServiceStore,
    events: EventStore,
    updates: UpdateStore,
    registry: Registry,
    deps: DependencyIndex,
    observations: ObservationHub,
    logger: LoggerService,
    passes: Vec<FiberId>,
}

/// A Runtime's state as a mathematical value.
#[verifier::ext_equal]
pub struct RootView {
    /// Identity of the Runtime.
    pub runtime: u64,
    /// Whether an executor is current for the caller.
    pub executor: bool,
    /// The next fresh identity.
    pub next: u64,
    /// The last realm key allocated.
    pub realm: u64,
    /// Every Fiber of the Runtime, by identity; the first is the root Fiber.
    pub fibers: Seq<FiberView>,
    pub services: ServicesView,
    pub events: EventsView,
    pub updates: UpdatesView,
    pub registry: RegistryView,
    pub deps: IndexView,
    pub hub: HubView,
    pub logger: LoggerView,
    /// The convergence passes handed to the executor and not started yet.
    pub passes: Seq<FiberId>,
}

/// The views of a list of Fibers.
pub open spec fn fiber_views(s: Seq<Fiber>) -> Seq<FiberView> {
    s.map_values(|f: Fiber| f@)
}

impl View for Root {
    type V = RootView;

    closed spec fn view(&self) -> RootView {
        RootView {
            runtime: self.runtime,
            executor: self.executor,
            next: self.next,
            realm: self.realm,
            fibers: fiber_views(self.fibers@),
            services: self.services@,
            events: self.events@,
            updates: self.updates@,
            registry: self.registry@,
            deps: self.deps@,
            hub: self.observations@,
            logger: self.logger@,
            passes: self.passes@,
        }
    }
}

impl RootView {
    /// A Runtime with nothing but its root Fiber.
    pub open spec fn fresh(runtime: u64) -> RootView {
        RootView {
            runtime,
            executor: false,
            next: 1,
            realm: 0,
            fibers: seq![FiberView::root()],
            services: ServicesView::empty(),
            events: EventsView::empty(),
            updates: UpdatesView::empty(),
            registry: RegistryView::empty(),
            deps: IndexView::empty(),
            hub: HubView::empty(),
            logger: LoggerView::empty(),
            passes: Seq::empty(),
        }
    }

    /// Whether the Runtime has the Fiber.
    pub open spec fn has(self, id: FiberId) -> bool {
        id.0 < self.fibers.len()
    }

    /// The Fiber with an identity.
    pub open spec fn fiber(self, id: FiberId) -> FiberView {
        self.fibers[id.0 as int]
    }

    /// The Runtime with another value for one Fiber.
    pub open spec fn with_fiber(self, id: FiberId, fiber: FiberView) -> RootView {
        RootView { fibers: self.fibers.update(id.0 as int, fiber), ..self }
    }

    /// Whether a Context belongs to the Runtime.
    pub open spec fn owns(self, ctx: ContextView) -> bool {
        ctx.runtime == self.runtime && self.has(ctx.fiber)
    }

    /// Whether the Fiber's generation is open to registrations.
    pub open spec fn admits(self, id: FiberId) -> bool {
        self.has(id) && self.fiber(id).admits()
    }

    /// Whether the Fiber lives.
    pub open spec fn lives(self, id: FiberId) -> bool {
        self.has(id) && self.fiber(id).alive
    }

    /// Every counter leaves room for `n` steps more.
    pub open spec fn room(self, n: nat) -> bool {
        &&& self.next + n <= u64::MAX
        &&& self.realm + n <= u64::MAX
        &&& self.hub.next_id + n <= u64::MAX
        &&& self.logger.exporter_sequence + n <= u64::MAX
        &&& forall|i: int| 0 <= i < self.fibers.len() ==> (#[trigger] self.fibers[i]).room(n)
    }

    /// Whether a slot's publication is lookup-visible.
    pub open spec fn is_visible(self, slot: SlotView) -> bool {
        self.has(slot.owner) && self.fiber(slot.owner).is_visible()
    }

    /// The visible publication of an exact slot.
    pub open spec fn occurrence(self, edge: EdgeView) -> Option<ServiceOccurrenceId> {
        match self.services.slot(edge) {
            Some(s) => if self.is_visible(s) {
                Some(s.occurrence)
            } else {
                None
            },
            None => None,
        }
    }

    /// What each of `edges` is assigned to now.
    pub open spec fn assignments(self, edges: Seq<EdgeView>) -> Seq<AssignmentView> {
        edges.map_values(
            |e: EdgeView| AssignmentView { edge: e, publication: self.occurrence(e) },
        )
    }

    /// The exact target a Fiber settles against now: its committed input and the
    /// current assignment of its dependency slots.
    pub open spec fn target(self, id: FiberId) -> Option<TargetView> {
        match self.fiber(id).spawn {
            Some(s) => Some(
                TargetView {
                    input: s.effective_input,
                    assignments: self.assignments(self.fiber(id).edges),
                },
            ),
            None => None,
        }
    }

    /// Whether an edge has no visible publication.
    pub open spec fn is_missing(self) -> spec_fn(EdgeView) -> bool {
        |e: EdgeView| self.occurrence(e) is None
    }

    /// The names of a Fiber's dependencies that are missing now.
    pub open spec fn missing(self, id: FiberId) -> Seq<Seq<char>> {
        self.fiber(id).edges.filter(self.is_missing()).map_values(|e: EdgeView| e.service)
    }

    /// Whether a resident Fiber lives and declares one of `edges`.
    pub open spec fn declares(self, edges: Seq<EdgeView>) -> spec_fn(FiberId) -> bool {
        |f: FiberId| self.lives(f) && touches(self.fiber(f).edges, edges)
    }

    /// The Fibers that depend on one of `edges`: by the projection while it is
    /// available, by the resident Fibers' own edges otherwise.
    pub open spec fn dependents(self, edges: Seq<EdgeView>) -> Seq<FiberId> {
        if self.deps.available {
            self.deps.hits(edges)
        } else {
            self.registry.residents.filter(self.declares(edges))
        }
    }

    /// The Runtime with one durable recheck committed for a Fiber.
    pub open spec fn recheck(self, id: FiberId) -> RootView {
        if self.has(id) {
            self.with_fiber(
                id,
                FiberView { slot: self.fiber(id).slot.rechecked(), ..self.fiber(id) },
            )
        } else {
            self
        }
    }

    /// The Runtime with one durable recheck committed for each Fiber.
    pub open spec fn recheck_all(self, ids: Seq<FiberId>) -> RootView {
        ids.fold_left(self, |r: RootView, id: FiberId| r.recheck(id))
    }

    /// The Runtime after a best-effort drive of a Fiber's outstanding recheck.
    pub open spec fn kick(self, id: FiberId) -> RootView {
        if !self.lives(id) {
            self
        } else {
            match self.target(id) {
                None => self,
                Some(live) => {
                    let slot = self.fiber(id).slot;
                    let driven = self.with_fiber(
                        id,
                        FiberView { slot: slot.kicked(self.executor, live), ..self.fiber(id) },
                    );
                    if slot.starts_pass(self.executor, live) {
                        RootView { passes: self.passes.push(id), ..driven }
                    } else {
                        driven
                    }
                },
            }
        }
    }

    /// The Runtime after a best-effort drive of each Fiber's outstanding recheck.
    pub open spec fn kick_all(self, ids: Seq<FiberId>) -> RootView {
        ids.fold_left(self, |r: RootView, id: FiberId| r.kick(id))
    }

    /// The Runtime with one record more for its observers.
    pub open spec fn observe(self, record: ObservationView) -> RootView {
        RootView { hub: self.hub.publishing(record), ..self }
    }

    /// A realm of this Runtime.
    pub open spec fn realm_of(self, key: RealmKey) -> ServiceRealm {
        ServiceRealm { membership: self.runtime, key }
    }

    /// What the counters are drawn from: none of a drive, a recheck or a record
    /// changes them.
    pub open spec fn same_counters(self, other: RootView) -> bool {
        &&& self.next == other.next
        &&& self.realm == other.realm
        &&& self.hub.next_id == other.hub.next_id
        &&& self.logger.exporter_sequence == other.logger.exporter_sequence
        &&& self.fibers.len() == other.fibers.len()
        &&& forall|i: int|
            0 <= i < self.fibers.len() ==> (#[trigger] self.fibers[i]).state
                == other.fibers[i].state && self.fibers[i].journal.sn == other.fibers[i].journal.sn
    }
}

broadcast proof fn lemma_update_views(s: Seq<Fiber>, i: int, f: Fiber)
    requires
        0 <= i < s.len(),
    ensures
        #[trigger] fiber_views(s.update(i, f)) == fiber_views(s).update(i, f@),
{
    assert(fiber_views(s.update(i, f)) =~= fiber_views(s).update(i, f@));
}

pub proof fn lemma_same_counters_room(a: RootView, b: RootView, n: nat)
    requires
        a.same_counters(b),
        a.room(n),
    ensures
        b.room(n),
{
    assert forall|i: int| 0 <= i < b.fibers.len() implies (#[trigger] b.fibers[i]).room(n) by {
        assert(a.fibers[i].room(n));
    }
}

pub proof fn lemma_recheck_counters(r: RootView, ids: Seq<FiberId>)
    ensures
        r.same_counters(r.recheck_all(ids)),
    decreases ids.len(),
{
    if ids.len() > 0 {
        lemma_recheck_counters(r, ids.drop_last());
        let m = r.recheck_all(ids.drop_last());
        assert(r.recheck_all(ids) == m.recheck(ids.last()));
    }
}

pub proof fn lemma_kick_counters(r: RootView, ids: Seq<FiberId>)
    ensures
        r.same_counters(r.kick_all(ids)),
    decreases ids.len(),
{
    if ids.len() > 0 {
        lemma_kick_counters(r, ids.drop_last());
        let m = r.kick_all(ids.drop_last());
        assert(r.kick_all(ids) == m.kick(ids.last()));
    }
}

impl Root {
    /// The listener lists are consistent and hold only identities issued before.
    pub closed spec fn wf(&self) -> bool {
        self.events.wf() && self.events.below(self.next)
    }

    /// A Runtime with nothing but its root Fiber.
    pub fn new(runtime: u64) -> (r: Root)
        ensures
            r.wf(),
            r@ == RootView::fresh(runtime),
    {
        let mut fibers: Vec<Fiber> = Vec::new();
        fibers.push(Fiber::root());
        let r = Root {
            runtime,
            executor: false,
            next: 1,
            realm: 0,
            fibers,
            services: ServiceStore::new(),
            events: EventStore::new(),
            updates: UpdateStore::new(),
            registry: Registry::new(),
            deps: DependencyIndex::new(),
            observations: ObservationHub::new(),
            logger: LoggerService::new(),
            passes: Vec::new(),
        };
        assert(r@.fibers =~= seq![FiberView::root()]);
        assert(r@.passes =~= Seq::empty());
        r
    }

    /// Identity of the Runtime.
    pub fn runtime(&self) -> (r: u64)
        ensures
            r == self@.runtime,
    {
        self.runtime
    }

    /// Whether an executor is current for the caller.
    pub fn executor(&self) -> (r: bool)
        ensures
            r == self@.executor,
    {
        self.executor
    }

    /// Says whether an executor is current for the calls that follow.
    pub fn set_executor(&mut self, available: bool)
        requires
            old(self).wf(),
        ensures
            final(self).wf(),
            final(self)@ == (RootView { executor: available, ..old(self)@ }),
    {
        self.executor = available;
    }

    /// Takes the convergence passes to start.
    pub fn take_passes(&mut self) -> (r: Vec<FiberId>)
        requires
            old(self).wf(),
        ensures
            final(self).wf(),
            r@ == old(self)@.passes,
            final(self)@ == (RootView { passes: Seq::empty(), ..old(self)@ }),
    {
        let mut out: Vec<FiberId> = Vec::new();
        std::mem::swap(&mut out, &mut self.passes);
        assert(self@.passes =~= Seq::empty());
        out
    }

    /// Whether every counter leaves room for `n` steps more.
    pub fn has_room(&self, n: u64) -> (r: bool)
        ensures
            r == self@.room(n as nat),
    {
        if self.next > u64::MAX - n || self.realm > u64::MAX - n {
            return false;
        }
        if self.observations.issued() > u64::MAX - n || self.logger.reserved() > u64::MAX - n {
            return false;
        }
        let mut i: usize = 0;
        while i < self.fibers.len()
            invariant
                i <= self.fibers@.len(),
                self@.next + n <= u64::MAX,
                self@.realm + n <= u64::MAX,
                self@.hub.next_id + n <= u64::MAX,
                self@.logger.exporter_sequence + n <= u64::MAX,
                forall|j: int| 0 <= j < i ==> (#[trigger] self@.fibers[j]).room(n as nat),
            decreases self.fibers@.len() - i,
        {
            assert(self@.fibers[i as int] == self.fibers@[i as int]@);
            if !self.fibers[i].has_room(n) {
                return false;
            }
            i = i + 1;
        }
        true
    }

    /// How many Fibers the Runtime has had.
    pub fn fiber_count(&self) -> (r: usize)
        ensures
            r == self@.fibers.len(),
    {
        self.fibers.len()
    }

    /// Whether the Runtime has the Fiber.
    pub fn has_fiber(&self, id: FiberId) -> (r: bool)
        ensures
            r == self@.has(id),
    {
        id.0 < self.fibers.len()
    }

    /// The Fiber with an identity.
    pub fn fiber(&self, id: FiberId) -> (r: &Fiber)
        requires
            self@.has(id),
        ensures
            r@ == self@.fiber(id),
    {
        &self.fibers[id.0]
    }

    /// The Fiber with an identity, for an update.
    pub fn fiber_mut(&mut self, id: FiberId) -> (r: &mut Fiber)
        requires
            old(self)@.has(id),
        ensures
            r@ == old(self)@.fiber(id),
            final(self)@ == old(self)@.with_fiber(id, final(r)@),
            old(self).wf() ==> final(self).wf(),
    {
        proof {
            broadcast use lemma_update_views;

        }
        &mut self.fibers[id.0]
    }

    /// Adds a Fiber and returns its identity.
    pub fn add_fiber(&mut self, fiber: Fiber) -> (id: FiberId)
        requires
            old(self).wf(),
        ensures
            final(self).wf(),
            id.0 == old(self)@.fibers.len(),
            final(self)@ == (RootView { fibers: old(self)@.fibers.push(fiber@), ..old(self)@ }),
    {
        let id = FiberId(self.fibers.len());
        self.fibers.push(fiber);
        assert(self@.fibers =~= old(self)@.fibers.push(fiber@));
        id
    }

    /// Issues a fresh identity.
    pub fn fresh(&mut self) -> (r: u64)
        requires
            old(self).wf(),
            old(self)@.next < u64::MAX,
        ensures
            final(self).wf(),
            r == old(self)@.next,
            final(self)@ == (RootView { next: (r + 1) as u64, ..old(self)@ }),
    {
        let id = self.next;
        self.next = self.next + 1;
        proof {
            self.events.lemma_below_more(id, self.next);
        }
        id
    }

    /// Registers a listener under a fresh identity and returns it.
    pub fn fresh_listener(
        &mut self,
        event: &String,
        contract: EventContract,
        scope: &Option<Arc<ScopeNode>>,
        options: ListenerOptions,
        kind: HookKind,
    ) -> (id: u64)
        requires
            old(self).wf(),
            old(self)@.next < u64::MAX,
            old(self)@.events.compatible(event@, contract),
        ensures
            final(self).wf(),
            id == old(self)@.next,
            final(self)@ == (RootView {
                next: (id + 1) as u64,
                events: old(self)@.events.binding(event@, contract).adding(
                    event@,
                    HookView {
                        id: ListenerRegistrationId(id),
                        scope: layer_chain(*scope),
                        options,
                        kind,
                    },
                ),
                ..old(self)@
            }),
    {
        let id = self.next;
        let hook = Hook {
            id: ListenerRegistrationId(id),
            scope: clone_layer(scope),
            options,
            kind,
        };
        let _ = self.events.add_reserved(event, contract, hook);
        self.next = id + 1;
        id
    }

    /// Allocates a realm key that no Service is placed in yet.
    pub fn next_realm_key(&mut self) -> (r: RealmKey)
        requires
            old(self).wf(),
            old(self)@.realm < u64::MAX,
        ensures
            final(self).wf(),
            r.0 == old(self)@.realm + 1,
            final(self)@ == (RootView { realm: r.0, ..old(self)@ }),
    {
        self.realm = self.realm + 1;
        RealmKey(self.realm)
    }

    /// The Service store.
    pub fn services(&self) -> (r: &ServiceStore)
        ensures
            r@ == self@.services,
    {
        &self.services
    }

    /// The Service store, for an update.
    pub fn services_mut(&mut self) -> (r: &mut ServiceStore)
        requires
            old(self).wf(),
        ensures
            r@ == old(self)@.services,
            final(self)@ == (RootView { services: final(r)@, ..old(self)@ }),
            final(self).wf(),
    {
        &mut self.services
    }

    /// The Event store.
    pub fn events(&self) -> (r: &EventStore)
        ensures
            r@ == self@.events,
    {
        &self.events
    }

    /// The Event store, for an update.
    pub fn events_mut(&mut self) -> (r: &mut EventStore)
        requires
            old(self).wf(),
        ensures
            r@ == old(self)@.events,
            r.wf(),
            r.below(old(self)@.next),
            final(self)@ == (RootView { events: final(r)@, ..old(self)@ }),
            final(r).wf() && final(r).below(old(self)@.next) ==> final(self).wf(),
    {
        &mut self.events
    }

    /// The update listeners.
    pub fn updates(&self) -> (r: &UpdateStore)
        ensures
            r@ == self@.updates,
    {
        &self.updates
    }

    /// The update listeners, for an update.
    pub fn updates_mut(&mut self) -> (r: &mut UpdateStore)
        requires
            old(self).wf(),
        ensures
            r@ == old(self)@.updates,
            final(self)@ == (RootView { updates: final(r)@, ..old(self)@ }),
            final(self).wf(),
    {
        &mut self.updates
    }

    /// The registry.
    pub fn registry(&self) -> (r: &Registry)
        ensures
            r@ == self@.registry,
    {
        &self.registry
    }

    /// The registry, for an update.
    pub fn registry_mut(&mut self) -> (r: &mut Registry)
        requires
            old(self).wf(),
        ensures
            r@ == old(self)@.registry,
            final(self)@ == (RootView { registry: final(r)@, ..old(self)@ }),
            final(self).wf(),
    {
        &mut self.registry
    }

    /// The dependency projection, for an update.
    pub fn deps_mut(&mut self) -> (r: &mut DependencyIndex)
        requires
            old(self).wf(),
        ensures
            r@ == old(self)@.deps,
            final(self)@ == (RootView { deps: final(r)@, ..old(self)@ }),
            final(self).wf(),
    {
        &mut self.deps
    }

    /// The observation hub, for an update.
    pub fn hub_mut(&mut self) -> (r: &mut ObservationHub)
        requires
            old(self).wf(),
        ensures
            r@ == old(self)@.hub,
            final(self)@ == (RootView { hub: final(r)@, ..old(self)@ }),
            final(self).wf(),
    {
        &mut self.observations
    }

    /// The logging state.
    pub fn logger(&self) -> (r: &LoggerService)
        ensures
            r@ == self@.logger,
    {
        &self.logger
    }

    /// The logging state, for an update.
    pub fn logger_mut(&mut self) -> (r: &mut LoggerService)
        requires
            old(self).wf(),
        ensures
            r@ == old(self)@.logger,
            final(self)@ == (RootView { logger: final(r)@, ..old(self)@ }),
            final(self).wf(),
    {
        &mut self.logger
    }

    /// Publishes one committed record.
    pub fn observe(&mut self, record: RuntimeObservation)
        requires
            old(self).wf(),
        ensures
            final(self).wf(),
            final(self)@ == old(self)@.observe(record@),
    {
        self.observations.publish(record);
    }

    /// Whether the Fiber's generation is open to registrations.
    pub fn admits(&self, id: FiberId) -> (r: bool)
        ensures
            r == self@.admits(id),
    {
        self.has_fiber(id) && self.fiber(id).can_register()
    }

    /// Whether the Fiber lives.
    pub fn lives(&self, id: FiberId) -> (r: bool)
        ensures
            r == self@.lives(id),
    {
        self.has_fiber(id) && self.fiber(id).alive
    }

    /// The visible publication of an exact slot.
    pub fn occurrence_id(&self, realm: RealmKey, service: &String) -> (r: Option<
        ServiceOccurrenceId,
    >)
        ensures
            r == self@.occurrence(EdgeView { service: service@, realm }),
    {
        match self.services.slot(realm, service) {
            Some(slot) => if self.has_fiber(slot.owner) && self.fiber(slot.owner).is_visible() {
                Some(slot.occurrence)
            } else {
                None
            },
            None => None,
        }
    }

    /// The exact target a Fiber settles against now.
    pub fn compute_target(&self, id: FiberId) -> (r: Option<SemanticTarget>)
        requires
            self@.has(id),
        ensures
            target_view(r) == self@.target(id),
    {
        let fiber = self.fiber(id);
        let input = match fiber.spawn_state.effective_input() {
            Ok(input) => input,
            Err(_) => {
                return None;
            },
        };
        let ghost edges = self@.fiber(id).edges;
        let ghost all = self@.assignments(edges);
        let mut rows: Vec<Assignment> = Vec::new();
        let mut i: usize = 0;
        while i < fiber.dependency_edges.len()
            invariant
                i <= fiber.dependency_edges@.len(),
                edges == edge_views(fiber.dependency_edges@),
                all == self@.assignments(edges),
                assignment_views(rows@) == all.take(i as int),
            decreases fiber.dependency_edges@.len() - i,
        {
            let edge = &fiber.dependency_edges[i];
            assert(edges[i as int] == edge@);
            let publication = self.occurrence_id(edge.realm, &edge.service);
            let row = Assignment { edge: edge.duplicate(), publication };
            assert(all[i as int] == row@);
            assert(assignment_views(rows@.push(row)) =~= assignment_views(rows@).push(row@));
            rows.push(row);
            assert(assignment_views(rows@) =~= all.take(i + 1));
            i = i + 1;
        }
        assert(assignment_views(rows@) =~= all);
        Some(SemanticTarget::new(input, rows))
    }

    /// The names of a Fiber's dependencies that are missing now.
    pub fn missing_from(&self, id: FiberId) -> (r: Vec<String>)
        requires
            self@.has(id),
        ensures
            views(r@) == self@.missing(id),
    {
        let fiber = self.fiber(id);
        let ghost edges = self@.fiber(id).edges;
        let ghost p = self@.is_missing();
        let mut out: Vec<String> = Vec::new();
        let mut i: usize = 0;
        proof {
            reveal(Seq::filter);
            assert(edges.take(0) =~= Seq::empty());
            assert(views(out@) =~= edges.take(0).filter(p).map_values(|e: EdgeView| e.service));
        }
        while i < fiber.dependency_edges.len()
            invariant
                i <= fiber.dependency_edges@.len(),
                edges == edge_views(fiber.dependency_edges@),
                p == self@.is_missing(),
                views(out@) == edges.take(i as int).filter(p).map_values(|e: EdgeView| e.service),
            decreases fiber.dependency_edges@.len() - i,
        {
            let edge = &fiber.dependency_edges[i];
            proof {
                assert(edges[i as int] == edge@);
                lemma_filter_step(edges, p, i as int);
            }
            let ghost kept = edges.take(i as int).filter(p);
            if self.occurrence_id(edge.realm, &edge.service).is_none() {
                let name = edge.service.clone();
                proof {
                    assert(views(out@.push(name)) =~= views(out@).push(name@));
                    assert(kept.push(edges[i as int]).map_values(|e: EdgeView| e.service)
                        =~= kept.map_values(|e: EdgeView| e.service).push(
                        edges[i as int].service,
                    ));
                }
                out.push(name);
            }
            i = i + 1;
        }
        assert(edges.take(i as int) =~= edges);
        out
    }

    /// The Fibers that depend on one of `edges`.
    pub fn dependents_for_edges(&self, edges: &Vec<DependencyEdge>) -> (r: Vec<FiberId>)
        ensures
            r@ == self@.dependents(edge_views(edges@)),
    {
        match self.deps.dependents_of(edges) {
            Some(indexed) => indexed,
            None => {
                let residents = self.registry.snapshot_fibers();
                let ghost p = self@.declares(edge_views(edges@));
                let mut out: Vec<FiberId> = Vec::new();
                let mut i: usize = 0;
                proof {
                    reveal(Seq::filter);
                    assert(residents@.take(0) =~= Seq::empty());
                }
                while i < residents.len()
                    invariant
                        i <= residents@.len(),
                        p == self@.declares(edge_views(edges@)),
                        out@ == residents@.take(i as int).filter(p),
                    decreases residents@.len() - i,
                {
                    proof {
                        lemma_filter_step(residents@, p, i as int);
                    }
                    let id = residents[i];
                    if self.lives(id) && any_common(&self.fiber(id).dependency_edges, edges) {
                        out.push(id);
                    }
                    i = i + 1;
                }
                assert(residents@.take(i as int) =~= residents@);
                out
            },
        }
    }

    /// Commits one durable recheck for each Fiber.
    pub fn commit_rechecks(&mut self, affected: &Vec<FiberId>)
        requires
            old(self).wf(),
        ensures
            final(self).wf(),
            final(self)@ == old(self)@.recheck_all(affected@),
    {
        let ghost step = |r: RootView, id: FiberId| r.recheck(id);
        let ghost start = self@;
        let mut i: usize = 0;
        while i < affected.len()
            invariant
                i <= affected@.len(),
                self.wf(),
                step == (|r: RootView, id: FiberId| r.recheck(id)),
                self@ == affected@.take(i as int).fold_left(start, step),
            decreases affected@.len() - i,
        {
            proof {
                lemma_fold_step(affected@, start, step, i as int);
            }
            let id = affected[i];
            if self.has_fiber(id) {
                self.fiber_mut(id).slot.commit_recheck();
            }
            i = i + 1;
        }
        assert(affected@.take(i as int) =~= affected@);
    }

    /// Drives a Fiber's outstanding recheck as far as the executor allows: keeps a
    /// releasing holder at work, or hands one convergence pass to the executor.
    pub fn kick(&mut self, id: FiberId)
        requires
            old(self).wf(),
        ensures
            final(self).wf(),
            final(self)@ == old(self)@.kick(id),
    {
        if !self.lives(id) {
            return ;
        }
        let live = match self.compute_target(id) {
            Some(live) => live,
            None => {
                return ;
            },
        };
        let executor = self.executor;
        let pass = self.fiber_mut(id).slot.kick(executor, &live);
        if pass {
            self.passes.push(id);
        }
    }

    /// Drives each Fiber's outstanding recheck.
    pub fn kick_all(&mut self, affected: &Vec<FiberId>)
        requires
            old(self).wf(),
        ensures
            final(self).wf(),
            final(self)@ == old(self)@.kick_all(affected@),
    {
        let ghost step = |r: RootView, id: FiberId| r.kick(id);
        let ghost start = self@;
        let mut i: usize = 0;
        while i < affected.len()
            invariant
                i <= affected@.len(),
                self.wf(),
                step == (|r: RootView, id: FiberId| r.kick(id)),
                self@ == affected@.take(i as int).fold_left(start, step),
            decreases affected@.len() - i,
        {
            proof {
                lemma_fold_step(affected@, start, step, i as int);
            }
            self.kick(affected[i]);
            i = i + 1;
        }
        assert(affected@.take(i as int) =~= affected@);
    }
}

impl Context {
    /// A fresh Runtime and its root Context. `runtime` is an identity no other
    /// Runtime has.
    pub fn new(runtime: u64) -> (r: (Context, Root))
        ensures
            r.0@ == ContextView::origin(runtime, FiberId(0)),
            r.1@ == RootView::fresh(runtime),
            r.1.wf(),
    {
        let ctx = Context {
            runtime,
            fiber: FiberId(0),
            isolate: None,
            scope: None,
            intercept: None,
        };
        (ctx, Root::new(runtime))
    }

    /// The root Context of this Context's Runtime.
    pub fn root(&self) -> (r: Context)
        ensures
            r@ == ContextView::origin(self@.runtime, FiberId(0)),
    {
        Context {
            runtime: self.runtime,
            fiber: FiberId(0),
            isolate: None,
            scope: None,
            intercept: None,
        }
    }

    /// Whether this Context belongs to `root`.
    pub fn belongs_to(&self, root: &Root) -> (r: bool)
        ensures
            r == root@.owns(self@),
    {
        self.runtime == root.runtime() && root.has_fiber(self.fiber)
    }

    /// Allocates a fresh Service realm.
    pub fn new_service_realm(&self, root: &mut Root) -> (r: ServiceRealm)
        requires
            old(root).wf(),
            old(root)@.realm < u64::MAX,
        ensures
            final(root).wf(),
            r.key.0 == old(root)@.realm + 1,
            r.membership == self@.runtime,
            final(root)@ == (RootView { realm: r.key.0, ..old(root)@ }),
    {
        let key = root.next_realm_key();
        ServiceRealm::new(self.runtime, key)
    }

    /// The view with `name` placed in a fresh realm of its own.
    pub fn with_isolated_service(&self, root: &mut Root, name: &str) -> (r: Context)
        requires
            old(root).wf(),
            old(root)@.realm < u64::MAX,
        ensures
            final(root).wf(),
            final(root)@ == (RootView { realm: (old(root)@.realm + 1) as u64, ..old(root)@ }),
            r@ == self@.placing(seq![(name@, RealmKey((old(root)@.realm + 1) as u64))]),
    {
        let key = root.next_realm_key();
        let mut map: Vec<(String, RealmKey)> = Vec::new();
        map.push((name.to_owned(), key));
        assert(crate::context::placement_rows(map@) =~= seq![(name@, key)]);
        self.derive_isolate(map)
    }

    /// The view at a fresh Scope node beneath the current position.
    pub fn with_child_scope(&self, root: &mut Root) -> (r: Context)
        requires
            old(root).wf(),
            old(root)@.next < u64::MAX,
        ensures
            final(root).wf(),
            final(root)@ == (RootView { next: (old(root)@.next + 1) as u64, ..old(root)@ }),
            r@ == self@.scoped(old(root)@.next),
    {
        let id = root.fresh();
        self.at_child_scope(id)
    }
}

/// A freshly allocated realm is none that was allocated before, and never the
/// default realm.
pub proof fn law_realm_keys_are_fresh(root: RootView, earlier: RealmKey)
    requires
        root.realm < u64::MAX,
        earlier.0 <= root.realm,
    ensures
        RealmKey((root.realm + 1) as u64) != earlier,
        RealmKey((root.realm + 1) as u64) != RealmKey::spec_default(),
{
}

/// While the projection lists the edges of exactly the living residents, it
/// answers as the fallback does.
pub proof fn law_the_projection_agrees_with_the_fallback(
    root: RootView,
    edges: Seq<EdgeView>,
    f: FiberId,
)
    requires
        forall|i: int|
            0 <= i < root.deps.rows.len() ==> root.lives((#[trigger] root.deps.rows[i]).fiber)
                && root.deps.rows[i].edges == root.fiber(root.deps.rows[i].fiber).edges
                && root.registry.residents.contains(root.deps.rows[i].fiber),
        forall|k: int|
            0 <= k < root.registry.residents.len() && root.lives(
                #[trigger] root.registry.residents[k],
            ) ==> exists|i: int|
                0 <= i < root.deps.rows.len() && (#[trigger] root.deps.rows[i]).fiber
                    == root.registry.residents[k],
    ensures
        root.deps.hits(edges).contains(f) <==> root.registry.residents.filter(
            root.declares(edges),
        ).contains(f),
{
    let rows = root.deps.rows;
    let hit = crate::deps::row_hit(edges);
    crate::seqs::lemma_filter_map_members(rows, hit, f);
    crate::seqs::lemma_filter_members(root.registry.residents, root.declares(edges), f);
    if root.registry.residents.contains(f) && root.declares(edges)(f) {
        let k = choose|k: int|
            0 <= k < root.registry.residents.len() && root.registry.residents[k] == f;
        let i = choose|i: int| 0 <= i < rows.len() && (#[trigger] rows[i]).fiber == f;
        assert(hit(rows[i]) == Some(f));
    }
    if exists|i: int| 0 <= i < rows.len() && hit(#[trigger] rows[i]) == Some(f) {
        let i = choose|i: int| 0 <= i < rows.len() && hit(#[trigger] rows[i]) == Some(f);
        assert(rows[i].fiber == f);
    }
}

} // verus!
