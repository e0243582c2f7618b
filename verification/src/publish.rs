//! Generation-owned registrations: Service publications, effects, tasks, Event
//! and update listeners, exporters and observers. Each commits its resource and
//! its cleanup together, and only into an open generation.

use crate::context::{Context, ContextView};
use crate::deps::{edge_views, DependencyEdge, EdgeView};
use crate::effect::{
    Cleanup, CleanupView, DisposableToken, EffectFailure, EffectRegistrationError,
    TaskRegistrationError,
};
use crate::event::{
    Event, EventContract, ListenerMetaView, ListenerObservationMeta, ListenerOptions,
    ListenerRegistrationError,
};
use crate::event_store::{HookKind, HookView};
use crate::fiber::FiberView;
use crate::ids::{
    ContractId, ExporterKey, FiberId, ListenerRegistrationId, RealmKey, ScopeId,
    ServiceOccurrenceId, ServicePublicationId,
};
use crate::logger::{hyphenated, Logger, LoggerView};
use crate::observation::{ListenerChange, ObservationView, RuntimeObservation};
use crate::root::{lemma_recheck_counters, Root, RootView};
use crate::scope::{clone_layer, ScopeView};
use crate::service::{
    Service, ServiceControlError, ServiceLookupError, ServicePublishError, ServiceRealm,
    ServiceSlot, SlotView, VisibilityView,
};
use crate::state::FiberState;
use crate::update::{UpdateHook, UpdateHookView, UpdateKind};
use vstd::prelude::*;

verus! {

/// What a publication attempt comes to.
pub enum PublishVerdict {
    /// The generation is closed.
    Inactive,
    /// The name is bound to another contract.
    Mismatch,
    /// The exact slot has a publication of a living owner.
    Duplicate,
    /// The publication commits.
    Publish,
}

/// What controlling a publication comes to.
pub enum ControlVerdict {
    /// The capability no longer names the current occurrence.
    Stale,
    /// The occurrence is current, but its generation is closed.
    Closed,
    /// The control commits.
    Commit,
}

impl RootView {
    /// The Runtime with one cleanup obligation more on a Fiber.
    pub open spec fn owing(self, id: FiberId, cleanup: CleanupView) -> RootView {
        self.with_fiber(
            id,
            FiberView { journal: self.fiber(id).journal.pushed(cleanup), ..self.fiber(id) },
        )
    }

    /// The Runtime with one cleanup obligation of a Fiber claimed.
    pub open spec fn claiming(self, id: FiberId, token: DisposableToken) -> RootView {
        if self.has(id) {
            self.with_fiber(
                id,
                FiberView { journal: self.fiber(id).journal.claimed(token), ..self.fiber(id) },
            )
        } else {
            self
        }
    }

    /// The obligation a token of a Fiber names, while the generation owns it.
    pub open spec fn obligation(self, id: FiberId, token: DisposableToken) -> Option<CleanupView> {
        if self.has(id) {
            self.fiber(id).journal.find(token)
        } else {
            None
        }
    }

    /// The exact slot a Context selects for `name`.
    pub open spec fn slot_of(self, ctx: ContextView, name: Seq<char>) -> EdgeView {
        EdgeView { service: name, realm: ctx.realm_of(name) }
    }

    /// What a publication attempt comes to. Admission is judged first, then the
    /// contract, then the occupant.
    pub open spec fn publish_verdict(
        self,
        ctx: ContextView,
        name: Seq<char>,
        contract: ContractId,
    ) -> PublishVerdict {
        if !self.admits(ctx.fiber) {
            PublishVerdict::Inactive
        } else if !self.services.compatible(name, contract) {
            PublishVerdict::Mismatch
        } else {
            match self.services.slot(self.slot_of(ctx, name)) {
                Some(s) => if self.lives(s.owner) {
                    PublishVerdict::Duplicate
                } else {
                    PublishVerdict::Publish
                },
                None => PublishVerdict::Publish,
            }
        }
    }

    /// The Fibers that a change in one exact slot owes a recheck: its dependents
    /// where the owner is active, nobody where the change is invisible.
    pub open spec fn slot_drift(self, owner: FiberId, edge: EdgeView) -> Seq<FiberId> {
        if self.fiber(owner).current() is Active {
            self.dependents(seq![edge])
        } else {
            Seq::empty()
        }
    }

    /// The slot a publication occupies.
    pub open spec fn published_slot(
        self,
        ctx: ContextView,
        name: Seq<char>,
        contract: ContractId,
        value: u64,
    ) -> SlotView {
        SlotView {
            realm: ctx.realm_of(name),
            service: name,
            occurrence: ServiceOccurrenceId(self.next),
            value,
            contract,
            owner: ctx.fiber,
        }
    }

    /// The Runtime after a publication committed: a fresh occurrence occupies the
    /// exact slot and its withdrawal is owed; a visible one drives its dependents
    /// and is recorded.
    pub open spec fn providing(
        self,
        ctx: ContextView,
        name: Seq<char>,
        contract: ContractId,
        value: u64,
    ) -> RootView {
        let slot = self.published_slot(ctx, name, contract, value);
        let affected = self.slot_drift(ctx.fiber, slot.edge());
        let bound = RootView {
            next: (self.next + 1) as u64,
            services: self.services.binding(name, contract),
            ..self
        };
        let owed = bound.recheck_all(affected);
        let placed = RootView { services: owed.services.placing(slot), ..owed };
        let driven = placed.owing(
            ctx.fiber,
            CleanupView::Withdraw {
                realm: slot.realm,
                service: name,
                occurrence: slot.occurrence,
            },
        ).kick_all(affected);
        if self.fiber(ctx.fiber).current() is Active {
            driven.observe(
                driven.visibility_record(
                    VisibilityView { edge: slot.edge(), occurrence: slot.occurrence },
                    false,
                    true,
                ),
            )
        } else {
            driven
        }
    }

    /// What controlling a publication comes to. Exact staleness is judged before
    /// generation closure.
    pub open spec fn control_verdict(
        self,
        edge: EdgeView,
        occurrence: ServiceOccurrenceId,
        owner: FiberId,
    ) -> ControlVerdict {
        if !self.services.is_current(edge, occurrence) {
            ControlVerdict::Stale
        } else if !self.admits(owner) {
            ControlVerdict::Closed
        } else {
            ControlVerdict::Commit
        }
    }

    /// The Runtime after an exact publication was removed by its capability.
    pub open spec fn unpublishing(
        self,
        edge: EdgeView,
        occurrence: ServiceOccurrenceId,
        owner: FiberId,
        cleanup: DisposableToken,
    ) -> RootView {
        let affected = self.slot_drift(owner, edge);
        let owed = self.recheck_all(affected);
        let vacated = RootView { services: owed.services.without(edge), ..owed };
        let driven = vacated.claiming(owner, cleanup).kick_all(affected);
        if self.fiber(owner).current() is Active {
            driven.observe(
                driven.visibility_record(VisibilityView { edge, occurrence }, true, false),
            )
        } else {
            driven
        }
    }

    /// What a lookup answers: the visible value, or why there is none. A contract
    /// mismatch is judged before absence.
    pub open spec fn lookup(self, edge: EdgeView, contract: ContractId) -> Result<u64, bool> {
        if !self.services.compatible(edge.service, contract) {
            Err(true)
        } else {
            match self.services.slot(edge) {
                Some(s) => if self.is_visible(s) {
                    if s.contract == contract {
                        Ok(s.value)
                    } else {
                        Err(true)
                    }
                } else {
                    Err(false)
                },
                None => Err(false),
            }
        }
    }

    /// The correlation facts of a listener registered now.
    pub open spec fn listener_meta(
        self,
        ctx: ContextView,
        event: Seq<char>,
        kind: HookKind,
        options: ListenerOptions,
    ) -> ListenerMetaView {
        ListenerMetaView {
            id: ListenerRegistrationId(self.next),
            event,
            role: kind.spec_role(),
            scope: (ScopeView { membership: ctx.runtime, chain: ctx.scope }).id(),
            options,
        }
    }

    /// The Runtime after a listener registration committed.
    pub open spec fn listening(
        self,
        ctx: ContextView,
        event: Seq<char>,
        contract: EventContract,
        kind: HookKind,
        options: ListenerOptions,
    ) -> RootView {
        let meta = self.listener_meta(ctx, event, kind, options);
        let hook = HookView { id: meta.id, scope: ctx.scope, options, kind };
        let added = RootView {
            next: (self.next + 1) as u64,
            events: self.events.binding(event, contract).adding(event, hook),
            ..self
        };
        added.owing(ctx.fiber, CleanupView::Unlisten { meta }).observe(
            ObservationView::ListenerRegistration {
                change: ListenerChange::Registered,
                listener: meta,
            },
        )
    }

    /// The Runtime after an exact listener was unregistered; one that is not
    /// registered any more changes nothing and leaves no record.
    pub open spec fn unlistening(self, meta: ListenerMetaView) -> RootView {
        if self.events.find(meta.event, meta.id) is Some {
            (RootView { events: self.events.removing(meta.event, meta.id), ..self }).observe(
                ObservationView::ListenerRegistration {
                    change: ListenerChange::Unregistered,
                    listener: meta,
                },
            )
        } else {
            self
        }
    }

    /// The Runtime after an update listener registration committed.
    pub open spec fn controlling(
        self,
        ctx: ContextView,
        contract: ContractId,
        kind: UpdateKind,
        options: ListenerOptions,
    ) -> RootView {
        let id = ListenerRegistrationId(self.next);
        let hook = UpdateHookView { id, scope: ctx.scope, options, kind };
        let added = RootView {
            next: (self.next + 1) as u64,
            updates: self.updates.adding(contract, hook),
            ..self
        };
        added.owing(ctx.fiber, CleanupView::Unhook { contract, listener: id })
    }

    /// The Runtime after the framework's part of a cleanup. A hosted cleanup has
    /// none.
    pub open spec fn cleaned(self, cleanup: CleanupView) -> RootView {
        match cleanup {
            CleanupView::Callback { .. } => self,
            CleanupView::Join { .. } => self,
            CleanupView::Withdraw { realm, service, occurrence } => RootView {
                services: self.services.withdrawn(EdgeView { service, realm }, occurrence),
                ..self
            },
            CleanupView::Unlisten { meta } => self.unlistening(meta),
            CleanupView::Unhook { contract, listener } => RootView {
                updates: self.updates.removing(contract, listener),
                ..self
            },
            CleanupView::Unexport { key } => RootView { logger: self.logger.removing(key), ..self },
            CleanupView::Unobserve { observer } => RootView {
                hub: self.hub.unobserving(observer),
                ..self
            },
        }
    }
}

impl Root {
    /// Commits one cleanup obligation into a Fiber's journal.
    pub fn owe(&mut self, id: FiberId, cleanup: Cleanup) -> (token: DisposableToken)
        requires
            old(self).wf(),
            old(self)@.has(id),
            old(self)@.fiber(id).journal.sn < u64::MAX,
        ensures
            final(self).wf(),
            token == old(self)@.fiber(id).journal.next_token(),
            final(self)@ == old(self)@.owing(id, cleanup@),
    {
        self.fiber_mut(id).disposables.push(cleanup)
    }

    /// Claims one cleanup obligation of a Fiber without running it.
    pub fn remove_disposable(&mut self, id: FiberId, token: DisposableToken) -> (r: Option<Cleanup>)
        requires
            old(self).wf(),
        ensures
            final(self).wf(),
            match r {
                Some(c) => old(self)@.obligation(id, token) == Some(c@),
                None => old(self)@.obligation(id, token) is None,
            },
            final(self)@ == old(self)@.claiming(id, token),
    {
        if self.has_fiber(id) {
            self.fiber_mut(id).disposables.remove(token)
        } else {
            None
        }
    }

    /// Unregisters an exact listener, and records it where it was registered.
    pub fn unlisten(&mut self, meta: ListenerObservationMeta) -> (r: bool)
        requires
            old(self).wf(),
        ensures
            final(self).wf(),
            r == (old(self)@.events.find(meta@.event, meta@.id) is Some),
            final(self)@ == old(self)@.unlistening(meta@),
    {
        let removed = self.events_mut().remove(&meta.event, meta.id);
        if removed {
            self.observe(
                RuntimeObservation::ListenerRegistration {
                    change: ListenerChange::Unregistered,
                    listener: meta,
                },
            );
        }
        removed
    }

    /// Executes a claimed cleanup as far as the framework does it; a hosted one is
    /// handed back to be run.
    pub fn execute_cleanup(&mut self, cleanup: Cleanup) -> (r: Option<Cleanup>)
        requires
            old(self).wf(),
        ensures
            final(self).wf(),
            final(self)@ == old(self)@.cleaned(cleanup@),
            match r {
                Some(c) => cleanup@.is_hosted() && c@ == cleanup@,
                None => !cleanup@.is_hosted(),
            },
    {
        match cleanup {
            Cleanup::Callback { handle, async_cleanup } => Some(
                Cleanup::Callback { handle, async_cleanup },
            ),
            Cleanup::Join { task } => Some(Cleanup::Join { task }),
            Cleanup::Withdraw { realm, service, occurrence } => {
                let _ = self.services_mut().withdraw_exact(realm, &service, occurrence);
                None
            },
            Cleanup::Unlisten { meta } => {
                let _ = self.unlisten(meta);
                None
            },
            Cleanup::Unhook { contract, listener } => {
                let _ = self.updates_mut().remove(contract, listener);
                None
            },
            Cleanup::Unexport { key } => {
                let _ = self.logger_mut().remove_exporter(key);
                None
            },
            Cleanup::Unobserve { observer } => {
                self.hub_mut().remove(observer);
                None
            },
        }
    }

    /// The dependents that a change in one exact slot owes a recheck.
    fn slot_drift(&self, owner: FiberId, edge: &DependencyEdge) -> (r: Vec<FiberId>)
        requires
            self@.has(owner),
        ensures
            r@ == self@.slot_drift(owner, edge@),
    {
        if self.fiber(owner).state.current() == FiberState::Active {
            let mut edges: Vec<DependencyEdge> = Vec::new();
            edges.push(edge.duplicate());
            assert(edge_views(edges@) =~= seq![edge@]);
            self.dependents_for_edges(&edges)
        } else {
            Vec::new()
        }
    }
}

/// Move-only capability naming one exact Service publication occurrence.
/// Dropping it is inert: the owning generation keeps its cleanup claim.
pub struct ServicePublication {
    service: String,
    realm: RealmKey,
    occurrence: ServiceOccurrenceId,
    owner: FiberId,
    cleanup: DisposableToken,
}

/// A publication capability as a mathematical value.
pub struct ServicePublicationView {
    pub edge: EdgeView,
    pub occurrence: ServiceOccurrenceId,
    pub owner: FiberId,
    pub cleanup: DisposableToken,
}

impl View for ServicePublication {
    type V = ServicePublicationView;

    closed spec fn view(&self) -> ServicePublicationView {
        ServicePublicationView {
            edge: EdgeView { service: self.service@, realm: self.realm },
            occurrence: self.occurrence,
            owner: self.owner,
            cleanup: self.cleanup,
        }
    }
}

impl ServicePublication {
    /// Replaces only this exact publication's value and returns the outgoing one.
    /// Publication identity is preserved, so dependents do not drift.
    pub fn set(&self, root: &mut Root, value: u64) -> (r: Result<u64, ServiceControlError>)
        requires
            old(root).wf(),
        ensures
            final(root).wf(),
            match old(root)@.control_verdict(self@.edge, self@.occurrence, self@.owner) {
                ControlVerdict::Stale => {
                    &&& r matches Err(ServiceControlError::StalePublication { service })
                        && service@ == self@.edge.service
                    &&& final(root)@ == old(root)@
                },
                ControlVerdict::Closed => {
                    &&& r matches Err(ServiceControlError::MutationClosed { service }) && service@
                        == self@.edge.service
                    &&& final(root)@ == old(root)@
                },
                ControlVerdict::Commit => {
                    &&& r matches Ok(outgoing) && old(root)@.services.slot(self@.edge) matches Some(
                        s,
                    ) && outgoing == s.value
                    &&& final(root)@ == (RootView {
                        services: old(root)@.services.with_value(self@.edge, value),
                        ..old(root)@
                    })
                },
            },
    {
        let current = match root.services().slot(self.realm, &self.service) {
            Some(slot) => slot.occurrence == self.occurrence,
            None => false,
        };
        if !current {
            return Err(ServiceControlError::StalePublication { service: self.service.clone() });
        }
        if !root.admits(self.owner) {
            return Err(ServiceControlError::MutationClosed { service: self.service.clone() });
        }
        match root.services_mut().replace_value(self.realm, &self.service, value) {
            Some(outgoing) => Ok(outgoing),
            None => Err(ServiceControlError::StalePublication { service: self.service.clone() }),
        }
    }

    /// Removes only this exact publication, claiming its cleanup where it is still
    /// owed. A visible withdrawal drives the dependents once and is recorded.
    pub fn remove(self, root: &mut Root) -> (r: Result<(), ServiceControlError>)
        requires
            old(root).wf(),
        ensures
            final(root).wf(),
            match old(root)@.control_verdict(self@.edge, self@.occurrence, self@.owner) {
                ControlVerdict::Stale => {
                    &&& r matches Err(ServiceControlError::StalePublication { service })
                        && service@ == self@.edge.service
                    &&& final(root)@ == old(root)@
                },
                ControlVerdict::Closed => {
                    &&& r matches Err(ServiceControlError::MutationClosed { service }) && service@
                        == self@.edge.service
                    &&& final(root)@ == old(root)@
                },
                ControlVerdict::Commit => {
                    &&& r is Ok
                    &&& final(root)@ == old(root)@.unpublishing(
                        self@.edge,
                        self@.occurrence,
                        self@.owner,
                        self@.cleanup,
                    )
                },
            },
    {
        let current = match root.services().slot(self.realm, &self.service) {
            Some(slot) => slot.occurrence == self.occurrence,
            None => false,
        };
        if !current {
            return Err(ServiceControlError::StalePublication { service: self.service.clone() });
        }
        if !root.admits(self.owner) {
            return Err(ServiceControlError::MutationClosed { service: self.service.clone() });
        }
        let edge = DependencyEdge { service: self.service.clone(), realm: self.realm };
        let was_visible = root.fiber(self.owner).state.current() == FiberState::Active;
        let affected = root.slot_drift(self.owner, &edge);
        root.commit_rechecks(&affected);
        let _ = root.services_mut().vacate(self.realm, &self.service);
        let _ = root.remove_disposable(self.owner, self.cleanup);
        root.kick_all(&affected);
        if was_visible {
            let realm = ServiceRealm::new(root.runtime(), self.realm);
            root.observe(
                RuntimeObservation::ServiceVisibility {
                    service: self.service.clone(),
                    realm,
                    previous: Some(ServicePublicationId(self.occurrence)),
                    current: None,
                },
            );
        }
        Ok(())
    }
}

/// The exact, move-only claim capability for one registered cleanup. Dropping it
/// is inert: the occurrence stays generation-owned.
pub struct EffectRegistration {
    /// The exact occurrence.
    pub token: DisposableToken,
    /// The Fiber whose generation owns it.
    pub owner: FiberId,
}

impl EffectRegistration {
    /// Releases this cleanup occurrence without running it; `false` when it was
    /// claimed before.
    pub fn disarm(self, root: &mut Root) -> (r: bool)
        requires
            old(root).wf(),
        ensures
            final(root).wf(),
            r == (old(root)@.obligation(self.owner, self.token) is Some),
            final(root)@ == old(root)@.claiming(self.owner, self.token),
    {
        root.remove_disposable(self.owner, self.token).is_some()
    }

    /// Claims this cleanup to be run now: hands it out, or nothing when it was
    /// claimed before. [`EffectRegistration::disposed`] says what the dispose
    /// answers.
    pub fn dispose(self, root: &mut Root) -> (r: Option<Cleanup>)
        requires
            old(root).wf(),
        ensures
            final(root).wf(),
            match r {
                Some(c) => old(root)@.obligation(self.owner, self.token) == Some(c@),
                None => old(root)@.obligation(self.owner, self.token) is None,
            },
            final(root)@ == old(root)@.claiming(self.owner, self.token),
    {
        root.remove_disposable(self.owner, self.token)
    }

    /// What a manual dispose answers: `Ok(true)` when its claimed cleanup
    /// completed, `Ok(false)` when the claim was lost, the failure otherwise.
    pub fn disposed(claimed: bool, failure: Option<EffectFailure>) -> (r: Result<
        bool,
        EffectFailure,
    >)
        requires
            !claimed ==> failure is None,
        ensures
            match failure {
                Some(f) => r matches Err(g) && g@ == f@,
                None => r == Ok::<bool, EffectFailure>(claimed),
            },
    {
        match failure {
            Some(failure) => Err(failure),
            None => Ok(claimed),
        }
    }
}

/// Exact control of one listener registration.
pub struct ListenerRegistration {
    meta: ListenerObservationMeta,
    cleanup: DisposableToken,
    owner: FiberId,
}

/// A listener registration as a mathematical value.
pub struct ListenerRegistrationView {
    pub meta: ListenerMetaView,
    pub cleanup: DisposableToken,
    pub owner: FiberId,
}

impl View for ListenerRegistration {
    type V = ListenerRegistrationView;

    closed spec fn view(&self) -> ListenerRegistrationView {
        ListenerRegistrationView { meta: self.meta@, cleanup: self.cleanup, owner: self.owner }
    }
}

impl ListenerRegistration {
    /// Identity of the exact registration.
    pub fn id(&self) -> (r: ListenerRegistrationId)
        ensures
            r == self@.meta.id,
    {
        self.meta.id
    }

    /// Unregisters the exact listener and claims its cleanup; says whether it was
    /// still registered.
    pub fn remove(self, root: &mut Root) -> (r: bool)
        requires
            old(root).wf(),
        ensures
            final(root).wf(),
            r == (old(root)@.events.find(self@.meta.event, self@.meta.id) is Some),
            final(root)@ == old(root)@.claiming(self@.owner, self@.cleanup).unlistening(
                self@.meta,
            ),
    {
        let _ = root.remove_disposable(self.owner, self.cleanup);
        root.unlisten(self.meta)
    }
}

/// Exact control of one update listener registration.
pub struct UpdateRegistration {
    /// The Plugin contract the listener controls.
    pub contract: ContractId,
    /// The exact registration.
    pub id: ListenerRegistrationId,
    /// The cleanup owed for it.
    pub cleanup: DisposableToken,
    /// The Fiber whose generation owns it.
    pub owner: FiberId,
}

impl UpdateRegistration {
    /// Unregisters the exact listener and claims its cleanup; says whether it was
    /// still registered.
    pub fn remove(self, root: &mut Root) -> (r: bool)
        requires
            old(root).wf(),
        ensures
            final(root).wf(),
            r == (old(root)@.updates.find(self.contract, self.id) is Some),
            final(root)@ == (RootView {
                updates: old(root)@.updates.removing(self.contract, self.id),
                ..old(root)@.claiming(self.owner, self.cleanup)
            }),
    {
        let _ = root.remove_disposable(self.owner, self.cleanup);
        root.updates_mut().remove(self.contract, self.id)
    }
}

/// Move-only control for one exact exporter occurrence. Dropping it is inert.
pub struct ExporterRegistration {
    /// The exact occurrence.
    pub key: ExporterKey,
}

impl ExporterRegistration {
    /// Removes this exact exporter if it is still installed.
    pub fn remove(self, root: &mut Root) -> (r: bool)
        requires
            old(root).wf(),
        ensures
            final(root).wf(),
            r == (crate::seqs::first_index(
                old(root)@.logger.exporters,
                crate::logger::is_exporter(self.key),
            ) is Some),
            final(root)@ == (RootView {
                logger: old(root)@.logger.removing(self.key),
                ..old(root)@
            }),
    {
        root.logger_mut().remove_exporter(self.key)
    }
}

impl Context {
    /// Publishes one generation-owned occurrence into the exact Service slot that
    /// this Context selects.
    pub fn provide<S: Service>(&self, root: &mut Root, contract: ContractId, value: u64) -> (r:
        Result<ServicePublication, ServicePublishError>)
        requires
            old(root).wf(),
            old(root)@.room(1),
        ensures
            final(root).wf(),
            match old(root)@.publish_verdict(self@, S::NAME@, contract) {
                PublishVerdict::Inactive => {
                    &&& r matches Err(ServicePublishError::InactiveContext)
                    &&& final(root)@ == old(root)@
                },
                PublishVerdict::Mismatch => {
                    &&& r matches Err(ServicePublishError::ContractMismatch { service }) && service@
                        == S::NAME@
                    &&& final(root)@ == old(root)@
                },
                PublishVerdict::Duplicate => {
                    &&& r matches Err(ServicePublishError::DuplicatePublication { service })
                        && service@ == S::NAME@
                    &&& final(root)@ == (RootView {
                        services: old(root)@.services.binding(S::NAME@, contract),
                        ..old(root)@
                    })
                },
                PublishVerdict::Publish => {
                    &&& r matches Ok(publication) && publication@ == (ServicePublicationView {
                        edge: old(root)@.slot_of(self@, S::NAME@),
                        occurrence: ServiceOccurrenceId(old(root)@.next),
                        owner: self@.fiber,
                        cleanup: old(root)@.fiber(self@.fiber).journal.next_token(),
                    })
                    &&& final(root)@ == old(root)@.providing(self@, S::NAME@, contract, value)
                },
            },
    {
        let owner = self.fiber;
        if !root.admits(owner) {
            return Err(ServicePublishError::InactiveContext);
        }
        let name: String = S::NAME.to_owned();
        let realm = self.isolate_key(&name);
        if !root.services_mut().bind(&name, contract) {
            return Err(ServicePublishError::ContractMismatch { service: name });
        }
        let occupied = match root.services().slot(realm, &name) {
            Some(slot) => root.lives(slot.owner),
            None => false,
        };
        if occupied {
            return Err(ServicePublishError::DuplicatePublication { service: name });
        }
        let visible = root.fiber(owner).state.current() == FiberState::Active;
        let edge = DependencyEdge { service: name.clone(), realm };
        assert(root@.declares(seq![edge@]) =~= old(root)@.declares(seq![edge@]));
        let affected = root.slot_drift(owner, &edge);
        let occurrence = ServiceOccurrenceId(root.fresh());
        let ghost bound = root@;
        root.commit_rechecks(&affected);
        let slot = ServiceSlot {
            realm,
            service: name.clone(),
            occurrence,
            value,
            contract,
            owner,
        };
        let _ = root.services_mut().place(slot);
        proof {
            lemma_recheck_counters(bound, affected@);
            assert(old(root)@.fibers[owner.0 as int].room(1));
        }
        let cleanup = root.owe(
            owner,
            Cleanup::Withdraw { realm, service: name.clone(), occurrence },
        );
        root.kick_all(&affected);
        if visible {
            let service_realm = ServiceRealm::new(root.runtime(), realm);
            root.observe(
                RuntimeObservation::ServiceVisibility {
                    service: name.clone(),
                    realm: service_realm,
                    previous: None,
                    current: Some(ServicePublicationId(occurrence)),
                },
            );
        }
        Ok(ServicePublication { service: name, realm, occurrence, owner, cleanup })
    }

    /// Resolves only the exact Service slot that this Context selects.
    pub fn try_service<S: Service>(&self, root: &Root, contract: ContractId) -> (r: Result<
        u64,
        ServiceLookupError,
    >)
        ensures
            match root@.lookup(root@.slot_of(self@, S::NAME@), contract) {
                Ok(value) => r == Ok::<u64, ServiceLookupError>(value),
                Err(true) => r matches Err(ServiceLookupError::ContractMismatch { service })
                    && service@ == S::NAME@,
                Err(false) => r matches Err(ServiceLookupError::Unavailable { service }) && service@
                    == S::NAME@,
            },
    {
        let name: String = S::NAME.to_owned();
        let realm = self.isolate_key(&name);
        match root.services().contract(&name) {
            Some(bound) => {
                if bound != contract {
                    return Err(ServiceLookupError::ContractMismatch { service: name });
                }
            },
            None => {},
        }
        match root.services().slot(realm, &name) {
            Some(slot) => {
                if root.has_fiber(slot.owner) && root.fiber(slot.owner).is_visible() {
                    if slot.contract == contract {
                        Ok(slot.value)
                    } else {
                        Err(ServiceLookupError::ContractMismatch { service: name })
                    }
                } else {
                    Err(ServiceLookupError::Unavailable { service: name })
                }
            },
            None => Err(ServiceLookupError::Unavailable { service: name }),
        }
    }

    /// The one registration path both effect spellings share.
    fn register_cleanup(&self, root: &mut Root, cleanup: Cleanup) -> (r: Result<
        EffectRegistration,
        EffectRegistrationError,
    >)
        requires
            old(root).wf(),
            old(root)@.room(1),
        ensures
            final(root).wf(),
            if old(root)@.admits(self@.fiber) {
                &&& r matches Ok(reg) && reg.owner == self@.fiber && reg.token == old(root)@.fiber(
                    self@.fiber,
                ).journal.next_token()
                &&& final(root)@ == old(root)@.owing(self@.fiber, cleanup@)
            } else {
                &&& r matches Err(EffectRegistrationError::InactiveContext)
                &&& final(root)@ == old(root)@
            },
    {
        let owner = self.fiber;
        if !root.admits(owner) {
            return Err(EffectRegistrationError::InactiveContext);
        }
        assert(old(root)@.fibers[owner.0 as int].room(1));
        let token = root.owe(owner, cleanup);
        Ok(EffectRegistration { token, owner })
    }

    /// Registers an async cleanup, named by the host, as one obligation of this
    /// Context's current generation.
    pub fn effect(&self, root: &mut Root, handle: u64) -> (r: Result<
        EffectRegistration,
        EffectRegistrationError,
    >)
        requires
            old(root).wf(),
            old(root)@.room(1),
        ensures
            final(root).wf(),
            if old(root)@.admits(self@.fiber) {
                &&& r matches Ok(reg) && reg.owner == self@.fiber && reg.token == old(root)@.fiber(
                    self@.fiber,
                ).journal.next_token()
                &&& final(root)@ == old(root)@.owing(
                    self@.fiber,
                    CleanupView::Callback { handle, async_cleanup: true },
                )
            } else {
                &&& r matches Err(EffectRegistrationError::InactiveContext)
                &&& final(root)@ == old(root)@
            },
    {
        self.register_cleanup(root, Cleanup::Callback { handle, async_cleanup: true })
    }

    /// Registers a synchronous cleanup, named by the host, as one obligation of
    /// this Context's current generation.
    pub fn effect_sync(&self, root: &mut Root, handle: u64) -> (r: Result<
        EffectRegistration,
        EffectRegistrationError,
    >)
        requires
            old(root).wf(),
            old(root)@.room(1),
        ensures
            final(root).wf(),
            if old(root)@.admits(self@.fiber) {
                &&& r matches Ok(reg) && reg.owner == self@.fiber && reg.token == old(root)@.fiber(
                    self@.fiber,
                ).journal.next_token()
                &&& final(root)@ == old(root)@.owing(
                    self@.fiber,
                    CleanupView::Callback { handle, async_cleanup: false },
                )
            } else {
                &&& r matches Err(EffectRegistrationError::InactiveContext)
                &&& final(root)@ == old(root)@
            },
    {
        self.register_cleanup(root, Cleanup::Callback { handle, async_cleanup: false })
    }

    /// Commits the join of a task, named by the host, into this Context's current
    /// generation. The host starts the task only after this committed, so that
    /// everything the task registers is drained before the task is joined.
    pub fn run(&self, root: &mut Root, task: u64) -> (r: Result<(), TaskRegistrationError>)
        requires
            old(root).wf(),
            old(root)@.room(1),
        ensures
            final(root).wf(),
            if !old(root)@.admits(self@.fiber) {
                &&& r matches Err(TaskRegistrationError::InactiveContext)
                &&& final(root)@ == old(root)@
            } else if !old(root)@.executor {
                &&& r matches Err(TaskRegistrationError::ExecutorUnavailable)
                &&& final(root)@ == old(root)@
            } else {
                &&& r is Ok
                &&& final(root)@ == old(root)@.owing(self@.fiber, CleanupView::Join { task })
            },
    {
        let owner = self.fiber;
        if !root.admits(owner) {
            return Err(TaskRegistrationError::InactiveContext);
        }
        if !root.executor() {
            return Err(TaskRegistrationError::ExecutorUnavailable);
        }
        assert(old(root)@.fibers[owner.0 as int].room(1));
        let _ = root.owe(owner, Cleanup::Join { task });
        Ok(())
    }

    fn register_listener<E: Event>(
        &self,
        root: &mut Root,
        contract: EventContract,
        kind: HookKind,
        options: ListenerOptions,
    ) -> (r: Result<ListenerRegistration, ListenerRegistrationError>)
        requires
            old(root).wf(),
            old(root)@.room(1),
        ensures
            final(root).wf(),
            if !old(root)@.admits(self@.fiber) {
                &&& r matches Err(ListenerRegistrationError::InactiveContext)
                &&& final(root)@ == old(root)@
            } else if !old(root)@.events.compatible(E::NAME@, contract) {
                &&& r matches Err(ListenerRegistrationError::EventContractMismatch { event })
                    && event@ == E::NAME@
                &&& final(root)@ == old(root)@
            } else {
                &&& r matches Ok(reg) && reg@ == (ListenerRegistrationView {
                    meta: old(root)@.listener_meta(self@, E::NAME@, kind, options),
                    cleanup: old(root)@.fiber(self@.fiber).journal.next_token(),
                    owner: self@.fiber,
                })
                &&& final(root)@ == old(root)@.listening(self@, E::NAME@, contract, kind, options)
            },
    {
        let owner = self.fiber;
        if !root.admits(owner) {
            return Err(ListenerRegistrationError::InactiveContext);
        }
        let event: String = E::NAME.to_owned();
        let compatible = match root.events().contract(&event) {
            Some(bound) => bound == contract,
            None => true,
        };
        if !compatible {
            return Err(ListenerRegistrationError::EventContractMismatch { event });
        }
        let id = ListenerRegistrationId(root.fresh_listener(&event, contract, &self.scope, options, kind));
        let meta = ListenerObservationMeta {
            id,
            event: event.clone(),
            role: kind.role(),
            scope: ScopeId::from_layer(self.runtime, &self.scope),
            options,
        };
        assert(old(root)@.fibers[owner.0 as int].room(1));
        let cleanup = root.owe(owner, Cleanup::Unlisten { meta: meta.duplicate() });
        root.observe(
            RuntimeObservation::ListenerRegistration {
                change: ListenerChange::Registered,
                listener: meta.duplicate(),
            },
        );
        Ok(ListenerRegistration { meta, cleanup, owner })
    }

    /// Registers a listener with default options.
    pub fn on<E: Event>(&self, root: &mut Root, contract: EventContract, kind: HookKind) -> (r:
        Result<ListenerRegistration, ListenerRegistrationError>)
        requires
            old(root).wf(),
            old(root)@.room(1),
        ensures
            final(root).wf(),
            ({
                let options = ListenerOptions { prepend: false, global: false, once: false };
                if !old(root)@.admits(self@.fiber) {
                    &&& r matches Err(ListenerRegistrationError::InactiveContext)
                    &&& final(root)@ == old(root)@
                } else if !old(root)@.events.compatible(E::NAME@, contract) {
                    &&& r matches Err(ListenerRegistrationError::EventContractMismatch { event })
                        && event@ == E::NAME@
                    &&& final(root)@ == old(root)@
                } else {
                    &&& r matches Ok(reg) && reg@ == (ListenerRegistrationView {
                        meta: old(root)@.listener_meta(self@, E::NAME@, kind, options),
                        cleanup: old(root)@.fiber(self@.fiber).journal.next_token(),
                        owner: self@.fiber,
                    })
                    &&& final(root)@ == old(root)@.listening(
                        self@,
                        E::NAME@,
                        contract,
                        kind,
                        options,
                    )
                }
            }),
    {
        self.register_listener::<E>(root, contract, kind, ListenerOptions::default())
    }

    /// Registers a listener with the given options.
    pub fn on_with<E: Event>(
        &self,
        root: &mut Root,
        contract: EventContract,
        kind: HookKind,
        options: ListenerOptions,
    ) -> (r: Result<ListenerRegistration, ListenerRegistrationError>)
        requires
            old(root).wf(),
            old(root)@.room(1),
        ensures
            final(root).wf(),
            if !old(root)@.admits(self@.fiber) {
                &&& r matches Err(ListenerRegistrationError::InactiveContext)
                &&& final(root)@ == old(root)@
            } else if !old(root)@.events.compatible(E::NAME@, contract) {
                &&& r matches Err(ListenerRegistrationError::EventContractMismatch { event })
                    && event@ == E::NAME@
                &&& final(root)@ == old(root)@
            } else {
                &&& r matches Ok(reg) && reg@ == (ListenerRegistrationView {
                    meta: old(root)@.listener_meta(self@, E::NAME@, kind, options),
                    cleanup: old(root)@.fiber(self@.fiber).journal.next_token(),
                    owner: self@.fiber,
                })
                &&& final(root)@ == old(root)@.listening(self@, E::NAME@, contract, kind, options)
            },
    {
        self.register_listener::<E>(root, contract, kind, options)
    }

    /// Registers a precommit control listener for one Plugin contract.
    pub fn on_update(
        &self,
        root: &mut Root,
        contract: ContractId,
        kind: UpdateKind,
        options: ListenerOptions,
    ) -> (r: Result<UpdateRegistration, ListenerRegistrationError>)
        requires
            old(root).wf(),
            old(root)@.room(1),
        ensures
            final(root).wf(),
            if old(root)@.admits(self@.fiber) {
                &&& r matches Ok(reg) && reg.contract == contract && reg.id
                    == ListenerRegistrationId(old(root)@.next) && reg.owner == self@.fiber
                    && reg.cleanup == old(root)@.fiber(self@.fiber).journal.next_token()
                &&& final(root)@ == old(root)@.controlling(self@, contract, kind, options)
            } else {
                &&& r matches Err(ListenerRegistrationError::InactiveContext)
                &&& final(root)@ == old(root)@
            },
    {
        let owner = self.fiber;
        if !root.admits(owner) {
            return Err(ListenerRegistrationError::InactiveContext);
        }
        let id = ListenerRegistrationId(root.fresh());
        let hook = UpdateHook { id, scope: clone_layer(&self.scope), options, kind };
        root.updates_mut().add(contract, hook);
        assert(old(root)@.fibers[owner.0 as int].room(1));
        let cleanup = root.owe(owner, Cleanup::Unhook { contract, listener: id });
        Ok(UpdateRegistration { contract, id, cleanup, owner })
    }

    /// The current Fiber's default hyphenated channel.
    pub fn logger(&self, root: &Root) -> (r: Logger)
        requires
            root@.has(self@.fiber),
        ensures
            r@ == hyphenated(root@.fiber(self@.fiber).name),
    {
        root.logger().logger_for_fiber(root.fiber(self.fiber).name.as_str())
    }

    /// Installs one exporter, named by the host, for this Context's current
    /// generation. The exporter's key is reserved before admission is judged.
    pub fn add_exporter(&self, root: &mut Root, exporter: u64) -> (r: Result<
        ExporterRegistration,
        EffectRegistrationError,
    >)
        requires
            old(root).wf(),
            old(root)@.room(1),
        ensures
            final(root).wf(),
            ({
                let key = ExporterKey((old(root)@.logger.exporter_sequence + 1) as u64);
                let reserved = RootView {
                    logger: LoggerView { exporter_sequence: key.0, ..old(root)@.logger },
                    ..old(root)@
                };
                if old(root)@.admits(self@.fiber) {
                    &&& r matches Ok(reg) && reg.key == key
                    &&& final(root)@ == (RootView {
                        logger: reserved.logger.installing(key, exporter),
                        ..reserved
                    }).owing(self@.fiber, CleanupView::Unexport { key })
                } else {
                    &&& r matches Err(EffectRegistrationError::InactiveContext)
                    &&& final(root)@ == reserved
                }
            }),
    {
        let key = root.logger_mut().reserve_exporter();
        let owner = self.fiber;
        if !root.admits(owner) {
            return Err(EffectRegistrationError::InactiveContext);
        }
        root.logger_mut().insert_reserved(key, exporter);
        assert(old(root)@.fibers[owner.0 as int].room(1));
        let _ = root.owe(owner, Cleanup::Unexport { key });
        Ok(ExporterRegistration { key })
    }

    /// Registers a Runtime observer, named by the host, for this Context's current
    /// generation.
    pub fn observe_runtime(&self, root: &mut Root, callback: u64) -> (r: Result<
        (),
        EffectRegistrationError,
    >)
        requires
            old(root).wf(),
            old(root)@.room(1),
        ensures
            final(root).wf(),
            if old(root)@.admits(self@.fiber) {
                &&& r is Ok
                &&& final(root)@ == (RootView {
                    hub: old(root)@.hub.observing(callback),
                    ..old(root)@
                }).owing(
                    self@.fiber,
                    CleanupView::Unobserve { observer: (old(root)@.hub.next_id + 1) as u64 },
                )
            } else {
                &&& r matches Err(EffectRegistrationError::InactiveContext)
                &&& final(root)@ == old(root)@
            },
    {
        let owner = self.fiber;
        if !root.admits(owner) {
            return Err(EffectRegistrationError::InactiveContext);
        }
        let observer = root.hub_mut().register(callback);
        assert(old(root)@.fibers[owner.0 as int].room(1));
        let _ = root.owe(owner, Cleanup::Unobserve { observer });
        Ok(())
    }
}

/// Whether a Context's current generation admits cleanup. A later registration
/// remains authoritative.
pub fn generation_cleanup_admitted(ctx: &Context, root: &Root) -> (r: bool)
    ensures
        r == root@.admits(ctx@.fiber),
{
    root.admits(ctx.fiber)
}

} // verus!
