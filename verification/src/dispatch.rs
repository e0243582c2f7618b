//! Event dispatch: ordered and parallel notification, first-answer queries, and
//! the waterfall of Mapper and Around listeners. Callbacks are the host's work; a
//! dispatch says which one is invoked next and takes what came back.

use crate::context::{Context, ContextView};
use crate::event::{
    failure_views, CallbackValue, DispatchError, DispatchErrorView, DispatchOutcomeKind, Event,
    EventContract, EventOperation, InvocationFailure, InvocationFailureView, ListenerMetaView,
    ListenerObservationMeta, ListenerRole, ObservationRouting, ParallelFailures, QueryOutcome,
    Routing, RoutingView,
};
use crate::event_store::{hook_views, Hook, HookKind, HookView};
use crate::ids::{ListenerRegistrationId, ScopeId};
use crate::observation::{ListenerChange, ObservationView, RuntimeObservation};
use crate::root::{Root, RootView};
use crate::scope::ScopeView;
use vstd::prelude::*;

verus! {

impl HookView {
    /// The correlation facts of a registered listener.
    pub open spec fn meta(self, event: Seq<char>, runtime: u64) -> ListenerMetaView {
        ListenerMetaView {
            id: self.id,
            event,
            role: self.kind.spec_role(),
            scope: (ScopeView { membership: runtime, chain: self.scope }).id(),
            options: self.options,
        }
    }

    /// The host's name for the callback.
    pub open spec fn callback(self) -> u64 {
        match self.kind {
            HookKind::Plain { callback, .. } => callback,
            HookKind::Around(callback) => callback,
        }
    }
}

impl Hook {
    /// The host's name for the callback.
    pub fn callback(&self) -> (r: u64)
        ensures
            r == self@.callback(),
    {
        match self.kind {
            HookKind::Plain { callback, .. } => callback,
            HookKind::Around(callback) => callback,
        }
    }
}

impl RootView {
    /// Whether a selected listener is still registered.
    pub open spec fn claimable(self, event: Seq<char>, hook: HookView) -> bool {
        self.events.find(event, hook.id) is Some
    }

    /// The Runtime after a selected listener was claimed for one invocation: a
    /// one-time listener is unregistered, and the record of it published.
    pub open spec fn claiming_hook(self, event: Seq<char>, hook: HookView) -> RootView {
        let claimed = RootView { events: self.events.claiming(event, hook.id), ..self };
        match self.events.find(event, hook.id) {
            Some(h) => if h.options.once {
                claimed.observe(
                    ObservationView::ListenerRegistration {
                        change: ListenerChange::Unregistered,
                        listener: hook.meta(event, self.runtime),
                    },
                )
            } else {
                claimed
            },
            None => claimed,
        }
    }

    /// The first position from `index` on whose listener is still registered; the
    /// number of listeners where there is none.
    pub open spec fn next_hook(
        self,
        event: Seq<char>,
        hooks: Seq<HookView>,
        index: int,
    ) -> int
        decreases hooks.len() - index,
    {
        if index < 0 || index >= hooks.len() {
            hooks.len() as int
        } else if self.claimable(event, hooks[index]) {
            index
        } else {
            self.next_hook(event, hooks, index + 1)
        }
    }

    /// What the preflight of a dispatch answers. A Scope of another Runtime is
    /// refused first.
    pub open spec fn preflight(
        self,
        ctx: ContextView,
        event: Seq<char>,
        contract: EventContract,
        routing: RoutingView,
        operation: EventOperation,
    ) -> Result<Seq<HookView>, DispatchErrorView> {
        if routing.is_foreign(ctx.runtime) {
            Err(DispatchErrorView::ForeignScope)
        } else {
            self.events.preflight(event, contract, routing, operation)
        }
    }

    /// The Runtime after a preflight: a free Event name is bound, unless the
    /// routing was refused before.
    pub open spec fn preflighted(
        self,
        ctx: ContextView,
        event: Seq<char>,
        contract: EventContract,
        routing: RoutingView,
    ) -> RootView {
        if routing.is_foreign(ctx.runtime) {
            self
        } else {
            RootView { events: self.events.binding(event, contract), ..self }
        }
    }

    /// The Runtime with the record of one completed dispatch.
    pub open spec fn dispatched(
        self,
        operation: EventOperation,
        event: Seq<char>,
        routing: ObservationRouting,
        outcome: DispatchOutcomeKind,
    ) -> RootView {
        self.observe(ObservationView::DispatchCompleted { operation, event, routing, outcome })
    }
}

impl Root {
    /// Claims a selected listener for one invocation.
    pub fn claim_hook(&mut self, event: &String, hook: &Hook) -> (r: bool)
        requires
            old(self).wf(),
        ensures
            final(self).wf(),
            r == old(self)@.claimable(event@, hook@),
            final(self)@ == old(self)@.claiming_hook(event@, hook@),
    {
        let (claimed, unregistered) = self.events_mut().claim(event, hook.id);
        if unregistered {
            let runtime = self.runtime();
            let meta = ListenerObservationMeta {
                id: hook.id,
                event: event.clone(),
                role: hook.kind.role(),
                scope: ScopeId::from_layer(runtime, &hook.scope),
                options: hook.options,
            };
            self.observe(
                RuntimeObservation::ListenerRegistration {
                    change: ListenerChange::Unregistered,
                    listener: meta,
                },
            );
        }
        claimed
    }

    /// Claims the first listener from `index` on that is still registered; says
    /// where it stands.
    pub fn claim_next(&mut self, event: &String, hooks: &Vec<Hook>, index: usize) -> (r: Option<usize>)
        requires
            old(self).wf(),
            index <= hooks@.len(),
        ensures
            final(self).wf(),
            ({
                let k = old(self)@.next_hook(event@, hook_views(hooks@), index as int);
                match r {
                    Some(at) => {
                        &&& at == k
                        &&& at < hooks@.len()
                        &&& at < usize::MAX
                        &&& index <= at
                        &&& final(self)@ == old(self)@.claiming_hook(
                            event@,
                            hook_views(hooks@)[k],
                        )
                    },
                    None => k == hooks@.len() && final(self)@ == old(self)@,
                }
            }),
    {
        let ghost rows = hook_views(hooks@);
        let mut i: usize = index;
        while i < hooks.len()
            invariant
                index <= i <= hooks@.len(),
                self.wf(),
                rows == hook_views(hooks@),
                self@ == old(self)@,
                self@.next_hook(event@, rows, index as int) == self@.next_hook(
                    event@,
                    rows,
                    i as int,
                ),
            decreases hooks@.len() - i,
        {
            assert(rows[i as int] == hooks@[i as int]@);
            if self.claim_hook(event, &hooks[i]) {
                return Some(i);
            }
            assert(self@ =~= old(self)@);
            i = i + 1;
        }
        None
    }

    /// Publishes the record of one completed dispatch.
    pub fn publish_dispatch(
        &mut self,
        operation: EventOperation,
        event: &String,
        routing: ObservationRouting,
        outcome: DispatchOutcomeKind,
    )
        requires
            old(self).wf(),
        ensures
            final(self).wf(),
            final(self)@ == old(self)@.dispatched(operation, event@, routing, outcome),
    {
        self.observe(
            RuntimeObservation::DispatchCompleted {
                operation,
                event: event.clone(),
                routing,
                outcome,
            },
        );
    }
}

impl Context {
    /// Selects the listeners of one dispatch.
    pub fn preflight(
        &self,
        root: &mut Root,
        event: &String,
        contract: EventContract,
        routing: &Routing,
        operation: EventOperation,
    ) -> (r: Result<Vec<Hook>, DispatchError>)
        requires
            old(root).wf(),
        ensures
            final(root).wf(),
            match old(root)@.preflight(self@, event@, contract, routing@, operation) {
                Ok(selected) => r matches Ok(hooks) && hook_views(hooks@) == selected,
                Err(e) => r matches Err(x) && x@ == e,
            },
            final(root)@ == old(root)@.preflighted(self@, event@, contract, routing@),
    {
        match routing {
            Routing::Scoped(scope) => {
                if !scope.belongs_to(self.runtime) {
                    return Err(DispatchError::ForeignScope);
                }
            },
            Routing::Unscoped => {},
        }
        root.events_mut().preflight(event, contract, routing, operation)
    }
}

/// One listener to invoke.
#[derive(Clone, Copy, PartialEq, Eq, Structural, Debug)]
pub struct Invocation {
    /// The exact registration.
    pub id: ListenerRegistrationId,
    /// The host's name for the callback.
    pub callback: u64,
}

/// An ordered notification in progress.
pub struct Emit {
    event: String,
    routing: ObservationRouting,
    hooks: Vec<Hook>,
    index: usize,
}

/// A sequential dispatch in progress, as a mathematical value.
#[verifier::ext_equal]
pub struct SequenceView {
    pub event: Seq<char>,
    pub routing: ObservationRouting,
    /// The listeners selected when the dispatch began.
    pub hooks: Seq<HookView>,
    /// The position after the listener invoked last.
    pub index: nat,
}

impl SequenceView {
    /// The invocation of the listener at a position.
    pub open spec fn invocation(self, at: int) -> Invocation {
        Invocation { id: self.hooks[at].id, callback: self.hooks[at].callback() }
    }

    /// The listener invoked next, if one is left.
    pub open spec fn next(self, root: RootView) -> Option<int> {
        let k = root.next_hook(self.event, self.hooks, self.index as int);
        if k < self.hooks.len() {
            Some(k)
        } else {
            None
        }
    }

    /// The dispatch past the listener at a position.
    pub open spec fn past(self, at: int) -> SequenceView {
        SequenceView { index: (at + 1) as nat, ..self }
    }

    /// A dispatch stands within its listeners.
    pub open spec fn wf(self) -> bool {
        self.index <= self.hooks.len()
    }
}

impl View for Emit {
    type V = SequenceView;

    closed spec fn view(&self) -> SequenceView {
        SequenceView {
            event: self.event@,
            routing: self.routing,
            hooks: hook_views(self.hooks@),
            index: self.index as nat,
        }
    }
}

/// What an ordered notification does next.
pub enum EmitStep {
    /// Invoke a listener and answer with what came back.
    Invoke(Invocation),
    /// The notification is complete.
    Done(Result<(), DispatchError>),
}

/// What an ordered notification does next, as a mathematical value.
pub enum EmitStepView {
    Invoke(Invocation),
    Done(Result<(), DispatchErrorView>),
}

impl View for EmitStep {
    type V = EmitStepView;

    open spec fn view(&self) -> EmitStepView {
        match self {
            EmitStep::Invoke(invocation) => EmitStepView::Invoke(*invocation),
            EmitStep::Done(Ok(_)) => EmitStepView::Done(Ok(())),
            EmitStep::Done(Err(e)) => EmitStepView::Done(Err(e@)),
        }
    }
}

/// What one turn of an ordered notification comes to.
#[verifier::ext_equal]
pub struct EmitTurn {
    pub root: RootView,
    pub sequence: SequenceView,
    pub step: EmitStepView,
}

impl SequenceView {
    /// The next listener of an ordered notification is claimed and handed out; past
    /// the last one the notification is complete.
    pub open spec fn emitting(self, root: RootView) -> EmitTurn {
        match self.next(root) {
            Some(k) => EmitTurn {
                root: root.claiming_hook(self.event, self.hooks[k]),
                sequence: self.past(k),
                step: EmitStepView::Invoke(self.invocation(k)),
            },
            None => EmitTurn {
                root: root.dispatched(
                    EventOperation::Emit,
                    self.event,
                    self.routing,
                    DispatchOutcomeKind::Completed,
                ),
                sequence: self,
                step: EmitStepView::Done(Ok(())),
            },
        }
    }

    /// The listener invoked last returned: its failure ends the notification,
    /// attributed to it.
    pub open spec fn emitted(
        self,
        root: RootView,
        failure: Option<InvocationFailureView>,
    ) -> EmitTurn {
        match failure {
            Some(f) => EmitTurn {
                root: root.dispatched(
                    EventOperation::Emit,
                    self.event,
                    self.routing,
                    DispatchOutcomeKind::Failed,
                ),
                sequence: self,
                step: EmitStepView::Done(
                    Err(
                        DispatchErrorView::Invocation(
                            f.correlated(self.hooks[self.index - 1].id),
                        ),
                    ),
                ),
            },
            None => self.emitting(root),
        }
    }
}

impl Context {
    /// Begins an ordered notification. A refused preflight is a failed dispatch.
    pub fn emit<E: Event>(
        &self,
        root: &mut Root,
        contract: EventContract,
        routing: &Routing,
    ) -> (r: Result<Emit, DispatchError>)
        requires
            old(root).wf(),
        ensures
            final(root).wf(),
            ({
                let after = old(root)@.preflighted(self@, E::NAME@, contract, routing@);
                match old(root)@.preflight(
                    self@,
                    E::NAME@,
                    contract,
                    routing@,
                    EventOperation::Emit,
                ) {
                    Ok(hooks) => {
                        &&& r matches Ok(emit) && emit@ == (SequenceView {
                            event: E::NAME@,
                            routing: routing@.observed(),
                            hooks,
                            index: 0,
                        })
                        &&& final(root)@ == after
                    },
                    Err(e) => {
                        &&& r matches Err(x) && x@ == e
                        &&& final(root)@ == after.dispatched(
                            EventOperation::Emit,
                            E::NAME@,
                            routing@.observed(),
                            DispatchOutcomeKind::Failed,
                        )
                    },
                }
            }),
    {
        let event: String = E::NAME.to_owned();
        let observed = ObservationRouting::from_routing(routing);
        match self.preflight(root, &event, contract, routing, EventOperation::Emit) {
            Ok(hooks) => Ok(Emit { event, routing: observed, hooks, index: 0 }),
            Err(e) => {
                root.publish_dispatch(
                    EventOperation::Emit,
                    &event,
                    observed,
                    DispatchOutcomeKind::Failed,
                );
                Err(e)
            },
        }
    }
}

impl Emit {
    /// Claims and hands out the next listener; past the last one the notification
    /// is complete.
    pub fn advance(&mut self, root: &mut Root) -> (r: EmitStep)
        requires
            old(root).wf(),
            old(self)@.wf(),
        ensures
            final(root).wf(),
            final(self)@.wf(),
            final(root)@ == old(self)@.emitting(old(root)@).root,
            final(self)@ == old(self)@.emitting(old(root)@).sequence,
            r@ == old(self)@.emitting(old(root)@).step,
            match old(self)@.next(old(root)@) {
                Some(k) => {
                    &&& r matches EmitStep::Invoke(i) && i == old(self)@.invocation(k)
                    &&& final(self)@ == old(self)@.past(k)
                    &&& final(root)@ == old(root)@.claiming_hook(
                        old(self)@.event,
                        old(self)@.hooks[k],
                    )
                },
                None => {
                    &&& r matches EmitStep::Done(Ok(_))
                    &&& final(self)@ == old(self)@
                    &&& final(root)@ == old(root)@.dispatched(
                        EventOperation::Emit,
                        old(self)@.event,
                        old(self)@.routing,
                        DispatchOutcomeKind::Completed,
                    )
                },
            },
    {
        match root.claim_next(&self.event, &self.hooks, self.index) {
            Some(at) => {
                self.index = at + 1;
                let hook = &self.hooks[at];
                assert(self@.hooks[at as int] == hook@);
                EmitStep::Invoke(Invocation { id: hook.id, callback: hook.callback() })
            },
            None => {
                root.publish_dispatch(
                    EventOperation::Emit,
                    &self.event,
                    self.routing,
                    DispatchOutcomeKind::Completed,
                );
                EmitStep::Done(Ok(()))
            },
        }
    }

    /// Takes what the listener invoked last handed back: a failure ends the
    /// notification, attributed to that listener; otherwise it goes on.
    pub fn returned(&mut self, root: &mut Root, failure: Option<InvocationFailure>) -> (r: EmitStep)
        requires
            old(root).wf(),
            old(self)@.wf(),
            old(self)@.index > 0,
        ensures
            final(root).wf(),
            final(self)@.wf(),
            final(root)@ == old(self)@.emitted(old(root)@, outcome_view(failure)).root,
            final(self)@ == old(self)@.emitted(old(root)@, outcome_view(failure)).sequence,
            r@ == old(self)@.emitted(old(root)@, outcome_view(failure)).step,
            match failure {
                Some(f) => {
                    &&& r matches EmitStep::Done(Err(e)) && e@ == DispatchErrorView::Invocation(
                        f@.correlated(old(self)@.hooks[old(self)@.index - 1].id),
                    )
                    &&& final(self)@ == old(self)@
                    &&& final(root)@ == old(root)@.dispatched(
                        EventOperation::Emit,
                        old(self)@.event,
                        old(self)@.routing,
                        DispatchOutcomeKind::Failed,
                    )
                },
                None => match old(self)@.next(old(root)@) {
                    Some(k) => {
                        &&& r matches EmitStep::Invoke(i) && i == old(self)@.invocation(k)
                        &&& final(self)@ == old(self)@.past(k)
                        &&& final(root)@ == old(root)@.claiming_hook(
                            old(self)@.event,
                            old(self)@.hooks[k],
                        )
                    },
                    None => {
                        &&& r matches EmitStep::Done(Ok(_))
                        &&& final(self)@ == old(self)@
                        &&& final(root)@ == old(root)@.dispatched(
                            EventOperation::Emit,
                            old(self)@.event,
                            old(self)@.routing,
                            DispatchOutcomeKind::Completed,
                        )
                    },
                },
            },
    {
        match failure {
            Some(failure) => {
                let id = self.hooks[self.index - 1].id;
                assert(self@.hooks[self.index - 1] == self.hooks@[self.index - 1]@);
                root.publish_dispatch(
                    EventOperation::Emit,
                    &self.event,
                    self.routing,
                    DispatchOutcomeKind::Failed,
                );
                EmitStep::Done(Err(DispatchError::Invocation(failure.correlate(id))))
            },
            None => self.advance(root),
        }
    }
}

/// A first-answer query in progress.
pub struct Query {
    event: String,
    routing: ObservationRouting,
    hooks: Vec<Hook>,
    index: usize,
}

impl View for Query {
    type V = SequenceView;

    closed spec fn view(&self) -> SequenceView {
        SequenceView {
            event: self.event@,
            routing: self.routing,
            hooks: hook_views(self.hooks@),
            index: self.index as nat,
        }
    }
}

/// What a query does next.
pub enum QueryStep {
    /// Invoke a listener and answer with what came back.
    Invoke(Invocation),
    /// The query is complete.
    Done(Result<QueryOutcome<u64>, DispatchError>),
}

/// The answer a listener of `role` gave, if it gave one. An Observer never
/// answers.
pub open spec fn answer_of(role: ListenerRole, value: CallbackValue) -> Option<u64> {
    match value {
        CallbackValue::Responder(answer) => if role is Responder {
            answer
        } else {
            None
        },
        CallbackValue::Observer => None,
    }
}

/// What a query does next, as a mathematical value.
pub enum QueryStepView {
    Invoke(Invocation),
    Done(Result<QueryOutcome<u64>, DispatchErrorView>),
}

impl View for QueryStep {
    type V = QueryStepView;

    open spec fn view(&self) -> QueryStepView {
        match self {
            QueryStep::Invoke(invocation) => QueryStepView::Invoke(*invocation),
            QueryStep::Done(Ok(outcome)) => QueryStepView::Done(Ok(*outcome)),
            QueryStep::Done(Err(e)) => QueryStepView::Done(Err(e@)),
        }
    }
}

/// What one turn of a query comes to.
#[verifier::ext_equal]
pub struct QueryTurn {
    pub root: RootView,
    pub sequence: SequenceView,
    pub step: QueryStepView,
}

/// What a listener of a query handed back, as a mathematical value.
pub open spec fn value_view(value: Result<CallbackValue, InvocationFailure>) -> Result<
    CallbackValue,
    InvocationFailureView,
> {
    match value {
        Ok(v) => Ok(v),
        Err(f) => Err(f@),
    }
}

impl SequenceView {
    /// The end of a query, and the record of it.
    pub open spec fn query_over(
        self,
        root: RootView,
        outcome: DispatchOutcomeKind,
        result: Result<QueryOutcome<u64>, DispatchErrorView>,
    ) -> QueryTurn {
        QueryTurn {
            root: root.dispatched(EventOperation::Query, self.event, self.routing, outcome),
            sequence: self,
            step: QueryStepView::Done(result),
        }
    }

    /// The next listener of a query is claimed and handed out; past the last one the
    /// query missed.
    pub open spec fn querying(self, root: RootView) -> QueryTurn {
        match self.next(root) {
            Some(k) => QueryTurn {
                root: root.claiming_hook(self.event, self.hooks[k]),
                sequence: self.past(k),
                step: QueryStepView::Invoke(self.invocation(k)),
            },
            None => self.query_over(root, DispatchOutcomeKind::Missed, Ok(QueryOutcome::Miss)),
        }
    }

    /// The listener invoked last returned: the first answer ends the query, and so
    /// does a failure, attributed to that listener.
    pub open spec fn queried(
        self,
        root: RootView,
        value: Result<CallbackValue, InvocationFailureView>,
    ) -> QueryTurn {
        let last = self.hooks[self.index - 1];
        match value {
            Err(f) => self.query_over(
                root,
                DispatchOutcomeKind::Failed,
                Err(DispatchErrorView::Invocation(f.correlated(last.id))),
            ),
            Ok(v) => match answer_of(last.kind.spec_role(), v) {
                Some(answer) => self.query_over(
                    root,
                    DispatchOutcomeKind::Answered,
                    Ok(QueryOutcome::Answer(answer)),
                ),
                None => self.querying(root),
            },
        }
    }
}

impl Context {
    /// Begins a first-answer query. A refused preflight is a failed dispatch.
    pub fn query<E: Event>(
        &self,
        root: &mut Root,
        contract: EventContract,
        routing: &Routing,
    ) -> (r: Result<Query, DispatchError>)
        requires
            old(root).wf(),
        ensures
            final(root).wf(),
            ({
                let after = old(root)@.preflighted(self@, E::NAME@, contract, routing@);
                match old(root)@.preflight(
                    self@,
                    E::NAME@,
                    contract,
                    routing@,
                    EventOperation::Query,
                ) {
                    Ok(hooks) => {
                        &&& r matches Ok(query) && query@ == (SequenceView {
                            event: E::NAME@,
                            routing: routing@.observed(),
                            hooks,
                            index: 0,
                        })
                        &&& final(root)@ == after
                    },
                    Err(e) => {
                        &&& r matches Err(x) && x@ == e
                        &&& final(root)@ == after.dispatched(
                            EventOperation::Query,
                            E::NAME@,
                            routing@.observed(),
                            DispatchOutcomeKind::Failed,
                        )
                    },
                }
            }),
    {
        let event: String = E::NAME.to_owned();
        let observed = ObservationRouting::from_routing(routing);
        match self.preflight(root, &event, contract, routing, EventOperation::Query) {
            Ok(hooks) => Ok(Query { event, routing: observed, hooks, index: 0 }),
            Err(e) => {
                root.publish_dispatch(
                    EventOperation::Query,
                    &event,
                    observed,
                    DispatchOutcomeKind::Failed,
                );
                Err(e)
            },
        }
    }
}

impl Query {
    /// Claims and hands out the next listener; past the last one the query missed.
    pub fn advance(&mut self, root: &mut Root) -> (r: QueryStep)
        requires
            old(root).wf(),
            old(self)@.wf(),
        ensures
            final(root).wf(),
            final(self)@.wf(),
            final(root)@ == old(self)@.querying(old(root)@).root,
            final(self)@ == old(self)@.querying(old(root)@).sequence,
            r@ == old(self)@.querying(old(root)@).step,
            match old(self)@.next(old(root)@) {
                Some(k) => {
                    &&& r matches QueryStep::Invoke(i) && i == old(self)@.invocation(k)
                    &&& final(self)@ == old(self)@.past(k)
                    &&& final(root)@ == old(root)@.claiming_hook(
                        old(self)@.event,
                        old(self)@.hooks[k],
                    )
                },
                None => {
                    &&& r matches QueryStep::Done(Ok(QueryOutcome::Miss))
                    &&& final(self)@ == old(self)@
                    &&& final(root)@ == old(root)@.dispatched(
                        EventOperation::Query,
                        old(self)@.event,
                        old(self)@.routing,
                        DispatchOutcomeKind::Missed,
                    )
                },
            },
    {
        match root.claim_next(&self.event, &self.hooks, self.index) {
            Some(at) => {
                self.index = at + 1;
                let hook = &self.hooks[at];
                assert(self@.hooks[at as int] == hook@);
                QueryStep::Invoke(Invocation { id: hook.id, callback: hook.callback() })
            },
            None => {
                root.publish_dispatch(
                    EventOperation::Query,
                    &self.event,
                    self.routing,
                    DispatchOutcomeKind::Missed,
                );
                QueryStep::Done(Ok(QueryOutcome::Miss))
            },
        }
    }

    /// Takes what the listener invoked last handed back: the first answer ends the
    /// query, and so does a failure, attributed to that listener.
    pub fn returned(&mut self, root: &mut Root, value: Result<CallbackValue, InvocationFailure>) -> (r:
        QueryStep)
        requires
            old(root).wf(),
            old(self)@.wf(),
            old(self)@.index > 0,
        ensures
            final(root).wf(),
            final(self)@.wf(),
            final(root)@ == old(self)@.queried(old(root)@, value_view(value)).root,
            final(self)@ == old(self)@.queried(old(root)@, value_view(value)).sequence,
            r@ == old(self)@.queried(old(root)@, value_view(value)).step,
            ({
                let last = old(self)@.hooks[old(self)@.index - 1];
                match value {
                    Err(f) => {
                        &&& r matches QueryStep::Done(Err(e)) && e@
                            == DispatchErrorView::Invocation(f@.correlated(last.id))
                        &&& final(self)@ == old(self)@
                        &&& final(root)@ == old(root)@.dispatched(
                            EventOperation::Query,
                            old(self)@.event,
                            old(self)@.routing,
                            DispatchOutcomeKind::Failed,
                        )
                    },
                    Ok(v) => match answer_of(last.kind.spec_role(), v) {
                        Some(answer) => {
                            &&& r matches QueryStep::Done(Ok(QueryOutcome::Answer(a))) && a
                                == answer
                            &&& final(self)@ == old(self)@
                            &&& final(root)@ == old(root)@.dispatched(
                                EventOperation::Query,
                                old(self)@.event,
                                old(self)@.routing,
                                DispatchOutcomeKind::Answered,
                            )
                        },
                        None => match old(self)@.next(old(root)@) {
                            Some(k) => {
                                &&& r matches QueryStep::Invoke(i) && i == old(self)@.invocation(k)
                                &&& final(self)@ == old(self)@.past(k)
                                &&& final(root)@ == old(root)@.claiming_hook(
                                    old(self)@.event,
                                    old(self)@.hooks[k],
                                )
                            },
                            None => {
                                &&& r matches QueryStep::Done(Ok(QueryOutcome::Miss))
                                &&& final(self)@ == old(self)@
                                &&& final(root)@ == old(root)@.dispatched(
                                    EventOperation::Query,
                                    old(self)@.event,
                                    old(self)@.routing,
                                    DispatchOutcomeKind::Missed,
                                )
                            },
                        },
                    },
                }
            }),
    {
        let last = &self.hooks[self.index - 1];
        assert(self@.hooks[self.index - 1] == last@);
        let id = last.id;
        let role = last.kind.role();
        match value {
            Err(failure) => {
                root.publish_dispatch(
                    EventOperation::Query,
                    &self.event,
                    self.routing,
                    DispatchOutcomeKind::Failed,
                );
                QueryStep::Done(Err(DispatchError::Invocation(failure.correlate(id))))
            },
            Ok(value) => {
                let answer = match (role, value) {
                    (ListenerRole::Responder, CallbackValue::Responder(answer)) => answer,
                    _ => None,
                };
                match answer {
                    Some(answer) => {
                        root.publish_dispatch(
                            EventOperation::Query,
                            &self.event,
                            self.routing,
                            DispatchOutcomeKind::Answered,
                        );
                        QueryStep::Done(Ok(QueryOutcome::Answer(answer)))
                    },
                    None => self.advance(root),
                }
            },
        }
    }
}

/// What claiming every selected listener in order comes to.
#[verifier::ext_equal]
pub struct ClaimedHooks {
    pub root: RootView,
    /// The listeners claimed, in effective order.
    pub hooks: Seq<HookView>,
}

/// Claims every listener that is still registered when its turn comes.
pub open spec fn claim_all(root: RootView, event: Seq<char>, hooks: Seq<HookView>) -> ClaimedHooks
    decreases hooks.len(),
{
    if hooks.len() == 0 {
        ClaimedHooks { root, hooks: Seq::empty() }
    } else {
        let before = claim_all(root, event, hooks.drop_last());
        if before.root.claimable(event, hooks.last()) {
            ClaimedHooks {
                root: before.root.claiming_hook(event, hooks.last()),
                hooks: before.hooks.push(hooks.last()),
            }
        } else {
            ClaimedHooks { root: before.root, hooks: before.hooks }
        }
    }
}

/// The invocations of a list of listeners.
pub open spec fn invocations(hooks: Seq<HookView>) -> Seq<Invocation> {
    hooks.map_values(|h: HookView| Invocation { id: h.id, callback: h.callback() })
}

/// A parallel notification in progress.
pub struct EmitParallel {
    event: String,
    routing: ObservationRouting,
    claimed: Vec<Invocation>,
}

/// A parallel notification as a mathematical value.
#[verifier::ext_equal]
pub struct ParallelView {
    pub event: Seq<char>,
    pub routing: ObservationRouting,
    /// The listeners to invoke, in effective order.
    pub claimed: Seq<Invocation>,
}

impl View for EmitParallel {
    type V = ParallelView;

    closed spec fn view(&self) -> ParallelView {
        ParallelView { event: self.event@, routing: self.routing, claimed: self.claimed@ }
    }
}

/// The failure of an invocation, as a mathematical value.
pub open spec fn outcome_view(o: Option<InvocationFailure>) -> Option<InvocationFailureView> {
    match o {
        Some(f) => Some(f@),
        None => None,
    }
}

/// The views of a list of outcomes.
pub open spec fn outcome_views(s: Seq<Option<InvocationFailure>>) -> Seq<
    Option<InvocationFailureView>,
> {
    s.map_values(|o: Option<InvocationFailure>| outcome_view(o))
}

/// The failures among the outcomes of the invocations, in effective order, each
/// attributed to its listener.
pub open spec fn parallel_failures(
    claimed: Seq<Invocation>,
    outcomes: Seq<Option<InvocationFailureView>>,
) -> Seq<InvocationFailureView>
    decreases outcomes.len(),
{
    if outcomes.len() == 0 || claimed.len() < outcomes.len() {
        Seq::empty()
    } else {
        let before = parallel_failures(claimed, outcomes.drop_last());
        match outcomes.last() {
            Some(f) => before.push(f.correlated(claimed[outcomes.len() - 1].id)),
            None => before,
        }
    }
}

impl Context {
    /// Begins a parallel notification: every listener is claimed before any is
    /// invoked. A refused preflight is a failed dispatch.
    pub fn emit_parallel<E: Event>(
        &self,
        root: &mut Root,
        contract: EventContract,
        routing: &Routing,
    ) -> (r: Result<EmitParallel, DispatchError>)
        requires
            old(root).wf(),
        ensures
            final(root).wf(),
            ({
                let after = old(root)@.preflighted(self@, E::NAME@, contract, routing@);
                match old(root)@.preflight(
                    self@,
                    E::NAME@,
                    contract,
                    routing@,
                    EventOperation::EmitParallel,
                ) {
                    Ok(hooks) => {
                        &&& r matches Ok(parallel) && parallel@ == (ParallelView {
                            event: E::NAME@,
                            routing: routing@.observed(),
                            claimed: invocations(claim_all(after, E::NAME@, hooks).hooks),
                        })
                        &&& final(root)@ == claim_all(after, E::NAME@, hooks).root
                    },
                    Err(e) => {
                        &&& r matches Err(x) && x@ == e
                        &&& final(root)@ == after.dispatched(
                            EventOperation::EmitParallel,
                            E::NAME@,
                            routing@.observed(),
                            DispatchOutcomeKind::Failed,
                        )
                    },
                }
            }),
    {
        let event: String = E::NAME.to_owned();
        let observed = ObservationRouting::from_routing(routing);
        match self.preflight(root, &event, contract, routing, EventOperation::EmitParallel) {
            Ok(hooks) => {
                let claimed = root.claim_every(&event, &hooks);
                Ok(EmitParallel { event, routing: observed, claimed })
            },
            Err(e) => {
                root.publish_dispatch(
                    EventOperation::EmitParallel,
                    &event,
                    observed,
                    DispatchOutcomeKind::Failed,
                );
                Err(e)
            },
        }
    }
}

impl Root {
    fn claim_every(&mut self, event: &String, hooks: &Vec<Hook>) -> (r: Vec<Invocation>)
        requires
            old(self).wf(),
        ensures
            final(self).wf(),
            r@ == invocations(claim_all(old(self)@, event@, hook_views(hooks@)).hooks),
            final(self)@ == claim_all(old(self)@, event@, hook_views(hooks@)).root,
    {
        let ghost rows = hook_views(hooks@);
        let ghost start = self@;
        let mut out: Vec<Invocation> = Vec::new();
        let mut i: usize = 0;
        assert(out@ =~= invocations(Seq::empty()));
        while i < hooks.len()
            invariant
                i <= hooks@.len(),
                self.wf(),
                rows == hook_views(hooks@),
                out@ == invocations(claim_all(start, event@, rows.take(i as int)).hooks),
                self@ == claim_all(start, event@, rows.take(i as int)).root,
            decreases hooks@.len() - i,
        {
            let hook = &hooks[i];
            let ghost before = claim_all(start, event@, rows.take(i as int));
            proof {
                assert(rows[i as int] == hook@);
                assert(rows.take(i + 1).drop_last() =~= rows.take(i as int));
                assert(rows.take(i + 1).last() == hook@);
            }
            if self.claim_hook(event, hook) {
                let invocation = Invocation { id: hook.id, callback: hook.callback() };
                assert(invocations(before.hooks.push(hook@)) =~= invocations(before.hooks).push(
                    invocation,
                ));
                out.push(invocation);
            } else {
                assert(self@ =~= before.root);
            }
            i = i + 1;
        }
        assert(rows.take(i as int) =~= rows);
        out
    }
}

impl EmitParallel {
    /// The listeners to invoke, in effective order.
    pub fn claimed(&self) -> (r: &Vec<Invocation>)
        ensures
            r@ == self@.claimed,
    {
        &self.claimed
    }

    /// Takes the outcome of every invocation, in the order of the listeners, and
    /// completes the notification.
    pub fn finish(self, root: &mut Root, outcomes: Vec<Option<InvocationFailure>>) -> (r: Result<
        (),
        DispatchError,
    >)
        requires
            old(root).wf(),
            outcomes@.len() == self@.claimed.len(),
        ensures
            final(root).wf(),
            ({
                let failures = parallel_failures(self@.claimed, outcome_views(outcomes@));
                if failures.len() == 0 {
                    &&& r is Ok
                    &&& final(root)@ == old(root)@.dispatched(
                        EventOperation::EmitParallel,
                        self@.event,
                        self@.routing,
                        DispatchOutcomeKind::Completed,
                    )
                } else {
                    &&& r matches Err(e) && e@ == DispatchErrorView::Parallel(failures)
                    &&& final(root)@ == old(root)@.dispatched(
                        EventOperation::EmitParallel,
                        self@.event,
                        self@.routing,
                        DispatchOutcomeKind::Failed,
                    )
                }
            }),
    {
        let ghost rows = outcome_views(outcomes@);
        let ghost claimed = self@.claimed;
        let mut outcomes = outcomes;
        let mut failures: Vec<InvocationFailure> = Vec::new();
        let mut i: usize = 0;
        assert(rows.take(0) =~= Seq::empty());
        assert(failure_views(failures@) =~= parallel_failures(claimed, rows.take(0)));
        while i < outcomes.len()
            invariant
                i <= outcomes@.len(),
                outcomes@.len() == rows.len(),
                rows.len() == claimed.len(),
                claimed == self.claimed@,
                forall|j: int| i <= j < rows.len() ==> outcome_view(#[trigger] outcomes@[j])
                    == rows[j],
                failure_views(failures@) == parallel_failures(claimed, rows.take(i as int)),
            decreases outcomes@.len() - i,
        {
            proof {
                assert(rows.take(i + 1).drop_last() =~= rows.take(i as int));
                assert(rows.take(i + 1).last() == outcome_view(outcomes@[i as int]));
            }
            let mut outcome: Option<InvocationFailure> = None;
            std::mem::swap(&mut outcome, &mut outcomes[i]);
            match outcome {
                Some(failure) => {
                    let failure = failure.correlate(self.claimed[i].id);
                    assert(failure_views(failures@.push(failure)) =~= failure_views(
                        failures@,
                    ).push(failure@));
                    failures.push(failure);
                },
                None => {},
            }
            i = i + 1;
        }
        assert(rows.take(i as int) =~= rows);
        if failures.len() == 0 {
            root.publish_dispatch(
                EventOperation::EmitParallel,
                &self.event,
                self.routing,
                DispatchOutcomeKind::Completed,
            );
            Ok(())
        } else {
            root.publish_dispatch(
                EventOperation::EmitParallel,
                &self.event,
                self.routing,
                DispatchOutcomeKind::Failed,
            );
            Err(DispatchError::Parallel(ParallelFailures::new(failures)))
        }
    }
}

/// A dispatch never claims a listener twice: what it claims next stands at or
/// after where it is, and is registered at that moment.
pub proof fn law_a_dispatch_moves_forward(
    root: RootView,
    event: Seq<char>,
    hooks: Seq<HookView>,
    index: int,
)
    requires
        0 <= index <= hooks.len(),
    ensures
        index <= root.next_hook(event, hooks, index) <= hooks.len(),
        root.next_hook(event, hooks, index) < hooks.len() ==> root.claimable(
            event,
            hooks[root.next_hook(event, hooks, index)],
        ),
        forall|i: int|
            index <= i < root.next_hook(event, hooks, index) ==> !root.claimable(
                event,
                #[trigger] hooks[i],
            ),
    decreases hooks.len() - index,
{
    if index < hooks.len() && !root.claimable(event, hooks[index]) {
        law_a_dispatch_moves_forward(root, event, hooks, index + 1);
    }
}

} // verus!
