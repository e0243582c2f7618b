//! Typed Event contracts and semantic dispatch vocabulary.

use crate::ids::{ContractId, ListenerRegistrationId, ScopeId};
use crate::scope::{Scope, ScopeView};
use crate::text::{join2, join3};
use vstd::prelude::*;

verus! {

/// A Runtime-local named typed Event contract.
pub trait Event {
    /// Runtime-local semantic Event name.
    const NAME: &'static str;

    /// Owned input carried by one dispatch invocation.
    type Args;

    /// Owned semantic output produced by answering or waterfall roles.
    type Output;
}

/// The argument and output types that one Event name is bound to.
#[derive(Clone, Copy, PartialEq, Eq, Structural, Debug)]
pub struct EventContract {
    /// Identity of the argument type.
    pub args: ContractId,
    /// Identity of the output type.
    pub output: ContractId,
}

impl EventContract {
    /// The contract made of one argument and one output type.
    pub fn of(args: ContractId, output: ContractId) -> (r: EventContract)
        ensures
            r == (EventContract { args, output }),
    {
        EventContract { args, output }
    }
}

/// Explicit Event routing for every dispatch operation.
pub enum Routing {
    /// Consider registrations from every Scope.
    Unscoped,
    /// Consider globals plus registrations whose Scope is ancestor-or-self.
    Scoped(Scope),
}

/// A routing as a mathematical value.
pub enum RoutingView {
    Unscoped,
    Scoped(ScopeView),
}

impl View for Routing {
    type V = RoutingView;

    open spec fn view(&self) -> RoutingView {
        match self {
            Routing::Unscoped => RoutingView::Unscoped,
            Routing::Scoped(s) => RoutingView::Scoped(s@),
        }
    }
}

/// Correlation-only projection of one dispatch's routing.
#[derive(Clone, Copy, PartialEq, Eq, Structural, Debug)]
pub enum ObservationRouting {
    /// Every Scope is eligible.
    Unscoped,
    /// Eligibility is rooted at one opaque Scope position.
    Scoped(ScopeId),
}

impl RoutingView {
    /// What an observation record says of this routing.
    pub open spec fn observed(self) -> ObservationRouting {
        match self {
            RoutingView::Unscoped => ObservationRouting::Unscoped,
            RoutingView::Scoped(s) => ObservationRouting::Scoped(s.id()),
        }
    }

    /// Whether the routing names a Scope of another Runtime.
    pub open spec fn is_foreign(self, membership: u64) -> bool {
        match self {
            RoutingView::Unscoped => false,
            RoutingView::Scoped(s) => s.membership != membership,
        }
    }
}

impl ObservationRouting {
    /// The projection of a routing.
    pub fn from_routing(routing: &Routing) -> (r: ObservationRouting)
        ensures
            r == routing@.observed(),
    {
        match routing {
            Routing::Unscoped => ObservationRouting::Unscoped,
            Routing::Scoped(scope) => ObservationRouting::Scoped(ScopeId::from_scope(scope)),
        }
    }
}

impl Routing {
    /// Another value with the same meaning.
    pub fn duplicate(&self) -> (r: Routing)
        ensures
            r@ == self@,
    {
        match self {
            Routing::Unscoped => Routing::Unscoped,
            Routing::Scoped(scope) => Routing::Scoped(scope.duplicate()),
        }
    }
}

/// Sequential query result with explicit answer presence.
#[derive(Debug, PartialEq, Eq)]
pub enum QueryOutcome<T> {
    /// No Responder produced an answer.
    Miss,
    /// The first Responder answer.
    Answer(T),
}

/// Semantic listener role.
#[derive(Clone, Copy, PartialEq, Eq, Structural, Debug)]
pub enum ListenerRole {
    /// Notification participant; contributes no answer.
    Observer,
    /// Notification/query participant that may answer a query.
    Responder,
    /// Waterfall forward-transform participant.
    Mapper,
    /// Waterfall onion participant with a consuming continuation.
    Around,
}

impl ListenerRole {
    /// The role's name.
    pub open spec fn spec_name(self) -> Seq<char> {
        match self {
            ListenerRole::Observer => "Observer"@,
            ListenerRole::Responder => "Responder"@,
            ListenerRole::Mapper => "Mapper"@,
            ListenerRole::Around => "Around"@,
        }
    }

    /// The role's name.
    pub fn name(self) -> (r: &'static str)
        ensures
            r@ == self.spec_name(),
    {
        match self {
            ListenerRole::Observer => "Observer",
            ListenerRole::Responder => "Responder",
            ListenerRole::Mapper => "Mapper",
            ListenerRole::Around => "Around",
        }
    }
}

/// Event operation used by role preflight diagnostics.
#[derive(Clone, Copy, PartialEq, Eq, Structural, Debug)]
pub enum EventOperation {
    /// Ordered awaited notification.
    Emit,
    /// Parallel notification operation.
    EmitParallel,
    /// Sequential first-answer query.
    Query,
    /// Owned Mapper/Around waterfall.
    Waterfall,
}

impl EventOperation {
    /// Whether a listener of `role` may take part in the operation.
    pub open spec fn admits(self, role: ListenerRole) -> bool {
        match self {
            EventOperation::Waterfall => role is Mapper || role is Around,
            _ => role is Observer || role is Responder,
        }
    }

    /// Decides [`EventOperation::admits`].
    pub fn compatible(self, role: ListenerRole) -> (r: bool)
        ensures
            r == self.admits(role),
    {
        match self {
            EventOperation::Waterfall => match role {
                ListenerRole::Mapper | ListenerRole::Around => true,
                _ => false,
            },
            _ => match role {
                ListenerRole::Observer | ListenerRole::Responder => true,
                _ => false,
            },
        }
    }

    /// The operation's name.
    pub open spec fn spec_name(self) -> Seq<char> {
        match self {
            EventOperation::Emit => "Emit"@,
            EventOperation::EmitParallel => "EmitParallel"@,
            EventOperation::Query => "Query"@,
            EventOperation::Waterfall => "Waterfall"@,
        }
    }

    /// The operation's name.
    pub fn name(self) -> (r: &'static str)
        ensures
            r@ == self.spec_name(),
    {
        match self {
            EventOperation::Emit => "Emit",
            EventOperation::EmitParallel => "EmitParallel",
            EventOperation::Query => "Query",
            EventOperation::Waterfall => "Waterfall",
        }
    }
}

/// Semantic completion kind reported by Runtime observation.
#[derive(Clone, Copy, PartialEq, Eq, Structural, Debug)]
pub enum DispatchOutcomeKind {
    /// A notification or waterfall primitive completed successfully.
    Completed,
    /// A query completed with an answer.
    Answered,
    /// A query completed without an answer.
    Missed,
    /// The primitive completed with a dispatch failure.
    Failed,
}

/// How one listener is registered.
#[derive(Clone, Copy, PartialEq, Eq, Structural, Debug)]
pub struct ListenerOptions {
    /// Run before the listeners already registered.
    pub prepend: bool,
    /// Ignore Scope routing.
    pub global: bool,
    /// Unregister at the first claim.
    pub once: bool,
}

impl Default for ListenerOptions {
    /// Appended, scoped and repeating.
    fn default() -> (r: ListenerOptions)
        ensures
            r == (ListenerOptions { prepend: false, global: false, once: false }),
    {
        ListenerOptions { prepend: false, global: false, once: false }
    }
}

impl ListenerOptions {
    /// The same options, run before the listeners already registered.
    pub fn prepend(self) -> (r: ListenerOptions)
        ensures
            r == (ListenerOptions { prepend: true, ..self }),
    {
        ListenerOptions { prepend: true, ..self }
    }

    /// The same options, ignoring Scope routing.
    pub fn global(self) -> (r: ListenerOptions)
        ensures
            r == (ListenerOptions { global: true, ..self }),
    {
        ListenerOptions { global: true, ..self }
    }

    /// The same options, unregistering at the first claim.
    pub fn once(self) -> (r: ListenerOptions)
        ensures
            r == (ListenerOptions { once: true, ..self }),
    {
        ListenerOptions { once: true, ..self }
    }

    /// Whether the listener runs before those already registered.
    pub fn is_prepend(&self) -> (r: bool)
        ensures
            r == self.prepend,
    {
        self.prepend
    }

    /// Whether the listener ignores Scope routing.
    pub fn is_global(&self) -> (r: bool)
        ensures
            r == self.global,
    {
        self.global
    }

    /// Whether the listener unregisters at its first claim.
    pub fn is_once(&self) -> (r: bool)
        ensures
            r == self.once,
    {
        self.once
    }
}

/// Why one claimed listener invocation failed.
#[derive(Clone, Copy, PartialEq, Eq, Structural, Debug)]
pub enum InvocationFailureKind {
    /// The user callback or tail returned an error.
    ReturnedError,
    /// A state factory, callback, or awaited callback future panicked.
    Panic,
}

/// Opaque normalized listener invocation failure.
#[derive(Debug)]
pub struct InvocationFailure {
    registration: Option<ListenerRegistrationId>,
    kind: InvocationFailureKind,
    diagnostic: String,
}

/// An invocation failure as a mathematical value.
pub struct InvocationFailureView {
    pub registration: Option<ListenerRegistrationId>,
    pub kind: InvocationFailureKind,
    pub diagnostic: Seq<char>,
}

impl View for InvocationFailure {
    type V = InvocationFailureView;

    closed spec fn view(&self) -> InvocationFailureView {
        InvocationFailureView {
            registration: self.registration,
            kind: self.kind,
            diagnostic: self.diagnostic@,
        }
    }
}

impl InvocationFailureView {
    /// The failure attributed to `id`, unless it is attributed already.
    pub open spec fn correlated(self, id: ListenerRegistrationId) -> InvocationFailureView {
        InvocationFailureView {
            registration: match self.registration {
                Some(r) => Some(r),
                None => Some(id),
            },
            ..self
        }
    }
}

impl InvocationFailure {
    /// The exact listener occurrence correlated with this failure. Tail
    /// execution has no listener occurrence.
    pub fn registration_id(&self) -> (r: Option<&ListenerRegistrationId>)
        ensures
            match r {
                Some(id) => self@.registration == Some(*id),
                None => self@.registration is None,
            },
    {
        self.registration.as_ref()
    }

    /// The normalized failure kind.
    pub fn kind(&self) -> (r: InvocationFailureKind)
        ensures
            r == self@.kind,
    {
        self.kind
    }

    /// The owned failure diagnostic text.
    pub fn diagnostic(&self) -> (r: &str)
        ensures
            r@ == self@.diagnostic,
    {
        self.diagnostic.as_str()
    }

    /// The text the failure displays: its diagnostic.
    pub fn message(&self) -> (r: String)
        ensures
            r@ == self@.diagnostic,
    {
        self.diagnostic.clone()
    }

    /// The failure of a callback or tail that returned an error.
    pub fn returned(diagnostic: String) -> (r: InvocationFailure)
        ensures
            r@ == (InvocationFailureView {
                registration: None,
                kind: InvocationFailureKind::ReturnedError,
                diagnostic: diagnostic@,
            }),
    {
        InvocationFailure {
            registration: None,
            kind: InvocationFailureKind::ReturnedError,
            diagnostic,
        }
    }

    /// The failure of a callback or tail that panicked.
    pub fn panic(diagnostic: String) -> (r: InvocationFailure)
        ensures
            r@ == (InvocationFailureView {
                registration: None,
                kind: InvocationFailureKind::Panic,
                diagnostic: diagnostic@,
            }),
    {
        InvocationFailure { registration: None, kind: InvocationFailureKind::Panic, diagnostic }
    }

    /// Attributes the failure to `registration`; the innermost attribution
    /// stays.
    pub fn correlate(self, registration: ListenerRegistrationId) -> (r: InvocationFailure)
        ensures
            r@ == self@.correlated(registration),
    {
        if self.registration.is_none() {
            InvocationFailure { registration: Some(registration), ..self }
        } else {
            self
        }
    }
}

/// The views of a list of failures.
pub open spec fn failure_views(failures: Seq<InvocationFailure>) -> Seq<InvocationFailureView> {
    failures.map_values(|f: InvocationFailure| f@)
}

/// Opaque non-empty parallel-notification failure collection.
#[derive(Debug)]
pub struct ParallelFailures {
    failures: Vec<InvocationFailure>,
}

impl View for ParallelFailures {
    type V = Seq<InvocationFailureView>;

    closed spec fn view(&self) -> Seq<InvocationFailureView> {
        failure_views(self.failures@)
    }
}

impl ParallelFailures {
    /// The failures in effective listener order.
    pub fn failures(&self) -> (r: &[InvocationFailure])
        ensures
            failure_views(r@) == self@,
    {
        self.failures.as_slice()
    }

    /// The collection of a non-empty failure list.
    pub fn new(failures: Vec<InvocationFailure>) -> (r: ParallelFailures)
        requires
            failures@.len() > 0,
        ensures
            r@ == failure_views(failures@),
            r@.len() > 0,
    {
        ParallelFailures { failures }
    }
}

/// Dispatch preflight or invocation failure.
#[derive(Debug)]
pub enum DispatchError {
    /// The name is already bound to another `Args`/`Output` contract.
    EventContractMismatch {
        /// Conflicting Runtime-local Event name.
        event: String,
    },
    /// The supplied Scope belongs to another Runtime.
    ForeignScope,
    /// A selected registration has a role incompatible with this operation.
    IncompatibleRole {
        /// Dispatch operation being attempted.
        operation: EventOperation,
        /// Incompatible selected listener role.
        role: ListenerRole,
    },
    /// One claimed invocation failed after preflight.
    Invocation(InvocationFailure),
    /// One or more claimed parallel-notification invocations failed.
    Parallel(ParallelFailures),
}

/// A dispatch failure as a mathematical value.
pub enum DispatchErrorView {
    EventContractMismatch { event: Seq<char> },
    ForeignScope,
    IncompatibleRole { operation: EventOperation, role: ListenerRole },
    Invocation(InvocationFailureView),
    Parallel(Seq<InvocationFailureView>),
}

impl View for DispatchError {
    type V = DispatchErrorView;

    open spec fn view(&self) -> DispatchErrorView {
        match self {
            DispatchError::EventContractMismatch { event } => DispatchErrorView::EventContractMismatch {
                event: event@,
            },
            DispatchError::ForeignScope => DispatchErrorView::ForeignScope,
            DispatchError::IncompatibleRole { operation, role } => DispatchErrorView::IncompatibleRole {
                operation: *operation,
                role: *role,
            },
            DispatchError::Invocation(f) => DispatchErrorView::Invocation(f@),
            DispatchError::Parallel(fs) => DispatchErrorView::Parallel(fs@),
        }
    }
}

impl DispatchErrorView {
    /// The text the failure displays.
    pub open spec fn message(self) -> Seq<char> {
        match self {
            DispatchErrorView::EventContractMismatch { event } => "event `"@ + event
                + "` is already bound to an incompatible contract"@,
            DispatchErrorView::ForeignScope => "routing Scope belongs to another Runtime"@,
            DispatchErrorView::IncompatibleRole { operation, role } => role.spec_name()
                + " listener is incompatible with "@ + operation.spec_name(),
            DispatchErrorView::Invocation(f) => "listener invocation failed: "@ + f.diagnostic,
            DispatchErrorView::Parallel(_) => "parallel event dispatch failed"@,
        }
    }
}

impl DispatchError {
    /// The text the failure displays.
    pub fn message(&self) -> (r: String)
        ensures
            r@ == self@.message(),
    {
        match self {
            DispatchError::EventContractMismatch { event } => join3(
                "event `",
                event.as_str(),
                "` is already bound to an incompatible contract",
            ),
            DispatchError::ForeignScope => "routing Scope belongs to another Runtime".to_owned(),
            DispatchError::IncompatibleRole { operation, role } => join3(
                role.name(),
                " listener is incompatible with ",
                operation.name(),
            ),
            DispatchError::Invocation(f) => join2("listener invocation failed: ", f.diagnostic()),
            DispatchError::Parallel(_) => "parallel event dispatch failed".to_owned(),
        }
    }
}

/// Listener registration failure.
#[derive(Debug)]
pub enum ListenerRegistrationError {
    /// The registering Context's current Fiber generation is closed.
    InactiveContext,
    /// The name is already bound to another `Args`/`Output` contract.
    EventContractMismatch {
        /// Conflicting Runtime-local Event name.
        event: String,
    },
}

impl ListenerRegistrationError {
    /// The text the failure displays.
    pub open spec fn spec_message(self) -> Seq<char> {
        match self {
            ListenerRegistrationError::InactiveContext =>
                "cannot register listener on an inactive Context"@,
            ListenerRegistrationError::EventContractMismatch { event } => "event `"@ + event@
                + "` is already bound to an incompatible contract"@,
        }
    }

    /// The text the failure displays.
    pub fn message(&self) -> (r: String)
        ensures
            r@ == self.spec_message(),
    {
        match self {
            ListenerRegistrationError::InactiveContext =>
                "cannot register listener on an inactive Context".to_owned(),
            ListenerRegistrationError::EventContractMismatch { event } => join3(
                "event `",
                event.as_str(),
                "` is already bound to an incompatible contract",
            ),
        }
    }
}

/// What one claimed listener's callback handed back.
pub enum CallbackValue {
    /// An Observer returned.
    Observer,
    /// A Responder returned, with or without an answer.
    Responder(Option<u64>),
}

/// The correlation facts of one listener registration.
pub struct ListenerObservationMeta {
    /// The exact registration.
    pub id: ListenerRegistrationId,
    /// Semantic Event name.
    pub event: String,
    /// Semantic listener role.
    pub role: ListenerRole,
    /// The position the listener was registered at.
    pub scope: ScopeId,
    /// The registration options.
    pub options: ListenerOptions,
}

/// Listener correlation facts as a mathematical value.
pub struct ListenerMetaView {
    pub id: ListenerRegistrationId,
    pub event: Seq<char>,
    pub role: ListenerRole,
    pub scope: ScopeId,
    pub options: ListenerOptions,
}

impl View for ListenerObservationMeta {
    type V = ListenerMetaView;

    open spec fn view(&self) -> ListenerMetaView {
        ListenerMetaView {
            id: self.id,
            event: self.event@,
            role: self.role,
            scope: self.scope,
            options: self.options,
        }
    }
}

impl ListenerObservationMeta {
    /// Another value with the same facts.
    pub fn duplicate(&self) -> (r: ListenerObservationMeta)
        ensures
            r@ == self@,
    {
        ListenerObservationMeta {
            id: self.id,
            event: self.event.clone(),
            role: self.role,
            scope: self.scope,
            options: self.options,
        }
    }
}

} // verus!
