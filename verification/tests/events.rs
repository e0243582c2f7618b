use cordis_core::chain::ChainEvent;
use cordis_core::context::Context;
use cordis_core::dispatch::{EmitStep, QueryStep};
use cordis_core::event::{
    CallbackValue, DispatchError, DispatchOutcomeKind, Event, EventContract, EventOperation,
    InvocationFailure, InvocationFailureKind, ListenerOptions, ListenerRole, QueryOutcome, Routing,
};
use cordis_core::event_store::{EventHooks, EventStore, Hook, HookKind};
use cordis_core::ids::{ContractId, ListenerRegistrationId};
use cordis_core::observation::{ListenerChange, RuntimeObservation};
use cordis_core::root::Root;
use cordis_core::scope::ScopeNode;
use cordis_core::waterfall::WaterfallAction;

struct Ping;
impl Event for Ping {
    const NAME: &'static str = "issue42/ping";
    type Args = u32;
    type Output = ();
}
struct Ask;
impl Event for Ask {
    const NAME: &'static str = "issue42/ask";
    type Args = u32;
    type Output = u32;
}
struct Flow;
impl Event for Flow {
    const NAME: &'static str = "issue42/flow";
    type Args = u32;
    type Output = u32;
}

const UNIT: ContractId = ContractId(1);
const NUMBER: ContractId = ContractId(2);

fn ping() -> EventContract {
    EventContract::of(NUMBER, UNIT)
}

fn ask() -> EventContract {
    EventContract::of(NUMBER, NUMBER)
}

fn plain(role: ListenerRole, callback: u64) -> HookKind {
    HookKind::Plain { role, callback }
}

fn boom() -> InvocationFailure {
    InvocationFailure::returned("boom".to_owned())
}

fn records(root: &mut Root) -> Vec<RuntimeObservation> {
    root.hub_mut()
        .take()
        .into_iter()
        .map(|publication| publication.record)
        .collect()
}

fn completed(root: &mut Root) -> Vec<(EventOperation, DispatchOutcomeKind)> {
    records(root)
        .into_iter()
        .filter_map(|record| match record {
            RuntimeObservation::DispatchCompleted {
                operation, outcome, ..
            } => Some((operation, outcome)),
            _ => None,
        })
        .collect()
}

/// Invokes every listener of an ordered notification; callback 13 fails.
fn emit(ctx: &Context, root: &mut Root, routing: &Routing) -> (Vec<u64>, Result<(), DispatchError>) {
    let mut called = Vec::new();
    let mut emit = match ctx.emit::<Ping>(root, ping(), routing) {
        Ok(emit) => emit,
        Err(error) => return (called, Err(error)),
    };
    let mut step = emit.advance(root);
    loop {
        match step {
            EmitStep::Invoke(invocation) => {
                called.push(invocation.callback);
                let failure = if invocation.callback == 13 {
                    Some(boom())
                } else {
                    None
                };
                step = emit.returned(root, failure);
            }
            EmitStep::Done(result) => return (called, result),
        }
    }
}

/// Runs a query in which callback `c` answers `args + c`, and callback 0 does not
/// answer.
fn query(ctx: &Context, root: &mut Root, args: u64) -> Result<QueryOutcome<u64>, DispatchError> {
    let mut query = ctx.query::<Ask>(root, ask(), &Routing::Unscoped)?;
    let mut step = query.advance(root);
    loop {
        match step {
            QueryStep::Invoke(invocation) => {
                let answer = match invocation.callback {
                    0 => None,
                    c => Some(args + c),
                };
                step = query.returned(root, Ok(CallbackValue::Responder(answer)));
            }
            QueryStep::Done(result) => return result,
        }
    }
}

#[test]
fn exact_listener_and_primitive_completion_use_semantic_vocabulary() {
    let (ctx, mut root) = Context::new(1);
    let _once = ctx
        .on_with::<Ping>(
            &mut root,
            ping(),
            plain(ListenerRole::Observer, 1),
            ListenerOptions::default().once(),
        )
        .ok()
        .unwrap();
    let _answer = ctx
        .on::<Ask>(&mut root, ask(), plain(ListenerRole::Responder, 1))
        .ok()
        .unwrap();
    records(&mut root);

    let (called, result) = emit(&ctx, &mut root, &Routing::Unscoped);
    assert!(result.is_ok());
    assert_eq!(called, vec![1]);
    let emitted = records(&mut root);
    assert!(emitted.iter().any(|r| matches!(r,
        RuntimeObservation::ListenerRegistration { change: ListenerChange::Unregistered, listener }
            if listener.role == ListenerRole::Observer && listener.options.is_once())));
    assert!(emitted.iter().any(|r| matches!(
        r,
        RuntimeObservation::DispatchCompleted {
            operation: EventOperation::Emit,
            outcome: DispatchOutcomeKind::Completed,
            ..
        }
    )));

    assert_eq!(
        query(&ctx, &mut root, 4).unwrap(),
        QueryOutcome::Answer(5)
    );
    assert_eq!(
        completed(&mut root),
        vec![(EventOperation::Query, DispatchOutcomeKind::Answered)]
    );

    let mut flow = ctx
        .waterfall_query::<Flow>(&mut root, ask(), &Routing::Unscoped)
        .ok()
        .unwrap();
    let payload = match flow.waterfall.start(&mut root, 7) {
        WaterfallAction::Tail(payload) => payload,
        _ => panic!("a waterfall without listeners is its tail"),
    };
    let mut tail = flow.tail::<Ask>(&ctx, &mut root, ask()).ok().unwrap();
    let answer = match tail.advance(&mut root) {
        QueryStep::Invoke(invocation) => match tail.returned(
            &mut root,
            Ok(CallbackValue::Responder(Some(payload + invocation.callback))),
        ) {
            QueryStep::Done(Ok(QueryOutcome::Answer(value))) => value,
            _ => panic!("the responder answers"),
        },
        QueryStep::Done(_) => panic!("a responder is registered"),
    };
    match flow
        .waterfall
        .step(&mut root, ChainEvent::Returned(Ok(answer)))
    {
        WaterfallAction::Done(Ok(result)) => assert_eq!(result, 8),
        _ => panic!("the tail's output is the waterfall's"),
    }
    let operations: Vec<EventOperation> = completed(&mut root)
        .into_iter()
        .map(|(operation, _)| operation)
        .collect();
    assert_eq!(
        operations,
        vec![EventOperation::Query, EventOperation::Waterfall]
    );
}

#[test]
fn all_primitive_operations_report_semantic_outcomes() {
    let (ctx, mut root) = Context::new(1);

    let quiet = ctx
        .emit_parallel::<Ping>(&mut root, ping(), &Routing::Unscoped)
        .ok()
        .unwrap();
    assert!(quiet.claimed().is_empty());
    assert!(quiet.finish(&mut root, Vec::new()).is_ok());
    assert_eq!(
        completed(&mut root),
        vec![(EventOperation::EmitParallel, DispatchOutcomeKind::Completed)]
    );

    assert_eq!(query(&ctx, &mut root, 1).unwrap(), QueryOutcome::Miss);
    assert_eq!(
        completed(&mut root),
        vec![(EventOperation::Query, DispatchOutcomeKind::Missed)]
    );

    let failing = ctx
        .on::<Ping>(&mut root, ping(), plain(ListenerRole::Observer, 13))
        .ok()
        .unwrap();
    records(&mut root);
    let parallel = ctx
        .emit_parallel::<Ping>(&mut root, ping(), &Routing::Unscoped)
        .ok()
        .unwrap();
    assert_eq!(parallel.claimed().len(), 1);
    match parallel.finish(&mut root, vec![Some(boom())]) {
        Err(DispatchError::Parallel(failures)) => {
            assert_eq!(failures.failures().len(), 1);
            assert_eq!(
                failures.failures()[0].registration_id(),
                Some(&failing.id())
            );
        }
        _ => panic!("a failed listener fails the notification"),
    }
    assert_eq!(
        completed(&mut root),
        vec![(EventOperation::EmitParallel, DispatchOutcomeKind::Failed)]
    );

    let mut flow = ctx
        .waterfall::<Flow>(&mut root, ask(), &Routing::Unscoped)
        .ok()
        .unwrap();
    assert!(matches!(
        flow.start(&mut root, 3),
        WaterfallAction::Tail(3)
    ));
    let failed = flow.step(
        &mut root,
        ChainEvent::Returned(Err(InvocationFailure::returned("tail failed".to_owned()))),
    );
    assert!(matches!(failed, WaterfallAction::Done(Err(_))));
    assert_eq!(
        completed(&mut root),
        vec![(EventOperation::Waterfall, DispatchOutcomeKind::Failed)]
    );
}

#[test]
fn listeners_run_in_registration_order_with_prepended_ones_first() {
    let (ctx, mut root) = Context::new(1);
    for (callback, options) in [
        (1, ListenerOptions::default()),
        (2, ListenerOptions::default()),
        (3, ListenerOptions::default().prepend()),
    ] {
        assert!(ctx
            .on_with::<Ping>(
                &mut root,
                ping(),
                plain(ListenerRole::Observer, callback),
                options
            )
            .is_ok());
    }
    let (called, result) = emit(&ctx, &mut root, &Routing::Unscoped);
    assert!(result.is_ok());
    assert_eq!(called, vec![3, 1, 2]);
}

#[test]
fn a_failed_observer_stops_an_ordered_notification() {
    let (ctx, mut root) = Context::new(1);
    let first = ctx
        .on::<Ping>(&mut root, ping(), plain(ListenerRole::Observer, 13))
        .ok()
        .unwrap();
    assert!(ctx
        .on::<Ping>(&mut root, ping(), plain(ListenerRole::Observer, 2))
        .is_ok());
    let (called, result) = emit(&ctx, &mut root, &Routing::Unscoped);
    assert_eq!(called, vec![13]);
    match result {
        Err(DispatchError::Invocation(failure)) => {
            assert_eq!(failure.kind(), InvocationFailureKind::ReturnedError);
            assert_eq!(failure.diagnostic(), "boom");
            assert_eq!(failure.registration_id(), Some(&first.id()));
        }
        _ => panic!("the failure is attributed to its listener"),
    }
    assert!(first.remove(&mut root));
    assert_eq!(emit(&ctx, &mut root, &Routing::Unscoped).0, vec![2]);
}

#[test]
fn routing_reaches_ancestors_and_globals() {
    let (ctx, mut root) = Context::new(1);
    let child = ctx.with_child_scope(&mut root);
    let sibling = ctx.with_child_scope(&mut root);
    assert!(ctx
        .on::<Ping>(&mut root, ping(), plain(ListenerRole::Observer, 1))
        .is_ok());
    assert!(child
        .on::<Ping>(&mut root, ping(), plain(ListenerRole::Observer, 2))
        .is_ok());
    assert!(sibling
        .on::<Ping>(&mut root, ping(), plain(ListenerRole::Observer, 3))
        .is_ok());
    assert!(sibling
        .on_with::<Ping>(
            &mut root,
            ping(),
            plain(ListenerRole::Observer, 4),
            ListenerOptions::default().global()
        )
        .is_ok());
    let scoped = Routing::Scoped(child.scope());
    assert_eq!(emit(&ctx, &mut root, &scoped).0, vec![1, 2, 4]);
    assert_eq!(
        emit(&ctx, &mut root, &Routing::Unscoped).0,
        vec![1, 2, 3, 4]
    );
    let top = Routing::Scoped(ctx.scope());
    assert_eq!(emit(&ctx, &mut root, &top).0, vec![1, 4]);
}

#[test]
fn the_first_answer_ends_a_query() {
    let (ctx, mut root) = Context::new(1);
    for callback in [0, 5, 9] {
        assert!(ctx
            .on::<Ask>(&mut root, ask(), plain(ListenerRole::Responder, callback))
            .is_ok());
    }
    assert_eq!(
        query(&ctx, &mut root, 100).unwrap(),
        QueryOutcome::Answer(105)
    );
}

#[test]
fn a_dispatch_is_refused_for_its_reasons() {
    let (ctx, mut root) = Context::new(1);
    assert!(ctx
        .on::<Ask>(&mut root, ask(), plain(ListenerRole::Mapper, 1))
        .is_ok());
    assert!(matches!(
        ctx.query::<Ask>(&mut root, ask(), &Routing::Unscoped),
        Err(DispatchError::IncompatibleRole { .. })
    ));
    assert!(matches!(
        ctx.emit::<Ask>(&mut root, ping(), &Routing::Unscoped),
        Err(DispatchError::EventContractMismatch { .. })
    ));
    assert!(ctx
        .on::<Ask>(&mut root, ping(), plain(ListenerRole::Observer, 1))
        .is_err());
    let (other, _elsewhere) = Context::new(2);
    let foreign = Routing::Scoped(other.scope());
    assert!(matches!(
        ctx.emit::<Ping>(&mut root, ping(), &foreign),
        Err(DispatchError::ForeignScope)
    ));
    assert!(completed(&mut root)
        .iter()
        .all(|(_, outcome)| *outcome == DispatchOutcomeKind::Failed));
}

#[test]
fn a_waterfall_wraps_its_tail() {
    let (ctx, mut root) = Context::new(1);
    assert!(ctx
        .on::<Flow>(&mut root, ask(), HookKind::Around(1))
        .is_ok());
    assert!(ctx
        .on::<Flow>(&mut root, ask(), plain(ListenerRole::Mapper, 2))
        .is_ok());
    let mut flow = ctx
        .waterfall::<Flow>(&mut root, ask(), &Routing::Unscoped)
        .ok()
        .unwrap();
    match flow.start(&mut root, 10) {
        WaterfallAction::Around(invocation, 10) => assert_eq!(invocation.callback, 1),
        _ => panic!("the outermost listener comes first"),
    }
    match flow.step(&mut root, ChainEvent::NextCalled(11)) {
        WaterfallAction::Mapper(invocation, 11) => assert_eq!(invocation.callback, 2),
        _ => panic!("the continuation enters the rest"),
    }
    assert!(matches!(
        flow.step(&mut root, ChainEvent::Returned(Ok(22))),
        WaterfallAction::Tail(22)
    ));
    assert!(matches!(
        flow.step(&mut root, ChainEvent::Returned(Ok(33))),
        WaterfallAction::Resume(Ok(33))
    ));
    assert!(matches!(
        flow.step(&mut root, ChainEvent::Returned(Ok(1))),
        WaterfallAction::Ignore
    ));
    assert!(matches!(
        flow.step(
            &mut root,
            ChainEvent::AroundReturned {
                depth: 0,
                result: Ok(34)
            }
        ),
        WaterfallAction::Done(Ok(34))
    ));
}

#[test]
fn a_one_time_listener_is_claimed_once() {
    let (ctx, mut root) = Context::new(1);
    let once = ctx
        .on_with::<Ping>(
            &mut root,
            ping(),
            plain(ListenerRole::Observer, 1),
            ListenerOptions::default().once(),
        )
        .ok()
        .unwrap();
    assert_eq!(emit(&ctx, &mut root, &Routing::Unscoped).0, vec![1]);
    assert!(emit(&ctx, &mut root, &Routing::Unscoped).0.is_empty());
    assert!(!once.remove(&mut root));
}

#[test]
fn an_attribution_is_never_replaced() {
    let (ctx, mut root) = Context::new(1);
    assert!(ctx
        .on::<Flow>(&mut root, ask(), HookKind::Around(1))
        .is_ok());
    let inner = ctx
        .on::<Flow>(&mut root, ask(), plain(ListenerRole::Mapper, 2))
        .ok()
        .unwrap();
    let mut flow = ctx
        .waterfall::<Flow>(&mut root, ask(), &Routing::Unscoped)
        .ok()
        .unwrap();
    flow.start(&mut root, 1);
    flow.step(&mut root, ChainEvent::NextCalled(1));
    let failure = match flow.step(&mut root, ChainEvent::Returned(Err(boom()))) {
        WaterfallAction::Resume(Err(failure)) => failure,
        _ => panic!("the failure goes to the enclosing listener"),
    };
    assert_eq!(failure.registration_id(), Some(&inner.id()));
    match flow.step(
        &mut root,
        ChainEvent::AroundReturned {
            depth: 0,
            result: Err(failure),
        },
    ) {
        WaterfallAction::Done(Err(DispatchError::Invocation(failure))) => {
            assert_eq!(failure.registration_id(), Some(&inner.id()));
            assert_eq!(failure.message(), "boom");
        }
        _ => panic!("the failure ends the waterfall"),
    }
}

#[test]
fn a_listener_unregistered_during_a_dispatch_is_passed_by() {
    let (ctx, mut root) = Context::new(1);
    assert!(ctx
        .on::<Ping>(&mut root, ping(), plain(ListenerRole::Observer, 1))
        .is_ok());
    let second = ctx
        .on::<Ping>(&mut root, ping(), plain(ListenerRole::Observer, 2))
        .ok()
        .unwrap();
    let mut emit = ctx
        .emit::<Ping>(&mut root, ping(), &Routing::Unscoped)
        .ok()
        .unwrap();
    assert!(matches!(emit.advance(&mut root), EmitStep::Invoke(_)));
    assert!(second.remove(&mut root));
    assert!(matches!(
        emit.returned(&mut root, None),
        EmitStep::Done(Ok(()))
    ));
}

fn hook(id: u64, options: ListenerOptions) -> Hook {
    Hook {
        id: ListenerRegistrationId(id),
        scope: None,
        options,
        kind: plain(ListenerRole::Observer, id),
    }
}

#[test]
fn compaction_keeps_the_effective_order() {
    let mut hooks = EventHooks::new();
    for id in 1..=80 {
        hooks.add(hook(id, ListenerOptions::default()));
    }
    for id in 1..=60 {
        assert!(hooks.remove(ListenerRegistrationId(id)).is_some());
        assert!(hooks.remove(ListenerRegistrationId(id)).is_none());
    }
    let listed = |hooks: &EventHooks| -> Vec<u64> { hooks.iter().iter().map(|h| h.id.0).collect() };
    let left: Vec<u64> = (61..=80).collect();
    assert_eq!(listed(&hooks), left);
    hooks.compact_if_sparse();
    assert_eq!(listed(&hooks), left);
    hooks.add(hook(81, ListenerOptions::default().prepend()));
    assert_eq!(listed(&hooks)[0], 81);
    assert_eq!(listed(&hooks).len(), 21);
    assert!(hooks.get(ListenerRegistrationId(60)).is_none());
    assert!(hooks.get(ListenerRegistrationId(61)).is_some());
}

#[test]
fn repeated_claims_of_a_listener() {
    let mut store = EventStore::new();
    let name = "ping".to_owned();
    assert!(store
        .add_reserved(&name, ping(), hook(1, ListenerOptions::default()))
        .is_ok());
    assert!(store
        .add_reserved(&name, ping(), hook(2, ListenerOptions::default().once()))
        .is_ok());
    for _ in 0..3 {
        assert_eq!(store.claim(&name, ListenerRegistrationId(1)), (true, false));
        assert_eq!(store.claim(&name, ListenerRegistrationId(3)), (false, false));
    }
    assert_eq!(store.claim(&name, ListenerRegistrationId(2)), (true, true));
    for _ in 0..3 {
        assert_eq!(store.claim(&name, ListenerRegistrationId(2)), (false, false));
    }
    assert!(store.remove(&name, ListenerRegistrationId(1)));
    assert_eq!(store.claim(&name, ListenerRegistrationId(1)), (false, false));
}

#[test]
fn reach_is_an_order_on_derived_nodes() {
    let parent = ScopeNode::derive(&None, 1);
    let child = ScopeNode::derive(&Some(parent.clone()), 2);
    let sibling = ScopeNode::derive(&Some(parent.clone()), 3);
    let deep = ScopeNode::derive(&Some(child.clone()), 4);
    assert!(parent.reaches(&parent) && child.reaches(&parent) && !parent.reaches(&child));
    assert!(!child.reaches(&sibling) && !sibling.reaches(&child));
    assert!(deep.reaches(&child) && deep.reaches(&parent) && !deep.reaches(&sibling));
}
