//! The Mapper/Around waterfall.

use crate::chain::{
    lemma_chain_wf, result_view, Awaiting, Chain, ChainEvent, ChainEventView, ChainMove,
    ChainMoveView, ChainResult, ChainResultView, ChainView,
};
use crate::context::Context;
use crate::dispatch::{Invocation, Query, SequenceView};
use crate::event::{
    DispatchError, DispatchErrorView, DispatchOutcomeKind, Event, EventContract, EventOperation,
    ObservationRouting, Routing,
};
use crate::event_store::{hook_views, Hook, HookKind, HookView};
use crate::ids::ListenerRegistrationId;
use crate::root::{Root, RootView};
use vstd::prelude::*;

verus! {

/// What a waterfall does next.
pub enum WaterfallAction {
    /// The event is not one the waterfall waits for.
    Ignore,
    /// Invoke a Mapper with a payload.
    Mapper(Invocation, u64),
    /// Invoke an Around listener with a payload and a continuation.
    Around(Invocation, u64),
    /// Run the tail with a payload.
    Tail(u64),
    /// Hand a result to the innermost open Around listener, as what its
    /// continuation returned.
    Resume(ChainResult),
    /// The waterfall is complete.
    Done(Result<u64, DispatchError>),
}

/// What a waterfall does next, as a mathematical value.
pub enum WaterfallActionView {
    Ignore,
    Mapper(Invocation, u64),
    Around(Invocation, u64),
    Tail(u64),
    Resume(ChainResultView),
    Done(Result<u64, DispatchErrorView>),
}

/// The view of a waterfall's outcome.
pub open spec fn waterfall_result(r: Result<u64, DispatchError>) -> Result<u64, DispatchErrorView> {
    match r {
        Ok(output) => Ok(output),
        Err(e) => Err(e@),
    }
}

impl View for WaterfallAction {
    type V = WaterfallActionView;

    open spec fn view(&self) -> WaterfallActionView {
        match self {
            WaterfallAction::Ignore => WaterfallActionView::Ignore,
            WaterfallAction::Mapper(i, payload) => WaterfallActionView::Mapper(*i, *payload),
            WaterfallAction::Around(i, payload) => WaterfallActionView::Around(*i, *payload),
            WaterfallAction::Tail(payload) => WaterfallActionView::Tail(*payload),
            WaterfallAction::Resume(r) => WaterfallActionView::Resume(result_view(*r)),
            WaterfallAction::Done(r) => WaterfallActionView::Done(waterfall_result(*r)),
        }
    }
}

/// A waterfall in progress.
pub struct Waterfall {
    event: String,
    routing: ObservationRouting,
    hooks: Vec<Hook>,
    chain: Chain,
}

/// A waterfall as a mathematical value.
#[verifier::ext_equal]
pub struct WaterfallView {
    pub event: Seq<char>,
    pub routing: ObservationRouting,
    /// The listeners selected when the dispatch began.
    pub hooks: Seq<HookView>,
    pub chain: ChainView,
}

/// What one step of a waterfall comes to.
#[verifier::ext_equal]
pub struct WaterfallStep {
    /// The Runtime after it.
    pub root: RootView,
    /// The onion after it.
    pub chain: ChainView,
    /// What comes next.
    pub action: WaterfallActionView,
}

impl View for Waterfall {
    type V = WaterfallView;

    closed spec fn view(&self) -> WaterfallView {
        WaterfallView {
            event: self.event@,
            routing: self.routing,
            hooks: hook_views(self.hooks@),
            chain: self.chain@,
        }
    }
}

/// The identities of a list of listeners.
pub open spec fn hook_ids(hooks: Seq<HookView>) -> Seq<ListenerRegistrationId> {
    hooks.map_values(|h: HookView| h.id)
}

impl WaterfallView {
    /// A waterfall nobody has entered.
    pub open spec fn begin(
        event: Seq<char>,
        routing: ObservationRouting,
        hooks: Seq<HookView>,
    ) -> WaterfallView {
        WaterfallView { event, routing, hooks, chain: ChainView::fresh(hook_ids(hooks)) }
    }

    /// The onion is made of the selected listeners.
    pub open spec fn wf(self) -> bool {
        &&& self.chain.ids == hook_ids(self.hooks)
        &&& self.chain.wf()
        &&& self.hooks.len() <= usize::MAX
    }

    /// Entering from a position: listeners unregistered meanwhile are passed by,
    /// the first one left is claimed and invoked, and past the last one the tail
    /// runs.
    pub open spec fn entering(self, root: RootView, index: int, payload: u64) -> WaterfallStep {
        let k = root.next_hook(self.event, self.hooks, index);
        if k < self.hooks.len() {
            let hook = self.hooks[k];
            let invocation = Invocation { id: hook.id, callback: hook.callback() };
            let claimed = root.claiming_hook(self.event, hook);
            match hook.kind {
                HookKind::Around(_) => WaterfallStep {
                    root: claimed,
                    chain: self.chain.opening(k as usize),
                    action: WaterfallActionView::Around(invocation, payload),
                },
                HookKind::Plain { .. } => WaterfallStep {
                    root: claimed,
                    chain: ChainView { awaiting: Awaiting::Mapper(k as usize), ..self.chain },
                    action: WaterfallActionView::Mapper(invocation, payload),
                },
            }
        } else {
            WaterfallStep {
                root,
                chain: ChainView { awaiting: Awaiting::Tail, ..self.chain },
                action: WaterfallActionView::Tail(payload),
            }
        }
    }

    /// What one event makes of a waterfall. What comes out of the onion completes
    /// the dispatch.
    pub open spec fn step(self, root: RootView, event: ChainEventView) -> WaterfallStep {
        let s = self.chain.step(event);
        match s.next {
            ChainMoveView::Ignore => WaterfallStep {
                root,
                chain: s.chain,
                action: WaterfallActionView::Ignore,
            },
            ChainMoveView::Enter { index, payload } => (WaterfallView {
                chain: s.chain,
                ..self
            }).entering(root, index as int, payload),
            ChainMoveView::Resume(result) => WaterfallStep {
                root,
                chain: s.chain,
                action: WaterfallActionView::Resume(result),
            },
            ChainMoveView::Finish(result) => match result {
                Ok(output) => WaterfallStep {
                    root: root.dispatched(
                        EventOperation::Waterfall,
                        self.event,
                        self.routing,
                        DispatchOutcomeKind::Completed,
                    ),
                    chain: s.chain,
                    action: WaterfallActionView::Done(Ok(output)),
                },
                Err(failure) => WaterfallStep {
                    root: root.dispatched(
                        EventOperation::Waterfall,
                        self.event,
                        self.routing,
                        DispatchOutcomeKind::Failed,
                    ),
                    chain: s.chain,
                    action: WaterfallActionView::Done(Err(DispatchErrorView::Invocation(failure))),
                },
            },
        }
    }
}

fn ids_of(hooks: &Vec<Hook>) -> (r: Vec<ListenerRegistrationId>)
    ensures
        r@ == hook_ids(hook_views(hooks@)),
        hooks@.len() <= usize::MAX,
{
    let ghost all = hook_ids(hook_views(hooks@));
    let mut out: Vec<ListenerRegistrationId> = Vec::new();
    let mut i: usize = 0;
    while i < hooks.len()
        invariant
            i <= hooks@.len(),
            all == hook_ids(hook_views(hooks@)),
            out@ == all.take(i as int),
        decreases hooks@.len() - i,
    {
        assert(all[i as int] == hooks@[i as int]@.id);
        out.push(hooks[i].id);
        assert(out@ =~= all.take(i + 1));
        i = i + 1;
    }
    assert(out@ =~= all);
    out
}

impl Context {
    /// Begins a waterfall. A refused preflight is a failed dispatch.
    pub fn waterfall<E: Event>(
        &self,
        root: &mut Root,
        contract: EventContract,
        routing: &Routing,
    ) -> (r: Result<Waterfall, DispatchError>)
        requires
            old(root).wf(),
        ensures
            final(root).wf(),
            ({
                let after = old(root)@.preflighted(self@, E::NAME@, contract, routing@);
                match old(root)@.preflight(
                    self@,
                    E::NAME@,
                    contract,
                    routing@,
                    EventOperation::Waterfall,
                ) {
                    Ok(hooks) => {
                        &&& r matches Ok(waterfall) && waterfall@ == WaterfallView::begin(
                            E::NAME@,
                            routing@.observed(),
                            hooks,
                        ) && waterfall@.wf()
                        &&& final(root)@ == after
                    },
                    Err(e) => {
                        &&& r matches Err(x) && x@ == e
                        &&& final(root)@ == after.dispatched(
                            EventOperation::Waterfall,
                            E::NAME@,
                            routing@.observed(),
                            DispatchOutcomeKind::Failed,
                        )
                    },
                }
            }),
    {
        let event: String = E::NAME.to_owned();
        let observed = ObservationRouting::from_routing(routing);
        match self.preflight(root, &event, contract, routing, EventOperation::Waterfall) {
            Ok(hooks) => {
                let chain = Chain::new(ids_of(&hooks));
                Ok(Waterfall { event, routing: observed, hooks, chain })
            },
            Err(e) => {
                root.publish_dispatch(
                    EventOperation::Waterfall,
                    &event,
                    observed,
                    DispatchOutcomeKind::Failed,
                );
                Err(e)
            },
        }
    }
}

impl Waterfall {
    fn enter(&mut self, root: &mut Root, index: usize, payload: u64) -> (r: WaterfallAction)
        requires
            old(root).wf(),
            old(self)@.wf(),
            index <= old(self)@.hooks.len(),
        ensures
            final(root).wf(),
            final(self)@.wf(),
            final(root)@ == old(self)@.entering(old(root)@, index as int, payload).root,
            final(self)@ == (WaterfallView {
                chain: old(self)@.entering(old(root)@, index as int, payload).chain,
                ..old(self)@
            }),
            r@ == old(self)@.entering(old(root)@, index as int, payload).action,
    {
        match root.claim_next(&self.event, &self.hooks, index) {
            Some(at) => {
                let hook = &self.hooks[at];
                assert(self@.hooks[at as int] == hook@);
                let invocation = Invocation { id: hook.id, callback: hook.callback() };
                match hook.kind {
                    HookKind::Around(_) => {
                        self.chain.open_around(at);
                        WaterfallAction::Around(invocation, payload)
                    },
                    HookKind::Plain { .. } => {
                        self.chain.wait_for(Awaiting::Mapper(at));
                        WaterfallAction::Mapper(invocation, payload)
                    },
                }
            },
            None => {
                self.chain.wait_for(Awaiting::Tail);
                WaterfallAction::Tail(payload)
            },
        }
    }

    /// Enters the onion with the dispatch's arguments.
    pub fn start(&mut self, root: &mut Root, args: u64) -> (r: WaterfallAction)
        requires
            old(root).wf(),
            old(self)@.wf(),
        ensures
            final(root).wf(),
            final(self)@.wf(),
            final(root)@ == old(self)@.entering(old(root)@, 0, args).root,
            final(self)@ == (WaterfallView {
                chain: old(self)@.entering(old(root)@, 0, args).chain,
                ..old(self)@
            }),
            r@ == old(self)@.entering(old(root)@, 0, args).action,
    {
        self.enter(root, 0, args)
    }

    /// Takes one event; says what comes next.
    pub fn step(&mut self, root: &mut Root, event: ChainEvent) -> (r: WaterfallAction)
        requires
            old(root).wf(),
            old(self)@.wf(),
        ensures
            final(root).wf(),
            final(self)@.wf(),
            final(root)@ == old(self)@.step(old(root)@, event@).root,
            final(self)@ == (WaterfallView {
                chain: old(self)@.step(old(root)@, event@).chain,
                ..old(self)@
            }),
            r@ == old(self)@.step(old(root)@, event@).action,
    {
        proof {
            lemma_chain_wf(self@.chain, event@);
        }
        match self.chain.step(event) {
            ChainMove::Ignore => WaterfallAction::Ignore,
            ChainMove::Enter { index, payload } => self.enter(root, index, payload),
            ChainMove::Resume(result) => WaterfallAction::Resume(result),
            ChainMove::Finish(result) => match result {
                Ok(output) => {
                    root.publish_dispatch(
                        EventOperation::Waterfall,
                        &self.event,
                        self.routing,
                        DispatchOutcomeKind::Completed,
                    );
                    WaterfallAction::Done(Ok(output))
                },
                Err(failure) => {
                    root.publish_dispatch(
                        EventOperation::Waterfall,
                        &self.event,
                        self.routing,
                        DispatchOutcomeKind::Failed,
                    );
                    WaterfallAction::Done(Err(DispatchError::Invocation(failure)))
                },
            },
        }
    }
}

/// A waterfall whose tail performs one query with the same routing.
pub struct WaterfallQuery {
    /// The waterfall.
    pub waterfall: Waterfall,
    /// The routing of both dispatches.
    pub routing: Routing,
}

impl WaterfallQuery {
    /// Begins the query the tail performs. The resolver gets its complete result,
    /// also where it is refused.
    pub fn tail<Q: Event>(&self, ctx: &Context, root: &mut Root, contract: EventContract) -> (r:
        Result<Query, DispatchError>)
        requires
            old(root).wf(),
        ensures
            final(root).wf(),
            ({
                let routing = self.routing@;
                let after = old(root)@.preflighted(ctx@, Q::NAME@, contract, routing);
                match old(root)@.preflight(
                    ctx@,
                    Q::NAME@,
                    contract,
                    routing,
                    EventOperation::Query,
                ) {
                    Ok(hooks) => {
                        &&& r matches Ok(query) && query@ == (SequenceView {
                            event: Q::NAME@,
                            routing: routing.observed(),
                            hooks,
                            index: 0,
                        })
                        &&& final(root)@ == after
                    },
                    Err(e) => {
                        &&& r matches Err(x) && x@ == e
                        &&& final(root)@ == after.dispatched(
                            EventOperation::Query,
                            Q::NAME@,
                            routing.observed(),
                            DispatchOutcomeKind::Failed,
                        )
                    },
                }
            }),
    {
        ctx.query::<Q>(root, contract, &self.routing)
    }
}

impl Context {
    /// Begins a waterfall whose tail performs one query with the same routing.
    pub fn waterfall_query<E: Event>(
        &self,
        root: &mut Root,
        contract: EventContract,
        routing: &Routing,
    ) -> (r: Result<WaterfallQuery, DispatchError>)
        requires
            old(root).wf(),
        ensures
            final(root).wf(),
            ({
                let after = old(root)@.preflighted(self@, E::NAME@, contract, routing@);
                match old(root)@.preflight(
                    self@,
                    E::NAME@,
                    contract,
                    routing@,
                    EventOperation::Waterfall,
                ) {
                    Ok(hooks) => {
                        &&& r matches Ok(w) && w.routing@ == routing@ && w.waterfall@
                            == WaterfallView::begin(E::NAME@, routing@.observed(), hooks)
                            && w.waterfall@.wf()
                        &&& final(root)@ == after
                    },
                    Err(e) => {
                        &&& r matches Err(x) && x@ == e
                        &&& final(root)@ == after.dispatched(
                            EventOperation::Waterfall,
                            E::NAME@,
                            routing@.observed(),
                            DispatchOutcomeKind::Failed,
                        )
                    },
                }
            }),
    {
        match self.waterfall::<E>(root, contract, routing) {
            Ok(waterfall) => Ok(WaterfallQuery { waterfall, routing: routing.duplicate() }),
            Err(e) => Err(e),
        }
    }
}

/// Without listeners a waterfall goes straight to its tail, and what the tail
/// returns is what comes out, a failure attributed to nobody.
pub proof fn law_a_waterfall_without_listeners_is_its_tail(
    w: WaterfallView,
    root: RootView,
    args: u64,
    result: ChainResultView,
)
    requires
        w.hooks.len() == 0,
        w.chain == ChainView::fresh(Seq::empty()),
    ensures
        w.entering(root, 0, args).action == WaterfallActionView::Tail(args),
        ({
            let tail = WaterfallView { chain: w.entering(root, 0, args).chain, ..w };
            let step = tail.step(root, ChainEventView::Returned(result));
            step.action == WaterfallActionView::Done(
                match result {
                    Ok(output) => Ok(output),
                    Err(failure) => Err(DispatchErrorView::Invocation(failure)),
                },
            )
        }),
{
}

} // verus!
