//! What a dispatch delivers: which listeners are invoked, how often, in which order,
//! and what comes of their answers.

use crate::context::ContextView;
use crate::dispatch::{
    answer_of, claim_all, invocations, law_a_dispatch_moves_forward, parallel_failures,
    EmitStepView, EmitTurn, Invocation, QueryStepView, QueryTurn, SequenceView,
};
use crate::event::{
    CallbackValue, DispatchErrorView, DispatchOutcomeKind, EventContract, EventOperation,
    InvocationFailureView, ListenerRole, QueryOutcome, RoutingView,
};
use crate::event_store::{
    distinct_hooks, eligible_for, is_hook, law_a_registration_touches_one_event,
    law_an_unregistration_ends_its_listener, law_unscoped_routing_selects_every_listener,
    lemma_filtered_distinct, misfit, not_hook, EventsView, HookKind, HookView,
};
use crate::ids::ListenerRegistrationId;
use crate::root::RootView;
use crate::scope::in_reach;
use crate::seqs::{first_index, lemma_filter_members, lemma_first_exists, lemma_first_meets};
use crate::sound::lemma_listeners_below;
use crate::observation::ObservationView;
use crate::reasons::law_the_first_use_binds_an_event;
use vstd::prelude::*;

verus! {

/// Whether a selected listener is registered.
pub open spec fn registered(root: RootView, event: Seq<char>) -> spec_fn(HookView) -> bool {
    |h: HookView| root.claimable(event, h)
}

proof fn lemma_removal_keeps_others(
    events: EventsView,
    name: Seq<char>,
    id: ListenerRegistrationId,
    that: ListenerRegistrationId,
)
    requires
        events.wf(),
        that != id,
    ensures
        events.removing(name, id).find(name, that) is Some == events.find(name, that) is Some,
        events.removing(name, id).wf(),
{
    let all = events.listeners(name);
    let list = all.filter(not_hook(id));
    law_a_registration_touches_one_event(events, name, list, name);
    law_an_unregistration_ends_its_listener(events, name, id, name, that);
    lemma_first_meets(all, is_hook(that));
    if events.find(name, that) is Some && events.find(name, id) is Some {
        let h = events.find(name, that).unwrap();
        assert(all.contains(h));
        lemma_filter_members(all, not_hook(id), h);
        let k = choose|k: int| 0 <= k < list.len() && list[k] == h;
        lemma_first_exists(list, is_hook(that), k);
    }
}

proof fn lemma_claim_keeps_others(root: RootView, event: Seq<char>, hook: HookView, other: HookView)
    requires
        root.events.wf(),
        other.id != hook.id,
    ensures
        root.claiming_hook(event, hook).claimable(event, other) == root.claimable(event, other),
        root.claiming_hook(event, hook).events.wf(),
{
    lemma_removal_keeps_others(root.events, event, hook.id, other.id);
}

proof fn lemma_claims_keep_others(
    root: RootView,
    event: Seq<char>,
    hooks: Seq<HookView>,
    other: HookView,
)
    requires
        root.events.wf(),
        forall|i: int| 0 <= i < hooks.len() ==> (#[trigger] hooks[i]).id != other.id,
    ensures
        claim_all(root, event, hooks).root.claimable(event, other) == root.claimable(event, other),
        claim_all(root, event, hooks).root.events.wf(),
    decreases hooks.len(),
{
    if hooks.len() > 0 {
        let shorter = hooks.drop_last();
        assert forall|i: int| 0 <= i < shorter.len() implies (#[trigger] shorter[i]).id
            != other.id by {
            assert(hooks[i].id != other.id);
        }
        lemma_claims_keep_others(root, event, shorter, other);
        let n = hooks.len() - 1;
        assert(hooks[n].id != other.id);
        lemma_claim_keeps_others(claim_all(root, event, shorter).root, event, hooks[n], other);
    }
}

/// A parallel notification hands out exactly the selected listeners that are still
/// registered, one invocation for each, in effective order.
pub proof fn law_a_parallel_notification_invokes_every_listener(
    root: RootView,
    event: Seq<char>,
    hooks: Seq<HookView>,
)
    requires
        root.events.wf(),
        distinct_hooks(hooks),
    ensures
        claim_all(root, event, hooks).hooks == hooks.filter(registered(root, event)),
        invocations(claim_all(root, event, hooks).hooks).len() == hooks.filter(
            registered(root, event),
        ).len(),
        forall|i: int|
            0 <= i < claim_all(root, event, hooks).hooks.len() ==> {
                let invocation = #[trigger] invocations(claim_all(root, event, hooks).hooks)[i];
                let hook = hooks.filter(registered(root, event))[i];
                &&& invocation.id == hook.id
                &&& match hook.kind {
                    HookKind::Plain { callback, .. } => invocation.callback == callback,
                    HookKind::Around(callback) => invocation.callback == callback,
                }
            },
        (forall|i: int| 0 <= i < hooks.len() ==> root.claimable(event, #[trigger] hooks[i]))
            ==> claim_all(root, event, hooks).hooks == hooks,
    decreases hooks.len(),
{
    reveal(Seq::filter);
    if hooks.len() > 0 {
        let shorter = hooks.drop_last();
        let n = hooks.len() - 1;
        assert(distinct_hooks(shorter)) by {
            assert forall|i: int, j: int| 0 <= i < j < shorter.len() implies (
            #[trigger] shorter[i]).id != (#[trigger] shorter[j]).id by {
                assert(hooks[i].id != hooks[j].id);
            }
        }
        law_a_parallel_notification_invokes_every_listener(root, event, shorter);
        assert forall|i: int| 0 <= i < shorter.len() implies (#[trigger] shorter[i]).id
            != hooks[n].id by {
            assert(hooks[i].id != hooks[n].id);
        }
        lemma_claims_keep_others(root, event, shorter, hooks[n]);
        if forall|i: int| 0 <= i < hooks.len() ==> root.claimable(event, #[trigger] hooks[i]) {
            assert forall|i: int| 0 <= i < shorter.len() implies root.claimable(
                event,
                #[trigger] shorter[i],
            ) by {
                assert(root.claimable(event, hooks[i]));
            }
            assert(root.claimable(event, hooks[n]));
            assert(hooks =~= shorter.push(hooks[n]));
        }
    } else {
        assert(hooks =~= Seq::empty());
    }
}

/// A preflight that is granted selects exactly the registered listeners of the Event
/// that the routing reaches, each once, in effective order; all of them, where it is
/// unscoped. It is refused only for a Scope of another Runtime, another contract or
/// a role that does not fit.
pub proof fn law_a_preflight_selects_the_listeners_in_reach(
    root: RootView,
    ctx: ContextView,
    event: Seq<char>,
    contract: EventContract,
    routing: RoutingView,
    operation: EventOperation,
)
    requires
        root.sound(),
    ensures
        match root.preflight(ctx, event, contract, routing, operation) {
            Ok(hooks) => {
                &&& distinct_hooks(hooks)
                &&& forall|h: HookView| #[trigger]
                    hooks.contains(h) <==> root.events.listeners(event).contains(h) && (
                    routing matches RoutingView::Scoped(scope) ==> h.options.global || in_reach(
                        h.scope,
                        scope.chain,
                    ))
                &&& forall|i: int|
                    0 <= i < hooks.len() ==> root.claimable(event, #[trigger] hooks[i])
                &&& routing is Unscoped ==> hooks == root.events.listeners(event)
                &&& in_order(hooks, root.events.listeners(event))
            },
            Err(_) => {
                ||| routing matches RoutingView::Scoped(scope) && scope.membership != ctx.runtime
                ||| root.events.bound(event) matches Some(c) && c != contract
                ||| exists|i: int|
                    0 <= i < root.events.listeners(event).len() && !operation.admits(
                        (#[trigger] root.events.listeners(event)[i]).kind.spec_role(),
                    )
            },
        },
{
    reveal(RootView::sound);
    let all = root.events.listeners(event);
    let p = eligible_for(routing);
    let hooks = all.filter(p);
    lemma_listeners_below(root.events, event, root.next);
    lemma_filtered_distinct(all, p);
    lemma_selection_in_order(all, p);
    assert forall|h: HookView| #[trigger] hooks.contains(h) <==> all.contains(h) && p(h) by {
        lemma_filter_members(all, p, h);
    }
    assert forall|i: int| 0 <= i < hooks.len() implies root.claimable(event, #[trigger] hooks[i]) by {
        assert(hooks.contains(hooks[i]));
        let k = choose|k: int| 0 <= k < all.len() && all[k] == hooks[i];
        lemma_first_exists(all, is_hook(hooks[i].id), k);
    }
    if routing is Unscoped {
        law_unscoped_routing_selects_every_listener(root.events, event);
    }
    lemma_first_meets(hooks, misfit(operation));
    if hooks.len() > 0 {
        match first_index(hooks, misfit(operation)) {
            Some(i) => {
                assert(hooks.contains(hooks[i]));
                let k = choose|k: int| 0 <= k < all.len() && all[k] == hooks[i];
                assert(!operation.admits(all[k].kind.spec_role()));
            },
            None => {},
        }
    }
}

/// Whether `some` stand in `all` in the same order, each at a place of its own.
pub open spec fn in_order(some: Seq<HookView>, all: Seq<HookView>) -> bool {
    exists|at: Seq<int>| #[trigger] places_in(at, some, all)
}

/// Whether `at` says where each of `some` stands in `all`.
pub open spec fn places_in(at: Seq<int>, some: Seq<HookView>, all: Seq<HookView>) -> bool {
    &&& at.len() == some.len()
    &&& forall|i: int|
        0 <= i < at.len() ==> 0 <= #[trigger] at[i] < all.len() && all[at[i]] == some[i]
    &&& forall|i: int, j: int| 0 <= i < j < at.len() ==> #[trigger] at[i] < #[trigger] at[j]
}

proof fn lemma_selection_in_order(all: Seq<HookView>, p: spec_fn(HookView) -> bool)
    ensures
        in_order(all.filter(p), all),
    decreases all.len(),
{
    reveal(Seq::filter);
    if all.len() == 0 {
        assert(places_in(Seq::empty(), all.filter(p), all));
    } else {
        let shorter = all.drop_last();
        lemma_selection_in_order(shorter, p);
        let at = choose|at: Seq<int>| #[trigger] places_in(at, shorter.filter(p), shorter);
        let n = all.len() - 1;
        if p(all[n]) {
            let more = at.push(n);
            assert forall|i: int| 0 <= i < more.len() implies 0 <= #[trigger] more[i] < all.len()
                && all[more[i]] == all.filter(p)[i] by {
                if i < at.len() {
                    assert(shorter[at[i]] == shorter.filter(p)[i]);
                }
            }
            assert(places_in(more, all.filter(p), all));
        } else {
            assert forall|i: int| 0 <= i < at.len() implies 0 <= #[trigger] at[i] < all.len()
                && all[at[i]] == all.filter(p)[i] by {
                assert(shorter[at[i]] == shorter.filter(p)[i]);
            }
            assert(places_in(at, all.filter(p), all));
        }
    }
}

/// A parallel notification that is granted invokes every listener it selected.
pub proof fn law_a_parallel_notification_reaches_whom_it_selected(
    root: RootView,
    ctx: ContextView,
    event: Seq<char>,
    contract: EventContract,
    routing: RoutingView,
)
    requires
        root.sound(),
    ensures
        root.preflight(ctx, event, contract, routing, EventOperation::EmitParallel) matches Ok(
            hooks,
        ) ==> claim_all(
            root.preflighted(ctx, event, contract, routing),
            event,
            hooks,
        ).hooks == hooks,
{
    law_a_preflight_selects_the_listeners_in_reach(
        root,
        ctx,
        event,
        contract,
        routing,
        EventOperation::EmitParallel,
    );
    let after = root.preflighted(ctx, event, contract, routing);
    assert(root.events.wf()) by {
        reveal(RootView::sound);
    }
    assert(after.events.hooks == root.events.hooks);
    assert(after.events.listeners(event) == root.events.listeners(event));
    match root.preflight(ctx, event, contract, routing, EventOperation::EmitParallel) {
        Ok(hooks) => {
            assert forall|i: int| 0 <= i < hooks.len() implies after.claimable(
                event,
                #[trigger] hooks[i],
            ) by {
                assert(root.claimable(event, hooks[i]));
            }
            law_a_parallel_notification_invokes_every_listener(after, event, hooks);
        },
        Err(_) => {},
    }
}

impl SequenceView {
    /// Whom a sequential dispatch invokes, where every listener lets it go on and
    /// nothing else happens to the Runtime.
    pub open spec fn invoked(self, root: RootView) -> Seq<Invocation>
        decreases self.hooks.len() - self.index,
    {
        match self.next(root) {
            Some(k) => if self.index <= k < self.hooks.len() {
                seq![self.invocation(k)] + self.past(k).invoked(
                    root.claiming_hook(self.event, self.hooks[k]),
                )
            } else {
                Seq::empty()
            },
            None => Seq::empty(),
        }
    }
}

/// A sequential dispatch that goes through invokes every selected listener that is
/// still registered, once, in effective order: the same ones a parallel notification
/// would.
pub proof fn law_a_sequential_dispatch_invokes_every_listener(seq: SequenceView, root: RootView)
    requires
        root.events.wf(),
        seq.wf(),
        distinct_hooks(seq.hooks),
    ensures
        seq.invoked(root) == invocations(
            seq.hooks.skip(seq.index as int).filter(registered(root, seq.event)),
        ),
    decreases seq.hooks.len() - seq.index,
{
    let hooks = seq.hooks;
    let event = seq.event;
    let at = seq.index as int;
    let p = registered(root, event);
    law_a_dispatch_moves_forward(root, event, hooks, at);
    let k = root.next_hook(event, hooks, at);
    let passed = hooks.subrange(at, k);
    lemma_none_kept(passed, p);
    if k < hooks.len() {
        let after = root.claiming_hook(event, hooks[k]);
        let q = registered(after, event);
        let rest = hooks.skip(k + 1);
        lemma_claim_keeps_the_store(root, event, hooks[k]);
        law_a_sequential_dispatch_invokes_every_listener(seq.past(k), after);
        assert forall|i: int| 0 <= i < rest.len() implies p(#[trigger] rest[i]) == q(rest[i]) by {
            assert(hooks[k].id != hooks[k + 1 + i].id);
            lemma_claim_keeps_others(root, event, hooks[k], rest[i]);
        }
        lemma_same_kept(rest, p, q);
        let one = seq![hooks[k]];
        assert(hooks.skip(at) =~= passed + (one + rest));
        Seq::filter_distributes_over_add(passed, one + rest, p);
        Seq::filter_distributes_over_add(one, rest, p);
        assert(one.filter(p) =~= one) by {
            reveal(Seq::filter);
            assert(one.drop_last() =~= Seq::empty());
            assert(one.drop_last().filter(p) =~= Seq::empty());
            assert(one.last() == hooks[k]);
        }
        let kept = rest.filter(p);
        assert(hooks.skip(at).filter(p) =~= one + kept);
        assert(invocations(one + kept) =~= seq![seq.invocation(k)] + invocations(kept));
    } else {
        assert(hooks.skip(at) =~= passed);
        assert(invocations(Seq::empty()) =~= Seq::empty());
    }
}

proof fn lemma_none_kept(list: Seq<HookView>, p: spec_fn(HookView) -> bool)
    requires
        forall|i: int| 0 <= i < list.len() ==> !p(#[trigger] list[i]),
    ensures
        list.filter(p) == Seq::<HookView>::empty(),
    decreases list.len(),
{
    reveal(Seq::filter);
    if list.len() > 0 {
        let shorter = list.drop_last();
        assert forall|i: int| 0 <= i < shorter.len() implies !p(#[trigger] shorter[i]) by {
            assert(!p(list[i]));
        }
        lemma_none_kept(shorter, p);
        assert(!p(list[list.len() - 1]));
    }
}

proof fn lemma_same_kept(
    list: Seq<HookView>,
    p: spec_fn(HookView) -> bool,
    q: spec_fn(HookView) -> bool,
)
    requires
        forall|i: int| 0 <= i < list.len() ==> p(#[trigger] list[i]) == q(list[i]),
    ensures
        list.filter(p) == list.filter(q),
    decreases list.len(),
{
    reveal(Seq::filter);
    if list.len() > 0 {
        let shorter = list.drop_last();
        assert forall|i: int| 0 <= i < shorter.len() implies p(#[trigger] shorter[i]) == q(
            shorter[i],
        ) by {
            assert(p(list[i]) == q(list[i]));
        }
        lemma_same_kept(shorter, p, q);
        assert(p(list[list.len() - 1]) == q(list[list.len() - 1]));
    }
}

proof fn lemma_claim_keeps_the_store(root: RootView, event: Seq<char>, hook: HookView)
    requires
        root.events.wf(),
    ensures
        root.claiming_hook(event, hook).events.wf(),
{
    law_a_registration_touches_one_event(
        root.events,
        event,
        root.events.listeners(event).filter(not_hook(hook.id)),
        event,
    );
}

/// A claim of a listener leaves a lasting one registered and ends a one-time one, so
/// that it takes part in one dispatch alone.
pub proof fn law_a_claim_ends_a_one_time_listener_alone(
    root: RootView,
    event: Seq<char>,
    hook: HookView,
)
    requires
        root.events.wf(),
    ensures
        ({
            let after = root.claiming_hook(event, hook);
            match root.events.find(event, hook.id) {
                Some(h) => {
                    &&& after.claimable(event, hook) == !h.options.once
                    &&& !h.options.once ==> after == root
                },
                None => !after.claimable(event, hook) && after == root,
            }
        }),
{
    law_an_unregistration_ends_its_listener(root.events, event, hook.id, event, hook.id);
}

/// Whether an invocation failed.
pub open spec fn failed() -> spec_fn(Option<InvocationFailureView>) -> bool {
    |o: Option<InvocationFailureView>| o is Some
}

/// A notification fails exactly if an invocation did, and reports as many failures as
/// there were.
pub proof fn law_a_parallel_notification_counts_its_failures(
    claimed: Seq<Invocation>,
    outcomes: Seq<Option<InvocationFailureView>>,
)
    requires
        outcomes.len() <= claimed.len(),
    ensures
        parallel_failures(claimed, outcomes).len() == outcomes.filter(failed()).len(),
        parallel_failures(claimed, outcomes).len() == 0 <==> forall|i: int|
            0 <= i < outcomes.len() ==> #[trigger] outcomes[i] is None,
    decreases outcomes.len(),
{
    reveal(Seq::filter);
    if outcomes.len() > 0 {
        let shorter = outcomes.drop_last();
        let n = outcomes.len() - 1;
        law_a_parallel_notification_counts_its_failures(claimed, shorter);
        if forall|i: int| 0 <= i < outcomes.len() ==> #[trigger] outcomes[i] is None {
            assert forall|i: int| 0 <= i < shorter.len() implies #[trigger] shorter[i] is None by {
                assert(outcomes[i] is None);
            }
            assert(outcomes[n] is None);
        }
        if parallel_failures(claimed, outcomes).len() == 0 {
            assert forall|i: int| 0 <= i < outcomes.len() implies #[trigger] outcomes[i] is None by {
                if i < n {
                    assert(shorter[i] is None);
                }
            }
        }
    }
}

/// The failures of a notification are those of its invocations, in effective order:
/// each stands behind the failures before it, attributed to its listener unless it is
/// attributed already.
pub proof fn law_a_parallel_notification_reports_every_failure(
    claimed: Seq<Invocation>,
    outcomes: Seq<Option<InvocationFailureView>>,
    i: int,
    failure: InvocationFailureView,
)
    requires
        outcomes.len() <= claimed.len(),
        0 <= i < outcomes.len(),
        outcomes[i] == Some(failure),
    ensures
        ({
            let place = outcomes.take(i).filter(failed()).len() as int;
            let reported = parallel_failures(claimed, outcomes)[place];
            &&& place < parallel_failures(claimed, outcomes).len()
            &&& reported.registration == (if failure.registration is Some {
                failure.registration
            } else {
                Some(claimed[i].id)
            })
            &&& reported.kind == failure.kind
            &&& reported.diagnostic == failure.diagnostic
        }),
    decreases outcomes.len(),
{
    let shorter = outcomes.drop_last();
    let n = outcomes.len() - 1;
    let before = parallel_failures(claimed, shorter);
    if i < n {
        law_a_parallel_notification_reports_every_failure(claimed, shorter, i, failure);
        assert(shorter.take(i) =~= outcomes.take(i));
    } else {
        law_a_parallel_notification_counts_its_failures(claimed, shorter);
        assert(outcomes.take(n) =~= shorter);
    }
}

/// Only a Responder answers, and it answers what it returned.
pub proof fn law_only_a_responder_answers(role: ListenerRole, value: CallbackValue, answer: u64)
    ensures
        answer_of(role, value) == Some(answer) <==> role is Responder && value
            == CallbackValue::Responder(Some(answer)),
{
}

/// A waterfall takes Mappers and Around listeners; every other operation takes
/// Observers and Responders. No role fits both.
pub proof fn law_roles_fit_one_kind_of_dispatch(operation: EventOperation, role: ListenerRole)
    ensures
        operation is Waterfall ==> (operation.admits(role) <==> role is Mapper || role is Around),
        !(operation is Waterfall) ==> (operation.admits(role) <==> role is Observer || role
            is Responder),
{
}

/// A registered listener is the first of its Event where it is prepended, and the
/// last otherwise; the others keep their order.
pub proof fn law_a_listener_is_registered_at_its_end(
    events: EventsView,
    name: Seq<char>,
    hook: HookView,
    other: Seq<char>,
)
    requires
        events.wf(),
    ensures
        ({
            let before = events.listeners(name);
            let after = events.adding(name, hook).listeners(name);
            &&& after.len() == before.len() + 1
            &&& hook.options.prepend ==> after[0] == hook && after.skip(1) == before
            &&& !hook.options.prepend ==> after.last() == hook && after.drop_last() == before
            &&& other != name ==> events.adding(name, hook).listeners(other) == events.listeners(
                other,
            )
        }),
{
    let list = events.listeners(name);
    let longer = if hook.options.prepend {
        seq![hook] + list
    } else {
        list.push(hook)
    };
    law_a_registration_touches_one_event(events, name, longer, other);
    if hook.options.prepend {
        assert(longer.skip(1) =~= list);
    } else {
        assert(longer.drop_last() =~= list);
    }
}

impl SequenceView {
    /// An ordered notification after its listeners returned these outcomes, one after
    /// the other.
    pub open spec fn emission(
        self,
        root: RootView,
        outcomes: Seq<Option<InvocationFailureView>>,
    ) -> EmitTurn
        decreases outcomes.len(),
    {
        if outcomes.len() == 0 {
            self.emitting(root)
        } else {
            let before = self.emission(root, outcomes.drop_last());
            before.sequence.emitted(before.root, outcomes.last())
        }
    }

    /// A query after its listeners returned these values, one after the other.
    pub open spec fn inquiry(
        self,
        root: RootView,
        values: Seq<Result<CallbackValue, InvocationFailureView>>,
    ) -> QueryTurn
        decreases values.len(),
    {
        if values.len() == 0 {
            self.querying(root)
        } else {
            let before = self.inquiry(root, values.drop_last());
            before.sequence.queried(before.root, values.last())
        }
    }

    /// Whether a dispatch has just begun, and every selected listener is registered.
    pub open spec fn begins(self, root: RootView) -> bool {
        &&& self.index == 0
        &&& root.events.wf()
        &&& distinct_hooks(self.hooks)
        &&& forall|i: int|
            0 <= i < self.hooks.len() ==> root.claimable(self.event, #[trigger] self.hooks[i])
    }
}

/// Whether a dispatch stands behind its first `n` listeners, the others untouched.
spec fn stands_behind(begun: SequenceView, now: SequenceView, root: RootView, n: int) -> bool {
    &&& now == (SequenceView { index: n as nat, ..begun })
    &&& root.events.wf()
    &&& forall|i: int|
        n <= i < begun.hooks.len() ==> root.claimable(begun.event, #[trigger] begun.hooks[i])
}

proof fn lemma_next_in_line(begun: SequenceView, now: SequenceView, root: RootView, n: int)
    requires
        distinct_hooks(begun.hooks),
        0 <= n <= begun.hooks.len(),
        stands_behind(begun, now, root, n),
    ensures
        n < begun.hooks.len() ==> now.next(root) == Some(n) && stands_behind(
            begun,
            now.past(n),
            root.claiming_hook(begun.event, begun.hooks[n]),
            n + 1,
        ),
        n == begun.hooks.len() ==> now.next(root) is None,
{
    if n < begun.hooks.len() {
        assert(root.claimable(begun.event, begun.hooks[n]));
        let after = root.claiming_hook(begun.event, begun.hooks[n]);
        lemma_claim_keeps_the_store(root, begun.event, begun.hooks[n]);
        assert forall|i: int| n + 1 <= i < begun.hooks.len() implies after.claimable(
            begun.event,
            #[trigger] begun.hooks[i],
        ) by {
            assert(begun.hooks[n].id != begun.hooks[i].id);
            lemma_claim_keeps_others(root, begun.event, begun.hooks[n], begun.hooks[i]);
        }
    }
}

proof fn lemma_emission(
    begun: SequenceView,
    root: RootView,
    outcomes: Seq<Option<InvocationFailureView>>,
)
    requires
        begun.begins(root),
        outcomes.len() <= begun.hooks.len(),
        forall|i: int| 0 <= i < outcomes.len() ==> #[trigger] outcomes[i] is None,
    ensures
        ({
            let turn = begun.emission(root, outcomes);
            let n = outcomes.len() as int;
            if n < begun.hooks.len() {
                &&& turn.step == EmitStepView::Invoke(begun.invocation(n))
                &&& stands_behind(begun, turn.sequence, turn.root, n + 1)
            } else {
                turn.step == EmitStepView::Done(Ok(()))
            }
        }),
    decreases outcomes.len(),
{
    if outcomes.len() == 0 {
        lemma_next_in_line(begun, begun, root, 0);
    } else {
        let shorter = outcomes.drop_last();
        let n = outcomes.len() as int;
        assert forall|i: int| 0 <= i < shorter.len() implies #[trigger] shorter[i] is None by {
            assert(outcomes[i] is None);
        }
        lemma_emission(begun, root, shorter);
        let before = begun.emission(root, shorter);
        assert(outcomes[n - 1] is None);
        lemma_next_in_line(begun, before.sequence, before.root, n);
    }
}

/// Over a whole ordered notification: the selected listeners are invoked one after
/// the other, in effective order, each once its predecessor returned; behind the last
/// one it is complete, and recorded so.
pub proof fn law_an_ordered_notification_goes_through_its_listeners(
    begun: SequenceView,
    root: RootView,
    outcomes: Seq<Option<InvocationFailureView>>,
)
    requires
        begun.begins(root),
        outcomes.len() <= begun.hooks.len(),
        forall|i: int| 0 <= i < outcomes.len() ==> #[trigger] outcomes[i] is None,
    ensures
        ({
            let turn = begun.emission(root, outcomes);
            let n = outcomes.len() as int;
            if n < begun.hooks.len() {
                turn.step matches EmitStepView::Invoke(i) && i.id == begun.hooks[n].id
                    && i.callback == begun.hooks[n].callback()
            } else {
                &&& turn.step == EmitStepView::Done(Ok(()))
                &&& turn.root.hub.published.len() > 0
                &&& turn.root.hub.published.last().record == (ObservationView::DispatchCompleted {
                    operation: EventOperation::Emit,
                    event: begun.event,
                    routing: begun.routing,
                    outcome: DispatchOutcomeKind::Completed,
                })
            }
        }),
{
    lemma_emission(begun, root, outcomes);
    let n = outcomes.len() as int;
    if n == begun.hooks.len() {
        if n > 0 {
            let shorter = outcomes.drop_last();
            assert forall|i: int| 0 <= i < shorter.len() implies #[trigger] shorter[i] is None by {
                assert(outcomes[i] is None);
            }
            lemma_emission(begun, root, shorter);
            let before = begun.emission(root, shorter);
            assert(outcomes[n - 1] is None);
            lemma_next_in_line(begun, before.sequence, before.root, n);
        } else {
            lemma_next_in_line(begun, begun, root, 0);
        }
    }
}

/// A failure ends an ordered notification at once: it is attributed to the listener
/// that failed, unless it is attributed already, and recorded as failed.
pub proof fn law_a_failure_ends_an_ordered_notification(
    begun: SequenceView,
    root: RootView,
    outcomes: Seq<Option<InvocationFailureView>>,
    failure: InvocationFailureView,
)
    requires
        begun.begins(root),
        outcomes.len() < begun.hooks.len(),
        forall|i: int| 0 <= i < outcomes.len() ==> #[trigger] outcomes[i] is None,
    ensures
        ({
            let turn = begun.emission(root, outcomes.push(Some(failure)));
            let failed = begun.hooks[outcomes.len() as int];
            &&& turn.step matches EmitStepView::Done(Err(DispatchErrorView::Invocation(f)))
                && f.registration == (if failure.registration is Some {
                failure.registration
            } else {
                Some(failed.id)
            }) && f.diagnostic == failure.diagnostic && f.kind == failure.kind
            &&& turn.root.hub.published.len() > 0
            &&& turn.root.hub.published.last().record == (ObservationView::DispatchCompleted {
                operation: EventOperation::Emit,
                event: begun.event,
                routing: begun.routing,
                outcome: DispatchOutcomeKind::Failed,
            })
        }),
{
    lemma_emission(begun, root, outcomes);
    let all = outcomes.push(Some(failure));
    assert(all.drop_last() =~= outcomes);
    assert(all.last() == Some(failure));
}

/// Whether what a listener handed back is no answer: nothing, or an answer of one
/// that is no Responder.
pub open spec fn is_no_answer(
    hook: HookView,
    value: Result<CallbackValue, InvocationFailureView>,
) -> bool {
    value matches Ok(v) && !(hook.kind.spec_role() is Responder && (v matches
        CallbackValue::Responder(Some(_))))
}

proof fn lemma_inquiry(
    begun: SequenceView,
    root: RootView,
    values: Seq<Result<CallbackValue, InvocationFailureView>>,
)
    requires
        begun.begins(root),
        values.len() <= begun.hooks.len(),
        forall|i: int|
            0 <= i < values.len() ==> is_no_answer(begun.hooks[i], #[trigger] values[i]),
    ensures
        ({
            let turn = begun.inquiry(root, values);
            let n = values.len() as int;
            if n < begun.hooks.len() {
                &&& turn.step == QueryStepView::Invoke(begun.invocation(n))
                &&& stands_behind(begun, turn.sequence, turn.root, n + 1)
            } else {
                &&& turn.step == QueryStepView::Done(Ok(QueryOutcome::Miss))
                &&& turn.root.hub.published.len() > 0
                &&& turn.root.hub.published.last().record == (ObservationView::DispatchCompleted {
                    operation: EventOperation::Query,
                    event: begun.event,
                    routing: begun.routing,
                    outcome: DispatchOutcomeKind::Missed,
                })
            }
        }),
    decreases values.len(),
{
    if values.len() == 0 {
        lemma_next_in_line(begun, begun, root, 0);
    } else {
        let shorter = values.drop_last();
        let n = values.len() as int;
        assert forall|i: int| 0 <= i < shorter.len() implies is_no_answer(
            begun.hooks[i],
            #[trigger] shorter[i],
        ) by {
            assert(is_no_answer(begun.hooks[i], values[i]));
        }
        lemma_inquiry(begun, root, shorter);
        let before = begun.inquiry(root, shorter);
        assert(is_no_answer(begun.hooks[n - 1], values[n - 1]));
        lemma_next_in_line(begun, before.sequence, before.root, n);
    }
}

/// Over a whole query: the selected listeners are asked one after the other, in
/// effective order, as long as none answers; where none does, the query missed, and
/// is recorded so.
pub proof fn law_a_query_asks_until_it_is_answered(
    begun: SequenceView,
    root: RootView,
    values: Seq<Result<CallbackValue, InvocationFailureView>>,
)
    requires
        begun.begins(root),
        values.len() <= begun.hooks.len(),
        forall|i: int|
            0 <= i < values.len() ==> is_no_answer(begun.hooks[i], #[trigger] values[i]),
    ensures
        ({
            let turn = begun.inquiry(root, values);
            let n = values.len() as int;
            if n < begun.hooks.len() {
                turn.step matches QueryStepView::Invoke(i) && i.id == begun.hooks[n].id
                    && i.callback == begun.hooks[n].callback()
            } else {
                &&& turn.step == QueryStepView::Done(Ok(QueryOutcome::Miss))
                &&& turn.root.hub.published.len() > 0
                &&& turn.root.hub.published.last().record == (ObservationView::DispatchCompleted {
                    operation: EventOperation::Query,
                    event: begun.event,
                    routing: begun.routing,
                    outcome: DispatchOutcomeKind::Missed,
                })
            }
        }),
{
    lemma_inquiry(begun, root, values);
}

/// The first answer of a Responder ends a query with that answer; a failure ends it
/// too, attributed to the listener that failed unless it is attributed already.
pub proof fn law_the_first_answer_ends_a_query(
    begun: SequenceView,
    root: RootView,
    values: Seq<Result<CallbackValue, InvocationFailureView>>,
    answer: u64,
    failure: InvocationFailureView,
)
    requires
        begun.begins(root),
        values.len() < begun.hooks.len(),
        forall|i: int|
            0 <= i < values.len() ==> is_no_answer(begun.hooks[i], #[trigger] values[i]),
    ensures
        ({
            let last = begun.hooks[values.len() as int];
            let answered = begun.inquiry(
                root,
                values.push(Ok(CallbackValue::Responder(Some(answer)))),
            );
            let failed = begun.inquiry(root, values.push(Err(failure)));
            &&& last.kind.spec_role() is Responder ==> {
                &&& answered.step == QueryStepView::Done(Ok(QueryOutcome::Answer(answer)))
                &&& answered.root.hub.published.len() > 0
                &&& answered.root.hub.published.last().record
                    == (ObservationView::DispatchCompleted {
                    operation: EventOperation::Query,
                    event: begun.event,
                    routing: begun.routing,
                    outcome: DispatchOutcomeKind::Answered,
                })
            }
            &&& failed.step matches QueryStepView::Done(Err(DispatchErrorView::Invocation(f)))
                && f.registration == (if failure.registration is Some {
                failure.registration
            } else {
                Some(last.id)
            }) && f.diagnostic == failure.diagnostic && f.kind == failure.kind
            &&& failed.root.hub.published.len() > 0
            &&& failed.root.hub.published.last().record == (ObservationView::DispatchCompleted {
                operation: EventOperation::Query,
                event: begun.event,
                routing: begun.routing,
                outcome: DispatchOutcomeKind::Failed,
            })
        }),
{
    lemma_inquiry(begun, root, values);
    let good = values.push(Ok(CallbackValue::Responder(Some(answer))));
    assert(good.drop_last() =~= values);
    let bad = values.push(Err(failure));
    assert(bad.drop_last() =~= values);
}

/// The claim of a one-time listener is recorded as its end, with the facts it was
/// registered under; the claim of a lasting one is not recorded.
pub proof fn law_the_claim_of_a_one_time_listener_is_recorded(
    root: RootView,
    event: Seq<char>,
    hook: HookView,
)
    ensures
        ({
            let after = root.claiming_hook(event, hook);
            if root.events.find(event, hook.id) matches Some(h) && h.options.once {
                &&& after.hub.published.len() == root.hub.published.len() + 1
                &&& after.hub.published.drop_last() == root.hub.published
                &&& after.hub.published.last().record
                    matches ObservationView::ListenerRegistration { change, listener } && change
                    is Unregistered && listener.id == hook.id && listener.event == event
                    && listener.role == hook.kind.spec_role() && listener.options == hook.options
                    && listener.scope.membership == root.runtime
            } else {
                after.hub == root.hub
            }
        }),
{
    let after = root.claiming_hook(event, hook);
    if root.events.find(event, hook.id) matches Some(h) && h.options.once {
        assert(after.hub.published.drop_last() =~= root.hub.published);
    }
}

/// A preflight binds a free Event name to its contract and changes nothing else; one
/// with a Scope of another Runtime changes nothing at all.
pub proof fn law_a_preflight_binds_its_event_alone(
    root: RootView,
    ctx: ContextView,
    event: Seq<char>,
    contract: EventContract,
    routing: RoutingView,
)
    ensures
        ({
            let after = root.preflighted(ctx, event, contract, routing);
            let foreign = routing matches RoutingView::Scoped(s) && s.membership != ctx.runtime;
            &&& after.events.hooks == root.events.hooks
            &&& after == (RootView { events: after.events, ..root })
            &&& foreign ==> after == root
            &&& !foreign ==> after.events.bound(event) == (if root.events.bound(event) is Some {
                root.events.bound(event)
            } else {
                Some(contract)
            })
        }),
{
    law_the_first_use_binds_an_event(root.events, event, contract, event, contract);
}

} // verus!
