//! What every operation keeps of the Runtime's stores, and what time does to a
//! Runtime.

use crate::chain::{ChainEventView, ChainMoveView};
use crate::context::ContextView;
use crate::converge::ConvergenceView;
use crate::deps::EdgeView;
use crate::dispose::{DisposalPhaseView, DisposalView};
use crate::drain::{lemma_cleaned_counters, lemma_drained_counters};
use crate::effect::{CleanupView, DisposableToken};
use crate::era::{EraPhaseView, EraView, UndeliveredPhaseView, UndeliveredView};
use crate::event::{
    DispatchOutcomeKind, EventContract, EventOperation, ListenerMetaView, ListenerOptions,
    RoutingView,
};
use crate::event_store::{
    distinct_hooks, law_a_registration_adds_one_listener, law_a_registration_touches_one_event,
    law_an_unregistration_ends_its_listener, lemma_filtered_distinct, lists, not_hook, EventsView,
    HookKind, HookView,
};
use crate::fiber::FiberView;
use crate::ids::{ContractId, FiberId, ListenerRegistrationId, ServiceOccurrenceId};
use crate::inertia::{InertiaView, TargetView};
use crate::lifecycle::{PluginFailureView, SettleAttribution};
use crate::operate::RemovalView;
use crate::order::before;
use crate::owed::{
    ascending, keyed, law_a_cleanup_ends_what_it_is_for, lemma_claim_owed, lemma_cleaned_owed,
    lemma_owing_owed, unhooks, unlistens, withdraws,
};
use crate::pass::{convergence_step, InitialOutcomeView, InitialPassView, InitialPhaseView};
use crate::plugin::{normalized, InjectEntryView, TypedPlugin};
use crate::registry::{
    is_fiber, is_group, law_a_release_unlinks_exactly_its_fiber,
    law_an_attached_fiber_is_a_resident_member, lemma_attached_members, lemma_detached_wf,
    lemma_released_members, lemma_released_wf, selects, PluginKey,
};
use crate::replace::{ReplacementPhaseView, ReplacementView};
use crate::root::{lemma_recheck_counters, RootView};
use crate::seqs::{first, lemma_filter_members, lemma_first_meets};
use crate::service::{
    law_a_publication_occupies_one_exact_slot, law_a_value_replacement_keeps_the_occurrence,
    law_the_first_binding_holds, lemma_binding_sound, lemma_placing_sound, lemma_services_more,
    lemma_with_value_sound, lemma_without_other, lemma_without_same, lemma_without_sound, SlotView,
};
use crate::settle::{ReplyView, SettlePhaseView, SettleView};
use crate::spawn::{era_edges, SpawnPhaseView};
use crate::state::FiberState;
use crate::transition::{lemma_kick_slots, lemma_recheck_slots, lemma_transition_publishes};
use crate::update::{
    law_a_registered_update_listener_is_found, lemma_updates_more, UpdateHookView, UpdateKind,
};
use crate::waterfall::WaterfallView;
use vstd::prelude::*;

verus! {

impl EventsView {
    /// The store is consistent, and every listener's identity is below `bound`.
    pub open spec fn sound(self, bound: u64) -> bool {
        &&& self.wf()
        &&& forall|i: int| 0 <= i < self.hooks.len() ==> below((#[trigger] self.hooks[i]).1, bound)
    }
}

/// Whether every listener's identity is its own, and below `bound`.
pub open spec fn below(list: Seq<HookView>, bound: u64) -> bool {
    &&& forall|k: int| 0 <= k < list.len() ==> (#[trigger] list[k]).id.0 < bound
    &&& distinct_hooks(list)
}

impl FiberView {
    /// The Fiber keeps its claim, its dependency slots, its journal and its name,
    /// and stays spawned, from the same declarations.
    pub open spec fn keeps(self, later: FiberView) -> bool {
        &&& later.name == self.name
        &&& later.spawn matches Some(s) ==> (self.spawn matches Some(t) && s.name == t.name
            && s.inject == t.inject)
        &&& later.residency == self.residency
        &&& later.edges == self.edges
        &&& later.journal == self.journal
        &&& later.spawn is Some == self.spawn is Some
    }
}

impl RootView {
    /// The Runtime's stores are consistent: every exact Service slot has one
    /// occupant, of a bound name; every Plugin group is listed once; the root Fiber
    /// is there and no resident, and any other Fiber is resident at most once;
    /// every Event with listeners is listed once; neither a publication nor a
    /// group nor a listener has an identity that is still to be issued; residency
    /// claims are the registry's; and what a generation registered it owes.
    #[verifier::opaque]
    pub open spec fn sound(self) -> bool {
        &&& self.services.sound(self.next)
        &&& self.registry.wf()
        &&& self.has(FiberId(0))
        &&& !self.registry.residents.contains(FiberId(0))
        &&& self.registry.residents.no_duplicates()
        &&& forall|i: int|
            0 <= i < self.registry.residents.len() ==> self.has(
                #[trigger] self.registry.residents[i],
            )
        &&& forall|i: int|
            0 <= i < self.registry.groups.len() ==> (
            #[trigger] self.registry.groups[i]).allocation < self.next
        &&& self.events.sound(self.next)
        &&& self.updates.sound(self.next)
        &&& keyed(self.logger)
        &&& self.linked()
        &&& self.owed()
    }

    /// The Services, groups, residents, listeners and exporters of both are the
    /// same, every Fiber keeps its claim and its journal, and the second is the
    /// first, or later.
    pub open spec fn same_stores(self, other: RootView) -> bool {
        &&& other.services == self.services
        &&& other.registry == self.registry
        &&& other.events.hooks == self.events.hooks
        &&& other.updates == self.updates
        &&& other.logger == self.logger
        &&& other.fibers.len() == self.fibers.len()
        &&& forall|i: int|
            0 <= i < self.fibers.len() ==> self.fibers[i].keeps(#[trigger] other.fibers[i])
        &&& self.ages(other)
    }

    /// What time does to a Runtime: no identity is taken back, no Fiber goes away,
    /// and none comes back to life or out of its terminal claim.
    pub open spec fn ages(self, later: RootView) -> bool {
        &&& self.next <= later.next
        &&& self.fibers.len() <= later.fibers.len()
        &&& forall|i: int|
            0 <= i < self.fibers.len() ==> ((#[trigger] later.fibers[i]).alive
                ==> self.fibers[i].alive) && (self.fibers[i].disposing
                ==> later.fibers[i].disposing)
    }
}

proof fn lemma_below_more(list: Seq<HookView>, bound: u64, more: u64)
    requires
        below(list, bound),
        bound <= more,
    ensures
        below(list, more),
{
    assert forall|k: int| 0 <= k < list.len() implies (#[trigger] list[k]).id.0 < more by {
        assert(list[k].id.0 < bound);
    }
}

proof fn lemma_events_more(a: EventsView, b: EventsView, bound: u64, more: u64)
    requires
        a.sound(bound),
        b.hooks == a.hooks,
        bound <= more,
    ensures
        b.sound(more),
{
    assert forall|i: int| 0 <= i < b.hooks.len() implies below((#[trigger] b.hooks[i]).1, more) by {
        lemma_below_more(a.hooks[i].1, bound, more);
    }
}

/// Equal stores are equally consistent.
pub proof fn lemma_same_stores(a: RootView, b: RootView)
    requires
        a.sound(),
        a.same_stores(b),
    ensures
        b.sound(),
{
    reveal(RootView::sound);
    lemma_services_more(a.services, a.next, b.next);
    lemma_events_more(a.events, b.events, a.next, b.next);
    assert forall|i: int| 0 <= i < b.registry.residents.len() implies b.has(
        #[trigger] b.registry.residents[i],
    ) by {
        assert(a.has(a.registry.residents[i]));
    }
    assert forall|i: int| 0 <= i < b.registry.groups.len() implies (
    #[trigger] b.registry.groups[i]).allocation < b.next by {
        assert(a.registry.groups[i].allocation < a.next);
    }
    lemma_updates_more(a.updates, a.next, b.next);
    lemma_same_links(a, b);
    lemma_same_debts(a, b);
}

proof fn lemma_same_links(a: RootView, b: RootView)
    requires
        a.linked(),
        a.same_stores(b),
    ensures
        b.linked(),
{
    assert forall|i: int| 0 <= i < b.fibers.len() implies a.fibers[i].keeps(
        #[trigger] b.fibers[i],
    ) by {}
    assert forall|k: int| 0 <= k < b.registry.residents.len() implies b.has(
        #[trigger] b.registry.residents[k],
    ) && b.fiber(b.registry.residents[k]).residency is Some by {
        let id = a.registry.residents[k];
        assert(a.has(id));
        assert(a.fibers[id.0 as int].keeps(b.fibers[id.0 as int]));
    }
}

/// Where journals are kept and no publication or listener is new, everything is
/// owed still.
proof fn lemma_debts_kept(a: RootView, b: RootView)
    requires
        a.owed(),
        b.fibers.len() == a.fibers.len(),
        forall|i: int|
            0 <= i < a.fibers.len() ==> (#[trigger] b.fibers[i]).journal == a.fibers[i].journal,
        forall|edge: EdgeView|
            (#[trigger] b.services.slot(edge)) is Some ==> a.services.slot(edge) == b.services.slot(
                edge,
            ),
        forall|name: Seq<char>, id: ListenerRegistrationId|
            (#[trigger] b.events.find(name, id)) is Some ==> a.events.find(name, id) is Some,
        forall|contract: ContractId, id: ListenerRegistrationId|
            (#[trigger] b.updates.find(contract, id)) is Some ==> a.updates.find(
                contract,
                id,
            ) is Some,
    ensures
        b.owed(),
{
    assert forall|kind: spec_fn(CleanupView) -> bool|
        a.someone_owes(kind) implies #[trigger] b.someone_owes(kind) by {
        let f = choose|f: int|
            0 <= f < a.fibers.len() && (#[trigger] a.fibers[f]).journal.owes(kind);
        assert(b.fibers[f].journal.owes(kind));
    }
    assert forall|edge: EdgeView| #[trigger] b.slot_owed(edge) by {
        assert(a.slot_owed(edge));
        match b.services.slot(edge) {
            Some(s) => {
                assert(b.fibers[s.owner.0 as int].journal == a.fibers[s.owner.0 as int].journal);
            },
            None => {},
        }
    }
    assert forall|name: Seq<char>, id: ListenerRegistrationId|
        (#[trigger] b.events.find(name, id)) is Some implies b.someone_owes(unlistens(name, id)) by {
        assert(a.events.find(name, id) is Some);
        assert(a.someone_owes(unlistens(name, id)));
    }
    assert forall|contract: ContractId, id: ListenerRegistrationId|
        (#[trigger] b.updates.find(contract, id)) is Some implies b.someone_owes(
        unhooks(contract, id),
    ) by {
        assert(a.updates.find(contract, id) is Some);
        assert(a.someone_owes(unhooks(contract, id)));
    }
}

proof fn lemma_same_debts(a: RootView, b: RootView)
    requires
        a.owed(),
        a.same_stores(b),
    ensures
        b.owed(),
{
    assert forall|i: int| 0 <= i < a.fibers.len() implies (#[trigger] b.fibers[i]).journal
        == a.fibers[i].journal by {
        assert(a.fibers[i].keeps(b.fibers[i]));
    }
    lemma_debts_kept(a, b);
}

proof fn lemma_owing_sound(root: RootView, id: FiberId, cleanup: CleanupView)
    requires
        root.sound(),
        root.has(id),
        root.fiber(id).journal.sn < u64::MAX,
    ensures
        root.owing(id, cleanup).sound(),
        root.ages(root.owing(id, cleanup)),
        forall|kind: spec_fn(CleanupView) -> bool|
            kind(cleanup) ==> #[trigger] root.owing(id, cleanup).fiber(id).journal.owes(kind),
{
    reveal(RootView::sound);
    lemma_owing_owed(root, id, cleanup);
    let after = root.owing(id, cleanup);
    assert forall|i: int| 0 <= i < after.registry.residents.len() implies after.has(
        #[trigger] after.registry.residents[i],
    ) by {
        assert(root.has(root.registry.residents[i]));
    }
}

/// The claim of an obligation keeps the stores consistent where nothing is left of
/// what it is for.
pub proof fn law_a_claim_keeps_the_runtime_sound(root: RootView, id: FiberId, token: DisposableToken)
    requires
        root.sound(),
        root.has(id),
        root.obligation(id, token) matches Some(c) ==> root.gone(c),
    ensures
        root.claiming(id, token).sound(),
        root.ages(root.claiming(id, token)),
{
    reveal(RootView::sound);
    lemma_claim_owed(root, id, token);
    let after = root.claiming(id, token);
    assert forall|i: int| 0 <= i < after.registry.residents.len() implies after.has(
        #[trigger] after.registry.residents[i],
    ) by {
        assert(root.has(root.registry.residents[i]));
    }
}

proof fn lemma_fewer_listeners(root: RootView, events: EventsView)
    requires
        root.sound(),
        events.sound(root.next),
        forall|name: Seq<char>, id: ListenerRegistrationId|
            (#[trigger] events.find(name, id)) is Some ==> root.events.find(name, id) is Some,
    ensures
        (RootView { events, ..root }).sound(),
{
    reveal(RootView::sound);
    lemma_debts_kept(root, RootView { events, ..root });
}

/// A fresh Runtime is consistent.
pub proof fn law_a_fresh_runtime_is_sound(runtime: u64)
    ensures
        RootView::fresh(runtime).sound(),
{
    reveal(RootView::sound);
}

/// The listeners of an Event have identities that were issued before.
pub proof fn lemma_listeners_below(events: EventsView, name: Seq<char>, bound: u64)
    requires
        events.sound(bound),
    ensures
        below(events.listeners(name), bound),
{
    lemma_first_meets(events.hooks, lists(name));
}

proof fn lemma_listing_sound(events: EventsView, name: Seq<char>, list: Seq<HookView>, bound: u64)
    requires
        events.sound(bound),
        below(list, bound),
    ensures
        events.listing(name, list).sound(bound),
{
    law_a_registration_touches_one_event(events, name, list, name);
    let after = events.listing(name, list);
    lemma_first_meets(events.hooks, lists(name));
    assert forall|i: int| 0 <= i < after.hooks.len() implies below(
        (#[trigger] after.hooks[i]).1,
        bound,
    ) by {
        if after.hooks[i].1 != list {
            if i < events.hooks.len() {
                assert(below(events.hooks[i].1, bound));
            }
            if i + 1 < events.hooks.len() {
                assert(below(events.hooks[i + 1].1, bound));
            }
        }
    }
}

proof fn lemma_removing_sound(
    events: EventsView,
    name: Seq<char>,
    id: ListenerRegistrationId,
    bound: u64,
)
    requires
        events.sound(bound),
    ensures
        events.removing(name, id).sound(bound),
{
    lemma_listeners_below(events, name, bound);
    let all = events.listeners(name);
    let list = all.filter(not_hook(id));
    assert forall|k: int| 0 <= k < list.len() implies (#[trigger] list[k]).id.0 < bound by {
        assert(list.contains(list[k]));
        lemma_filter_members(all, not_hook(id), list[k]);
        let j = choose|j: int| 0 <= j < all.len() && all[j] == list[k];
        assert(all[j].id.0 < bound);
    }
    lemma_filtered_distinct(all, not_hook(id));
    lemma_listing_sound(events, name, list, bound);
}

// Services.

proof fn lemma_placed_owed(root: RootView, slot: SlotView)
    requires
        root.owed(),
        root.services.exact(),
        root.has(slot.owner),
        root.fiber(slot.owner).journal.owes(withdraws(slot)),
    ensures
        (RootView { services: root.services.placing(slot), ..root }).owed(),
{
    let after = RootView { services: root.services.placing(slot), ..root };
    assert forall|kind: spec_fn(CleanupView) -> bool|
        root.someone_owes(kind) implies #[trigger] after.someone_owes(kind) by {
        let f = choose|f: int|
            0 <= f < root.fibers.len() && (#[trigger] root.fibers[f]).journal.owes(kind);
        assert(after.fibers[f].journal.owes(kind));
    }
    assert forall|edge: EdgeView| #[trigger] after.slot_owed(edge) by {
        assert(root.slot_owed(edge));
        law_a_publication_occupies_one_exact_slot(root.services, slot, edge);
    }
}

/// A publication keeps the stores consistent.
pub proof fn law_a_publication_keeps_the_runtime_sound(
    root: RootView,
    ctx: ContextView,
    name: Seq<char>,
    contract: ContractId,
    value: u64,
)
    requires
        root.sound(),
        root.room(1),
        root.publish_verdict(ctx, name, contract) is Publish,
    ensures
        root.providing(ctx, name, contract, value).sound(),
        root.ages(root.providing(ctx, name, contract, value)),
        root.providing(ctx, name, contract, value).next == root.next + 1,
{
    reveal(RootView::sound);
    let slot = root.published_slot(ctx, name, contract, value);
    let affected = root.slot_drift(ctx.fiber, slot.edge());
    let moved = RootView { next: (root.next + 1) as u64, ..root };
    let bound = RootView { services: root.services.binding(name, contract), ..moved };
    lemma_same_stores(root, moved);
    lemma_binding_sound(root.services, name, contract, root.next);
    lemma_binding_sound(root.services, name, contract, moved.next);
    lemma_debts_kept(moved, bound);
    if root.services.bound(name) is None {
        law_the_first_binding_holds(root.services, name, contract);
    }
    assert(bound.sound());
    lemma_recheck_slots(bound, affected);
    let owed = bound.recheck_all(affected);
    lemma_same_stores(bound, owed);
    lemma_recheck_counters(bound, affected);
    let cleanup = CleanupView::Withdraw {
        realm: slot.realm,
        service: name,
        occurrence: slot.occurrence,
    };
    assert(root.fibers[ctx.fiber.0 as int].room(1));
    assert(owed.fibers[ctx.fiber.0 as int].journal == root.fibers[ctx.fiber.0 as int].journal);
    lemma_owing_sound(owed, ctx.fiber, cleanup);
    let owing = owed.owing(ctx.fiber, cleanup);
    assert(owing.fiber(ctx.fiber).journal.owes(withdraws(slot)));
    lemma_placing_sound(bound.services, slot, root.next, bound.next);
    let placed = RootView { services: owed.services.placing(slot), ..owing };
    lemma_placed_owed(owing, slot);
    assert(placed.sound());
    assert(placed == (RootView { services: owed.services.placing(slot), ..owed }).owing(
        ctx.fiber,
        cleanup,
    ));
    lemma_kick_slots(placed, affected);
    lemma_same_stores(placed, root.providing(ctx, name, contract, value));
}

proof fn lemma_without_owed(root: RootView, edge: EdgeView)
    requires
        root.owed(),
        root.services.exact(),
    ensures
        (RootView { services: root.services.without(edge), ..root }).owed(),
{
    let after = RootView { services: root.services.without(edge), ..root };
    lemma_without_same(root.services, edge);
    assert forall|e: EdgeView| (#[trigger] after.services.slot(e)) is Some implies root.services.slot(
        e,
    ) == after.services.slot(e) by {
        if e != edge {
            lemma_without_other(root.services, edge, e);
        }
    }
    lemma_debts_kept(root, after);
}

/// The removal of a publication by its own capability keeps the stores consistent.
pub proof fn law_a_removal_keeps_the_runtime_sound(
    root: RootView,
    edge: EdgeView,
    occurrence: ServiceOccurrenceId,
    owner: FiberId,
    cleanup: DisposableToken,
)
    requires
        root.sound(),
        root.control_verdict(edge, occurrence, owner) is Commit,
        root.obligation(owner, cleanup) matches Some(c) ==> c == (CleanupView::Withdraw {
            realm: edge.realm,
            service: edge.service,
            occurrence,
        }),
    ensures
        root.unpublishing(edge, occurrence, owner, cleanup).sound(),
        root.ages(root.unpublishing(edge, occurrence, owner, cleanup)),
{
    reveal(RootView::sound);
    let affected = root.slot_drift(owner, edge);
    lemma_recheck_slots(root, affected);
    let owed = root.recheck_all(affected);
    lemma_same_stores(root, owed);
    lemma_without_sound(owed.services, edge, owed.next);
    let vacated = RootView { services: owed.services.without(edge), ..owed };
    lemma_without_owed(owed, edge);
    assert(vacated.sound());
    assert(owed.fibers[owner.0 as int].journal == root.fibers[owner.0 as int].journal);
    lemma_without_same(root.services, edge);
    law_a_claim_keeps_the_runtime_sound(vacated, owner, cleanup);
    let claimed = vacated.claiming(owner, cleanup);
    lemma_kick_slots(claimed, affected);
    lemma_same_stores(claimed, root.unpublishing(edge, occurrence, owner, cleanup));
}

/// The replacement of a published value keeps the stores consistent.
pub proof fn law_a_value_replacement_keeps_the_runtime_sound(
    root: RootView,
    edge: EdgeView,
    value: u64,
)
    requires
        root.sound(),
    ensures
        (RootView { services: root.services.with_value(edge, value), ..root }).sound(),
        root.ages((RootView { services: root.services.with_value(edge, value), ..root })),
{
    reveal(RootView::sound);
    lemma_with_value_sound(root.services, edge, value, root.next);
    let after = RootView { services: root.services.with_value(edge, value), ..root };
    assert forall|kind: spec_fn(CleanupView) -> bool|
        root.someone_owes(kind) implies #[trigger] after.someone_owes(kind) by {
        let f = choose|f: int|
            0 <= f < root.fibers.len() && (#[trigger] root.fibers[f]).journal.owes(kind);
        assert(after.fibers[f].journal.owes(kind));
    }
    assert forall|e: EdgeView| #[trigger] after.slot_owed(e) by {
        assert(root.slot_owed(e));
        law_a_value_replacement_keeps_the_occurrence(root.services, edge, value, e);
        match root.services.slot(e) {
            Some(s) => {
                assert(withdraws(SlotView { value, ..s }) =~= withdraws(s));
            },
            None => {},
        }
    }
}

// Listeners.

/// A registration keeps the stores consistent.
pub proof fn law_a_registration_keeps_the_runtime_sound(
    root: RootView,
    ctx: ContextView,
    event: Seq<char>,
    contract: EventContract,
    kind: HookKind,
    options: ListenerOptions,
)
    requires
        root.sound(),
        root.room(1),
        root.has(ctx.fiber),
    ensures
        root.listening(ctx, event, contract, kind, options).sound(),
        root.ages(root.listening(ctx, event, contract, kind, options)),
{
    reveal(RootView::sound);
    let id = root.listener_meta(ctx, event, kind, options).id;
    let hook = HookView { id, scope: ctx.scope, options, kind };
    let next = (root.next + 1) as u64;
    let bound = root.events.binding(event, contract);
    lemma_events_more(root.events, bound, root.next, next);
    lemma_listeners_below(bound, event, next);
    let list = bound.listeners(event);
    let longer = if options.prepend {
        seq![hook] + list
    } else {
        list.push(hook)
    };
    assert(below(longer, next)) by {
        assert forall|k: int| 0 <= k < longer.len() implies (#[trigger] longer[k]).id.0 < next by {
            if options.prepend {
                if k > 0 {
                    assert(longer[k] == list[k - 1]);
                }
            } else if k < list.len() {
                assert(longer[k] == list[k]);
            }
        }
        lemma_listeners_below(root.events, event, root.next);
        assert(list == root.events.listeners(event));
        assert forall|i: int, j: int| 0 <= i < j < longer.len() implies (#[trigger] longer[i]).id
            != (#[trigger] longer[j]).id by {
            if options.prepend {
                assert(longer[j] == list[j - 1]);
                if i > 0 {
                    assert(longer[i] == list[i - 1]);
                }
            } else {
                assert(longer[i] == list[i]);
                if j < list.len() {
                    assert(longer[j] == list[j]);
                }
            }
        }
    }
    lemma_listing_sound(bound, event, longer, next);
    let moved = RootView { next, ..root };
    lemma_same_stores(root, moved);
    let meta = root.listener_meta(ctx, event, kind, options);
    let cleanup = CleanupView::Unlisten { meta };
    assert(root.fibers[ctx.fiber.0 as int].room(1));
    lemma_owing_sound(moved, ctx.fiber, cleanup);
    let owing = moved.owing(ctx.fiber, cleanup);
    assert(owing.fiber(ctx.fiber).journal.owes(unlistens(event, id)));
    let added = RootView { events: bound.adding(event, hook), ..owing };
    assert(added.owed()) by {
        assert forall|kind: spec_fn(CleanupView) -> bool|
            owing.someone_owes(kind) implies #[trigger] added.someone_owes(kind) by {
            let f = choose|f: int|
                0 <= f < owing.fibers.len() && (#[trigger] owing.fibers[f]).journal.owes(kind);
            assert(added.fibers[f].journal.owes(kind));
        }
        assert forall|edge: EdgeView| #[trigger] added.slot_owed(edge) by {
            assert(owing.slot_owed(edge));
        }
        assert forall|name: Seq<char>, l: ListenerRegistrationId|
            (#[trigger] added.events.find(name, l)) is Some implies added.someone_owes(
            unlistens(name, l),
        ) by {
            law_a_registration_adds_one_listener(bound, event, hook, name, l);
            if name == event && l == id {
                assert(added.fibers[ctx.fiber.0 as int].journal.owes(unlistens(event, id)));
            } else {
                assert(owing.events.find(name, l) is Some);
                assert(owing.someone_owes(unlistens(name, l)));
            }
        }
    }
    assert(added.sound());
    lemma_same_stores(added, root.listening(ctx, event, contract, kind, options));
}

/// An unregistration keeps the stores consistent.
pub proof fn law_an_unregistration_keeps_the_runtime_sound(root: RootView, meta: ListenerMetaView)
    requires
        root.sound(),
    ensures
        root.unlistening(meta).sound(),
        root.ages(root.unlistening(meta)),
        root.unlistening(meta).events.find(meta.event, meta.id) is None,
{
    reveal(RootView::sound);
    lemma_removed_listener_sound(root, meta.event, meta.id);
    let removed = RootView { events: root.events.removing(meta.event, meta.id), ..root };
    law_an_unregistration_ends_its_listener(
        root.events,
        meta.event,
        meta.id,
        meta.event,
        meta.id,
    );
    if root.events.find(meta.event, meta.id) is Some {
        lemma_same_stores(removed, root.unlistening(meta));
    }
}

proof fn lemma_removed_listener_sound(root: RootView, name: Seq<char>, id: ListenerRegistrationId)
    requires
        root.sound(),
    ensures
        (RootView { events: root.events.removing(name, id), ..root }).sound(),
{
    reveal(RootView::sound);
    lemma_removing_sound(root.events, name, id, root.next);
    assert forall|other: Seq<char>, that: ListenerRegistrationId|
        (#[trigger] root.events.removing(name, id).find(other, that)) is Some implies root.events.find(
        other,
        that,
    ) is Some by {
        law_an_unregistration_ends_its_listener(root.events, name, id, other, that);
    }
    lemma_fewer_listeners(root, root.events.removing(name, id));
}

/// A listener that is unregistered by its own capability keeps the stores
/// consistent: its cleanup is claimed with it.
pub proof fn law_a_listener_capability_keeps_the_runtime_sound(
    root: RootView,
    owner: FiberId,
    cleanup: DisposableToken,
    meta: ListenerMetaView,
)
    requires
        root.sound(),
        root.has(owner),
        root.obligation(owner, cleanup) matches Some(c) ==> c == (CleanupView::Unlisten { meta }),
    ensures
        root.claiming(owner, cleanup).unlistening(meta).sound(),
        root.ages(root.claiming(owner, cleanup).unlistening(meta)),
{
    reveal(RootView::sound);
    law_an_unregistration_keeps_the_runtime_sound(root, meta);
    let ended = root.unlistening(meta);
    assert(ended.fibers == root.fibers);
    law_a_claim_keeps_the_runtime_sound(ended, owner, cleanup);
    assert(ended.claiming(owner, cleanup) == root.claiming(owner, cleanup).unlistening(meta));
}

/// An update listener that is unregistered by its own capability keeps the stores
/// consistent: its cleanup is claimed with it.
pub proof fn law_an_update_capability_keeps_the_runtime_sound(
    root: RootView,
    owner: FiberId,
    cleanup: DisposableToken,
    contract: ContractId,
    id: ListenerRegistrationId,
)
    requires
        root.sound(),
        root.has(owner),
        root.obligation(owner, cleanup) matches Some(c) ==> c == (CleanupView::Unhook {
            contract,
            listener: id,
        }),
    ensures
        (RootView {
            updates: root.updates.removing(contract, id),
            ..root.claiming(owner, cleanup)
        }).sound(),
        root.ages(
            (RootView {
                updates: root.updates.removing(contract, id),
                ..root.claiming(owner, cleanup)
            }),
        ),
{
    reveal(RootView::sound);
    let unhook = CleanupView::Unhook { contract, listener: id };
    law_a_cleanup_keeps_the_runtime_sound(root, unhook);
    law_a_cleanup_ends_what_it_is_for(root, unhook, unhook);
    let ended = root.cleaned(unhook);
    law_a_claim_keeps_the_runtime_sound(ended, owner, cleanup);
    assert(ended.claiming(owner, cleanup) == (RootView {
        updates: root.updates.removing(contract, id),
        ..root.claiming(owner, cleanup)
    }));
}

/// The claim of an update listener for one invocation keeps the stores consistent.
pub proof fn law_an_update_control_keeps_the_runtime_sound(
    root: RootView,
    contract: ContractId,
    id: ListenerRegistrationId,
)
    requires
        root.sound(),
    ensures
        (RootView { updates: root.updates.claiming(contract, id), ..root }).sound(),
        root.ages((RootView { updates: root.updates.claiming(contract, id), ..root })),
{
    reveal(RootView::sound);
    law_a_cleanup_keeps_the_runtime_sound(
        root,
        CleanupView::Unhook { contract, listener: id },
    );
}

/// An obligation of a generation, and an update listener with it, keep the stores
/// consistent.
pub proof fn law_an_obligation_keeps_the_runtime_sound(
    root: RootView,
    ctx: ContextView,
    cleanup: CleanupView,
    contract: ContractId,
    kind: UpdateKind,
    options: ListenerOptions,
)
    requires
        root.sound(),
        root.room(1),
        root.has(ctx.fiber),
    ensures
        root.owing(ctx.fiber, cleanup).sound(),
        root.ages(root.owing(ctx.fiber, cleanup)),
        root.controlling(ctx, contract, kind, options).sound(),
        root.ages(root.controlling(ctx, contract, kind, options)),
{
    reveal(RootView::sound);
    assert(root.fibers[ctx.fiber.0 as int].room(1));
    lemma_owing_sound(root, ctx.fiber, cleanup);
    let id = ListenerRegistrationId(root.next);
    let hook = UpdateHookView { id, scope: ctx.scope, options, kind };
    let moved = RootView { next: (root.next + 1) as u64, ..root };
    lemma_same_stores(root, moved);
    let unhook = CleanupView::Unhook { contract, listener: id };
    lemma_owing_sound(moved, ctx.fiber, unhook);
    let owing = moved.owing(ctx.fiber, unhook);
    assert(owing.fiber(ctx.fiber).journal.owes(unhooks(contract, id)));
    let added = RootView { updates: root.updates.adding(contract, hook), ..owing };
    law_a_registered_update_listener_is_found(
        root.updates,
        contract,
        hook,
        contract,
        id,
        root.next,
        moved.next,
    );
    assert(added.owed()) by {
        assert forall|k: spec_fn(CleanupView) -> bool|
            owing.someone_owes(k) implies #[trigger] added.someone_owes(k) by {
            let f = choose|f: int|
                0 <= f < owing.fibers.len() && (#[trigger] owing.fibers[f]).journal.owes(k);
            assert(added.fibers[f].journal.owes(k));
        }
        assert forall|edge: EdgeView| #[trigger] added.slot_owed(edge) by {
            assert(owing.slot_owed(edge));
        }
        assert forall|c: ContractId, l: ListenerRegistrationId|
            (#[trigger] added.updates.find(c, l)) is Some implies added.someone_owes(
            unhooks(c, l),
        ) by {
            law_a_registered_update_listener_is_found(
                root.updates,
                contract,
                hook,
                c,
                l,
                root.next,
                moved.next,
            );
            if c == contract && l == id {
                assert(added.fibers[ctx.fiber.0 as int].journal.owes(unhooks(contract, id)));
            } else {
                assert(owing.updates.find(c, l) is Some);
                assert(owing.someone_owes(unhooks(c, l)));
            }
        }
    }
    assert(added == root.controlling(ctx, contract, kind, options));
}

/// The preflight of a dispatch, the claim of a listener and the completion of a
/// dispatch keep the stores consistent.
pub proof fn law_a_dispatch_keeps_the_runtime_sound(
    root: RootView,
    ctx: ContextView,
    event: Seq<char>,
    contract: EventContract,
    routing: RoutingView,
    hook: HookView,
    operation: EventOperation,
    outcome: DispatchOutcomeKind,
)
    requires
        root.sound(),
    ensures
        root.preflighted(ctx, event, contract, routing).sound(),
        root.ages(root.preflighted(ctx, event, contract, routing)),
        root.claiming_hook(event, hook).sound(),
        root.ages(root.claiming_hook(event, hook)),
        root.dispatched(operation, event, routing.observed(), outcome).sound(),
        root.ages(root.dispatched(operation, event, routing.observed(), outcome)),
{
    reveal(RootView::sound);
    lemma_same_stores(root, root.dispatched(operation, event, routing.observed(), outcome));
    lemma_same_stores(root, root.preflighted(ctx, event, contract, routing));
    lemma_removed_listener_sound(root, event, hook.id);
    let claimed = RootView { events: root.events.claiming(event, hook.id), ..root };
    assert(claimed.sound());
    lemma_same_stores(claimed, root.claiming_hook(event, hook));
}

/// A step of a waterfall keeps the stores consistent.
pub proof fn law_a_waterfall_keeps_the_runtime_sound(
    flow: WaterfallView,
    root: RootView,
    event: ChainEventView,
)
    requires
        root.sound(),
    ensures
        flow.step(root, event).root.sound(),
        root.ages(flow.step(root, event).root),
{
    reveal(RootView::sound);
    let s = flow.chain.step(event);
    let after = flow.step(root, event).root;
    match s.next {
        ChainMoveView::Enter { index, payload } => {
            let k = root.next_hook(flow.event, flow.hooks, index as int);
            if k < flow.hooks.len() {
                let hook = flow.hooks[k];
                lemma_removed_listener_sound(root, flow.event, hook.id);
                let claimed = RootView {
                    events: root.events.claiming(flow.event, hook.id),
                    ..root
                };
                assert(claimed.sound());
                lemma_same_stores(claimed, after);
            } else {
                lemma_same_stores(root, after);
            }
        },
        _ => {
            lemma_same_stores(root, after);
        },
    }
}

// Fibers.

/// An admission keeps the stores consistent.
pub proof fn law_an_admission_keeps_the_runtime_sound(
    root: RootView,
    ctx: ContextView,
    plugin: TypedPlugin,
    name: Seq<char>,
    inject: Seq<InjectEntryView>,
)
    requires
        root.sound(),
        root.room(3),
        root.fibers.len() < usize::MAX,
        normalized(inject),
    ensures
        root.admitting(ctx, plugin, name, inject).sound(),
        root.ages(root.admitting(ctx, plugin, name, inject)),
{
    reveal(RootView::sound);
    let id = root.next_fiber();
    let key = PluginKey::Typed(plugin.contract);
    law_an_attached_fiber_is_a_resident_member(root.registry, key, id, root.next);
    let after = root.admitting(ctx, plugin, name, inject);
    let before = root.registry.residents;
    assert(after.registry.residents == before.push(id));
    assert(!after.registry.residents.contains(FiberId(0))) by {
        if after.registry.residents.contains(FiberId(0)) {
            let i = choose|i: int|
                0 <= i < after.registry.residents.len() && after.registry.residents[i] == FiberId(
                    0,
                );
            if i < before.len() {
                assert(before[i] == FiberId(0));
            }
        }
    }
    lemma_services_more(root.services, root.next, after.next);
    assert forall|i: int| 0 <= i < after.registry.residents.len() implies after.has(
        #[trigger] after.registry.residents[i],
    ) by {
        if i < before.len() {
            assert(root.has(before[i]));
        }
    }
    assert(after.registry.residents.no_duplicates()) by {
        assert forall|i: int, j: int|
            0 <= i < after.registry.residents.len() && 0 <= j < after.registry.residents.len() && i
                != j implies after.registry.residents[i] != after.registry.residents[j] by {
            if i < before.len() {
                assert(root.has(before[i]));
            }
            if j < before.len() {
                assert(root.has(before[j]));
            }
        }
    }
    lemma_first_meets(root.registry.current, selects(key));
    assert forall|i: int| 0 <= i < after.registry.groups.len() implies (
    #[trigger] after.registry.groups[i]).allocation < after.next by {
        if i < root.registry.groups.len() {
            assert(root.registry.groups[i].allocation < root.next);
        }
    }
    lemma_events_more(root.events, after.events, root.next, after.next);
    lemma_updates_more(root.updates, root.next, after.next);
    lemma_admitted_links(root, ctx, plugin, name, inject);
    lemma_admitted_debts(root, after);
}

proof fn lemma_admitted_links(
    root: RootView,
    ctx: ContextView,
    plugin: TypedPlugin,
    name: Seq<char>,
    inject: Seq<InjectEntryView>,
)
    requires
        root.sound(),
        root.room(3),
        root.fibers.len() < usize::MAX,
        normalized(inject),
    ensures
        root.admitting(ctx, plugin, name, inject).linked(),
{
    reveal(RootView::sound);
    let id = root.next_fiber();
    let key = PluginKey::Typed(plugin.contract);
    let after = root.admitting(ctx, plugin, name, inject);
    let n = root.fibers.len() as int;
    law_an_attached_fiber_is_a_resident_member(root.registry, key, id, root.next);
    let edges = era_edges(ctx, inject);
    assert(ascending(edges)) by {
        assert forall|i: int, j: int| 0 <= i < j < edges.len() implies before(
            (#[trigger] edges[i]).service,
            (#[trigger] edges[j]).service,
        ) by {
            assert(before(inject[i].name, inject[j].name));
        }
    }
    assert(after.registry.residents == root.registry.residents.push(id));
    assert forall|i: int| 0 <= i < after.fibers.len() implies ((
    #[trigger] after.fibers[i]).residency matches Some(claim) ==> claim.fiber.0 == i
        && after.fibers[i].spawn is Some && after.registry.residents.contains(claim.fiber)
        && after.registry.members(claim.allocation).contains(claim.fiber)) by {
        if i < n {
            assert(after.fibers[i] == root.fibers[i]);
            match root.fibers[i].residency {
                Some(claim) => {
                    lemma_attached_members(
                        root.registry,
                        key,
                        id,
                        root.next,
                        claim.allocation,
                        claim.fiber,
                    );
                    let k = choose|k: int|
                        0 <= k < root.registry.residents.len() && root.registry.residents[k]
                            == claim.fiber;
                    assert(after.registry.residents[k] == claim.fiber);
                },
                None => {},
            }
        }
    }
    assert forall|k: int| 0 <= k < after.registry.residents.len() implies after.has(
        #[trigger] after.registry.residents[k],
    ) && after.fiber(after.registry.residents[k]).residency is Some by {
        if k < root.registry.residents.len() {
            assert(root.has(root.registry.residents[k]));
        }
    }
    assert forall|i: int| 0 <= i < after.fibers.len() implies (
    #[trigger] after.fibers[i]).journal.wf() by {
        if i < n {
            assert(after.fibers[i] == root.fibers[i]);
        }
    }
    assert forall|i: int| 0 <= i < after.fibers.len() && (
    #[trigger] after.fibers[i]).spawn is Some implies ascending(after.fibers[i].edges) by {
        if i < n {
            assert(after.fibers[i] == root.fibers[i]);
        }
    }
}

proof fn lemma_admitted_debts(a: RootView, b: RootView)
    requires
        a.owed(),
        a.fibers.len() <= b.fibers.len(),
        forall|i: int| 0 <= i < a.fibers.len() ==> (#[trigger] b.fibers[i]) == a.fibers[i],
        b.services == a.services,
        b.events == a.events,
        b.updates == a.updates,
    ensures
        b.owed(),
{
    assert forall|kind: spec_fn(CleanupView) -> bool|
        a.someone_owes(kind) implies #[trigger] b.someone_owes(kind) by {
        let f = choose|f: int|
            0 <= f < a.fibers.len() && (#[trigger] a.fibers[f]).journal.owes(kind);
        assert(b.fibers[f].journal.owes(kind));
    }
    assert forall|edge: EdgeView| #[trigger] b.slot_owed(edge) by {
        assert(a.slot_owed(edge));
        match a.services.slot(edge) {
            Some(s) => {
                assert(b.fibers[s.owner.0 as int] == a.fibers[s.owner.0 as int]);
            },
            None => {},
        }
    }
}

proof fn lemma_unlinked_links(root: RootView, id: FiberId)
    requires
        root.sound(),
        root.has(id),
    ensures
        root.unlinking(id).linked(),
        !root.unlinking(id).registry.residents.contains(id),
{
    reveal(RootView::sound);
    let after = root.unlinking(id);
    match root.fiber(id).residency {
        None => {
            if root.registry.residents.contains(id) {
                let k = choose|k: int|
                    0 <= k < root.registry.residents.len() && root.registry.residents[k] == id;
                assert(root.fiber(root.registry.residents[k]).residency is Some);
            }
        },
        Some(claim) => {
            assert(root.fibers[id.0 as int].residency == Some(claim));
            assert(claim.fiber == id);
            lemma_first_meets(root.registry.groups, is_group(claim.allocation));
            assert(root.registry.members(claim.allocation).contains(claim.fiber));
            assert(first(root.registry.groups, is_group(claim.allocation)) is Some);
            law_a_release_unlinks_exactly_its_fiber(root.registry, claim, claim.fiber);
            assert forall|i: int| 0 <= i < after.fibers.len() implies (#[trigger] after.fibers[i])
                == (if i == id.0 {
                FiberView { residency: None, ..root.fibers[i] }
            } else {
                root.fibers[i]
            }) by {}
            assert forall|i: int| 0 <= i < after.fibers.len() implies ((
            #[trigger] after.fibers[i]).residency matches Some(c) ==> c.fiber.0 == i
                && after.fibers[i].spawn is Some && after.registry.residents.contains(c.fiber)
                && after.registry.members(c.allocation).contains(c.fiber)) by {
                if i != id.0 {
                    match root.fibers[i].residency {
                        Some(c) => {
                            law_a_release_unlinks_exactly_its_fiber(root.registry, claim, c.fiber);
                            lemma_released_members(root.registry, claim, c.allocation, c.fiber);
                        },
                        None => {},
                    }
                }
            }
            assert forall|k: int| 0 <= k < after.registry.residents.len() implies after.has(
                #[trigger] after.registry.residents[k],
            ) && after.fiber(after.registry.residents[k]).residency is Some by {
                let f = after.registry.residents[k];
                assert(after.registry.residents.contains(f));
                law_a_release_unlinks_exactly_its_fiber(root.registry, claim, f);
                let m = choose|m: int|
                    0 <= m < root.registry.residents.len() && root.registry.residents[m] == f;
                assert(root.has(root.registry.residents[m]));
            }
        },
    }
}

/// An unlink keeps the stores consistent, and leaves the Fiber no resident.
pub proof fn law_an_unlink_keeps_the_runtime_sound(root: RootView, id: FiberId)
    requires
        root.sound(),
        root.has(id),
    ensures
        root.unlinking(id).sound(),
        root.ages(root.unlinking(id)),
        root.unlinking(id).fibers.len() == root.fibers.len(),
        root.unlinking(id).next == root.next,
        !root.unlinking(id).registry.residents.contains(id),
{
    reveal(RootView::sound);
    lemma_unlinked_links(root, id);
    assert forall|i: int| 0 <= i < root.fibers.len() implies (
    #[trigger] root.unlinking(id).fibers[i]).journal == root.fibers[i].journal by {}
    lemma_debts_kept(root, root.unlinking(id));
    match root.fiber(id).residency {
        Some(claim) => {
            let after = root.unlinking(id);
            let released = root.registry.released(claim);
            assert(after.registry == released);
            lemma_released_wf(root.registry, claim);
            if first(root.registry.groups, is_group(claim.allocation))
                is Some {
                law_a_release_unlinks_exactly_its_fiber(root.registry, claim, claim.fiber);
            }
            assert forall|i: int| 0 <= i < released.residents.len() implies after.has(
                #[trigger] released.residents[i],
            ) && released.residents[i] != FiberId(0) by {
                lemma_first_meets(
                    root.registry.residents,
                    is_fiber(claim.fiber),
                );
                if i < root.registry.residents.len() {
                    assert(root.has(root.registry.residents[i]));
                }
                if i + 1 < root.registry.residents.len() {
                    assert(root.has(root.registry.residents[i + 1]));
                }
            }
            assert forall|i: int| 0 <= i < released.groups.len() implies (
            #[trigger] released.groups[i]).allocation < after.next by {
                lemma_first_meets(
                    root.registry.groups,
                    is_group(claim.allocation),
                );
                if i < root.registry.groups.len() {
                    assert(root.registry.groups[i].allocation < root.next);
                }
                if i + 1 < root.registry.groups.len() {
                    assert(root.registry.groups[i + 1].allocation < root.next);
                }
            }
        },
        None => {},
    }
}

/// The detach of a Plugin group keeps the stores consistent.
pub proof fn law_a_detach_keeps_the_runtime_sound(root: RootView, key: PluginKey)
    requires
        root.sound(),
    ensures
        (RootView { registry: root.registry.detached(key), ..root }).sound(),
        root.ages((RootView { registry: root.registry.detached(key), ..root })),
{
    reveal(RootView::sound);
    lemma_detached_wf(root.registry, key);
    let after = RootView { registry: root.registry.detached(key), ..root };
    lemma_debts_kept(root, after);
    assert forall|k: int| 0 <= k < after.registry.residents.len() implies after.has(
        #[trigger] after.registry.residents[k],
    ) && after.fiber(after.registry.residents[k]).residency is Some by {
        assert(root.has(root.registry.residents[k]));
    }
    assert forall|allocation: u64|
        after.registry.members(allocation) == #[trigger] root.registry.members(allocation) by {}
}

/// The framework's part of a cleanup keeps the stores consistent.
pub proof fn law_a_cleanup_keeps_the_runtime_sound(root: RootView, cleanup: CleanupView)
    requires
        root.sound(),
    ensures
        root.cleaned(cleanup).sound(),
        root.ages(root.cleaned(cleanup)),
{
    reveal(RootView::sound);
    lemma_cleaned_owed(root, cleanup);
    law_a_cleanup_ends_what_it_is_for(root, cleanup, cleanup);
    match cleanup {
        CleanupView::Withdraw { realm, service, occurrence } => {
            let edge = EdgeView { service, realm };
            lemma_without_sound(root.services, edge, root.next);
        },
        CleanupView::Unlisten { meta } => {
            law_an_unregistration_keeps_the_runtime_sound(root, meta);
        },
        _ => {},
    }
}

/// The service of one obligation, from its claim on, keeps the stores consistent
/// and leaves nothing of what it was for.
pub proof fn lemma_served_sound(root: RootView, id: FiberId, token: DisposableToken)
    requires
        root.sound(),
        root.has(id),
    ensures
        match root.obligation(id, token) {
            None => root.claiming(id, token).sound() && root.ages(root.claiming(id, token)),
            Some(c) => if c.is_hosted() {
                root.claiming(id, token).sound() && root.ages(root.claiming(id, token))
            } else {
                root.claiming(id, token).cleaned(c).sound() && root.ages(
                    root.claiming(id, token).cleaned(c),
                ) && root.claiming(id, token).cleaned(c).gone(c)
            },
        },
{
    reveal(RootView::sound);
    match root.obligation(id, token) {
        None => law_a_claim_keeps_the_runtime_sound(root, id, token),
        Some(c) => {
            if c.is_hosted() {
                law_a_claim_keeps_the_runtime_sound(root, id, token);
            } else {
                law_a_cleanup_keeps_the_runtime_sound(root, c);
                law_a_cleanup_ends_what_it_is_for(root, c, c);
                let ended = root.cleaned(c);
                lemma_cleaned_counters(root, c);
                law_a_claim_keeps_the_runtime_sound(ended, id, token);
                assert(ended.claiming(id, token) == root.claiming(id, token).cleaned(c));
            }
        },
    }
}

/// A drain keeps the stores consistent.
pub proof fn law_a_drain_keeps_the_runtime_sound(
    root: RootView,
    id: FiberId,
    tokens: Seq<DisposableToken>,
)
    requires
        root.sound(),
        root.has(id),
    ensures
        root.drained(id, tokens).root.sound(),
        root.ages(root.drained(id, tokens).root),
        root.drained(id, tokens).root.fibers.len() == root.fibers.len(),
        root.drained(id, tokens).root.next == root.next,
    decreases tokens.len(),
{
    reveal(RootView::sound);
    lemma_drained_counters(root, id, tokens);
    if tokens.len() == 0 {
        lemma_same_stores(root, root.marking_drain(id, false));
    } else {
        let claimed = root.claiming(id, tokens.last());
        lemma_served_sound(root, id, tokens.last());
        match root.obligation(id, tokens.last()) {
            None => law_a_drain_keeps_the_runtime_sound(claimed, id, tokens.drop_last()),
            Some(cleanup) => {
                if !cleanup.is_hosted() {
                    lemma_cleaned_counters(claimed, cleanup);
                    law_a_drain_keeps_the_runtime_sound(
                        claimed.cleaned(cleanup),
                        id,
                        tokens.drop_last(),
                    );
                }
            },
        }
    }
}

proof fn lemma_decided_sound(s: SettleView, root: RootView)
    requires
        root.sound(),
        root.has(s.fiber),
    ensures
        s.decided(root).root.sound(),
        root.ages(s.decided(root).root),
        s.decided(root).root.fibers.len() == root.fibers.len(),
        s.decided(root).root.next == root.next,
{
    let parked = root.parking(s.fiber, None);
    lemma_same_stores(root, parked);
    lemma_transition_publishes(parked, s.fiber, FiberState::Pending);
    lemma_same_stores(parked, parked.transition(s.fiber, FiberState::Pending));
    let leased = root.sealing(s.fiber, None);
    let marked = leased.with_fiber(
        s.fiber,
        FiberView { generation_replacing: false, ..leased.fiber(s.fiber) },
    );
    lemma_same_stores(root, marked);
    lemma_transition_publishes(marked, s.fiber, FiberState::Loading);
    lemma_same_stores(marked, marked.transition(s.fiber, FiberState::Loading));
}

proof fn lemma_unloading_sound(s: SettleView, root: RootView, tokens: Seq<DisposableToken>)
    requires
        root.sound(),
        root.has(s.fiber),
    ensures
        s.unloading(root, tokens).root.sound(),
        root.ages(s.unloading(root, tokens).root),
        s.unloading(root, tokens).root.fibers.len() == root.fibers.len(),
        s.unloading(root, tokens).root.next == root.next,
{
    law_a_drain_keeps_the_runtime_sound(root, s.fiber, tokens);
    lemma_decided_sound(s, root.drained(s.fiber, tokens).root);
}

proof fn lemma_rolling_back_sound(
    s: SettleView,
    root: RootView,
    tokens: Seq<DisposableToken>,
    failure: PluginFailureView,
)
    requires
        root.sound(),
        root.has(s.fiber),
    ensures
        s.rolling_back(root, tokens, failure).root.sound(),
        root.ages(s.rolling_back(root, tokens, failure).root),
        s.rolling_back(root, tokens, failure).root.fibers.len() == root.fibers.len(),
        s.rolling_back(root, tokens, failure).root.next == root.next,
{
    law_a_drain_keeps_the_runtime_sound(root, s.fiber, tokens);
    let drained = root.drained(s.fiber, tokens).root;
    let parked = drained.parking(s.fiber, Some(failure));
    lemma_transition_publishes(parked, s.fiber, FiberState::Failed);
    lemma_same_stores(drained, parked.transition(s.fiber, FiberState::Failed));
}

proof fn lemma_applied_sound(
    s: SettleView,
    root: RootView,
    state: (u64, u64),
    failure: Option<PluginFailureView>,
)
    requires
        root.sound(),
        root.has(s.fiber),
    ensures
        s.applied(root, state, failure).root.sound(),
        root.ages(s.applied(root, state, failure).root),
        s.applied(root, state, failure).root.fibers.len() == root.fibers.len(),
        s.applied(root, state, failure).root.next == root.next,
{
    let id = s.fiber;
    let returned = root.returned(id, state);
    assert(returned == root.with_fiber(id, returned.fiber(id)));
    lemma_kept_fiber_sound(root, id, returned.fiber(id));
    match failure {
        None => {
            let parked = returned.parking(id, None);
            lemma_kept_fiber_sound(returned, id, parked.fiber(id));
            lemma_later(root, returned, parked);
            lemma_transition_sound(parked, id, FiberState::Active);
            lemma_later(root, parked, parked.transition(id, FiberState::Active));
        },
        Some(f) => {
            let closed = returned.transition(id, FiberState::Unloading);
            lemma_transition_sound(returned, id, FiberState::Unloading);
            lemma_later(root, returned, closed);
            let marked = closed.marking_drain(id, true);
            lemma_kept_fiber_sound(closed, id, marked.fiber(id));
            lemma_later(root, closed, marked);
            let tokens = closed.fiber(id).journal.tokens();
            lemma_rolling_back_sound(s, marked, tokens, f);
            lemma_later(root, marked, s.rolling_back(marked, tokens, f).root);
        },
    }
}

proof fn lemma_transition_sound(root: RootView, id: FiberId, next: FiberState)
    requires
        root.sound(),
        root.has(id),
    ensures
        root.transition(id, next).sound(),
        root.ages(root.transition(id, next)),
        root.transition(id, next).fibers.len() == root.fibers.len(),
        root.transition(id, next).next == root.next,
{
    lemma_transition_publishes(root, id, next);
    lemma_same_stores(root, root.transition(id, next));
}

/// A step of a settle keeps the stores consistent.
pub proof fn law_a_settle_keeps_the_runtime_sound(s: SettleView, root: RootView, reply: ReplyView)
    requires
        root.sound(),
        root.has(s.fiber),
    ensures
        s.step(root, reply).root.sound(),
        root.ages(s.step(root, reply).root),
        s.step(root, reply).root.fibers.len() == root.fibers.len(),
        s.step(root, reply).root.next == root.next,
{
    match s.phase {
        SettlePhaseView::Start => {
            let closed = root.transition(s.fiber, FiberState::Unloading);
            lemma_transition_publishes(root, s.fiber, FiberState::Unloading);
            let marked = closed.marking_drain(s.fiber, true);
            lemma_same_stores(root, marked);
            lemma_unloading_sound(s, marked, closed.fiber(s.fiber).journal.tokens());
            lemma_decided_sound(s, root);
        },
        SettlePhaseView::Unloading(tokens) => {
            lemma_unloading_sound(s, root, tokens);
        },
        SettlePhaseView::Applying(state) => match reply {
            ReplyView::Applied(failure) => lemma_applied_sound(s, root, state, failure),
            _ => {},
        },
        SettlePhaseView::RollingBack(tokens, failure) => {
            lemma_rolling_back_sound(s, root, tokens, failure);
        },
        SettlePhaseView::Settled => {},
    }
}

/// The end of a disposal keeps the stores consistent, and leaves the Fiber no
/// resident.
pub proof fn lemma_completed_sound(root: RootView, id: FiberId, frees_slot: bool)
    requires
        root.sound(),
        root.has(id),
    ensures
        root.completed(id, frees_slot).sound(),
        root.ages(root.completed(id, frees_slot)),
        root.completed(id, frees_slot).fibers.len() == root.fibers.len(),
        root.completed(id, frees_slot).next == root.next,
        !root.completed(id, frees_slot).registry.residents.contains(id),
{
    let freed = if frees_slot {
        root.abandoning(id)
    } else {
        root
    };
    lemma_same_stores(root, freed);
    law_an_unlink_keeps_the_runtime_sound(freed, id);
    lemma_same_stores(freed.unlinking(id), root.completed(id, frees_slot));
}

/// The last drain of a Fiber keeps the stores consistent, and leaves the Fiber no
/// resident once it is over.
pub proof fn lemma_draining_sound(
    d: DisposalView,
    root: RootView,
    frees_slot: bool,
    tokens: Seq<DisposableToken>,
)
    requires
        root.sound(),
        root.has(d.fiber),
    ensures
        d.draining(root, frees_slot, tokens).root.sound(),
        root.ages(d.draining(root, frees_slot, tokens).root),
        d.draining(root, frees_slot, tokens).root.fibers.len() == root.fibers.len(),
        d.draining(root, frees_slot, tokens).root.next == root.next,
        d.draining(root, frees_slot, tokens).action is None ==> !d.draining(
            root,
            frees_slot,
            tokens,
        ).root.registry.residents.contains(d.fiber),
{
    law_a_drain_keeps_the_runtime_sound(root, d.fiber, tokens);
    let drained = root.drained(d.fiber, tokens).root;
    lemma_transition_publishes(drained, d.fiber, FiberState::Disposed);
    let disposed = drained.disposed(d.fiber);
    lemma_same_stores(drained, disposed);
    lemma_completed_sound(disposed, d.fiber, frees_slot);
}

proof fn lemma_begun_sound(d: DisposalView, root: RootView, frees_slot: bool)
    requires
        root.sound(),
        root.has(d.fiber),
    ensures
        d.begun(root, frees_slot).root.sound(),
        root.ages(d.begun(root, frees_slot).root),
        d.begun(root, frees_slot).root.fibers.len() == root.fibers.len(),
        d.begun(root, frees_slot).root.next == root.next,
        d.begun(root, frees_slot).action is None ==> !d.begun(
            root,
            frees_slot,
        ).root.registry.residents.contains(d.fiber),
{
    let doomed = root.doomed(d.fiber);
    lemma_same_stores(root, doomed);
    lemma_completed_sound(doomed, d.fiber, frees_slot);
    lemma_transition_publishes(doomed, d.fiber, FiberState::Unloading);
    let closed = doomed.closing(d.fiber);
    let marked = closed.marking_drain(d.fiber, true);
    lemma_same_stores(doomed, marked);
    lemma_draining_sound(d, marked, frees_slot, closed.fiber(d.fiber).journal.tokens());
}

/// Another value for one Fiber keeps the stores consistent where the Fiber keeps
/// its claim and its journal.
proof fn lemma_kept_fiber_sound(root: RootView, id: FiberId, fiber: FiberView)
    requires
        root.sound(),
        root.has(id),
        root.fiber(id).keeps(fiber),
        fiber.alive ==> root.fiber(id).alive,
        root.fiber(id).disposing ==> fiber.disposing,
    ensures
        root.with_fiber(id, fiber).sound(),
        root.ages(root.with_fiber(id, fiber)),
        root.with_fiber(id, fiber).fibers.len() == root.fibers.len(),
        root.with_fiber(id, fiber).next == root.next,
{
    lemma_same_stores(root, root.with_fiber(id, fiber));
}

proof fn lemma_later(a: RootView, b: RootView, c: RootView)
    requires
        a.ages(b),
        b.ages(c),
    ensures
        a.ages(c),
{
    assert forall|i: int| 0 <= i < a.fibers.len() implies ((#[trigger] c.fibers[i]).alive
        ==> a.fibers[i].alive) && (a.fibers[i].disposing ==> c.fibers[i].disposing) by {
        assert(b.fibers[i].alive ==> a.fibers[i].alive);
    }
}

proof fn lemma_held_disposal_sound(d: DisposalView, root: RootView)
    requires
        root.sound(),
        root.has(d.fiber),
    ensures
        d.begun(root.holding(d.fiber), true).root.sound(),
        root.ages(d.begun(root.holding(d.fiber), true).root),
        d.begun(root.holding(d.fiber), true).root.fibers.len() == root.fibers.len(),
        d.begun(root.holding(d.fiber), true).root.next == root.next,
{
    let held = root.holding(d.fiber);
    lemma_kept_fiber_sound(root, d.fiber, held.fiber(d.fiber));
    lemma_begun_sound(d, held, true);
    lemma_later(root, held, d.begun(held, true).root);
}

proof fn lemma_inheriting_sound(d: DisposalView, root: RootView)
    requires
        root.sound(),
        root.has(d.fiber),
    ensures
        d.inheriting(root).root.sound(),
        root.ages(d.inheriting(root).root),
        d.inheriting(root).root.fibers.len() == root.fibers.len(),
        d.inheriting(root).root.next == root.next,
{
    let fiber = root.fiber(d.fiber);
    if fiber.slot.creation_owned {
        let mine = FiberView {
            slot: InertiaView { creation_owned: false, ..fiber.slot },
            ..fiber
        };
        lemma_kept_fiber_sound(root, d.fiber, mine);
        let taken = root.with_fiber(d.fiber, mine);
        lemma_begun_sound(d, taken, true);
        lemma_later(root, taken, d.begun(taken, true).root);
    } else if !fiber.disposing {
        let doomed = FiberView { disposing: true, ..fiber };
        lemma_kept_fiber_sound(root, d.fiber, doomed);
        let claimed = root.with_fiber(d.fiber, doomed);
        lemma_held_disposal_sound(d, claimed);
        lemma_later(root, claimed, d.reclaiming(claimed).root);
    }
}

/// A step of a disposal keeps the stores consistent.
pub proof fn law_a_disposal_keeps_the_runtime_sound(d: DisposalView, root: RootView)
    requires
        root.sound(),
        root.has(d.fiber),
    ensures
        d.step(root).root.sound(),
        root.ages(d.step(root).root),
        d.step(root).root.fibers.len() == root.fibers.len(),
        d.step(root).root.next == root.next,
{
    match d.phase {
        DisposalPhaseView::Claim => lemma_held_disposal_sound(d, root),
        DisposalPhaseView::Reclaim => lemma_held_disposal_sound(d, root),
        DisposalPhaseView::Inherit => lemma_inheriting_sound(d, root),
        DisposalPhaseView::Begin { frees_slot } => lemma_begun_sound(d, root, frees_slot),
        DisposalPhaseView::Draining { frees_slot, tokens } => lemma_draining_sound(
            d,
            root,
            frees_slot,
            tokens,
        ),
        DisposalPhaseView::Joining => {},
        DisposalPhaseView::Over => {},
    }
}

/// A step of a convergence pass keeps the stores consistent.
pub proof fn law_a_convergence_pass_keeps_the_runtime_sound(
    settle: SettleView,
    root: RootView,
    reply: ReplyView,
)
    requires
        root.sound(),
        root.has(settle.fiber),
    ensures
        convergence_step(settle, root, reply).root.sound(),
        root.ages(convergence_step(settle, root, reply).root),
{
    law_a_settle_keeps_the_runtime_sound(settle, root, reply);
    let settled = settle.step(root, reply).root;
    lemma_same_stores(settled, settled.exiting(settle.fiber, settle.target));
}

proof fn lemma_releasing_sound(
    pass: InitialPassView,
    root: RootView,
    settled: TargetView,
    outcome: InitialOutcomeView,
)
    requires
        root.sound(),
        root.has(pass.fiber),
    ensures
        pass.releasing(root, settled, outcome).root.sound(),
        root.ages(pass.releasing(root, settled, outcome).root),
        pass.releasing(root, settled, outcome).root.fibers.len() == root.fibers.len(),
        pass.releasing(root, settled, outcome).root.next == root.next,
{
    let exited = root.exiting(pass.fiber, settled);
    lemma_same_stores(root, exited);
    lemma_same_stores(root, exited.owning(pass.fiber, false));
}

proof fn lemma_tearing_sound(
    pass: InitialPassView,
    root: RootView,
    disposal: DisposalView,
    failure: PluginFailureView,
)
    requires
        root.sound(),
        root.has(pass.fiber),
        disposal.fiber == pass.fiber,
    ensures
        pass.tearing(root, disposal, failure).root.sound(),
        root.ages(pass.tearing(root, disposal, failure).root),
        pass.tearing(root, disposal, failure).root.fibers.len() == root.fibers.len(),
        pass.tearing(root, disposal, failure).root.next == root.next,
{
    law_a_disposal_keeps_the_runtime_sound(disposal, root);
    let torn = disposal.step(root).root;
    lemma_same_stores(torn, torn.owning(pass.fiber, false).abandoning(pass.fiber));
}

proof fn lemma_initial_settled_sound(
    pass: InitialPassView,
    root: RootView,
    target: TargetView,
)
    requires
        root.sound(),
        root.has(pass.fiber),
    ensures
        pass.settled(root, target).root.sound(),
        root.ages(pass.settled(root, target).root),
        pass.settled(root, target).root.fibers.len() == root.fibers.len(),
        pass.settled(root, target).root.next == root.next,
{
    if target.has_missing() {
        let touched = root.aiming_if_untouched(pass.fiber, target);
        lemma_same_stores(root, touched);
        lemma_releasing_sound(
            pass,
            touched,
            target,
            InitialOutcomeView::Pending,
        );
    } else {
        let aimed = root.aiming(pass.fiber, target);
        lemma_same_stores(root, aimed);
        if aimed.fiber(pass.fiber).current() is Failed {
            let parked = aimed.parking(pass.fiber, None);
            lemma_same_stores(aimed, parked);
            lemma_tearing_sound(
                pass,
                parked,
                DisposalView {
                    fiber: pass.fiber,
                    phase: DisposalPhaseView::Begin { frees_slot: false },
                },
                aimed.first_failure(pass.fiber),
            );
        } else {
            lemma_releasing_sound(
                pass,
                aimed,
                target,
                InitialOutcomeView::Active,
            );
        }
    }
}

proof fn lemma_initial_settling_sound(
    pass: InitialPassView,
    root: RootView,
    settle: SettleView,
    reply: ReplyView,
)
    requires
        root.sound(),
        root.has(pass.fiber),
        settle.fiber == pass.fiber,
    ensures
        pass.settling(root, settle, reply).root.sound(),
        root.ages(pass.settling(root, settle, reply).root),
        pass.settling(root, settle, reply).root.fibers.len() == root.fibers.len(),
        pass.settling(root, settle, reply).root.next == root.next,
{
    law_a_settle_keeps_the_runtime_sound(settle, root, reply);
    lemma_initial_settled_sound(pass, settle.step(root, reply).root, settle.target);
}

/// A step of a creation's initial pass keeps the stores consistent.
pub proof fn law_an_initial_pass_keeps_the_runtime_sound(
    pass: InitialPassView,
    root: RootView,
    reply: ReplyView,
)
    requires
        root.sound(),
        root.has(pass.fiber),
        pass.wf(),
    ensures
        pass.step(root, reply).root.sound(),
        root.ages(pass.step(root, reply).root),
        pass.step(root, reply).root.fibers.len() == root.fibers.len(),
        pass.step(root, reply).root.next == root.next,
{
    match pass.phase {
        InitialPhaseView::Claim => {
            law_an_unlink_keeps_the_runtime_sound(root, pass.fiber);
            let held = root.holding(pass.fiber).owning(pass.fiber, true);
            lemma_same_stores(root, held);
            match root.target(pass.fiber) {
                Some(target) => {
                    lemma_initial_settling_sound(
                        pass,
                        held,
                        SettleView::begin(pass.fiber, target, true),
                        reply,
                    );
                },
                None => {},
            }
        },
        InitialPhaseView::Settling(settle) => {
            lemma_initial_settling_sound(pass, root, settle, reply);
        },
        InitialPhaseView::Tearing(disposal, failure) => {
            lemma_tearing_sound(pass, root, disposal, failure);
        },
        InitialPhaseView::Over(outcome) => {},
    }
}

proof fn lemma_replacement_settling_sound(
    pass: ReplacementView,
    root: RootView,
    settle: SettleView,
    reply: ReplyView,
)
    requires
        root.sound(),
        root.has(pass.fiber),
        settle.fiber == pass.fiber,
    ensures
        pass.settling(root, settle, reply).root.sound(),
        root.ages(pass.settling(root, settle, reply).root),
{
    law_a_settle_keeps_the_runtime_sound(settle, root, reply);
    let settled = settle.step(root, reply).root;
    lemma_same_stores(settled, settled.exiting(pass.fiber, settle.target));
}

proof fn lemma_replacement_aimed_sound(pass: ReplacementView, root: RootView, reply: ReplyView)
    requires
        root.sound(),
        root.has(pass.fiber),
    ensures
        pass.aimed(root, reply).root.sound(),
        root.ages(pass.aimed(root, reply).root),
{
    match root.target(pass.fiber) {
        Some(target) => {
            let aimed = root.aiming(pass.fiber, target);
            lemma_same_stores(root, aimed);
            lemma_replacement_settling_sound(
                pass,
                aimed,
                SettleView::begin(pass.fiber, target, false),
                reply,
            );
        },
        None => {
            lemma_same_stores(root, root.abandoning(pass.fiber));
        },
    }
}

/// A step of a same-Fiber replacement keeps the stores consistent.
pub proof fn law_a_replacement_keeps_the_runtime_sound(
    pass: ReplacementView,
    root: RootView,
    reply: ReplyView,
)
    requires
        root.sound(),
        root.has(pass.fiber),
        root.room(1),
        pass.wf(),
    ensures
        pass.step(root, reply).root.sound(),
        root.ages(pass.step(root, reply).root),
{
    match pass.phase {
        ReplacementPhaseView::Claim(change) => {
            let replaced = root.replacing(pass.fiber);
            lemma_same_stores(root, replaced);
            lemma_replacement_aimed_sound(pass, replaced, reply);
            match change {
                Some(c) => {
                    if root.accepts(pass.fiber, c) {
                        lemma_same_stores(root, root.committing(pass.fiber, c));
                    }
                },
                None => {},
            }
        },
        ReplacementPhaseView::Committed => lemma_replacement_aimed_sound(pass, root, reply),
        ReplacementPhaseView::Settling(settle) => lemma_replacement_settling_sound(
            pass,
            root,
            settle,
            reply,
        ),
        ReplacementPhaseView::Over(outcome) => {},
    }
}

/// A step of a spawn keeps the stores consistent.
pub proof fn law_a_spawn_keeps_the_runtime_sound(
    spawn: SpawnPhaseView,
    root: RootView,
    reply: ReplyView,
)
    requires
        root.sound(),
        root.room(3),
        root.fibers.len() < usize::MAX,
        spawn.wf(root),
        spawn matches SpawnPhaseView::Start { inject, .. } ==> normalized(inject),
    ensures
        spawn.step(root, reply).root.sound(),
        root.ages(spawn.step(root, reply).root),
{
    match spawn {
        SpawnPhaseView::Start { ctx, plugin, name, inject, gated } => {
            law_an_admission_keeps_the_runtime_sound(root, ctx, plugin, name, inject);
            law_an_initial_pass_keeps_the_runtime_sound(
                InitialPassView { fiber: root.next_fiber(), phase: InitialPhaseView::Claim },
                root.admitting(ctx, plugin, name, inject),
                reply,
            );
        },
        SpawnPhaseView::Initial(pass) => law_an_initial_pass_keeps_the_runtime_sound(
            pass,
            root,
            reply,
        ),
        SpawnPhaseView::Handoff(id) => {
            law_an_unlink_keeps_the_runtime_sound(root, id);
            lemma_same_stores(
                root,
                root.with_fiber(
                    id,
                    FiberView { creation_pending: false, ..root.fiber(id) },
                ),
            );
        },
        SpawnPhaseView::Over(result) => {},
    }
}

/// A step of a dependents' convergence keeps the stores consistent.
pub proof fn law_a_convergence_keeps_the_runtime_sound(
    c: ConvergenceView,
    root: RootView,
    by: SettleAttribution,
)
    requires
        root.sound(),
    ensures
        c.step(root, by).root.sound(),
        root.ages(c.step(root, by).root),
{
    lemma_same_stores(root, c.step(root, by).root);
}

/// A step of a group removal keeps the stores consistent.
pub proof fn law_a_group_removal_keeps_the_runtime_sound(removal: RemovalView, root: RootView)
    requires
        root.sound(),
        removal.wf(root),
    ensures
        removal.step(root).root.sound(),
        root.ages(removal.step(root).root),
{
    if removal.index < removal.fibers.len() {
        assert(root.has(removal.fibers[removal.index as int]));
        law_a_disposal_keeps_the_runtime_sound(removal.current(), root);
    }
}

proof fn lemma_era_claim_sound(era: EraView, root: RootView)
    requires
        root.sound(),
        root.has(era.source),
    ensures
        era.claiming(root).root.sound(),
        root.ages(era.claiming(root).root),
{
    let held = root.holding(era.source);
    let fiber = FiberView { disposing: true, ..held.fiber(era.source) };
    lemma_kept_fiber_sound(root, era.source, fiber);
    assert(root.claiming_terminal(era.source) == root.with_fiber(era.source, fiber));
}

proof fn lemma_era_entry_sound(era: EraView, root: RootView, convergence: ConvergenceView)
    requires
        root.sound(),
        root.has(era.source),
        era.phase == EraPhaseView::Entry(convergence),
    ensures
        era.step(root, ReplyView::Go).root.sound(),
        root.ages(era.step(root, ReplyView::Go).root),
        forall|reply: ReplyView|
            (#[trigger] era.step(root, reply)) == era.step(root, ReplyView::Go),
{
    law_a_convergence_keeps_the_runtime_sound(convergence, root, era.by);
    let after = convergence.step(root, era.by).root;
    let sealed = after.sealing(era.source, None);
    lemma_kept_fiber_sound(after, era.source, sealed.fiber(era.source));
    lemma_later(root, after, sealed);
}

/// A step of an era replacement keeps the stores consistent.
pub proof fn law_an_era_replacement_keeps_the_runtime_sound(
    era: EraView,
    root: RootView,
    reply: ReplyView,
)
    requires
        root.sound(),
        root.room(3),
        root.fibers.len() < usize::MAX,
        era.wf(root),
        era.normal(),
    ensures
        era.step(root, reply).root.sound(),
        root.ages(era.step(root, reply).root),
{
    match era.phase {
        EraPhaseView::Claim => lemma_era_claim_sound(era, root),
        EraPhaseView::Terminal(disposal, entry) => law_a_disposal_keeps_the_runtime_sound(
            disposal,
            root,
        ),
        EraPhaseView::Entry(convergence) => lemma_era_entry_sound(era, root, convergence),
        EraPhaseView::Superseded(plugin) => {},
        EraPhaseView::Spawning(spawn) => law_a_spawn_keeps_the_runtime_sound(spawn, root, reply),
        EraPhaseView::Final(convergence, ending) => law_a_convergence_keeps_the_runtime_sound(
            convergence,
            root,
            era.by,
        ),
        EraPhaseView::Over(ending) => {},
    }
}

/// A step of the cleanup of an undelivered successor keeps the stores consistent.
pub proof fn law_an_undelivered_cleanup_keeps_the_runtime_sound(
    u: UndeliveredView,
    root: RootView,
)
    requires
        root.sound(),
        u.wf(root),
    ensures
        u.step(root).root.sound(),
        root.ages(u.step(root).root),
{
    match u.phase {
        UndeliveredPhaseView::Disposing(disposal) => law_a_disposal_keeps_the_runtime_sound(
            disposal,
            root,
        ),
        UndeliveredPhaseView::Converging(convergence) => law_a_convergence_keeps_the_runtime_sound(
            convergence,
            root,
            u.by,
        ),
        UndeliveredPhaseView::Over => {},
    }
}

} // verus!
