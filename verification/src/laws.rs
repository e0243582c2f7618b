//! What holds of the Runtime across its operations.

use crate::context::ContextView;
use crate::deps::EdgeView;
use crate::effect::{CleanupView, DisposableToken};
use crate::event::{EventContract, ListenerMetaView, ListenerOptions};
use crate::event_store::{
    is_hook, law_a_registration_touches_one_event, not_hook, HookKind, HookView,
};
use crate::fiber::FiberView;
use crate::ids::{ContractId, FiberId, ServiceOccurrenceId, ServicePublicationId};
use crate::observation::ObservationView;
use crate::root::RootView;
use crate::seqs::{
    first_index, is_first, lemma_filter_members, lemma_first_absent, lemma_first_found,
    lemma_first_meets,
};
use crate::service::{
    law_a_publication_occupies_one_exact_slot, law_a_value_replacement_keeps_the_occurrence,
    law_an_exact_withdrawal_empties_one_slot, law_the_first_binding_holds, slot_at, SlotView,
};
use crate::sound::lemma_listeners_below;
use crate::transition::{lemma_kick_slots, lemma_recheck_slots};
use vstd::prelude::*;

verus! {

/// What a publication does to the Services and the Fibers.
pub proof fn lemma_providing(
    root: RootView,
    ctx: ContextView,
    name: Seq<char>,
    contract: ContractId,
    value: u64,
)
    requires
        root.has(ctx.fiber),
    ensures
        ({
            let after = root.providing(ctx, name, contract, value);
            let slot = root.published_slot(ctx, name, contract, value);
            &&& after.services == root.services.binding(name, contract).placing(slot)
            &&& after.fibers.len() == root.fibers.len()
            &&& forall|i: int|
                0 <= i < root.fibers.len() ==> (#[trigger] after.fibers[i]) == (FiberView {
                    slot: after.fibers[i].slot,
                    journal: after.fibers[i].journal,
                    ..root.fibers[i]
                })
            &&& !(root.fiber(ctx.fiber).current() is Active) ==> after.hub == root.hub
            &&& after.runtime == root.runtime
        }),
{
    let slot = root.published_slot(ctx, name, contract, value);
    let affected = root.slot_drift(ctx.fiber, slot.edge());
    let bound = RootView {
        next: (root.next + 1) as u64,
        services: root.services.binding(name, contract),
        ..root
    };
    let owed = bound.recheck_all(affected);
    lemma_recheck_slots(bound, affected);
    let placed = RootView { services: owed.services.placing(slot), ..owed };
    let owing = placed.owing(
        ctx.fiber,
        CleanupView::Withdraw { realm: slot.realm, service: name, occurrence: slot.occurrence },
    );
    lemma_kick_slots(owing, affected);
    let driven = owing.kick_all(affected);
    lemma_recheck_hub(bound, affected);
    lemma_kick_hub(owing, affected);
    assert forall|i: int| 0 <= i < root.fibers.len() implies (#[trigger] driven.fibers[i]) == (
    FiberView {
        slot: driven.fibers[i].slot,
        journal: driven.fibers[i].journal,
        ..root.fibers[i]
    }) by {
        assert(owed.fibers[i].alive == bound.fibers[i].alive);
        assert(owing.fibers[i].alive == placed.fibers[i].alive);
    }
}

proof fn lemma_bound_after_binding(
    services: crate::service::ServicesView,
    name: Seq<char>,
    contract: ContractId,
)
    requires
        services.compatible(name, contract),
    ensures
        services.binding(name, contract).bound(name) == Some(contract),
        services.binding(name, contract).slots == services.slots,
{
    if services.bound(name) is None {
        law_the_first_binding_holds(services, name, contract);
    }
}

/// What an active Fiber publishes is found at once under the exact slot it was
/// published in; what a loading one publishes is not found before it is active.
pub proof fn law_a_lookup_finds_what_was_provided(
    root: RootView,
    ctx: ContextView,
    name: Seq<char>,
    contract: ContractId,
    value: u64,
)
    requires
        root.services.exact(),
        root.publish_verdict(ctx, name, contract) is Publish,
    ensures
        ({
            let after = root.providing(ctx, name, contract, value);
            let found = after.lookup(root.slot_of(ctx, name), contract);
            &&& after.services.exact()
            &&& root.fiber(ctx.fiber).current() is Active ==> found == Ok::<u64, bool>(value)
            &&& root.fiber(ctx.fiber).current() is Loading ==> found == Err::<u64, bool>(false)
        }),
{
    let slot = root.published_slot(ctx, name, contract, value);
    let after = root.providing(ctx, name, contract, value);
    let bound = root.services.binding(name, contract);
    lemma_providing(root, ctx, name, contract, value);
    lemma_bound_after_binding(root.services, name, contract);
    law_a_publication_occupies_one_exact_slot(bound, slot, slot.edge());
    assert(after.fiber(ctx.fiber).alive == root.fiber(ctx.fiber).alive);
    assert(after.services.contracts == bound.contracts);
    assert(after.services.bound(name) == bound.bound(name));
}

/// While a publication's owner lives, its exact slot takes no second publication,
/// whoever offers it.
pub proof fn law_an_exact_slot_has_one_publication(
    root: RootView,
    ctx: ContextView,
    name: Seq<char>,
    contract: ContractId,
    value: u64,
    other: ContextView,
)
    requires
        root.services.exact(),
        root.publish_verdict(ctx, name, contract) is Publish,
        root.providing(ctx, name, contract, value).admits(other.fiber),
        other.realm_of(name) == ctx.realm_of(name),
    ensures
        root.providing(ctx, name, contract, value).publish_verdict(other, name, contract) is Duplicate,
{
    let slot = root.published_slot(ctx, name, contract, value);
    let after = root.providing(ctx, name, contract, value);
    let bound = root.services.binding(name, contract);
    lemma_providing(root, ctx, name, contract, value);
    lemma_bound_after_binding(root.services, name, contract);
    law_a_publication_occupies_one_exact_slot(bound, slot, slot.edge());
    assert(after.fiber(ctx.fiber).alive == root.fiber(ctx.fiber).alive);
    assert(after.services.contracts == bound.contracts);
    assert(after.services.bound(name) == bound.bound(name));
}

/// A publication in one exact slot changes no lookup of another: an unpublished
/// private realm is not served from the default one.
pub proof fn law_there_is_no_fallback_lookup(
    root: RootView,
    ctx: ContextView,
    name: Seq<char>,
    contract: ContractId,
    value: u64,
    private: EdgeView,
)
    requires
        root.services.exact(),
        root.publish_verdict(ctx, name, contract) is Publish,
        private.service == name,
        private != root.slot_of(ctx, name),
        root.services.slot(private) is None,
    ensures
        root.providing(ctx, name, contract, value).lookup(private, contract) == Err::<u64, bool>(
            false,
        ),
{
    let slot = root.published_slot(ctx, name, contract, value);
    let after = root.providing(ctx, name, contract, value);
    let bound = root.services.binding(name, contract);
    lemma_providing(root, ctx, name, contract, value);
    lemma_bound_after_binding(root.services, name, contract);
    law_a_publication_occupies_one_exact_slot(bound, slot, private);
    assert(bound.slot(private) == root.services.slot(private));
    assert(after.services.contracts == bound.contracts);
    assert(after.services.bound(name) == bound.bound(name));
}

/// A replaced value is what the next lookup finds, and no Fiber's target changes:
/// the publication's identity stays, so nothing drifts.
pub proof fn law_a_value_replacement_drifts_nobody(
    root: RootView,
    edge: EdgeView,
    occurrence: ServiceOccurrenceId,
    owner: FiberId,
    contract: ContractId,
    value: u64,
    id: FiberId,
)
    requires
        root.control_verdict(edge, occurrence, owner) is Commit,
    ensures
        ({
            let after = RootView { services: root.services.with_value(edge, value), ..root };
            &&& root.lookup(edge, contract) is Ok ==> after.lookup(edge, contract) == Ok::<
                u64,
                bool,
            >(value)
            &&& after.target(id) == root.target(id)
        }),
{
    let after = RootView { services: root.services.with_value(edge, value), ..root };
    law_a_value_replacement_keeps_the_occurrence(root.services, edge, value, edge);
    assert(after.services.contracts == root.services.contracts);
    assert(after.services.bound(edge.service) == root.services.bound(edge.service));
    assert forall|e: EdgeView| #[trigger] after.occurrence(e) == root.occurrence(e) by {
        law_a_value_replacement_keeps_the_occurrence(root.services, edge, value, e);
    }
    let edges = root.fiber(id).edges;
    assert(after.assignments(edges) =~= root.assignments(edges));
}

/// No publication ever gets the identity of an earlier one: what is published
/// later is told apart from it, though it may be gone by then.
pub proof fn law_a_publication_identity_is_never_reused(
    root: RootView,
    slot: SlotView,
    later: RootView,
    ctx: ContextView,
    name: Seq<char>,
    contract: ContractId,
    value: u64,
)
    requires
        root.sound(),
        root.services.slots.contains(slot),
        root.ages(later),
    ensures
        later.published_slot(ctx, name, contract, value).occurrence != slot.occurrence,
{
    reveal(RootView::sound);
    let i = choose|i: int| 0 <= i < root.services.slots.len() && root.services.slots[i] == slot;
    assert(root.services.slots[i].occurrence.0 < root.next);
}

/// A refused publication leaves the Runtime as it was: the name of an occupied
/// slot is bound already.
pub proof fn law_a_refused_publication_changes_nothing(
    root: RootView,
    ctx: ContextView,
    name: Seq<char>,
    contract: ContractId,
)
    requires
        root.sound(),
        root.publish_verdict(ctx, name, contract) is Duplicate,
    ensures
        (RootView { services: root.services.binding(name, contract), ..root }) == root,
{
    reveal(RootView::sound);
    let edge = root.slot_of(ctx, name);
    lemma_first_meets(root.services.slots, slot_at(edge));
    let i = first_index(root.services.slots, slot_at(edge)).unwrap();
    assert(root.services.bound(root.services.slots[i].service) is Some);
}

/// A publication that is removed while its Fiber is active is found no more, and
/// exactly one record says so. Its slot is free again, for a publication with
/// another identity.
pub proof fn law_a_removed_publication_makes_room_for_another(
    root: RootView,
    ctx: ContextView,
    name: Seq<char>,
    slot: SlotView,
    cleanup: DisposableToken,
    value: u64,
)
    requires
        root.sound(),
        root.services.slot(root.slot_of(ctx, name)) == Some(slot),
        slot.owner == ctx.fiber,
        root.admits(ctx.fiber),
        root.fiber(ctx.fiber).current() is Active,
    ensures
        root.control_verdict(slot.edge(), slot.occurrence, slot.owner) is Commit,
        ({
            let after = root.unpublishing(slot.edge(), slot.occurrence, slot.owner, cleanup);
            &&& after.lookup(slot.edge(), slot.contract) == Err::<u64, bool>(false)
            &&& after.hub == root.hub.publishing(
                ObservationView::ServiceVisibility {
                    service: name,
                    realm: root.realm_of(slot.realm),
                    previous: Some(ServicePublicationId(slot.occurrence)),
                    current: None,
                },
            )
            &&& after.publish_verdict(ctx, name, slot.contract) is Publish
            &&& after.published_slot(ctx, name, slot.contract, value).occurrence != slot.occurrence
        }),
{
    reveal(RootView::sound);
    let edge = root.slot_of(ctx, name);
    lemma_first_meets(root.services.slots, slot_at(edge));
    let i = first_index(root.services.slots, slot_at(edge)).unwrap();
    assert(root.services.slots[i] == slot);
    assert(slot.edge() == edge);
    assert(slot.occurrence.0 < root.next);
    assert(root.services.bound(root.services.slots[i].service) == Some(slot.contract));
    law_a_removed_publication_is_gone(
        root,
        edge,
        slot.occurrence,
        slot.owner,
        cleanup,
        slot.contract,
    );
    let affected = root.slot_drift(slot.owner, edge);
    let owed = root.recheck_all(affected);
    lemma_recheck_slots(root, affected);
    lemma_recheck_hub(root, affected);
    let vacated = RootView { services: owed.services.without(edge), ..owed };
    let claimed = vacated.claiming(slot.owner, cleanup);
    lemma_kick_slots(claimed, affected);
    lemma_kick_hub(claimed, affected);
    law_an_exact_withdrawal_empties_one_slot(root.services, edge, slot.occurrence, edge);
    let after = root.unpublishing(edge, slot.occurrence, slot.owner, cleanup);
    let at = ctx.fiber.0 as int;
    assert(owed.fibers[at] == (FiberView { slot: owed.fibers[at].slot, ..root.fibers[at] }));
    assert(after.fibers[at] == (FiberView { slot: after.fibers[at].slot, ..claimed.fibers[at] }));
    assert(after.services == root.services.without(edge));
    assert(after.services.bound(name) == root.services.bound(name));
}

/// A removed publication is found no more.
pub proof fn law_a_removed_publication_is_gone(
    root: RootView,
    edge: EdgeView,
    occurrence: ServiceOccurrenceId,
    owner: FiberId,
    cleanup: DisposableToken,
    contract: ContractId,
)
    requires
        root.services.exact(),
        root.control_verdict(edge, occurrence, owner) is Commit,
        root.services.compatible(edge.service, contract),
    ensures
        root.unpublishing(edge, occurrence, owner, cleanup).lookup(edge, contract) == Err::<
            u64,
            bool,
        >(false),
        root.unpublishing(edge, occurrence, owner, cleanup).services.exact(),
{
    let affected = root.slot_drift(owner, edge);
    let owed = root.recheck_all(affected);
    lemma_recheck_slots(root, affected);
    let vacated = RootView { services: owed.services.without(edge), ..owed };
    let claimed = vacated.claiming(owner, cleanup);
    lemma_kick_slots(claimed, affected);
    law_an_exact_withdrawal_empties_one_slot(root.services, edge, occurrence, edge);
    let after = root.unpublishing(edge, occurrence, owner, cleanup);
    assert(after.services == root.services.without(edge));
    assert(after.services.bound(edge.service) == root.services.bound(edge.service));
}

/// A drained generation's withdrawal ends exactly its own publication; one that
/// was replaced meanwhile is left alone.
pub proof fn law_a_drained_withdrawal_ends_its_own_publication(
    root: RootView,
    edge: EdgeView,
    occurrence: ServiceOccurrenceId,
    other: EdgeView,
)
    requires
        root.services.exact(),
    ensures
        ({
            let after = root.cleaned(
                CleanupView::Withdraw { realm: edge.realm, service: edge.service, occurrence },
            );
            &&& !after.services.is_current(edge, occurrence)
            &&& other != edge ==> after.services.slot(other) == root.services.slot(other)
            &&& !root.services.is_current(edge, occurrence) ==> after == root
        }),
{
    if root.services.is_current(edge, occurrence) {
        law_an_exact_withdrawal_empties_one_slot(root.services, edge, occurrence, other);
    }
}

/// A visibility change is owed to each dependent, durably, before it can be seen:
/// at that point every store still says what it said.
pub proof fn law_drift_is_owed_before_it_is_visible(
    root: RootView,
    affected: Seq<FiberId>,
    dependent: FiberId,
)
    requires
        affected.no_duplicates(),
        affected.contains(dependent),
        root.has(dependent),
    ensures
        root.recheck_all(affected).fiber(dependent).slot == root.fiber(
            dependent,
        ).slot.rechecked(),
        root.recheck_all(affected).services == root.services,
        root.recheck_all(affected).hub == root.hub,
{
    lemma_recheck_slots(root, affected);
    lemma_recheck_hub(root, affected);
    lemma_recheck_member(root, affected, dependent);
}

/// Rechecks publish no record.
pub proof fn lemma_recheck_hub(root: RootView, affected: Seq<FiberId>)
    ensures
        root.recheck_all(affected).hub == root.hub,
    decreases affected.len(),
{
    if affected.len() > 0 {
        lemma_recheck_hub(root, affected.drop_last());
        let m = root.recheck_all(affected.drop_last());
        assert(root.recheck_all(affected) == m.recheck(affected.last()));
    }
}

/// Drives publish no record.
pub proof fn lemma_kick_hub(root: RootView, affected: Seq<FiberId>)
    ensures
        root.kick_all(affected).hub == root.hub,
    decreases affected.len(),
{
    if affected.len() > 0 {
        lemma_kick_hub(root, affected.drop_last());
        let m = root.kick_all(affected.drop_last());
        assert(root.kick_all(affected) == m.kick(affected.last()));
    }
}

proof fn lemma_recheck_member(root: RootView, affected: Seq<FiberId>, id: FiberId)
    requires
        affected.no_duplicates(),
        root.has(id),
    ensures
        root.recheck_all(affected).has(id),
        root.recheck_all(affected).fiber(id).slot == (if affected.contains(id) {
            root.fiber(id).slot.rechecked()
        } else {
            root.fiber(id).slot
        }),
    decreases affected.len(),
{
    if affected.len() > 0 {
        let shorter = affected.drop_last();
        let last = affected.last();
        assert(shorter.no_duplicates());
        lemma_recheck_member(root, shorter, id);
        let m = root.recheck_all(shorter);
        assert(root.recheck_all(affected) == m.recheck(last));
        assert(affected[affected.len() - 1] == last);
        if id == last {
            assert(!shorter.contains(id)) by {
                if shorter.contains(id) {
                    let k = choose|k: int| 0 <= k < shorter.len() && shorter[k] == id;
                    assert(affected[k] == affected[affected.len() - 1]);
                }
            }
            assert(affected.contains(id));
        } else {
            assert(affected.contains(id) == shorter.contains(id)) by {
                if affected.contains(id) {
                    let k = choose|k: int| 0 <= k < affected.len() && affected[k] == id;
                    assert(shorter[k] == id);
                }
                if shorter.contains(id) {
                    let k = choose|k: int| 0 <= k < shorter.len() && shorter[k] == id;
                    assert(affected[k] == id);
                }
            }
        }
    }
}

/// A Fiber's target misses an assignment exactly where its diagnostics name a
/// missing dependency.
pub proof fn law_diagnostics_agree_with_the_target(root: RootView, id: FiberId)
    requires
        root.fiber(id).spawn is Some,
    ensures
        root.target(id) matches Some(target) && target.has_missing() == (root.missing(id).len()
            > 0),
{
    let edges = root.fiber(id).edges;
    let p = root.is_missing();
    let kept = edges.filter(p);
    let target = root.target(id).unwrap();
    if target.has_missing() {
        let i = choose|i: int|
            0 <= i < target.assignments.len() && (
            #[trigger] target.assignments[i]).publication is None;
        assert(p(edges[i]));
        assert(edges.contains(edges[i]));
        lemma_filter_members(edges, p, edges[i]);
        assert(kept.contains(edges[i]));
        assert(kept.len() > 0);
    }
    if root.missing(id).len() > 0 {
        assert(kept.contains(kept[0]));
        lemma_filter_members(edges, p, kept[0]);
        let k = choose|k: int| 0 <= k < edges.len() && edges[k] == kept[0];
        assert(target.assignments[k].publication is None);
    }
}

/// A registered listener is found under its Event with what it was registered
/// for, and the record of it carries the identity it was found under.
pub proof fn law_a_registered_listener_is_found(
    root: RootView,
    ctx: ContextView,
    event: Seq<char>,
    contract: EventContract,
    kind: HookKind,
    options: ListenerOptions,
)
    requires
        root.sound(),
    ensures
        ({
            let after = root.listening(ctx, event, contract, kind, options);
            let id = root.listener_meta(ctx, event, kind, options).id;
            after.events.find(event, id) == Some(HookView { id, scope: ctx.scope, options, kind })
        }),
{
    reveal(RootView::sound);
    let id = root.listener_meta(ctx, event, kind, options).id;
    let hook = HookView { id, scope: ctx.scope, options, kind };
    let bound = root.events.binding(event, contract);
    let list = bound.listeners(event);
    assert(bound.hooks == root.events.hooks);
    assert(list == root.events.listeners(event));
    let longer = if options.prepend {
        seq![hook] + list
    } else {
        list.push(hook)
    };
    law_a_registration_touches_one_event(bound, event, longer, event);
    let at = if options.prepend {
        0int
    } else {
        list.len() as int
    };
    lemma_listeners_below(root.events, event, root.next);
    assert(longer[at] == hook);
    assert forall|j: int| 0 <= j < at implies !is_hook(id)(#[trigger] longer[j]) by {
        assert(longer[j] == list[j]);
    }
    assert(is_first(longer, is_hook(id), at));
    lemma_first_found(longer, is_hook(id), at);
    assert(root.listening(ctx, event, contract, kind, options).events == bound.adding(event, hook));
}

/// An unregistered listener is found no more.
pub proof fn law_an_unregistered_listener_is_gone(root: RootView, meta: ListenerMetaView)
    requires
        root.sound(),
    ensures
        root.unlistening(meta).events.find(meta.event, meta.id) is None,
{
    reveal(RootView::sound);
    if root.events.find(meta.event, meta.id) is Some {
        let list = root.events.listeners(meta.event).filter(not_hook(meta.id));
        law_a_registration_touches_one_event(root.events, meta.event, list, meta.event);
        assert forall|j: int| 0 <= j < list.len() implies !is_hook(meta.id)(#[trigger] list[j]) by {
            assert(list.contains(list[j]));
            lemma_filter_members(root.events.listeners(meta.event), not_hook(meta.id), list[j]);
        }
        lemma_first_absent(list, is_hook(meta.id));
    }
}

} // verus!
