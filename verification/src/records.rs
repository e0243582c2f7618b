//! What an observer of a Runtime gets: which records are published, what they say,
//! and to whom they go.

use crate::context::ContextView;
use crate::deps::EdgeView;
use crate::effect::CleanupView;
use crate::event::{
    DispatchOutcomeKind, EventContract, EventOperation, ListenerMetaView, ListenerOptions,
    ObservationRouting,
};
use crate::event_store::HookKind;
use crate::ids::{ContractId, FiberId, ListenerRegistrationId, ServicePublicationId};
use crate::laws::{lemma_kick_hub, lemma_recheck_hub};
use crate::observation::{
    not_observer, HubView, ListenerChange, ObservationView, Observer, PublicationView,
};
use crate::plugin::{InjectEntryView, TypedPlugin};
use crate::root::RootView;
use crate::seqs::lemma_filter_members;
use crate::service::{ServiceRealm, SlotView, VisibilityView};
use crate::state::FiberState;
use crate::transition::{lemma_kick_slots, lemma_recheck_slots};
use vstd::prelude::*;

verus! {

/// Whether one record more was published, for the observers registered by then.
pub open spec fn publishes(before: HubView, after: HubView, record: ObservationView) -> bool {
    &&& after.published.len() == before.published.len() + 1
    &&& after.published.drop_last() == before.published
    &&& after.published.last().record == record
    &&& reaches(before, after.published.last())
}

/// Whether a publication goes to every registered observer, once, in the order of
/// registration.
pub open spec fn reaches(hub: HubView, publication: PublicationView) -> bool {
    &&& publication.observers.len() == hub.observers.len()
    &&& forall|i: int|
        0 <= i < hub.observers.len() ==> #[trigger] publication.observers[i]
            == hub.observers[i].callback
}

/// A record goes to every observer that is registered when it is published, once,
/// in the order of registration.
pub proof fn law_a_record_reaches_every_observer(hub: HubView, record: ObservationView)
    ensures
        publishes(hub, hub.publishing(record), record),
        hub.publishing(record).observers == hub.observers,
        hub.publishing(record).next_id == hub.next_id,
{
    assert(hub.publishing(record).published.drop_last() =~= hub.published);
}

/// An observer is registered behind the others, under a key of its own; it gets
/// nothing that was published before.
pub proof fn law_an_observer_is_registered_last(hub: HubView, callback: u64)
    requires
        hub.next_id < u64::MAX,
    ensures
        ({
            let after = hub.observing(callback);
            &&& after.observers.len() == hub.observers.len() + 1
            &&& after.observers.drop_last() == hub.observers
            &&& after.observers.last().callback == callback
            &&& after.observers.last().id == after.next_id
            &&& after.next_id > hub.next_id
            &&& after.published == hub.published
        }),
{
    assert(hub.observing(callback).observers.drop_last() =~= hub.observers);
}

/// An observer that is removed gets nothing more; every other stays registered.
pub proof fn law_a_removed_observer_is_gone(hub: HubView, id: u64, observer: Observer)
    ensures
        hub.unobserving(id).observers.contains(observer) <==> hub.observers.contains(observer)
            && observer.id != id,
        hub.unobserving(id).published == hub.published,
{
    lemma_filter_members(hub.observers, not_observer(id), observer);
}

/// The registration and the removal of one observer leave the others as they were.
pub proof fn law_an_observer_comes_and_goes_alone(hub: HubView, callback: u64)
    requires
        hub.next_id < u64::MAX,
        forall|i: int|
            0 <= i < hub.observers.len() ==> (#[trigger] hub.observers[i]).id <= hub.next_id,
    ensures
        hub.observing(callback).unobserving((hub.next_id + 1) as u64).observers == hub.observers,
{
    let id = (hub.next_id + 1) as u64;
    let more = hub.observing(callback).observers;
    reveal(Seq::filter);
    assert(more.drop_last() =~= hub.observers);
    lemma_all_kept(hub.observers, id);
}

proof fn lemma_all_kept(observers: Seq<Observer>, id: u64)
    requires
        forall|i: int| 0 <= i < observers.len() ==> (#[trigger] observers[i]).id != id,
    ensures
        observers.filter(not_observer(id)) == observers,
    decreases observers.len(),
{
    reveal(Seq::filter);
    if observers.len() > 0 {
        let shorter = observers.drop_last();
        assert forall|i: int| 0 <= i < shorter.len() implies (#[trigger] shorter[i]).id != id by {
            assert(observers[i].id != id);
        }
        lemma_all_kept(shorter, id);
        assert(observers[observers.len() - 1].id != id);
        assert(observers =~= shorter.push(observers.last()));
    }
}

/// What the record of a publication's visibility says: which one was found in its
/// slot before, and which one is found now.
pub open spec fn visibility_of(
    runtime: u64,
    slot: SlotView,
    was: bool,
    is: bool,
) -> ObservationView {
    ObservationView::ServiceVisibility {
        service: slot.service,
        realm: ServiceRealm { membership: runtime, key: slot.realm },
        previous: if was {
            Some(ServicePublicationId(slot.occurrence))
        } else {
            None
        },
        current: if is {
            Some(ServicePublicationId(slot.occurrence))
        } else {
            None
        },
    }
}

proof fn lemma_observed_in_order(
    root: RootView,
    slots: Seq<SlotView>,
    changes: Seq<VisibilityView>,
    was: bool,
    is: bool,
)
    requires
        changes.len() == slots.len(),
        forall|i: int|
            0 <= i < slots.len() ==> (#[trigger] changes[i]) == (VisibilityView {
                edge: slots[i].edge(),
                occurrence: slots[i].occurrence,
            }),
    ensures
        ({
            let after = root.observe_visibility(changes, was, is);
            let n = root.hub.published.len();
            &&& after.runtime == root.runtime
            &&& after.hub.observers == root.hub.observers
            &&& after.hub.published.len() == n + changes.len()
            &&& after.hub.published.take(n as int) == root.hub.published
            &&& forall|i: int|
                0 <= i < changes.len() ==> {
                    let publication = #[trigger] after.hub.published[n + i];
                    publication.record == visibility_of(root.runtime, slots[i], was, is) && reaches(
                        root.hub,
                        publication,
                    )
                }
        }),
    decreases changes.len(),
{
    let n = root.hub.published.len() as int;
    if changes.len() > 0 {
        let shorter = changes.drop_last();
        let fewer = slots.drop_last();
        let m = changes.len() - 1;
        lemma_observed_in_order(root, fewer, shorter, was, is);
        let mid = root.observe_visibility(shorter, was, is);
        let after = root.observe_visibility(changes, was, is);
        assert(changes[m] == changes.last());
        let record = mid.visibility_record(changes[m], was, is);
        assert(after == mid.observe(record));
        assert(record == visibility_of(root.runtime, slots[m], was, is));
        assert(after.hub.published.take(n) =~= mid.hub.published.take(n));
        assert forall|i: int| 0 <= i < changes.len() implies {
            let publication = #[trigger] after.hub.published[n + i];
            publication.record == visibility_of(root.runtime, slots[i], was, is) && reaches(
                root.hub,
                publication,
            )
        } by {
            if i < m {
                assert(after.hub.published[n + i] == mid.hub.published[n + i]);
                assert(fewer[i] == slots[i]);
            }
        }
    } else {
        assert(root.hub.published.take(n) =~= root.hub.published);
    }
}

/// A lifecycle transition of a spawned Fiber is recorded once, last, with the state
/// before and after. Where the Fiber becomes active, or stops to be, the change in
/// visibility of each of its publications is recorded before, in their order. A
/// transition to the current state is no transition.
pub proof fn law_a_transition_is_recorded(root: RootView, id: FiberId, next: FiberState)
    requires
        root.has(id),
        root.fiber(id).spawn is Some,
    ensures
        ({
            let after = root.transition(id, next);
            let previous = root.fiber(id).current();
            let n = root.hub.published.len();
            let slots = root.services.owned(id);
            let crossing = (previous is Active) != (next is Active);
            let m = if crossing {
                slots.len()
            } else {
                0
            };
            if previous == next {
                after == root
            } else {
                &&& after.hub.published.len() == n + m + 1
                &&& after.hub.published.take(n as int) == root.hub.published
                &&& after.hub.published.last().record == (ObservationView::FiberState {
                    fiber: id,
                    previous,
                    current: next,
                })
                &&& reaches(root.hub, after.hub.published.last())
                &&& forall|i: int|
                    0 <= i < m ==> (#[trigger] after.hub.published[n + i]).record == visibility_of(
                        root.runtime,
                        slots[i],
                        previous is Active,
                        next is Active,
                    ) && reaches(root.hub, after.hub.published[n + i])
            }
        }),
{
    let previous = root.fiber(id).current();
    if previous != next {
        let affected = root.drifted_by(id, next);
        let rechecked = root.recheck_all(affected);
        let published = rechecked.publishing_state(id, next);
        let driven = published.kick_all(affected);
        lemma_recheck_hub(root, affected);
        lemma_kick_hub(published, affected);
        lemma_recheck_slots(root, affected);
        lemma_kick_slots(published, affected);
        let changes = root.visibility_changes(id, next);
        let crossing = (previous is Active) != (next is Active);
        let slots = if crossing {
            root.services.owned(id)
        } else {
            Seq::empty()
        };
        lemma_observed_in_order(driven, slots, changes, previous is Active, next is Active);
        let seen = driven.observe_visibility(changes, previous is Active, next is Active);
        let after = root.transition(id, next);
        let n = root.hub.published.len() as int;
        assert(after.hub.published.take(n) =~= seen.hub.published.take(n));
        assert forall|i: int| 0 <= i < slots.len() implies (#[trigger] after.hub.published[n
            + i]) == seen.hub.published[n + i] by {}
    }
}

/// An admission publishes one record: the Fiber's identity, its name, and that it is
/// pending, with what it misses.
pub proof fn law_an_admission_is_recorded(
    root: RootView,
    ctx: ContextView,
    plugin: TypedPlugin,
    name: Seq<char>,
    inject: Seq<InjectEntryView>,
)
    requires
        root.fibers.len() < usize::MAX,
    ensures
        ({
            let after = root.admitting(ctx, plugin, name, inject);
            let id = root.next_fiber();
            let published = after.hub.published;
            &&& published.len() == root.hub.published.len() + 1
            &&& published.drop_last() == root.hub.published
            &&& reaches(root.hub, published.last())
            &&& published.last().record matches ObservationView::FiberResidency { change, fiber }
                && change is Admitted && fiber.id == id && fiber.role is Ordinary && fiber.name
                == name && fiber.state is Pending && fiber.missing_services == after.missing(id)
        }),
{
    let after = root.admitting(ctx, plugin, name, inject);
    let id = root.next_fiber();
    assert(after.hub.published.drop_last() =~= root.hub.published);
    let admitted = root.admitted_fiber(ctx, plugin, name, inject);
    assert(after.fiber(id) == admitted);
    let resident = RootView { hub: root.hub, ..after };
    assert(resident.is_missing() =~= after.is_missing()) by {
        assert forall|e: EdgeView| #[trigger]
            resident.is_missing()(e) == after.is_missing()(e) by {}
    }
    assert(resident.missing(id) == after.missing(id));
}

/// The unlink of a spawned resident publishes one record: the Fiber's identity, its
/// name and its state. The unlink of a Fiber that is no resident publishes nothing.
pub proof fn law_an_unlink_is_recorded(root: RootView, id: FiberId)
    requires
        root.has(id),
        root.fiber(id).spawn is Some,
    ensures
        ({
            let published = root.unlinking(id).hub.published;
            if root.fiber(id).residency is Some {
                &&& published.len() == root.hub.published.len() + 1
                &&& published.drop_last() == root.hub.published
                &&& reaches(root.hub, published.last())
                &&& published.last().record matches ObservationView::FiberResidency {
                    change,
                    fiber,
                } && change is Removed && fiber.id == id && fiber.role is Ordinary && fiber.name
                    == root.fiber(id).name && fiber.state == root.fiber(id).current()
            } else {
                published == root.hub.published
            }
        }),
{
    assert(root.fiber(id).residency is Some ==> root.unlinking(id).hub.published.drop_last()
        =~= root.hub.published);
}

/// A publication by an active Fiber is recorded as visible at once; one by a Fiber
/// that is still loading is not recorded yet.
pub proof fn law_a_publication_is_recorded_where_it_is_visible(
    root: RootView,
    ctx: ContextView,
    name: Seq<char>,
    contract: ContractId,
    value: u64,
)
    requires
        root.has(ctx.fiber),
    ensures
        ({
            let after = root.providing(ctx, name, contract, value);
            let slot = root.published_slot(ctx, name, contract, value);
            if root.fiber(ctx.fiber).current() is Active {
                publishes(root.hub, after.hub, visibility_of(root.runtime, slot, false, true))
            } else {
                after.hub == root.hub
            }
        }),
{
    let slot = root.published_slot(ctx, name, contract, value);
    let affected = root.slot_drift(ctx.fiber, slot.edge());
    let bound = RootView {
        next: (root.next + 1) as u64,
        services: root.services.binding(name, contract),
        ..root
    };
    let owed = bound.recheck_all(affected);
    lemma_recheck_hub(bound, affected);
    lemma_recheck_slots(bound, affected);
    let placed = RootView { services: owed.services.placing(slot), ..owed };
    let owing = placed.owing(
        ctx.fiber,
        CleanupView::Withdraw {
            realm: slot.realm,
            service: name,
            occurrence: slot.occurrence,
        },
    );
    lemma_kick_hub(owing, affected);
    lemma_kick_slots(owing, affected);
    let driven = owing.kick_all(affected);
    assert(driven.hub == root.hub && driven.runtime == root.runtime);
    let record = visibility_of(root.runtime, slot, false, true);
    assert(driven.hub.publishing(record).published.drop_last() =~= root.hub.published);
}

/// A listener's registration and its end are recorded with the facts it is
/// registered under; the end of one that is not registered is not.
pub proof fn law_a_listeners_life_is_recorded(
    root: RootView,
    ctx: ContextView,
    event: Seq<char>,
    contract: EventContract,
    kind: HookKind,
    options: ListenerOptions,
    meta: ListenerMetaView,
)
    ensures
        ({
            let listener = root.listener_meta(ctx, event, kind, options);
            &&& publishes(
                root.hub,
                root.listening(ctx, event, contract, kind, options).hub,
                ObservationView::ListenerRegistration {
                    change: ListenerChange::Registered,
                    listener,
                },
            )
            &&& listener.event == event
            &&& listener.role == kind.spec_role()
            &&& listener.options == options
            &&& listener.id == ListenerRegistrationId(root.next)
        }),
        if root.events.find(meta.event, meta.id) is Some {
            publishes(
                root.hub,
                root.unlistening(meta).hub,
                ObservationView::ListenerRegistration {
                    change: ListenerChange::Unregistered,
                    listener: meta,
                },
            )
        } else {
            root.unlistening(meta).hub == root.hub
        },
{
    let after = root.listening(ctx, event, contract, kind, options);
    assert(after.hub.published.drop_last() =~= root.hub.published);
    let gone = root.unlistening(meta);
    assert(root.events.find(meta.event, meta.id) is Some ==> gone.hub.published.drop_last()
        =~= root.hub.published);
}

/// A completed dispatch publishes one record of what was dispatched, with what
/// routing, and what came of it.
pub proof fn law_a_dispatch_is_recorded(
    root: RootView,
    operation: EventOperation,
    event: Seq<char>,
    routing: ObservationRouting,
    outcome: DispatchOutcomeKind,
)
    ensures
        publishes(
            root.hub,
            root.dispatched(operation, event, routing, outcome).hub,
            ObservationView::DispatchCompleted { operation, event, routing, outcome },
        ),
{
    let after = root.dispatched(operation, event, routing, outcome);
    assert(after.hub.published.drop_last() =~= root.hub.published);
}

} // verus!
