//! The course of a publication from its installation to its visibility.

use crate::context::ContextView;
use crate::ids::{ContractId, ServiceOccurrenceId, ServicePublicationId};
use crate::laws::{
    law_a_lookup_finds_what_was_provided, lemma_kick_hub, lemma_providing, lemma_recheck_hub,
};
use crate::observation::{HubView, ObservationView, PublicationView};
use crate::root::RootView;
use crate::seqs::{first_index, lemma_first_meets};
use crate::service::{owned_by, slot_at, slot_publications, SlotView, VisibilityView};
use crate::settle::SettleView;
use crate::sound::lemma_same_stores;
use crate::state::FiberState;
use crate::transition::{lemma_kick_slots, lemma_recheck_slots, lemma_transition_publishes};
use vstd::prelude::*;

verus! {

/// Whether a published record is of the visibility of one publication.
pub open spec fn concerns(occurrence: ServiceOccurrenceId) -> spec_fn(PublicationView) -> bool {
    |p: PublicationView|
        match p.record {
            ObservationView::ServiceVisibility { previous, current, .. } => previous == Some(
                ServicePublicationId(occurrence),
            ) || current == Some(ServicePublicationId(occurrence)),
            _ => false,
        }
}

impl RootView {
    /// What was published on the visibility of one publication since `before`.
    pub open spec fn news_of(self, before: RootView, occurrence: ServiceOccurrenceId) -> Seq<
        PublicationView,
    > {
        self.hub.published.skip(before.hub.published.len() as int).filter(concerns(occurrence))
    }

    /// The record that a publication became visible, for the observers there are.
    pub open spec fn appearance(self, slot: SlotView) -> PublicationView {
        PublicationView {
            record: ObservationView::ServiceVisibility {
                service: slot.service,
                realm: self.realm_of(slot.realm),
                previous: None,
                current: Some(ServicePublicationId(slot.occurrence)),
            },
            observers: self.hub.callbacks(),
        }
    }
}

/// The records of visibility changes are published one by one, in order.
proof fn lemma_observed(root: RootView, changes: Seq<VisibilityView>)
    ensures
        ({
            let after = root.observe_visibility(changes, false, true);
            &&& after.runtime == root.runtime
            &&& after.hub == (HubView { published: after.hub.published, ..root.hub })
            &&& after.hub.published == root.hub.published + changes.map_values(
                |c: VisibilityView|
                    PublicationView {
                        record: root.visibility_record(c, false, true),
                        observers: root.hub.callbacks(),
                    },
            )
        }),
    decreases changes.len(),
{
    let record = |c: VisibilityView|
        PublicationView {
            record: root.visibility_record(c, false, true),
            observers: root.hub.callbacks(),
        };
    let after = root.observe_visibility(changes, false, true);
    if changes.len() == 0 {
        assert(after.hub.published =~= root.hub.published + changes.map_values(record));
    } else {
        let shorter = changes.drop_last();
        lemma_observed(root, shorter);
        let m = root.observe_visibility(shorter, false, true);
        assert(after == m.observe(m.visibility_record(changes.last(), false, true)));
        assert(changes.map_values(record) =~= shorter.map_values(record).push(
            record(changes.last()),
        ));
        assert(after.hub.published =~= root.hub.published + changes.map_values(record));
    }
}

/// Among the records of a Fiber's publications, one is of a given publication.
proof fn lemma_one_appearance(root: RootView, slots: Seq<SlotView>, slot: SlotView)
    requires
        forall|i: int, j: int|
            0 <= i < j < slots.len() ==> (#[trigger] slots[i]).occurrence != (
            #[trigger] slots[j]).occurrence,
        forall|i: int|
            0 <= i < slots.len() && (#[trigger] slots[i]).occurrence == slot.occurrence ==> slots[i]
                == slot,
    ensures
        ({
            let record = |c: VisibilityView|
                PublicationView {
                    record: root.visibility_record(c, false, true),
                    observers: root.hub.callbacks(),
                };
            slot_publications(slots.filter(owned_by(slot.owner))).map_values(record).filter(
                concerns(slot.occurrence),
            ) == (if slots.contains(slot) {
                seq![root.appearance(slot)]
            } else {
                Seq::empty()
            })
        }),
    decreases slots.len(),
{
    reveal(Seq::filter);
    let record = |c: VisibilityView|
        PublicationView {
            record: root.visibility_record(c, false, true),
            observers: root.hub.callbacks(),
        };
    let own = owned_by(slot.owner);
    let news = concerns(slot.occurrence);
    let records = slot_publications(slots.filter(own)).map_values(record);
    if slots.len() == 0 {
        assert(records.filter(news) =~= Seq::empty());
    } else {
        let shorter = slots.drop_last();
        let last = slots.last();
        let n = slots.len() - 1;
        assert forall|i: int, j: int| 0 <= i < j < shorter.len() implies (
        #[trigger] shorter[i]).occurrence != (#[trigger] shorter[j]).occurrence by {
            assert(slots[i].occurrence != slots[j].occurrence);
        }
        assert forall|i: int|
            0 <= i < shorter.len() && (#[trigger] shorter[i]).occurrence
                == slot.occurrence implies shorter[i] == slot by {
            assert(slots[i] == slot);
        }
        lemma_one_appearance(root, shorter, slot);
        let fewer = slot_publications(shorter.filter(own)).map_values(record);
        assert(slots[n] == last);
        assert(slots.contains(slot) == (shorter.contains(slot) || last == slot)) by {
            if slots.contains(slot) {
                let k = choose|k: int| 0 <= k < slots.len() && slots[k] == slot;
                if k < n {
                    assert(shorter[k] == slot);
                }
            }
            if shorter.contains(slot) {
                let k = choose|k: int| 0 <= k < shorter.len() && shorter[k] == slot;
                assert(slots[k] == slot);
            }
        }
        if last == slot {
            assert(!shorter.contains(slot)) by {
                if shorter.contains(slot) {
                    let k = choose|k: int| 0 <= k < shorter.len() && shorter[k] == slot;
                    assert(slots[k].occurrence != slots[n].occurrence);
                }
            }
        }
        if own(last) {
            let change = VisibilityView { edge: last.edge(), occurrence: last.occurrence };
            assert(records =~= fewer.push(record(change)));
            assert(records.drop_last() =~= fewer);
            assert(records.last() == record(change));
            assert(news(record(change)) == (last.occurrence == slot.occurrence));
            if last == slot {
                assert(record(change) == root.appearance(slot));
                assert(records.filter(news) =~= seq![root.appearance(slot)]);
            } else {
                assert(slots[n].occurrence != slot.occurrence);
            }
        } else {
            assert(records =~= fewer);
            assert(last != slot);
        }
    }
}

/// When a Fiber becomes active, what it has published is found, and each
/// publication's appearance is recorded once.
proof fn lemma_active_shows(root: RootView, slot: SlotView)
    requires
        root.sound(),
        root.has(slot.owner),
        root.services.slots.contains(slot),
        !(root.fiber(slot.owner).current() is Active),
        root.fiber(slot.owner).spawn is Some,
    ensures
        root.transition(slot.owner, FiberState::Active).news_of(root, slot.occurrence) == seq![
            root.appearance(slot),
        ],
{
    reveal(RootView::sound);
    reveal(Seq::filter);
    let id = slot.owner;
    let slots = root.services.slots;
    let at = choose|i: int| 0 <= i < slots.len() && slots[i] == slot;
    assert forall|i: int|
        0 <= i < slots.len() && (#[trigger] slots[i]).occurrence == slot.occurrence implies slots[i]
        == slot by {
        if i < at {
            assert(slots[i].occurrence != slots[at].occurrence);
        }
        if at < i {
            assert(slots[at].occurrence != slots[i].occurrence);
        }
    }
    lemma_one_appearance(root, slots, slot);
    let affected = root.drifted_by(id, FiberState::Active);
    let owed = root.recheck_all(affected);
    lemma_recheck_hub(root, affected);
    lemma_recheck_slots(root, affected);
    let published = owed.publishing_state(id, FiberState::Active);
    let driven = published.kick_all(affected);
    lemma_kick_hub(published, affected);
    lemma_kick_slots(published, affected);
    let changes = root.visibility_changes(id, FiberState::Active);
    lemma_observed(driven, changes);
    let record = |c: VisibilityView|
        PublicationView {
            record: root.visibility_record(c, false, true),
            observers: root.hub.callbacks(),
        };
    let driven_record = |c: VisibilityView|
        PublicationView {
            record: driven.visibility_record(c, false, true),
            observers: driven.hub.callbacks(),
        };
    let records = changes.map_values(record);
    assert(changes.map_values(driven_record) =~= records);
    let seen = driven.observe_visibility(changes, false, true);
    let last = PublicationView {
        record: ObservationView::FiberState {
            fiber: id,
            previous: root.fiber(id).current(),
            current: FiberState::Active,
        },
        observers: seen.hub.callbacks(),
    };
    let after = root.transition(id, FiberState::Active);
    let n = root.hub.published.len() as int;
    assert(after.hub.published == seen.hub.published.push(last));
    assert(after.hub.published.skip(n) =~= records.push(last));
    assert(records.push(last).drop_last() =~= records);
    assert(!concerns(slot.occurrence)(last));
}

/// What a Fiber provides while its apply runs is installed and not visible: a
/// lookup does not find it, a snapshot shows it as hidden, and nothing was
/// recorded. If it is still there when the apply returns without a failure, the
/// Fiber becomes active with it: a lookup finds it, a snapshot shows it as
/// visible, and one record says that it appeared.
pub proof fn law_an_installed_publication_is_visible_once_its_fiber_is_active(
    root: RootView,
    ctx: ContextView,
    name: Seq<char>,
    contract: ContractId,
    value: u64,
    later: RootView,
    s: SettleView,
    state: (u64, u64),
)
    requires
        root.sound(),
        root.publish_verdict(ctx, name, contract) is Publish,
        root.fiber(ctx.fiber).current() is Loading,
        s.fiber == ctx.fiber,
        later.sound(),
        later.admits(ctx.fiber),
        later.fiber(ctx.fiber).current() is Loading,
        later.fiber(ctx.fiber).spawn is Some,
        later.services.slot(root.slot_of(ctx, name)) == Some(
            root.published_slot(ctx, name, contract, value),
        ),
    ensures
        ({
            let slot = root.published_slot(ctx, name, contract, value);
            let installed = root.providing(ctx, name, contract, value);
            &&& installed.lookup(slot.edge(), contract) == Err::<u64, bool>(false)
            &&& installed.service_record()(slot) matches Some(record) && !record.visible
            &&& installed.hub == root.hub
        }),
        ({
            let slot = root.published_slot(ctx, name, contract, value);
            let active = s.applied(later, state, None).root;
            &&& active.lookup(slot.edge(), contract) == Ok::<u64, bool>(value)
            &&& active.service_record()(slot) matches Some(record) && record.visible
            &&& active.news_of(later, slot.occurrence) == seq![later.appearance(slot)]
        }),
{
    reveal(RootView::sound);
    let id = ctx.fiber;
    let slot = root.published_slot(ctx, name, contract, value);
    let installed = root.providing(ctx, name, contract, value);
    law_a_lookup_finds_what_was_provided(root, ctx, name, contract, value);
    lemma_providing(root, ctx, name, contract, value);
    assert(installed.fibers[id.0 as int].alive);
    assert(installed.admits(id));

    lemma_first_meets(later.services.slots, slot_at(slot.edge()));
    let i = first_index(later.services.slots, slot_at(slot.edge())).unwrap();
    assert(later.services.slots[i] == slot);
    assert(later.services.bound(later.services.slots[i].service) == Some(contract));
    let ready = later.returned(id, state).parking(id, None);
    assert(ready.services == later.services);
    lemma_same_stores(later, ready);
    assert(ready.services.slots.contains(slot));
    lemma_active_shows(ready, slot);
    lemma_transition_publishes(ready, id, FiberState::Active);
    let active = s.applied(later, state, None).root;
    assert(active.services == later.services);
}

} // verus!
