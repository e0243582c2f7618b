//! Who is woken when a Service comes or goes: the settled dependents of the slot are
//! driven toward what they find now.

use crate::context::ContextView;
use crate::deps::{row_hit, EdgeView};
use crate::effect::{CleanupView, DisposableToken};
use crate::fiber::FiberView;
use crate::ids::{ContractId, FiberId, ServiceOccurrenceId};
use crate::laws::law_drift_is_owed_before_it_is_visible;
use crate::root::RootView;
use crate::seqs::{lemma_filter_map_members, lemma_filter_members, lemma_first_meets};
use crate::service::{
    law_a_publication_occupies_one_exact_slot, lemma_without_same, owned_by, slot_at, SlotView,
    VisibilityView,
};
use crate::state::FiberState;
use crate::transition::lemma_recheck_slots;
use vstd::prelude::*;

verus! {

/// Whether a Fiber lives, is spawned, and rests on its target: its slot is idle,
/// nothing is outstanding, and what it settled is what it finds.
pub open spec fn rests(root: RootView, id: FiberId) -> bool {
    &&& root.has(id)
    &&& root.fiber(id).alive
    &&& root.fiber(id).spawn is Some
    &&& root.fiber(id).slot.inertia is Idle
    &&& !root.fiber(id).slot.outstanding()
    &&& root.fiber(id).slot.target == root.target(id)
}

/// Whether a pass of a Fiber is on its way, toward what the Fiber finds now.
pub open spec fn is_woken(root: RootView, id: FiberId) -> bool {
    &&& root.passes.contains(id)
    &&& root.fiber(id).slot.inertia is Active
    &&& root.fiber(id).slot.target == root.target(id)
    &&& root.target(id) is Some
}

proof fn lemma_same_target(a: RootView, b: RootView, f: FiberId)
    requires
        a.has(f),
        b.services == a.services,
        b.fibers.len() == a.fibers.len(),
        forall|i: int|
            0 <= i < a.fibers.len() ==> (#[trigger] b.fibers[i]).alive == a.fibers[i].alive
                && b.fibers[i].state == a.fibers[i].state && b.fibers[i].spawn == a.fibers[i].spawn
                && b.fibers[i].edges == a.fibers[i].edges,
    ensures
        b.target(f) == a.target(f),
{
    let at = f.0 as int;
    assert(b.fibers[at].spawn == a.fibers[at].spawn);
    let edges = a.fiber(f).edges;
    assert(b.assignments(edges) =~= a.assignments(edges)) by {
        assert forall|k: int| 0 <= k < edges.len() implies b.occurrence(#[trigger] edges[k])
            == a.occurrence(edges[k]) by {
            match a.services.slot(edges[k]) {
                Some(s) => {
                    if a.has(s.owner) {
                        assert(b.fibers[s.owner.0 as int].alive == a.fibers[s.owner.0 as int].alive);
                    }
                },
                None => {},
            }
        }
    }
}

proof fn lemma_kick_one(root: RootView, id: FiberId, f: FiberId)
    requires
        root.has(f),
    ensures
        root.kick(id).target(f) == root.target(f),
        root.kick(id).executor == root.executor,
        root.kick(id).has(f),
        id != f ==> root.kick(id).fiber(f) == root.fiber(f),
        forall|x: FiberId| root.passes.contains(x) ==> root.kick(id).passes.contains(x),
{
    let after = root.kick(id);
    lemma_same_target(root, after, f);
    assert forall|x: FiberId| root.passes.contains(x) implies after.passes.contains(x) by {
        let k = choose|k: int| 0 <= k < root.passes.len() && root.passes[k] == x;
        assert(after.passes[k] == x);
    }
}

proof fn lemma_driven(root: RootView, ids: Seq<FiberId>, f: FiberId)
    requires
        root.has(f),
        ids.no_duplicates(),
    ensures
        ({
            let after = root.kick_all(ids);
            &&& after.has(f)
            &&& after.executor == root.executor
            &&& after.target(f) == root.target(f)
            &&& forall|x: FiberId| root.passes.contains(x) ==> after.passes.contains(x)
            &&& !ids.contains(f) ==> after.fiber(f) == root.fiber(f)
            &&& ids.contains(f) && root.executor && root.fiber(f).alive && root.fiber(f).spawn
                is Some && root.fiber(f).slot.inertia is Idle && root.fiber(f).slot.outstanding()
                && root.fiber(f).slot.target != root.target(f) ==> is_woken(after, f)
        }),
    decreases ids.len(),
{
    if ids.len() > 0 {
        let shorter = ids.drop_last();
        let last = ids.last();
        let n = ids.len() - 1;
        assert(shorter.no_duplicates());
        lemma_driven(root, shorter, f);
        let mid = root.kick_all(shorter);
        let after = root.kick_all(ids);
        assert(after == mid.kick(last));
        lemma_kick_one(mid, last, f);
        assert(ids.contains(f) <==> shorter.contains(f) || last == f) by {
            if shorter.contains(f) {
                let k = choose|k: int| 0 <= k < shorter.len() && shorter[k] == f;
                assert(ids[k] == f);
            }
            if ids.contains(f) {
                let k = choose|k: int| 0 <= k < ids.len() && ids[k] == f;
                if k < n {
                    assert(shorter[k] == f);
                }
            }
            assert(ids[n] == last);
        }
        if last == f {
            assert(!shorter.contains(f)) by {
                if shorter.contains(f) {
                    let k = choose|k: int| 0 <= k < shorter.len() && shorter[k] == f;
                    assert(ids[k] == ids[n]);
                }
            }
            if root.executor && root.fiber(f).alive && root.fiber(f).spawn is Some
                && root.fiber(f).slot.inertia is Idle && root.fiber(f).slot.outstanding()
                && root.fiber(f).slot.target != root.target(f) {
                assert(after.passes == mid.passes.push(f));
                assert(after.passes[mid.passes.len() as int] == f);
                assert(is_woken(after, f));
            }
        } else if shorter.contains(f) && is_woken(mid, f) {
            assert(is_woken(after, f));
        }
    }
}

/// What a Fiber finds differs where one of its slots has another occupant now.
proof fn lemma_drifted(a: RootView, b: RootView, f: FiberId, k: int)
    requires
        a.has(f),
        b.has(f),
        b.fiber(f).edges == a.fiber(f).edges,
        a.fiber(f).spawn is Some,
        0 <= k < a.fiber(f).edges.len(),
        a.occurrence(a.fiber(f).edges[k]) != b.occurrence(a.fiber(f).edges[k]),
    ensures
        a.target(f) != b.target(f),
{
    let edges = a.fiber(f).edges;
    if a.target(f) == b.target(f) {
        assert(a.assignments(edges)[k] == b.assignments(edges)[k]);
    }
}

/// A Service that an active Fiber publishes wakes the Fibers that rest without it:
/// each dependent that declares the slot and finds it empty is driven toward the new
/// publication.
pub proof fn law_a_publication_wakes_its_dependents(
    root: RootView,
    ctx: ContextView,
    name: Seq<char>,
    contract: ContractId,
    value: u64,
    f: FiberId,
    k: int,
)
    requires
        root.executor,
        root.services.exact(),
        root.publish_verdict(ctx, name, contract) is Publish,
        root.fiber(ctx.fiber).current() is Active,
        rests(root, f),
        0 <= k < root.fiber(f).edges.len(),
        root.fiber(f).edges[k] == root.slot_of(ctx, name),
        root.occurrence(root.slot_of(ctx, name)) is None,
        root.dependents(seq![root.slot_of(ctx, name)]).contains(f),
        root.dependents(seq![root.slot_of(ctx, name)]).no_duplicates(),
    ensures
        is_woken(root.providing(ctx, name, contract, value), f),
{
    let slot = root.published_slot(ctx, name, contract, value);
    let edge = root.slot_of(ctx, name);
    let affected = root.dependents(seq![edge]);
    assert(slot.edge() == edge);
    assert(root.slot_drift(ctx.fiber, edge) == affected);
    let bound = RootView {
        next: (root.next + 1) as u64,
        services: root.services.binding(name, contract),
        ..root
    };
    let owed = bound.recheck_all(affected);
    lemma_recheck_slots(bound, affected);
    law_drift_is_owed_before_it_is_visible(bound, affected, f);
    let placed = RootView { services: owed.services.placing(slot), ..owed };
    let owing = placed.owing(
        ctx.fiber,
        CleanupView::Withdraw { realm: slot.realm, service: name, occurrence: slot.occurrence },
    );
    let at = f.0 as int;
    assert(owed.fibers[at] == (FiberView { slot: owed.fibers[at].slot, ..root.fibers[at] }));
    let owner = ctx.fiber.0 as int;
    assert(owed.fibers[owner] == (FiberView {
        slot: owed.fibers[owner].slot,
        ..root.fibers[owner]
    }));
    assert(bound.services.slots == root.services.slots);
    law_a_publication_occupies_one_exact_slot(bound.services, slot, edge);
    assert(owing.services == bound.services.placing(slot));
    assert(owing.occurrence(edge) == Some(slot.occurrence));
    assert(owing.fiber(f).edges == root.fiber(f).edges);
    lemma_drifted(root, owing, f, k);
    assert(root.fiber(f).slot.committed.wrapping_add(1) != root.fiber(f).slot.committed);
    assert(owing.fiber(f).slot == root.fiber(f).slot.rechecked());
    lemma_driven(owing, affected, f);
    let driven = owing.kick_all(affected);
    let after = root.providing(ctx, name, contract, value);
    lemma_same_target(driven, after, f);
}

/// A Service that its capability removes wakes the Fibers that rest on it: each
/// dependent that declares the slot and found it there is driven toward what is left.
pub proof fn law_a_removal_wakes_its_dependents(
    root: RootView,
    edge: EdgeView,
    occurrence: ServiceOccurrenceId,
    owner: FiberId,
    cleanup: DisposableToken,
    f: FiberId,
    k: int,
)
    requires
        root.executor,
        root.services.exact(),
        root.has(owner),
        root.fiber(owner).current() is Active,
        rests(root, f),
        0 <= k < root.fiber(f).edges.len(),
        root.fiber(f).edges[k] == edge,
        root.occurrence(edge) is Some,
        root.dependents(seq![edge]).contains(f),
        root.dependents(seq![edge]).no_duplicates(),
    ensures
        is_woken(root.unpublishing(edge, occurrence, owner, cleanup), f),
{
    let affected = root.dependents(seq![edge]);
    let owed = root.recheck_all(affected);
    lemma_recheck_slots(root, affected);
    law_drift_is_owed_before_it_is_visible(root, affected, f);
    let vacated = RootView { services: owed.services.without(edge), ..owed };
    let claimed = vacated.claiming(owner, cleanup);
    let at = f.0 as int;
    assert(owed.fibers[at] == (FiberView { slot: owed.fibers[at].slot, ..root.fibers[at] }));
    lemma_without_same(root.services, edge);
    assert(claimed.services.slot(edge) is None);
    assert(claimed.occurrence(edge) is None);
    assert(claimed.fiber(f).edges == root.fiber(f).edges);
    lemma_drifted(root, claimed, f, k);
    assert(root.fiber(f).slot.committed.wrapping_add(1) != root.fiber(f).slot.committed);
    assert(claimed.fiber(f).slot == root.fiber(f).slot.rechecked());
    lemma_driven(claimed, affected, f);
    let driven = claimed.kick_all(affected);
    let after = root.unpublishing(edge, occurrence, owner, cleanup);
    lemma_same_target(driven, after, f);
}

proof fn lemma_observing_keeps(
    root: RootView,
    changes: Seq<VisibilityView>,
    was: bool,
    is: bool,
)
    ensures
        root.observe_visibility(changes, was, is).fibers == root.fibers,
        root.observe_visibility(changes, was, is).services == root.services,
        root.observe_visibility(changes, was, is).passes == root.passes,
    decreases changes.len(),
{
    if changes.len() > 0 {
        lemma_observing_keeps(root, changes.drop_last(), was, is);
    }
}

proof fn lemma_more_dependents(
    root: RootView,
    some: Seq<EdgeView>,
    more: Seq<EdgeView>,
    f: FiberId,
)
    requires
        forall|e: EdgeView| some.contains(e) ==> more.contains(e),
        root.dependents(some).contains(f),
    ensures
        root.dependents(more).contains(f),
{
    if root.deps.available {
        let rows = root.deps.rows;
        lemma_filter_map_members(rows, row_hit(some), f);
        lemma_filter_map_members(rows, row_hit(more), f);
        let i = choose|i: int| 0 <= i < rows.len() && row_hit(some)(#[trigger] rows[i]) == Some(f);
        let k = choose|k: int|
            0 <= k < rows[i].edges.len() && some.contains(#[trigger] rows[i].edges[k]);
        assert(more.contains(rows[i].edges[k]));
        assert(row_hit(more)(rows[i]) == Some(f));
    } else {
        let residents = root.registry.residents;
        lemma_filter_members(residents, root.declares(some), f);
        lemma_filter_members(residents, root.declares(more), f);
        let mine = root.fiber(f).edges;
        let k = choose|k: int| 0 <= k < mine.len() && some.contains(#[trigger] mine[k]);
        assert(more.contains(mine[k]));
    }
}

proof fn lemma_drifted_by(
    root: RootView,
    id: FiberId,
    next: FiberState,
    slot: SlotView,
    f: FiberId,
)
    requires
        root.fiber(id).spawn is Some,
        (root.fiber(id).current() is Active) != (next is Active),
        root.services.slot(slot.edge()) == Some(slot),
        slot.owner == id,
        root.dependents(seq![slot.edge()]).contains(f),
    ensures
        root.drifted_by(id, next) == root.dependents(root.published_edges(id)),
        root.drifted_by(id, next).contains(f),
{
    let slots = root.services.slots;
    let mine = root.services.owned(id);
    lemma_first_meets(slots, slot_at(slot.edge()));
    assert(slots.contains(slot));
    lemma_filter_members(slots, owned_by(id), slot);
    let k = choose|k: int| 0 <= k < mine.len() && mine[k] == slot;
    let edges = root.published_edges(id);
    assert(edges[k] == slot.edge());
    let changes = root.visibility_changes(id, next);
    assert(changes.map_values(|c: VisibilityView| c.edge) =~= edges);
    let one = seq![slot.edge()];
    assert forall|e: EdgeView| one.contains(e) implies edges.contains(e) by {
        assert(e == slot.edge());
    }
    lemma_more_dependents(root, one, edges, f);
}

/// A provider that becomes active, or stops to be, wakes the Fibers that rest on
/// their targets: each dependent of one of its publications is driven toward what it
/// finds now.
pub proof fn law_a_provider_wakes_its_dependents(
    root: RootView,
    id: FiberId,
    next: FiberState,
    slot: SlotView,
    f: FiberId,
    k: int,
)
    requires
        root.executor,
        root.has(id),
        root.fiber(id).alive,
        root.fiber(id).spawn is Some,
        (root.fiber(id).current() is Active) != (next is Active),
        root.services.slot(slot.edge()) == Some(slot),
        slot.owner == id,
        f != id,
        rests(root, f),
        0 <= k < root.fiber(f).edges.len(),
        root.fiber(f).edges[k] == slot.edge(),
        root.dependents(seq![slot.edge()]).contains(f),
        root.dependents(root.published_edges(id)).no_duplicates(),
    ensures
        is_woken(root.transition(id, next), f),
{
    let affected = root.drifted_by(id, next);
    lemma_drifted_by(root, id, next, slot, f);
    let owed = root.recheck_all(affected);
    lemma_recheck_slots(root, affected);
    law_drift_is_owed_before_it_is_visible(root, affected, f);
    let published = owed.publishing_state(id, next);
    let at = f.0 as int;
    let edge = slot.edge();
    assert(owed.fibers[at] == (FiberView { slot: owed.fibers[at].slot, ..root.fibers[at] }));
    assert(owed.fibers[id.0 as int] == (FiberView {
        slot: owed.fibers[id.0 as int].slot,
        ..root.fibers[id.0 as int]
    }));
    assert(published.fiber(f) == owed.fiber(f));
    assert(published.fiber(id).current() == next);
    assert(published.fiber(id).alive);
    assert(published.occurrence(edge) is Some <==> next is Active);
    assert(root.occurrence(edge) is Some <==> root.fiber(id).current() is Active);
    lemma_drifted(root, published, f, k);
    assert(root.fiber(f).slot.committed.wrapping_add(1) != root.fiber(f).slot.committed);
    assert(published.fiber(f).slot == root.fiber(f).slot.rechecked());
    lemma_driven(published, affected, f);
    let driven = published.kick_all(affected);
    let changes = root.visibility_changes(id, next);
    lemma_observing_keeps(driven, changes, root.fiber(id).current() is Active, next is Active);
    let after = root.transition(id, next);
    assert(after.fibers == driven.fibers && after.services == driven.services && after.passes
        == driven.passes);
    lemma_same_target(driven, after, f);
}

} // verus!
