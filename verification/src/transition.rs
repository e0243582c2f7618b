//! Lifecycle transitions: one state publication together with the Service
//! visibility it changes and the rechecks that visibility owes.

use crate::deps::{edge_views, DependencyEdge};
use crate::fiber::FiberView;
use crate::ids::{FiberId, ServicePublicationId};
use crate::observation::{ObservationView, RuntimeObservation};
use crate::root::{
    lemma_kick_counters, lemma_recheck_counters, lemma_same_counters_room, Root, RootView,
};
use crate::seqs::lemma_fold_step;
use crate::service::{
    slot_publications, visibility_views, ServiceRealm, ServiceVisibilityOccurrence, VisibilityView,
};
use crate::state::{lemma_published_room, FiberState};
use vstd::prelude::*;

verus! {

impl RootView {
    /// The Runtime with a Fiber's state published.
    pub open spec fn publishing_state(self, id: FiberId, next: FiberState) -> RootView {
        self.with_fiber(
            id,
            FiberView { state: self.fiber(id).state.published(next), ..self.fiber(id) },
        )
    }

    /// The record of one publication's visibility change.
    pub open spec fn visibility_record(
        self,
        change: VisibilityView,
        was_visible: bool,
        is_visible: bool,
    ) -> ObservationView {
        let id = ServicePublicationId(change.occurrence);
        ObservationView::ServiceVisibility {
            service: change.edge.service,
            realm: self.realm_of(change.edge.realm),
            previous: if was_visible {
                Some(id)
            } else {
                None
            },
            current: if is_visible {
                Some(id)
            } else {
                None
            },
        }
    }

    /// The Runtime with a record of each publication's visibility change.
    pub open spec fn observe_visibility(
        self,
        changes: Seq<VisibilityView>,
        was_visible: bool,
        is_visible: bool,
    ) -> RootView {
        changes.fold_left(
            self,
            |r: RootView, c: VisibilityView|
                r.observe(r.visibility_record(c, was_visible, is_visible)),
        )
    }

    /// The publications whose visibility a transition changes: those the Fiber
    /// owns, where it enters or leaves the active state.
    pub open spec fn visibility_changes(self, id: FiberId, next: FiberState) -> Seq<
        VisibilityView,
    > {
        let crossing = (self.fiber(id).current() is Active) != (next is Active);
        if crossing && self.fiber(id).spawn is Some {
            slot_publications(self.services.owned(id))
        } else {
            Seq::empty()
        }
    }

    /// The Fibers a transition owes a recheck.
    pub open spec fn drifted_by(self, id: FiberId, next: FiberState) -> Seq<FiberId> {
        let changes = self.visibility_changes(id, next);
        if changes.len() > 0 {
            self.dependents(changes.map_values(|c: VisibilityView| c.edge))
        } else {
            Seq::empty()
        }
    }

    /// The Runtime after one lifecycle transition. The rechecks are committed
    /// before the state is published, drives come after, then the records of each
    /// visibility change and of the transition itself. A transition to the current
    /// state changes nothing.
    pub open spec fn transition(self, id: FiberId, next: FiberState) -> RootView {
        if !self.has(id) || self.fiber(id).current() == next {
            self
        } else {
            let previous = self.fiber(id).current();
            let affected = self.drifted_by(id, next);
            let driven = self.recheck_all(affected).publishing_state(id, next).kick_all(affected);
            if self.fiber(id).spawn is Some {
                driven.observe_visibility(
                    self.visibility_changes(id, next),
                    previous is Active,
                    next is Active,
                ).observe(ObservationView::FiberState { fiber: id, previous, current: next })
            } else {
                driven
            }
        }
    }
}

impl RootView {
    /// Whether two states of a Runtime differ at most in the Fibers' settle slots,
    /// the passes to start and the records published.
    pub open spec fn same_but_slots(self, other: RootView) -> bool {
        &&& other == (RootView {
            fibers: other.fibers,
            passes: other.passes,
            hub: other.hub,
            ..self
        })
        &&& other.fibers.len() == self.fibers.len()
        &&& forall|i: int|
            0 <= i < self.fibers.len() ==> (#[trigger] other.fibers[i]) == (FiberView {
                slot: other.fibers[i].slot,
                ..self.fibers[i]
            })
    }
}

/// Rechecks change settle slots alone.
pub proof fn lemma_recheck_slots(r: RootView, ids: Seq<FiberId>)
    ensures
        r.same_but_slots(r.recheck_all(ids)),
    decreases ids.len(),
{
    if ids.len() > 0 {
        lemma_recheck_slots(r, ids.drop_last());
        let m = r.recheck_all(ids.drop_last());
        assert(r.recheck_all(ids) == m.recheck(ids.last()));
    }
}

/// Drives change settle slots and the passes to start alone.
pub proof fn lemma_kick_slots(r: RootView, ids: Seq<FiberId>)
    ensures
        r.same_but_slots(r.kick_all(ids)),
    decreases ids.len(),
{
    if ids.len() > 0 {
        lemma_kick_slots(r, ids.drop_last());
        let m = r.kick_all(ids.drop_last());
        assert(r.kick_all(ids) == m.kick(ids.last()));
    }
}

proof fn lemma_observe_visibility_slots(
    r: RootView,
    changes: Seq<VisibilityView>,
    was: bool,
    is: bool,
)
    ensures
        r.same_but_slots(r.observe_visibility(changes, was, is)),
    decreases changes.len(),
{
    if changes.len() > 0 {
        lemma_observe_visibility_slots(r, changes.drop_last(), was, is);
    }
}

/// A transition publishes the state; beyond that it changes settle slots, the
/// passes to start and the records published, nothing else.
pub proof fn lemma_transition_publishes(r: RootView, id: FiberId, next: FiberState)
    requires
        r.has(id),
    ensures
        r.fiber(id).current() != next ==> r.publishing_state(id, next).same_but_slots(
            r.transition(id, next),
        ),
        r.transition(id, next).has(id),
        r.transition(id, next).fibers.len() == r.fibers.len(),
        r.transition(id, next).fiber(id).current() == next,
        r.transition(id, next).fiber(id) == (FiberView {
            slot: r.transition(id, next).fiber(id).slot,
            state: r.fiber(id).state.published(next),
            ..r.fiber(id)
        }),
        forall|i: int|
            0 <= i < r.fibers.len() && i != id.0 ==> (#[trigger] r.transition(id, next).fibers[i])
                == (FiberView { slot: r.transition(id, next).fibers[i].slot, ..r.fibers[i] }),
        r.transition(id, next) == (RootView {
            fibers: r.transition(id, next).fibers,
            passes: r.transition(id, next).passes,
            hub: r.transition(id, next).hub,
            ..r
        }),
{
    if r.fiber(id).current() != next {
        let affected = r.drifted_by(id, next);
        let a = r.recheck_all(affected);
        lemma_recheck_slots(r, affected);
        let b = a.publishing_state(id, next);
        assert(r.publishing_state(id, next).same_but_slots(b));
        let c = b.kick_all(affected);
        lemma_kick_slots(b, affected);
        assert(r.publishing_state(id, next).same_but_slots(c));
        let changes = r.visibility_changes(id, next);
        let was = r.fiber(id).current() is Active;
        lemma_observe_visibility_slots(c, changes, was, next is Active);
        let t = r.transition(id, next);
        assert(r.publishing_state(id, next).same_but_slots(t));
    }
}

pub proof fn lemma_observe_visibility_counters(
    r: RootView,
    changes: Seq<VisibilityView>,
    was: bool,
    is: bool,
)
    ensures
        r.same_counters(r.observe_visibility(changes, was, is)),
        r.observe_visibility(changes, was, is).fibers == r.fibers,
    decreases changes.len(),
{
    if changes.len() > 0 {
        lemma_observe_visibility_counters(r, changes.drop_last(), was, is);
    }
}

/// A transition uses up one step of room.
pub proof fn lemma_transition_room(r: RootView, id: FiberId, next: FiberState, n: nat)
    requires
        r.room(n + 1),
    ensures
        r.transition(id, next).room(n),
        r.transition(id, next).fibers.len() == r.fibers.len(),
{
    assert(r.room(n)) by {
        assert forall|i: int| 0 <= i < r.fibers.len() implies (#[trigger] r.fibers[i]).room(n) by {
            let f = r.fibers[i];
            assert(f.room(n + 1));
            assert forall|k: int| 0 <= k < 6 implies (#[trigger] f.state.revisions[k]) + n
                <= u64::MAX by {
                assert(f.state.revisions[k] + (n + 1) <= u64::MAX);
            }
        }
    }
    if r.has(id) && r.fiber(id).current() != next {
        let affected = r.drifted_by(id, next);
        let a = r.recheck_all(affected);
        lemma_recheck_counters(r, affected);
        lemma_same_counters_room(r, a, n + 1);
        let b = a.publishing_state(id, next);
        assert(b.room(n)) by {
            assert forall|i: int| 0 <= i < b.fibers.len() implies (#[trigger] b.fibers[i]).room(
                n,
            ) by {
                let f = a.fibers[i];
                assert(f.room(n + 1));
                if i == id.0 {
                    lemma_published_room(f.state, next, n);
                } else {
                    assert forall|k: int| 0 <= k < 6 implies (#[trigger] f.state.revisions[k]) + n
                        <= u64::MAX by {
                        assert(f.state.revisions[k] + (n + 1) <= u64::MAX);
                    }
                }
            }
        }
        let c = b.kick_all(affected);
        lemma_kick_counters(b, affected);
        lemma_same_counters_room(b, c, n);
        let changes = r.visibility_changes(id, next);
        let was = r.fiber(id).current() is Active;
        lemma_observe_visibility_counters(c, changes, was, next is Active);
        let d = c.observe_visibility(changes, was, next is Active);
        lemma_same_counters_room(c, d, n);
        let e = d.observe(
            ObservationView::FiberState { fiber: id, previous: r.fiber(id).current(), current: next },
        );
        assert(d.same_counters(e));
        lemma_same_counters_room(d, e, n);
    }
}

impl Root {
    fn observe_visibility(
        &mut self,
        changes: &Vec<ServiceVisibilityOccurrence>,
        was_visible: bool,
        is_visible: bool,
    )
        requires
            old(self).wf(),
        ensures
            final(self).wf(),
            final(self)@ == old(self)@.observe_visibility(
                visibility_views(changes@),
                was_visible,
                is_visible,
            ),
    {
        let ghost rows = visibility_views(changes@);
        let ghost step = |r: RootView, c: VisibilityView|
            r.observe(r.visibility_record(c, was_visible, is_visible));
        let ghost start = self@;
        let mut i: usize = 0;
        while i < changes.len()
            invariant
                i <= changes@.len(),
                self.wf(),
                rows == visibility_views(changes@),
                step == (|r: RootView, c: VisibilityView|
                    r.observe(r.visibility_record(c, was_visible, is_visible))),
                self@ == rows.take(i as int).fold_left(start, step),
            decreases changes@.len() - i,
        {
            proof {
                lemma_fold_step(rows, start, step, i as int);
                assert(rows[i as int] == changes@[i as int]@);
            }
            let change = &changes[i];
            let id = ServicePublicationId(change.occurrence);
            let runtime = self.runtime();
            let record = RuntimeObservation::ServiceVisibility {
                service: change.edge.service.clone(),
                realm: ServiceRealm::new(runtime, change.edge.realm),
                previous: if was_visible {
                    Some(id)
                } else {
                    None
                },
                current: if is_visible {
                    Some(id)
                } else {
                    None
                },
            };
            self.observe(record);
            i = i + 1;
        }
        assert(rows.take(i as int) =~= rows);
    }

    /// The publications whose visibility a transition changes, and the Fibers it
    /// owes a recheck.
    fn transition_drift(&self, id: FiberId, next: FiberState) -> (r: (
        Vec<ServiceVisibilityOccurrence>,
        Vec<FiberId>,
    ))
        requires
            self@.has(id),
        ensures
            visibility_views(r.0@) == self@.visibility_changes(id, next),
            r.1@ == self@.drifted_by(id, next),
    {
        let was_visible = self.fiber(id).state.current() == FiberState::Active;
        let is_visible = next == FiberState::Active;
        if was_visible == is_visible || !self.fiber(id).spawn_state.is_installed() {
            let none: Vec<ServiceVisibilityOccurrence> = Vec::new();
            assert(visibility_views(none@) =~= Seq::empty());
            return (none, Vec::new());
        }
        let changes = self.services().publications_of(id);
        if changes.len() == 0 {
            return (changes, Vec::new());
        }
        let ghost rows = visibility_views(changes@);
        let mut edges: Vec<DependencyEdge> = Vec::new();
        let mut i: usize = 0;
        while i < changes.len()
            invariant
                i <= changes@.len(),
                rows == visibility_views(changes@),
                edge_views(edges@) == rows.map_values(|c: VisibilityView| c.edge).take(i as int),
            decreases changes@.len() - i,
        {
            let edge = changes[i].edge.duplicate();
            assert(rows[i as int] == changes@[i as int]@);
            assert(edge_views(edges@.push(edge)) =~= edge_views(edges@).push(edge@));
            edges.push(edge);
            assert(edge_views(edges@) =~= rows.map_values(|c: VisibilityView| c.edge).take(i + 1));
            i = i + 1;
        }
        assert(edge_views(edges@) =~= rows.map_values(|c: VisibilityView| c.edge));
        let affected = self.dependents_for_edges(&edges);
        (changes, affected)
    }

    /// Commits the rechecks a transition owes, then publishes the state: a Fiber
    /// that sees the new visibility carries the recheck already.
    fn commit_fiber_transition(&mut self, id: FiberId, next: FiberState) -> (r: (
        Vec<ServiceVisibilityOccurrence>,
        Vec<FiberId>,
    ))
        requires
            old(self).wf(),
            old(self)@.has(id),
            old(self)@.room(1),
        ensures
            final(self).wf(),
            visibility_views(r.0@) == old(self)@.visibility_changes(id, next),
            r.1@ == old(self)@.drifted_by(id, next),
            final(self)@ == old(self)@.recheck_all(old(self)@.drifted_by(id, next)).publishing_state(
                id,
                next,
            ),
    {
        let (changes, affected) = self.transition_drift(id, next);
        self.commit_rechecks(&affected);
        proof {
            lemma_recheck_counters(old(self)@, affected@);
            assert(old(self)@.fibers[id.0 as int].room(1));
        }
        let _ = self.fiber_mut(id).state.publish(next);
        (changes, affected)
    }

    /// Publishes one lifecycle transition, commits the Service-visibility drift it
    /// causes, drives the affected Fibers, and publishes the records.
    pub fn transition(&mut self, id: FiberId, next: FiberState)
        requires
            old(self).wf(),
            old(self)@.room(1),
        ensures
            final(self).wf(),
            final(self)@ == old(self)@.transition(id, next),
    {
        if !self.has_fiber(id) {
            return ;
        }
        let previous = self.fiber(id).state.current();
        if previous == next {
            return ;
        }
        let installed = self.fiber(id).spawn_state.is_installed();
        let (changes, affected) = self.commit_fiber_transition(id, next);
        self.kick_all(&affected);
        if installed {
            self.observe_visibility(
                &changes,
                previous == FiberState::Active,
                next == FiberState::Active,
            );
            self.observe(
                RuntimeObservation::FiberState { fiber: id, previous, current: next },
            );
        }
    }
}

} // verus!
