//! Terminal disposal: the full barrier of cleanup, `Disposed`, exact unlink and
//! completion.

use crate::drain::{lemma_drained_counters, lemma_drained_room};
use crate::effect::DisposableToken;
use crate::fiber::FiberView;
use crate::ids::FiberId;
use crate::inertia::{Inertia, InertiaView};
use crate::observation::{ObservationView, ResidencyChange, RuntimeObservation};
use crate::root::{lemma_same_counters_room, Root, RootView};
use crate::settle::{action_view, lemma_room_less, Action, ActionView};
use crate::snapshot::fiber_snapshot;
use crate::sound::lemma_draining_sound;
use crate::state::FiberState;
use crate::transition::{lemma_transition_publishes, lemma_transition_room};
use vstd::prelude::*;

verus! {

impl RootView {
    /// The Runtime after a Fiber's exact residency was released. A Fiber that
    /// holds no claim changes nothing.
    pub open spec fn unlinking(self, id: FiberId) -> RootView {
        match self.fiber(id).residency {
            None => self,
            Some(claim) => {
                let taken = self.with_fiber(id, FiberView { residency: None, ..self.fiber(id) });
                let released = RootView { registry: self.registry.released(claim), ..taken };
                if self.fiber(id).spawn is Some {
                    released.observe(
                        ObservationView::FiberResidency {
                            change: ResidencyChange::Removed,
                            fiber: self.fiber_record(id),
                        },
                    )
                } else {
                    released
                }
            },
        }
    }

    /// The Runtime with a Fiber's settle slot given back.
    pub open spec fn abandoning(self, id: FiberId) -> RootView {
        let fiber = self.fiber(id);
        self.with_fiber(
            id,
            FiberView { slot: InertiaView { inertia: Inertia::Idle, ..fiber.slot }, ..fiber },
        )
    }

    /// The Runtime with a Fiber's settle slot claimed.
    pub open spec fn holding(self, id: FiberId) -> RootView {
        let fiber = self.fiber(id);
        self.with_fiber(
            id,
            FiberView { slot: InertiaView { inertia: Inertia::Active, ..fiber.slot }, ..fiber },
        )
    }

    /// The Runtime with a Fiber's terminal claim made and its creation window
    /// closed.
    pub open spec fn doomed(self, id: FiberId) -> RootView {
        self.with_fiber(
            id,
            FiberView { disposing: true, creation_pending: false, ..self.fiber(id) },
        )
    }

    /// The Runtime at the start of a teardown: the generation is closed, the
    /// target pinned, the Fiber dead and out of the dependency projection.
    pub open spec fn closing(self, id: FiberId) -> RootView {
        let unloading = self.transition(id, FiberState::Unloading);
        let fiber = unloading.fiber(id);
        let dead = unloading.with_fiber(
            id,
            FiberView {
                slot: InertiaView { target: None, ..fiber.slot },
                alive: false,
                ..fiber
            },
        );
        if fiber.spawn is Some {
            RootView { deps: dead.deps.unregistered(id), ..dead }
        } else {
            dead
        }
    }

    /// The Runtime at the end of a teardown.
    pub open spec fn disposed(self, id: FiberId) -> RootView {
        self.transition(id, FiberState::Disposed).parking(id, None)
    }

    /// The Runtime after the terminal barrier: the slot is given back where the
    /// disposal owns it, the Fiber is unlinked, and completion is published.
    pub open spec fn completed(self, id: FiberId, frees_slot: bool) -> RootView {
        let freed = if frees_slot {
            self.abandoning(id)
        } else {
            self
        };
        let unlinked = freed.unlinking(id);
        unlinked.with_fiber(id, FiberView { dispose_complete: true, ..unlinked.fiber(id) })
    }
}

/// Where a disposal stands.
pub enum DisposalPhase {
    /// It has not claimed the settle slot yet.
    Claim,
    /// It completes a cancelled creation and has not judged who holds the slot.
    Inherit,
    /// It made the terminal claim and waits for the settle slot.
    Reclaim,
    /// It owns the slot and the terminal claim; the teardown begins.
    Begin {
        /// Whether it gives the slot back at the end.
        frees_slot: bool,
    },
    /// The last generation is drained.
    Draining {
        /// Whether it gives the slot back at the end.
        frees_slot: bool,
        /// The tokens still to be served.
        tokens: Vec<DisposableToken>,
    },
    /// It waits for the barrier of an earlier terminal claim.
    Joining,
    /// The barrier is complete.
    Over,
}

/// Where a disposal stands, as a mathematical value.
#[verifier::ext_equal]
#[allow(inconsistent_fields)]
pub enum DisposalPhaseView {
    Claim,
    Inherit,
    Reclaim,
    Begin { frees_slot: bool },
    Draining { frees_slot: bool, tokens: Seq<DisposableToken> },
    Joining,
    Over,
}

impl View for DisposalPhase {
    type V = DisposalPhaseView;

    open spec fn view(&self) -> DisposalPhaseView {
        match self {
            DisposalPhase::Claim => DisposalPhaseView::Claim,
            DisposalPhase::Inherit => DisposalPhaseView::Inherit,
            DisposalPhase::Reclaim => DisposalPhaseView::Reclaim,
            DisposalPhase::Begin { frees_slot } => DisposalPhaseView::Begin {
                frees_slot: *frees_slot,
            },
            DisposalPhase::Draining { frees_slot, tokens } => DisposalPhaseView::Draining {
                frees_slot: *frees_slot,
                tokens: tokens@,
            },
            DisposalPhase::Joining => DisposalPhaseView::Joining,
            DisposalPhase::Over => DisposalPhaseView::Over,
        }
    }
}

/// One terminal disposal of a Fiber.
pub struct Disposal {
    fiber: FiberId,
    phase: DisposalPhase,
}

/// A disposal as a mathematical value.
#[verifier::ext_equal]
pub struct DisposalView {
    pub fiber: FiberId,
    pub phase: DisposalPhaseView,
}

/// What one step of a disposal comes to.
#[verifier::ext_equal]
pub struct DisposalStep {
    /// The Runtime after it.
    pub root: RootView,
    /// Where the disposal stands after it.
    pub phase: DisposalPhaseView,
    /// What the host does next; `None` when the barrier is complete.
    pub action: Option<ActionView>,
}

impl View for Disposal {
    type V = DisposalView;

    closed spec fn view(&self) -> DisposalView {
        DisposalView { fiber: self.fiber, phase: self.phase@ }
    }
}

impl DisposalView {
    /// The end of a disposal.
    pub open spec fn over(self, root: RootView) -> DisposalStep {
        DisposalStep { root, phase: DisposalPhaseView::Over, action: None }
    }

    /// Nothing to do until the Runtime changed.
    pub open spec fn waiting(self, root: RootView, phase: DisposalPhaseView) -> DisposalStep {
        DisposalStep { root, phase, action: Some(ActionView::Wait) }
    }

    /// While the last generation is drained.
    pub open spec fn draining(
        self,
        root: RootView,
        frees_slot: bool,
        tokens: Seq<DisposableToken>,
    ) -> DisposalStep {
        let step = root.drained(self.fiber, tokens);
        match step.run {
            Some(cleanup) => DisposalStep {
                root: step.root,
                phase: DisposalPhaseView::Draining { frees_slot, tokens: step.tokens },
                action: Some(ActionView::Cleanup(cleanup)),
            },
            None => self.over(
                step.root.disposed(self.fiber).completed(self.fiber, frees_slot),
            ),
        }
    }

    /// When the teardown begins. A Fiber that a prior teardown left disposed is
    /// only unlinked.
    pub open spec fn begun(self, root: RootView, frees_slot: bool) -> DisposalStep {
        let doomed = root.doomed(self.fiber);
        if doomed.fiber(self.fiber).current() is Disposed {
            self.over(doomed.completed(self.fiber, frees_slot))
        } else {
            let closed = doomed.closing(self.fiber);
            self.draining(
                closed.marking_drain(self.fiber, true),
                frees_slot,
                closed.fiber(self.fiber).journal.tokens(),
            )
        }
    }

    /// Waiting out the barrier of an earlier terminal claim.
    pub open spec fn joining(self, root: RootView) -> DisposalStep {
        if root.fiber(self.fiber).dispose_complete {
            self.over(root)
        } else {
            self.waiting(root, DisposalPhaseView::Joining)
        }
    }

    /// An ordinary disposal: a complete one answers at once, a busy slot is waited
    /// out, an earlier terminal claim is joined, and otherwise this one commits.
    pub open spec fn claiming(self, root: RootView) -> DisposalStep {
        let fiber = root.fiber(self.fiber);
        if fiber.dispose_complete {
            self.over(root)
        } else if !(fiber.slot.inertia is Idle) {
            self.waiting(root, DisposalPhaseView::Claim)
        } else if fiber.disposing {
            self.joining(root)
        } else {
            self.begun(root.holding(self.fiber), true)
        }
    }

    /// The slot of a cancelled creation that nobody holds: a Fiber that died
    /// meanwhile needs nothing more.
    pub open spec fn reclaiming(self, root: RootView) -> DisposalStep {
        let fiber = root.fiber(self.fiber);
        if !(fiber.slot.inertia is Idle) {
            self.waiting(root, DisposalPhaseView::Reclaim)
        } else if !fiber.alive {
            self.over(root)
        } else {
            self.begun(root.holding(self.fiber), true)
        }
    }

    /// The completion of a cancelled creation: the slot is inherited from a pass
    /// that died holding it; otherwise an earlier terminal claim is joined, or the
    /// claim is made and the slot waited for.
    pub open spec fn inheriting(self, root: RootView) -> DisposalStep {
        let fiber = root.fiber(self.fiber);
        if fiber.slot.creation_owned {
            let taken = root.with_fiber(
                self.fiber,
                FiberView { slot: InertiaView { creation_owned: false, ..fiber.slot }, ..fiber },
            );
            self.begun(taken, true)
        } else if fiber.disposing {
            self.joining(root)
        } else {
            self.reclaiming(
                root.with_fiber(self.fiber, FiberView { disposing: true, ..fiber }),
            )
        }
    }

    /// One step of a disposal.
    pub open spec fn step(self, root: RootView) -> DisposalStep {
        match self.phase {
            DisposalPhaseView::Claim => self.claiming(root),
            DisposalPhaseView::Inherit => self.inheriting(root),
            DisposalPhaseView::Reclaim => self.reclaiming(root),
            DisposalPhaseView::Begin { frees_slot } => self.begun(root, frees_slot),
            DisposalPhaseView::Draining { frees_slot, tokens } => self.draining(
                root,
                frees_slot,
                tokens,
            ),
            DisposalPhaseView::Joining => self.joining(root),
            DisposalPhaseView::Over => self.over(root),
        }
    }
}

/// Another value for one Fiber with the same counters keeps the room.
pub proof fn lemma_with_fiber_room(a: RootView, id: FiberId, f: FiberView, n: nat)
    requires
        a.has(id),
        a.room(n),
        f.state == a.fiber(id).state,
        f.journal.sn == a.fiber(id).journal.sn,
    ensures
        a.with_fiber(id, f).room(n),
        a.with_fiber(id, f).fibers.len() == a.fibers.len(),
        a.with_fiber(id, f).fiber(id) == f,
{
    assert(a.same_counters(a.with_fiber(id, f)));
    lemma_same_counters_room(a, a.with_fiber(id, f), n);
}

proof fn lemma_completed_room(root: RootView, id: FiberId, frees_slot: bool, n: nat)
    requires
        root.has(id),
        root.room(n),
    ensures
        root.completed(id, frees_slot).room(n),
        root.completed(id, frees_slot).fibers.len() == root.fibers.len(),
{
    assert(root.same_counters(root.completed(id, frees_slot)));
    lemma_same_counters_room(root, root.completed(id, frees_slot), n);
}

proof fn lemma_draining_room(
    d: DisposalView,
    root: RootView,
    frees_slot: bool,
    tokens: Seq<DisposableToken>,
    n: nat,
)
    requires
        root.has(d.fiber),
        root.room(n + 1),
    ensures
        d.draining(root, frees_slot, tokens).root.room(n),
        d.draining(root, frees_slot, tokens).root.fibers.len() == root.fibers.len(),
{
    let id = d.fiber;
    lemma_drained_room(root, id, tokens, n + 1);
    let drained = root.drained(id, tokens).root;
    lemma_room_less(drained, n);
    lemma_transition_room(drained, id, FiberState::Disposed, n);
    let ended = drained.transition(id, FiberState::Disposed);
    lemma_with_fiber_room(ended, id, FiberView { error: None, ..ended.fiber(id) }, n);
    lemma_completed_room(drained.disposed(id), id, frees_slot, n);
}

proof fn lemma_closing_room(root: RootView, id: FiberId, n: nat)
    requires
        root.has(id),
        root.room(n + 1),
    ensures
        root.closing(id).room(n),
        root.closing(id).fibers.len() == root.fibers.len(),
        root.closing(id).marking_drain(id, true).room(n),
{
    lemma_transition_room(root, id, FiberState::Unloading, n);
    let unloading = root.transition(id, FiberState::Unloading);
    assert(unloading.same_counters(root.closing(id)));
    lemma_same_counters_room(unloading, root.closing(id), n);
    let closed = root.closing(id);
    lemma_with_fiber_room(closed, id, FiberView { draining: true, ..closed.fiber(id) }, n);
}

proof fn lemma_begun_room(d: DisposalView, root: RootView, frees_slot: bool, n: nat)
    requires
        root.has(d.fiber),
        root.room(n + 2),
    ensures
        d.begun(root, frees_slot).root.room(n),
        d.begun(root, frees_slot).root.fibers.len() == root.fibers.len(),
{
    let id = d.fiber;
    let doomed = root.doomed(id);
    lemma_with_fiber_room(root, id, doomed.fiber(id), n + 2);
    lemma_room_less(doomed, n + 1);
    lemma_room_less(doomed, n);
    lemma_completed_room(doomed, id, frees_slot, n);
    lemma_closing_room(doomed, id, n + 1);
    let closed = doomed.closing(id);
    lemma_draining_room(
        d,
        closed.marking_drain(id, true),
        frees_slot,
        closed.fiber(id).journal.tokens(),
        n,
    );
}

/// One step of a disposal uses up at most two steps of room.
pub proof fn lemma_disposal_step_room(d: DisposalView, root: RootView, n: nat)
    requires
        root.has(d.fiber),
        root.room(n + 2),
    ensures
        d.step(root).root.room(n),
        d.step(root).root.fibers.len() == root.fibers.len(),
{
    let id = d.fiber;
    lemma_room_less(root, n + 1);
    lemma_room_less(root, n);
    let fiber = root.fiber(id);
    let held = root.holding(id);
    lemma_with_fiber_room(root, id, held.fiber(id), n + 2);
    lemma_begun_room(d, held, true, n);
    match d.phase {
        DisposalPhaseView::Begin { frees_slot } => {
            lemma_begun_room(d, root, frees_slot, n);
        },
        DisposalPhaseView::Draining { frees_slot, tokens } => {
            lemma_draining_room(d, root, frees_slot, tokens, n);
        },
        DisposalPhaseView::Inherit => {
            let unowned = FiberView {
                slot: InertiaView { creation_owned: false, ..fiber.slot },
                ..fiber
            };
            lemma_with_fiber_room(root, id, unowned, n + 2);
            lemma_begun_room(d, root.with_fiber(id, unowned), true, n);
            let claimed = root.with_fiber(id, FiberView { disposing: true, ..fiber });
            lemma_with_fiber_room(root, id, claimed.fiber(id), n + 2);
            lemma_room_less(claimed, n + 1);
            lemma_room_less(claimed, n);
            lemma_with_fiber_room(claimed, id, claimed.holding(id).fiber(id), n + 2);
            lemma_begun_room(d, claimed.holding(id), true, n);
        },
        _ => {},
    }
}

impl Root {
    /// Releases a Fiber's exact residency, and records it. Releasing again
    /// changes nothing.
    pub fn release_residency(&mut self, id: FiberId)
        requires
            old(self).wf(),
            old(self)@.has(id),
        ensures
            final(self).wf(),
            final(self)@ == old(self)@.unlinking(id),
    {
        let claim = match self.fiber(id).residency {
            Some(claim) => claim,
            None => {
                return ;
            },
        };
        let snapshot = fiber_snapshot(self, id);
        let installed = self.fiber(id).spawn_state.is_installed();
        self.fiber_mut(id).residency = None;
        self.registry_mut().release(claim);
        if installed {
            self.observe(
                RuntimeObservation::FiberResidency {
                    change: ResidencyChange::Removed,
                    fiber: snapshot,
                },
            );
        }
    }

    fn complete_disposal(&mut self, id: FiberId, frees_slot: bool)
        requires
            old(self).wf(),
            old(self)@.has(id),
        ensures
            final(self).wf(),
            final(self)@ == old(self)@.completed(id, frees_slot),
    {
        if frees_slot {
            self.fiber_mut(id).slot.abandon();
        }
        self.release_residency(id);
        self.fiber_mut(id).dispose_complete = true;
    }

    fn close_for_disposal(&mut self, id: FiberId)
        requires
            old(self).wf(),
            old(self)@.has(id),
            old(self)@.room(1),
        ensures
            final(self).wf(),
            final(self)@ == old(self)@.closing(id),
    {
        proof {
            lemma_transition_room(self@, id, FiberState::Unloading, 0);
        }
        self.transition(id, FiberState::Unloading);
        self.fiber_mut(id).slot.pin_inactive();
        self.fiber_mut(id).alive = false;
        if self.fiber(id).spawn_state.is_installed() {
            self.deps_mut().unregister(id);
        }
    }
}

impl Disposal {
    /// An ordinary terminal disposal.
    pub fn new(fiber: FiberId) -> (r: Disposal)
        ensures
            r@ == (DisposalView { fiber, phase: DisposalPhaseView::Claim }),
    {
        Disposal { fiber, phase: DisposalPhase::Claim }
    }

    /// A disposal whose caller has made the terminal claim and holds the slot.
    pub fn complete_claimed_dispose(fiber: FiberId) -> (r: Disposal)
        ensures
            r@ == (DisposalView { fiber, phase: DisposalPhaseView::Begin { frees_slot: true } }),
    {
        Disposal { fiber, phase: DisposalPhase::Begin { frees_slot: true } }
    }

    /// The teardown of a failed creation; its caller keeps the slot.
    pub fn creation_teardown(fiber: FiberId) -> (r: Disposal)
        ensures
            r@ == (DisposalView { fiber, phase: DisposalPhaseView::Begin { frees_slot: false } }),
    {
        Disposal { fiber, phase: DisposalPhase::Begin { frees_slot: false } }
    }

    /// The completion of a creation whose caller abandoned it.
    pub fn creation_interrupted_teardown(fiber: FiberId) -> (r: Disposal)
        ensures
            r@ == (DisposalView { fiber, phase: DisposalPhaseView::Inherit }),
    {
        Disposal { fiber, phase: DisposalPhase::Inherit }
    }

    /// The Fiber that is disposed.
    pub fn fiber(&self) -> (r: FiberId)
        ensures
            r == self@.fiber,
    {
        self.fiber
    }

    fn drain(&mut self, root: &mut Root, frees_slot: bool, tokens: Vec<DisposableToken>) -> (r:
        Option<Action>)
        requires
            old(root).wf(),
            old(root)@.has(old(self)@.fiber),
            old(root)@.room(1),
        ensures
            final(root).wf(),
            final(root)@ == old(self)@.draining(old(root)@, frees_slot, tokens@).root,
            final(self)@ == (DisposalView {
                phase: old(self)@.draining(old(root)@, frees_slot, tokens@).phase,
                ..old(self)@
            }),
            action_view(r) == old(self)@.draining(old(root)@, frees_slot, tokens@).action,
    {
        let id = self.fiber;
        let mut left = tokens;
        proof {
            lemma_drained_room(root@, id, tokens@, 1);
        }
        match root.drain_next(id, &mut left) {
            Some(cleanup) => {
                self.phase = DisposalPhase::Draining { frees_slot, tokens: left };
                Some(Action::Cleanup(cleanup))
            },
            None => {
                proof {
                    lemma_transition_room(root@, id, FiberState::Disposed, 0);
                }
                root.transition(id, FiberState::Disposed);
                root.fiber_mut(id).error = None;
                root.complete_disposal(id, frees_slot);
                self.phase = DisposalPhase::Over;
                None
            },
        }
    }

    fn begin(&mut self, root: &mut Root, frees_slot: bool) -> (r: Option<Action>)
        requires
            old(root).wf(),
            old(root)@.has(old(self)@.fiber),
            old(root)@.room(2),
        ensures
            final(root).wf(),
            final(root)@ == old(self)@.begun(old(root)@, frees_slot).root,
            final(self)@ == (DisposalView {
                phase: old(self)@.begun(old(root)@, frees_slot).phase,
                ..old(self)@
            }),
            action_view(r) == old(self)@.begun(old(root)@, frees_slot).action,
    {
        let id = self.fiber;
        root.fiber_mut(id).disposing = true;
        root.fiber_mut(id).creation_pending = false;
        assert(root@ =~= old(root)@.doomed(id));
        if root.fiber(id).state.current() == FiberState::Disposed {
            root.complete_disposal(id, frees_slot);
            self.phase = DisposalPhase::Over;
            return None;
        }
        proof {
            lemma_with_fiber_room(old(root)@, id, old(root)@.doomed(id).fiber(id), 2);
            lemma_room_less(root@, 1);
            lemma_closing_room(root@, id, 1);
        }
        root.close_for_disposal(id);
        let tokens = root.begin_drain(id);
        self.drain(root, frees_slot, tokens)
    }

    fn join(&mut self, root: &Root) -> (r: Option<Action>)
        requires
            root@.has(old(self)@.fiber),
        ensures
            old(self)@.joining(root@).root == root@,
            final(self)@ == (DisposalView {
                phase: old(self)@.joining(root@).phase,
                ..old(self)@
            }),
            action_view(r) == old(self)@.joining(root@).action,
    {
        if root.fiber(self.fiber).dispose_complete {
            self.phase = DisposalPhase::Over;
            None
        } else {
            self.phase = DisposalPhase::Joining;
            Some(Action::Wait)
        }
    }

    fn claim(&mut self, root: &mut Root) -> (r: Option<Action>)
        requires
            old(root).wf(),
            old(root)@.has(old(self)@.fiber),
            old(root)@.room(2),
        ensures
            final(root).wf(),
            final(root)@ == old(self)@.claiming(old(root)@).root,
            final(self)@ == (DisposalView {
                phase: old(self)@.claiming(old(root)@).phase,
                ..old(self)@
            }),
            action_view(r) == old(self)@.claiming(old(root)@).action,
    {
        let id = self.fiber;
        if root.fiber(id).dispose_complete {
            self.phase = DisposalPhase::Over;
            return None;
        }
        if !root.fiber(id).slot.is_idle() {
            self.phase = DisposalPhase::Claim;
            return Some(Action::Wait);
        }
        if root.fiber(id).disposing {
            return self.join(root);
        }
        let _ = root.fiber_mut(id).slot.try_claim();
        assert(root@ =~= old(root)@.holding(id));
        proof {
            lemma_with_fiber_room(old(root)@, id, old(root)@.holding(id).fiber(id), 2);
        }
        self.begin(root, true)
    }

    fn reclaim(&mut self, root: &mut Root) -> (r: Option<Action>)
        requires
            old(root).wf(),
            old(root)@.has(old(self)@.fiber),
            old(root)@.room(2),
        ensures
            final(root).wf(),
            final(root)@ == old(self)@.reclaiming(old(root)@).root,
            final(self)@ == (DisposalView {
                phase: old(self)@.reclaiming(old(root)@).phase,
                ..old(self)@
            }),
            action_view(r) == old(self)@.reclaiming(old(root)@).action,
    {
        let id = self.fiber;
        if !root.fiber(id).slot.is_idle() {
            self.phase = DisposalPhase::Reclaim;
            return Some(Action::Wait);
        }
        if !root.fiber(id).alive {
            self.phase = DisposalPhase::Over;
            return None;
        }
        let _ = root.fiber_mut(id).slot.try_claim();
        assert(root@ =~= old(root)@.holding(id));
        proof {
            lemma_with_fiber_room(old(root)@, id, old(root)@.holding(id).fiber(id), 2);
        }
        self.begin(root, true)
    }

    fn inherit(&mut self, root: &mut Root) -> (r: Option<Action>)
        requires
            old(root).wf(),
            old(root)@.has(old(self)@.fiber),
            old(root)@.room(2),
        ensures
            final(root).wf(),
            final(root)@ == old(self)@.inheriting(old(root)@).root,
            final(self)@ == (DisposalView {
                phase: old(self)@.inheriting(old(root)@).phase,
                ..old(self)@
            }),
            action_view(r) == old(self)@.inheriting(old(root)@).action,
    {
        let id = self.fiber;
        let ghost fiber = root@.fiber(id);
        if root.fiber_mut(id).slot.take_creation_ownership() {
            proof {
                lemma_with_fiber_room(
                    old(root)@,
                    id,
                    FiberView {
                        slot: InertiaView { creation_owned: false, ..fiber.slot },
                        ..fiber
                    },
                    2,
                );
            }
            return self.begin(root, true);
        }
        assert(root@ =~= old(root)@);
        if root.fiber(id).disposing {
            return self.join(root);
        }
        root.fiber_mut(id).disposing = true;
        proof {
            lemma_with_fiber_room(
                old(root)@,
                id,
                FiberView { disposing: true, ..fiber },
                2,
            );
        }
        self.reclaim(root)
    }

    /// Goes on; says what the host does next, or nothing when the barrier is
    /// complete.
    pub fn step(&mut self, root: &mut Root) -> (r: Option<Action>)
        requires
            old(root).wf(),
            old(root)@.has(old(self)@.fiber),
            old(root)@.room(2),
        ensures
            final(root).wf(),
            final(root)@ == old(self)@.step(old(root)@).root,
            final(self)@ == (DisposalView {
                phase: old(self)@.step(old(root)@).phase,
                ..old(self)@
            }),
            action_view(r) == old(self)@.step(old(root)@).action,
    {
        proof {
            lemma_room_less(root@, 1);
        }
        let mut phase = DisposalPhase::Over;
        std::mem::swap(&mut phase, &mut self.phase);
        match phase {
            DisposalPhase::Claim => self.claim(root),
            DisposalPhase::Inherit => self.inherit(root),
            DisposalPhase::Reclaim => self.reclaim(root),
            DisposalPhase::Begin { frees_slot } => self.begin(root, frees_slot),
            DisposalPhase::Draining { frees_slot, tokens } => self.drain(root, frees_slot, tokens),
            DisposalPhase::Joining => self.join(root),
            DisposalPhase::Over => None,
        }
    }
}

proof fn lemma_completed_fiber(root: RootView, id: FiberId, frees_slot: bool)
    requires
        root.has(id),
    ensures
        root.completed(id, frees_slot).fiber(id) == (FiberView {
            slot: root.completed(id, frees_slot).fiber(id).slot,
            residency: None,
            dispose_complete: true,
            ..root.fiber(id)
        }),
        frees_slot ==> root.completed(id, frees_slot).fiber(id).slot.inertia is Idle,
{
    let freed = if frees_slot {
        root.abandoning(id)
    } else {
        root
    };
    let slot = freed.fiber(id).slot;
    assert(freed.has(id) && freed.fiber(id) == (FiberView { slot, ..root.fiber(id) }));
    lemma_unlinking_fiber(freed, id);
    let unlinked = freed.unlinking(id);
    let last = FiberView { dispose_complete: true, ..unlinked.fiber(id) };
    assert(root.completed(id, frees_slot) == unlinked.with_fiber(id, last));
    assert(unlinked.with_fiber(id, last).fiber(id) == last);
}

proof fn lemma_unlinking_fiber(root: RootView, id: FiberId)
    requires
        root.has(id),
    ensures
        root.unlinking(id).has(id),
        root.unlinking(id).fiber(id) == (FiberView { residency: None, ..root.fiber(id) }),
{
    match root.fiber(id).residency {
        None => {},
        Some(claim) => {
            let taken = root.with_fiber(id, FiberView { residency: None, ..root.fiber(id) });
            assert(root.unlinking(id).fibers == taken.fibers);
        },
    }
}

/// A disposal keeps the list of Fibers.
pub proof fn lemma_disposal_keeps_fibers(
    d: DisposalView,
    root: RootView,
    frees_slot: bool,
    tokens: Seq<DisposableToken>,
)
    requires
        root.has(d.fiber),
    ensures
        d.draining(root, frees_slot, tokens).root.fibers.len() == root.fibers.len(),
{
    let id = d.fiber;
    lemma_drained_counters(root, id, tokens);
    let drained = root.drained(id, tokens).root;
    lemma_transition_publishes(drained, id, FiberState::Disposed);
    let ended = drained.disposed(id);
    assert(ended.fibers.len() == root.fibers.len());
    assert(ended.completed(id, frees_slot).fibers.len() == ended.fibers.len());
}

/// A complete disposal leaves a dead, disposed Fiber that admits nothing, shows
/// nothing, has no parked failure, is unlinked, and says so. In a consistent
/// Runtime it is no resident any more.
pub proof fn law_a_disposal_is_a_full_barrier(
    d: DisposalView,
    root: RootView,
    frees_slot: bool,
    tokens: Seq<DisposableToken>,
)
    requires
        root.has(d.fiber),
        !root.fiber(d.fiber).alive,
        d.draining(root, frees_slot, tokens).action is None,
    ensures
        ({
            let after = d.draining(root, frees_slot, tokens).root.fiber(d.fiber);
            &&& after.current() is Disposed
            &&& !after.alive
            &&& !after.admits()
            &&& !after.is_visible()
            &&& after.error is None
            &&& after.residency is None
            &&& after.dispose_complete
            &&& frees_slot ==> after.slot.inertia is Idle
        }),
        root.sound() ==> !d.draining(root, frees_slot, tokens).root.registry.residents.contains(
            d.fiber,
        ),
{
    if root.sound() {
        lemma_draining_sound(d, root, frees_slot, tokens);
    }
    let id = d.fiber;
    let drained = root.drained(id, tokens).root;
    assert(drained.has(id) && drained.fiber(id).alive == root.fiber(id).alive) by {
        lemma_drained_counters(root, id, tokens);
    }
    let ended = drained.disposed(id);
    assert(ended.has(id) && ended.fiber(id).current() is Disposed && !ended.fiber(id).alive
        && ended.fiber(id).error is None) by {
        lemma_transition_publishes(drained, id, FiberState::Disposed);
    }
    lemma_completed_fiber(ended, id, frees_slot);
}

/// A teardown kills the Fiber before its last generation is drained: nothing can
/// be registered while its cleanups run.
pub proof fn law_a_fiber_dies_before_its_drain(root: RootView, id: FiberId)
    requires
        root.has(id),
    ensures
        !root.closing(id).fiber(id).alive,
        !root.closing(id).admits(id),
        root.closing(id).fiber(id).current() is Unloading,
        root.closing(id).fiber(id).slot.target is None,
{
    lemma_transition_publishes(root, id, FiberState::Unloading);
}

/// Disposing a Fiber whose disposal is complete changes nothing.
pub proof fn law_a_repeated_disposal_changes_nothing(d: DisposalView, root: RootView)
    requires
        d.phase is Claim,
        root.fiber(d.fiber).dispose_complete,
    ensures
        d.step(root).root == root,
        d.step(root).action is None,
{
}

/// A disposal that meets an earlier terminal claim changes nothing and is over
/// only once that claim's barrier is complete.
pub proof fn law_a_racing_disposal_joins_the_first(d: DisposalView, root: RootView)
    requires
        d.phase is Claim,
        root.fiber(d.fiber).disposing,
        root.fiber(d.fiber).slot.inertia is Idle,
    ensures
        d.step(root).root == root,
        d.step(root).action is None == root.fiber(d.fiber).dispose_complete,
{
}

} // verus!
