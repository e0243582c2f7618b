//! Lifecycle passes: the convergence of a drifted Fiber, the initial pass of a
//! creation, and the same-Fiber replacement of a generation. Each holds the
//! Fiber's settle slot and gives it back only once the live target is the one it
//! settled.

use crate::dispose::{
    law_a_disposal_is_a_full_barrier, lemma_disposal_keeps_fibers, lemma_disposal_step_room,
    lemma_with_fiber_room, Disposal, DisposalPhaseView, DisposalView,
};
use crate::effect::DisposableToken;
use crate::fiber::FiberView;
use crate::ids::FiberId;
use crate::inertia::{Inertia, InertiaView, SemanticTarget, TargetView};
use crate::lifecycle::{PluginFailure, PluginFailureKind, PluginFailureView};
use crate::root::{lemma_same_counters_room, Root, RootView};
use crate::settle::{
    action_view, law_a_settle_ends_active_pending_or_failed, lemma_room_less,
    lemma_settle_step_room, Action, ActionView, Reply, ReplyView, Settle, SettleView,
};
use crate::state::FiberState;
use vstd::prelude::*;

verus! {

impl RootView {
    /// Whether the Fiber's live target is another than the one settled.
    pub open spec fn drifts(self, id: FiberId, settled: TargetView) -> bool {
        match self.target(id) {
            Some(live) => live != settled,
            None => false,
        }
    }

    /// The Runtime after a holder judged drift at its release boundary.
    pub open spec fn exiting(self, id: FiberId, settled: TargetView) -> RootView {
        let fiber = self.fiber(id);
        match self.target(id) {
            Some(live) => self.with_fiber(
                id,
                FiberView { slot: fiber.slot.exited(live, settled), ..fiber },
            ),
            None => self.abandoning(id),
        }
    }

    /// The Runtime with the target recorded that a holder settles toward.
    pub open spec fn aiming(self, id: FiberId, target: TargetView) -> RootView {
        let fiber = self.fiber(id);
        self.with_fiber(id, FiberView { slot: fiber.slot.aiming(target), ..fiber })
    }
}

/// A judged release changes no counter.
proof fn lemma_exiting_room(root: RootView, id: FiberId, settled: TargetView, n: nat)
    requires
        root.has(id),
        root.room(n),
    ensures
        root.exiting(id, settled).room(n),
        root.exiting(id, settled).fibers.len() == root.fibers.len(),
{
    assert(root.same_counters(root.exiting(id, settled)));
    lemma_same_counters_room(root, root.exiting(id, settled), n);
}

impl Root {
    /// The exit recheck of a pass: hands out the live target on drift, with the
    /// slot still held; otherwise the slot is idle.
    pub fn exit_recheck(&mut self, id: FiberId, settled: &SemanticTarget) -> (drift: Option<
        SemanticTarget,
    >)
        requires
            old(self).wf(),
            old(self)@.has(id),
        ensures
            final(self).wf(),
            match drift {
                Some(live) => old(self)@.drifts(id, settled@) && old(self)@.target(id) == Some(
                    live@,
                ),
                None => !old(self)@.drifts(id, settled@),
            },
            final(self)@ == old(self)@.exiting(id, settled@),
    {
        match self.compute_target(id) {
            Some(live) => {
                let revision = self.fiber(id).slot.recheck_revision();
                if self.fiber_mut(id).slot.exit_recheck(&live, settled, revision) {
                    Some(live)
                } else {
                    None
                }
            },
            None => {
                self.fiber_mut(id).slot.abandon();
                None
            },
        }
    }
}

/// A convergence pass: settles toward the recorded target until the live target
/// is the one it settled.
pub struct ConvergencePass {
    settle: Settle,
}

/// What one step of a convergence pass comes to.
#[verifier::ext_equal]
pub struct ConvergenceStep {
    /// The Runtime after it.
    pub root: RootView,
    /// The settle the pass is at.
    pub settle: SettleView,
    /// What the host does next; `None` when the pass is over.
    pub action: Option<ActionView>,
}

impl View for ConvergencePass {
    type V = SettleView;

    closed spec fn view(&self) -> SettleView {
        self.settle@
    }
}

/// What a pass does once its settle is over: it settles on toward the live target
/// after drift, and is over with the slot idle otherwise.
pub open spec fn converged(settle: SettleView, root: RootView) -> ConvergenceStep {
    if root.drifts(settle.fiber, settle.target) {
        ConvergenceStep {
            root: root.exiting(settle.fiber, settle.target),
            settle: SettleView::begin(
                settle.fiber,
                root.target(settle.fiber).unwrap(),
                settle.owns_first_apply,
            ),
            action: Some(ActionView::Again),
        }
    } else {
        ConvergenceStep {
            root: root.exiting(settle.fiber, settle.target),
            settle,
            action: None,
        }
    }
}

/// One step of a convergence pass.
pub open spec fn convergence_step(
    settle: SettleView,
    root: RootView,
    reply: ReplyView,
) -> ConvergenceStep {
    let step = settle.step(root, reply);
    let after = SettleView { phase: step.phase, ..settle };
    match step.action {
        Some(action) => ConvergenceStep { root: step.root, settle: after, action: Some(action) },
        None => converged(after, step.root),
    }
}

impl ConvergencePass {
    /// The pass of a Fiber whose slot a drive has claimed and aimed; none where no
    /// target is recorded.
    pub fn new(root: &Root, id: FiberId) -> (r: Option<ConvergencePass>)
        requires
            root@.has(id),
        ensures
            match root@.fiber(id).slot.target {
                Some(target) => r matches Some(pass) && pass@ == SettleView::begin(
                    id,
                    target,
                    false,
                ),
                None => r is None,
            },
    {
        match root.fiber(id).slot.current_target() {
            Some(target) => Some(ConvergencePass { settle: Settle::new(id, target, false) }),
            None => None,
        }
    }

    /// Goes on with the host's answer; says what the host does next, or nothing
    /// when the pass is over.
    pub fn step(&mut self, root: &mut Root, reply: Reply) -> (r: Option<Action>)
        requires
            old(root).wf(),
            old(root)@.has(old(self)@.fiber),
            old(root)@.room(2),
        ensures
            final(root).wf(),
            final(root)@ == convergence_step(old(self)@, old(root)@, reply@).root,
            final(self)@ == convergence_step(old(self)@, old(root)@, reply@).settle,
            action_view(r) == convergence_step(old(self)@, old(root)@, reply@).action,
    {
        let id = self.settle.fiber();
        proof {
            lemma_settle_step_room(self@, root@, reply@, 0);
        }
        match self.settle.step(root, reply) {
            Some(action) => Some(action),
            None => match root.exit_recheck(id, self.settle.target()) {
                Some(live) => {
                    self.settle = Settle::new(id, live, self.settle.owns_first_apply());
                    Some(Action::Again)
                },
                None => None,
            },
        }
    }
}

/// A convergence pass is over only with the settle slot idle, every committed
/// recheck settled, and the live target the one it settled: nothing that changed
/// meanwhile is lost.
pub proof fn law_a_pass_ends_converged(settle: SettleView, root: RootView, reply: ReplyView)
    requires
        root.has(settle.fiber),
        root.room(2),
        convergence_step(settle, root, reply).action is None,
        settle.step(root, reply).root.fiber(settle.fiber).spawn is Some,
    ensures
        ({
            let after = convergence_step(settle, root, reply).root;
            let slot = after.fiber(settle.fiber).slot;
            &&& slot.inertia is Idle
            &&& !slot.outstanding()
            &&& settle.step(root, reply).root.target(settle.fiber) == Some(settle.target)
        }),
{
    lemma_settle_step_room(settle, root, reply, 0);
}

/// How the initial pass of a creation ended.
pub enum InitialOutcome {
    /// The Fiber settled active and stayed settled through the release.
    Active,
    /// Required Services are missing; no apply ran.
    Pending,
    /// The first apply failed; the attempted Fiber is torn down and unlinked.
    Failed(PluginFailure),
    /// Framework invalidation disposed the attempted Fiber.
    Interrupted,
}

/// How the initial pass ended, as a mathematical value.
pub enum InitialOutcomeView {
    Active,
    Pending,
    Failed(PluginFailureView),
    Interrupted,
}

impl View for InitialOutcome {
    type V = InitialOutcomeView;

    open spec fn view(&self) -> InitialOutcomeView {
        match self {
            InitialOutcome::Active => InitialOutcomeView::Active,
            InitialOutcome::Pending => InitialOutcomeView::Pending,
            InitialOutcome::Failed(failure) => InitialOutcomeView::Failed(failure@),
            InitialOutcome::Interrupted => InitialOutcomeView::Interrupted,
        }
    }
}

/// Where an initial pass stands.
pub enum InitialPhase {
    /// It waits for the settle slot.
    Claim,
    /// It settles.
    Settling(Settle),
    /// The first apply failed; the attempted Fiber is torn down.
    Tearing(Disposal, PluginFailure),
    /// It is over.
    Over(InitialOutcome),
}

/// Where an initial pass stands, as a mathematical value.
#[verifier::ext_equal]
pub enum InitialPhaseView {
    Claim,
    Settling(SettleView),
    Tearing(DisposalView, PluginFailureView),
    Over(InitialOutcomeView),
}

impl View for InitialPhase {
    type V = InitialPhaseView;

    open spec fn view(&self) -> InitialPhaseView {
        match self {
            InitialPhase::Claim => InitialPhaseView::Claim,
            InitialPhase::Settling(settle) => InitialPhaseView::Settling(settle@),
            InitialPhase::Tearing(disposal, failure) => InitialPhaseView::Tearing(
                disposal@,
                failure@,
            ),
            InitialPhase::Over(outcome) => InitialPhaseView::Over(outcome@),
        }
    }
}

/// The initial pass of a freshly spawned Fiber: it alone may run the first apply,
/// and it converges inline until the release recheck is clean.
pub struct InitialPass {
    fiber: FiberId,
    phase: InitialPhase,
}

/// An initial pass as a mathematical value.
#[verifier::ext_equal]
pub struct InitialPassView {
    pub fiber: FiberId,
    pub phase: InitialPhaseView,
}

/// What one step of an initial pass comes to.
#[verifier::ext_equal]
pub struct InitialStep {
    /// The Runtime after it.
    pub root: RootView,
    /// Where the pass stands after it.
    pub phase: InitialPhaseView,
    /// What the host does next; `None` when the pass is over.
    pub action: Option<ActionView>,
}

impl View for InitialPass {
    type V = InitialPassView;

    closed spec fn view(&self) -> InitialPassView {
        InitialPassView { fiber: self.fiber, phase: self.phase@ }
    }
}

/// The failure reported where an apply failed without one.
pub open spec fn unparked_failure() -> PluginFailureView {
    PluginFailureView {
        kind: PluginFailureKind::ReturnedError,
        diagnostic: "plugin failed without a parked failure"@,
    }
}

impl RootView {
    /// The Runtime with the creation's ownership mark on a settle slot set or
    /// cleared.
    pub open spec fn owning(self, id: FiberId, owned: bool) -> RootView {
        let fiber = self.fiber(id);
        self.with_fiber(
            id,
            FiberView { slot: InertiaView { creation_owned: owned, ..fiber.slot }, ..fiber },
        )
    }

    /// The Runtime with a target recorded unless one is recorded already.
    pub open spec fn aiming_if_untouched(self, id: FiberId, target: TargetView) -> RootView {
        if self.fiber(id).slot.target is None {
            self.aiming(id, target)
        } else {
            self
        }
    }

    /// The failure a failed first apply reports.
    pub open spec fn first_failure(self, id: FiberId) -> PluginFailureView {
        match self.fiber(id).error {
            Some(failure) => failure,
            None => unparked_failure(),
        }
    }
}

impl InitialPassView {
    /// The end of a pass.
    pub open spec fn over(self, root: RootView, outcome: InitialOutcomeView) -> InitialStep {
        InitialStep { root, phase: InitialPhaseView::Over(outcome), action: None }
    }

    /// The release of a pass that reached `outcome`: after drift it settles on.
    pub open spec fn releasing(
        self,
        root: RootView,
        settled: TargetView,
        outcome: InitialOutcomeView,
    ) -> InitialStep {
        let exited = root.exiting(self.fiber, settled);
        if root.drifts(self.fiber, settled) {
            InitialStep {
                root: exited,
                phase: InitialPhaseView::Settling(
                    SettleView::begin(self.fiber, root.target(self.fiber).unwrap(), true),
                ),
                action: Some(ActionView::Again),
            }
        } else {
            self.over(exited.owning(self.fiber, false), outcome)
        }
    }

    /// While the attempted Fiber of a failed creation is torn down; the slot is
    /// held until the teardown is complete.
    pub open spec fn tearing(
        self,
        root: RootView,
        disposal: DisposalView,
        failure: PluginFailureView,
    ) -> InitialStep {
        let step = disposal.step(root);
        match step.action {
            Some(action) => InitialStep {
                root: step.root,
                phase: InitialPhaseView::Tearing(
                    DisposalView { phase: step.phase, ..disposal },
                    failure,
                ),
                action: Some(action),
            },
            None => self.over(
                step.root.owning(self.fiber, false).abandoning(self.fiber),
                InitialOutcomeView::Failed(failure),
            ),
        }
    }

    /// Once a settle is over.
    pub open spec fn settled(self, root: RootView, target: TargetView) -> InitialStep {
        if target.has_missing() {
            self.releasing(
                root.aiming_if_untouched(self.fiber, target),
                target,
                InitialOutcomeView::Pending,
            )
        } else {
            let aimed = root.aiming(self.fiber, target);
            if aimed.fiber(self.fiber).current() is Failed {
                self.tearing(
                    aimed.parking(self.fiber, None),
                    DisposalView {
                        fiber: self.fiber,
                        phase: DisposalPhaseView::Begin { frees_slot: false },
                    },
                    aimed.first_failure(self.fiber),
                )
            } else {
                self.releasing(aimed, target, InitialOutcomeView::Active)
            }
        }
    }

    /// While the pass settles.
    pub open spec fn settling(
        self,
        root: RootView,
        settle: SettleView,
        reply: ReplyView,
    ) -> InitialStep {
        let step = settle.step(root, reply);
        match step.action {
            Some(action) => InitialStep {
                root: step.root,
                phase: InitialPhaseView::Settling(SettleView { phase: step.phase, ..settle }),
                action: Some(action),
            },
            None => self.settled(step.root, settle.target),
        }
    }

    /// When the pass wants the slot. A Fiber that died, or that has no record, is
    /// unlinked and reported as interrupted.
    pub open spec fn claiming(self, root: RootView, reply: ReplyView) -> InitialStep {
        let fiber = root.fiber(self.fiber);
        if !(fiber.slot.inertia is Idle) {
            InitialStep { root, phase: InitialPhaseView::Claim, action: Some(ActionView::Wait) }
        } else {
            match root.target(self.fiber) {
                Some(target) => if fiber.alive {
                    let held = root.holding(self.fiber).owning(self.fiber, true);
                    self.settling(held, SettleView::begin(self.fiber, target, true), reply)
                } else {
                    self.over(root.unlinking(self.fiber), InitialOutcomeView::Interrupted)
                },
                None => self.over(root.unlinking(self.fiber), InitialOutcomeView::Interrupted),
            }
        }
    }

    /// One step of an initial pass.
    pub open spec fn step(self, root: RootView, reply: ReplyView) -> InitialStep {
        match self.phase {
            InitialPhaseView::Claim => self.claiming(root, reply),
            InitialPhaseView::Settling(settle) => self.settling(root, settle, reply),
            InitialPhaseView::Tearing(disposal, failure) => self.tearing(root, disposal, failure),
            InitialPhaseView::Over(outcome) => self.over(root, outcome),
        }
    }

    /// The Fiber of the pass is the Fiber of the work inside it.
    pub open spec fn wf(self) -> bool {
        match self.phase {
            InitialPhaseView::Settling(settle) => settle.fiber == self.fiber,
            InitialPhaseView::Tearing(disposal, _) => disposal.fiber == self.fiber,
            _ => true,
        }
    }
}

proof fn lemma_slot_room(root: RootView, id: FiberId, slot: InertiaView, n: nat)
    requires
        root.has(id),
        root.room(n),
    ensures
        root.with_fiber(id, FiberView { slot, ..root.fiber(id) }).room(n),
        root.with_fiber(id, FiberView { slot, ..root.fiber(id) }).fibers.len()
            == root.fibers.len(),
{
    lemma_with_fiber_room(root, id, FiberView { slot, ..root.fiber(id) }, n);
}

proof fn lemma_unlinking_room(root: RootView, id: FiberId, n: nat)
    requires
        root.has(id),
        root.room(n),
    ensures
        root.unlinking(id).room(n),
        root.unlinking(id).fibers.len() == root.fibers.len(),
{
    assert(root.same_counters(root.unlinking(id)));
    lemma_same_counters_room(root, root.unlinking(id), n);
}

proof fn lemma_releasing_room(
    p: InitialPassView,
    root: RootView,
    settled: TargetView,
    outcome: InitialOutcomeView,
    n: nat,
)
    requires
        root.has(p.fiber),
        root.room(n),
    ensures
        p.releasing(root, settled, outcome).root.room(n),
        p.releasing(root, settled, outcome).root.fibers.len() == root.fibers.len(),
{
    lemma_exiting_room(root, p.fiber, settled, n);
    let exited = root.exiting(p.fiber, settled);
    lemma_slot_room(
        exited,
        p.fiber,
        InertiaView { creation_owned: false, ..exited.fiber(p.fiber).slot },
        n,
    );
}

proof fn lemma_tearing_room(
    p: InitialPassView,
    root: RootView,
    disposal: DisposalView,
    failure: PluginFailureView,
    n: nat,
)
    requires
        root.has(p.fiber),
        disposal.fiber == p.fiber,
        root.room(n + 2),
    ensures
        p.tearing(root, disposal, failure).root.room(n),
        p.tearing(root, disposal, failure).root.fibers.len() == root.fibers.len(),
{
    lemma_disposal_step_room(disposal, root, n);
    let step = disposal.step(root);
    let unowned = step.root.owning(p.fiber, false);
    lemma_slot_room(step.root, p.fiber, unowned.fiber(p.fiber).slot, n);
    lemma_slot_room(
        unowned,
        p.fiber,
        InertiaView { inertia: Inertia::Idle, ..unowned.fiber(p.fiber).slot },
        n,
    );
}

proof fn lemma_initial_settled_room(
    p: InitialPassView,
    root: RootView,
    target: TargetView,
    n: nat,
)
    requires
        root.has(p.fiber),
        root.room(n + 2),
    ensures
        p.settled(root, target).root.room(n),
        p.settled(root, target).root.fibers.len() == root.fibers.len(),
{
    let id = p.fiber;
    lemma_room_less(root, n + 1);
    lemma_room_less(root, n);
    let aimed = root.aiming(id, target);
    lemma_slot_room(root, id, aimed.fiber(id).slot, n + 2);
    lemma_slot_room(root, id, aimed.fiber(id).slot, n);
    lemma_releasing_room(p, aimed, target, InitialOutcomeView::Pending, n);
    lemma_releasing_room(p, aimed, target, InitialOutcomeView::Active, n);
    lemma_releasing_room(p, root, target, InitialOutcomeView::Pending, n);
    let unparked = aimed.parking(id, None);
    lemma_with_fiber_room(aimed, id, unparked.fiber(id), n + 2);
    lemma_tearing_room(
        p,
        unparked,
        DisposalView { fiber: id, phase: DisposalPhaseView::Begin { frees_slot: false } },
        aimed.first_failure(id),
        n,
    );
}

proof fn lemma_initial_settling_room(
    p: InitialPassView,
    root: RootView,
    settle: SettleView,
    reply: ReplyView,
    n: nat,
)
    requires
        root.has(p.fiber),
        settle.fiber == p.fiber,
        root.room(n + 4),
    ensures
        p.settling(root, settle, reply).root.room(n),
        p.settling(root, settle, reply).root.fibers.len() == root.fibers.len(),
{
    lemma_settle_step_room(settle, root, reply, n + 2);
    let step = settle.step(root, reply);
    lemma_room_less(step.root, n + 1);
    lemma_room_less(step.root, n);
    lemma_initial_settled_room(p, step.root, settle.target, n);
}

/// One step of an initial pass uses up at most four steps of room.
pub proof fn lemma_initial_step_room(
    p: InitialPassView,
    root: RootView,
    reply: ReplyView,
    n: nat,
)
    requires
        root.has(p.fiber),
        p.wf(),
        root.room(n + 4),
    ensures
        p.step(root, reply).root.room(n),
        p.step(root, reply).root.fibers.len() == root.fibers.len(),
{
    let id = p.fiber;
    lemma_room_less(root, n + 3);
    lemma_room_less(root, n + 2);
    lemma_room_less(root, n + 1);
    lemma_room_less(root, n);
    match p.phase {
        InitialPhaseView::Claim => {
            let held = root.holding(id);
            lemma_slot_room(root, id, held.fiber(id).slot, n + 4);
            let owned = held.owning(id, true);
            lemma_slot_room(held, id, owned.fiber(id).slot, n + 4);
            match root.target(id) {
                Some(target) => {
                    lemma_initial_settling_room(
                        p,
                        owned,
                        SettleView::begin(id, target, true),
                        reply,
                        n,
                    );
                },
                None => {},
            }
            lemma_unlinking_room(root, id, n);
        },
        InitialPhaseView::Settling(settle) => {
            lemma_initial_settling_room(p, root, settle, reply, n);
        },
        InitialPhaseView::Tearing(disposal, failure) => {
            lemma_tearing_room(p, root, disposal, failure, n);
        },
        InitialPhaseView::Over(outcome) => {},
    }
}

impl InitialPass {
    /// The initial pass of a freshly spawned Fiber.
    pub fn new(fiber: FiberId) -> (r: InitialPass)
        ensures
            r@ == (InitialPassView { fiber, phase: InitialPhaseView::Claim }),
    {
        InitialPass { fiber, phase: InitialPhase::Claim }
    }

    /// The Fiber of the pass.
    pub fn fiber(&self) -> (r: FiberId)
        ensures
            r == self@.fiber,
    {
        self.fiber
    }

    /// How the pass ended, once it is over.
    pub fn outcome(self) -> (r: Option<InitialOutcome>)
        ensures
            match self@.phase {
                InitialPhaseView::Over(outcome) => r matches Some(o) && o@ == outcome,
                _ => r is None,
            },
    {
        match self.phase {
            InitialPhase::Over(outcome) => Some(outcome),
            _ => None,
        }
    }

    fn release(&mut self, root: &mut Root, settled: &SemanticTarget, outcome: InitialOutcome) -> (r:
        Option<Action>)
        requires
            old(root).wf(),
            old(root)@.has(old(self)@.fiber),
        ensures
            final(root).wf(),
            final(root)@ == old(self)@.releasing(old(root)@, settled@, outcome@).root,
            final(self)@ == (InitialPassView {
                phase: old(self)@.releasing(old(root)@, settled@, outcome@).phase,
                ..old(self)@
            }),
            action_view(r) == old(self)@.releasing(old(root)@, settled@, outcome@).action,
    {
        let id = self.fiber;
        match root.exit_recheck(id, settled) {
            Some(live) => {
                self.phase = InitialPhase::Settling(Settle::new(id, live, true));
                Some(Action::Again)
            },
            None => {
                root.fiber_mut(id).slot.set_creation_owned(false);
                self.phase = InitialPhase::Over(outcome);
                None
            },
        }
    }

    fn tear(&mut self, root: &mut Root, disposal: Disposal, failure: PluginFailure) -> (r: Option<
        Action,
    >)
        requires
            old(root).wf(),
            old(root)@.has(old(self)@.fiber),
            disposal@.fiber == old(self)@.fiber,
            old(root)@.room(2),
        ensures
            final(root).wf(),
            final(root)@ == old(self)@.tearing(old(root)@, disposal@, failure@).root,
            final(self)@ == (InitialPassView {
                phase: old(self)@.tearing(old(root)@, disposal@, failure@).phase,
                ..old(self)@
            }),
            action_view(r) == old(self)@.tearing(old(root)@, disposal@, failure@).action,
    {
        let id = self.fiber;
        let mut disposal = disposal;
        proof {
            lemma_disposal_step_room(disposal@, root@, 0);
        }
        match disposal.step(root) {
            Some(action) => {
                self.phase = InitialPhase::Tearing(disposal, failure);
                Some(action)
            },
            None => {
                root.fiber_mut(id).slot.set_creation_owned(false);
                root.fiber_mut(id).slot.abandon();
                self.phase = InitialPhase::Over(InitialOutcome::Failed(failure));
                None
            },
        }
    }

    fn judge(&mut self, root: &mut Root, target: SemanticTarget) -> (r: Option<Action>)
        requires
            old(root).wf(),
            old(root)@.has(old(self)@.fiber),
            old(root)@.room(2),
        ensures
            final(root).wf(),
            final(root)@ == old(self)@.settled(old(root)@, target@).root,
            final(self)@ == (InitialPassView {
                phase: old(self)@.settled(old(root)@, target@).phase,
                ..old(self)@
            }),
            action_view(r) == old(self)@.settled(old(root)@, target@).action,
    {
        let id = self.fiber;
        if target.has_missing() {
            root.fiber_mut(id).slot.mark_pending_if_untouched(&target);
            assert(root@ =~= old(root)@.aiming_if_untouched(id, target@));
            return self.release(root, &target, InitialOutcome::Pending);
        }
        root.fiber_mut(id).slot.record_target(target.duplicate());
        let ghost aimed = root@;
        assert(aimed =~= old(root)@.aiming(id, target@));
        if root.fiber(id).state.current() == FiberState::Failed {
            let failure = match root.fiber(id).parked_failure() {
                Some(failure) => failure,
                None => PluginFailure::returned(
                    "plugin failed without a parked failure".to_owned(),
                ),
            };
            assert(failure@ == aimed.first_failure(id));
            root.fiber_mut(id).error = None;
            proof {
                lemma_slot_room(old(root)@, id, aimed.fiber(id).slot, 2);
                lemma_with_fiber_room(aimed, id, aimed.parking(id, None).fiber(id), 2);
            }
            return self.tear(root, Disposal::creation_teardown(id), failure);
        }
        self.release(root, &target, InitialOutcome::Active)
    }

    fn settle(&mut self, root: &mut Root, settle: Settle, reply: Reply) -> (r: Option<Action>)
        requires
            old(root).wf(),
            old(root)@.has(old(self)@.fiber),
            settle@.fiber == old(self)@.fiber,
            old(root)@.room(4),
        ensures
            final(root).wf(),
            final(root)@ == old(self)@.settling(old(root)@, settle@, reply@).root,
            final(self)@ == (InitialPassView {
                phase: old(self)@.settling(old(root)@, settle@, reply@).phase,
                ..old(self)@
            }),
            action_view(r) == old(self)@.settling(old(root)@, settle@, reply@).action,
    {
        let mut settle = settle;
        proof {
            lemma_room_less(root@, 3);
            lemma_room_less(root@, 2);
            lemma_settle_step_room(settle@, root@, reply@, 2);
        }
        match settle.step(root, reply) {
            Some(action) => {
                self.phase = InitialPhase::Settling(settle);
                Some(action)
            },
            None => self.judge(root, settle.into_target()),
        }
    }

    fn claim(&mut self, root: &mut Root, reply: Reply) -> (r: Option<Action>)
        requires
            old(root).wf(),
            old(root)@.has(old(self)@.fiber),
            old(root)@.room(4),
        ensures
            final(root).wf(),
            final(root)@ == old(self)@.claiming(old(root)@, reply@).root,
            final(self)@ == (InitialPassView {
                phase: old(self)@.claiming(old(root)@, reply@).phase,
                ..old(self)@
            }),
            action_view(r) == old(self)@.claiming(old(root)@, reply@).action,
    {
        let id = self.fiber;
        if !root.fiber(id).slot.is_idle() {
            self.phase = InitialPhase::Claim;
            return Some(Action::Wait);
        }
        let alive = root.fiber(id).alive;
        match root.compute_target(id) {
            Some(target) => {
                if alive {
                    let _ = root.fiber_mut(id).slot.try_claim();
                    let ghost held = root@;
                    assert(held =~= old(root)@.holding(id));
                    root.fiber_mut(id).slot.set_creation_owned(true);
                    assert(root@ =~= held.owning(id, true));
                    proof {
                        lemma_slot_room(old(root)@, id, held.fiber(id).slot, 4);
                        lemma_slot_room(held, id, held.owning(id, true).fiber(id).slot, 4);
                    }
                    return self.settle(root, Settle::new(id, target, true), reply);
                }
            },
            None => {},
        }
        root.release_residency(id);
        self.phase = InitialPhase::Over(InitialOutcome::Interrupted);
        None
    }

    /// Goes on with the host's answer; says what the host does next, or nothing
    /// when the pass is over.
    pub fn step(&mut self, root: &mut Root, reply: Reply) -> (r: Option<Action>)
        requires
            old(root).wf(),
            old(root)@.has(old(self)@.fiber),
            old(self)@.wf(),
            old(root)@.room(4),
        ensures
            final(root).wf(),
            final(root)@ == old(self)@.step(old(root)@, reply@).root,
            final(self)@ == (InitialPassView {
                phase: old(self)@.step(old(root)@, reply@).phase,
                ..old(self)@
            }),
            final(self)@.wf(),
            action_view(r) == old(self)@.step(old(root)@, reply@).action,
    {
        proof {
            lemma_room_less(root@, 3);
            lemma_room_less(root@, 2);
        }
        let mut phase = InitialPhase::Claim;
        std::mem::swap(&mut phase, &mut self.phase);
        match phase {
            InitialPhase::Claim => self.claim(root, reply),
            InitialPhase::Settling(settle) => self.settle(root, settle, reply),
            InitialPhase::Tearing(disposal, failure) => self.tear(root, disposal, failure),
            InitialPhase::Over(outcome) => {
                self.phase = InitialPhase::Over(outcome);
                None
            },
        }
    }
}

/// A pass that hands a Fiber off as active or pending leaves its slot idle, with
/// no recheck outstanding and no ownership mark behind.
pub proof fn law_a_creation_hands_off_a_quiescent_fiber(
    p: InitialPassView,
    root: RootView,
    settled: TargetView,
    outcome: InitialOutcomeView,
)
    requires
        root.has(p.fiber),
        root.fiber(p.fiber).spawn is Some,
        p.releasing(root, settled, outcome).action is None,
    ensures
        ({
            let slot = p.releasing(root, settled, outcome).root.fiber(p.fiber).slot;
            &&& slot.inertia is Idle
            &&& !slot.outstanding()
            &&& !slot.creation_owned
            &&& root.target(p.fiber) == Some(settled)
        }),
{
}

proof fn lemma_releasing_keeps(
    p: InitialPassView,
    root: RootView,
    settled: TargetView,
    outcome: InitialOutcomeView,
)
    requires
        root.has(p.fiber),
    ensures
        ({
            let step = p.releasing(root, settled, outcome);
            let after = step.root.fiber(p.fiber);
            &&& after.state == root.fiber(p.fiber).state
            &&& after.error == root.fiber(p.fiber).error
            &&& step.action is None ==> step.phase == InitialPhaseView::Over(outcome)
        }),
{
}

proof fn lemma_tearing_ends_failed(
    p: InitialPassView,
    root: RootView,
    disposal: DisposalView,
    failure: PluginFailureView,
)
    requires
        p.tearing(root, disposal, failure).action is None,
    ensures
        p.tearing(root, disposal, failure).phase == InitialPhaseView::Over(
            InitialOutcomeView::Failed(failure),
        ),
{
}

proof fn lemma_settled_ends(p: InitialPassView, root: RootView, target: TargetView)
    requires
        root.has(p.fiber),
        p.settled(root, target).action is None,
        SettleView::begin(p.fiber, target, true).reached(root.fiber(p.fiber)),
    ensures
        ({
            let step = p.settled(root, target);
            let after = step.root.fiber(p.fiber);
            match step.phase {
                InitialPhaseView::Over(InitialOutcomeView::Active) => after.current() is Active
                    && after.error is None && !target.has_missing(),
                InitialPhaseView::Over(InitialOutcomeView::Pending) => after.current() is Pending
                    && after.error is None && target.has_missing(),
                InitialPhaseView::Over(InitialOutcomeView::Failed(_)) => !target.has_missing(),
                _ => false,
            }
        }),
{
    if target.has_missing() {
        lemma_releasing_keeps(
            p,
            root.aiming_if_untouched(p.fiber, target),
            target,
            InitialOutcomeView::Pending,
        );
    } else {
        let aimed = root.aiming(p.fiber, target);
        if aimed.fiber(p.fiber).current() is Failed {
            lemma_tearing_ends_failed(
                p,
                aimed.parking(p.fiber, None),
                DisposalView {
                    fiber: p.fiber,
                    phase: DisposalPhaseView::Begin { frees_slot: false },
                },
                aimed.first_failure(p.fiber),
            );
        } else {
            lemma_releasing_keeps(p, aimed, target, InitialOutcomeView::Active);
        }
    }
}

/// A creation whose settle is over and that does not settle on after drift ends in
/// one of three ways: the Fiber is active with every assignment present, pending
/// with one missing, or its first apply failed.
pub proof fn law_a_creation_ends_active_pending_or_failed(
    p: InitialPassView,
    root: RootView,
    settle: SettleView,
    reply: ReplyView,
)
    requires
        root.has(p.fiber),
        root.fiber(p.fiber).alive,
        settle.fiber == p.fiber,
        settle.owns_first_apply,
        settle.coherent(root),
        p.settling(root, settle, reply).action is None,
    ensures
        ({
            let step = p.settling(root, settle, reply);
            let after = step.root.fiber(p.fiber);
            match step.phase {
                InitialPhaseView::Over(InitialOutcomeView::Active) => after.current() is Active
                    && after.error is None && !settle.target.has_missing(),
                InitialPhaseView::Over(InitialOutcomeView::Pending) => after.current() is Pending
                    && after.error is None && settle.target.has_missing(),
                InitialPhaseView::Over(InitialOutcomeView::Failed(_)) => {
                    !settle.target.has_missing()
                },
                _ => false,
            }
        }),
{
    law_a_settle_ends_active_pending_or_failed(settle, root, reply);
    lemma_settled_ends(p, settle.step(root, reply).root, settle.target);
}

/// A failed creation reports its failure only once the attempted Fiber is dead,
/// disposed and unlinked, and its slot given back. In a consistent Runtime it is no
/// resident any more.
pub proof fn law_a_failed_creation_leaves_no_resident(
    p: InitialPassView,
    root: RootView,
    frees_slot: bool,
    tokens: Seq<DisposableToken>,
    failure: PluginFailureView,
)
    requires
        root.has(p.fiber),
        !root.fiber(p.fiber).alive,
        p.tearing(
            root,
            DisposalView {
                fiber: p.fiber,
                phase: DisposalPhaseView::Draining { frees_slot, tokens },
            },
            failure,
        ).action is None,
    ensures
        ({
            let step = p.tearing(
                root,
                DisposalView {
                    fiber: p.fiber,
                    phase: DisposalPhaseView::Draining { frees_slot, tokens },
                },
                failure,
            );
            let after = step.root.fiber(p.fiber);
            &&& step.phase == InitialPhaseView::Over(InitialOutcomeView::Failed(failure))
            &&& after.current() is Disposed
            &&& !after.alive
            &&& after.residency is None
            &&& after.dispose_complete
            &&& after.slot.inertia is Idle
            &&& root.sound() ==> !step.root.registry.residents.contains(p.fiber)
        }),
{
    let disposal = DisposalView {
        fiber: p.fiber,
        phase: DisposalPhaseView::Draining { frees_slot, tokens },
    };
    law_a_disposal_is_a_full_barrier(disposal, root, frees_slot, tokens);
    let ended = disposal.step(root).root;
    assert(ended.has(p.fiber)) by {
        lemma_disposal_keeps_fibers(disposal, root, frees_slot, tokens);
    }
    let unowned = ended.owning(p.fiber, false);
    assert(unowned.fiber(p.fiber) == (FiberView {
        slot: unowned.fiber(p.fiber).slot,
        ..ended.fiber(p.fiber)
    }));
}

} // verus!
