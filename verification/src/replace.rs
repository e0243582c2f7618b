//! Same-Fiber replacement of a generation: an explicit restart, or the commit of
//! an accepted change. The old generation is closed at the commit; the new one is
//! settled until it is quiescent.

use crate::dispose::lemma_with_fiber_room;
use crate::fiber::FiberView;
use crate::ids::FiberId;
use crate::inertia::TargetView;
use crate::lifecycle::{PluginFailure, PluginFailureView};
use crate::plugin::PreparedChange;
use crate::root::{Root, RootView};
use crate::settle::{
    action_view, lemma_settle_step_room, Action, ActionView, Reply, ReplyView, Settle, SettleView,
};
use crate::state::FiberState;
use vstd::prelude::*;

verus! {

/// How a replacement ended.
pub enum ReplacementOutcome {
    /// It was refused before its commit; nothing changed.
    Refused,
    /// The Fiber is quiescent in this state.
    Settled(FiberState),
    /// The new generation's apply failed.
    Failed(PluginFailure),
    /// The destructor of the superseded input panicked; the panic goes on in the
    /// caller.
    InputPanicked,
}

/// How a replacement ended, as a mathematical value.
pub enum ReplacementOutcomeView {
    Refused,
    Settled(FiberState),
    Failed(PluginFailureView),
    InputPanicked,
}

impl View for ReplacementOutcome {
    type V = ReplacementOutcomeView;

    open spec fn view(&self) -> ReplacementOutcomeView {
        match self {
            ReplacementOutcome::Refused => ReplacementOutcomeView::Refused,
            ReplacementOutcome::Settled(state) => ReplacementOutcomeView::Settled(*state),
            ReplacementOutcome::Failed(failure) => ReplacementOutcomeView::Failed(failure@),
            ReplacementOutcome::InputPanicked => ReplacementOutcomeView::InputPanicked,
        }
    }
}

/// Where a replacement stands.
pub enum ReplacementPhase {
    /// It waits for the settle slot; with a change it is an update, without one a
    /// restart.
    Claim(Option<PreparedChange>),
    /// The change is committed; the superseded input is being destroyed.
    Committed,
    /// It settles.
    Settling(Settle),
    /// It is over.
    Over(ReplacementOutcome),
}

/// Where a replacement stands, as a mathematical value.
#[verifier::ext_equal]
pub enum ReplacementPhaseView {
    Claim(Option<PreparedChange>),
    Committed,
    Settling(SettleView),
    Over(ReplacementOutcomeView),
}

impl View for ReplacementPhase {
    type V = ReplacementPhaseView;

    open spec fn view(&self) -> ReplacementPhaseView {
        match self {
            ReplacementPhase::Claim(change) => ReplacementPhaseView::Claim(*change),
            ReplacementPhase::Committed => ReplacementPhaseView::Committed,
            ReplacementPhase::Settling(settle) => ReplacementPhaseView::Settling(settle@),
            ReplacementPhase::Over(outcome) => ReplacementPhaseView::Over(outcome@),
        }
    }
}

/// One same-Fiber replacement.
pub struct ReplacementPass {
    fiber: FiberId,
    phase: ReplacementPhase,
}

/// A replacement as a mathematical value.
#[verifier::ext_equal]
pub struct ReplacementView {
    pub fiber: FiberId,
    pub phase: ReplacementPhaseView,
}

/// What one step of a replacement comes to.
#[verifier::ext_equal]
pub struct ReplacementStep {
    /// The Runtime after it.
    pub root: RootView,
    /// Where the replacement stands after it.
    pub phase: ReplacementPhaseView,
    /// What the host does next; `None` when it is over.
    pub action: Option<ActionView>,
}

impl View for ReplacementPass {
    type V = ReplacementView;

    closed spec fn view(&self) -> ReplacementView {
        ReplacementView { fiber: self.fiber, phase: self.phase@ }
    }
}

impl RootView {
    /// The Runtime with a Fiber's settle slot claimed for a replacement: its old
    /// generation is closed at once.
    pub open spec fn replacing(self, id: FiberId) -> RootView {
        let held = self.holding(id);
        held.with_fiber(id, FiberView { generation_replacing: true, ..held.fiber(id) })
    }

    /// Whether a Fiber's seal accepts a change.
    pub open spec fn accepts(self, id: FiberId, change: PreparedChange) -> bool {
        match self.fiber(id).spawn {
            Some(s) => s.accepts(change),
            None => false,
        }
    }

    /// The Runtime after a change was committed on a Fiber: its input is replaced
    /// under a fresh identity and its old generation is closed.
    pub open spec fn committing(self, id: FiberId, change: PreparedChange) -> RootView {
        let replaced = self.replacing(id);
        let fiber = replaced.fiber(id);
        RootView {
            next: (self.next + 1) as u64,
            ..replaced.with_fiber(
                id,
                FiberView {
                    spawn: Some(fiber.spawn.unwrap().changed(change, self.next)),
                    ..fiber
                },
            )
        }
    }

    /// What a replacement reports: the parked failure, or the state reached.
    pub open spec fn replacement_outcome(self, id: FiberId) -> ReplacementOutcomeView {
        match self.fiber(id).error {
            Some(failure) => ReplacementOutcomeView::Failed(failure),
            None => ReplacementOutcomeView::Settled(self.fiber(id).current()),
        }
    }
}

impl ReplacementView {
    /// The end of a replacement.
    pub open spec fn over(self, root: RootView, outcome: ReplacementOutcomeView) -> ReplacementStep {
        ReplacementStep { root, phase: ReplacementPhaseView::Over(outcome), action: None }
    }

    /// While the replacement settles: it keeps the slot through drift and reports
    /// only once the Fiber is quiescent.
    pub open spec fn settling(
        self,
        root: RootView,
        settle: SettleView,
        reply: ReplyView,
    ) -> ReplacementStep {
        let step = settle.step(root, reply);
        match step.action {
            Some(action) => ReplacementStep {
                root: step.root,
                phase: ReplacementPhaseView::Settling(SettleView { phase: step.phase, ..settle }),
                action: Some(action),
            },
            None => {
                let exited = step.root.exiting(self.fiber, settle.target);
                if step.root.drifts(self.fiber, settle.target) {
                    ReplacementStep {
                        root: exited,
                        phase: ReplacementPhaseView::Settling(
                            SettleView::begin(
                                self.fiber,
                                step.root.target(self.fiber).unwrap(),
                                false,
                            ),
                        ),
                        action: Some(ActionView::Again),
                    }
                } else {
                    self.over(exited, step.root.replacement_outcome(self.fiber))
                }
            },
        }
    }

    /// Settling toward the live target, with the slot held.
    pub open spec fn aimed(self, root: RootView, reply: ReplyView) -> ReplacementStep {
        match root.target(self.fiber) {
            Some(target) => self.settling(
                root.aiming(self.fiber, target),
                SettleView::begin(self.fiber, target, false),
                reply,
            ),
            None => self.over(root.abandoning(self.fiber), ReplacementOutcomeView::Refused),
        }
    }

    /// When the replacement wants the slot. A dead Fiber, one without a record,
    /// and a change its seal does not accept are refused.
    pub open spec fn claiming(
        self,
        root: RootView,
        change: Option<PreparedChange>,
        reply: ReplyView,
    ) -> ReplacementStep {
        let fiber = root.fiber(self.fiber);
        if !(fiber.slot.inertia is Idle) {
            ReplacementStep {
                root,
                phase: ReplacementPhaseView::Claim(change),
                action: Some(ActionView::Wait),
            }
        } else if !fiber.alive || fiber.spawn is None {
            self.over(root, ReplacementOutcomeView::Refused)
        } else {
            match change {
                None => self.aimed(root.replacing(self.fiber), reply),
                Some(c) => if root.accepts(self.fiber, c) {
                    ReplacementStep {
                        root: root.committing(self.fiber, c),
                        phase: ReplacementPhaseView::Committed,
                        action: Some(
                            ActionView::Release {
                                input: fiber.spawn.unwrap().plugin.state.unwrap().1,
                            },
                        ),
                    }
                } else {
                    self.over(root, ReplacementOutcomeView::Refused)
                },
            }
        }
    }

    /// Once the superseded input was destroyed. A panic of its destructor ends the
    /// replacement where it stands: the change is committed and the old generation
    /// closed, the slot stays held, and no target is recorded.
    pub open spec fn superseded(self, root: RootView, reply: ReplyView) -> ReplacementStep {
        match reply {
            ReplyView::Released { panicked } => if panicked {
                self.over(root, ReplacementOutcomeView::InputPanicked)
            } else {
                self.aimed(root, reply)
            },
            _ => ReplacementStep {
                root,
                phase: ReplacementPhaseView::Committed,
                action: Some(ActionView::Wait),
            },
        }
    }

    /// One step of a replacement.
    pub open spec fn step(self, root: RootView, reply: ReplyView) -> ReplacementStep {
        match self.phase {
            ReplacementPhaseView::Claim(change) => self.claiming(root, change, reply),
            ReplacementPhaseView::Committed => self.superseded(root, reply),
            ReplacementPhaseView::Settling(settle) => self.settling(root, settle, reply),
            ReplacementPhaseView::Over(outcome) => self.over(root, outcome),
        }
    }

    /// The Fiber of the replacement is the Fiber of the settle inside it.
    pub open spec fn wf(self) -> bool {
        match self.phase {
            ReplacementPhaseView::Settling(settle) => settle.fiber == self.fiber,
            _ => true,
        }
    }
}

proof fn lemma_replacing_room(root: RootView, id: FiberId, n: nat)
    requires
        root.has(id),
        root.room(n),
    ensures
        root.replacing(id).room(n),
        root.replacing(id).fibers.len() == root.fibers.len(),
{
    let held = root.holding(id);
    lemma_with_fiber_room(root, id, held.fiber(id), n);
    lemma_with_fiber_room(held, id, root.replacing(id).fiber(id), n);
}

proof fn lemma_aiming_room(root: RootView, id: FiberId, target: TargetView, n: nat)
    requires
        root.has(id),
        root.room(n),
    ensures
        root.aiming(id, target).room(n),
        root.aiming(id, target).fibers.len() == root.fibers.len(),
{
    lemma_with_fiber_room(root, id, root.aiming(id, target).fiber(id), n);
}

impl ReplacementPass {
    /// An explicit restart.
    pub fn restart(fiber: FiberId) -> (r: ReplacementPass)
        ensures
            r@ == (ReplacementView { fiber, phase: ReplacementPhaseView::Claim(None) }),
    {
        ReplacementPass { fiber, phase: ReplacementPhase::Claim(None) }
    }

    /// The commit of an accepted change.
    pub fn update(fiber: FiberId, change: PreparedChange) -> (r: ReplacementPass)
        ensures
            r@ == (ReplacementView { fiber, phase: ReplacementPhaseView::Claim(Some(change)) }),
    {
        ReplacementPass { fiber, phase: ReplacementPhase::Claim(Some(change)) }
    }

    /// The Fiber of the replacement.
    pub fn fiber(&self) -> (r: FiberId)
        ensures
            r == self@.fiber,
    {
        self.fiber
    }

    /// How the replacement ended, once it is over.
    pub fn outcome(self) -> (r: Option<ReplacementOutcome>)
        ensures
            match self@.phase {
                ReplacementPhaseView::Over(outcome) => r matches Some(o) && o@ == outcome,
                _ => r is None,
            },
    {
        match self.phase {
            ReplacementPhase::Over(outcome) => Some(outcome),
            _ => None,
        }
    }

    fn settle(&mut self, root: &mut Root, settle: Settle, reply: Reply) -> (r: Option<Action>)
        requires
            old(root).wf(),
            old(root)@.has(old(self)@.fiber),
            settle@.fiber == old(self)@.fiber,
            old(root)@.room(2),
        ensures
            final(root).wf(),
            final(root)@ == old(self)@.settling(old(root)@, settle@, reply@).root,
            final(self)@ == (ReplacementView {
                phase: old(self)@.settling(old(root)@, settle@, reply@).phase,
                ..old(self)@
            }),
            action_view(r) == old(self)@.settling(old(root)@, settle@, reply@).action,
    {
        let id = self.fiber;
        let mut settle = settle;
        proof {
            lemma_settle_step_room(settle@, root@, reply@, 0);
        }
        match settle.step(root, reply) {
            Some(action) => {
                self.phase = ReplacementPhase::Settling(settle);
                Some(action)
            },
            None => {
                let outcome = match root.fiber(id).parked_failure() {
                    Some(failure) => ReplacementOutcome::Failed(failure),
                    None => ReplacementOutcome::Settled(root.fiber(id).state.current()),
                };
                match root.exit_recheck(id, settle.target()) {
                    Some(live) => {
                        self.phase = ReplacementPhase::Settling(Settle::new(id, live, false));
                        Some(Action::Again)
                    },
                    None => {
                        self.phase = ReplacementPhase::Over(outcome);
                        None
                    },
                }
            },
        }
    }

    fn aim(&mut self, root: &mut Root, reply: Reply) -> (r: Option<Action>)
        requires
            old(root).wf(),
            old(root)@.has(old(self)@.fiber),
            old(root)@.room(2),
        ensures
            final(root).wf(),
            final(root)@ == old(self)@.aimed(old(root)@, reply@).root,
            final(self)@ == (ReplacementView {
                phase: old(self)@.aimed(old(root)@, reply@).phase,
                ..old(self)@
            }),
            action_view(r) == old(self)@.aimed(old(root)@, reply@).action,
    {
        let id = self.fiber;
        match root.compute_target(id) {
            Some(target) => {
                root.fiber_mut(id).slot.record_target(target.duplicate());
                proof {
                    lemma_aiming_room(old(root)@, id, target@, 2);
                }
                self.settle(root, Settle::new(id, target, false), reply)
            },
            None => {
                root.fiber_mut(id).slot.abandon();
                self.phase = ReplacementPhase::Over(ReplacementOutcome::Refused);
                None
            },
        }
    }

    fn claim(&mut self, root: &mut Root, change: Option<PreparedChange>, reply: Reply) -> (r: Option<
        Action,
    >)
        requires
            old(root).wf(),
            old(root)@.has(old(self)@.fiber),
            old(root)@.room(2),
        ensures
            final(root).wf(),
            final(root)@ == old(self)@.claiming(old(root)@, change, reply@).root,
            final(self)@ == (ReplacementView {
                phase: old(self)@.claiming(old(root)@, change, reply@).phase,
                ..old(self)@
            }),
            action_view(r) == old(self)@.claiming(old(root)@, change, reply@).action,
    {
        let id = self.fiber;
        if !root.fiber(id).slot.is_idle() {
            self.phase = ReplacementPhase::Claim(change);
            return Some(Action::Wait);
        }
        let acceptable = match &change {
            Some(change) => root.fiber(id).spawn_state.accepts(change),
            None => true,
        };
        if !root.fiber(id).alive || !root.fiber(id).spawn_state.is_installed() || !acceptable {
            self.phase = ReplacementPhase::Over(ReplacementOutcome::Refused);
            return None;
        }
        let _ = root.fiber_mut(id).slot.try_claim();
        root.fiber_mut(id).generation_replacing = true;
        assert(root@ =~= old(root)@.replacing(id));
        proof {
            lemma_replacing_room(old(root)@, id, 2);
        }
        match change {
            None => self.aim(root, reply),
            Some(change) => {
                let fresh = root.fresh();
                let superseded = root.fiber_mut(id).spawn_state.commit_change(change, fresh);
                assert(root@ =~= old(root)@.committing(id, change));
                match superseded {
                    Ok(input) => {
                        self.phase = ReplacementPhase::Committed;
                        Some(Action::Release { input })
                    },
                    Err(_) => None,
                }
            },
        }
    }

    /// Goes on with the host's answer; says what the host does next, or nothing
    /// when the replacement is over.
    pub fn step(&mut self, root: &mut Root, reply: Reply) -> (r: Option<Action>)
        requires
            old(root).wf(),
            old(root)@.has(old(self)@.fiber),
            old(self)@.wf(),
            old(root)@.room(2),
        ensures
            final(root).wf(),
            final(root)@ == old(self)@.step(old(root)@, reply@).root,
            final(self)@ == (ReplacementView {
                phase: old(self)@.step(old(root)@, reply@).phase,
                ..old(self)@
            }),
            final(self)@.wf(),
            action_view(r) == old(self)@.step(old(root)@, reply@).action,
    {
        let mut phase = ReplacementPhase::Committed;
        std::mem::swap(&mut phase, &mut self.phase);
        match phase {
            ReplacementPhase::Claim(change) => self.claim(root, change, reply),
            ReplacementPhase::Committed => match reply {
                Reply::Released { panicked } => {
                    if panicked {
                        self.phase = ReplacementPhase::Over(ReplacementOutcome::InputPanicked);
                        None
                    } else {
                        self.aim(root, reply)
                    }
                },
                _ => Some(Action::Wait),
            },
            ReplacementPhase::Settling(settle) => self.settle(root, settle, reply),
            ReplacementPhase::Over(outcome) => {
                self.phase = ReplacementPhase::Over(outcome);
                None
            },
        }
    }
}

/// A replacement closes the old generation at its commit, before anything of it
/// is drained.
pub proof fn law_a_replacement_closes_the_old_generation(root: RootView, id: FiberId)
    requires
        root.has(id),
    ensures
        !root.replacing(id).admits(id),
        root.replacing(id).fiber(id).slot.inertia is Active,
{
}

/// An update keeps the Fiber: its identity, name, dependency slots, Contexts,
/// group, state and journal stay, and its behavior does; only the input changes.
pub proof fn law_an_update_keeps_the_fiber(root: RootView, id: FiberId, change: PreparedChange)
    requires
        root.has(id),
        root.accepts(id, change),
    ensures
        ({
            let before = root.fiber(id);
            let after = root.committing(id, change).fiber(id);
            &&& root.committing(id, change).fibers.len() == root.fibers.len()
            &&& after.name == before.name
            &&& after.edges == before.edges
            &&& after.state == before.state
            &&& after.journal == before.journal
            &&& after.residency == before.residency
            &&& after.spawn.unwrap().scope == before.spawn.unwrap().scope
            &&& after.spawn.unwrap().spawning_ctx == before.spawn.unwrap().spawning_ctx
            &&& after.spawn.unwrap().plugin_key == before.spawn.unwrap().plugin_key
            &&& after.spawn.unwrap().plugin.state.unwrap().0
                == before.spawn.unwrap().plugin.state.unwrap().0
            &&& after.spawn.unwrap().plugin.state.unwrap().1 == change.input
            &&& !root.committing(id, change).admits(id)
        }),
{
}

/// A committed change always changes the target, also where the input is the same
/// value: its identity is fresh.
pub proof fn law_a_committed_change_changes_the_target(
    root: RootView,
    id: FiberId,
    change: PreparedChange,
)
    requires
        root.has(id),
        root.accepts(id, change),
        root.fiber(id).spawn.unwrap().effective_input < root.next,
    ensures
        root.committing(id, change).target(id) != root.target(id),
{
    let before = root.target(id).unwrap();
    let after = root.committing(id, change).target(id).unwrap();
    assert(before.input != after.input);
}

/// An update whose superseded input panics on its destruction has committed its
/// change all the same: the Fiber has the new input under a fresh identity, its old
/// generation is closed, its settle slot stays held and its recorded target is the
/// one before. Nothing is drained and nothing applied, its state stays, and there
/// is no result: the panic goes on in the caller.
pub proof fn law_a_panic_of_the_superseded_input_ends_a_committed_update(
    p: ReplacementView,
    root: RootView,
    change: PreparedChange,
    reply: ReplyView,
)
    requires
        p.phase == ReplacementPhaseView::Claim(Some(change)),
        root.has(p.fiber),
        root.fiber(p.fiber).alive,
        root.fiber(p.fiber).slot.inertia is Idle,
        root.accepts(p.fiber, change),
    ensures
        ({
            let committed = p.step(root, reply);
            let ended = (ReplacementView { phase: committed.phase, ..p }).step(
                committed.root,
                ReplyView::Released { panicked: true },
            );
            let before = root.fiber(p.fiber);
            let after = ended.root.fiber(p.fiber);
            &&& committed.phase is Committed
            &&& committed.action == Some(
                ActionView::Release { input: before.spawn.unwrap().plugin.state.unwrap().1 },
            )
            &&& ended.action is None
            &&& ended.phase == ReplacementPhaseView::Over(ReplacementOutcomeView::InputPanicked)
            &&& ended.root == committed.root
            &&& after.spawn == Some(before.spawn.unwrap().changed(change, root.next))
            &&& after.generation_replacing
            &&& !after.admits()
            &&& after.slot.inertia is Active
            &&& after.slot.target == before.slot.target
            &&& after.state == before.state
            &&& after.journal == before.journal
            &&& after.error == before.error
        }),
{
}

/// No other ending of an update comes from a panic of its superseded input, and a
/// restart never ends with one: it supersedes nothing.
pub proof fn law_only_a_committed_update_ends_with_a_panic(
    p: ReplacementView,
    root: RootView,
    reply: ReplyView,
)
    ensures
        p.step(root, reply).phase == ReplacementPhaseView::Over(
            ReplacementOutcomeView::InputPanicked,
        ) <==> p.phase is Committed && reply == (ReplyView::Released { panicked: true })
            || p.phase == ReplacementPhaseView::Over(ReplacementOutcomeView::InputPanicked),
        p.phase == ReplacementPhaseView::Claim(None) ==> !(p.step(root, reply).phase is Committed),
        p.phase is Settling ==> !(p.step(root, reply).phase is Committed),
{
}

/// A refused replacement changes nothing: not of a dead Fiber, nor by a change of
/// another contract.
pub proof fn law_a_refused_replacement_changes_nothing(
    p: ReplacementView,
    root: RootView,
    change: Option<PreparedChange>,
    reply: ReplyView,
)
    requires
        p.phase == ReplacementPhaseView::Claim(change),
        root.fiber(p.fiber).slot.inertia is Idle,
        !root.fiber(p.fiber).alive || (change matches Some(c) && !root.accepts(p.fiber, c)),
    ensures
        p.step(root, reply).root == root,
        p.step(root, reply).phase == ReplacementPhaseView::Over(ReplacementOutcomeView::Refused),
{
}

} // verus!
