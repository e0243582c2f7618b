//! Settling a Fiber: tear down whatever is live, then apply toward a target.
//! Plugin applies and hosted cleanups are the host's work; a settle says which of
//! them comes next and goes on with the answer.

use crate::context::{Context, ContextView};
use crate::drain::{lemma_drained_counters, lemma_drained_room};
use crate::effect::{Cleanup, CleanupView, DisposableToken};
use crate::fiber::{failure_view, FiberView};
use crate::ids::FiberId;
use crate::inertia::{SemanticTarget, TargetView};
use crate::lifecycle::{PluginFailure, PluginFailureKind, PluginFailureView};
use crate::plugin::TypedPlugin;
use crate::root::{Root, RootView};
use crate::spawn_state::StoredView;
use crate::state::FiberState;
use crate::transition::{lemma_transition_publishes, lemma_transition_room};
use vstd::prelude::*;

verus! {

/// What the host does next for a piece of lifecycle work.
pub enum Action {
    /// Wait until the Runtime changed, then step again.
    Wait,
    /// Step again.
    Again,
    /// Run a claimed cleanup to its end, then step again.
    Cleanup(Cleanup),
    /// Apply a Plugin on its own Context and answer with the outcome.
    Apply {
        /// The host's name for the behavior.
        plugin: u64,
        /// The host's name for the input.
        input: u64,
        /// The Context the apply registers through.
        ctx: Context,
    },
    /// Destroy a superseded input and answer whether its destructor panicked.
    Release {
        /// The host's name for the input.
        input: u64,
    },
}

/// What the host does next, as a mathematical value.
pub enum ActionView {
    Wait,
    Again,
    Cleanup(CleanupView),
    Apply { plugin: u64, input: u64, ctx: ContextView },
    Release { input: u64 },
}

impl View for Action {
    type V = ActionView;

    open spec fn view(&self) -> ActionView {
        match self {
            Action::Wait => ActionView::Wait,
            Action::Again => ActionView::Again,
            Action::Cleanup(cleanup) => ActionView::Cleanup(cleanup@),
            Action::Apply { plugin, input, ctx } => ActionView::Apply {
                plugin: *plugin,
                input: *input,
                ctx: ctx@,
            },
            Action::Release { input } => ActionView::Release { input: *input },
        }
    }
}

/// How one apply ended.
pub enum ApplyOutcome {
    /// The apply succeeded.
    Applied,
    /// The apply returned an error with this text.
    Returned(String),
    /// The apply panicked with this rendered payload.
    Panicked(String),
}

/// The host's answer to the last action.
pub enum Reply {
    /// The work may go on; it answers every action that asks nothing.
    Go,
    /// How the apply ended.
    Applied(ApplyOutcome),
    /// The superseded input is destroyed.
    Released {
        /// Whether its destructor panicked.
        panicked: bool,
    },
}

/// The host's answer as a mathematical value.
pub enum ReplyView {
    Go,
    /// The apply ended, with a failure or without.
    Applied(Option<PluginFailureView>),
    Released { panicked: bool },
}

impl View for ApplyOutcome {
    type V = Option<PluginFailureView>;

    open spec fn view(&self) -> Option<PluginFailureView> {
        match self {
            ApplyOutcome::Applied => None,
            ApplyOutcome::Returned(text) => Some(
                PluginFailureView { kind: PluginFailureKind::ReturnedError, diagnostic: text@ },
            ),
            ApplyOutcome::Panicked(text) => Some(
                PluginFailureView { kind: PluginFailureKind::Panic, diagnostic: text@ },
            ),
        }
    }
}

impl View for Reply {
    type V = ReplyView;

    open spec fn view(&self) -> ReplyView {
        match self {
            Reply::Go => ReplyView::Go,
            Reply::Applied(outcome) => ReplyView::Applied(outcome@),
            Reply::Released { panicked } => ReplyView::Released { panicked: *panicked },
        }
    }
}

impl ApplyOutcome {
    /// The one normalization of an apply's failure.
    pub fn failure(self) -> (r: Option<PluginFailure>)
        ensures
            failure_view(r) == self@,
    {
        match self {
            ApplyOutcome::Applied => None,
            ApplyOutcome::Returned(text) => Some(PluginFailure::returned(text)),
            ApplyOutcome::Panicked(text) => Some(PluginFailure::panicked(text)),
        }
    }
}

/// Where a settle stands.
pub enum SettlePhase {
    /// Nothing has happened yet.
    Start,
    /// The previous generation is drained.
    Unloading(Vec<DisposableToken>),
    /// The Plugin is being applied; the sealed pair is away.
    Applying((u64, u64)),
    /// The failed generation is rolled back.
    RollingBack(Vec<DisposableToken>, PluginFailure),
    /// The settle is over.
    Settled,
}

/// Where a settle stands, as a mathematical value.
#[verifier::ext_equal]
pub enum SettlePhaseView {
    Start,
    Unloading(Seq<DisposableToken>),
    Applying((u64, u64)),
    RollingBack(Seq<DisposableToken>, PluginFailureView),
    Settled,
}

impl View for SettlePhase {
    type V = SettlePhaseView;

    open spec fn view(&self) -> SettlePhaseView {
        match self {
            SettlePhase::Start => SettlePhaseView::Start,
            SettlePhase::Unloading(tokens) => SettlePhaseView::Unloading(tokens@),
            SettlePhase::Applying(state) => SettlePhaseView::Applying(*state),
            SettlePhase::RollingBack(tokens, failure) => SettlePhaseView::RollingBack(
                tokens@,
                failure@,
            ),
            SettlePhase::Settled => SettlePhaseView::Settled,
        }
    }
}

/// One settle of a Fiber toward a target.
pub struct Settle {
    fiber: FiberId,
    target: SemanticTarget,
    owns_first_apply: bool,
    phase: SettlePhase,
}

/// A settle as a mathematical value.
#[verifier::ext_equal]
pub struct SettleView {
    pub fiber: FiberId,
    pub target: TargetView,
    /// Whether this settle may run the first apply of a pending creation.
    pub owns_first_apply: bool,
    pub phase: SettlePhaseView,
}

/// What one step of a settle comes to.
#[verifier::ext_equal]
pub struct SettleStep {
    /// The Runtime after it.
    pub root: RootView,
    /// Where the settle stands after it.
    pub phase: SettlePhaseView,
    /// What the host does next; `None` when the settle is over.
    pub action: Option<ActionView>,
}

impl RootView {
    /// The Runtime with a Fiber's parked failure replaced.
    pub open spec fn parking(self, id: FiberId, error: Option<PluginFailureView>) -> RootView {
        self.with_fiber(id, FiberView { error, ..self.fiber(id) })
    }

    /// The sealed pair an apply of the Fiber would lease.
    pub open spec fn sealed(self, id: FiberId) -> Option<(u64, u64)> {
        match self.fiber(id).spawn {
            Some(s) => s.plugin.state,
            None => None,
        }
    }

    /// The Runtime with the sealed pair away on an apply, or back from it.
    pub open spec fn sealing(self, id: FiberId, state: Option<(u64, u64)>) -> RootView {
        self.with_fiber(
            id,
            FiberView {
                spawn: match self.fiber(id).spawn {
                    Some(s) => Some(
                        StoredView {
                            plugin: TypedPlugin { contract: s.plugin.contract, state },
                            ..s
                        },
                    ),
                    None => None,
                },
                ..self.fiber(id)
            },
        )
    }

    /// The Runtime at the opening of a new generation: the sealed pair is leased
    /// to the apply, the replacement mark is cleared and `Loading` is published.
    pub open spec fn opening(self, id: FiberId) -> RootView {
        let leased = self.sealing(id, None);
        leased.with_fiber(
            id,
            FiberView { generation_replacing: false, ..leased.fiber(id) },
        ).transition(id, FiberState::Loading)
    }

    /// The Runtime once an apply returned, before its outcome is judged.
    pub open spec fn returned(self, id: FiberId, state: (u64, u64)) -> RootView {
        let restored = self.sealing(id, Some(state));
        restored.with_fiber(id, FiberView { applied: true, ..restored.fiber(id) })
    }
}

impl SettleView {
    /// A settle that has not begun.
    pub open spec fn begin(fiber: FiberId, target: TargetView, owns_first_apply: bool) -> SettleView {
        SettleView { fiber, target, owns_first_apply, phase: SettlePhaseView::Start }
    }

    /// The end of a settle.
    pub open spec fn over(self, root: RootView) -> SettleStep {
        SettleStep { root, phase: SettlePhaseView::Settled, action: None }
    }

    /// Once nothing of an earlier generation is live. A target with missing
    /// assignments leaves the Fiber pending without an apply. The first apply of a
    /// pending creation is left to the creation's own pass.
    pub open spec fn decided(self, root: RootView) -> SettleStep {
        if self.target.has_missing() {
            self.over(root.parking(self.fiber, None).transition(self.fiber, FiberState::Pending))
        } else if !self.owns_first_apply && root.fiber(self.fiber).creation_pending && !root.fiber(
            self.fiber,
        ).applied {
            self.over(root)
        } else {
            match (root.sealed(self.fiber), root.fiber(self.fiber).spawn) {
                (Some(state), Some(s)) => SettleStep {
                    root: root.opening(self.fiber),
                    phase: SettlePhaseView::Applying(state),
                    action: Some(
                        ActionView::Apply {
                            plugin: state.0,
                            input: state.1,
                            ctx: s.scope.on_fiber(self.fiber),
                        },
                    ),
                },
                _ => self.over(root),
            }
        }
    }

    /// While the previous generation is drained.
    pub open spec fn unloading(self, root: RootView, tokens: Seq<DisposableToken>) -> SettleStep {
        let step = root.drained(self.fiber, tokens);
        match step.run {
            Some(cleanup) => SettleStep {
                root: step.root,
                phase: SettlePhaseView::Unloading(step.tokens),
                action: Some(ActionView::Cleanup(cleanup)),
            },
            None => self.decided(step.root),
        }
    }

    /// While a failed generation is rolled back. The failure is parked and
    /// `Failed` is published only once the rollback is complete.
    pub open spec fn rolling_back(
        self,
        root: RootView,
        tokens: Seq<DisposableToken>,
        failure: PluginFailureView,
    ) -> SettleStep {
        let step = root.drained(self.fiber, tokens);
        match step.run {
            Some(cleanup) => SettleStep {
                root: step.root,
                phase: SettlePhaseView::RollingBack(step.tokens, failure),
                action: Some(ActionView::Cleanup(cleanup)),
            },
            None => self.over(
                step.root.parking(self.fiber, Some(failure)).transition(
                    self.fiber,
                    FiberState::Failed,
                ),
            ),
        }
    }

    /// When an apply returned. A failure closes the generation before its rollback
    /// begins.
    pub open spec fn applied(
        self,
        root: RootView,
        state: (u64, u64),
        failure: Option<PluginFailureView>,
    ) -> SettleStep {
        let returned = root.returned(self.fiber, state);
        match failure {
            None => self.over(
                returned.parking(self.fiber, None).transition(self.fiber, FiberState::Active),
            ),
            Some(f) => {
                let closed = returned.transition(self.fiber, FiberState::Unloading);
                self.rolling_back(
                    closed.marking_drain(self.fiber, true),
                    closed.fiber(self.fiber).journal.tokens(),
                    f,
                )
            },
        }
    }

    /// When a settle begins. A dead Fiber is never settled; what is live is closed
    /// and drained first.
    pub open spec fn started(self, root: RootView) -> SettleStep {
        let fiber = root.fiber(self.fiber);
        if !fiber.alive {
            self.over(root)
        } else if fiber.current() is Active || fiber.current() is Failed || fiber.current() is Loading {
            let closed = root.transition(self.fiber, FiberState::Unloading);
            self.unloading(
                closed.marking_drain(self.fiber, true),
                closed.fiber(self.fiber).journal.tokens(),
            )
        } else {
            self.decided(root)
        }
    }

    /// One step of a settle. While an apply runs, only its outcome moves the
    /// settle on.
    pub open spec fn step(self, root: RootView, reply: ReplyView) -> SettleStep {
        match self.phase {
            SettlePhaseView::Start => self.started(root),
            SettlePhaseView::Unloading(tokens) => self.unloading(root, tokens),
            SettlePhaseView::Applying(state) => match reply {
                ReplyView::Applied(failure) => self.applied(root, state, failure),
                _ => SettleStep { root, phase: self.phase, action: Some(ActionView::Wait) },
            },
            SettlePhaseView::RollingBack(tokens, failure) => self.rolling_back(
                root,
                tokens,
                failure,
            ),
            SettlePhaseView::Settled => self.over(root),
        }
    }
}

impl View for Settle {
    type V = SettleView;

    closed spec fn view(&self) -> SettleView {
        SettleView {
            fiber: self.fiber,
            target: self.target@,
            owns_first_apply: self.owns_first_apply,
            phase: self.phase@,
        }
    }
}

proof fn lemma_same_shape_room(a: RootView, id: FiberId, f: FiberView, n: nat)
    requires
        a.has(id),
        a.room(n),
        f.state == a.fiber(id).state,
        f.journal.sn == a.fiber(id).journal.sn,
    ensures
        a.with_fiber(id, f).room(n),
        a.with_fiber(id, f).fibers.len() == a.fibers.len(),
{
    let b = a.with_fiber(id, f);
    assert forall|i: int| 0 <= i < b.fibers.len() implies (#[trigger] b.fibers[i]).room(n) by {
        assert(a.fibers[i].room(n));
    }
}

proof fn lemma_decided_room(s: SettleView, root: RootView, n: nat)
    requires
        root.has(s.fiber),
        root.room(n + 1),
    ensures
        s.decided(root).root.room(n),
        s.decided(root).root.fibers.len() == root.fibers.len(),
{
    let id = s.fiber;
    let parked = root.parking(id, None);
    lemma_same_shape_room(root, id, FiberView { error: None, ..root.fiber(id) }, n + 1);
    lemma_transition_room(parked, id, FiberState::Pending, n);
    let leased = root.sealing(id, None);
    lemma_same_shape_room(root, id, leased.fiber(id), n + 1);
    let opened = leased.with_fiber(
        id,
        FiberView { generation_replacing: false, ..leased.fiber(id) },
    );
    lemma_same_shape_room(leased, id, opened.fiber(id), n + 1);
    lemma_transition_room(opened, id, FiberState::Loading, n);
    lemma_room_less(root, n);
}

/// Room for one step more is room for the steps before it.
pub proof fn lemma_room_less(root: RootView, n: nat)
    requires
        root.room(n + 1),
    ensures
        root.room(n),
{
    assert forall|i: int| 0 <= i < root.fibers.len() implies (#[trigger] root.fibers[i]).room(n) by {
        let f = root.fibers[i];
        assert(f.room(n + 1));
        assert forall|k: int| 0 <= k < 6 implies (#[trigger] f.state.revisions[k]) + n
            <= u64::MAX by {
            assert(f.state.revisions[k] + (n + 1) <= u64::MAX);
        }
    }
}

proof fn lemma_unloading_room(
    s: SettleView,
    root: RootView,
    tokens: Seq<DisposableToken>,
    n: nat,
)
    requires
        root.has(s.fiber),
        root.room(n + 1),
    ensures
        s.unloading(root, tokens).root.room(n),
        s.unloading(root, tokens).root.fibers.len() == root.fibers.len(),
{
    lemma_drained_room(root, s.fiber, tokens, n + 1);
    let step = root.drained(s.fiber, tokens);
    lemma_room_less(step.root, n);
    lemma_decided_room(s, step.root, n);
}

proof fn lemma_rolling_back_room(
    s: SettleView,
    root: RootView,
    tokens: Seq<DisposableToken>,
    failure: PluginFailureView,
    n: nat,
)
    requires
        root.has(s.fiber),
        root.room(n + 1),
    ensures
        s.rolling_back(root, tokens, failure).root.room(n),
        s.rolling_back(root, tokens, failure).root.fibers.len() == root.fibers.len(),
{
    let id = s.fiber;
    lemma_drained_room(root, id, tokens, n + 1);
    let step = root.drained(id, tokens);
    lemma_room_less(step.root, n);
    let parked = step.root.parking(id, Some(failure));
    lemma_same_shape_room(step.root, id, parked.fiber(id), n + 1);
    lemma_transition_room(parked, id, FiberState::Failed, n);
}

proof fn lemma_closing_room(root: RootView, id: FiberId, n: nat)
    requires
        root.has(id),
        root.room(n + 1),
    ensures
        ({
            let closed = root.transition(id, FiberState::Unloading);
            &&& closed.has(id)
            &&& closed.marking_drain(id, true).room(n)
            &&& closed.marking_drain(id, true).fibers.len() == root.fibers.len()
        }),
{
    lemma_transition_room(root, id, FiberState::Unloading, n);
    let closed = root.transition(id, FiberState::Unloading);
    lemma_same_shape_room(closed, id, FiberView { draining: true, ..closed.fiber(id) }, n);
}

proof fn lemma_returned_room(root: RootView, id: FiberId, state: (u64, u64), n: nat)
    requires
        root.has(id),
        root.room(n),
    ensures
        root.returned(id, state).room(n),
        root.returned(id, state).fibers.len() == root.fibers.len(),
{
    let restored = root.sealing(id, Some(state));
    lemma_same_shape_room(root, id, restored.fiber(id), n);
    lemma_same_shape_room(restored, id, FiberView { applied: true, ..restored.fiber(id) }, n);
}

/// One step of a settle uses up at most two steps of room.
pub proof fn lemma_settle_step_room(s: SettleView, root: RootView, reply: ReplyView, n: nat)
    requires
        root.has(s.fiber),
        root.room(n + 2),
    ensures
        s.step(root, reply).root.room(n),
        s.step(root, reply).root.fibers.len() == root.fibers.len(),
{
    let id = s.fiber;
    lemma_room_less(root, n + 1);
    lemma_room_less(root, n);
    match s.phase {
        SettlePhaseView::Start => {
            lemma_closing_room(root, id, n + 1);
            let closed = root.transition(id, FiberState::Unloading);
            lemma_unloading_room(
                s,
                closed.marking_drain(id, true),
                closed.fiber(id).journal.tokens(),
                n,
            );
            lemma_decided_room(s, root, n);
        },
        SettlePhaseView::Unloading(tokens) => {
            lemma_unloading_room(s, root, tokens, n);
        },
        SettlePhaseView::Applying(state) => {
            match reply {
                ReplyView::Applied(failure) => {
                    lemma_returned_room(root, id, state, n + 2);
                    let returned = root.returned(id, state);
                    match failure {
                        None => {
                            let parked = returned.parking(id, None);
                            lemma_same_shape_room(returned, id, parked.fiber(id), n + 2);
                            lemma_transition_room(parked, id, FiberState::Active, n + 1);
                            lemma_room_less(parked.transition(id, FiberState::Active), n);
                        },
                        Some(f) => {
                            lemma_closing_room(returned, id, n + 1);
                            let closed = returned.transition(id, FiberState::Unloading);
                            lemma_rolling_back_room(
                                s,
                                closed.marking_drain(id, true),
                                closed.fiber(id).journal.tokens(),
                                f,
                                n,
                            );
                        },
                    }
                },
                _ => {},
            }
        },
        SettlePhaseView::RollingBack(tokens, failure) => {
            lemma_rolling_back_room(s, root, tokens, failure, n);
        },
        SettlePhaseView::Settled => {},
    }
}

/// The view of an optional action.
pub open spec fn action_view(action: Option<Action>) -> Option<ActionView> {
    match action {
        Some(a) => Some(a@),
        None => None,
    }
}

impl Settle {
    /// A settle that has not begun.
    pub fn new(fiber: FiberId, target: SemanticTarget, owns_first_apply: bool) -> (r: Settle)
        ensures
            r@ == SettleView::begin(fiber, target@, owns_first_apply),
    {
        Settle { fiber, target, owns_first_apply, phase: SettlePhase::Start }
    }

    /// The Fiber that is settled.
    pub fn fiber(&self) -> (r: FiberId)
        ensures
            r == self@.fiber,
    {
        self.fiber
    }

    /// The target the Fiber is settled toward.
    pub fn target(&self) -> (r: &SemanticTarget)
        ensures
            r@ == self@.target,
    {
        &self.target
    }

    /// The target the Fiber was settled toward.
    pub fn into_target(self) -> (r: SemanticTarget)
        ensures
            r@ == self@.target,
    {
        self.target
    }

    /// Whether the settle may run the first apply of a pending creation.
    pub fn owns_first_apply(&self) -> (r: bool)
        ensures
            r == self@.owns_first_apply,
    {
        self.owns_first_apply
    }

    fn decide(&mut self, root: &mut Root) -> (r: Option<Action>)
        requires
            old(root).wf(),
            old(root)@.has(old(self)@.fiber),
            old(root)@.room(1),
        ensures
            final(root).wf(),
            final(root)@ == old(self)@.decided(old(root)@).root,
            final(self)@ == (SettleView {
                phase: old(self)@.decided(old(root)@).phase,
                ..old(self)@
            }),
            action_view(r) == old(self)@.decided(old(root)@).action,
    {
        let id = self.fiber;
        if self.target.has_missing() {
            root.fiber_mut(id).error = None;
            proof {
                lemma_same_shape_room(
                    old(root)@,
                    id,
                    FiberView { error: None, ..old(root)@.fiber(id) },
                    1,
                );
            }
            root.transition(id, FiberState::Pending);
            self.phase = SettlePhase::Settled;
            return None;
        }
        if !self.owns_first_apply && root.fiber(id).creation_pending && !root.fiber(id).applied {
            self.phase = SettlePhase::Settled;
            return None;
        }
        match root.fiber_mut(id).spawn_state.apply_snapshot(id) {
            Ok(snapshot) => {
                let ghost leased = root@;
                proof {
                    assert(leased =~= old(root)@.sealing(id, None));
                    lemma_same_shape_room(old(root)@, id, leased.fiber(id), 1);
                    lemma_same_shape_room(
                        leased,
                        id,
                        FiberView { generation_replacing: false, ..leased.fiber(id) },
                        1,
                    );
                }
                root.fiber_mut(id).generation_replacing = false;
                root.transition(id, FiberState::Loading);
                self.phase = SettlePhase::Applying(snapshot.state);
                Some(
                    Action::Apply {
                        plugin: snapshot.state.0,
                        input: snapshot.state.1,
                        ctx: snapshot.ctx,
                    },
                )
            },
            Err(_) => {
                assert(root@ =~= old(root)@);
                self.phase = SettlePhase::Settled;
                None
            },
        }
    }

    fn unload(&mut self, root: &mut Root, tokens: Vec<DisposableToken>) -> (r: Option<Action>)
        requires
            old(root).wf(),
            old(root)@.has(old(self)@.fiber),
            old(root)@.room(1),
        ensures
            final(root).wf(),
            final(root)@ == old(self)@.unloading(old(root)@, tokens@).root,
            final(self)@ == (SettleView {
                phase: old(self)@.unloading(old(root)@, tokens@).phase,
                ..old(self)@
            }),
            action_view(r) == old(self)@.unloading(old(root)@, tokens@).action,
    {
        let mut left = tokens;
        proof {
            lemma_drained_room(root@, self.fiber, tokens@, 1);
        }
        match root.drain_next(self.fiber, &mut left) {
            Some(cleanup) => {
                self.phase = SettlePhase::Unloading(left);
                Some(Action::Cleanup(cleanup))
            },
            None => self.decide(root),
        }
    }

    fn roll_back(
        &mut self,
        root: &mut Root,
        tokens: Vec<DisposableToken>,
        failure: PluginFailure,
    ) -> (r: Option<Action>)
        requires
            old(root).wf(),
            old(root)@.has(old(self)@.fiber),
            old(root)@.room(1),
        ensures
            final(root).wf(),
            final(root)@ == old(self)@.rolling_back(old(root)@, tokens@, failure@).root,
            final(self)@ == (SettleView {
                phase: old(self)@.rolling_back(old(root)@, tokens@, failure@).phase,
                ..old(self)@
            }),
            action_view(r) == old(self)@.rolling_back(old(root)@, tokens@, failure@).action,
    {
        let id = self.fiber;
        let mut left = tokens;
        proof {
            lemma_drained_room(root@, id, tokens@, 1);
        }
        match root.drain_next(id, &mut left) {
            Some(cleanup) => {
                self.phase = SettlePhase::RollingBack(left, failure);
                Some(Action::Cleanup(cleanup))
            },
            None => {
                let ghost drained = root@;
                let ghost parked = failure@;
                root.fiber_mut(id).error = Some(failure);
                proof {
                    lemma_same_shape_room(
                        drained,
                        id,
                        FiberView { error: Some(parked), ..drained.fiber(id) },
                        1,
                    );
                }
                root.transition(id, FiberState::Failed);
                self.phase = SettlePhase::Settled;
                None
            },
        }
    }

    fn start(&mut self, root: &mut Root) -> (r: Option<Action>)
        requires
            old(root).wf(),
            old(root)@.has(old(self)@.fiber),
            old(root)@.room(2),
        ensures
            final(root).wf(),
            final(root)@ == old(self)@.started(old(root)@).root,
            final(self)@ == (SettleView {
                phase: old(self)@.started(old(root)@).phase,
                ..old(self)@
            }),
            action_view(r) == old(self)@.started(old(root)@).action,
    {
        let id = self.fiber;
        if !root.fiber(id).alive {
            self.phase = SettlePhase::Settled;
            return None;
        }
        let live = match root.fiber(id).state.current() {
            FiberState::Active | FiberState::Failed | FiberState::Loading => true,
            _ => false,
        };
        if live {
            proof {
                lemma_room_less(root@, 1);
                lemma_closing_room(root@, id, 1);
            }
            root.transition(id, FiberState::Unloading);
            let tokens = root.begin_drain(id);
            self.unload(root, tokens)
        } else {
            proof {
                lemma_room_less(root@, 1);
            }
            self.decide(root)
        }
    }

    fn apply_returned(&mut self, root: &mut Root, state: (u64, u64), outcome: ApplyOutcome) -> (r:
        Option<Action>)
        requires
            old(root).wf(),
            old(root)@.has(old(self)@.fiber),
            old(root)@.room(2),
        ensures
            final(root).wf(),
            final(root)@ == old(self)@.applied(old(root)@, state, outcome@).root,
            final(self)@ == (SettleView {
                phase: old(self)@.applied(old(root)@, state, outcome@).phase,
                ..old(self)@
            }),
            action_view(r) == old(self)@.applied(old(root)@, state, outcome@).action,
    {
        let id = self.fiber;
        root.fiber_mut(id).spawn_state.restore(state);
        assert(root@ =~= old(root)@.sealing(id, Some(state)));
        root.fiber_mut(id).applied = true;
        let ghost returned = root@;
        proof {
            lemma_returned_room(old(root)@, id, state, 2);
            lemma_room_less(returned, 1);
        }
        match outcome.failure() {
            None => {
                root.fiber_mut(id).error = None;
                proof {
                    lemma_same_shape_room(
                        returned,
                        id,
                        FiberView { error: None, ..returned.fiber(id) },
                        1,
                    );
                }
                root.transition(id, FiberState::Active);
                self.phase = SettlePhase::Settled;
                None
            },
            Some(failure) => {
                proof {
                    lemma_closing_room(returned, id, 1);
                }
                root.transition(id, FiberState::Unloading);
                let tokens = root.begin_drain(id);
                self.roll_back(root, tokens, failure)
            },
        }
    }

    /// Goes on with the host's answer; says what the host does next, or nothing
    /// when the settle is over.
    pub fn step(&mut self, root: &mut Root, reply: Reply) -> (r: Option<Action>)
        requires
            old(root).wf(),
            old(root)@.has(old(self)@.fiber),
            old(root)@.room(2),
        ensures
            final(root).wf(),
            final(root)@ == old(self)@.step(old(root)@, reply@).root,
            final(self)@ == (SettleView {
                phase: old(self)@.step(old(root)@, reply@).phase,
                ..old(self)@
            }),
            action_view(r) == old(self)@.step(old(root)@, reply@).action,
    {
        proof {
            lemma_room_less(root@, 1);
        }
        let mut phase = SettlePhase::Settled;
        std::mem::swap(&mut phase, &mut self.phase);
        match phase {
            SettlePhase::Start => self.start(root),
            SettlePhase::Unloading(tokens) => self.unload(root, tokens),
            SettlePhase::Applying(state) => match reply {
                Reply::Applied(outcome) => self.apply_returned(root, state, outcome),
                _ => {
                    self.phase = SettlePhase::Applying(state);
                    Some(Action::Wait)
                },
            },
            SettlePhase::RollingBack(tokens, failure) => self.roll_back(root, tokens, failure),
            SettlePhase::Settled => None,
        }
    }
}

proof fn lemma_drained_keeps(r: RootView, id: FiberId, tokens: Seq<DisposableToken>)
    requires
        r.has(id),
    ensures
        r.drained(id, tokens).root.has(id),
        r.drained(id, tokens).root.fiber(id) == (FiberView {
            journal: r.drained(id, tokens).root.fiber(id).journal,
            draining: r.drained(id, tokens).root.fiber(id).draining,
            ..r.fiber(id)
        }),
{
    lemma_drained_counters(r, id, tokens);
}

/// An apply is offered only for a complete target, on a generation that has just
/// been opened, with the sealed pair leased to it.
pub proof fn law_an_apply_sees_a_fresh_open_generation(
    s: SettleView,
    root: RootView,
    reply: ReplyView,
)
    requires
        root.has(s.fiber),
    ensures
        s.step(root, reply).action matches Some(ActionView::Apply { .. }) ==> {
            let after = s.step(root, reply).root.fiber(s.fiber);
            &&& after.current() is Loading
            &&& !after.generation_replacing
            &&& after.alive == root.fiber(s.fiber).alive
            &&& s.step(root, reply).root.sealed(s.fiber) is None
            &&& !s.target.has_missing()
        },
{
    let id = s.fiber;
    let closed = root.transition(id, FiberState::Unloading);
    lemma_transition_publishes(root, id, FiberState::Unloading);
    let marked = closed.marking_drain(id, true);
    lemma_drained_keeps(marked, id, closed.fiber(id).journal.tokens());
    lemma_opening(marked.drained(id, closed.fiber(id).journal.tokens()).root, id);
    lemma_opening(root, id);
    match s.phase {
        SettlePhaseView::Unloading(tokens) => {
            lemma_drained_keeps(root, id, tokens);
            lemma_opening(root.drained(id, tokens).root, id);
        },
        _ => {},
    }
}

proof fn lemma_opening(root: RootView, id: FiberId)
    requires
        root.has(id),
    ensures
        root.opening(id).has(id),
        root.opening(id).fiber(id).current() is Loading,
        !root.opening(id).fiber(id).generation_replacing,
        root.opening(id).fiber(id).alive == root.fiber(id).alive,
        root.opening(id).sealed(id) is None,
        root.opening(id).fiber(id).spawn is Some == root.fiber(id).spawn is Some,
{
    let leased = root.sealing(id, None);
    let opened = leased.with_fiber(
        id,
        FiberView { generation_replacing: false, ..leased.fiber(id) },
    );
    lemma_transition_publishes(opened, id, FiberState::Loading);
}

/// What a settle leaves behind when it is over: `Active` without a parked failure
/// after a successful apply; `Failed` with exactly that failure parked after a
/// failed one, once its rollback is complete; `Pending` without a parked failure
/// where an assignment is missing.
pub proof fn law_a_settle_ends_in_the_state_it_reached(
    s: SettleView,
    root: RootView,
    state: (u64, u64),
    tokens: Seq<DisposableToken>,
    failure: PluginFailureView,
)
    requires
        root.has(s.fiber),
    ensures
        s.applied(root, state, None).root.fiber(s.fiber).current() is Active,
        s.applied(root, state, None).root.fiber(s.fiber).error is None,
        s.rolling_back(root, tokens, failure).action is None ==> {
            let after = s.rolling_back(root, tokens, failure).root.fiber(s.fiber);
            after.current() is Failed && after.error == Some(failure)
        },
        s.target.has_missing() ==> s.decided(root).root.fiber(s.fiber).current() is Pending
            && s.decided(root).root.fiber(s.fiber).error is None,
{
    let id = s.fiber;
    let returned = root.returned(id, state);
    lemma_transition_publishes(returned.parking(id, None), id, FiberState::Active);
    lemma_drained_keeps(root, id, tokens);
    let drained = root.drained(id, tokens).root;
    lemma_transition_publishes(drained.parking(id, Some(failure)), id, FiberState::Failed);
    lemma_transition_publishes(root.parking(id, None), id, FiberState::Pending);
}

/// A dead Fiber is never settled: the disposal is final whatever its target is.
pub proof fn law_a_dead_fiber_is_never_settled(s: SettleView, root: RootView, reply: ReplyView)
    requires
        s.phase is Start,
        !root.fiber(s.fiber).alive,
    ensures
        s.step(root, reply).root == root,
        s.step(root, reply).action is None,
{
}

/// While a creation is pending its first apply belongs to the creation's own
/// pass: no other settle begins with an apply.
pub proof fn law_the_first_apply_belongs_to_the_creation(
    s: SettleView,
    root: RootView,
    reply: ReplyView,
)
    requires
        root.has(s.fiber),
        s.phase is Start || s.phase is Unloading,
        !s.owns_first_apply,
        root.fiber(s.fiber).creation_pending,
        !root.fiber(s.fiber).applied,
    ensures
        !(s.step(root, reply).action matches Some(ActionView::Apply { .. })),
{
    let id = s.fiber;
    let closed = root.transition(id, FiberState::Unloading);
    lemma_transition_publishes(root, id, FiberState::Unloading);
    lemma_drained_keeps(closed.marking_drain(id, true), id, closed.fiber(id).journal.tokens());
    match s.phase {
        SettlePhaseView::Unloading(tokens) => {
            lemma_drained_keeps(root, id, tokens);
        },
        _ => {},
    }
}

impl SettleView {
    /// The settle is in step with its Fiber: the sealed pair is away exactly while
    /// an apply runs, and an apply runs, or is rolled back, only for a complete
    /// target.
    pub open spec fn coherent(self, root: RootView) -> bool {
        match self.phase {
            SettlePhaseView::Start => root.sealed(self.fiber) is Some,
            SettlePhaseView::Unloading(_) => root.sealed(self.fiber) is Some,
            SettlePhaseView::Applying(_) => root.fiber(self.fiber).spawn is Some && root.sealed(
                self.fiber,
            ) is None && !self.target.has_missing(),
            SettlePhaseView::RollingBack(..) => root.sealed(self.fiber) is Some
                && !self.target.has_missing(),
            SettlePhaseView::Settled => false,
        }
    }

    /// The Fiber is where a settle may leave it: pending where an assignment is
    /// missing; active, or failed with the failure parked, where none is.
    pub open spec fn reached(self, fiber: FiberView) -> bool {
        if self.target.has_missing() {
            fiber.current() is Pending && fiber.error is None
        } else {
            ||| fiber.current() is Active && fiber.error is None
            ||| fiber.current() is Failed && fiber.error is Some
        }
    }
}

proof fn lemma_decided_ends_pending(s: SettleView, root: RootView)
    requires
        root.has(s.fiber),
        s.owns_first_apply || !root.fiber(s.fiber).creation_pending || root.fiber(s.fiber).applied,
        root.sealed(s.fiber) is Some,
    ensures
        s.decided(root).root.has(s.fiber),
        s.decided(root).action is None <==> s.target.has_missing(),
        s.decided(root).action is None ==> {
            let after = s.decided(root).root.fiber(s.fiber);
            &&& after.current() is Pending
            &&& after.error is None
            &&& after.spawn == root.fiber(s.fiber).spawn
        },
        s.decided(root).action is Some ==> (SettleView {
            phase: s.decided(root).phase,
            ..s
        }).coherent(s.decided(root).root),
{
    lemma_transition_publishes(root.parking(s.fiber, None), s.fiber, FiberState::Pending);
    lemma_opening(root, s.fiber);
}

proof fn lemma_unloading_ends_pending(s: SettleView, root: RootView, tokens: Seq<DisposableToken>)
    requires
        root.has(s.fiber),
        s.owns_first_apply || !root.fiber(s.fiber).creation_pending || root.fiber(s.fiber).applied,
        root.sealed(s.fiber) is Some,
    ensures
        ({
            let step = s.unloading(root, tokens);
            let after = step.root.fiber(s.fiber);
            &&& step.root.has(s.fiber)
            &&& !(step.phase is RollingBack)
            &&& step.action is None ==> s.target.has_missing() && after.current() is Pending
                && after.error is None && step.root.sealed(s.fiber) is Some
            &&& step.action is Some ==> (SettleView { phase: step.phase, ..s }).coherent(step.root)
        }),
{
    lemma_drained_keeps(root, s.fiber, tokens);
    lemma_decided_ends_pending(s, root.drained(s.fiber, tokens).root);
}

proof fn lemma_started_ends_pending(s: SettleView, root: RootView)
    requires
        root.has(s.fiber),
        root.fiber(s.fiber).alive,
        s.owns_first_apply || !root.fiber(s.fiber).creation_pending || root.fiber(s.fiber).applied,
        root.sealed(s.fiber) is Some,
    ensures
        s.started(root).root.has(s.fiber),
        !(s.started(root).phase is RollingBack),
        s.started(root).action is None ==> s.target.has_missing() && s.started(root).root.fiber(
            s.fiber,
        ).current() is Pending && s.started(root).root.fiber(s.fiber).error is None
            && s.started(root).root.sealed(s.fiber) is Some,
        s.started(root).action is Some ==> (SettleView {
            phase: s.started(root).phase,
            ..s
        }).coherent(s.started(root).root),
{
    let fiber = root.fiber(s.fiber);
    if fiber.current() is Active || fiber.current() is Failed || fiber.current() is Loading {
        let closed = root.transition(s.fiber, FiberState::Unloading);
        lemma_transition_publishes(root, s.fiber, FiberState::Unloading);
        let marked = closed.marking_drain(s.fiber, true);
        assert(marked.sealed(s.fiber) == root.sealed(s.fiber));
        lemma_unloading_ends_pending(s, marked, closed.fiber(s.fiber).journal.tokens());
    } else {
        lemma_decided_ends_pending(s, root);
    }
}

/// A settle of a living Fiber stays in step with it, and is over only in one of
/// three states: `Pending` where an assignment is missing; `Active`, or `Failed`
/// with the failure parked, where none is. The sealed pair is home then, and the
/// settle failed only where its apply did.
pub proof fn law_a_settle_ends_active_pending_or_failed(
    s: SettleView,
    root: RootView,
    reply: ReplyView,
)
    requires
        root.has(s.fiber),
        root.fiber(s.fiber).alive,
        s.coherent(root),
        s.owns_first_apply || !root.fiber(s.fiber).creation_pending || root.fiber(s.fiber).applied,
    ensures
        s.step(root, reply).root.has(s.fiber),
        s.step(root, reply).action is Some ==> (SettleView {
            phase: s.step(root, reply).phase,
            ..s
        }).coherent(s.step(root, reply).root),
        s.step(root, reply).action is None ==> s.reached(
            s.step(root, reply).root.fiber(s.fiber),
        ) && s.step(root, reply).root.sealed(s.fiber) is Some,
        !(s.phase is RollingBack) && !(reply matches ReplyView::Applied(Some(_))) ==> {
            let step = s.step(root, reply);
            &&& !(step.phase is RollingBack)
            &&& step.action is None ==> !(step.root.fiber(s.fiber).current() is Failed)
        },
{
    let id = s.fiber;
    match s.phase {
        SettlePhaseView::Start => {
            lemma_started_ends_pending(s, root);
        },
        SettlePhaseView::Unloading(tokens) => {
            lemma_unloading_ends_pending(s, root, tokens);
        },
        SettlePhaseView::Applying(state) => {
            let returned = root.returned(id, state);
            lemma_transition_publishes(returned.parking(id, None), id, FiberState::Active);
            match reply {
                ReplyView::Applied(Some(failure)) => {
                    let closed = returned.transition(id, FiberState::Unloading);
                    lemma_transition_publishes(returned, id, FiberState::Unloading);
                    let tokens = closed.fiber(id).journal.tokens();
                    let marked = closed.marking_drain(id, true);
                    assert(marked.sealed(id) == returned.sealed(id));
                    lemma_drained_keeps(marked, id, tokens);
                    let drained = marked.drained(id, tokens).root;
                    lemma_transition_publishes(
                        drained.parking(id, Some(failure)),
                        id,
                        FiberState::Failed,
                    );
                },
                _ => {},
            }
        },
        SettlePhaseView::RollingBack(tokens, failure) => {
            lemma_drained_keeps(root, id, tokens);
            let drained = root.drained(id, tokens).root;
            lemma_transition_publishes(drained.parking(id, Some(failure)), id, FiberState::Failed);
        },
        SettlePhaseView::Settled => {},
    }
}

} // verus!
