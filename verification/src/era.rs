//! Identity-breaking replacement of one live Fiber with one fresh era: one live
//! source is claimed, its terminal barrier completes, one successor is created
//! from the captured recipe, and the affected dependents converge before the
//! handle is handed off.

use crate::context::ContextView;
use crate::converge::{
    capture_dependents, lemma_converge_counters, Convergence, ConvergenceView,
};
use crate::deps::{duplicate_edges, edge_views, DependencyEdge, EdgeView};
use crate::dispose::{lemma_disposal_step_room, Disposal, DisposalPhaseView, DisposalView};
use crate::fiber::FiberView;
use crate::handle::FiberHandle;
use crate::ids::FiberId;
use crate::lifecycle::{
    map_spawn_failure, EraSwapError, EraSwapFailure, LifecycleOperation, LifecycleRecursion,
    PluginFailure, PluginFailureView, SettleAttribution, SpawnError, SpawnErrorView,
};
use crate::plugin::{
    normalized, InjectEntryView, PreparedChange, PreparedPlugin, TypedPlugin,
};
use crate::root::{Root, RootView};
use crate::seqs::{first, is_first, lemma_first_absent, lemma_first_found};
use crate::service::slot_edges;
use crate::settle::{action_view, lemma_room_less, Action, ActionView, Reply, ReplyView};
use crate::spawn::{lemma_spawn_keeps_fibers, spawn_result, Spawn, SpawnPhaseView};
use crate::spawn_state::EraRecipe;
use vstd::prelude::*;

verus! {

/// How an era replacement ended.
pub enum EraEnding {
    /// The fresh successor is handed off.
    Handed(FiberHandle),
    /// The source was closed before the claim.
    Closed,
    /// A self-wait was refused before the claim.
    Recursion(LifecycleRecursion),
    /// The successor's initial apply failed.
    Apply(PluginFailure),
    /// The successor was lost before the handoff.
    Lost,
    /// The destructor of the superseded input panicked; the panic goes on in the
    /// caller.
    InputPanicked,
}

/// How an era replacement ended, as a mathematical value.
pub enum EraEndingView {
    Handed(FiberHandle),
    Closed,
    Recursion(LifecycleRecursion),
    Apply(PluginFailureView),
    Lost,
    InputPanicked,
}

impl View for EraEnding {
    type V = EraEndingView;

    open spec fn view(&self) -> EraEndingView {
        match self {
            EraEnding::Handed(handle) => EraEndingView::Handed(*handle),
            EraEnding::Closed => EraEndingView::Closed,
            EraEnding::Recursion(recursion) => EraEndingView::Recursion(*recursion),
            EraEnding::Apply(failure) => EraEndingView::Apply(failure@),
            EraEnding::Lost => EraEndingView::Lost,
            EraEnding::InputPanicked => EraEndingView::InputPanicked,
        }
    }
}

/// Why a committed owner has no successor to offer.
pub enum EraOwnerFailure {
    /// The transaction failed.
    Transaction(EraSwapError),
    /// The destructor of the superseded input panicked.
    InputDropPanic,
}

impl EraEnding {
    /// What the caller of the replacement gets.
    pub fn into_result(self) -> (r: Result<FiberHandle, EraOwnerFailure>)
        ensures
            match self@ {
                EraEndingView::Handed(handle) => r matches Ok(h) && h == handle,
                EraEndingView::Closed => r matches Err(
                    EraOwnerFailure::Transaction(EraSwapError::Closed),
                ),
                EraEndingView::Recursion(x) => r matches Err(
                    EraOwnerFailure::Transaction(EraSwapError::Recursion(y)),
                ) && y == x,
                EraEndingView::Apply(failure) => r matches Err(
                    EraOwnerFailure::Transaction(
                        EraSwapError::Incomplete(EraSwapFailure::SuccessorApply(f)),
                    ),
                ) && f@ == failure,
                EraEndingView::Lost => r matches Err(
                    EraOwnerFailure::Transaction(
                        EraSwapError::Incomplete(EraSwapFailure::SuccessorLost),
                    ),
                ),
                EraEndingView::InputPanicked => r matches Err(EraOwnerFailure::InputDropPanic),
            },
    {
        match self {
            EraEnding::Handed(handle) => Ok(handle),
            EraEnding::Closed => Err(EraOwnerFailure::Transaction(EraSwapError::Closed)),
            EraEnding::Recursion(recursion) => Err(
                EraOwnerFailure::Transaction(EraSwapError::Recursion(recursion)),
            ),
            EraEnding::Apply(failure) => Err(
                EraOwnerFailure::Transaction(
                    EraSwapError::Incomplete(EraSwapFailure::SuccessorApply(failure)),
                ),
            ),
            EraEnding::Lost => Err(
                EraOwnerFailure::Transaction(
                    EraSwapError::Incomplete(EraSwapFailure::SuccessorLost),
                ),
            ),
            EraEnding::InputPanicked => Err(EraOwnerFailure::InputDropPanic),
        }
    }
}

/// How a replacement ends when its successor's creation ended like this. A
/// successor does not gate on its origin, so a closed origin means it was lost.
pub open spec fn era_ending(result: Result<FiberHandle, SpawnErrorView>) -> EraEndingView {
    match result {
        Ok(handle) => EraEndingView::Handed(handle),
        Err(SpawnErrorView::InitialApply(failure)) => EraEndingView::Apply(failure),
        Err(_) => EraEndingView::Lost,
    }
}

fn ending_of(result: Result<FiberHandle, SpawnError>) -> (r: EraEnding)
    ensures
        r@ == era_ending(spawn_result(result)),
{
    match result {
        Ok(handle) => EraEnding::Handed(handle),
        Err(SpawnError::InactiveContext) => EraEnding::Lost,
        Err(error) => match map_spawn_failure(error) {
            EraSwapFailure::SuccessorApply(failure) => EraEnding::Apply(failure),
            _ => EraEnding::Lost,
        },
    }
}

/// Where an era replacement stands.
pub enum EraPhase {
    /// It waits for the source's settle slot; nothing is committed.
    Claim,
    /// The source's terminal barrier runs; the entry dependents come next.
    Terminal(Disposal, Vec<FiberId>),
    /// The dependents at the entry converge.
    Entry(Convergence),
    /// The superseded input is being destroyed; the successor's seal is ready.
    Superseded(TypedPlugin),
    /// The successor is created.
    Spawning(Spawn),
    /// The dependents converge a last time before the ending is reported.
    Final(Convergence, EraEnding),
    /// It is over.
    Over(EraEnding),
}

/// Where an era replacement stands, as a mathematical value.
#[verifier::ext_equal]
pub enum EraPhaseView {
    Claim,
    Terminal(DisposalView, Seq<FiberId>),
    Entry(ConvergenceView),
    Superseded(TypedPlugin),
    Spawning(SpawnPhaseView),
    Final(ConvergenceView, EraEndingView),
    Over(EraEndingView),
}

impl View for EraPhase {
    type V = EraPhaseView;

    open spec fn view(&self) -> EraPhaseView {
        match self {
            EraPhase::Claim => EraPhaseView::Claim,
            EraPhase::Terminal(disposal, entry) => EraPhaseView::Terminal(disposal@, entry@),
            EraPhase::Entry(convergence) => EraPhaseView::Entry(convergence@),
            EraPhase::Superseded(plugin) => EraPhaseView::Superseded(*plugin),
            EraPhase::Spawning(spawn) => EraPhaseView::Spawning(spawn@),
            EraPhase::Final(convergence, ending) => EraPhaseView::Final(convergence@, ending@),
            EraPhase::Over(ending) => EraPhaseView::Over(ending@),
        }
    }
}

/// One era replacement.
pub struct EraSwap {
    source: FiberId,
    change: PreparedChange,
    recipe: EraRecipe,
    by: SettleAttribution,
    edges: Vec<DependencyEdge>,
    phase: EraPhase,
}

/// An era replacement as a mathematical value.
#[verifier::ext_equal]
pub struct EraView {
    pub source: FiberId,
    pub change: PreparedChange,
    /// The diagnostic Plugin name.
    pub name: Seq<char>,
    /// The required Services.
    pub inject: Seq<InjectEntryView>,
    /// The Context the source was spawned from.
    pub spawning_ctx: ContextView,
    /// Which lifecycle work the caller runs inside of.
    pub by: SettleAttribution,
    /// The slots the source had published when it was claimed.
    pub edges: Seq<EdgeView>,
    pub phase: EraPhaseView,
}

/// What one step of an era replacement comes to.
#[verifier::ext_equal]
pub struct EraStep {
    pub root: RootView,
    pub era: EraView,
    /// What the host does next; `None` when the replacement is over.
    pub action: Option<ActionView>,
}

impl View for EraSwap {
    type V = EraView;

    closed spec fn view(&self) -> EraView {
        EraView {
            source: self.source,
            change: self.change,
            name: self.recipe.name@,
            inject: self.recipe.inject@,
            spawning_ctx: self.recipe.spawning_ctx@,
            by: self.by,
            edges: edge_views(self.edges@),
            phase: self.phase@,
        }
    }
}

/// Whether a dependent's wait would be a self-wait of the caller.
pub open spec fn refuses_swap(root: RootView, by: SettleAttribution) -> spec_fn(FiberId) -> bool {
    |f: FiberId| root.has(f) && root.is_recursive(by, f, LifecycleOperation::EraSwap)
}

impl RootView {
    /// The slots a Fiber has published.
    pub open spec fn published_edges(self, id: FiberId) -> Seq<EdgeView> {
        slot_edges(self.services.owned(id))
    }

    /// The Runtime with a Fiber's terminal claim made by the holder of its slot.
    pub open spec fn claiming_terminal(self, id: FiberId) -> RootView {
        let held = self.holding(id);
        held.with_fiber(id, FiberView { disposing: true, ..held.fiber(id) })
    }
}

impl EraView {
    /// The replacement at another phase.
    pub open spec fn at(self, phase: EraPhaseView) -> EraView {
        EraView { phase, ..self }
    }

    /// The end of a replacement.
    pub open spec fn over(self, root: RootView, ending: EraEndingView) -> EraStep {
        EraStep { root, era: self.at(EraPhaseView::Over(ending)), action: None }
    }

    /// The work of the next phase begins.
    pub open spec fn again(self, root: RootView, phase: EraPhaseView) -> EraStep {
        EraStep { root, era: self.at(phase), action: Some(ActionView::Again) }
    }

    /// The source claim. Everything up to it changes nothing: a busy slot is waited
    /// out, a dead source is closed, a dependent whose wait would be a self-wait is
    /// refused, and an earlier terminal claim wins.
    pub open spec fn claiming(self, root: RootView) -> EraStep {
        let fiber = root.fiber(self.source);
        let edges = root.published_edges(self.source);
        let entry = root.dependents_except(edges, seq![self.source]);
        if !(fiber.slot.inertia is Idle) {
            EraStep { root, era: self, action: Some(ActionView::Wait) }
        } else if !fiber.alive {
            self.over(root, EraEndingView::Closed)
        } else {
            match first(entry, refuses_swap(root, self.by)) {
                Some(dependent) => self.over(
                    root,
                    EraEndingView::Recursion(
                        LifecycleRecursion {
                            operation: LifecycleOperation::EraSwap,
                            fiber_id: dependent,
                        },
                    ),
                ),
                None => if fiber.disposing {
                    self.over(root, EraEndingView::Closed)
                } else {
                    (EraView { edges, ..self }).again(
                        root.claiming_terminal(self.source),
                        EraPhaseView::Terminal(
                            DisposalView {
                                fiber: self.source,
                                phase: DisposalPhaseView::Begin { frees_slot: true },
                            },
                            entry,
                        ),
                    )
                },
            }
        }
    }

    /// The last convergence: of the dependents of what the source had published
    /// and of what the successor has, asked for afresh.
    pub open spec fn finishing(self, root: RootView, ending: EraEndingView) -> EraStep {
        let fibers = match ending {
            EraEndingView::Handed(successor) => root.dependents_except(
                self.edges + root.published_edges(successor.fiber),
                seq![self.source, successor.fiber],
            ),
            _ => root.dependents_except(self.edges, seq![self.source]),
        };
        self.again(root, EraPhaseView::Final(ConvergenceView::begin(fibers), ending))
    }

    /// Once the entry dependents converged: the behavior moves into the
    /// successor's seal, and the superseded input is destroyed.
    pub open spec fn superseding(self, root: RootView) -> EraStep {
        match (root.fiber(self.source).spawn, root.sealed(self.source)) {
            (Some(s), Some(state)) => if s.accepts(self.change) {
                EraStep {
                    root: root.sealing(self.source, None),
                    era: self.at(
                        EraPhaseView::Superseded(
                            TypedPlugin {
                                contract: self.change.contract,
                                state: Some((state.0, self.change.input)),
                            },
                        ),
                    ),
                    action: Some(ActionView::Release { input: state.1 }),
                }
            } else {
                self.finishing(root, EraEndingView::Lost)
            },
            _ => self.finishing(root, EraEndingView::Lost),
        }
    }

    /// One step of an era replacement.
    pub open spec fn step(self, root: RootView, reply: ReplyView) -> EraStep {
        match self.phase {
            EraPhaseView::Claim => self.claiming(root),
            EraPhaseView::Terminal(disposal, entry) => {
                let step = disposal.step(root);
                match step.action {
                    Some(action) => EraStep {
                        root: step.root,
                        era: self.at(
                            EraPhaseView::Terminal(
                                DisposalView { phase: step.phase, ..disposal },
                                entry,
                            ),
                        ),
                        action: Some(action),
                    },
                    None => self.again(
                        step.root,
                        EraPhaseView::Entry(ConvergenceView::begin(entry)),
                    ),
                }
            },
            EraPhaseView::Entry(convergence) => {
                let step = convergence.step(root, self.by);
                match step.action {
                    Some(action) => EraStep {
                        root: step.root,
                        era: self.at(EraPhaseView::Entry(step.view)),
                        action: Some(action),
                    },
                    None => self.superseding(step.root),
                }
            },
            EraPhaseView::Superseded(plugin) => match reply {
                ReplyView::Released { panicked } => if panicked {
                    self.finishing(root, EraEndingView::InputPanicked)
                } else {
                    self.again(
                        root,
                        EraPhaseView::Spawning(
                            SpawnPhaseView::Start {
                                ctx: self.spawning_ctx,
                                plugin,
                                name: self.name,
                                inject: self.inject,
                                gated: false,
                            },
                        ),
                    )
                },
                _ => EraStep { root, era: self, action: Some(ActionView::Wait) },
            },
            EraPhaseView::Spawning(spawn) => {
                let step = spawn.step(root, reply);
                match step.action {
                    Some(action) => EraStep {
                        root: step.root,
                        era: self.at(EraPhaseView::Spawning(step.phase)),
                        action: Some(action),
                    },
                    None => match step.phase {
                        SpawnPhaseView::Over(result) => self.finishing(
                            step.root,
                            era_ending(result),
                        ),
                        _ => self.finishing(step.root, EraEndingView::Lost),
                    },
                }
            },
            EraPhaseView::Final(convergence, ending) => {
                let step = convergence.step(root, self.by);
                match step.action {
                    Some(action) => EraStep {
                        root: step.root,
                        era: self.at(EraPhaseView::Final(step.view, ending)),
                        action: Some(action),
                    },
                    None => self.over(step.root, ending),
                }
            },
            EraPhaseView::Over(ending) => self.over(root, ending),
        }
    }

    /// The recipe's declarations are normalized, and the successor is created from
    /// them.
    pub open spec fn normal(self) -> bool {
        &&& normalized(self.inject)
        &&& self.phase matches EraPhaseView::Spawning(
            SpawnPhaseView::Start { inject, .. },
        ) ==> normalized(inject)
    }

    /// The replacement is of Fibers of the Runtime.
    pub open spec fn wf(self, root: RootView) -> bool {
        &&& root.has(self.source)
        &&& match self.phase {
            EraPhaseView::Terminal(disposal, _) => disposal.fiber == self.source,
            EraPhaseView::Spawning(spawn) => spawn.wf(root),
            _ => true,
        }
    }
}

impl FiberHandle {
    /// Replaces this live Fiber with one freshly created successor era. Recursion,
    /// closure and the contract are judged, in this order, before anything is
    /// claimed.
    pub fn era_swap(&self, root: &Root, by: SettleAttribution, change: PreparedChange) -> (r: Result<
        EraSwap,
        EraSwapError,
    >)
        requires
            root@.has(self.fiber),
        ensures
            ({
                let fiber = root@.fiber(self.fiber);
                if root@.is_recursive(by, self.fiber, LifecycleOperation::EraSwap) {
                    r matches Err(EraSwapError::Recursion(x)) && x == (LifecycleRecursion {
                        operation: LifecycleOperation::EraSwap,
                        fiber_id: self.fiber,
                    })
                } else if !fiber.alive || fiber.disposing {
                    r matches Err(EraSwapError::Closed)
                } else {
                    match fiber.spawn {
                        Some(s) => if s.contract() == Some(change.contract) {
                            r matches Ok(era) && era@ == (EraView {
                                source: self.fiber,
                                change,
                                name: s.name,
                                inject: s.inject,
                                spawning_ctx: s.spawning_ctx,
                                by,
                                edges: Seq::empty(),
                                phase: EraPhaseView::Claim,
                            })
                        } else {
                            r matches Err(EraSwapError::PluginContractMismatch)
                        },
                        None => r matches Err(EraSwapError::PluginContractMismatch),
                    }
                }
            }),
    {
        let id = self.fiber;
        match by.refuse_recursion(id, root.fiber(id).draining, LifecycleOperation::EraSwap) {
            Err(recursion) => {
                return Err(EraSwapError::Recursion(recursion));
            },
            Ok(_) => {},
        }
        if !root.fiber(id).alive || root.fiber(id).disposing {
            return Err(EraSwapError::Closed);
        }
        let matched = match root.fiber(id).spawn_state.contract() {
            Some(contract) => contract == change.contract(),
            None => false,
        };
        if !matched {
            return Err(EraSwapError::PluginContractMismatch);
        }
        match root.fiber(id).spawn_state.era_recipe() {
            Ok(recipe) => {
                let edges: Vec<DependencyEdge> = Vec::new();
                assert(edge_views(edges@) =~= Seq::empty());
                Ok(EraSwap { source: id, change, recipe, by, edges, phase: EraPhase::Claim })
            },
            Err(_) => Err(EraSwapError::Closed),
        }
    }
}

fn first_refusal(root: &Root, by: &SettleAttribution, fibers: &Vec<FiberId>) -> (r: Option<
    LifecycleRecursion,
>)
    ensures
        match first(fibers@, refuses_swap(root@, *by)) {
            Some(f) => r == Some(
                LifecycleRecursion { operation: LifecycleOperation::EraSwap, fiber_id: f },
            ),
            None => r is None,
        },
{
    let ghost p = refuses_swap(root@, *by);
    let mut i: usize = 0;
    while i < fibers.len()
        invariant
            i <= fibers@.len(),
            p == refuses_swap(root@, *by),
            forall|j: int| 0 <= j < i ==> !p(#[trigger] fibers@[j]),
        decreases fibers@.len() - i,
    {
        let id = fibers[i];
        if root.has_fiber(id) {
            match by.refuse_recursion(id, root.fiber(id).draining, LifecycleOperation::EraSwap) {
                Err(recursion) => {
                    proof {
                        assert(is_first(fibers@, p, i as int));
                        lemma_first_found(fibers@, p, i as int);
                    }
                    return Some(recursion);
                },
                Ok(_) => {},
            }
        }
        i = i + 1;
    }
    proof {
        lemma_first_absent(fibers@, p);
    }
    None
}

impl EraSwap {
    fn claim(&mut self, root: &mut Root) -> (r: Option<Action>)
        requires
            old(root).wf(),
            old(root)@.has(old(self)@.source),
            old(self)@.phase is Claim,
        ensures
            final(root).wf(),
            final(root)@ == old(self)@.claiming(old(root)@).root,
            final(self)@ == old(self)@.claiming(old(root)@).era,
            action_view(r) == old(self)@.claiming(old(root)@).action,
    {
        let id = self.source;
        if !root.fiber(id).slot.is_idle() {
            return Some(Action::Wait);
        }
        if !root.fiber(id).alive {
            self.phase = EraPhase::Over(EraEnding::Closed);
            return None;
        }
        let edges = root.services().slots_owned_by(id);
        let mut skip: Vec<FiberId> = Vec::new();
        skip.push(id);
        assert(skip@ =~= seq![id]);
        let entry = capture_dependents(root, &edges, &skip);
        match first_refusal(root, &self.by, &entry) {
            Some(recursion) => {
                self.phase = EraPhase::Over(EraEnding::Recursion(recursion));
                return None;
            },
            None => {},
        }
        if root.fiber(id).disposing {
            self.phase = EraPhase::Over(EraEnding::Closed);
            return None;
        }
        let _ = root.fiber_mut(id).slot.try_claim();
        root.fiber_mut(id).disposing = true;
        assert(root@ =~= old(root)@.claiming_terminal(id));
        self.edges = edges;
        self.phase = EraPhase::Terminal(Disposal::complete_claimed_dispose(id), entry);
        Some(Action::Again)
    }

    fn finish(&mut self, root: &Root, ending: EraEnding) -> (r: Option<Action>)
        ensures
            old(self)@.finishing(root@, ending@).root == root@,
            final(self)@ == old(self)@.finishing(root@, ending@).era,
            action_view(r) == old(self)@.finishing(root@, ending@).action,
    {
        let mut skip: Vec<FiberId> = Vec::new();
        skip.push(self.source);
        let fibers = match &ending {
            EraEnding::Handed(successor) => {
                skip.push(successor.fiber);
                assert(skip@ =~= seq![self.source, successor.fiber]);
                let mut edges = duplicate_edges(&self.edges);
                let ghost mine = edges@;
                let mut more = root.services().slots_owned_by(successor.fiber);
                let ghost theirs = more@;
                edges.append(&mut more);
                assert(edge_views(edges@) =~= edge_views(mine) + edge_views(theirs));
                capture_dependents(root, &edges, &skip)
            },
            _ => {
                assert(skip@ =~= seq![self.source]);
                capture_dependents(root, &self.edges, &skip)
            },
        };
        self.phase = EraPhase::Final(Convergence::new(fibers), ending);
        Some(Action::Again)
    }

    fn supersede(&mut self, root: &mut Root) -> (r: Option<Action>)
        requires
            old(root).wf(),
            old(root)@.has(old(self)@.source),
        ensures
            final(root).wf(),
            final(root)@ == old(self)@.superseding(old(root)@).root,
            final(self)@ == old(self)@.superseding(old(root)@).era,
            action_view(r) == old(self)@.superseding(old(root)@).action,
    {
        let id = self.source;
        match root.fiber(id).spawn_state.sealed() {
            Some((_, input)) => {
                let change = PreparedChange::from_parts(self.change.contract, self.change.input);
                match root.fiber_mut(id).spawn_state.into_successor(change) {
                    Ok(plugin) => {
                        assert(root@ =~= old(root)@.sealing(id, None));
                        self.phase = EraPhase::Superseded(plugin);
                        Some(Action::Release { input })
                    },
                    Err(_) => {
                        assert(root@ =~= old(root)@);
                        self.finish(root, EraEnding::Lost)
                    },
                }
            },
            None => self.finish(root, EraEnding::Lost),
        }
    }

    /// Goes on with the host's answer; says what the host does next, or nothing
    /// when the replacement is over.
    pub fn step(&mut self, root: &mut Root, reply: Reply) -> (r: Option<Action>)
        requires
            old(root).wf(),
            old(self)@.wf(old(root)@),
            old(root)@.room(7),
        ensures
            final(root).wf(),
            final(root)@ == old(self)@.step(old(root)@, reply@).root,
            final(self)@ == old(self)@.step(old(root)@, reply@).era,
            final(self)@.wf(final(root)@),
            action_view(r) == old(self)@.step(old(root)@, reply@).action,
    {
        proof {
            lemma_room_less(root@, 6);
            lemma_room_less(root@, 5);
            lemma_room_less(root@, 4);
            lemma_room_less(root@, 3);
            lemma_room_less(root@, 2);
        }
        let mut phase = EraPhase::Claim;
        std::mem::swap(&mut phase, &mut self.phase);
        match phase {
            EraPhase::Claim => self.claim(root),
            EraPhase::Terminal(disposal, entry) => {
                let mut disposal = disposal;
                proof {
                    lemma_disposal_step_room(disposal@, root@, 0);
                }
                match disposal.step(root) {
                    Some(action) => {
                        self.phase = EraPhase::Terminal(disposal, entry);
                        Some(action)
                    },
                    None => {
                        self.phase = EraPhase::Entry(Convergence::new(entry));
                        Some(Action::Again)
                    },
                }
            },
            EraPhase::Entry(convergence) => {
                let mut convergence = convergence;
                proof {
                    lemma_converge_counters(convergence@, root@, self@.by);
                }
                match convergence.step(root, &self.by) {
                    Some(action) => {
                        self.phase = EraPhase::Entry(convergence);
                        Some(action)
                    },
                    None => self.supersede(root),
                }
            },
            EraPhase::Superseded(plugin) => match reply {
                Reply::Released { panicked } => {
                    if panicked {
                        self.finish(root, EraEnding::InputPanicked)
                    } else {
                        let prepared = PreparedPlugin {
                            plugin,
                            name: self.recipe.name.clone(),
                            inject: self.recipe.inject.duplicate(),
                        };
                        self.phase = EraPhase::Spawning(
                            Spawn::era_successor(self.recipe.spawning_ctx.duplicate(), prepared),
                        );
                        Some(Action::Again)
                    }
                },
                _ => {
                    self.phase = EraPhase::Superseded(plugin);
                    Some(Action::Wait)
                },
            },
            EraPhase::Spawning(spawn) => {
                let mut spawn = spawn;
                proof {
                    lemma_spawn_keeps_fibers(spawn@, root@, reply@);
                }
                match spawn.step(root, reply) {
                    Some(action) => {
                        self.phase = EraPhase::Spawning(spawn);
                        Some(action)
                    },
                    None => match spawn.outcome() {
                        Some(result) => self.finish(root, ending_of(result)),
                        None => self.finish(root, EraEnding::Lost),
                    },
                }
            },
            EraPhase::Final(convergence, ending) => {
                let mut convergence = convergence;
                proof {
                    lemma_converge_counters(convergence@, root@, self@.by);
                }
                match convergence.step(root, &self.by) {
                    Some(action) => {
                        self.phase = EraPhase::Final(convergence, ending);
                        Some(action)
                    },
                    None => {
                        self.phase = EraPhase::Over(ending);
                        None
                    },
                }
            },
            EraPhase::Over(ending) => {
                self.phase = EraPhase::Over(ending);
                None
            },
        }
    }

    /// How the replacement ended, once it is over.
    pub fn outcome(self) -> (r: Option<EraEnding>)
        ensures
            match self@.phase {
                EraPhaseView::Over(ending) => r matches Some(e) && e@ == ending,
                _ => r is None,
            },
    {
        match self.phase {
            EraPhase::Over(ending) => Some(ending),
            _ => None,
        }
    }
}

/// Where the cleanup of an undelivered successor stands.
pub enum UndeliveredPhase {
    /// The successor is disposed.
    Disposing(Disposal),
    /// The dependents converge.
    Converging(Convergence),
    /// It is over.
    Over,
}

/// Where the cleanup stands, as a mathematical value.
#[verifier::ext_equal]
pub enum UndeliveredPhaseView {
    Disposing(DisposalView),
    Converging(ConvergenceView),
    Over,
}

impl View for UndeliveredPhase {
    type V = UndeliveredPhaseView;

    open spec fn view(&self) -> UndeliveredPhaseView {
        match self {
            UndeliveredPhase::Disposing(disposal) => UndeliveredPhaseView::Disposing(disposal@),
            UndeliveredPhase::Converging(convergence) => UndeliveredPhaseView::Converging(
                convergence@,
            ),
            UndeliveredPhase::Over => UndeliveredPhaseView::Over,
        }
    }
}

/// The cleanup of a successor that was offered and never accepted.
pub struct UndeliveredSuccessor {
    source: FiberId,
    successor: FiberId,
    by: SettleAttribution,
    edges: Vec<DependencyEdge>,
    phase: UndeliveredPhase,
}

/// The cleanup as a mathematical value.
#[verifier::ext_equal]
pub struct UndeliveredView {
    pub source: FiberId,
    pub successor: FiberId,
    pub by: SettleAttribution,
    /// The slots of both eras.
    pub edges: Seq<EdgeView>,
    pub phase: UndeliveredPhaseView,
}

/// What one step of the cleanup comes to.
#[verifier::ext_equal]
pub struct UndeliveredStep {
    pub root: RootView,
    pub phase: UndeliveredPhaseView,
    /// What the host does next; `None` when the cleanup is over.
    pub action: Option<ActionView>,
}

impl View for UndeliveredSuccessor {
    type V = UndeliveredView;

    closed spec fn view(&self) -> UndeliveredView {
        UndeliveredView {
            source: self.source,
            successor: self.successor,
            by: self.by,
            edges: edge_views(self.edges@),
            phase: self.phase@,
        }
    }
}

impl UndeliveredView {
    /// One step of the cleanup: the successor is disposed, then the dependents of
    /// both eras converge.
    pub open spec fn step(self, root: RootView) -> UndeliveredStep {
        match self.phase {
            UndeliveredPhaseView::Disposing(disposal) => {
                let step = disposal.step(root);
                match step.action {
                    Some(action) => UndeliveredStep {
                        root: step.root,
                        phase: UndeliveredPhaseView::Disposing(
                            DisposalView { phase: step.phase, ..disposal },
                        ),
                        action: Some(action),
                    },
                    None => UndeliveredStep {
                        root: step.root,
                        phase: UndeliveredPhaseView::Converging(
                            ConvergenceView::begin(
                                step.root.dependents_except(
                                    self.edges,
                                    seq![self.source, self.successor],
                                ),
                            ),
                        ),
                        action: Some(ActionView::Again),
                    },
                }
            },
            UndeliveredPhaseView::Converging(convergence) => {
                let step = convergence.step(root, self.by);
                match step.action {
                    Some(action) => UndeliveredStep {
                        root: step.root,
                        phase: UndeliveredPhaseView::Converging(step.view),
                        action: Some(action),
                    },
                    None => UndeliveredStep {
                        root: step.root,
                        phase: UndeliveredPhaseView::Over,
                        action: None,
                    },
                }
            },
            UndeliveredPhaseView::Over => UndeliveredStep {
                root,
                phase: UndeliveredPhaseView::Over,
                action: None,
            },
        }
    }

    /// The cleanup is of a Fiber of the Runtime.
    pub open spec fn wf(self, root: RootView) -> bool {
        match self.phase {
            UndeliveredPhaseView::Disposing(disposal) => root.has(disposal.fiber),
            _ => true,
        }
    }
}

impl EraSwap {
    /// Abandons a replacement that is over: a successor that was handed off and
    /// never accepted is cleaned up; nothing else is left to do.
    pub fn undelivered(self, root: &Root) -> (r: Option<UndeliveredSuccessor>)
        ensures
            match self@.phase {
                EraPhaseView::Over(EraEndingView::Handed(successor)) => r matches Some(u) && u@
                    == (UndeliveredView {
                    source: self@.source,
                    successor: successor.fiber,
                    by: self@.by,
                    edges: self@.edges + root@.published_edges(successor.fiber),
                    phase: UndeliveredPhaseView::Disposing(
                        DisposalView { fiber: successor.fiber, phase: DisposalPhaseView::Claim },
                    ),
                }),
                _ => r is None,
            },
    {
        match self.phase {
            EraPhase::Over(EraEnding::Handed(successor)) => {
                let mut edges = self.edges;
                let ghost mine = edges@;
                let mut more = root.services().slots_owned_by(successor.fiber);
                let ghost theirs = more@;
                edges.append(&mut more);
                assert(edge_views(edges@) =~= edge_views(mine) + edge_views(theirs));
                Some(
                    UndeliveredSuccessor {
                        source: self.source,
                        successor: successor.fiber,
                        by: self.by,
                        edges,
                        phase: UndeliveredPhase::Disposing(Disposal::new(successor.fiber)),
                    },
                )
            },
            _ => None,
        }
    }
}

impl UndeliveredSuccessor {
    /// Goes on; says what the host does next, or nothing when the cleanup is over.
    pub fn step(&mut self, root: &mut Root) -> (r: Option<Action>)
        requires
            old(root).wf(),
            old(self)@.wf(old(root)@),
            old(root)@.room(2),
        ensures
            final(root).wf(),
            final(root)@ == old(self)@.step(old(root)@).root,
            final(self)@ == (UndeliveredView {
                phase: old(self)@.step(old(root)@).phase,
                ..old(self)@
            }),
            final(self)@.wf(final(root)@),
            action_view(r) == old(self)@.step(old(root)@).action,
    {
        let mut phase = UndeliveredPhase::Over;
        std::mem::swap(&mut phase, &mut self.phase);
        match phase {
            UndeliveredPhase::Disposing(disposal) => {
                let mut disposal = disposal;
                proof {
                    lemma_disposal_step_room(disposal@, root@, 0);
                }
                match disposal.step(root) {
                    Some(action) => {
                        self.phase = UndeliveredPhase::Disposing(disposal);
                        Some(action)
                    },
                    None => {
                        let mut skip: Vec<FiberId> = Vec::new();
                        skip.push(self.source);
                        skip.push(self.successor);
                        assert(skip@ =~= seq![self.source, self.successor]);
                        let fibers = capture_dependents(root, &self.edges, &skip);
                        self.phase = UndeliveredPhase::Converging(Convergence::new(fibers));
                        Some(Action::Again)
                    },
                }
            },
            UndeliveredPhase::Converging(convergence) => {
                let mut convergence = convergence;
                match convergence.step(root, &self.by) {
                    Some(action) => {
                        self.phase = UndeliveredPhase::Converging(convergence);
                        Some(action)
                    },
                    None => None,
                }
            },
            UndeliveredPhase::Over => None,
        }
    }
}

/// A replacement that is refused at its claim, or still waits for it, has changed
/// nothing.
pub proof fn law_a_replacement_before_its_claim_changes_nothing(era: EraView, root: RootView)
    requires
        era.phase is Claim,
        !(era.claiming(root).era.phase is Terminal),
    ensures
        era.claiming(root).root == root,
{
}

/// One live source is claimed by one replacement: while the first holds the slot
/// another waits, and once the slot is back another finds the source closed.
pub proof fn law_a_claimed_source_is_closed_to_others(
    era: EraView,
    root: RootView,
    later: RootView,
)
    requires
        root.has(era.source),
        later.fiber(era.source).slot.inertia is Idle,
        !later.fiber(era.source).alive,
    ensures
        era.claiming(root.claiming_terminal(era.source)).action == Some(ActionView::Wait),
        era.claiming(root.claiming_terminal(era.source)).root == root.claiming_terminal(era.source),
        era.claiming(later).era.phase == EraPhaseView::Over(EraEndingView::Closed),
        era.claiming(later).root == later,
{
}

/// The claim of a source closes its generation at once: nothing can be published
/// or registered on it any more.
pub proof fn law_a_claimed_source_admits_nothing(root: RootView, source: FiberId)
    requires
        root.has(source),
    ensures
        !root.claiming_terminal(source).admits(source),
{
}

/// A successor does not gate on the liveness of the Context its recipe captured:
/// its creation never ends with a refusal for a closed origin.
pub proof fn law_a_successor_is_never_refused_for_its_origin(
    phase: SpawnPhaseView,
    root: RootView,
    reply: ReplyView,
)
    requires
        phase matches SpawnPhaseView::Start { gated, .. } && !gated || phase is Initial
            || phase is Handoff,
    ensures
        phase.step(root, reply).phase matches SpawnPhaseView::Over(result) ==> !(result
            == Err::<FiberHandle, SpawnErrorView>(SpawnErrorView::InactiveContext)),
{
}

} // verus!
