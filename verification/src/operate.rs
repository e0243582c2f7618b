//! Lifecycle operations on a handle, and the removal of a Plugin group.

use crate::context::Context;
use crate::dispose::{lemma_disposal_step_room, Disposal, DisposalPhaseView, DisposalView};
use crate::handle::FiberHandle;
use crate::ids::{ContractId, FiberId};
use crate::lifecycle::{
    is_recursive, LifecycleOperation, LifecycleRecursion, PluginFailure, PluginFailureView,
    ReadyError, RestartError, SettleAttribution, UpdateError, UpdateOutcome, WaitStateError,
};
use crate::plugin::PreparedChange;
use crate::registry::PluginKey;
use crate::replace::{
    ReplacementOutcome, ReplacementOutcomeView, ReplacementPass, ReplacementPhaseView,
    ReplacementView,
};
use crate::root::{Root, RootView};
use crate::settle::{action_view, Action, ActionView};
use crate::state::{FiberState, WaitStep};
use crate::update::{ControlView, UpdateControl};
use vstd::prelude::*;

verus! {

impl RootView {
    /// Whether an operation on a Fiber would wait on work that waits on its
    /// caller.
    pub open spec fn is_recursive(
        self,
        by: SettleAttribution,
        id: FiberId,
        operation: LifecycleOperation,
    ) -> bool {
        is_recursive(by.settling@, by.tasks@, id, self.fiber(id).draining, operation)
    }
}

/// How a wait for quiescence stands.
pub enum ReadyStep {
    /// The Fiber is not quiescent: wait until the Runtime changed.
    Wait,
    /// The Fiber is quiescent in this state.
    Settled(FiberState),
    /// The Fiber is quiescent on a parked failure.
    Failed(PluginFailure),
}

/// How a wait for quiescence stands, as a mathematical value.
pub enum ReadyStepView {
    Wait,
    Settled(FiberState),
    Failed(PluginFailureView),
}

impl View for ReadyStep {
    type V = ReadyStepView;

    open spec fn view(&self) -> ReadyStepView {
        match self {
            ReadyStep::Wait => ReadyStepView::Wait,
            ReadyStep::Settled(state) => ReadyStepView::Settled(*state),
            ReadyStep::Failed(failure) => ReadyStepView::Failed(failure@),
        }
    }
}

impl RootView {
    /// The Runtime after one poll of a wait for quiescence: an outstanding recheck
    /// is driven first.
    pub open spec fn readying(self, id: FiberId) -> RootView {
        if self.fiber(id).slot.outstanding() {
            self.kick(id)
        } else {
            self
        }
    }

    /// What a poll of a wait for quiescence answers in this state.
    pub open spec fn ready_answer(self, id: FiberId) -> ReadyStepView {
        let fiber = self.fiber(id);
        if !(fiber.slot.inertia is Idle) || fiber.slot.outstanding() {
            ReadyStepView::Wait
        } else if fiber.current() is Failed {
            ReadyStepView::Failed(self.first_failure(id))
        } else {
            ReadyStepView::Settled(fiber.current())
        }
    }
}

impl Root {
    /// One poll of a wait for quiescence.
    pub fn ready_step(&mut self, id: FiberId) -> (r: ReadyStep)
        requires
            old(self).wf(),
            old(self)@.has(id),
        ensures
            final(self).wf(),
            final(self)@ == old(self)@.readying(id),
            r@ == old(self)@.readying(id).ready_answer(id),
    {
        if self.fiber(id).slot.has_committed_recheck() {
            self.kick(id);
        }
        if !self.fiber(id).slot.is_idle() || self.fiber(id).slot.has_committed_recheck() {
            return ReadyStep::Wait;
        }
        let state = self.fiber(id).state.current();
        if state == FiberState::Failed {
            match self.fiber(id).parked_failure() {
                Some(failure) => ReadyStep::Failed(failure),
                None => ReadyStep::Failed(
                    PluginFailure::returned("plugin failed without a parked failure".to_owned()),
                ),
            }
        } else {
            ReadyStep::Settled(state)
        }
    }
}

/// A wait for quiescence that was admitted.
#[derive(Clone, Copy, PartialEq, Eq, Structural, Debug)]
pub struct Ready {
    /// The Fiber.
    pub fiber: FiberId,
}

impl Ready {
    /// One poll: `None` while the Fiber is not quiescent.
    pub fn poll(&self, root: &mut Root) -> (r: Option<Result<FiberState, ReadyError>>)
        requires
            old(root).wf(),
            old(root)@.has(self.fiber),
        ensures
            final(root).wf(),
            final(root)@ == old(root)@.readying(self.fiber),
            match final(root)@.ready_answer(self.fiber) {
                ReadyStepView::Wait => r is None,
                ReadyStepView::Settled(state) => r matches Some(Ok(s)) && s == state,
                ReadyStepView::Failed(failure) => r matches Some(Err(ReadyError::Apply(f))) && f@
                    == failure,
            },
    {
        match root.ready_step(self.fiber) {
            ReadyStep::Wait => None,
            ReadyStep::Settled(state) => Some(Ok(state)),
            ReadyStep::Failed(failure) => Some(Err(ReadyError::Apply(failure))),
        }
    }
}

/// A wait for the publication of one state.
#[derive(Clone, Copy, PartialEq, Eq, Structural, Debug)]
pub struct StateWait {
    /// The Fiber.
    pub fiber: FiberId,
    /// The requested state.
    pub target: FiberState,
    /// The revision of the state when the wait began.
    pub baseline: u64,
}

impl StateWait {
    /// One poll: `None` while neither the state was published nor the deadline
    /// passed. A publication wins over the deadline.
    pub fn poll(&self, root: &Root, deadline_passed: bool) -> (r: Option<
        Result<(), WaitStateError>,
    >)
        requires
            root@.has(self.fiber),
        ensures
            r == (if root@.fiber(self.fiber).state.satisfied(self.target, self.baseline) {
                Some(Ok::<(), WaitStateError>(()))
            } else if deadline_passed {
                Some(Err::<(), WaitStateError>(WaitStateError::Elapsed))
            } else {
                None
            }),
    {
        match root.fiber(self.fiber).state.wait_for_after(
            self.target,
            self.baseline,
            deadline_passed,
        ) {
            WaitStep::Satisfied => Some(Ok(())),
            WaitStep::Elapsed => Some(Err(WaitStateError::Elapsed)),
            WaitStep::Wait => None,
        }
    }
}

impl FiberHandle {
    fn refuse(&self, root: &Root, by: &SettleAttribution, operation: LifecycleOperation) -> (r:
        Result<(), LifecycleRecursion>)
        requires
            root@.has(self.fiber),
        ensures
            r == (if root@.is_recursive(*by, self.fiber, operation) {
                Err::<(), LifecycleRecursion>(
                    LifecycleRecursion { operation, fiber_id: self.fiber },
                )
            } else {
                Ok::<(), LifecycleRecursion>(())
            }),
    {
        by.refuse_recursion(self.fiber, root.fiber(self.fiber).draining, operation)
    }

    /// Drives or awaits convergence to the current live target. A doomed
    /// self-wait is refused first.
    pub fn ready(&self, root: &Root, by: &SettleAttribution) -> (r: Result<Ready, ReadyError>)
        requires
            root@.has(self.fiber),
        ensures
            if root@.is_recursive(*by, self.fiber, LifecycleOperation::Ready) {
                r matches Err(ReadyError::Recursion(x)) && x == (LifecycleRecursion {
                    operation: LifecycleOperation::Ready,
                    fiber_id: self.fiber,
                })
            } else {
                r matches Ok(ready) && ready.fiber == self.fiber
            },
    {
        match self.refuse(root, by, LifecycleOperation::Ready) {
            Err(recursion) => Err(ReadyError::Recursion(recursion)),
            Ok(_) => Ok(Ready { fiber: self.fiber }),
        }
    }

    /// Passively observes the publication of `state`. It never claims or drives
    /// the settle slot.
    pub fn wait_state(&self, root: &Root, by: &SettleAttribution, state: FiberState) -> (r: Result<
        StateWait,
        WaitStateError,
    >)
        requires
            root@.has(self.fiber),
        ensures
            r == (if root@.is_recursive(*by, self.fiber, LifecycleOperation::WaitState) {
                Err::<StateWait, WaitStateError>(
                    WaitStateError::Recursion(
                        LifecycleRecursion {
                            operation: LifecycleOperation::WaitState,
                            fiber_id: self.fiber,
                        },
                    ),
                )
            } else {
                Ok::<StateWait, WaitStateError>(
                    StateWait {
                        fiber: self.fiber,
                        target: state,
                        baseline: root@.fiber(self.fiber).state.revision(state),
                    },
                )
            }),
    {
        match self.refuse(root, by, LifecycleOperation::WaitState) {
            Err(recursion) => Err(WaitStateError::Recursion(recursion)),
            Ok(_) => {
                let (_, baseline) = root.fiber(self.fiber).state.snapshot(state);
                Ok(StateWait { fiber: self.fiber, target: state, baseline })
            },
        }
    }

    /// Terminally disposes this Fiber. A self-wait is refused before the terminal
    /// claim.
    pub fn dispose(&self, root: &Root, by: &SettleAttribution) -> (r: Result<
        Disposal,
        LifecycleRecursion,
    >)
        requires
            root@.has(self.fiber),
        ensures
            if root@.is_recursive(*by, self.fiber, LifecycleOperation::Dispose) {
                r matches Err(x) && x == (LifecycleRecursion {
                    operation: LifecycleOperation::Dispose,
                    fiber_id: self.fiber,
                })
            } else {
                r matches Ok(d) && d@ == (DisposalView {
                    fiber: self.fiber,
                    phase: DisposalPhaseView::Claim,
                })
            },
    {
        match self.refuse(root, by, LifecycleOperation::Dispose) {
            Err(recursion) => Err(recursion),
            Ok(_) => Ok(Disposal::new(self.fiber)),
        }
    }

    /// Restarts this same Fiber. A doomed self-wait is refused before liveness is
    /// judged.
    pub fn restart(&self, root: &Root, by: &SettleAttribution) -> (r: Result<
        ReplacementPass,
        RestartError,
    >)
        requires
            root@.has(self.fiber),
        ensures
            if root@.is_recursive(*by, self.fiber, LifecycleOperation::Restart) {
                r matches Err(RestartError::Recursion(x)) && x == (LifecycleRecursion {
                    operation: LifecycleOperation::Restart,
                    fiber_id: self.fiber,
                })
            } else if !root@.fiber(self.fiber).alive {
                r matches Err(RestartError::Closed)
            } else {
                r matches Ok(pass) && pass@ == (ReplacementView {
                    fiber: self.fiber,
                    phase: ReplacementPhaseView::Claim(None),
                })
            },
    {
        match self.refuse(root, by, LifecycleOperation::Restart) {
            Err(recursion) => Err(RestartError::Recursion(recursion)),
            Ok(_) => {
                if !root.fiber(self.fiber).alive {
                    Err(RestartError::Closed)
                } else {
                    Ok(ReplacementPass::restart(self.fiber))
                }
            },
        }
    }

    /// What a restart reports for how its replacement ended. A restart supersedes no
    /// input, so it always has a result.
    pub fn restarted(outcome: ReplacementOutcome) -> (r: Option<Result<(), RestartError>>)
        ensures
            match outcome@ {
                ReplacementOutcomeView::Refused => r matches Some(Err(RestartError::Closed)),
                ReplacementOutcomeView::Settled(_) => r matches Some(Ok(_)),
                ReplacementOutcomeView::Failed(failure) => r matches Some(
                    Err(RestartError::Apply(f)),
                ) && f@ == failure,
                ReplacementOutcomeView::InputPanicked => r is None,
            },
    {
        match outcome {
            ReplacementOutcome::Refused => Some(Err(RestartError::Closed)),
            ReplacementOutcome::Settled(_) => Some(Ok(())),
            ReplacementOutcome::Failed(failure) => Some(Err(RestartError::Apply(failure))),
            ReplacementOutcome::InputPanicked => None,
        }
    }

    /// Begins a same-Fiber update: recursion, liveness and contract are judged, in
    /// this order, before control runs over the change.
    pub fn update(&self, root: &Root, by: &SettleAttribution, change: &PreparedChange) -> (r: Result<
        UpdateControl,
        UpdateError,
    >)
        requires
            root@.has(self.fiber),
        ensures
            ({
                let fiber = root@.fiber(self.fiber);
                if root@.is_recursive(*by, self.fiber, LifecycleOperation::Update) {
                    r matches Err(UpdateError::Recursion(x)) && x == (LifecycleRecursion {
                        operation: LifecycleOperation::Update,
                        fiber_id: self.fiber,
                    })
                } else if !fiber.alive {
                    r matches Err(UpdateError::Closed)
                } else {
                    match fiber.spawn {
                        Some(s) => if s.contract() == Some(change.contract) {
                            r matches Ok(control) && control@.wf() && control@
                                == ControlView::begin(
                                change.contract,
                                root@.updates.snapshot(change.contract, s.scope.scope),
                            )
                        } else {
                            r matches Err(UpdateError::PluginContractMismatch)
                        },
                        None => r matches Err(UpdateError::PluginContractMismatch),
                    }
                }
            }),
    {
        match self.refuse(root, by, LifecycleOperation::Update) {
            Err(recursion) => {
                return Err(UpdateError::Recursion(recursion));
            },
            Ok(_) => {},
        }
        if !root.fiber(self.fiber).alive {
            return Err(UpdateError::Closed);
        }
        let matched = match root.fiber(self.fiber).spawn_state.contract() {
            Some(contract) => contract == change.contract(),
            None => false,
        };
        if !matched {
            return Err(UpdateError::PluginContractMismatch);
        }
        match root.fiber(self.fiber).spawn_state.required_context_for(self.fiber) {
            Ok(ctx) => Ok(UpdateControl::begin(root.updates(), change.contract(), &ctx.scope)),
            Err(_) => Err(UpdateError::Closed),
        }
    }

    /// What follows control: a vetoed update is over, an accepted candidate is
    /// committed.
    pub fn controlled(&self, accepted: Option<PreparedChange>) -> (r: Result<
        ReplacementPass,
        UpdateOutcome,
    >)
        ensures
            match accepted {
                Some(change) => r matches Ok(pass) && pass@ == (ReplacementView {
                    fiber: self.fiber,
                    phase: ReplacementPhaseView::Claim(Some(change)),
                }),
                None => r matches Err(UpdateOutcome::Vetoed),
            },
    {
        match accepted {
            Some(change) => Ok(ReplacementPass::update(self.fiber, change)),
            None => Err(UpdateOutcome::Vetoed),
        }
    }

    /// What an update reports for how its replacement ended. There is no result
    /// where the destructor of the superseded input panicked: the panic goes on in
    /// the caller.
    pub fn updated(outcome: ReplacementOutcome) -> (r: Option<Result<UpdateOutcome, UpdateError>>)
        ensures
            match outcome@ {
                ReplacementOutcomeView::Refused => r matches Some(Err(UpdateError::AdmissionLost)),
                ReplacementOutcomeView::Settled(state) => r matches Some(Ok(o)) && o
                    == UpdateOutcome::Committed(state),
                ReplacementOutcomeView::Failed(failure) => r matches Some(
                    Err(UpdateError::Apply(f)),
                ) && f@ == failure,
                ReplacementOutcomeView::InputPanicked => r is None,
            },
    {
        match outcome {
            ReplacementOutcome::Refused => Some(Err(UpdateError::AdmissionLost)),
            ReplacementOutcome::Settled(state) => Some(Ok(UpdateOutcome::Committed(state))),
            ReplacementOutcome::Failed(failure) => Some(Err(UpdateError::Apply(failure))),
            ReplacementOutcome::InputPanicked => None,
        }
    }
}

/// Whether the member at a position refuses a removal by this caller.
pub open spec fn removal_refused(
    root: RootView,
    by: SettleAttribution,
    fibers: Seq<FiberId>,
    i: int,
) -> bool {
    &&& 0 <= i < fibers.len()
    &&& root.has(fibers[i])
    &&& root.is_recursive(by, fibers[i], LifecycleOperation::RemovePlugins)
}

/// The removal of one Plugin group: its frozen members are disposed one after the
/// other.
pub struct GroupRemoval {
    fibers: Vec<FiberId>,
    index: usize,
    disposal: Option<Disposal>,
}

/// A removal as a mathematical value.
#[verifier::ext_equal]
pub struct RemovalView {
    /// The members frozen at the detach.
    pub fibers: Seq<FiberId>,
    /// How many of them are disposed.
    pub index: nat,
    /// The disposal in progress.
    pub disposal: Option<DisposalView>,
}

impl View for GroupRemoval {
    type V = RemovalView;

    closed spec fn view(&self) -> RemovalView {
        RemovalView {
            fibers: self.fibers@,
            index: self.index as nat,
            disposal: match self.disposal {
                Some(d) => Some(d@),
                None => None,
            },
        }
    }
}

/// What one step of a removal comes to.
#[verifier::ext_equal]
pub struct RemovalStep {
    pub root: RootView,
    pub removal: RemovalView,
    /// What the host does next; `None` when every member is disposed.
    pub action: Option<ActionView>,
}

impl RemovalView {
    /// The disposal of the member whose turn it is.
    pub open spec fn current(self) -> DisposalView {
        match self.disposal {
            Some(d) => d,
            None => DisposalView {
                fiber: self.fibers[self.index as int],
                phase: DisposalPhaseView::Claim,
            },
        }
    }

    /// One step of a removal: the current member is disposed on; once it is
    /// unlinked the next one has its turn.
    pub open spec fn step(self, root: RootView) -> RemovalStep {
        if self.index >= self.fibers.len() {
            RemovalStep { root, removal: self, action: None }
        } else {
            let step = self.current().step(root);
            match step.action {
                Some(action) => RemovalStep {
                    root: step.root,
                    removal: RemovalView {
                        disposal: Some(
                            DisposalView { phase: step.phase, ..self.current() },
                        ),
                        ..self
                    },
                    action: Some(action),
                },
                None => RemovalStep {
                    root: step.root,
                    removal: RemovalView { index: self.index + 1, disposal: None, ..self },
                    action: Some(ActionView::Again),
                },
            }
        }
    }

    /// The members are Fibers of the Runtime.
    pub open spec fn wf(self, root: RootView) -> bool {
        &&& self.index <= self.fibers.len() <= usize::MAX
        &&& forall|i: int| 0 <= i < self.fibers.len() ==> root.has(#[trigger] self.fibers[i])
        &&& self.disposal matches Some(d) ==> self.index < self.fibers.len() && d.fiber
            == self.fibers[self.index as int]
    }
}

impl GroupRemoval {
    /// Goes on; says what the host does next, or nothing when every member is
    /// disposed.
    pub fn step(&mut self, root: &mut Root) -> (r: Option<Action>)
        requires
            old(root).wf(),
            old(self)@.wf(old(root)@),
            old(root)@.room(2),
        ensures
            final(root).wf(),
            final(self)@.wf(final(root)@),
            final(root)@ == old(self)@.step(old(root)@).root,
            final(self)@ == old(self)@.step(old(root)@).removal,
            action_view(r) == old(self)@.step(old(root)@).action,
    {
        if self.index >= self.fibers.len() {
            return None;
        }
        let id = self.fibers[self.index];
        let mut slot: Option<Disposal> = None;
        std::mem::swap(&mut slot, &mut self.disposal);
        let mut disposal = match slot {
            Some(disposal) => disposal,
            None => Disposal::new(id),
        };
        proof {
            lemma_disposal_step_room(disposal@, root@, 0);
        }
        match disposal.step(root) {
            Some(action) => {
                self.disposal = Some(disposal);
                Some(action)
            },
            None => {
                self.index = self.index + 1;
                Some(Action::Again)
            },
        }
    }
}

impl Context {
    /// Removes the current allocation of a typed Plugin. A call that runs inside a
    /// member's lifecycle is refused before the detach; an absent allocation is
    /// already removed. The detach is the commit: later spawns of the contract
    /// join a fresh allocation.
    pub fn remove_plugins(&self, root: &mut Root, by: &SettleAttribution, contract: ContractId) -> (r:
        Result<GroupRemoval, LifecycleRecursion>)
        requires
            old(root).wf(),
        ensures
            final(root).wf(),
            ({
                let key = PluginKey::Typed(contract);
                let members = old(root)@.registry.current_group(key);
                match r {
                    Err(x) => {
                        &&& exists|i: int|
                            #[trigger] removal_refused(old(root)@, *by, members, i) && x
                                == (LifecycleRecursion {
                                operation: LifecycleOperation::RemovePlugins,
                                fiber_id: members[i],
                            }) && forall|j: int|
                                0 <= j < i ==> !#[trigger] removal_refused(
                                    old(root)@,
                                    *by,
                                    members,
                                    j,
                                )
                        &&& final(root)@ == old(root)@
                    },
                    Ok(removal) => {
                        &&& forall|i: int| !#[trigger] removal_refused(old(root)@, *by, members, i)
                        &&& removal@ == (RemovalView {
                            fibers: members.filter(|f: FiberId| old(root)@.has(f)),
                            index: 0,
                            disposal: None,
                        })
                        &&& removal@.wf(final(root)@)
                        &&& final(root)@ == (RootView {
                            registry: old(root)@.registry.detached(key),
                            ..old(root)@
                        })
                    },
                }
            }),
    {
        let key = PluginKey::Typed(contract);
        let members: Vec<FiberId> = match root.registry().current_members(key) {
            Some(members) => members,
            None => Vec::new(),
        };
        let ghost rows = members@;
        assert(rows =~= old(root)@.registry.current_group(key));
        let ghost has = |f: FiberId| old(root)@.has(f);
        let mut fibers: Vec<FiberId> = Vec::new();
        let mut i: usize = 0;
        proof {
            reveal(Seq::filter);
            assert(rows.take(0) =~= Seq::empty());
            assert(fibers@ =~= rows.take(0).filter(has));
        }
        while i < members.len()
            invariant
                i <= members@.len(),
                rows == members@,
                rows == old(root)@.registry.current_group(PluginKey::Typed(contract)),
                root@ == old(root)@,
                root.wf(),
                has == (|f: FiberId| old(root)@.has(f)),
                forall|j: int|
                    0 <= j < i ==> !#[trigger] removal_refused(old(root)@, *by, rows, j),
                fibers@ == rows.take(i as int).filter(has),
                forall|j: int| 0 <= j < fibers@.len() ==> root@.has(#[trigger] fibers@[j]),
            decreases members@.len() - i,
        {
            let member = members[i];
            proof {
                crate::seqs::lemma_filter_step(rows, has, i as int);
            }
            if root.has_fiber(member) {
                match by.refuse_recursion(
                    member,
                    root.fiber(member).draining,
                    LifecycleOperation::RemovePlugins,
                ) {
                    Err(recursion) => {
                        assert(removal_refused(old(root)@, *by, rows, i as int));
                        assert(rows[i as int] == member);
                        return Err(recursion);
                    },
                    Ok(_) => {},
                }
                fibers.push(member);
            }
            i = i + 1;
        }
        proof {
            assert(rows.take(i as int) =~= rows);
            assert(forall|j: int| !#[trigger] removal_refused(old(root)@, *by, rows, j));
        }
        let count: usize = fibers.len();
        assert(count <= usize::MAX);
        let _ = root.registry_mut().detach(key);
        Ok(GroupRemoval { fibers, index: 0, disposal: None })
    }
}

impl RootView {
    /// A Fiber whose slot is idle is in no transient state, and a failed one has
    /// its failure parked.
    pub open spec fn is_coherent(self, id: FiberId) -> bool {
        let fiber = self.fiber(id);
        fiber.slot.inertia is Idle ==> {
            &&& !(fiber.current() is Loading || fiber.current() is Unloading)
            &&& fiber.current() is Failed ==> fiber.error is Some
        }
    }
}

/// A wait for quiescence never reports a transient state, and reports a failure
/// only where the current target is parked on it.
pub proof fn law_ready_reports_only_quiescence(root: RootView, id: FiberId)
    requires
        root.has(id),
        root.is_coherent(id),
    ensures
        match root.readying(id).ready_answer(id) {
            ReadyStepView::Wait => true,
            ReadyStepView::Settled(state) => {
                &&& state is Active || state is Pending || state is Disposed
                &&& state == root.fiber(id).current()
                &&& root.readying(id).fiber(id).slot.inertia is Idle
                &&& !root.readying(id).fiber(id).slot.outstanding()
            },
            ReadyStepView::Failed(failure) => root.fiber(id).error == Some(failure),
        },
{
}

/// A parked failure of an older target is never the answer: while a recheck is
/// outstanding the wait drives it and goes on.
pub proof fn law_ready_outlasts_outstanding_drift(root: RootView, id: FiberId, live: crate::inertia::TargetView)
    requires
        root.has(id),
        root.lives(id),
        root.target(id) == Some(live),
        root.executor,
        root.fiber(id).slot.outstanding(),
        root.fiber(id).slot.inertia is Idle,
        root.fiber(id).slot.target != Some(live),
    ensures
        root.readying(id).ready_answer(id) is Wait,
        root.readying(id).passes == root.passes.push(id),
{
}

} // verus!
