//! Lifecycle operations and their outcomes.

use crate::event::InvocationFailure;
use crate::ids::FiberId;
use crate::state::FiberState;
use crate::text::{join2, join3, join4};
use vstd::prelude::*;

verus! {

/// The semantic kind of a [`PluginFailure`].
#[derive(Clone, Copy, PartialEq, Eq, Structural, Debug, Hash)]
pub enum PluginFailureKind {
    /// The apply returned an error.
    ReturnedError,
    /// The apply panicked; the panic was contained at the settle boundary.
    Panic,
}

/// One apply attempt's normalized failure: its kind plus owned diagnostic text.
#[derive(Debug)]
pub struct PluginFailure {
    kind: PluginFailureKind,
    diagnostic: String,
}

/// An apply failure as a mathematical value.
pub struct PluginFailureView {
    pub kind: PluginFailureKind,
    pub diagnostic: Seq<char>,
}

impl View for PluginFailure {
    type V = PluginFailureView;

    closed spec fn view(&self) -> PluginFailureView {
        PluginFailureView { kind: self.kind, diagnostic: self.diagnostic@ }
    }
}

impl PluginFailureView {
    /// The text the failure displays.
    pub open spec fn message(self) -> Seq<char> {
        match self.kind {
            PluginFailureKind::ReturnedError => "returned an error: "@ + self.diagnostic,
            PluginFailureKind::Panic => "panicked: "@ + self.diagnostic,
        }
    }
}

impl PluginFailure {
    /// The failure of an apply that returned an error with this text.
    pub fn returned(diagnostic: String) -> (r: PluginFailure)
        ensures
            r@ == (PluginFailureView {
                kind: PluginFailureKind::ReturnedError,
                diagnostic: diagnostic@,
            }),
    {
        PluginFailure { kind: PluginFailureKind::ReturnedError, diagnostic }
    }

    /// The failure of an apply that panicked with this rendered payload.
    pub fn panicked(payload: String) -> (r: PluginFailure)
        ensures
            r@ == (PluginFailureView { kind: PluginFailureKind::Panic, diagnostic: payload@ }),
    {
        PluginFailure { kind: PluginFailureKind::Panic, diagnostic: payload }
    }

    /// Whether the apply returned an error or panicked.
    pub fn kind(&self) -> (r: PluginFailureKind)
        ensures
            r == self@.kind,
    {
        self.kind
    }

    /// The owned diagnostic text.
    pub fn diagnostic(&self) -> (r: &str)
        ensures
            r@ == self@.diagnostic,
    {
        self.diagnostic.as_str()
    }

    /// The text the failure displays.
    pub fn message(&self) -> (r: String)
        ensures
            r@ == self@.message(),
    {
        match self.kind {
            PluginFailureKind::ReturnedError => join2(
                "returned an error: ",
                self.diagnostic.as_str(),
            ),
            PluginFailureKind::Panic => join2("panicked: ", self.diagnostic.as_str()),
        }
    }

    /// A copy of one already-normalized failure.
    pub fn clone_owned(&self) -> (r: PluginFailure)
        ensures
            r@ == self@,
    {
        PluginFailure { kind: self.kind, diagnostic: self.diagnostic.clone() }
    }
}

/// Lifecycle operation named by a typed recursion refusal.
#[derive(Clone, Copy, PartialEq, Eq, Structural, Debug, Hash)]
pub enum LifecycleOperation {
    /// Drive or await current-target convergence.
    Ready,
    /// Passively await one lifecycle-state publication.
    WaitState,
    /// Re-run the current Fiber generation.
    Restart,
    /// Commit one same-Fiber prepared change.
    Update,
    /// Replace one Fiber era with a fresh era.
    EraSwap,
    /// End one Fiber terminally.
    Dispose,
    /// Remove one typed Plugin group allocation.
    RemovePlugins,
}

impl LifecycleOperation {
    /// The operation's name.
    pub open spec fn spec_name(self) -> Seq<char> {
        match self {
            LifecycleOperation::Ready => "Ready"@,
            LifecycleOperation::WaitState => "WaitState"@,
            LifecycleOperation::Restart => "Restart"@,
            LifecycleOperation::Update => "Update"@,
            LifecycleOperation::EraSwap => "EraSwap"@,
            LifecycleOperation::Dispose => "Dispose"@,
            LifecycleOperation::RemovePlugins => "RemovePlugins"@,
        }
    }

    /// The operation's name.
    pub fn name(self) -> (r: &'static str)
        ensures
            r@ == self.spec_name(),
    {
        match self {
            LifecycleOperation::Ready => "Ready",
            LifecycleOperation::WaitState => "WaitState",
            LifecycleOperation::Restart => "Restart",
            LifecycleOperation::Update => "Update",
            LifecycleOperation::EraSwap => "EraSwap",
            LifecycleOperation::Dispose => "Dispose",
            LifecycleOperation::RemovePlugins => "RemovePlugins",
        }
    }
}

/// A lifecycle self-wait that would deadlock on one concrete Fiber.
#[derive(Clone, Copy, PartialEq, Eq, Structural, Debug)]
pub struct LifecycleRecursion {
    /// The operation that was refused.
    pub operation: LifecycleOperation,
    /// The Fiber whose lifecycle wait was refused.
    pub fiber_id: FiberId,
}

impl LifecycleRecursion {
    /// The refusal of `operation` on `fiber_id`.
    pub fn new(operation: LifecycleOperation, fiber_id: FiberId) -> (r: LifecycleRecursion)
        ensures
            r == (LifecycleRecursion { operation, fiber_id }),
    {
        LifecycleRecursion { operation, fiber_id }
    }

    /// The lifecycle operation that was refused.
    pub fn operation(&self) -> (r: LifecycleOperation)
        ensures
            r == self.operation,
    {
        self.operation
    }

    /// Correlation-only identity of the Fiber whose wait was refused.
    pub fn fiber_id(&self) -> (r: &FiberId)
        ensures
            *r == self.fiber_id,
    {
        &self.fiber_id
    }

    /// The text the refusal displays. The identity stays opaque.
    pub open spec fn spec_message(self) -> Seq<char> {
        self.operation.spec_name()
            + " cannot wait on FiberId(..) from that Fiber's settle context"@
    }

    /// The text the refusal displays.
    pub fn message(&self) -> (r: String)
        ensures
            r@ == self.spec_message(),
    {
        join2(
            self.operation.name(),
            " cannot wait on FiberId(..) from that Fiber's settle context",
        )
    }
}

/// Which lifecycle work the calling code runs inside of.
pub struct SettleAttribution {
    /// Fibers whose apply or cleanup is running the caller.
    pub settling: Vec<FiberId>,
    /// Fibers whose generation owns the task the caller runs in.
    pub tasks: Vec<FiberId>,
}

/// Whether `operation` on `fiber` would wait on work that waits on the caller.
/// From a settle every operation would. From a task the Fiber's generation owns,
/// waiting for the Fiber to settle is doomed only while a drain joins the task;
/// every operation that closes the generation is.
pub open spec fn is_recursive(
    settling: Seq<FiberId>,
    tasks: Seq<FiberId>,
    fiber: FiberId,
    draining: bool,
    operation: LifecycleOperation,
) -> bool {
    ||| settling.contains(fiber)
    ||| tasks.contains(fiber) && (draining || !(operation is Ready || operation is WaitState))
}

fn holds(fibers: &Vec<FiberId>, fiber: FiberId) -> (r: bool)
    ensures
        r == fibers@.contains(fiber),
{
    let mut i: usize = 0;
    while i < fibers.len()
        invariant
            i <= fibers@.len(),
            forall|j: int| 0 <= j < i ==> fibers@[j] != fiber,
        decreases fibers@.len() - i,
    {
        if fibers[i] == fiber {
            assert(fibers@[i as int] == fiber);
            return true;
        }
        i = i + 1;
    }
    false
}

impl SettleAttribution {
    /// The attribution of a caller outside every lifecycle.
    pub fn none() -> (r: SettleAttribution)
        ensures
            r.settling@ == Seq::<FiberId>::empty(),
            r.tasks@ == Seq::<FiberId>::empty(),
    {
        SettleAttribution { settling: Vec::new(), tasks: Vec::new() }
    }

    /// Refuses an operation that would wait on its own caller.
    pub fn refuse_recursion(
        &self,
        fiber: FiberId,
        draining: bool,
        operation: LifecycleOperation,
    ) -> (r: Result<(), LifecycleRecursion>)
        ensures
            r == (if is_recursive(self.settling@, self.tasks@, fiber, draining, operation) {
                Err::<(), LifecycleRecursion>(LifecycleRecursion { operation, fiber_id: fiber })
            } else {
                Ok::<(), LifecycleRecursion>(())
            }),
    {
        if holds(&self.settling, fiber) {
            return Err(LifecycleRecursion::new(operation, fiber));
        }
        if holds(&self.tasks, fiber) {
            let passive = match operation {
                LifecycleOperation::Ready | LifecycleOperation::WaitState => true,
                _ => false,
            };
            if draining || !passive {
                return Err(LifecycleRecursion::new(operation, fiber));
            }
        }
        Ok(())
    }
}

/// Why a spawn failed. On an error no handle is delivered and no resident
/// attempted Fiber remains.
#[derive(Debug)]
pub enum SpawnError {
    /// The spawning Context's generation is closed. Nothing was allocated.
    InactiveContext,
    /// The first apply returned an error or panicked; the attempted Fiber was
    /// rolled back, disposed and unlinked.
    InitialApply(PluginFailure),
    /// Framework invalidation disposed the attempted Fiber before handoff.
    Interrupted,
}

/// A spawn failure as a mathematical value.
pub enum SpawnErrorView {
    InactiveContext,
    InitialApply(PluginFailureView),
    Interrupted,
}

impl View for SpawnError {
    type V = SpawnErrorView;

    open spec fn view(&self) -> SpawnErrorView {
        match self {
            SpawnError::InactiveContext => SpawnErrorView::InactiveContext,
            SpawnError::InitialApply(f) => SpawnErrorView::InitialApply(f@),
            SpawnError::Interrupted => SpawnErrorView::Interrupted,
        }
    }
}

impl SpawnErrorView {
    /// The text the failure displays.
    pub open spec fn message(self) -> Seq<char> {
        match self {
            SpawnErrorView::InactiveContext =>
                "the spawning context's fiber generation is closed to new fibers"@,
            SpawnErrorView::InitialApply(f) => "the initial apply "@ + f.message(),
            SpawnErrorView::Interrupted =>
                "the creation was invalidated by the framework before its FiberHandle was delivered"@,
        }
    }
}

impl SpawnError {
    /// The text the failure displays.
    pub fn message(&self) -> (r: String)
        ensures
            r@ == self@.message(),
    {
        match self {
            SpawnError::InactiveContext =>
                "the spawning context's fiber generation is closed to new fibers".to_owned(),
            SpawnError::InitialApply(f) => {
                let inner = f.message();
                join2("the initial apply ", inner.as_str())
            },
            SpawnError::Interrupted =>
                "the creation was invalidated by the framework before its FiberHandle was delivered".to_owned(),
        }
    }
}

/// Cause of a committed era replacement that could not hand off a fresh Fiber.
#[derive(Debug)]
pub enum EraSwapFailure {
    /// A successor dependency contract could not be admitted.
    SuccessorDependencyContractMismatch {
        /// The dependency Service name.
        service: String,
    },
    /// A successor dependency configuration could not be prepared.
    SuccessorDependencyConfiguration {
        /// The dependency Service name.
        service: String,
        /// The normalized preparation diagnostic.
        diagnostic: String,
    },
    /// The fresh successor's initial apply failed after allocation.
    SuccessorApply(PluginFailure),
    /// Framework invalidation prevented delivery of the fresh successor.
    SuccessorLost,
}

impl EraSwapFailure {
    /// The text the failure displays.
    pub open spec fn spec_message(self) -> Seq<char> {
        match self {
            EraSwapFailure::SuccessorDependencyContractMismatch { service } =>
                "successor dependency `"@ + service@ + "` has a contract mismatch"@,
            EraSwapFailure::SuccessorDependencyConfiguration { service, diagnostic } =>
                "successor dependency `"@ + service@ + "` configuration is invalid: "@
                + diagnostic@,
            EraSwapFailure::SuccessorApply(f) => "successor apply failed: "@ + f@.message(),
            EraSwapFailure::SuccessorLost => "the fresh successor was lost before handoff"@,
        }
    }

    /// The text the failure displays.
    pub fn message(&self) -> (r: String)
        ensures
            r@ == self.spec_message(),
    {
        match self {
            EraSwapFailure::SuccessorDependencyContractMismatch { service } => join3(
                "successor dependency `",
                service.as_str(),
                "` has a contract mismatch",
            ),
            EraSwapFailure::SuccessorDependencyConfiguration { service, diagnostic } => join4(
                "successor dependency `",
                service.as_str(),
                "` configuration is invalid: ",
                diagnostic.as_str(),
            ),
            EraSwapFailure::SuccessorApply(f) => {
                let inner = f.message();
                join2("successor apply failed: ", inner.as_str())
            },
            EraSwapFailure::SuccessorLost => "the fresh successor was lost before handoff".to_owned(),
        }
    }
}

/// Failure of one identity-breaking fresh-era replacement attempt.
#[derive(Debug)]
pub enum EraSwapError {
    /// Candidate belongs to another Plugin contract.
    PluginContractMismatch,
    /// The source Fiber was already closing or terminal before the source claim.
    Closed,
    /// Lifecycle recursion was refused before the source claim.
    Recursion(LifecycleRecursion),
    /// The source claim committed, but no successor can be handed off.
    Incomplete(EraSwapFailure),
}

impl EraSwapError {
    /// The text the failure displays.
    pub open spec fn spec_message(self) -> Seq<char> {
        match self {
            EraSwapError::PluginContractMismatch =>
                "prepared change targets a different plugin contract"@,
            EraSwapError::Closed => "fiber is closed"@,
            EraSwapError::Recursion(r) => r.spec_message(),
            EraSwapError::Incomplete(f) => "era replacement incomplete: "@ + f.spec_message(),
        }
    }

    /// The text the failure displays.
    pub fn message(&self) -> (r: String)
        ensures
            r@ == self.spec_message(),
    {
        match self {
            EraSwapError::PluginContractMismatch =>
                "prepared change targets a different plugin contract".to_owned(),
            EraSwapError::Closed => "fiber is closed".to_owned(),
            EraSwapError::Recursion(r) => r.message(),
            EraSwapError::Incomplete(f) => {
                let inner = f.message();
                join2("era replacement incomplete: ", inner.as_str())
            },
        }
    }
}

/// Maps a successor's creation failure. An era successor does not gate on its
/// origin's liveness, so a closed origin is no possible cause.
pub fn map_spawn_failure(error: SpawnError) -> (r: EraSwapFailure)
    requires
        !(error is InactiveContext),
    ensures
        match error@ {
            SpawnErrorView::InitialApply(f) => r matches EraSwapFailure::SuccessorApply(g) && g@
                == f,
            _ => r is SuccessorLost,
        },
{
    match error {
        SpawnError::InitialApply(failure) => EraSwapFailure::SuccessorApply(failure),
        SpawnError::Interrupted => EraSwapFailure::SuccessorLost,
        SpawnError::InactiveContext => EraSwapFailure::SuccessorLost,
    }
}

/// Successful outcome of one typed same-Fiber update attempt.
#[derive(Clone, Copy, PartialEq, Eq, Structural, Debug)]
pub enum UpdateOutcome {
    /// The final accepted candidate committed on this same Fiber.
    Committed(FiberState),
    /// Precommit control returned without reaching its private tail; the old
    /// generation remains unchanged.
    Vetoed,
}

/// Failure of one typed same-Fiber update attempt.
#[derive(Debug)]
pub enum UpdateError {
    /// Candidate belongs to another Plugin contract.
    PluginContractMismatch,
    /// The target was already terminal at update entry.
    Closed,
    /// Same-Fiber lifecycle recursion was refused.
    Recursion(LifecycleRecursion),
    /// A precommit callback failed.
    Control(InvocationFailure),
    /// Awaited control completed after lifecycle admission became terminal.
    AdmissionLost,
    /// The candidate committed, but applying its generation failed.
    Apply(PluginFailure),
}

impl UpdateError {
    /// The text the failure displays.
    pub open spec fn spec_message(self) -> Seq<char> {
        match self {
            UpdateError::PluginContractMismatch =>
                "prepared change targets a different plugin contract"@,
            UpdateError::Closed => "fiber is closed"@,
            UpdateError::Recursion(r) => r.spec_message(),
            UpdateError::Control(f) => "update control failed: "@ + f@.diagnostic,
            UpdateError::AdmissionLost => "fiber lost update admission before commit"@,
            UpdateError::Apply(f) => "plugin apply failed: "@ + f@.message(),
        }
    }

    /// The text the failure displays.
    pub fn message(&self) -> (r: String)
        ensures
            r@ == self.spec_message(),
    {
        match self {
            UpdateError::PluginContractMismatch =>
                "prepared change targets a different plugin contract".to_owned(),
            UpdateError::Closed => "fiber is closed".to_owned(),
            UpdateError::Recursion(r) => r.message(),
            UpdateError::Control(f) => join2("update control failed: ", f.diagnostic()),
            UpdateError::AdmissionLost => "fiber lost update admission before commit".to_owned(),
            UpdateError::Apply(f) => {
                let inner = f.message();
                join2("plugin apply failed: ", inner.as_str())
            },
        }
    }
}

/// Why a wait for quiescence could not report it.
#[derive(Debug)]
pub enum ReadyError {
    /// The call would synchronously wait on its own settle context.
    Recursion(LifecycleRecursion),
    /// The current target is parked on a completed apply failure.
    Apply(PluginFailure),
}

impl ReadyError {
    /// The text the failure displays.
    pub open spec fn spec_message(self) -> Seq<char> {
        match self {
            ReadyError::Recursion(r) => r.spec_message(),
            ReadyError::Apply(f) => "plugin apply failed: "@ + f@.message(),
        }
    }

    /// The text the failure displays.
    pub fn message(&self) -> (r: String)
        ensures
            r@ == self.spec_message(),
    {
        match self {
            ReadyError::Recursion(r) => r.message(),
            ReadyError::Apply(f) => {
                let inner = f.message();
                join2("plugin apply failed: ", inner.as_str())
            },
        }
    }
}

/// Why an explicit same-Fiber restart could not reach quiescence.
#[derive(Debug)]
pub enum RestartError {
    /// The Fiber was already closing or closed before this restart committed.
    Closed,
    /// The call would synchronously wait on its own settle context.
    Recursion(LifecycleRecursion),
    /// The committed restart parked a normalized apply failure.
    Apply(PluginFailure),
}

impl RestartError {
    /// The text the failure displays.
    pub open spec fn spec_message(self) -> Seq<char> {
        match self {
            RestartError::Closed => "fiber is closed"@,
            RestartError::Recursion(r) => r.spec_message(),
            RestartError::Apply(f) => "plugin apply failed: "@ + f@.message(),
        }
    }

    /// The text the failure displays.
    pub fn message(&self) -> (r: String)
        ensures
            r@ == self.spec_message(),
    {
        match self {
            RestartError::Closed => "fiber is closed".to_owned(),
            RestartError::Recursion(r) => r.message(),
            RestartError::Apply(f) => {
                let inner = f.message();
                join2("plugin apply failed: ", inner.as_str())
            },
        }
    }
}

/// Why a wait for one state ended early.
#[derive(Clone, Copy, PartialEq, Eq, Structural, Debug)]
pub enum WaitStateError {
    /// The deadline passed before the Fiber published the requested state.
    Elapsed,
    /// The call would synchronously wait on its own settle context.
    Recursion(LifecycleRecursion),
}

impl WaitStateError {
    /// The text the failure displays.
    pub open spec fn spec_message(self) -> Seq<char> {
        match self {
            WaitStateError::Elapsed =>
                "wait_state timed out before the fiber published the target state"@,
            WaitStateError::Recursion(r) => r.spec_message(),
        }
    }

    /// The text the failure displays.
    pub fn message(&self) -> (r: String)
        ensures
            r@ == self.spec_message(),
    {
        match self {
            WaitStateError::Elapsed =>
                "wait_state timed out before the fiber published the target state".to_owned(),
            WaitStateError::Recursion(r) => r.message(),
        }
    }
}

} // verus!
