//! The settle protocol's single home: the semantic target a Fiber settles
//! against, and the slot that says who may settle it and who owes a recheck.

use crate::deps::{DependencyEdge, EdgeView};
use crate::ids::ServiceOccurrenceId;
use vstd::prelude::*;

verus! {

/// What one exact dependency slot is assigned to.
pub struct Assignment {
    /// The slot.
    pub edge: DependencyEdge,
    /// The visible publication, or `None` where it is missing.
    pub publication: Option<ServiceOccurrenceId>,
}

/// An assignment as a mathematical value.
pub struct AssignmentView {
    pub edge: EdgeView,
    pub publication: Option<ServiceOccurrenceId>,
}

impl View for Assignment {
    type V = AssignmentView;

    open spec fn view(&self) -> AssignmentView {
        AssignmentView { edge: self.edge@, publication: self.publication }
    }
}

/// The views of a list of assignments.
pub open spec fn assignment_views(s: Seq<Assignment>) -> Seq<AssignmentView> {
    s.map_values(|a: Assignment| a@)
}

/// The exact semantic value a Fiber settles against: the committed apply input
/// and the publication assigned to every dependency slot.
pub struct SemanticTarget {
    input: u64,
    assignments: Vec<Assignment>,
}

/// A target as a mathematical value.
#[verifier::ext_equal]
pub struct TargetView {
    /// Identity of the committed apply input.
    pub input: u64,
    /// The assignment of each dependency slot.
    pub assignments: Seq<AssignmentView>,
}

impl View for SemanticTarget {
    type V = TargetView;

    closed spec fn view(&self) -> TargetView {
        TargetView { input: self.input, assignments: assignment_views(self.assignments@) }
    }
}

impl TargetView {
    /// Whether some dependency slot has no visible publication.
    pub open spec fn has_missing(self) -> bool {
        exists|i: int|
            0 <= i < self.assignments.len() && (#[trigger] self.assignments[i]).publication is None
    }
}

impl SemanticTarget {
    /// The target of an input and an assignment.
    pub fn new(input: u64, assignments: Vec<Assignment>) -> (r: SemanticTarget)
        ensures
            r@ == (TargetView { input, assignments: assignment_views(assignments@) }),
    {
        SemanticTarget { input, assignments }
    }

    /// Whether some dependency slot has no visible publication.
    pub fn has_missing(&self) -> (r: bool)
        ensures
            r == self@.has_missing(),
    {
        let ghost rows = self@.assignments;
        let mut i: usize = 0;
        while i < self.assignments.len()
            invariant
                i <= self.assignments@.len(),
                rows == self@.assignments,
                forall|j: int| 0 <= j < i ==> (#[trigger] rows[j]).publication is Some,
            decreases self.assignments@.len() - i,
        {
            assert(rows[i as int] == self.assignments@[i as int]@);
            if self.assignments[i].publication.is_none() {
                return true;
            }
            i = i + 1;
        }
        false
    }

    /// Whether two targets are equal.
    pub fn same(&self, other: &SemanticTarget) -> (r: bool)
        ensures
            r == (self@ == other@),
    {
        if self.input != other.input || self.assignments.len() != other.assignments.len() {
            assert(self@.input == self.input);
            assert(self@.assignments.len() == self.assignments@.len());
            assert(other@.assignments.len() == other.assignments@.len());
            return false;
        }
        let ghost a = self@.assignments;
        let ghost b = other@.assignments;
        let mut i: usize = 0;
        while i < self.assignments.len()
            invariant
                i <= self.assignments@.len(),
                self.assignments@.len() == other.assignments@.len(),
                a == self@.assignments,
                b == other@.assignments,
                forall|j: int| 0 <= j < i ==> a[j] == b[j],
            decreases self.assignments@.len() - i,
        {
            assert(a[i as int] == self.assignments@[i as int]@);
            assert(b[i as int] == other.assignments@[i as int]@);
            if !(self.assignments[i].edge.same(&other.assignments[i].edge)
                && self.assignments[i].publication == other.assignments[i].publication) {
                assert(a[i as int] != b[i as int]);
                return false;
            }
            i = i + 1;
        }
        assert(a =~= b);
        true
    }

    /// Another equal target.
    pub fn duplicate(&self) -> (r: SemanticTarget)
        ensures
            r@ == self@,
    {
        let mut assignments: Vec<Assignment> = Vec::new();
        let mut i: usize = 0;
        while i < self.assignments.len()
            invariant
                i <= self.assignments@.len(),
                assignment_views(assignments@) == self@.assignments.take(i as int),
            decreases self.assignments@.len() - i,
        {
            let row = Assignment {
                edge: self.assignments[i].edge.duplicate(),
                publication: self.assignments[i].publication,
            };
            assert(assignment_views(assignments@.push(row)) =~= assignment_views(
                assignments@,
            ).push(row@));
            assignments.push(row);
            assert(assignment_views(assignments@) =~= self@.assignments.take(i + 1));
            i = i + 1;
        }
        assert(assignment_views(assignments@) =~= self@.assignments);
        SemanticTarget { input: self.input, assignments }
    }
}

/// Where the settle slot stands.
#[derive(Clone, Copy, PartialEq, Eq, Structural, Debug)]
pub enum Inertia {
    /// No pass in flight or pending: the only quiescent value.
    Idle,
    /// A pass holds the slot.
    Active,
    /// The holder's pass finished; its drift recheck is still pending.
    Releasing,
}

/// What one release probe found.
#[derive(Clone, Copy, PartialEq, Eq, Structural, Debug)]
pub enum ReleaseProbe {
    /// The live target drifted: the holder keeps the slot and settles again.
    Drifted,
    /// A recheck arrived meanwhile: probe again from this revision.
    Reprobe(u64),
    /// The slot is free and every recheck up to the revision is settled.
    Released,
}

/// The settle slot of one Fiber. Rechecks are committed durably before anyone is
/// asked to drive them; the slot returns to idle only once no recheck is
/// outstanding.
pub struct InertiaSlot {
    inertia: Inertia,
    target: Option<SemanticTarget>,
    recheck_committed: u64,
    recheck_settled: u64,
    creation_owned: bool,
}

/// The settle slot as a mathematical value.
pub struct InertiaView {
    pub inertia: Inertia,
    pub target: Option<TargetView>,
    pub committed: u64,
    pub settled: u64,
    pub creation_owned: bool,
}

/// The view of an optional target.
pub open spec fn target_view(target: Option<SemanticTarget>) -> Option<TargetView> {
    match target {
        Some(t) => Some(t@),
        None => None,
    }
}

impl View for InertiaSlot {
    type V = InertiaView;

    closed spec fn view(&self) -> InertiaView {
        InertiaView {
            inertia: self.inertia,
            target: target_view(self.target),
            committed: self.recheck_committed,
            settled: self.recheck_settled,
            creation_owned: self.creation_owned,
        }
    }
}

impl InertiaView {
    /// The slot of a fresh Fiber.
    pub open spec fn fresh() -> InertiaView {
        InertiaView {
            inertia: Inertia::Idle,
            target: None,
            committed: 0,
            settled: 0,
            creation_owned: false,
        }
    }

    /// Whether a committed recheck is outstanding.
    pub open spec fn outstanding(self) -> bool {
        self.committed != self.settled
    }

    /// The slot with one recheck more committed.
    pub open spec fn rechecked(self) -> InertiaView {
        InertiaView { committed: self.committed.wrapping_add(1), ..self }
    }

    /// The slot with `target` recorded.
    pub open spec fn aiming(self, target: TargetView) -> InertiaView {
        InertiaView { target: Some(target), ..self }
    }

    /// The slot after the holder judged drift at its release boundary: on drift
    /// it keeps the slot and aims at the live target; otherwise every committed
    /// recheck is settled and the slot is idle.
    pub open spec fn exited(self, live: TargetView, settled: TargetView) -> InertiaView {
        if live != settled {
            InertiaView { inertia: Inertia::Active, target: Some(live), ..self }
        } else {
            InertiaView { inertia: Inertia::Idle, settled: self.committed, ..self }
        }
    }

    /// The slot after a best-effort drive of an outstanding recheck.
    pub open spec fn kicked(self, executor: bool, live: TargetView) -> InertiaView {
        if !self.outstanding() {
            self
        } else {
            match self.inertia {
                Inertia::Active => self,
                Inertia::Releasing => InertiaView { inertia: Inertia::Active, ..self },
                Inertia::Idle => if !executor {
                    self
                } else {
                    match self.target {
                        Some(settled) => self.exited(live, settled),
                        None => InertiaView { inertia: Inertia::Active, target: Some(live), ..self },
                    }
                },
            }
        }
    }

    /// Whether a drive starts a convergence pass.
    pub open spec fn starts_pass(self, executor: bool, live: TargetView) -> bool {
        &&& self.outstanding()
        &&& self.inertia is Idle
        &&& executor
        &&& self.target != Some(live)
    }
}

impl InertiaSlot {
    /// The slot of a fresh Fiber.
    pub fn new() -> (r: InertiaSlot)
        ensures
            r@ == InertiaView::fresh(),
    {
        InertiaSlot {
            inertia: Inertia::Idle,
            target: None,
            recheck_committed: 0,
            recheck_settled: 0,
            creation_owned: false,
        }
    }

    /// Where the slot stands.
    pub fn inertia(&self) -> (r: Inertia)
        ensures
            r == self@.inertia,
    {
        self.inertia
    }

    /// Marks whether the creation's initial pass holds the slot.
    pub fn set_creation_owned(&mut self, owned: bool)
        ensures
            final(self)@ == (InertiaView { creation_owned: owned, ..old(self)@ }),
    {
        self.creation_owned = owned;
    }

    /// Takes the initial pass's ownership mark: `true`, once, when a cancelled
    /// pass died holding the slot.
    pub fn take_creation_ownership(&mut self) -> (r: bool)
        ensures
            r == old(self)@.creation_owned,
            final(self)@ == (InertiaView { creation_owned: false, ..old(self)@ }),
    {
        let owned = self.creation_owned;
        self.creation_owned = false;
        owned
    }

    /// The recorded target.
    pub fn current_target(&self) -> (r: Option<SemanticTarget>)
        ensures
            target_view(r) == self@.target,
    {
        match &self.target {
            Some(target) => Some(target.duplicate()),
            None => None,
        }
    }

    /// Records the target the holder settles toward.
    pub fn record_target(&mut self, target: SemanticTarget)
        ensures
            final(self)@ == old(self)@.aiming(target@),
    {
        self.target = Some(target);
    }

    /// Clears the target: a disposed Fiber never converges again.
    pub fn pin_inactive(&mut self)
        ensures
            final(self)@ == (InertiaView { target: None, ..old(self)@ }),
    {
        self.target = None;
    }

    /// Records a target with missing assignments, unless one is recorded already.
    pub fn mark_pending_if_untouched(&mut self, pending: &SemanticTarget)
        ensures
            final(self)@ == (if old(self)@.target is None {
                old(self)@.aiming(pending@)
            } else {
                old(self)@
            }),
    {
        if self.target.is_none() {
            self.target = Some(pending.duplicate());
        }
    }

    /// Claims an idle slot; says whether the claim was won.
    pub fn try_claim(&mut self) -> (r: bool)
        ensures
            r == (old(self)@.inertia is Idle),
            final(self)@ == (if r {
                InertiaView { inertia: Inertia::Active, ..old(self)@ }
            } else {
                old(self)@
            }),
    {
        match self.inertia {
            Inertia::Idle => {
                self.inertia = Inertia::Active;
                true
            },
            _ => false,
        }
    }

    /// Commits one durable recheck obligation.
    pub fn commit_recheck(&mut self)
        ensures
            final(self)@ == old(self)@.rechecked(),
    {
        self.recheck_committed = self.recheck_committed.wrapping_add(1);
    }

    /// Whether a committed recheck is outstanding.
    pub fn has_committed_recheck(&self) -> (r: bool)
        ensures
            r == self@.outstanding(),
    {
        self.recheck_committed != self.recheck_settled
    }

    /// The last committed recheck.
    pub fn recheck_revision(&self) -> (r: u64)
        ensures
            r == self@.committed,
    {
        self.recheck_committed
    }

    /// Whether the slot is idle.
    pub fn is_idle(&self) -> (r: bool)
        ensures
            r == (self@.inertia is Idle),
    {
        match self.inertia {
            Inertia::Idle => true,
            _ => false,
        }
    }

    /// Gives the slot back without a drift recheck.
    pub fn abandon(&mut self)
        ensures
            final(self)@ == (InertiaView { inertia: Inertia::Idle, ..old(self)@ }),
    {
        self.inertia = Inertia::Idle;
    }

    /// Opens the release boundary.
    pub fn begin_release(&mut self)
        ensures
            final(self)@ == (InertiaView { inertia: Inertia::Releasing, ..old(self)@ }),
    {
        self.inertia = Inertia::Releasing;
    }

    /// One probe at the release boundary, with the target as it is now.
    /// `revision` is the last recheck the holder has seen.
    pub fn release_probe(
        &mut self,
        live: &SemanticTarget,
        settled: &SemanticTarget,
        revision: u64,
    ) -> (r: ReleaseProbe)
        ensures
            r == (if live@ != settled@ {
                ReleaseProbe::Drifted
            } else if old(self)@.committed != revision || !(old(self)@.inertia is Releasing) {
                ReleaseProbe::Reprobe(old(self)@.committed)
            } else {
                ReleaseProbe::Released
            }),
            final(self)@ == (if live@ != settled@ {
                InertiaView { inertia: Inertia::Active, target: Some(live@), ..old(self)@ }
            } else if old(self)@.committed != revision {
                old(self)@
            } else if old(self)@.inertia is Releasing {
                InertiaView { inertia: Inertia::Idle, settled: revision, ..old(self)@ }
            } else {
                InertiaView { settled: revision, ..old(self)@ }
            }),
    {
        if !live.same(settled) {
            self.target = Some(live.duplicate());
            self.inertia = Inertia::Active;
            return ReleaseProbe::Drifted;
        }
        if self.recheck_committed != revision {
            return ReleaseProbe::Reprobe(self.recheck_committed);
        }
        self.recheck_settled = revision;
        match self.inertia {
            Inertia::Releasing => {
                self.inertia = Inertia::Idle;
                ReleaseProbe::Released
            },
            _ => ReleaseProbe::Reprobe(self.recheck_committed),
        }
    }

    /// The exit recheck: judges drift from the release boundary, never through
    /// idle. `true` on drift (the holder keeps the slot, aimed at the live
    /// target); otherwise the slot is idle with every recheck settled.
    pub fn exit_recheck(
        &mut self,
        live: &SemanticTarget,
        settled: &SemanticTarget,
        revision: u64,
    ) -> (drift: bool)
        ensures
            drift == (live@ != settled@),
            final(self)@ == old(self)@.exited(live@, settled@),
    {
        let ghost start = self@;
        let mut seen: u64 = revision;
        loop
            invariant
                self@.target == start.target,
                self@.committed == start.committed,
                self@.creation_owned == start.creation_owned,
                self@.settled == start.settled,
                start == old(self)@,
            decreases
                    (if seen == self@.committed {
                        0int
                    } else {
                        1int
                    }),
        {
            self.begin_release();
            match self.release_probe(live, settled, seen) {
                ReleaseProbe::Drifted => {
                    return true;
                },
                ReleaseProbe::Released => {
                    return false;
                },
                ReleaseProbe::Reprobe(observed) => {
                    seen = observed;
                },
            }
        }
    }

    /// A best-effort drive of an outstanding recheck; says whether a convergence
    /// pass starts. The live target is that of the Fiber now.
    pub fn kick(&mut self, executor: bool, live: &SemanticTarget) -> (pass: bool)
        ensures
            pass == old(self)@.starts_pass(executor, live@),
            final(self)@ == old(self)@.kicked(executor, live@),
    {
        if !self.has_committed_recheck() {
            return false;
        }
        match self.inertia {
            Inertia::Active => false,
            Inertia::Releasing => {
                self.inertia = Inertia::Active;
                false
            },
            Inertia::Idle => {
                if !executor {
                    return false;
                }
                self.inertia = Inertia::Active;
                let revision = self.recheck_committed;
                match self.current_target() {
                    Some(settled) => self.exit_recheck(live, &settled, revision),
                    None => {
                        self.record_target(live.duplicate());
                        true
                    },
                }
            },
        }
    }
}

/// A committed recheck is outstanding until a holder settles it.
pub proof fn law_a_committed_recheck_is_outstanding(slot: InertiaView)
    requires
        !slot.outstanding(),
    ensures
        slot.rechecked().outstanding(),
{
    assert(slot.committed.wrapping_add(1) != slot.committed);
}

/// A holder's exit either keeps the slot, aimed at the live target, or leaves it
/// idle with nothing outstanding: no recheck is lost in between.
pub proof fn law_an_exit_leaves_nothing_outstanding(
    slot: InertiaView,
    live: TargetView,
    settled: TargetView,
)
    ensures
        live != settled ==> slot.exited(live, settled).inertia is Active && slot.exited(
            live,
            settled,
        ).target == Some(live),
        live == settled ==> slot.exited(live, settled).inertia is Idle && !slot.exited(
            live,
            settled,
        ).outstanding(),
{
}

/// A drive that finds the holder releasing claims the slot back for it without an
/// executor, so the holder's probe cannot conclude that it is released.
pub proof fn law_a_drive_reclaims_a_releasing_slot(
    slot: InertiaView,
    executor: bool,
    live: TargetView,
)
    requires
        slot.inertia is Releasing,
        slot.outstanding(),
    ensures
        slot.kicked(executor, live).inertia is Active,
        slot.kicked(executor, live).outstanding(),
        !slot.starts_pass(executor, live),
{
}

/// Without an executor a drive of an idle slot changes nothing: the obligation
/// stays for a later driver.
pub proof fn law_a_drive_without_executor_keeps_the_obligation(slot: InertiaView, live: TargetView)
    requires
        slot.inertia is Idle,
        slot.outstanding(),
    ensures
        slot.kicked(false, live) == slot,
        !slot.starts_pass(false, live),
{
}

/// A drive whose live target is the one already settled acknowledges the recheck
/// without starting a pass.
pub proof fn law_a_target_neutral_recheck_starts_no_pass(slot: InertiaView, live: TargetView)
    requires
        slot.inertia is Idle,
        slot.outstanding(),
        slot.target == Some(live),
    ensures
        !slot.starts_pass(true, live),
        slot.kicked(true, live).inertia is Idle,
        !slot.kicked(true, live).outstanding(),
{
}

} // verus!
