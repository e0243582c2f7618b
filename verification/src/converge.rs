//! Waiting out the convergence of a set of Fibers.

use crate::deps::{edge_views, DependencyEdge, EdgeView};
use crate::ids::FiberId;
use crate::lifecycle::{LifecycleOperation, SettleAttribution};
use crate::operate::ReadyStep;
use crate::root::{Root, RootView};
use crate::seqs::lemma_filter_step;
use crate::settle::{action_view, Action, ActionView};
use vstd::prelude::*;

verus! {

/// Whether a Fiber is none of `skip`.
pub open spec fn outside(skip: Seq<FiberId>) -> spec_fn(FiberId) -> bool {
    |f: FiberId| !skip.contains(f)
}

impl RootView {
    /// The Fibers that depend on one of `edges`, except those of `skip`.
    pub open spec fn dependents_except(self, edges: Seq<EdgeView>, skip: Seq<FiberId>) -> Seq<
        FiberId,
    > {
        self.dependents(edges).filter(outside(skip))
    }
}

fn holds(fibers: &Vec<FiberId>, fiber: FiberId) -> (r: bool)
    ensures
        r == fibers@.contains(fiber),
{
    let mut i: usize = 0;
    while i < fibers.len()
        invariant
            i <= fibers@.len(),
            forall|j: int| 0 <= j < i ==> fibers@[j] != fiber,
        decreases fibers@.len() - i,
    {
        if fibers[i] == fiber {
            assert(fibers@[i as int] == fiber);
            return true;
        }
        i = i + 1;
    }
    false
}

/// The Fibers that depend on one of `edges` now, except those of `skip`.
pub fn capture_dependents(root: &Root, edges: &Vec<DependencyEdge>, skip: &Vec<FiberId>) -> (r: Vec<
    FiberId,
>)
    ensures
        r@ == root@.dependents_except(edge_views(edges@), skip@),
{
    let all = root.dependents_for_edges(edges);
    let ghost rows = all@;
    let ghost p = outside(skip@);
    let mut out: Vec<FiberId> = Vec::new();
    let mut i: usize = 0;
    proof {
        reveal(Seq::filter);
        assert(rows.take(0) =~= Seq::empty());
        assert(out@ =~= rows.take(0).filter(p));
    }
    while i < all.len()
        invariant
            i <= all@.len(),
            rows == all@,
            p == outside(skip@),
            out@ == rows.take(i as int).filter(p),
        decreases all@.len() - i,
    {
        proof {
            lemma_filter_step(rows, p, i as int);
        }
        if !holds(skip, all[i]) {
            out.push(all[i]);
        }
        i = i + 1;
    }
    assert(rows.take(i as int) =~= rows);
    out
}

/// Waits for each of a list of Fibers in turn to be quiescent. A Fiber whose wait
/// would be a self-wait of the caller is passed by; failures are of no concern
/// here.
pub struct Convergence {
    fibers: Vec<FiberId>,
    index: usize,
}

/// A convergence as a mathematical value.
#[verifier::ext_equal]
pub struct ConvergenceView {
    pub fibers: Seq<FiberId>,
    /// How many Fibers are done with.
    pub index: nat,
}

/// What one step of a convergence comes to.
#[verifier::ext_equal]
pub struct ConvergeStep {
    pub root: RootView,
    pub view: ConvergenceView,
    /// What the host does next; `None` when every Fiber is done with.
    pub action: Option<ActionView>,
}

impl View for Convergence {
    type V = ConvergenceView;

    closed spec fn view(&self) -> ConvergenceView {
        ConvergenceView { fibers: self.fibers@, index: self.index as nat }
    }
}

impl ConvergenceView {
    /// A convergence of `fibers` that has not begun.
    pub open spec fn begin(fibers: Seq<FiberId>) -> ConvergenceView {
        ConvergenceView { fibers, index: 0 }
    }

    /// One step of a convergence.
    pub open spec fn step(self, root: RootView, by: SettleAttribution) -> ConvergeStep {
        let advanced = ConvergenceView { index: self.index + 1, ..self };
        if self.index >= self.fibers.len() {
            ConvergeStep { root, view: self, action: None }
        } else {
            let id = self.fibers[self.index as int];
            if !root.has(id) || root.is_recursive(by, id, LifecycleOperation::Ready) {
                ConvergeStep { root, view: advanced, action: Some(ActionView::Again) }
            } else if root.readying(id).ready_answer(id) is Wait {
                ConvergeStep { root: root.readying(id), view: self, action: Some(ActionView::Wait) }
            } else {
                ConvergeStep {
                    root: root.readying(id),
                    view: advanced,
                    action: Some(ActionView::Again),
                }
            }
        }
    }
}

impl Convergence {
    /// A convergence of `fibers` that has not begun.
    pub fn new(fibers: Vec<FiberId>) -> (r: Convergence)
        ensures
            r@ == ConvergenceView::begin(fibers@),
    {
        Convergence { fibers, index: 0 }
    }

    /// Goes on; says what the host does next, or nothing when every Fiber is done
    /// with.
    pub fn step(&mut self, root: &mut Root, by: &SettleAttribution) -> (r: Option<Action>)
        requires
            old(root).wf(),
        ensures
            final(root).wf(),
            final(root)@ == old(self)@.step(old(root)@, *by).root,
            final(self)@ == old(self)@.step(old(root)@, *by).view,
            action_view(r) == old(self)@.step(old(root)@, *by).action,
    {
        if self.index >= self.fibers.len() {
            return None;
        }
        let id = self.fibers[self.index];
        if !root.has_fiber(id) {
            self.index = self.index + 1;
            return Some(Action::Again);
        }
        let draining = root.fiber(id).draining;
        if by.refuse_recursion(id, draining, LifecycleOperation::Ready).is_err() {
            self.index = self.index + 1;
            return Some(Action::Again);
        }
        match root.ready_step(id) {
            ReadyStep::Wait => Some(Action::Wait),
            _ => {
                self.index = self.index + 1;
                Some(Action::Again)
            },
        }
    }
}

/// A step of a convergence keeps the list of Fibers and every counter.
pub proof fn lemma_converge_counters(c: ConvergenceView, root: RootView, by: SettleAttribution)
    ensures
        root.same_counters(c.step(root, by).root),
{
}

} // verus!
