//! Published lifecycle state of a Fiber, with a durable revision per state.

use vstd::prelude::*;

verus! {

/// Semantic role of a Fiber in a Runtime snapshot.
#[derive(Clone, Copy, PartialEq, Eq, Structural, Debug)]
pub enum FiberRole {
    /// The Runtime's one permanent root Fiber.
    Root,
    /// An ordinary Registry-resident Fiber.
    Ordinary,
}

/// Published lifecycle state of a Fiber.
#[derive(Clone, Copy, PartialEq, Eq, Structural, Debug)]
pub enum FiberState {
    /// The current generation is open and its Plugin apply may register effects.
    Loading,
    /// The current generation applied successfully and its effects are live.
    Active,
    /// The current target has a missing assignment; no apply is live.
    Pending,
    /// The generation gate is closed and owned cleanup is in progress.
    Unloading,
    /// Apply failed and the failed generation's rollback has completed.
    Failed,
    /// Terminal generation cleanup has completed; the Fiber cannot activate again.
    Disposed,
}

impl FiberState {
    /// The state's place in the revision bookkeeping.
    pub open spec fn index(self) -> int {
        match self {
            FiberState::Loading => 0,
            FiberState::Active => 1,
            FiberState::Pending => 2,
            FiberState::Unloading => 3,
            FiberState::Failed => 4,
            FiberState::Disposed => 5,
        }
    }

    /// The state's place in the revision bookkeeping.
    pub fn publication_index(self) -> (r: usize)
        ensures
            r == self.index(),
            r < 6,
    {
        match self {
            FiberState::Loading => 0,
            FiberState::Active => 1,
            FiberState::Pending => 2,
            FiberState::Unloading => 3,
            FiberState::Failed => 4,
            FiberState::Disposed => 5,
        }
    }
}

/// Why a wait for one state ended without it.
#[derive(Clone, Copy, PartialEq, Eq, Structural, Debug)]
pub enum WaitStep {
    /// The requested state is, or was, published.
    Satisfied,
    /// Wait for the next publication or the deadline.
    Wait,
    /// The deadline passed first.
    Elapsed,
}

/// Reliable state-publication cell: the current state and, for each state, how
/// many times it was published.
pub struct StatePublication {
    current: FiberState,
    revisions: [u64; 6],
}

/// The publication cell as a mathematical value.
#[verifier::ext_equal]
pub struct StateCellView {
    pub current: FiberState,
    pub revisions: Seq<u64>,
}

impl View for StatePublication {
    type V = StateCellView;

    closed spec fn view(&self) -> StateCellView {
        StateCellView { current: self.current, revisions: self.revisions@ }
    }
}

impl StateCellView {
    /// How many times `state` was published.
    pub open spec fn revision(self, state: FiberState) -> u64 {
        self.revisions[state.index()]
    }

    /// A cell whose only publication is `initial`.
    pub open spec fn initial(initial: FiberState) -> StateCellView {
        StateCellView {
            current: initial,
            revisions: Seq::new(
                6,
                |i: int|
                    if i == initial.index() {
                        1u64
                    } else {
                        0u64
                    },
            ),
        }
    }

    /// The cell after `next` was published; publishing the current state again
    /// changes nothing.
    pub open spec fn published(self, next: FiberState) -> StateCellView {
        if self.current == next {
            self
        } else {
            StateCellView {
                current: next,
                revisions: self.revisions.update(
                    next.index(),
                    (self.revision(next) + 1) as u64,
                ),
            }
        }
    }

    /// Whether a wait for `target` that began at revision `baseline` is over.
    pub open spec fn satisfied(self, target: FiberState, baseline: u64) -> bool {
        self.current == target || self.revision(target) != baseline
    }

    /// Every revision leaves room for `n` publications more.
    pub open spec fn room(self, n: nat) -> bool {
        &&& self.revisions.len() == 6
        &&& forall|i: int| 0 <= i < 6 ==> (#[trigger] self.revisions[i]) + n <= u64::MAX
    }
}

impl StatePublication {
    /// A cell whose only publication is `initial`.
    pub fn new(initial: FiberState) -> (r: StatePublication)
        ensures
            r@ == StateCellView::initial(initial),
    {
        let mut revisions: [u64; 6] = [0, 0, 0, 0, 0, 0];
        let at = initial.publication_index();
        revisions[at] = 1;
        let r = StatePublication { current: initial, revisions };
        assert(r@.revisions =~= StateCellView::initial(initial).revisions);
        r
    }

    /// The current state.
    pub fn current(&self) -> (r: FiberState)
        ensures
            r == self@.current,
    {
        self.current
    }

    /// Whether every revision leaves room for `n` publications more.
    pub fn has_room(&self, n: u64) -> (r: bool)
        ensures
            r == self@.room(n as nat),
    {
        let limit: u64 = u64::MAX - n;
        let mut i: usize = 0;
        while i < 6
            invariant
                i <= 6,
                limit == u64::MAX - n,
                forall|j: int| 0 <= j < i ==> (#[trigger] self@.revisions[j]) <= limit,
            decreases 6 - i,
        {
            if self.revisions[i] > limit {
                assert(self@.revisions[i as int] + n > u64::MAX);
                return false;
            }
            i = i + 1;
        }
        true
    }

    /// Publishes `next` and returns the state it replaced; publishing the
    /// current state again is no publication.
    pub fn publish(&mut self, next: FiberState) -> (r: Option<FiberState>)
        requires
            old(self)@.room(1),
        ensures
            final(self)@ == old(self)@.published(next),
            r == (if old(self)@.current == next {
                None
            } else {
                Some(old(self)@.current)
            }),
    {
        let previous = self.current;
        if previous == next {
            return None;
        }
        let at = next.publication_index();
        assert(self@.revisions[next.index()] + 1 <= u64::MAX);
        self.current = next;
        let bumped: u64 = self.revisions[at] + 1;
        self.revisions[at] = bumped;
        assert(self@.revisions =~= old(self)@.published(next).revisions);
        Some(previous)
    }

    /// The current state and the revision of `target`.
    pub fn snapshot(&self, target: FiberState) -> (r: (FiberState, u64))
        ensures
            r == (self@.current, self@.revision(target)),
    {
        (self.current, self.revisions[target.publication_index()])
    }

    /// One poll of a wait for `target` that began at revision `baseline`.
    pub fn wait_for_after(&self, target: FiberState, baseline: u64, deadline_passed: bool) -> (r:
        WaitStep)
        ensures
            r == (if self@.satisfied(target, baseline) {
                WaitStep::Satisfied
            } else if deadline_passed {
                WaitStep::Elapsed
            } else {
                WaitStep::Wait
            }),
    {
        let (current, revision) = self.snapshot(target);
        if current == target || revision != baseline {
            WaitStep::Satisfied
        } else if deadline_passed {
            WaitStep::Elapsed
        } else {
            WaitStep::Wait
        }
    }
}

pub proof fn lemma_published_room(cell: StateCellView, next: FiberState, n: nat)
    requires
        cell.room(n + 1),
    ensures
        cell.published(next).room(n),
{
    let after = cell.published(next);
    assert forall|i: int| 0 <= i < 6 implies (#[trigger] after.revisions[i]) + n <= u64::MAX by {
        assert(cell.revisions[i] + n + 1 <= u64::MAX);
        assert(cell.revisions[next.index()] + n + 1 <= u64::MAX);
    }
}

/// A publication is durable: a wait that began before `state` was published is
/// satisfied by it, even when another state was published since.
pub proof fn law_a_superseded_publication_still_satisfies_a_wait(
    cell: StateCellView,
    state: FiberState,
    later: FiberState,
)
    requires
        cell.room(2),
        cell.current != state,
    ensures
        cell.published(state).satisfied(state, cell.revision(state)),
        cell.published(state).published(later).satisfied(state, cell.revision(state)),
{
    let one = cell.published(state);
    assert(cell.revisions[state.index()] + 2 <= u64::MAX);
    assert(one.revision(state) == cell.revision(state) + 1);
    lemma_published_room(cell, state, 1);
    let two = one.published(later);
    if later != state {
        assert(two.revisions[state.index()] == one.revisions[state.index()]);
    }
}

/// Publishing one state leaves the revisions of the others as they were.
pub proof fn law_a_publication_touches_one_revision(
    cell: StateCellView,
    next: FiberState,
    other: FiberState,
)
    requires
        cell.room(1),
        other != next,
    ensures
        cell.published(next).revision(other) == cell.revision(other),
{
}

} // verus!
