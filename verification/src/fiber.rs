//! Fiber: the lifecycle carrier of one Plugin instance.

use crate::deps::{edge_views, DependencyEdge, EdgeView};
use crate::effect::{DisposableList, JournalView};
use crate::inertia::{InertiaSlot, InertiaView};
use crate::lifecycle::{PluginFailure, PluginFailureView};
use crate::registry::ResidencyClaim;
use crate::spawn_state::{SpawnState, StoredView};
use crate::state::{FiberState, StateCellView, StatePublication};
use vstd::prelude::*;

verus! {

/// The lifecycle state of one Fiber.
pub struct Fiber {
    /// Display name resolved from the Plugin name.
    pub name: String,
    /// Immutable exact dependency slots resolved once for this era.
    pub dependency_edges: Vec<DependencyEdge>,
    /// Current lifecycle state plus reliable publication history.
    pub state: StatePublication,
    /// Whether the Fiber can still be settled.
    pub alive: bool,
    /// Terminal open-to-closing claim; it closes the generation gate at once.
    pub disposing: bool,
    /// A same-Fiber replacement has committed and the new generation is not open
    /// yet.
    pub generation_replacing: bool,
    /// Full terminal barrier: cleanup, `Disposed` and exact unlink are done.
    pub dispose_complete: bool,
    /// A drain of the journal is in flight.
    pub draining: bool,
    /// The first apply has run, whatever its outcome.
    pub applied: bool,
    /// The spawn transaction has not handed the Fiber off yet.
    pub creation_pending: bool,
    /// The normalized failure of the last failed apply, if any.
    pub error: Option<PluginFailure>,
    /// Cleanup obligations of the current generation.
    pub disposables: DisposableList,
    /// The settle slot.
    pub slot: InertiaSlot,
    /// The spawn-time record, if any.
    pub spawn_state: SpawnState,
    /// The exact Registry residency, if any.
    pub residency: Option<ResidencyClaim>,
}

/// A Fiber as a mathematical value.
#[verifier::ext_equal]
pub struct FiberView {
    pub name: Seq<char>,
    pub edges: Seq<EdgeView>,
    pub state: StateCellView,
    pub alive: bool,
    pub disposing: bool,
    pub generation_replacing: bool,
    pub dispose_complete: bool,
    pub draining: bool,
    pub applied: bool,
    pub creation_pending: bool,
    pub error: Option<PluginFailureView>,
    pub journal: JournalView,
    pub slot: InertiaView,
    pub spawn: Option<StoredView>,
    pub residency: Option<ResidencyClaim>,
}

/// The view of an optional failure.
pub open spec fn failure_view(error: Option<PluginFailure>) -> Option<PluginFailureView> {
    match error {
        Some(f) => Some(f@),
        None => None,
    }
}

impl View for Fiber {
    type V = FiberView;

    open spec fn view(&self) -> FiberView {
        FiberView {
            name: self.name@,
            edges: edge_views(self.dependency_edges@),
            state: self.state@,
            alive: self.alive,
            disposing: self.disposing,
            generation_replacing: self.generation_replacing,
            dispose_complete: self.dispose_complete,
            draining: self.draining,
            applied: self.applied,
            creation_pending: self.creation_pending,
            error: failure_view(self.error),
            journal: self.disposables@,
            slot: self.slot@,
            spawn: self.spawn_state@,
            residency: self.residency,
        }
    }
}

impl FiberView {
    /// A fresh Fiber with the given name and dependency slots.
    pub open spec fn fresh(name: Seq<char>, edges: Seq<EdgeView>) -> FiberView {
        FiberView {
            name,
            edges,
            state: StateCellView::initial(FiberState::Pending),
            alive: true,
            disposing: false,
            generation_replacing: false,
            dispose_complete: false,
            draining: false,
            applied: false,
            creation_pending: false,
            error: None,
            journal: JournalView::empty(),
            slot: InertiaView::fresh(),
            spawn: None,
            residency: None,
        }
    }

    /// The permanently active Fiber of a Runtime.
    pub open spec fn root() -> FiberView {
        FiberView {
            state: StateCellView::initial(FiberState::Pending).published(FiberState::Active),
            ..FiberView::fresh("root"@, Seq::empty())
        }
    }

    /// The current lifecycle state.
    pub open spec fn current(self) -> FiberState {
        self.state.current
    }

    /// Whether the current generation is open to new registrations: the Fiber
    /// lives, no terminal or replacement claim has closed it, and it is loading or
    /// active.
    pub open spec fn admits(self) -> bool {
        &&& self.alive
        &&& !self.disposing
        &&& !self.generation_replacing
        &&& self.current() is Loading || self.current() is Active
    }

    /// Whether what the Fiber publishes is lookup-visible.
    pub open spec fn is_visible(self) -> bool {
        self.alive && self.current() is Active
    }

    /// The Fiber's counters leave room for `n` steps more.
    pub open spec fn room(self, n: nat) -> bool {
        self.state.room(n) && self.journal.sn + n <= u64::MAX
    }
}

impl Fiber {
    /// A fresh Fiber with the given name and dependency slots.
    pub fn new_with_edges(name: String, dependency_edges: Vec<DependencyEdge>) -> (r: Fiber)
        ensures
            r@ == FiberView::fresh(name@, edge_views(dependency_edges@)),
    {
        Fiber {
            name,
            dependency_edges,
            state: StatePublication::new(FiberState::Pending),
            alive: true,
            disposing: false,
            generation_replacing: false,
            dispose_complete: false,
            draining: false,
            applied: false,
            creation_pending: false,
            error: None,
            disposables: DisposableList::new(),
            slot: InertiaSlot::new(),
            spawn_state: SpawnState::new(),
            residency: None,
        }
    }

    /// A fresh Fiber without dependency slots.
    pub fn new(name: String) -> (r: Fiber)
        ensures
            r@ == FiberView::fresh(name@, Seq::empty()),
    {
        let edges: Vec<DependencyEdge> = Vec::new();
        assert(edge_views(edges@) =~= Seq::empty());
        Fiber::new_with_edges(name, edges)
    }

    /// The permanently active Fiber of a Runtime.
    pub fn root() -> (r: Fiber)
        ensures
            r@ == FiberView::root(),
    {
        let mut fiber = Fiber::new("root".to_owned());
        let _ = fiber.state.publish(FiberState::Active);
        fiber
    }

    /// Whether the current generation is open to new registrations.
    pub fn can_register(&self) -> (r: bool)
        ensures
            r == self@.admits(),
    {
        self.alive && !self.disposing && !self.generation_replacing && match self.state.current() {
            FiberState::Loading | FiberState::Active => true,
            _ => false,
        }
    }

    /// Whether what the Fiber publishes is lookup-visible.
    pub fn is_visible(&self) -> (r: bool)
        ensures
            r == self@.is_visible(),
    {
        self.alive && match self.state.current() {
            FiberState::Active => true,
            _ => false,
        }
    }

    /// Whether the Fiber's counters leave room for `n` steps more.
    pub fn has_room(&self, n: u64) -> (r: bool)
        ensures
            r == self@.room(n as nat),
    {
        self.state.has_room(n) && self.disposables.remaining() >= n
    }

    /// A copy of the parked failure.
    pub fn parked_failure(&self) -> (r: Option<PluginFailure>)
        ensures
            failure_view(r) == self@.error,
    {
        match &self.error {
            Some(failure) => Some(failure.clone_owned()),
            None => None,
        }
    }
}

/// A closed generation admits no registration in any state but loading and
/// active.
pub proof fn law_only_open_generations_admit_registrations(fiber: FiberView)
    ensures
        fiber.admits() ==> fiber.alive && !fiber.disposing && !fiber.generation_replacing,
        fiber.current() is Pending || fiber.current() is Unloading || fiber.current() is Failed
            || fiber.current() is Disposed ==> !fiber.admits(),
{
}

} // verus!
