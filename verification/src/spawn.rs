//! The spawn transaction: admits one sealed Plugin and drives its fresh Fiber to
//! a quiescent active or pending state before the handle is delivered.

use crate::context::{Context, ContextView};
use crate::deps::{edge_views, DependencyEdge, EdgeView};
use crate::dispose::{Disposal, DisposalPhaseView, DisposalView};
use crate::fiber::{Fiber, FiberView};
use crate::handle::FiberHandle;
use crate::ids::FiberId;
use crate::lifecycle::{SpawnError, SpawnErrorView};
use crate::observation::{ObservationView, ResidencyChange, RuntimeObservation};
use crate::pass::{
    lemma_initial_step_room, InitialOutcome, InitialOutcomeView, InitialPass, InitialPassView,
    InitialPhaseView,
};
use crate::plugin::{entry_views, InjectEntryView, InjectSpec, PreparedPlugin, TypedPlugin};
use crate::registry::{PluginKey, ResidencyClaim};
use crate::root::{Root, RootView};
use crate::seqs::lemma_fold_step;
use crate::settle::{action_view, lemma_room_less, Action, ActionView, Reply, ReplyView};
use crate::snapshot::fiber_snapshot;
use crate::spawn_state::StoredView;
use vstd::prelude::*;

verus! {

/// The exact slot one declaration resolves to at a Context.
pub open spec fn resolves(ctx: ContextView) -> spec_fn(InjectEntryView) -> EdgeView {
    |e: InjectEntryView| EdgeView { service: e.name, realm: ctx.realm_of(e.name) }
}

/// The exact dependency slots of an era spawned at a Context.
pub open spec fn era_edges(ctx: ContextView, inject: Seq<InjectEntryView>) -> Seq<EdgeView> {
    inject.map_values(resolves(ctx))
}

/// One configured declaration becomes one layer on the Fiber's Context.
pub open spec fn configuring() -> spec_fn(ContextView, InjectEntryView) -> ContextView {
    |c: ContextView, e: InjectEntryView|
        match e.configured {
            Some(layer) => c.configured(e.name, layer),
            None => c,
        }
}

/// The Context every apply of an era derives from: a fresh Scope beneath the
/// spawning Context, with the configured declarations as inner layers.
pub open spec fn era_scope(ctx: ContextView, inject: Seq<InjectEntryView>, id: u64) -> ContextView {
    inject.fold_left(ctx.scoped(id), configuring())
}

impl RootView {
    /// The Fiber the next admission creates.
    pub open spec fn next_fiber(self) -> FiberId {
        FiberId(self.fibers.len() as usize)
    }

    /// The freshly admitted Fiber: attached to its group, with its dependency
    /// slots resolved once and its creation record installed.
    pub open spec fn admitted_fiber(
        self,
        ctx: ContextView,
        plugin: TypedPlugin,
        name: Seq<char>,
        inject: Seq<InjectEntryView>,
    ) -> FiberView {
        let key = PluginKey::Typed(plugin.contract);
        FiberView {
            creation_pending: true,
            residency: Some(
                ResidencyClaim {
                    allocation: self.registry.attach_allocation(key, self.next),
                    fiber: self.next_fiber(),
                },
            ),
            spawn: Some(
                StoredView {
                    plugin,
                    name,
                    inject,
                    scope: era_scope(ctx, inject, (self.next + 1) as u64),
                    plugin_key: key,
                    spawning_ctx: ctx,
                    effective_input: (self.next + 2) as u64,
                },
            ),
            ..FiberView::fresh(name, era_edges(ctx, inject))
        }
    }

    /// The Runtime after one admission, with the record of it published.
    pub open spec fn admitting(
        self,
        ctx: ContextView,
        plugin: TypedPlugin,
        name: Seq<char>,
        inject: Seq<InjectEntryView>,
    ) -> RootView {
        let id = self.next_fiber();
        let resident = RootView {
            next: (self.next + 3) as u64,
            fibers: self.fibers.push(self.admitted_fiber(ctx, plugin, name, inject)),
            registry: self.registry.attached(PluginKey::Typed(plugin.contract), id, self.next),
            deps: self.deps.registered(id, era_edges(ctx, inject)),
            ..self
        };
        resident.observe(
            ObservationView::FiberResidency {
                change: ResidencyChange::Admitted,
                fiber: resident.fiber_record(id),
            },
        )
    }
}

/// Where a spawn stands.
pub enum SpawnPhase {
    /// Nothing is allocated yet.
    Start {
        /// The spawning Context.
        ctx: Context,
        /// What is spawned.
        prepared: PreparedPlugin,
        /// Whether the spawning Context's generation has to be open.
        gated: bool,
    },
    /// The initial pass runs.
    Initial(InitialPass),
    /// The Fiber is quiescent; the handle is about to be delivered.
    Handoff(FiberId),
    /// The creation reached its ending.
    Over(Result<FiberHandle, SpawnError>),
}

/// Where a spawn stands, as a mathematical value.
#[verifier::ext_equal]
pub enum SpawnPhaseView {
    Start {
        ctx: ContextView,
        plugin: TypedPlugin,
        name: Seq<char>,
        inject: Seq<InjectEntryView>,
        gated: bool,
    },
    Initial(InitialPassView),
    Handoff(FiberId),
    Over(Result<FiberHandle, SpawnErrorView>),
}

/// The view of a spawn's ending.
pub open spec fn spawn_result(r: Result<FiberHandle, SpawnError>) -> Result<
    FiberHandle,
    SpawnErrorView,
> {
    match r {
        Ok(handle) => Ok(handle),
        Err(e) => Err(e@),
    }
}

impl View for SpawnPhase {
    type V = SpawnPhaseView;

    open spec fn view(&self) -> SpawnPhaseView {
        match self {
            SpawnPhase::Start { ctx, prepared, gated } => SpawnPhaseView::Start {
                ctx: ctx@,
                plugin: prepared.plugin,
                name: prepared.name@,
                inject: prepared.inject@,
                gated: *gated,
            },
            SpawnPhase::Initial(pass) => SpawnPhaseView::Initial(pass@),
            SpawnPhase::Handoff(id) => SpawnPhaseView::Handoff(*id),
            SpawnPhase::Over(result) => SpawnPhaseView::Over(spawn_result(*result)),
        }
    }
}

/// One spawn transaction.
pub struct Spawn {
    phase: SpawnPhase,
}

impl View for Spawn {
    type V = SpawnPhaseView;

    closed spec fn view(&self) -> SpawnPhaseView {
        self.phase@
    }
}

/// What one step of a spawn comes to.
#[verifier::ext_equal]
pub struct SpawnStep {
    /// The Runtime after it.
    pub root: RootView,
    /// Where the spawn stands after it.
    pub phase: SpawnPhaseView,
    /// What the host does next; `None` when the spawn is over.
    pub action: Option<ActionView>,
}

impl SpawnPhaseView {
    /// The end of a spawn.
    pub open spec fn over(root: RootView, result: Result<FiberHandle, SpawnErrorView>) -> SpawnStep {
        SpawnStep { root, phase: SpawnPhaseView::Over(result), action: None }
    }

    /// The handoff: once the slot is idle a living Fiber is delivered, and a
    /// Fiber that a framework invalidation disposed meanwhile is reported as
    /// interrupted, unlinked for certain.
    pub open spec fn handoff(root: RootView, id: FiberId) -> SpawnStep {
        let fiber = root.fiber(id);
        if !(fiber.slot.inertia is Idle) {
            SpawnStep { root, phase: SpawnPhaseView::Handoff(id), action: Some(ActionView::Wait) }
        } else if fiber.alive {
            SpawnPhaseView::over(
                root.with_fiber(id, FiberView { creation_pending: false, ..fiber }),
                Ok(FiberHandle { fiber: id }),
            )
        } else {
            SpawnPhaseView::over(root.unlinking(id), Err(SpawnErrorView::Interrupted))
        }
    }

    /// A quiescent Fiber waits for its handoff; a framework invalidation that
    /// waited for the slot goes first.
    pub open spec fn offered(root: RootView, id: FiberId) -> SpawnStep {
        SpawnStep { root, phase: SpawnPhaseView::Handoff(id), action: Some(ActionView::Again) }
    }

    /// While the initial pass runs.
    pub open spec fn initial(root: RootView, pass: InitialPassView, reply: ReplyView) -> SpawnStep {
        let step = pass.step(root, reply);
        match step.action {
            Some(action) => SpawnStep {
                root: step.root,
                phase: SpawnPhaseView::Initial(InitialPassView { phase: step.phase, ..pass }),
                action: Some(action),
            },
            None => match step.phase {
                InitialPhaseView::Over(InitialOutcomeView::Active) => SpawnPhaseView::offered(
                    step.root,
                    pass.fiber,
                ),
                InitialPhaseView::Over(InitialOutcomeView::Pending) => SpawnPhaseView::offered(
                    step.root,
                    pass.fiber,
                ),
                InitialPhaseView::Over(
                    InitialOutcomeView::Failed(failure),
                ) => SpawnPhaseView::over(step.root, Err(SpawnErrorView::InitialApply(failure))),
                _ => SpawnPhaseView::over(step.root, Err(SpawnErrorView::Interrupted)),
            },
        }
    }

    /// One step of a spawn. A closed generation is refused before anything is
    /// allocated.
    pub open spec fn step(self, root: RootView, reply: ReplyView) -> SpawnStep {
        match self {
            SpawnPhaseView::Start { ctx, plugin, name, inject, gated } => if gated && !root.admits(
                ctx.fiber,
            ) {
                SpawnPhaseView::over(root, Err(SpawnErrorView::InactiveContext))
            } else {
                SpawnPhaseView::initial(
                    root.admitting(ctx, plugin, name, inject),
                    InitialPassView { fiber: root.next_fiber(), phase: InitialPhaseView::Claim },
                    reply,
                )
            },
            SpawnPhaseView::Initial(pass) => SpawnPhaseView::initial(root, pass, reply),
            SpawnPhaseView::Handoff(id) => SpawnPhaseView::handoff(root, id),
            SpawnPhaseView::Over(result) => SpawnPhaseView::over(root, result),
        }
    }

    /// The Fiber of the spawn, from its admission to its ending.
    pub open spec fn attempted(self) -> Option<FiberId> {
        match self {
            SpawnPhaseView::Initial(pass) => Some(pass.fiber),
            SpawnPhaseView::Handoff(id) => Some(id),
            _ => None,
        }
    }

    /// The spawn is of a Fiber of the Runtime.
    pub open spec fn wf(self, root: RootView) -> bool {
        match self {
            SpawnPhaseView::Initial(pass) => pass.wf() && root.has(pass.fiber),
            SpawnPhaseView::Handoff(id) => root.has(id),
            _ => true,
        }
    }
}

fn resolve_edges(ctx: &Context, inject: &InjectSpec) -> (r: Vec<DependencyEdge>)
    ensures
        edge_views(r@) == era_edges(ctx@, inject@),
{
    let entries = inject.entries();
    let ghost rows = inject@;
    let ghost all = era_edges(ctx@, rows);
    let mut edges: Vec<DependencyEdge> = Vec::new();
    let mut i: usize = 0;
    while i < entries.len()
        invariant
            i <= entries@.len(),
            rows == entry_views(entries@),
            all == era_edges(ctx@, rows),
            edge_views(edges@) == all.take(i as int),
        decreases entries@.len() - i,
    {
        let edge = DependencyEdge::new(entries[i].name.clone(), ctx.isolate_key(&entries[i].name));
        assert(rows[i as int] == entries@[i as int]@);
        assert(all[i as int] == edge@);
        assert(edge_views(edges@.push(edge)) =~= edge_views(edges@).push(edge@));
        edges.push(edge);
        assert(edge_views(edges@) =~= all.take(i + 1));
        i = i + 1;
    }
    assert(edge_views(edges@) =~= all);
    edges
}

fn configure(base: Context, inject: &InjectSpec) -> (r: Context)
    ensures
        r@ == inject@.fold_left(base@, configuring()),
{
    let entries = inject.entries();
    let ghost rows = inject@;
    let ghost start = base@;
    let mut scope = base;
    let mut i: usize = 0;
    while i < entries.len()
        invariant
            i <= entries@.len(),
            rows == entry_views(entries@),
            scope@ == rows.take(i as int).fold_left(start, configuring()),
        decreases entries@.len() - i,
    {
        proof {
            lemma_fold_step(rows, start, configuring(), i as int);
            assert(rows[i as int] == entries@[i as int]@);
        }
        match entries[i].configured {
            Some(configured) => {
                scope = scope.with_configured_intercept(entries[i].name.clone(), configured);
            },
            None => {},
        }
        i = i + 1;
    }
    assert(rows.take(i as int) =~= rows);
    scope
}

proof fn lemma_admitting_room(
    root: RootView,
    ctx: ContextView,
    plugin: TypedPlugin,
    name: Seq<char>,
    inject: Seq<InjectEntryView>,
    n: nat,
)
    requires
        root.room(n + 3),
    ensures
        root.admitting(ctx, plugin, name, inject).room(n),
        root.admitting(ctx, plugin, name, inject).fibers.len() == root.fibers.len() + 1,
{
    lemma_room_less(root, n + 2);
    lemma_room_less(root, n + 1);
    lemma_room_less(root, n);
    let after = root.admitting(ctx, plugin, name, inject);
    assert forall|i: int| 0 <= i < after.fibers.len() implies (#[trigger] after.fibers[i]).room(
        n,
    ) by {
        if i < root.fibers.len() {
            assert(after.fibers[i] == root.fibers[i]);
        } else {
            assert(after.fibers[i].state == FiberView::fresh(name, era_edges(ctx, inject)).state);
        }
    }
}

/// A step of a spawn never takes a Fiber away.
pub proof fn lemma_spawn_keeps_fibers(phase: SpawnPhaseView, root: RootView, reply: ReplyView)
    requires
        phase.wf(root),
        root.room(7),
    ensures
        phase.step(root, reply).root.fibers.len() >= root.fibers.len(),
{
    lemma_room_less(root, 6);
    lemma_room_less(root, 5);
    lemma_room_less(root, 4);
    match phase {
        SpawnPhaseView::Start { ctx, plugin, name, inject, gated } => {
            lemma_admitting_room(root, ctx, plugin, name, inject, 4);
            let after = root.admitting(ctx, plugin, name, inject);
            let pass = InitialPassView {
                fiber: root.next_fiber(),
                phase: InitialPhaseView::Claim,
            };
            if after.has(pass.fiber) {
                lemma_initial_step_room(pass, after, reply, 0);
            }
        },
        SpawnPhaseView::Initial(pass) => {
            lemma_initial_step_room(pass, root, reply, 0);
        },
        _ => {},
    }
}

impl Root {
    /// Admits one sealed Plugin: allocates its Fiber, attaches it to its group,
    /// installs its creation record and publishes its dependency slots.
    pub fn admit_plugin(&mut self, ctx: Context, prepared: PreparedPlugin) -> (id: FiberId)
        requires
            old(self).wf(),
            old(self)@.room(3),
        ensures
            final(self).wf(),
            id == old(self)@.next_fiber(),
            final(self)@ == old(self)@.admitting(
                ctx@,
                prepared.plugin,
                prepared.name@,
                prepared.inject@,
            ),
    {
        let PreparedPlugin { plugin, name, inject } = prepared;
        let ghost label = name@;
        let ghost rows = inject@;
        let key = PluginKey::Typed(plugin.contract);
        let edges = resolve_edges(&ctx, &inject);
        let mut fiber = Fiber::new_with_edges(name.clone(), resolve_edges(&ctx, &inject));
        fiber.creation_pending = true;
        let allocation = self.fresh();
        let scope_id = self.fresh();
        let input = self.fresh();
        let scope = configure(ctx.at_child_scope(scope_id), &inject);
        let _ = fiber.spawn_state.install(plugin, name, inject, scope, key, ctx, input);
        let id = FiberId(self.fiber_count());
        let claim = self.registry_mut().attach_fiber(key, id, allocation);
        fiber.residency = Some(claim);
        let _ = self.add_fiber(fiber);
        self.deps_mut().register(id, edges);
        assert(self@.fibers =~= old(self)@.fibers.push(
            old(self)@.admitted_fiber(ctx@, plugin, label, rows),
        ));
        let snapshot = fiber_snapshot(self, id);
        self.observe(
            RuntimeObservation::FiberResidency {
                change: ResidencyChange::Admitted,
                fiber: snapshot,
            },
        );
        id
    }
}

impl Spawn {
    fn hand_off(&mut self, root: &mut Root, id: FiberId) -> (r: Option<Action>)
        requires
            old(root).wf(),
            old(root)@.has(id),
        ensures
            final(root).wf(),
            final(root)@ == SpawnPhaseView::handoff(old(root)@, id).root,
            final(self)@ == SpawnPhaseView::handoff(old(root)@, id).phase,
            action_view(r) == SpawnPhaseView::handoff(old(root)@, id).action,
    {
        if !root.fiber(id).slot.is_idle() {
            self.phase = SpawnPhase::Handoff(id);
            return Some(Action::Wait);
        }
        if root.fiber(id).alive {
            root.fiber_mut(id).creation_pending = false;
            self.phase = SpawnPhase::Over(Ok(FiberHandle::new(id)));
        } else {
            root.release_residency(id);
            self.phase = SpawnPhase::Over(Err(SpawnError::Interrupted));
        }
        None
    }

    fn settle(&mut self, root: &mut Root, pass: InitialPass, reply: Reply) -> (r: Option<Action>)
        requires
            old(root).wf(),
            old(root)@.has(pass@.fiber),
            pass@.wf(),
            old(root)@.room(4),
        ensures
            final(root).wf(),
            final(root)@ == SpawnPhaseView::initial(old(root)@, pass@, reply@).root,
            final(self)@ == SpawnPhaseView::initial(old(root)@, pass@, reply@).phase,
            final(self)@.wf(final(root)@),
            action_view(r) == SpawnPhaseView::initial(old(root)@, pass@, reply@).action,
    {
        let mut pass = pass;
        let id = pass.fiber();
        proof {
            lemma_initial_step_room(pass@, root@, reply@, 0);
        }
        match pass.step(root, reply) {
            Some(action) => {
                self.phase = SpawnPhase::Initial(pass);
                Some(action)
            },
            None => match pass.outcome() {
                Some(InitialOutcome::Active) | Some(InitialOutcome::Pending) => {
                    self.phase = SpawnPhase::Handoff(id);
                    Some(Action::Again)
                },
                Some(InitialOutcome::Failed(failure)) => {
                    self.phase = SpawnPhase::Over(Err(SpawnError::InitialApply(failure)));
                    None
                },
                _ => {
                    self.phase = SpawnPhase::Over(Err(SpawnError::Interrupted));
                    None
                },
            },
        }
    }

    /// Goes on with the host's answer; says what the host does next, or nothing
    /// when the spawn is over.
    pub fn step(&mut self, root: &mut Root, reply: Reply) -> (r: Option<Action>)
        requires
            old(root).wf(),
            old(self)@.wf(old(root)@),
            old(root)@.room(7),
        ensures
            final(root).wf(),
            final(root)@ == old(self)@.step(old(root)@, reply@).root,
            final(self)@ == old(self)@.step(old(root)@, reply@).phase,
            final(self)@.wf(final(root)@),
            action_view(r) == old(self)@.step(old(root)@, reply@).action,
    {
        proof {
            lemma_room_less(root@, 6);
            lemma_room_less(root@, 5);
            lemma_room_less(root@, 4);
            lemma_room_less(root@, 3);
        }
        let mut phase = SpawnPhase::Handoff(FiberId(0));
        std::mem::swap(&mut phase, &mut self.phase);
        match phase {
            SpawnPhase::Start { ctx, prepared, gated } => {
                if gated && !root.admits(ctx.fiber) {
                    self.phase = SpawnPhase::Over(Err(SpawnError::InactiveContext));
                    return None;
                }
                proof {
                    lemma_admitting_room(
                        root@,
                        ctx@,
                        prepared.plugin,
                        prepared.name@,
                        prepared.inject@,
                        4,
                    );
                }
                let id = root.admit_plugin(ctx, prepared);
                self.settle(root, InitialPass::new(id), reply)
            },
            SpawnPhase::Initial(pass) => self.settle(root, pass, reply),
            SpawnPhase::Handoff(id) => self.hand_off(root, id),
            SpawnPhase::Over(result) => {
                self.phase = SpawnPhase::Over(result);
                None
            },
        }
    }

    /// How the spawn ended, once it is over.
    pub fn outcome(self) -> (r: Option<Result<FiberHandle, SpawnError>>)
        ensures
            match self@ {
                SpawnPhaseView::Over(result) => r matches Some(o) && spawn_result(o) == result,
                _ => r is None,
            },
    {
        match self.phase {
            SpawnPhase::Over(result) => Some(result),
            _ => None,
        }
    }

    /// Abandons the spawn. Before the admission, and after the ending, nothing is
    /// left to do; in between the framework completes the disposal of the
    /// undelivered Fiber.
    pub fn cancel(self) -> (r: Option<Disposal>)
        ensures
            match self@.attempted() {
                Some(id) => r matches Some(d) && d@ == (DisposalView {
                    fiber: id,
                    phase: DisposalPhaseView::Inherit,
                }),
                None => r is None,
            },
    {
        match self.phase {
            SpawnPhase::Initial(pass) => Some(
                Disposal::creation_interrupted_teardown(pass.fiber()),
            ),
            SpawnPhase::Handoff(id) => Some(Disposal::creation_interrupted_teardown(id)),
            _ => None,
        }
    }

    /// Replays a captured creation recipe. The captured origin is provenance: its
    /// generation need not be open any more.
    pub fn era_successor(ctx: Context, prepared: PreparedPlugin) -> (r: Spawn)
        ensures
            r@ == (SpawnPhaseView::Start {
                ctx: ctx@,
                plugin: prepared.plugin,
                name: prepared.name@,
                inject: prepared.inject@,
                gated: false,
            }),
    {
        Spawn { phase: SpawnPhase::Start { ctx, prepared, gated: false } }
    }
}

impl Context {
    /// Admits one prepared and sealed Plugin to lifecycle creation.
    pub fn spawn(&self, prepared: PreparedPlugin) -> (r: Spawn)
        ensures
            r@ == (SpawnPhaseView::Start {
                ctx: self@,
                plugin: prepared.plugin,
                name: prepared.name@,
                inject: prepared.inject@,
                gated: true,
            }),
    {
        Spawn { phase: SpawnPhase::Start { ctx: self.duplicate(), prepared, gated: true } }
    }
}

/// A spawn from a closed generation allocates nothing.
pub proof fn law_a_refused_spawn_allocates_nothing(
    phase: SpawnPhaseView,
    root: RootView,
    reply: ReplyView,
)
    requires
        phase matches SpawnPhaseView::Start { ctx, gated, .. } && gated && !root.admits(ctx.fiber),
    ensures
        phase.step(root, reply).root == root,
        phase.step(root, reply).phase == SpawnPhaseView::Over(
            Err::<FiberHandle, SpawnErrorView>(SpawnErrorView::InactiveContext),
        ),
{
}

/// Every admission gets a fresh Fiber, a fresh Scope beneath the spawning one and
/// a fresh input identity; the other Fibers are left as they were.
pub proof fn law_an_admission_is_fresh(
    root: RootView,
    ctx: ContextView,
    plugin: TypedPlugin,
    name: Seq<char>,
    inject: Seq<InjectEntryView>,
    other: FiberId,
)
    requires
        root.room(3),
        root.fibers.len() < usize::MAX,
        root.has(other),
    ensures
        ({
            let after = root.admitting(ctx, plugin, name, inject);
            let id = root.next_fiber();
            &&& !root.has(id)
            &&& after.has(id)
            &&& after.fiber(id) == root.admitted_fiber(ctx, plugin, name, inject)
            &&& after.fiber(other) == root.fiber(other)
            &&& after.fiber(id).spawn.unwrap().effective_input >= root.next
            &&& after.fiber(id).spawn.unwrap().scope.scope == seq![(root.next + 1) as u64]
                + ctx.scope
        }),
{
    lemma_era_scope(ctx.scoped((root.next + 1) as u64), inject);
}

proof fn lemma_era_scope(base: ContextView, inject: Seq<InjectEntryView>)
    ensures
        inject.fold_left(base, configuring()).scope == base.scope,
    decreases inject.len(),
{
    if inject.len() > 0 {
        lemma_era_scope(base, inject.drop_last());
    }
}

/// Past the initial pass only the liveness of the Fiber decides: a living one is
/// delivered with its creation window closed, and one that a framework
/// invalidation disposed is reported as interrupted, never as delivered.
pub proof fn law_a_handoff_delivers_only_a_living_fiber(root: RootView, id: FiberId)
    requires
        root.has(id),
    ensures
        ({
            let step = SpawnPhaseView::Handoff(id).step(root, ReplyView::Go);
            &&& step.action is None <==> root.fiber(id).slot.inertia is Idle
            &&& step.action is None ==> match step.phase {
                SpawnPhaseView::Over(Ok(handle)) => root.fiber(id).alive && handle.fiber == id
                    && step.root.fiber(id).alive && !step.root.fiber(id).creation_pending,
                SpawnPhaseView::Over(Err(e)) => !root.fiber(id).alive && e is Interrupted,
                _ => false,
            }
        }),
{
}

} // verus!
