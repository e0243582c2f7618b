//! The succession of an era replacement: what holds of its source and of its
//! successor from the claim to the handoff.

use crate::converge::ConvergenceView;
use crate::dispose::{
    law_a_disposal_is_a_full_barrier, law_a_fiber_dies_before_its_drain,
    lemma_disposal_keeps_fibers, DisposalPhaseView, DisposalView,
};
use crate::drain::lemma_drained_counters;
use crate::effect::DisposableToken;
use crate::era::{EraEndingView, EraPhaseView, EraView};
use crate::fiber::FiberView;
use crate::frame::{
    law_a_convergence_changes_slots_only, law_a_creation_grows_its_fiber,
    law_a_creation_works_on_its_fiber, law_a_disposal_works_on_its_fiber, lemma_unlinking_works,
};
use crate::handle::FiberHandle;
use crate::ids::FiberId;
use crate::pass::{InitialPassView, InitialPhaseView};
use crate::root::RootView;
use crate::settle::ReplyView;
use crate::sound::law_an_era_replacement_keeps_the_runtime_sound;
use crate::spawn::{SpawnPhaseView, SpawnStep};
use crate::state::FiberState;
use crate::transition::lemma_transition_publishes;
use vstd::prelude::*;

verus! {

impl RootView {
    /// The Fiber is dead, disposed and unlinked, and its disposal is complete.
    pub open spec fn departed(self, id: FiberId) -> bool {
        let fiber = self.fiber(id);
        &&& self.has(id)
        &&& !fiber.alive
        &&& fiber.current() is Disposed
        &&& fiber.residency is None
        &&& fiber.dispose_complete
    }
}

impl EraView {
    /// The source is a Fiber of the recipe's name that is not disposed while it
    /// lives.
    pub open spec fn sourced(self, root: RootView) -> bool {
        let fiber = root.fiber(self.source);
        &&& root.has(self.source)
        &&& fiber.name == self.name
        &&& fiber.alive ==> !(fiber.current() is Disposed)
    }

    /// The Fiber is another than the source, of the same name.
    pub open spec fn succeeded_by(self, root: RootView, id: FiberId) -> bool {
        &&& root.has(id)
        &&& id != self.source
        &&& root.fiber(id).name == self.name
    }

    /// The terminal barrier of the source is on its way.
    pub open spec fn tears(self, root: RootView, disposal: DisposalView) -> bool {
        &&& disposal.fiber == self.source
        &&& match disposal.phase {
            DisposalPhaseView::Begin { frees_slot } => frees_slot && !(root.fiber(
                self.source,
            ).current() is Disposed),
            DisposalPhaseView::Draining { frees_slot, .. } => frees_slot && !root.fiber(
                self.source,
            ).alive,
            _ => false,
        }
    }

    /// The successor is on its way: it is of the recipe's name and not the source.
    pub open spec fn raises(self, root: RootView, spawn: SpawnPhaseView) -> bool {
        match spawn {
            SpawnPhaseView::Start { name, gated, .. } => name == self.name && !gated,
            SpawnPhaseView::Initial(pass) => pass.wf() && self.succeeded_by(root, pass.fiber),
            SpawnPhaseView::Handoff(id) => self.succeeded_by(root, id),
            SpawnPhaseView::Over(_) => false,
        }
    }

    /// The replacement is on course: from the end of the terminal barrier on the
    /// source has departed, and the successor, from its admission on, is another
    /// Fiber of the same name.
    pub open spec fn course(self, root: RootView) -> bool {
        &&& self.sourced(root)
        &&& match self.phase {
            EraPhaseView::Claim => true,
            EraPhaseView::Terminal(disposal, _) => self.tears(root, disposal),
            EraPhaseView::Entry(_) => root.departed(self.source),
            EraPhaseView::Superseded(_) => root.departed(self.source),
            EraPhaseView::Spawning(spawn) => root.departed(self.source) && self.raises(root, spawn),
            EraPhaseView::Final(_, ending) => {
                &&& root.departed(self.source)
                &&& ending matches EraEndingView::Handed(s) ==> self.succeeded_by(root, s.fiber)
            },
            EraPhaseView::Over(ending) => match ending {
                EraEndingView::Closed => true,
                EraEndingView::Recursion(_) => true,
                EraEndingView::Handed(s) => root.departed(self.source) && self.succeeded_by(
                    root,
                    s.fiber,
                ),
                _ => root.departed(self.source),
            },
        }
    }

    /// The successor, from its admission on, grows or stands.
    pub open spec fn thrives(self, root: RootView) -> bool {
        match self.phase {
            EraPhaseView::Superseded(plugin) => plugin.state is Some,
            EraPhaseView::Spawning(SpawnPhaseView::Start { plugin, .. }) => plugin.state is Some,
            EraPhaseView::Spawning(SpawnPhaseView::Initial(pass)) => root.grows(pass),
            EraPhaseView::Spawning(SpawnPhaseView::Handoff(id)) => root.stands(id),
            EraPhaseView::Final(_, EraEndingView::Handed(s)) => root.stands(s.fiber),
            EraPhaseView::Over(EraEndingView::Handed(s)) => root.stands(s.fiber),
            _ => true,
        }
    }

    /// Nothing that the replacement met so far keeps it from handing its successor
    /// off: the source's behavior is home to be moved, and no apply of the
    /// successor failed.
    pub open spec fn promising(self, root: RootView) -> bool {
        match self.phase {
            EraPhaseView::Claim => {
                let fiber = root.fiber(self.source);
                fiber.slot.inertia is Idle && fiber.alive && !fiber.disposing ==> root.accepts(
                    self.source,
                    self.change,
                )
            },
            EraPhaseView::Terminal(..) => root.accepts(self.source, self.change),
            EraPhaseView::Entry(_) => root.accepts(self.source, self.change),
            EraPhaseView::Superseded(_) => true,
            EraPhaseView::Spawning(spawn) => match spawn {
                SpawnPhaseView::Initial(pass) => pass.unfailed(),
                _ => true,
            },
            EraPhaseView::Final(_, ending) => ending is Handed,
            EraPhaseView::Over(ending) => ending is Handed || ending is Closed
                || ending is Recursion,
        }
    }

    /// The Fiber of the successor, from its admission on.
    pub open spec fn successor(self) -> Option<FiberId> {
        match self.phase {
            EraPhaseView::Spawning(spawn) => spawn.attempted(),
            EraPhaseView::Final(_, EraEndingView::Handed(s)) => Some(s.fiber),
            EraPhaseView::Over(EraEndingView::Handed(s)) => Some(s.fiber),
            _ => None,
        }
    }
}

/// Whether the host's answer reports neither a failed apply nor a destructor that
/// panicked.
pub open spec fn succeeds(reply: ReplyView) -> bool {
    &&& !(reply matches ReplyView::Applied(Some(_)))
    &&& !(reply matches ReplyView::Released { panicked: true })
}

/// A replacement that was just asked for, from the record of its living source, is
/// on course, and its recipe is normal.
pub proof fn law_a_replacement_sets_out_on_course(era: EraView, root: RootView)
    requires
        root.sound(),
        root.has(era.source),
        !(root.fiber(era.source).current() is Disposed),
        root.fiber(era.source).spawn matches Some(s) && era.name == s.name && era.inject
            == s.inject,
        era.phase is Claim,
    ensures
        era.sourced(root),
        era.course(root),
        era.thrives(root),
        era.normal(),
{
    reveal(RootView::sound);
    assert(root.fibers[era.source.0 as int].recorded());
}

proof fn lemma_teardown_on_course(era: EraView, root: RootView, disposal: DisposalView)
    requires
        era.sourced(root),
        era.tears(root, disposal),
    ensures
        ({
            let step = disposal.step(root);
            &&& step.root.has(era.source)
            &&& step.root.fiber(era.source).name == root.fiber(era.source).name
            &&& !step.root.fiber(era.source).alive
            &&& step.root.fiber(era.source).spawn == root.fiber(era.source).spawn
            &&& step.action is Some ==> era.tears(
                step.root,
                DisposalView { phase: step.phase, ..disposal },
            )
            &&& step.action is None ==> step.root.departed(era.source)
        }),
{
    let id = era.source;
    law_a_disposal_works_on_its_fiber(disposal, root);
    match disposal.phase {
        DisposalPhaseView::Begin { frees_slot } => {
            let closed = root.doomed(id).closing(id);
            law_a_fiber_dies_before_its_drain(root.doomed(id), id);
            let marked = closed.marking_drain(id, true);
            let tokens = closed.fiber(id).journal.tokens();
            assert(closed.has(id)) by {
                lemma_transition_publishes(
                    root.doomed(id),
                    id,
                    FiberState::Unloading,
                );
            }
            assert(disposal.step(root) == disposal.draining(marked, frees_slot, tokens));
            lemma_last_drain(era, marked, disposal, tokens);
        },
        DisposalPhaseView::Draining { frees_slot, tokens } => {
            lemma_last_drain(era, root, disposal, tokens);
        },
        _ => {},
    }
}

proof fn lemma_last_drain(
    era: EraView,
    root: RootView,
    disposal: DisposalView,
    tokens: Seq<DisposableToken>,
)
    requires
        root.has(era.source),
        disposal.fiber == era.source,
        !root.fiber(era.source).alive,
    ensures
        ({
            let step = disposal.draining(root, true, tokens);
            &&& !step.root.fiber(era.source).alive
            &&& step.action is Some ==> step.root.has(era.source)
            &&& step.action is Some ==> (step.phase matches DisposalPhaseView::Draining {
                frees_slot,
                ..
            } && frees_slot)
            &&& step.action is None ==> step.root.departed(era.source)
        }),
{
    lemma_drained_counters(root, era.source, tokens);
    lemma_disposal_keeps_fibers(disposal, root, true, tokens);
    if disposal.draining(root, true, tokens).action is None {
        law_a_disposal_is_a_full_barrier(disposal, root, true, tokens);
    }
}

proof fn lemma_other_work(era: EraView, root: RootView, later: RootView, id: FiberId)
    requires
        root.departed(era.source),
        era.sourced(root),
        id != era.source,
        root.works_on(id, later),
    ensures
        later.departed(era.source),
        era.sourced(later),
        era.succeeded_by(root, id) ==> era.succeeded_by(later, id),
{
    assert(later.fibers[era.source.0 as int] == (FiberView {
        slot: later.fibers[era.source.0 as int].slot,
        ..root.fibers[era.source.0 as int]
    }));
}

/// What a step of a successor's creation comes to.
pub open spec fn raised(
    era: EraView,
    spawn: SpawnPhaseView,
    root: RootView,
    reply: ReplyView,
) -> bool {
    let step = spawn.step(root, reply);
    &&& step.root.departed(era.source)
    &&& era.sourced(step.root)
    &&& step.action is Some ==> era.raises(step.root, step.phase) && !(step.phase is Start)
    &&& step.action is None ==> (step.phase matches SpawnPhaseView::Over(result) && (
    result matches Ok(handle) ==> era.succeeded_by(step.root, handle.fiber)))
}

/// How a step of a successor's creation thrives.
pub open spec fn thriven(spawn: SpawnPhaseView, root: RootView, reply: ReplyView) -> bool {
    let step = spawn.step(root, reply);
    match step.phase {
        SpawnPhaseView::Start { .. } => false,
        SpawnPhaseView::Initial(pass) => step.root.grows(pass),
        SpawnPhaseView::Handoff(id) => step.root.stands(id),
        SpawnPhaseView::Over(result) => match result {
            Ok(handle) => step.root.stands(handle.fiber),
            Err(_) => true,
        },
    }
}

/// Whether a step of a successor's creation leaves the handoff in prospect.
pub open spec fn unbroken(spawn: SpawnPhaseView, root: RootView, reply: ReplyView) -> bool {
    match spawn.step(root, reply).phase {
        SpawnPhaseView::Initial(pass) => pass.unfailed(),
        SpawnPhaseView::Over(result) => result is Ok,
        _ => true,
    }
}

proof fn lemma_initial_raises(
    era: EraView,
    root: RootView,
    pass: InitialPassView,
    reply: ReplyView,
)
    requires
        root.departed(era.source),
        era.sourced(root),
        pass.wf(),
        era.succeeded_by(root, pass.fiber),
    ensures
        raised(era, SpawnPhaseView::Initial(pass), root, reply),
        root.grows(pass) ==> thriven(SpawnPhaseView::Initial(pass), root, reply),
        root.grows(pass) && pass.unfailed() && succeeds(reply) ==> unbroken(
            SpawnPhaseView::Initial(pass),
            root,
            reply,
        ),
{
    law_a_creation_works_on_its_fiber(pass, root, reply);
    let after = pass.step(root, reply).root;
    lemma_other_work(era, root, after, pass.fiber);
    if root.grows(pass) {
        law_a_creation_grows_its_fiber(pass, root, reply);
    }
}

proof fn lemma_start_raises(
    era: EraView,
    root: RootView,
    spawn: SpawnPhaseView,
    reply: ReplyView,
)
    requires
        root.departed(era.source),
        era.sourced(root),
        root.fibers.len() < usize::MAX,
        spawn is Start,
        era.raises(root, spawn),
    ensures
        raised(era, spawn, root, reply),
        spawn->Start_plugin.state is Some ==> thriven(spawn, root, reply) && (succeeds(reply)
            ==> unbroken(spawn, root, reply)),
        spawn.step(root, reply).root.fibers.len() == root.fibers.len() + 1,
{
    match spawn {
        SpawnPhaseView::Start { ctx, plugin, name, inject, gated } => {
            let born = root.admitting(ctx, plugin, name, inject);
            let id = root.next_fiber();
            let pass = InitialPassView { fiber: id, phase: InitialPhaseView::Claim };
            assert(born.fibers == root.fibers.push(
                root.admitted_fiber(ctx, plugin, name, inject),
            ));
            assert(born.fiber(era.source) == root.fiber(era.source));
            assert(born.fiber(id) == root.admitted_fiber(ctx, plugin, name, inject));
            assert(spawn.step(root, reply) == SpawnPhaseView::initial(born, pass, reply));
            assert(SpawnPhaseView::Initial(pass).step(born, reply) == SpawnPhaseView::initial(
                born,
                pass,
                reply,
            ));
            lemma_initial_raises(era, born, pass, reply);
            law_a_creation_works_on_its_fiber(pass, born, reply);
        },
        _ => {},
    }
}

proof fn lemma_handoff_raises(era: EraView, root: RootView, id: FiberId, reply: ReplyView)
    requires
        root.departed(era.source),
        era.sourced(root),
        era.succeeded_by(root, id),
    ensures
        raised(era, SpawnPhaseView::Handoff(id), root, reply),
        root.stands(id) ==> thriven(SpawnPhaseView::Handoff(id), root, reply) && unbroken(
            SpawnPhaseView::Handoff(id),
            root,
            reply,
        ),
        SpawnPhaseView::Handoff(id).step(root, reply).root.fibers.len() == root.fibers.len(),
{
    let fiber = FiberView { creation_pending: false, ..root.fiber(id) };
    assert(root.works_on(id, root.with_fiber(id, fiber)));
    lemma_other_work(era, root, root.with_fiber(id, fiber), id);
    lemma_unlinking_works(root, id);
    lemma_other_work(era, root, root.unlinking(id), id);
}

/// A step of a successor's creation keeps the succession: it admits the successor
/// where it begins, and no other Fiber.
pub proof fn law_a_successor_is_raised(
    era: EraView,
    root: RootView,
    spawn: SpawnPhaseView,
    reply: ReplyView,
)
    requires
        era.phase == EraPhaseView::Spawning(spawn),
        era.course(root),
        root.fibers.len() < usize::MAX,
    ensures
        raised(era, spawn, root, reply),
        era.thrives(root) ==> thriven(spawn, root, reply),
        era.thrives(root) && era.promising(root) && succeeds(reply) ==> unbroken(
            spawn,
            root,
            reply,
        ),
        spawn.step(root, reply).root.fibers.len() == root.fibers.len() + (if spawn is Start {
            1int
        } else {
            0int
        }),
{
    match spawn {
        SpawnPhaseView::Start { .. } => lemma_start_raises(era, root, spawn, reply),
        SpawnPhaseView::Initial(pass) => {
            law_a_creation_works_on_its_fiber(pass, root, reply);
            lemma_initial_raises(era, root, pass, reply);
        },
        SpawnPhaseView::Handoff(id) => lemma_handoff_raises(era, root, id, reply),
        SpawnPhaseView::Over(result) => {},
    }
}

/// What a step of a replacement comes to: it stays on course, its successor goes on
/// thriving, and, where the host reports no failure, the handoff stays in prospect.
pub open spec fn carries_on(era: EraView, root: RootView, reply: ReplyView) -> bool {
    let step = era.step(root, reply);
    &&& step.era.course(step.root)
    &&& era.thrives(root) ==> step.era.thrives(step.root)
    &&& era.thrives(root) && era.promising(root) && succeeds(reply) ==> step.era.promising(
        step.root,
    )
}

proof fn lemma_claim_carries_on(era: EraView, root: RootView, reply: ReplyView)
    requires
        era.phase is Claim,
        era.course(root),
    ensures
        carries_on(era, root, reply),
{
    let taken = root.claiming_terminal(era.source);
    assert(taken.fiber(era.source) == (FiberView {
        slot: taken.fiber(era.source).slot,
        disposing: true,
        ..root.fiber(era.source)
    }));
}

proof fn lemma_terminal_carries_on(
    era: EraView,
    root: RootView,
    disposal: DisposalView,
    entry: Seq<FiberId>,
    reply: ReplyView,
)
    requires
        era.phase == EraPhaseView::Terminal(disposal, entry),
        era.course(root),
    ensures
        carries_on(era, root, reply),
{
    lemma_teardown_on_course(era, root, disposal);
}

proof fn lemma_slots_only(era: EraView, root: RootView, later: RootView)
    requires
        later.fibers.len() == root.fibers.len(),
        forall|i: int|
            0 <= i < root.fibers.len() ==> (#[trigger] later.fibers[i]) == (FiberView {
                slot: later.fibers[i].slot,
                ..root.fibers[i]
            }),
    ensures
        era.sourced(root) ==> era.sourced(later),
        root.departed(era.source) ==> later.departed(era.source),
        root.accepts(era.source, era.change) && root.has(era.source) ==> later.accepts(
            era.source,
            era.change,
        ),
        forall|id: FiberId| era.succeeded_by(root, id) ==> #[trigger] era.succeeded_by(later, id),
        forall|id: FiberId| root.stands(id) ==> #[trigger] later.stands(id),
{
    if root.has(era.source) {
        assert(later.fibers[era.source.0 as int].alive == root.fibers[era.source.0 as int].alive);
    }
    assert forall|id: FiberId| era.succeeded_by(root, id) implies #[trigger] era.succeeded_by(
        later,
        id,
    ) by {
        assert(later.fibers[id.0 as int].name == root.fibers[id.0 as int].name);
    }
    assert forall|id: FiberId| root.stands(id) implies #[trigger] later.stands(id) by {
        assert(later.fibers[id.0 as int].state == root.fibers[id.0 as int].state);
    }
}

proof fn lemma_entry_carries_on(
    era: EraView,
    root: RootView,
    convergence: ConvergenceView,
    reply: ReplyView,
)
    requires
        era.phase == EraPhaseView::Entry(convergence),
        era.course(root),
    ensures
        carries_on(era, root, reply),
{
    law_a_convergence_changes_slots_only(convergence, root, era.by);
    let later = convergence.step(root, era.by).root;
    lemma_slots_only(era, root, later);
    let moved = later.sealing(era.source, None);
    assert(moved.fiber(era.source) == (FiberView {
        spawn: moved.fiber(era.source).spawn,
        ..later.fiber(era.source)
    }));
}

proof fn lemma_final_carries_on(
    era: EraView,
    root: RootView,
    convergence: ConvergenceView,
    ending: EraEndingView,
    reply: ReplyView,
)
    requires
        era.phase == EraPhaseView::Final(convergence, ending),
        era.course(root),
    ensures
        carries_on(era, root, reply),
{
    law_a_convergence_changes_slots_only(convergence, root, era.by);
    lemma_slots_only(era, root, convergence.step(root, era.by).root);
}

proof fn lemma_spawning_carries_on(
    era: EraView,
    root: RootView,
    spawn: SpawnPhaseView,
    reply: ReplyView,
)
    requires
        era.phase == EraPhaseView::Spawning(spawn),
        era.course(root),
        root.fibers.len() < usize::MAX,
    ensures
        carries_on(era, root, reply),
{
    law_a_successor_is_raised(era, root, spawn, reply);
    lemma_spawning_step(era, root, spawn, reply, spawn.step(root, reply));
}

proof fn lemma_spawning_step(
    era: EraView,
    root: RootView,
    spawn: SpawnPhaseView,
    reply: ReplyView,
    step: SpawnStep,
)
    requires
        era.phase == EraPhaseView::Spawning(spawn),
        step == spawn.step(root, reply),
        raised(era, spawn, root, reply),
        era.thrives(root) ==> thriven(spawn, root, reply),
        era.thrives(root) && era.promising(root) && succeeds(reply) ==> unbroken(
            spawn,
            root,
            reply,
        ),
    ensures
        carries_on(era, root, reply),
{
}

/// Each step of a replacement keeps it on course; as long as nobody else works on
/// the successor it thrives; and where the host reports neither a failed apply nor
/// a panic of the superseded input the handoff stays in prospect.
pub proof fn law_a_replacement_carries_on(era: EraView, root: RootView, reply: ReplyView)
    requires
        era.course(root),
        root.fibers.len() < usize::MAX,
    ensures
        carries_on(era, root, reply),
{
    match era.phase {
        EraPhaseView::Claim => lemma_claim_carries_on(era, root, reply),
        EraPhaseView::Terminal(disposal, entry) => lemma_terminal_carries_on(
            era,
            root,
            disposal,
            entry,
            reply,
        ),
        EraPhaseView::Entry(convergence) => lemma_entry_carries_on(era, root, convergence, reply),
        EraPhaseView::Superseded(plugin) => {},
        EraPhaseView::Spawning(spawn) => lemma_spawning_carries_on(era, root, spawn, reply),
        EraPhaseView::Final(convergence, ending) => lemma_final_carries_on(
            era,
            root,
            convergence,
            ending,
            reply,
        ),
        EraPhaseView::Over(ending) => {},
    }
}

/// A replacement that ended with a handoff has departed from its source: the
/// source is dead, disposed, unlinked and no resident, and the successor is another
/// Fiber of the same name. Where nobody else worked on the successor it is a living
/// resident, active or pending.
pub proof fn law_a_handed_successor_takes_over(era: EraView, root: RootView, s: FiberHandle)
    requires
        root.sound(),
        era.course(root),
        era.phase == EraPhaseView::Over(EraEndingView::Handed(s)),
    ensures
        s.fiber != era.source,
        root.has(s.fiber),
        root.fiber(s.fiber).name == root.fiber(era.source).name,
        root.departed(era.source),
        !root.registry.residents.contains(era.source),
        era.thrives(root) ==> {
            &&& root.registry.residents.contains(s.fiber)
            &&& root.fiber(s.fiber).alive
            &&& root.fiber(s.fiber).current() is Active || root.fiber(s.fiber).current() is Pending
        },
{
    reveal(RootView::sound);
    if root.registry.residents.contains(era.source) {
        let k = choose|k: int|
            0 <= k < root.registry.residents.len() && root.registry.residents[k] == era.source;
        assert(root.fiber(root.registry.residents[k]).residency is Some);
    }
    if era.thrives(root) {
        assert(root.fibers[s.fiber.0 as int].residency is Some);
    }
}

/// A replacement that nothing stood in the way of, and that was not refused before
/// its claim, ends with a handoff.
pub proof fn law_a_promising_replacement_is_handed_off(era: EraView, root: RootView)
    requires
        era.phase is Over,
        era.promising(root),
        !(era.phase == EraPhaseView::Over(EraEndingView::Closed)),
        !(era.phase matches EraPhaseView::Over(EraEndingView::Recursion(_))),
    ensures
        era.phase matches EraPhaseView::Over(EraEndingView::Handed(_)),
{
}

impl EraView {
    /// Other work on the Runtime leaves the source to the replacement: no Fiber
    /// changes its name, nobody else closes the source, and, once it is claimed,
    /// nobody else works on it.
    pub open spec fn leaves_source(self, root: RootView, later: RootView) -> bool {
        let before = root.fiber(self.source);
        let after = later.fiber(self.source);
        &&& root.fibers.len() <= later.fibers.len()
        &&& forall|i: int|
            0 <= i < root.fibers.len() ==> (#[trigger] later.fibers[i]).name == root.fibers[i].name
        &&& after.alive == before.alive
        &&& after.disposing == before.disposing
        &&& before.disposing ==> {
            &&& after.state == before.state
            &&& after.residency == before.residency
            &&& after.dispose_complete == before.dispose_complete
            &&& after.spawn == before.spawn
        }
        &&& !before.disposing && after.alive ==> !(after.current() is Disposed)
    }

    /// Other work on the Runtime spares the replacement: it leaves the source to it,
    /// the source's behavior is home while its slot is idle, and nobody else works
    /// on the successor.
    pub open spec fn spared(self, root: RootView, later: RootView) -> bool {
        let source = later.fiber(self.source);
        &&& self.leaves_source(root, later)
        &&& !source.disposing && source.slot.inertia is Idle && source.alive ==> later.accepts(
            self.source,
            self.change,
        )
        &&& self.successor() matches Some(id) ==> {
            &&& later.fiber(id).alive == root.fiber(id).alive
            &&& later.fiber(id).state == root.fiber(id).state
            &&& later.fiber(id).residency == root.fiber(id).residency
            &&& later.fiber(id).spawn == root.fiber(id).spawn
        }
    }

    /// A replacement that is past its claim has a claimed source.
    pub open spec fn claims(self, root: RootView) -> bool {
        match self.phase {
            EraPhaseView::Claim => true,
            EraPhaseView::Over(EraEndingView::Closed) => true,
            EraPhaseView::Over(EraEndingView::Recursion(_)) => true,
            _ => root.fiber(self.source).disposing,
        }
    }
}

proof fn lemma_phases_go_forward(era: EraView, root: RootView, reply: ReplyView)
    requires
        !(era.phase is Claim),
    ensures
        !(era.step(root, reply).era.phase is Claim),
        era.phase is Over ==> era.step(root, reply).era.phase == era.phase,
        era.step(root, reply).era.source == era.source,
{
}

/// A replacement that claimed its source keeps it claimed.
pub proof fn law_a_replacement_keeps_its_claim(era: EraView, root: RootView, reply: ReplyView)
    requires
        root.sound(),
        root.room(3),
        root.fibers.len() < usize::MAX,
        era.course(root),
        era.normal(),
        era.claims(root),
    ensures
        era.step(root, reply).era.claims(era.step(root, reply).root),
{
    let step = era.step(root, reply);
    if era.phase is Claim {
        let taken = root.claiming_terminal(era.source);
        assert(taken.fiber(era.source).disposing);
    } else {
        lemma_phases_go_forward(era, root, reply);
        assert(root.ages(step.root)) by {
            law_an_era_replacement_keeps_the_runtime_sound(era, root, reply);
        }
        assert(root.fibers[era.source.0 as int].disposing
            ==> step.root.fibers[era.source.0 as int].disposing);
    }
}

/// Other work that leaves the source to a replacement leaves it on course, whatever
/// becomes of the successor.
pub proof fn law_a_replacement_stays_on_course(era: EraView, root: RootView, later: RootView)
    requires
        era.course(root),
        era.claims(root),
        era.leaves_source(root, later),
    ensures
        era.course(later),
        era.claims(later),
{
    assert(later.fibers[era.source.0 as int].name == root.fibers[era.source.0 as int].name);
    match era.successor() {
        Some(id) => {
            if root.has(id) {
                assert(later.fibers[id.0 as int].name == root.fibers[id.0 as int].name);
            }
        },
        None => {},
    }
}

/// Other work that spares a replacement leaves it on course, thriving and
/// promising as it was.
pub proof fn law_a_replacement_outlasts_other_work(era: EraView, root: RootView, later: RootView)
    requires
        era.course(root),
        era.claims(root),
        era.spared(root, later),
    ensures
        era.course(later),
        era.claims(later),
        era.thrives(root) ==> era.thrives(later),
        era.promising(root) ==> era.promising(later),
{
    law_a_replacement_stays_on_course(era, root, later);
}

} // verus!
