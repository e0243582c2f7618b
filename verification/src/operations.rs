//! What the lifecycle operations promise: who is driven, what an apply gets, what an
//! update commits, what a removal and a disposal come to, and what a lookup finds.

use crate::converge::{outside, ConvergenceView};
use crate::deps::{not_of, row_hit, touches, EdgeView, IndexRowView, IndexView};
use crate::dispose::{DisposalPhaseView, DisposalView};
use crate::drain::{lemma_cleaned_counters, lemma_drained_counters};
use crate::effect::DisposableToken;
use crate::fiber::FiberView;
use crate::frame::lemma_unlinking_works;
use crate::ids::{ContractId, FiberId};
use crate::inertia::{InertiaView, TargetView};
use crate::lifecycle::{is_recursive, LifecycleOperation, PluginFailureView, SettleAttribution};
use crate::operate::{ReadyStepView, RemovalView};
use crate::plugin::{InjectEntryView, PreparedChange, TypedPlugin};
use crate::replace::{ReplacementOutcomeView, ReplacementView};
use crate::root::RootView;
use crate::seqs::{first_index, lemma_filter_map_members, lemma_filter_members, lemma_first_meets};
use crate::service::slot_at;
use crate::settle::{ActionView, ReplyView, SettlePhaseView, SettleView};
use crate::state::FiberState;
use crate::transition::lemma_transition_publishes;
use crate::pass::{converged, InitialOutcomeView, InitialPassView, InitialPhaseView};
use crate::context::ContextView;
use vstd::prelude::*;

verus! {

/// A drive of an idle slot whose recheck is outstanding starts a pass toward the live
/// target where that is another than the one settled. A held slot is left to its
/// holder, with the recheck still outstanding.
pub proof fn law_a_drive_starts_a_pass_after_drift(slot: InertiaView, live: TargetView)
    requires
        slot.outstanding(),
    ensures
        slot.inertia is Idle && slot.target != Some(live) ==> {
            &&& slot.starts_pass(true, live)
            &&& slot.kicked(true, live).inertia is Active
            &&& slot.kicked(true, live).target == Some(live)
        },
        slot.inertia is Active ==> {
            &&& !slot.starts_pass(true, live)
            &&& slot.kicked(true, live) == slot
        },
{
}

/// Whether a Fiber stands idle on a target that is not the live one although a
/// recheck is outstanding.
pub open spec fn is_stuck(root: RootView, id: FiberId) -> bool {
    &&& root.lives(id)
    &&& root.fiber(id).spawn is Some
    &&& root.fiber(id).slot.inertia is Idle
    &&& root.fiber(id).slot.outstanding()
}

proof fn lemma_kick_keeps_targets(root: RootView, id: FiberId, other: FiberId)
    ensures
        root.has(other) ==> root.kick(id).target(other) == root.target(other),
        root.kick(id).fibers.len() == root.fibers.len(),
        root.kick(id).executor == root.executor,
        root.kick(id).lives(other) == root.lives(other),
        root.has(other) ==> root.kick(id).fiber(other) == (FiberView {
            slot: root.kick(id).fiber(other).slot,
            ..root.fiber(other)
        }),
        other != id && root.has(other) ==> root.kick(id).fiber(other) == root.fiber(other),
{
    let after = root.kick(id);
    assert forall|i: int| 0 <= i < root.fibers.len() implies (#[trigger] after.fibers[i]).alive
        == root.fibers[i].alive && after.fibers[i].state == root.fibers[i].state by {}
    if root.has(other) {
        let edges = root.fiber(other).edges;
        assert(after.assignments(edges) =~= root.assignments(edges)) by {
            assert forall|k: int| 0 <= k < edges.len() implies after.occurrence(
                #[trigger] edges[k],
            ) == root.occurrence(edges[k]) by {
                match root.services.slot(edges[k]) {
                    Some(s) => {
                        if root.has(s.owner) {
                            assert(after.fibers[s.owner.0 as int].alive
                                == root.fibers[s.owner.0 as int].alive);
                        }
                    },
                    None => {},
                }
            }
        }
    }
}

/// Where an executor is there, a drive of a list of Fibers leaves none of them idle
/// with a recheck outstanding.
pub proof fn law_a_drive_leaves_nobody_stuck(root: RootView, ids: Seq<FiberId>, f: FiberId)
    requires
        root.executor,
        root.has(f),
        ids.contains(f),
    ensures
        !is_stuck(root.kick_all(ids), f),
    decreases ids.len(),
{
    let shorter = ids.drop_last();
    let last = ids.last();
    let mid = root.kick_all(shorter);
    assert(root.kick_all(ids) == mid.kick(last));
    lemma_kicks_keep(root, shorter, f);
    lemma_kick_keeps_targets(mid, last, f);
    if last != f {
        let k = choose|k: int| 0 <= k < ids.len() && ids[k] == f;
        assert(shorter[k] == f);
        law_a_drive_leaves_nobody_stuck(root, shorter, f);
    }
}

proof fn lemma_kicks_keep(root: RootView, ids: Seq<FiberId>, f: FiberId)
    requires
        root.has(f),
    ensures
        root.kick_all(ids).executor == root.executor,
        root.kick_all(ids).has(f),
    decreases ids.len(),
{
    if ids.len() > 0 {
        let shorter = ids.drop_last();
        lemma_kicks_keep(root, shorter, f);
        assert(root.kick_all(ids) == root.kick_all(shorter).kick(ids.last()));
        lemma_kick_keeps_targets(root.kick_all(shorter), ids.last(), f);
    }
}

/// An apply gets the behavior and the input that its Fiber had sealed, and the
/// Context of the Fiber's own era, on the Fiber itself.
pub proof fn law_an_apply_gets_what_its_fiber_sealed(
    s: SettleView,
    root: RootView,
    reply: ReplyView,
)
    requires
        root.has(s.fiber),
    ensures
        s.step(root, reply).action matches Some(ActionView::Apply { plugin, input, ctx }) ==> {
            &&& root.sealed(s.fiber) == Some((plugin, input))
            &&& root.fiber(s.fiber).spawn matches Some(record) && {
                &&& ctx.fiber == s.fiber
                &&& ctx.isolate == record.scope.isolate
                &&& ctx.scope == record.scope.scope
                &&& ctx.intercept == record.scope.intercept
                &&& ctx.runtime == record.scope.runtime
            }
        },
{
    let id = s.fiber;
    let closed = root.transition(id, FiberState::Unloading);
    lemma_transition_publishes(root, id, FiberState::Unloading);
    let marked = closed.marking_drain(id, true);
    lemma_drained_counters(marked, id, closed.fiber(id).journal.tokens());
    match s.phase {
        SettlePhaseView::Unloading(tokens) => {
            lemma_drained_counters(root, id, tokens);
        },
        _ => {},
    }
}

/// A settle toward a complete target applies: of a living Fiber with nothing live, or
/// with a generation whose cleanups the host has no part in, at once.
pub proof fn law_a_complete_target_is_applied(s: SettleView, root: RootView, reply: ReplyView)
    requires
        root.has(s.fiber),
        root.fiber(s.fiber).alive,
        s.phase is Start,
        root.sealed(s.fiber) is Some,
        !s.target.has_missing(),
        s.owns_first_apply || !root.fiber(s.fiber).creation_pending || root.fiber(s.fiber).applied,
        root.fiber(s.fiber).current() is Pending,
    ensures
        s.step(root, reply).action matches Some(ActionView::Apply { .. }),
{
}

/// An apply that succeeded leaves its Fiber active, with the sealed pair home and no
/// failure; one that failed leaves it failed with exactly that failure, once its
/// generation is drained.
pub proof fn law_an_applys_outcome_is_the_fibers(
    s: SettleView,
    root: RootView,
    state: (u64, u64),
    failure: Option<PluginFailureView>,
)
    requires
        root.has(s.fiber),
        root.fiber(s.fiber).spawn is Some,
        s.phase == SettlePhaseView::Applying(state),
    ensures
        ({
            let step = s.step(root, ReplyView::Applied(failure));
            let after = step.root.fiber(s.fiber);
            &&& step.root.sealed(s.fiber) == Some(state)
            &&& match failure {
                None => step.action is None && after.current() is Active && after.error is None,
                Some(f) => step.action is None ==> after.current() is Failed && after.error
                    == Some(f),
            }
        }),
{
    let id = s.fiber;
    let returned = root.returned(id, state);
    lemma_transition_publishes(returned.parking(id, None), id, FiberState::Active);
    match failure {
        None => {},
        Some(f) => {
            let closed = returned.transition(id, FiberState::Unloading);
            lemma_transition_publishes(returned, id, FiberState::Unloading);
            let tokens = closed.fiber(id).journal.tokens();
            let marked = closed.marking_drain(id, true);
            lemma_drained_counters(marked, id, tokens);
            let drained = marked.drained(id, tokens).root;
            lemma_transition_publishes(drained.parking(id, Some(f)), id, FiberState::Failed);
        },
    }
}

/// An update commits the accepted input and nothing else of the record: the behavior,
/// the contract, the name, the declarations and the Contexts stay; the input gets a
/// fresh identity.
pub proof fn law_an_update_commits_its_input_alone(
    root: RootView,
    id: FiberId,
    change: PreparedChange,
)
    requires
        root.has(id),
        root.accepts(id, change),
    ensures
        ({
            let before = root.fiber(id).spawn.unwrap();
            let after = root.committing(id, change);
            &&& before.plugin.state matches Some(pair) && after.sealed(id) == Some(
                (pair.0, change.input),
            )
            &&& after.fiber(id).spawn matches Some(record) && {
                &&& record.plugin.contract == before.plugin.contract
                &&& record.name == before.name
                &&& record.inject == before.inject
                &&& record.scope == before.scope
                &&& record.plugin_key == before.plugin_key
                &&& record.spawning_ctx == before.spawning_ctx
                &&& record.effective_input == root.next
            }
        }),
{
}

/// A change is accepted exactly by a Fiber of its contract whose sealed pair is home.
pub proof fn law_a_change_needs_its_contract(root: RootView, id: FiberId, change: PreparedChange)
    ensures
        root.accepts(id, change) <==> root.sealed(id) is Some && (
        root.fiber(id).spawn matches Some(record) && record.plugin.contract == change.contract),
{
}

/// What a replacement reports is what its Fiber came to: the parked failure where
/// there is one, and otherwise the state.
pub proof fn law_a_replacement_reports_its_fiber(root: RootView, id: FiberId)
    ensures
        root.replacement_outcome(id) matches ReplacementOutcomeView::Failed(f) ==> root.fiber(
            id,
        ).error == Some(f),
        root.fiber(id).error is None ==> root.replacement_outcome(id)
            == ReplacementOutcomeView::Settled(root.fiber(id).current()),
        root.fiber(id).error is Some ==> root.replacement_outcome(id) is Failed,
{
}

/// From inside a Fiber's settle no operation may wait for it. From a task that the
/// Fiber's generation owns a passive wait may, until the generation is drained, and
/// no other operation. From anywhere else every operation may.
pub proof fn law_only_a_self_wait_is_refused(
    settling: Seq<FiberId>,
    tasks: Seq<FiberId>,
    fiber: FiberId,
    draining: bool,
    operation: LifecycleOperation,
)
    ensures
        settling.contains(fiber) ==> is_recursive(settling, tasks, fiber, draining, operation),
        !settling.contains(fiber) && !tasks.contains(fiber) ==> !is_recursive(
            settling,
            tasks,
            fiber,
            draining,
            operation,
        ),
        !settling.contains(fiber) && tasks.contains(fiber) ==> is_recursive(
            settling,
            tasks,
            fiber,
            draining,
            operation,
        ) == match operation {
            LifecycleOperation::Ready => draining,
            LifecycleOperation::WaitState => draining,
            LifecycleOperation::Restart => true,
            LifecycleOperation::Update => true,
            LifecycleOperation::EraSwap => true,
            LifecycleOperation::Dispose => true,
            LifecycleOperation::RemovePlugins => true,
        },
{
}

/// The removal of a group goes through its members one by one, in order: a member's
/// turn is over exactly when its own disposal is, and the removal exactly when every
/// member's turn is.
pub proof fn law_a_removal_disposes_every_member(removal: RemovalView, root: RootView)
    requires
        removal.wf(root),
    ensures
        ({
            let step = removal.step(root);
            &&& step.removal.fibers == removal.fibers
            &&& step.action is None <==> removal.index == removal.fibers.len()
            &&& removal.index < removal.fibers.len() ==> {
                let member = removal.fibers[removal.index as int];
                let disposal = match removal.disposal {
                    Some(d) => d,
                    None => DisposalView { fiber: member, phase: DisposalPhaseView::Claim },
                };
                &&& disposal.fiber == member
                &&& step.root == disposal.step(root).root
                &&& disposal.step(root).action is None ==> step.removal.index == removal.index + 1
                    && step.removal.disposal is None
                &&& disposal.step(root).action is Some ==> step.removal.index == removal.index
            }
        }),
{
}

/// A disposal of an idle, unclaimed Fiber commits at once: the Fiber is dead, claimed
/// and out of the dependency projection before its cleanups run. A held slot is
/// waited out, and a complete disposal answers at once.
pub proof fn law_a_disposal_commits_at_once(d: DisposalView, root: RootView)
    requires
        root.has(d.fiber),
        d.phase is Claim,
        root.fiber(d.fiber).spawn is Some,
        !(root.fiber(d.fiber).current() is Disposed),
    ensures
        ({
            let fiber = root.fiber(d.fiber);
            let step = d.step(root);
            if fiber.dispose_complete {
                step.root == root && step.action is None
            } else if !(fiber.slot.inertia is Idle) {
                step.root == root && step.action == Some(ActionView::Wait)
            } else if !fiber.disposing {
                &&& !step.root.fiber(d.fiber).alive
                &&& step.root.fiber(d.fiber).disposing
                &&& step.action is None || step.phase is Draining
            } else {
                step.root == root && step.action == Some(ActionView::Wait)
            }
        }),
{
    let id = d.fiber;
    let held = root.holding(id);
    let doomed = held.doomed(id);
    lemma_transition_publishes(doomed, id, FiberState::Unloading);
    let closed = doomed.closing(id);
    let marked = closed.marking_drain(id, true);
    let tokens = closed.fiber(id).journal.tokens();
    lemma_drained_counters(marked, id, tokens);
    let drained = marked.drained(id, tokens).root;
    lemma_transition_publishes(drained, id, FiberState::Disposed);
    let ended = drained.disposed(id);
    assert(ended.fiber(id).alive == marked.fiber(id).alive);
    assert(ended.fiber(id).disposing == marked.fiber(id).disposing);
    let freed = ended.abandoning(id);
    lemma_unlinking_works(freed, id);
    assert(ended.completed(id, true).fiber(id).alive == ended.fiber(id).alive);
    assert(ended.completed(id, true).fiber(id).disposing == ended.fiber(id).disposing);
}

/// A lookup answers from the exact slot alone: a value exactly if a publication of
/// the asked contract occupies it and its owner is alive and active; a mismatch
/// exactly if the name, or the publication found, is of another contract; and absence
/// otherwise.
pub proof fn law_a_lookup_answers_from_the_exact_slot(
    root: RootView,
    edge: EdgeView,
    contract: ContractId,
    value: u64,
)
    requires
        root.services.exact(),
    ensures
        root.lookup(edge, contract) == Ok::<u64, bool>(value) <==> {
            &&& root.services.bound(edge.service) matches Some(c) ==> c == contract
            &&& exists|i: int|
                {
                    let slot = #[trigger] root.services.slots[i];
                    &&& 0 <= i < root.services.slots.len()
                    &&& slot.service == edge.service && slot.realm == edge.realm
                    &&& slot.contract == contract && slot.value == value
                    &&& root.has(slot.owner)
                    &&& root.fiber(slot.owner).alive && root.fiber(slot.owner).current() is Active
                }
        },
        root.services.bound(edge.service) matches Some(c) && c != contract ==> root.lookup(
            edge,
            contract,
        ) == Err::<u64, bool>(true),
        (forall|i: int|
            0 <= i < root.services.slots.len() ==> !((#[trigger] root.services.slots[i]).service
                == edge.service && root.services.slots[i].realm == edge.realm)) && (
        root.services.bound(edge.service) matches Some(c) ==> c == contract) ==> root.lookup(
            edge,
            contract,
        ) == Err::<u64, bool>(false),
{
    let slots = root.services.slots;
    lemma_first_meets(slots, slot_at(edge));
    match first_index(slots, slot_at(edge)) {
        Some(k) => {
            assert forall|i: int|
                0 <= i < slots.len() && (#[trigger] slots[i]).service == edge.service
                    && slots[i].realm == edge.realm implies i == k by {
                if i < k {
                    assert(!slot_at(edge)(slots[i]));
                } else if k < i {
                    assert(slots[k].edge() != slots[i].edge());
                }
            }
        },
        None => {
            assert forall|i: int| 0 <= i < slots.len() implies !((#[trigger] slots[i]).service
                == edge.service && slots[i].realm == edge.realm) by {
                assert(!slot_at(edge)(slots[i]));
            }
        },
    }
}

/// A convergence passes a Fiber by only if it is gone, if its wait would be a
/// self-wait, or once it is quiescent; it is over exactly when every Fiber is passed
/// by.
pub proof fn law_a_convergence_waits_for_every_fiber(
    c: ConvergenceView,
    root: RootView,
    by: SettleAttribution,
)
    requires
        c.index <= c.fibers.len(),
    ensures
        ({
            let step = c.step(root, by);
            &&& step.view.fibers == c.fibers
            &&& step.action is None <==> c.index == c.fibers.len()
            &&& step.view.index == c.index || step.view.index == c.index + 1
            &&& step.view.index == c.index + 1 ==> {
                let id = c.fibers[c.index as int];
                ||| !root.has(id)
                ||| root.is_recursive(by, id, LifecycleOperation::Ready)
                ||| {
                    &&& step.root.fiber(id).slot.inertia is Idle
                    &&& !step.root.fiber(id).slot.outstanding()
                }
            }
            &&& step.action is Some && step.view.index == c.index ==> step.action == Some(
                ActionView::Wait,
            )
        }),
{
}

/// The dependency projection lists a Fiber for exactly the slots it was registered
/// with, until it is unregistered; the others it leaves alone.
pub proof fn law_the_projection_lists_what_was_registered(
    index: IndexView,
    fiber: FiberId,
    mine: Seq<EdgeView>,
    edges: Seq<EdgeView>,
    f: FiberId,
)
    ensures
        index.registered(fiber, mine).hits(edges).contains(f) <==> index.hits(edges).contains(f)
            || f == fiber && touches(mine, edges),
        index.unregistered(fiber).hits(edges).contains(f) <==> index.hits(edges).contains(f) && f
            != fiber,
        index.registered(fiber, mine).available == index.available,
        index.unregistered(fiber).available == index.available,
{
    let hit = row_hit(edges);
    let rows = index.rows;
    let row = IndexRowView { fiber, edges: mine };
    let more = rows.push(row);
    let fewer = rows.filter(not_of(fiber));
    lemma_filter_map_members(rows, hit, f);
    lemma_filter_map_members(more, hit, f);
    lemma_filter_map_members(fewer, hit, f);
    if exists|i: int| 0 <= i < rows.len() && hit(#[trigger] rows[i]) == Some(f) {
        let i = choose|i: int| 0 <= i < rows.len() && hit(#[trigger] rows[i]) == Some(f);
        assert(hit(more[i]) == Some(f));
        if f != fiber {
            assert(rows.contains(rows[i]));
            lemma_filter_members(rows, not_of(fiber), rows[i]);
            let k = choose|k: int| 0 <= k < fewer.len() && fewer[k] == rows[i];
            assert(hit(fewer[k]) == Some(f));
        }
    }
    if f == fiber && touches(mine, edges) {
        assert(hit(more[rows.len() as int]) == Some(f));
    }
    if exists|i: int| 0 <= i < more.len() && hit(#[trigger] more[i]) == Some(f) {
        let i = choose|i: int| 0 <= i < more.len() && hit(#[trigger] more[i]) == Some(f);
        if i < rows.len() {
            assert(hit(rows[i]) == Some(f));
        }
    }
    if exists|i: int| 0 <= i < fewer.len() && hit(#[trigger] fewer[i]) == Some(f) {
        let i = choose|i: int| 0 <= i < fewer.len() && hit(#[trigger] fewer[i]) == Some(f);
        assert(fewer.contains(fewer[i]));
        lemma_filter_members(rows, not_of(fiber), fewer[i]);
        let k = choose|k: int| 0 <= k < rows.len() && rows[k] == fewer[i];
        assert(hit(rows[k]) == Some(f));
    }
}

/// Dependents are captured without those left out, and with every other.
pub proof fn law_captured_dependents_leave_out_the_skipped(
    root: RootView,
    edges: Seq<EdgeView>,
    skip: Seq<FiberId>,
    f: FiberId,
)
    ensures
        root.dependents_except(edges, skip).contains(f) <==> root.dependents(edges).contains(f)
            && !skip.contains(f),
{
    lemma_filter_members(root.dependents(edges), outside(skip), f);
}

/// A poll for quiescence answers the state of an idle Fiber with nothing outstanding,
/// or its parked failure where it failed; it waits otherwise.
pub proof fn law_a_poll_answers_the_state(root: RootView, id: FiberId)
    ensures
        ({
            let fiber = root.fiber(id);
            let quiet = fiber.slot.inertia is Idle && fiber.slot.committed == fiber.slot.settled;
            match root.ready_answer(id) {
                ReadyStepView::Wait => !quiet,
                ReadyStepView::Settled(state) => quiet && state == fiber.current() && !(state
                    is Failed),
                ReadyStepView::Failed(failure) => quiet && fiber.current() is Failed && (
                fiber.error is Some ==> fiber.error == Some(failure)),
            }
        }),
{
}

/// A pass that finds the live target drifted settles on toward the live one; one that
/// does not is over with its slot idle. So do a creation's pass and a replacement.
pub proof fn law_a_drifted_pass_settles_on_toward_the_live_target(
    settle: SettleView,
    root: RootView,
    outcome: InitialOutcomeView,
)
    requires
        root.has(settle.fiber),
        root.fiber(settle.fiber).spawn is Some,
    ensures
        ({
            let id = settle.fiber;
            let live = root.target(id).unwrap();
            let step = converged(settle, root);
            let p = InitialPassView { fiber: id, phase: InitialPhaseView::Settling(settle) };
            let release = p.releasing(root, settle.target, outcome);
            if live != settle.target {
                &&& step.action is Some
                &&& step.settle == SettleView::begin(id, live, settle.owns_first_apply)
                &&& step.root.fiber(id).slot.target == Some(live)
                &&& step.root.fiber(id).slot.inertia is Active
                &&& release.phase == InitialPhaseView::Settling(SettleView::begin(id, live, true))
                &&& release.root.fiber(id).slot.target == Some(live)
            } else {
                &&& step.action is None
                &&& step.root.fiber(id).slot.inertia is Idle
                &&& !step.root.fiber(id).slot.outstanding()
                &&& release.phase == InitialPhaseView::Over(outcome)
            }
        }),
{
}

/// A replacement settles toward what its Fiber finds when it begins: the committed
/// input and the current assignments; and it starts with nothing applied.
pub proof fn law_a_replacement_settles_toward_the_live_target(
    pass: ReplacementView,
    root: RootView,
    reply: ReplyView,
)
    requires
        root.has(pass.fiber),
        root.fiber(pass.fiber).spawn is Some,
    ensures
        ({
            let live = root.target(pass.fiber).unwrap();
            pass.aimed(root, reply) == pass.settling(
                root.aiming(pass.fiber, live),
                SettleView {
                    fiber: pass.fiber,
                    target: live,
                    owns_first_apply: false,
                    phase: SettlePhaseView::Start,
                },
                reply,
            )
        }),
        root.target(pass.fiber).unwrap().input == root.fiber(
            pass.fiber,
        ).spawn.unwrap().effective_input,
{
}

/// A Fiber is listed for its dependency slots from its admission on, and no more once
/// it is being torn down.
pub proof fn law_a_fiber_is_listed_from_admission_to_teardown(
    root: RootView,
    ctx: ContextView,
    plugin: TypedPlugin,
    name: Seq<char>,
    inject: Seq<InjectEntryView>,
    k: int,
    id: FiberId,
    edges: Seq<EdgeView>,
)
    requires
        root.fibers.len() < usize::MAX,
        root.has(id),
        root.fiber(id).spawn is Some,
    ensures
        ({
            let after = root.admitting(ctx, plugin, name, inject);
            let mine = after.fiber(root.next_fiber()).edges;
            0 <= k < mine.len() ==> after.deps.hits(seq![mine[k]]).contains(root.next_fiber())
        }),
        !root.closing(id).deps.hits(edges).contains(id),
{
    let after = root.admitting(ctx, plugin, name, inject);
    let f = root.next_fiber();
    let mine = after.fiber(f).edges;
    if 0 <= k < mine.len() {
        let one = seq![mine[k]];
        assert(one[0] == mine[k]);
        assert(one.contains(mine[k]));
        assert(touches(mine, one));
        law_the_projection_lists_what_was_registered(root.deps, f, mine, one, f);
    }
    lemma_transition_publishes(root, id, FiberState::Unloading);
    law_the_projection_lists_what_was_registered(root.deps, id, edges, edges, id);
}

/// A drain keeps its Fiber's mark while it has cleanups for the host to run, and takes
/// it back once it is complete.
pub proof fn law_a_drain_is_marked_until_it_is_complete(
    root: RootView,
    id: FiberId,
    tokens: Seq<DisposableToken>,
)
    requires
        root.has(id),
    ensures
        ({
            let step = root.drained(id, tokens);
            &&& step.run is None ==> !step.root.fiber(id).draining
            &&& step.run is Some ==> step.root.fiber(id).draining == root.fiber(id).draining
        }),
    decreases tokens.len(),
{
    if tokens.len() > 0 {
        let claimed = root.claiming(id, tokens.last());
        match root.obligation(id, tokens.last()) {
            None => law_a_drain_is_marked_until_it_is_complete(claimed, id, tokens.drop_last()),
            Some(cleanup) => {
                if !cleanup.is_hosted() {
                    lemma_cleaned_counters(claimed, cleanup);
                    law_a_drain_is_marked_until_it_is_complete(
                        claimed.cleaned(cleanup),
                        id,
                        tokens.drop_last(),
                    );
                }
            },
        }
    }
}

/// While the host runs the cleanups of a generation that failed, or that is replaced,
/// the generation is closed and the drain is marked: nothing can be registered on it.
pub proof fn law_a_generation_is_closed_while_it_is_drained(
    s: SettleView,
    root: RootView,
    reply: ReplyView,
)
    requires
        root.has(s.fiber),
        s.phase is Start || s.phase is Applying,
    ensures
        s.step(root, reply).action matches Some(ActionView::Cleanup(_)) ==> {
            let after = s.step(root, reply).root.fiber(s.fiber);
            &&& after.current() is Unloading
            &&& !after.admits()
            &&& after.draining
        },
{
    let id = s.fiber;
    match s.phase {
        SettlePhaseView::Start => {
            let closed = root.transition(id, FiberState::Unloading);
            lemma_transition_publishes(root, id, FiberState::Unloading);
            let marked = closed.marking_drain(id, true);
            let tokens = closed.fiber(id).journal.tokens();
            lemma_drained_counters(marked, id, tokens);
            law_a_drain_is_marked_until_it_is_complete(marked, id, tokens);
        },
        SettlePhaseView::Applying(state) => {
            let returned = root.returned(id, state);
            let closed = returned.transition(id, FiberState::Unloading);
            lemma_transition_publishes(returned, id, FiberState::Unloading);
            let marked = closed.marking_drain(id, true);
            let tokens = closed.fiber(id).journal.tokens();
            lemma_drained_counters(marked, id, tokens);
            law_a_drain_is_marked_until_it_is_complete(marked, id, tokens);
        },
        _ => {},
    }
}

} // verus!
