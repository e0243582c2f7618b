//! What work on one Fiber leaves alone: its settles, its disposal and its creation
//! change of every other Fiber at most the settle slot.

use crate::converge::ConvergenceView;
use crate::dispose::{DisposalPhaseView, DisposalView};
use crate::drain::lemma_drained_counters;
use crate::effect::DisposableToken;
use crate::fiber::FiberView;
use crate::ids::FiberId;
use crate::inertia::{InertiaView, TargetView};
use crate::lifecycle::{PluginFailureView, SettleAttribution};
use crate::pass::{InitialOutcomeView, InitialPassView, InitialPhaseView};
use crate::root::RootView;
use crate::settle::{
    law_a_settle_ends_active_pending_or_failed, ReplyView, SettlePhaseView, SettleView,
};
use crate::state::FiberState;
use crate::transition::lemma_transition_publishes;
use vstd::prelude::*;

verus! {

impl FiberView {
    /// The Fiber stays alive or dead, keeps its claim, and stays spawned.
    pub open spec fn endures(self, later: FiberView) -> bool {
        &&& later.alive == self.alive
        &&& later.residency == self.residency
        &&& later.spawn is Some == self.spawn is Some
    }
}

impl RootView {
    /// The second is the first after work on one Fiber: the Fiber keeps its name,
    /// and every other Fiber keeps everything but its settle slot.
    pub open spec fn works_on(self, id: FiberId, later: RootView) -> bool {
        &&& later.fibers.len() == self.fibers.len()
        &&& later.fiber(id).name == self.fiber(id).name
        &&& forall|i: int|
            0 <= i < self.fibers.len() && i != id.0 ==> (#[trigger] later.fibers[i]) == (FiberView {
                slot: later.fibers[i].slot,
                ..self.fibers[i]
            })
    }
}

proof fn lemma_works_on(a: RootView, b: RootView, c: RootView, id: FiberId)
    requires
        a.works_on(id, b),
        b.works_on(id, c),
    ensures
        a.works_on(id, c),
{
    assert forall|i: int| 0 <= i < a.fibers.len() && i != id.0 implies (#[trigger] c.fibers[i])
        == (FiberView { slot: c.fibers[i].slot, ..a.fibers[i] }) by {
        assert(b.fibers[i] == (FiberView { slot: b.fibers[i].slot, ..a.fibers[i] }));
    }
}

proof fn lemma_transition_works(root: RootView, id: FiberId, next: FiberState)
    requires
        root.has(id),
    ensures
        root.works_on(id, root.transition(id, next)),
        root.fiber(id).endures(root.transition(id, next).fiber(id)),
        root.transition(id, next).fiber(id).spawn == root.fiber(id).spawn,
        root.transition(id, next).has(id),
{
    lemma_transition_publishes(root, id, next);
}

proof fn lemma_drained_works(root: RootView, id: FiberId, tokens: Seq<DisposableToken>)
    requires
        root.has(id),
    ensures
        root.works_on(id, root.drained(id, tokens).root),
        root.fiber(id).endures(root.drained(id, tokens).root.fiber(id)),
        root.drained(id, tokens).root.fiber(id).spawn == root.fiber(id).spawn,
        root.drained(id, tokens).root.has(id),
{
    lemma_drained_counters(root, id, tokens);
}

proof fn lemma_decided_works(s: SettleView, root: RootView)
    requires
        root.has(s.fiber),
    ensures
        root.works_on(s.fiber, s.decided(root).root),
        root.fiber(s.fiber).endures(s.decided(root).root.fiber(s.fiber)),
{
    let id = s.fiber;
    let parked = root.parking(id, None);
    lemma_transition_works(parked, id, FiberState::Pending);
    assert(root.works_on(id, parked));
    lemma_works_on(root, parked, parked.transition(id, FiberState::Pending), id);
    let leased = root.sealing(id, None);
    let cleared = leased.with_fiber(
        id,
        FiberView { generation_replacing: false, ..leased.fiber(id) },
    );
    assert(root.works_on(id, cleared));
    lemma_transition_works(cleared, id, FiberState::Loading);
    lemma_works_on(root, cleared, root.opening(id), id);
}

proof fn lemma_unloading_works(s: SettleView, root: RootView, tokens: Seq<DisposableToken>)
    requires
        root.has(s.fiber),
    ensures
        root.works_on(s.fiber, s.unloading(root, tokens).root),
        root.fiber(s.fiber).endures(s.unloading(root, tokens).root.fiber(s.fiber)),
{
    let drained = root.drained(s.fiber, tokens).root;
    lemma_drained_works(root, s.fiber, tokens);
    lemma_decided_works(s, drained);
    lemma_works_on(root, drained, s.decided(drained).root, s.fiber);
}

proof fn lemma_rolling_back_works(
    s: SettleView,
    root: RootView,
    tokens: Seq<DisposableToken>,
    failure: PluginFailureView,
)
    requires
        root.has(s.fiber),
    ensures
        root.works_on(s.fiber, s.rolling_back(root, tokens, failure).root),
        root.fiber(s.fiber).endures(s.rolling_back(root, tokens, failure).root.fiber(s.fiber)),
{
    let id = s.fiber;
    let drained = root.drained(id, tokens).root;
    lemma_drained_works(root, id, tokens);
    let parked = drained.parking(id, Some(failure));
    assert(drained.works_on(id, parked));
    lemma_works_on(root, drained, parked, id);
    lemma_transition_works(parked, id, FiberState::Failed);
    lemma_works_on(root, parked, parked.transition(id, FiberState::Failed), id);
}

proof fn lemma_applied_works(
    s: SettleView,
    root: RootView,
    state: (u64, u64),
    failure: Option<PluginFailureView>,
)
    requires
        root.has(s.fiber),
    ensures
        root.works_on(s.fiber, s.applied(root, state, failure).root),
        root.fiber(s.fiber).endures(s.applied(root, state, failure).root.fiber(s.fiber)),
{
    let id = s.fiber;
    let returned = root.returned(id, state);
    assert(root.works_on(id, returned));
    match failure {
        None => {
            let parked = returned.parking(id, None);
            assert(root.works_on(id, parked));
            lemma_transition_works(parked, id, FiberState::Active);
            lemma_works_on(root, parked, parked.transition(id, FiberState::Active), id);
        },
        Some(f) => {
            let closed = returned.transition(id, FiberState::Unloading);
            lemma_transition_works(returned, id, FiberState::Unloading);
            let marked = closed.marking_drain(id, true);
            assert(closed.works_on(id, marked));
            lemma_works_on(root, returned, closed, id);
            lemma_works_on(root, closed, marked, id);
            let tokens = closed.fiber(id).journal.tokens();
            lemma_rolling_back_works(s, marked, tokens, f);
            lemma_works_on(root, marked, s.rolling_back(marked, tokens, f).root, id);
        },
    }
}

/// A settle works on its own Fiber, which endures it.
pub proof fn law_a_settle_works_on_its_fiber(s: SettleView, root: RootView, reply: ReplyView)
    requires
        root.has(s.fiber),
    ensures
        root.works_on(s.fiber, s.step(root, reply).root),
        root.fiber(s.fiber).endures(s.step(root, reply).root.fiber(s.fiber)),
{
    let id = s.fiber;
    match s.phase {
        SettlePhaseView::Start => {
            lemma_decided_works(s, root);
            let closed = root.transition(id, FiberState::Unloading);
            lemma_transition_works(root, id, FiberState::Unloading);
            let marked = closed.marking_drain(id, true);
            assert(closed.works_on(id, marked));
            lemma_works_on(root, closed, marked, id);
            let tokens = closed.fiber(id).journal.tokens();
            lemma_unloading_works(s, marked, tokens);
            lemma_works_on(root, marked, s.unloading(marked, tokens).root, id);
        },
        SettlePhaseView::Unloading(tokens) => lemma_unloading_works(s, root, tokens),
        SettlePhaseView::Applying(state) => {
            match reply {
                ReplyView::Applied(failure) => lemma_applied_works(s, root, state, failure),
                _ => {},
            }
        },
        SettlePhaseView::RollingBack(tokens, failure) => lemma_rolling_back_works(
            s,
            root,
            tokens,
            failure,
        ),
        SettlePhaseView::Settled => {},
    }
}

proof fn lemma_with_fiber_works(root: RootView, id: FiberId, fiber: FiberView)
    requires
        root.has(id),
        fiber.name == root.fiber(id).name,
    ensures
        root.works_on(id, root.with_fiber(id, fiber)),
        root.with_fiber(id, fiber).fiber(id) == fiber,
        root.with_fiber(id, fiber).has(id),
{
}

/// An unlink works on its own Fiber, and takes only its claim.
pub proof fn lemma_unlinking_works(root: RootView, id: FiberId)
    requires
        root.has(id),
    ensures
        root.works_on(id, root.unlinking(id)),
        root.unlinking(id).fiber(id) == (FiberView { residency: None, ..root.fiber(id) }),
        root.unlinking(id).has(id),
{
    let bare = FiberView { residency: None, ..root.fiber(id) };
    lemma_with_fiber_works(root, id, bare);
    match root.fiber(id).residency {
        None => {},
        Some(claim) => {
            assert(root.unlinking(id).fibers == root.with_fiber(id, bare).fibers);
        },
    }
}

proof fn lemma_completed_works(root: RootView, id: FiberId, frees_slot: bool)
    requires
        root.has(id),
    ensures
        root.works_on(id, root.completed(id, frees_slot)),
        root.completed(id, frees_slot).fiber(id).spawn == root.fiber(id).spawn,
{
    let freed = if frees_slot {
        root.abandoning(id)
    } else {
        root
    };
    if frees_slot {
        lemma_with_fiber_works(root, id, freed.fiber(id));
    }
    lemma_unlinking_works(freed, id);
    let unlinked = freed.unlinking(id);
    lemma_works_on(root, freed, unlinked, id);
    let last = FiberView { dispose_complete: true, ..unlinked.fiber(id) };
    lemma_with_fiber_works(unlinked, id, last);
    lemma_works_on(root, unlinked, unlinked.with_fiber(id, last), id);
}

proof fn lemma_draining_works(
    d: DisposalView,
    root: RootView,
    frees_slot: bool,
    tokens: Seq<DisposableToken>,
)
    requires
        root.has(d.fiber),
    ensures
        root.works_on(d.fiber, d.draining(root, frees_slot, tokens).root),
        d.draining(root, frees_slot, tokens).root.fiber(d.fiber).spawn == root.fiber(d.fiber).spawn,
{
    let id = d.fiber;
    let drained = root.drained(id, tokens).root;
    lemma_drained_works(root, id, tokens);
    let moved = drained.transition(id, FiberState::Disposed);
    lemma_transition_works(drained, id, FiberState::Disposed);
    let ended = drained.disposed(id);
    assert(moved.works_on(id, ended));
    lemma_works_on(root, drained, moved, id);
    lemma_works_on(root, moved, ended, id);
    lemma_completed_works(ended, id, frees_slot);
    lemma_works_on(root, ended, ended.completed(id, frees_slot), id);
}

proof fn lemma_begun_works(d: DisposalView, root: RootView, frees_slot: bool)
    requires
        root.has(d.fiber),
    ensures
        root.works_on(d.fiber, d.begun(root, frees_slot).root),
        d.begun(root, frees_slot).root.fiber(d.fiber).spawn == root.fiber(d.fiber).spawn,
{
    let id = d.fiber;
    let doomed = root.doomed(id);
    assert(root.works_on(id, doomed));
    lemma_completed_works(doomed, id, frees_slot);
    lemma_works_on(root, doomed, doomed.completed(id, frees_slot), id);
    let unloading = doomed.transition(id, FiberState::Unloading);
    lemma_transition_works(doomed, id, FiberState::Unloading);
    let closed = doomed.closing(id);
    assert(unloading.works_on(id, closed));
    let marked = closed.marking_drain(id, true);
    assert(closed.works_on(id, marked));
    lemma_works_on(root, doomed, unloading, id);
    lemma_works_on(root, unloading, closed, id);
    lemma_works_on(root, closed, marked, id);
    let tokens = closed.fiber(id).journal.tokens();
    lemma_draining_works(d, marked, frees_slot, tokens);
    lemma_works_on(root, marked, d.draining(marked, frees_slot, tokens).root, id);
}

proof fn lemma_reclaiming_works(d: DisposalView, root: RootView)
    requires
        root.has(d.fiber),
    ensures
        root.works_on(d.fiber, d.reclaiming(root).root),
{
    let held = root.holding(d.fiber);
    lemma_with_fiber_works(root, d.fiber, held.fiber(d.fiber));
    lemma_begun_works(d, held, true);
    lemma_works_on(root, held, d.begun(held, true).root, d.fiber);
}

proof fn lemma_inheriting_works(d: DisposalView, root: RootView)
    requires
        root.has(d.fiber),
    ensures
        root.works_on(d.fiber, d.inheriting(root).root),
{
    let fiber = root.fiber(d.fiber);
    if fiber.slot.creation_owned {
        let free = FiberView {
            slot: InertiaView { creation_owned: false, ..fiber.slot },
            ..fiber
        };
        let taken = root.with_fiber(d.fiber, free);
        lemma_with_fiber_works(root, d.fiber, free);
        lemma_begun_works(d, taken, true);
        lemma_works_on(root, taken, d.begun(taken, true).root, d.fiber);
    } else if !fiber.disposing {
        let claimed = FiberView { disposing: true, ..fiber };
        let taken = root.with_fiber(d.fiber, claimed);
        lemma_with_fiber_works(root, d.fiber, claimed);
        lemma_reclaiming_works(d, taken);
        lemma_works_on(root, taken, d.reclaiming(taken).root, d.fiber);
    }
}

proof fn lemma_claiming_works(d: DisposalView, root: RootView)
    requires
        root.has(d.fiber),
    ensures
        root.works_on(d.fiber, d.claiming(root).root),
{
    let held = root.holding(d.fiber);
    lemma_with_fiber_works(root, d.fiber, held.fiber(d.fiber));
    lemma_begun_works(d, held, true);
    lemma_works_on(root, held, d.begun(held, true).root, d.fiber);
}

/// A disposal works on its own Fiber. A teardown drains on until it is over, and
/// keeps the creation record.
pub proof fn law_a_disposal_works_on_its_fiber(d: DisposalView, root: RootView)
    requires
        root.has(d.fiber),
    ensures
        root.works_on(d.fiber, d.step(root).root),
        d.phase is Begin || d.phase is Draining ==> {
            &&& d.step(root).root.fiber(d.fiber).spawn == root.fiber(d.fiber).spawn
            &&& d.step(root).action is Some ==> d.step(root).phase is Draining
        },
{
    match d.phase {
        DisposalPhaseView::Claim => lemma_claiming_works(d, root),
        DisposalPhaseView::Inherit => lemma_inheriting_works(d, root),
        DisposalPhaseView::Reclaim => lemma_reclaiming_works(d, root),
        DisposalPhaseView::Begin { frees_slot } => lemma_begun_works(d, root, frees_slot),
        DisposalPhaseView::Draining { frees_slot, tokens } => lemma_draining_works(
            d,
            root,
            frees_slot,
            tokens,
        ),
        DisposalPhaseView::Joining => {},
        DisposalPhaseView::Over => {},
    }
}

proof fn lemma_releasing_works(
    p: InitialPassView,
    root: RootView,
    settled: TargetView,
    outcome: InitialOutcomeView,
)
    requires
        root.has(p.fiber),
    ensures
        root.works_on(p.fiber, p.releasing(root, settled, outcome).root),
        root.fiber(p.fiber).endures(p.releasing(root, settled, outcome).root.fiber(p.fiber)),
        p.releasing(root, settled, outcome).root.fiber(p.fiber).spawn == root.fiber(p.fiber).spawn,
        p.releasing(root, settled, outcome).root.fiber(p.fiber).state == root.fiber(p.fiber).state,
{
    let exited = root.exiting(p.fiber, settled);
    assert(root.works_on(p.fiber, exited));
    assert(exited.works_on(p.fiber, exited.owning(p.fiber, false)));
    lemma_works_on(root, exited, exited.owning(p.fiber, false), p.fiber);
}

proof fn lemma_tearing_works(
    p: InitialPassView,
    root: RootView,
    disposal: DisposalView,
    failure: PluginFailureView,
)
    requires
        root.has(p.fiber),
        disposal.fiber == p.fiber,
    ensures
        root.works_on(p.fiber, p.tearing(root, disposal, failure).root),
        p.tearing(root, disposal, failure).phase matches InitialPhaseView::Tearing(d, _)
            ==> d.fiber == p.fiber && (disposal.phase is Begin || disposal.phase is Draining
            ==> d.phase is Draining),
        p.tearing(root, disposal, failure).action is Some <==> p.tearing(
            root,
            disposal,
            failure,
        ).phase is Tearing,
        p.tearing(root, disposal, failure).action is None ==> p.tearing(
            root,
            disposal,
            failure,
        ).phase == InitialPhaseView::Over(InitialOutcomeView::Failed(failure)),
{
    law_a_disposal_works_on_its_fiber(disposal, root);
    let torn = disposal.step(root).root;
    let unowned = torn.owning(p.fiber, false);
    let freed = unowned.abandoning(p.fiber);
    assert(torn.works_on(p.fiber, unowned));
    assert(unowned.works_on(p.fiber, freed));
    lemma_works_on(root, torn, unowned, p.fiber);
    lemma_works_on(root, unowned, freed, p.fiber);
}

impl RootView {
    /// A Fiber of the Runtime that lives, holds its claim and has its creation
    /// record.
    pub open spec fn rooted(self, id: FiberId) -> bool {
        &&& self.has(id)
        &&& self.fiber(id).alive
        &&& self.fiber(id).residency is Some
        &&& self.fiber(id).spawn is Some
    }

    /// The Fiber is rooted, and active or pending.
    pub open spec fn stands(self, id: FiberId) -> bool {
        &&& self.rooted(id)
        &&& self.fiber(id).current() is Active || self.fiber(id).current() is Pending
    }

    /// The Fiber of a creation is rooted, and its pass in step with it, until the
    /// first apply failed and the Fiber is torn down.
    pub open spec fn grows(self, p: InitialPassView) -> bool {
        match p.phase {
            InitialPhaseView::Claim => self.rooted(p.fiber) && self.sealed(p.fiber) is Some,
            InitialPhaseView::Settling(settle) => {
                &&& self.rooted(p.fiber)
                &&& settle.fiber == p.fiber
                &&& settle.owns_first_apply
                &&& settle.coherent(self)
            },
            InitialPhaseView::Tearing(disposal, _) => {
                &&& self.has(p.fiber)
                &&& disposal.fiber == p.fiber
                &&& disposal.phase is Draining
            },
            InitialPhaseView::Over(outcome) => match outcome {
                InitialOutcomeView::Active => self.stands(p.fiber),
                InitialOutcomeView::Pending => self.stands(p.fiber),
                InitialOutcomeView::Failed(_) => true,
                InitialOutcomeView::Interrupted => false,
            },
        }
    }
}

impl InitialPassView {
    /// No apply of the creation has failed.
    pub open spec fn unfailed(self) -> bool {
        match self.phase {
            InitialPhaseView::Claim => true,
            InitialPhaseView::Settling(settle) => !(settle.phase is RollingBack),
            InitialPhaseView::Tearing(..) => false,
            InitialPhaseView::Over(outcome) => !(outcome is Failed),
        }
    }
}

proof fn lemma_settled_works(p: InitialPassView, root: RootView, target: TargetView)
    requires
        root.has(p.fiber),
    ensures
        root.works_on(p.fiber, p.settled(root, target).root),
        (InitialPassView { phase: p.settled(root, target).phase, ..p }).wf(),
        p.settled(root, target).action is None <==> p.settled(root, target).phase is Over,
{
    let id = p.fiber;
    let touched = root.aiming_if_untouched(id, target);
    let aimed = root.aiming(id, target);
    lemma_with_fiber_works(root, id, aimed.fiber(id));
    if target.has_missing() {
        lemma_releasing_works(p, touched, target, InitialOutcomeView::Pending);
        lemma_works_on(
            root,
            touched,
            p.releasing(touched, target, InitialOutcomeView::Pending).root,
            id,
        );
    } else if aimed.fiber(id).current() is Failed {
        let parked = aimed.parking(id, None);
        lemma_with_fiber_works(aimed, id, parked.fiber(id));
        lemma_works_on(root, aimed, parked, id);
        let disposal = DisposalView {
            fiber: id,
            phase: DisposalPhaseView::Begin { frees_slot: false },
        };
        let failure = aimed.first_failure(id);
        lemma_tearing_works(p, parked, disposal, failure);
        lemma_works_on(root, parked, p.tearing(parked, disposal, failure).root, id);
    } else {
        lemma_releasing_works(p, aimed, target, InitialOutcomeView::Active);
        lemma_works_on(
            root,
            aimed,
            p.releasing(aimed, target, InitialOutcomeView::Active).root,
            id,
        );
    }
}

proof fn lemma_settling_works(
    p: InitialPassView,
    root: RootView,
    settle: SettleView,
    reply: ReplyView,
)
    requires
        root.has(p.fiber),
        settle.fiber == p.fiber,
    ensures
        root.works_on(p.fiber, p.settling(root, settle, reply).root),
        (InitialPassView { phase: p.settling(root, settle, reply).phase, ..p }).wf(),
        p.settling(root, settle, reply).action is None <==> p.settling(root, settle, reply).phase
            is Over,
{
    law_a_settle_works_on_its_fiber(settle, root, reply);
    let step = settle.step(root, reply);
    lemma_settled_works(p, step.root, settle.target);
    lemma_works_on(root, step.root, p.settled(step.root, settle.target).root, p.fiber);
}

/// A creation's initial pass works on its own Fiber.
pub proof fn law_a_creation_works_on_its_fiber(
    p: InitialPassView,
    root: RootView,
    reply: ReplyView,
)
    requires
        root.has(p.fiber),
        p.wf(),
    ensures
        root.works_on(p.fiber, p.step(root, reply).root),
        (InitialPassView { phase: p.step(root, reply).phase, ..p }).wf(),
        p.step(root, reply).action is None <==> p.step(root, reply).phase is Over,
{
    let id = p.fiber;
    match p.phase {
        InitialPhaseView::Claim => {
            lemma_unlinking_works(root, id);
            match root.target(id) {
                Some(target) => {
                    let held = root.holding(id);
                    lemma_with_fiber_works(root, id, held.fiber(id));
                    let owned = held.owning(id, true);
                    lemma_with_fiber_works(held, id, owned.fiber(id));
                    lemma_works_on(root, held, owned, id);
                    let settle = SettleView::begin(id, target, true);
                    lemma_settling_works(p, owned, settle, reply);
                    lemma_works_on(root, owned, p.settling(owned, settle, reply).root, id);
                },
                None => {},
            }
        },
        InitialPhaseView::Settling(settle) => lemma_settling_works(p, root, settle, reply),
        InitialPhaseView::Tearing(disposal, failure) => lemma_tearing_works(
            p,
            root,
            disposal,
            failure,
        ),
        InitialPhaseView::Over(outcome) => {},
    }
}

proof fn lemma_settled_grows(p: InitialPassView, root: RootView, target: TargetView)
    requires
        root.rooted(p.fiber),
        root.sealed(p.fiber) is Some,
        SettleView::begin(p.fiber, target, true).reached(root.fiber(p.fiber)),
    ensures
        ({
            let step = p.settled(root, target);
            let after = InitialPassView { phase: step.phase, ..p };
            &&& step.root.grows(after)
            &&& !(root.fiber(p.fiber).current() is Failed) ==> after.unfailed()
        }),
{
    let id = p.fiber;
    let touched = root.aiming_if_untouched(id, target);
    let aimed = root.aiming(id, target);
    lemma_with_fiber_works(root, id, aimed.fiber(id));
    if target.has_missing() {
        lemma_releasing_works(p, touched, target, InitialOutcomeView::Pending);
    } else if aimed.fiber(id).current() is Failed {
        let parked = aimed.parking(id, None);
        lemma_with_fiber_works(aimed, id, parked.fiber(id));
        lemma_tearing_works(
            p,
            parked,
            DisposalView { fiber: id, phase: DisposalPhaseView::Begin { frees_slot: false } },
            aimed.first_failure(id),
        );
    } else {
        lemma_releasing_works(p, aimed, target, InitialOutcomeView::Active);
    }
}

proof fn lemma_settling_grows(
    p: InitialPassView,
    root: RootView,
    settle: SettleView,
    reply: ReplyView,
)
    requires
        root.grows(InitialPassView { phase: InitialPhaseView::Settling(settle), ..p }),
    ensures
        ({
            let step = p.settling(root, settle, reply);
            let after = InitialPassView { phase: step.phase, ..p };
            &&& step.root.grows(after)
            &&& !(settle.phase is RollingBack) && !(reply matches ReplyView::Applied(Some(_)))
                ==> after.unfailed()
        }),
{
    law_a_settle_works_on_its_fiber(settle, root, reply);
    law_a_settle_ends_active_pending_or_failed(settle, root, reply);
    let step = settle.step(root, reply);
    if step.action is None {
        lemma_settled_grows(p, step.root, settle.target);
    }
}

/// A creation that nobody interrupts goes on growing its Fiber: it ends with the
/// Fiber standing, unless the first apply failed.
pub proof fn law_a_creation_grows_its_fiber(p: InitialPassView, root: RootView, reply: ReplyView)
    requires
        root.grows(p),
    ensures
        ({
            let step = p.step(root, reply);
            let after = InitialPassView { phase: step.phase, ..p };
            &&& step.root.grows(after)
            &&& p.unfailed() && !(reply matches ReplyView::Applied(Some(_))) ==> after.unfailed()
        }),
{
    let id = p.fiber;
    match p.phase {
        InitialPhaseView::Claim => {
            match root.target(id) {
                Some(target) => {
                    let held = root.holding(id);
                    lemma_with_fiber_works(root, id, held.fiber(id));
                    let owned = held.owning(id, true);
                    lemma_with_fiber_works(held, id, owned.fiber(id));
                    lemma_settling_grows(p, owned, SettleView::begin(id, target, true), reply);
                },
                None => {},
            }
        },
        InitialPhaseView::Settling(settle) => lemma_settling_grows(p, root, settle, reply),
        InitialPhaseView::Tearing(disposal, failure) => lemma_tearing_works(
            p,
            root,
            disposal,
            failure,
        ),
        InitialPhaseView::Over(outcome) => {},
    }
}

/// A dependents' convergence changes of the Fibers at most the settle slots.
pub proof fn law_a_convergence_changes_slots_only(
    c: ConvergenceView,
    root: RootView,
    by: SettleAttribution,
)
    ensures
        c.step(root, by).root.fibers.len() == root.fibers.len(),
        forall|i: int|
            0 <= i < root.fibers.len() ==> (#[trigger] c.step(root, by).root.fibers[i])
                == (FiberView { slot: c.step(root, by).root.fibers[i].slot, ..root.fibers[i] }),
{
}

} // verus!
