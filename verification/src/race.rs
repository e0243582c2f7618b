//! Racing replacements of one source: one is admitted, the other finds the source
//! closed.

use crate::converge::ConvergenceView;
use crate::dispose::DisposalView;
use crate::era::{
    law_a_replacement_before_its_claim_changes_nothing, refuses_swap, EraEndingView, EraPhaseView,
    EraStep, EraView,
};
use crate::frame::law_a_convergence_changes_slots_only;
use crate::ids::FiberId;
use crate::root::RootView;
use crate::seqs::lemma_first_absent;
use crate::settle::ReplyView;
use crate::sound::{
    law_a_disposal_keeps_the_runtime_sound, law_a_spawn_keeps_the_runtime_sound,
    law_an_era_replacement_keeps_the_runtime_sound,
};
use crate::spawn::{SpawnPhaseView, SpawnStep};
use crate::succession::{
    carries_on, law_a_handed_successor_takes_over, law_a_promising_replacement_is_handed_off,
    law_a_replacement_carries_on, law_a_replacement_outlasts_other_work,
    law_a_successor_is_raised, raised, succeeds,
};
use vstd::prelude::*;

verus! {

impl EraView {
    /// The replacement has claimed its source: it stands after its claim, or has
    /// ended otherwise than by a refusal before it.
    pub open spec fn admitted(self) -> bool {
        match self.phase {
            EraPhaseView::Claim => false,
            EraPhaseView::Over(ending) => !(ending is Closed || ending is Recursion),
            _ => true,
        }
    }

    /// The replacement was asked for from outside any lifecycle work, its recipe is
    /// normal, its successor does not gate on its origin, and no refusal is reported
    /// after the claim.
    pub open spec fn plain(self) -> bool {
        &&& self.normal()
        &&& self.by.settling@.len() == 0
        &&& self.by.tasks@.len() == 0
        &&& match self.phase {
            EraPhaseView::Spawning(SpawnPhaseView::Start { gated, .. }) => !gated,
            EraPhaseView::Final(_, ending) => !(ending is Closed || ending is Recursion),
            EraPhaseView::Over(ending) => !(ending is Recursion),
            _ => true,
        }
    }

    /// The admitted replacement ended, or is about to end, without a successor ever
    /// admitted to the Runtime.
    pub open spec fn fruitless(self) -> bool {
        match self.phase {
            EraPhaseView::Final(_, ending) => ending is Lost || ending is InputPanicked,
            EraPhaseView::Over(ending) => ending is Lost || ending is InputPanicked,
            _ => false,
        }
    }

    /// How many Fibers the replacement, once admitted, has still to admit.
    pub open spec fn due(self) -> nat {
        match self.phase {
            EraPhaseView::Terminal(..) => 1,
            EraPhaseView::Entry(_) => 1,
            EraPhaseView::Superseded(_) => 1,
            EraPhaseView::Spawning(SpawnPhaseView::Start { .. }) => 1,
            _ => 0,
        }
    }

    /// How many Fibers two racing replacements have still to admit together.
    pub open spec fn due_with(self, other: EraView) -> nat {
        if !self.admitted() && !other.admitted() {
            1
        } else {
            self.due() + other.due()
        }
    }

    /// Two replacements race for one source that nobody else closes: at most one
    /// of them is admitted, the source is closed exactly if one is, and one is
    /// refused only where the other is admitted.
    pub open spec fn races(self, other: EraView, root: RootView) -> bool {
        &&& self.source == other.source
        &&& self.wf(root)
        &&& other.wf(root)
        &&& self.plain()
        &&& other.plain()
        &&& !(self.admitted() && other.admitted())
        &&& (self.admitted() || other.admitted()) ==> root.fiber(self.source).disposing
        &&& !root.fiber(self.source).alive || root.fiber(self.source).disposing
            ==> self.admitted() || other.admitted()
        &&& self.phase is Over && !self.admitted() ==> other.admitted()
        &&& other.phase is Over && !other.admitted() ==> self.admitted()
    }
}

/// Two replacements of one live source, neither of which has made its claim, race
/// for it.
pub proof fn law_two_replacements_race_for_a_live_source(a: EraView, b: EraView, root: RootView)
    requires
        a.source == b.source,
        a.phase is Claim,
        b.phase is Claim,
        a.plain(),
        b.plain(),
        root.has(a.source),
        root.fiber(a.source).alive,
        !root.fiber(a.source).disposing,
    ensures
        a.races(b, root),
{
}

proof fn lemma_claim_of_a_race(a: EraView, b: EraView, root: RootView)
    requires
        a.races(b, root),
        a.phase is Claim,
    ensures
        ({
            let step = a.claiming(root);
            &&& b.admitted() ==> step.root == root && !step.era.admitted() && (step.action is None
                ==> step.era.phase == EraPhaseView::Over(EraEndingView::Closed))
            &&& step.era.races(b, step.root)
            &&& step.root.fibers.len() == root.fibers.len()
            &&& step.era.due_with(b) == a.due_with(b)
        }),
{
    let edges = root.published_edges(a.source);
    let entry = root.dependents_except(edges, seq![a.source]);
    lemma_first_absent(entry, refuses_swap(root, a.by));
}

/// What a step of one of two racing replacements comes to.
pub open spec fn races_on(a: EraView, b: EraView, root: RootView, reply: ReplyView) -> bool {
    let step = a.step(root, reply);
    &&& step.era.races(b, step.root)
    &&& b.races(step.era, step.root)
    &&& b.admitted() ==> step.root == root && !step.era.admitted() && (step.action is None
        ==> step.era.phase == EraPhaseView::Over(EraEndingView::Closed))
    &&& step.root.fibers.len() + step.era.due_with(b) == root.fibers.len() + a.due_with(b)
        || step.era.fruitless()
}

proof fn lemma_entry_races_on(
    a: EraView,
    b: EraView,
    root: RootView,
    convergence: ConvergenceView,
    reply: ReplyView,
)
    requires
        a.races(b, root),
        a.phase == EraPhaseView::Entry(convergence),
    ensures
        races_on(a, b, root, reply),
{
    law_a_convergence_changes_slots_only(convergence, root, a.by);
    let later = convergence.step(root, a.by).root;
    assert(later.fibers[a.source.0 as int].disposing == root.fibers[a.source.0 as int].disposing);
    assert(later.fibers[a.source.0 as int].alive == root.fibers[a.source.0 as int].alive);
    let moved = later.sealing(a.source, None);
    assert(moved.fiber(a.source).disposing == later.fiber(a.source).disposing);
}

proof fn lemma_final_races_on(
    a: EraView,
    b: EraView,
    root: RootView,
    convergence: ConvergenceView,
    ending: EraEndingView,
    reply: ReplyView,
)
    requires
        a.races(b, root),
        a.phase == EraPhaseView::Final(convergence, ending),
    ensures
        races_on(a, b, root, reply),
{
    law_a_convergence_changes_slots_only(convergence, root, a.by);
    let later = convergence.step(root, a.by).root;
    assert(later.fibers[a.source.0 as int].disposing == root.fibers[a.source.0 as int].disposing);
    assert(later.fibers[a.source.0 as int].alive == root.fibers[a.source.0 as int].alive);
}

proof fn lemma_terminal_races_on(
    a: EraView,
    b: EraView,
    root: RootView,
    disposal: DisposalView,
    entry: Seq<FiberId>,
    reply: ReplyView,
)
    requires
        root.sound(),
        a.races(b, root),
        a.phase == EraPhaseView::Terminal(disposal, entry),
    ensures
        races_on(a, b, root, reply),
{
    law_a_disposal_keeps_the_runtime_sound(disposal, root);
    let later = disposal.step(root).root;
    assert(later.fibers[a.source.0 as int].disposing);
}

proof fn lemma_spawning_races_on(
    a: EraView,
    b: EraView,
    root: RootView,
    spawn: SpawnPhaseView,
    reply: ReplyView,
    step: SpawnStep,
)
    requires
        a.races(b, root),
        a.phase == EraPhaseView::Spawning(spawn),
        a.course(root),
        step == spawn.step(root, reply),
        raised(a, spawn, root, reply),
        root.ages(step.root),
        step.root.fibers.len() == root.fibers.len() + (if spawn is Start {
            1int
        } else {
            0int
        }),
    ensures
        races_on(a, b, root, reply),
{
    assert(step.root.fibers[a.source.0 as int].disposing);
}

/// A step of either of two racing replacements goes on with the race. Once one is
/// admitted the other changes nothing and can only be told that the source is
/// closed. Together they admit one Fiber, unless the admitted one ends without
/// having created its successor.
pub proof fn law_a_race_admits_one_replacement(
    a: EraView,
    b: EraView,
    root: RootView,
    reply: ReplyView,
)
    requires
        root.sound(),
        root.room(3),
        root.fibers.len() < usize::MAX,
        a.races(b, root),
        a.course(root),
    ensures
        races_on(a, b, root, reply),
{
    match a.phase {
        EraPhaseView::Claim => lemma_claim_of_a_race(a, b, root),
        EraPhaseView::Terminal(disposal, entry) => lemma_terminal_races_on(
            a,
            b,
            root,
            disposal,
            entry,
            reply,
        ),
        EraPhaseView::Entry(convergence) => lemma_entry_races_on(a, b, root, convergence, reply),
        EraPhaseView::Superseded(plugin) => {},
        EraPhaseView::Spawning(spawn) => {
            law_a_successor_is_raised(a, root, spawn, reply);
            law_a_spawn_keeps_the_runtime_sound(spawn, root, reply);
            lemma_spawning_races_on(a, b, root, spawn, reply, spawn.step(root, reply));
        },
        EraPhaseView::Final(convergence, ending) => lemma_final_races_on(
            a,
            b,
            root,
            convergence,
            ending,
            reply,
        ),
        EraPhaseView::Over(ending) => {},
    }
}

/// The race goes on whatever else happens to the Runtime, as long as nobody else
/// closes the source.
pub proof fn law_a_race_outlasts_other_work(
    a: EraView,
    b: EraView,
    root: RootView,
    later: RootView,
)
    requires
        a.races(b, root),
        a.wf(later),
        b.wf(later),
        root.ages(later),
        later.fiber(a.source).alive == root.fiber(a.source).alive,
        later.fiber(a.source).disposing == root.fiber(a.source).disposing,
    ensures
        a.races(b, later),
{
}

/// A race that is over has one winner: exactly one of two replacements was
/// admitted, and the other was told that the source is closed.
pub proof fn law_a_race_has_one_winner(a: EraView, b: EraView, root: RootView)
    requires
        a.races(b, root),
        a.phase is Over,
        b.phase is Over,
    ensures
        a.admitted() != b.admitted(),
        !a.admitted() ==> a.phase == EraPhaseView::Over(EraEndingView::Closed),
        !b.admitted() ==> b.phase == EraPhaseView::Over(EraEndingView::Closed),
{
}

/// One move of a race.
pub enum RaceMove {
    /// The first replacement goes on with the host's answer.
    First(ReplyView),
    /// The second replacement goes on with the host's answer.
    Second(ReplyView),
    /// Other work changes the Runtime.
    Other(RootView),
}

/// A race of two replacements.
#[verifier::ext_equal]
pub struct RaceView {
    pub a: EraView,
    pub b: EraView,
    pub root: RootView,
    /// How many Fibers the two have admitted.
    pub admissions: int,
}

impl RaceView {
    /// The race after one move.
    pub open spec fn moved(self, m: RaceMove) -> RaceView {
        match m {
            RaceMove::First(reply) => self.moved_first(reply),
            RaceMove::Second(reply) => self.swapped().moved_first(reply).swapped(),
            RaceMove::Other(later) => RaceView { root: later, ..self },
        }
    }

    /// The race after a move of its first replacement.
    pub open spec fn moved_first(self, reply: ReplyView) -> RaceView {
        let step = self.a.step(self.root, reply);
        RaceView {
            a: step.era,
            b: self.b,
            root: step.root,
            admissions: self.admissions + step.root.fibers.len() - self.root.fibers.len(),
        }
    }

    /// The race with its replacements named the other way round.
    pub open spec fn swapped(self) -> RaceView {
        RaceView { a: self.b, b: self.a, ..self }
    }

    /// The race after a run of moves.
    pub open spec fn after(self, moves: Seq<RaceMove>) -> RaceView
        decreases moves.len(),
    {
        if moves.len() == 0 {
            self
        } else {
            self.after(moves.drop_last()).moved(moves.last())
        }
    }

    /// A move that keeps to the rules: every apply succeeds and no destructor
    /// panics, the identities last, and other work spares both replacements.
    pub open spec fn allows(self, m: RaceMove) -> bool {
        match m {
            RaceMove::First(reply) => succeeds(reply) && self.root.room(3)
                && self.root.fibers.len() < usize::MAX,
            RaceMove::Second(reply) => succeeds(reply) && self.root.room(3)
                && self.root.fibers.len() < usize::MAX,
            RaceMove::Other(later) => {
                &&& later.sound()
                &&& self.a.spared(self.root, later)
                &&& self.b.spared(self.root, later)
            },
        }
    }

    /// Every move of a run keeps to the rules.
    pub open spec fn fair(self, moves: Seq<RaceMove>) -> bool
        decreases moves.len(),
    {
        moves.len() > 0 ==> self.fair(moves.drop_last()) && self.after(moves.drop_last()).allows(
            moves.last(),
        )
    }

    /// The race is on: both replacements are on course, thriving and promising, and
    /// what they have admitted and what they have still to admit is one Fiber.
    pub open spec fn on(self) -> bool {
        &&& self.root.sound()
        &&& self.a.races(self.b, self.root)
        &&& self.a.course(self.root)
        &&& self.b.course(self.root)
        &&& self.a.thrives(self.root)
        &&& self.b.thrives(self.root)
        &&& self.a.promising(self.root)
        &&& self.b.promising(self.root)
        &&& self.admissions + self.a.due_with(self.b) == 1
    }
}

/// Two replacements asked for on one live source begin a race.
pub proof fn law_a_race_begins(a: EraView, b: EraView, root: RootView)
    requires
        root.sound(),
        a.source == b.source,
        a.phase is Claim,
        b.phase is Claim,
        a.plain(),
        b.plain(),
        a.sourced(root),
        b.sourced(root),
        a.promising(root),
        b.promising(root),
        root.fiber(a.source).alive,
        !root.fiber(a.source).disposing,
    ensures
        (RaceView { a, b, root, admissions: 0 }).on(),
{
    law_two_replacements_race_for_a_live_source(a, b, root);
}

proof fn lemma_step_keeps_the_race(race: RaceView, reply: ReplyView)
    requires
        race.on(),
        race.allows(RaceMove::First(reply)),
    ensures
        race.moved_first(reply).on(),
{
    let root = race.root;
    let step = race.a.step(root, reply);
    assert(step.root.sound()) by {
        law_an_era_replacement_keeps_the_runtime_sound(race.a, root, reply);
    }
    law_a_race_admits_one_replacement(race.a, race.b, root, reply);
    law_a_replacement_carries_on(race.a, root, reply);
    lemma_race_after_step(race, reply, step);
}

proof fn lemma_race_after_step(race: RaceView, reply: ReplyView, step: EraStep)
    requires
        race.on(),
        step == race.a.step(race.root, reply),
        step.root.sound(),
        races_on(race.a, race.b, race.root, reply),
        carries_on(race.a, race.root, reply),
        succeeds(reply),
    ensures
        race.moved_first(reply).on(),
{
    lemma_loser_waits(race, reply, step);
    assert(!step.era.fruitless());
}

proof fn lemma_loser_waits(race: RaceView, reply: ReplyView, step: EraStep)
    requires
        race.on(),
        step == race.a.step(race.root, reply),
        races_on(race.a, race.b, race.root, reply),
        step.era.course(step.root),
    ensures
        race.b.course(step.root),
        race.b.thrives(step.root),
        race.b.promising(step.root),
{
    assert(step.era.name == race.a.name && step.era.source == race.a.source);
    if !race.b.admitted() && !step.era.admitted() {
        if race.a.phase is Claim {
            law_a_replacement_before_its_claim_changes_nothing(race.a, race.root);
        }
        assert(step.root == race.root);
    }
}

/// A race keeps on through every run of moves that keeps to the rules.
pub proof fn law_a_race_keeps_on(race: RaceView, moves: Seq<RaceMove>)
    requires
        race.on(),
        race.fair(moves),
    ensures
        race.after(moves).on(),
    decreases moves.len(),
{
    if moves.len() > 0 {
        let shorter = moves.drop_last();
        law_a_race_keeps_on(race, shorter);
        let mid = race.after(shorter);
        match moves.last() {
            RaceMove::First(reply) => lemma_step_keeps_the_race(mid, reply),
            RaceMove::Second(reply) => {
                assert(mid.swapped().on());
                lemma_step_keeps_the_race(mid.swapped(), reply);
            },
            RaceMove::Other(later) => {
                assert(mid.a.claims(mid.root));
                assert(mid.b.claims(mid.root));
                law_a_replacement_outlasts_other_work(mid.a, mid.root, later);
                law_a_replacement_outlasts_other_work(mid.b, mid.root, later);
            },
        }
    }
}

impl EraView {
    /// The replacement won a race: it handed off a successor that is a living
    /// resident, active or pending, of the name of its departed source.
    pub open spec fn won(self, root: RootView) -> bool {
        &&& self.phase matches EraPhaseView::Over(EraEndingView::Handed(s)) && {
            &&& s.fiber != self.source
            &&& root.fiber(s.fiber).name == root.fiber(self.source).name
            &&& root.stands(s.fiber)
            &&& root.registry.residents.contains(s.fiber)
        }
        &&& root.departed(self.source)
        &&& !root.registry.residents.contains(self.source)
    }

    /// The replacement lost a race: it was told that the source is closed.
    pub open spec fn lost(self) -> bool {
        self.phase == EraPhaseView::Over(EraEndingView::Closed)
    }
}

/// Two replacements race for one live source, in any order of their steps and of
/// other work, as long as every apply succeeds and nobody else closes the source or
/// disposes the successor. Once both are over, one has handed its successor off, the
/// other was told that the source is closed, and together they admitted one Fiber.
pub proof fn law_racing_replacements_deliver_one_successor(race: RaceView, moves: Seq<RaceMove>)
    requires
        race.on(),
        race.fair(moves),
        race.after(moves).a.phase is Over,
        race.after(moves).b.phase is Over,
    ensures
        ({
            let end = race.after(moves);
            &&& end.a.won(end.root) && end.b.lost() || end.b.won(end.root) && end.a.lost()
            &&& end.admissions == 1
        }),
{
    law_a_race_keeps_on(race, moves);
    let end = race.after(moves);
    law_a_race_has_one_winner(end.a, end.b, end.root);
    if end.a.admitted() {
        lemma_winner(end.a, end.root);
    } else {
        lemma_winner(end.b, end.root);
    }
}

proof fn lemma_winner(era: EraView, root: RootView)
    requires
        root.sound(),
        era.course(root),
        era.thrives(root),
        era.promising(root),
        era.phase is Over,
        era.admitted(),
    ensures
        era.won(root),
{
    law_a_promising_replacement_is_handed_off(era, root);
    match era.phase {
        EraPhaseView::Over(EraEndingView::Handed(s)) => law_a_handed_successor_takes_over(
            era,
            root,
            s,
        ),
        _ => {},
    }
}

} // verus!
