//! Draining a generation: its cleanup obligations, newest first, each claimed
//! before it runs.

use crate::effect::{
    law_a_claim_leaves_the_others, law_a_token_is_claimed_exactly_once, names, Cleanup,
    CleanupView, DisposableToken,
};
use crate::fiber::FiberView;
use crate::ids::FiberId;
use crate::root::{lemma_same_counters_room, Root, RootView};
use crate::seqs::{is_first, lemma_first_found};
use vstd::prelude::*;

verus! {

/// Where a drain stands after it went as far as the framework alone can take it.
#[verifier::ext_equal]
pub struct DrainStep {
    /// The Runtime.
    pub root: RootView,
    /// The tokens still to be served, oldest first.
    pub tokens: Seq<DisposableToken>,
    /// The claimed cleanup the host has to run next; `None` when the drain is
    /// complete.
    pub run: Option<CleanupView>,
}

impl RootView {
    /// The Runtime with a Fiber's drain mark set or cleared.
    pub open spec fn marking_drain(self, id: FiberId, draining: bool) -> RootView {
        self.with_fiber(id, FiberView { draining, ..self.fiber(id) })
    }

    /// Serves `tokens` from the newest on: an obligation claimed meanwhile is
    /// skipped, the framework's own cleanups are executed at once, and the first
    /// hosted one is claimed and handed out.
    pub open spec fn drained(self, id: FiberId, tokens: Seq<DisposableToken>) -> DrainStep
        decreases tokens.len(),
    {
        if tokens.len() == 0 {
            DrainStep { root: self.marking_drain(id, false), tokens, run: None }
        } else {
            let claimed = self.claiming(id, tokens.last());
            match self.obligation(id, tokens.last()) {
                None => claimed.drained(id, tokens.drop_last()),
                Some(cleanup) => if cleanup.is_hosted() {
                    DrainStep { root: claimed, tokens: tokens.drop_last(), run: Some(cleanup) }
                } else {
                    claimed.cleaned(cleanup).drained(id, tokens.drop_last())
                },
            }
        }
    }
}

/// The framework's part of a cleanup touches no Fiber and no counter.
pub proof fn lemma_cleaned_counters(r: RootView, cleanup: CleanupView)
    ensures
        r.cleaned(cleanup).fibers == r.fibers,
        r.same_counters(r.cleaned(cleanup)),
{
}

/// A drain changes no counter, and of the Fibers only the drained one's journal
/// and drain mark.
pub proof fn lemma_drained_counters(r: RootView, id: FiberId, tokens: Seq<DisposableToken>)
    requires
        r.has(id),
    ensures
        r.same_counters(r.drained(id, tokens).root),
        r.drained(id, tokens).tokens.len() <= tokens.len(),
        forall|i: int|
            0 <= i < r.fibers.len() && i != id.0 ==> (#[trigger] r.drained(id, tokens).root.fibers[i])
                == r.fibers[i],
        r.drained(id, tokens).root.fiber(id) == (FiberView {
            journal: r.drained(id, tokens).root.fiber(id).journal,
            draining: r.drained(id, tokens).root.fiber(id).draining,
            ..r.fiber(id)
        }),
    decreases tokens.len(),
{
    if tokens.len() > 0 {
        let claimed = r.claiming(id, tokens.last());
        match r.obligation(id, tokens.last()) {
            None => lemma_drained_counters(claimed, id, tokens.drop_last()),
            Some(cleanup) => {
                if !cleanup.is_hosted() {
                    lemma_cleaned_counters(claimed, cleanup);
                    lemma_drained_counters(claimed.cleaned(cleanup), id, tokens.drop_last());
                }
            },
        }
    }
}

/// A drain leaves the room there was.
pub proof fn lemma_drained_room(r: RootView, id: FiberId, tokens: Seq<DisposableToken>, n: nat)
    requires
        r.has(id),
        r.room(n),
    ensures
        r.drained(id, tokens).root.room(n),
        r.drained(id, tokens).root.fibers.len() == r.fibers.len(),
{
    lemma_drained_counters(r, id, tokens);
    lemma_same_counters_room(r, r.drained(id, tokens).root, n);
}

impl Root {
    /// Opens a drain: marks it and takes the tokens the generation owns now.
    pub fn begin_drain(&mut self, id: FiberId) -> (tokens: Vec<DisposableToken>)
        requires
            old(self).wf(),
            old(self)@.has(id),
        ensures
            final(self).wf(),
            tokens@ == old(self)@.fiber(id).journal.tokens(),
            final(self)@ == old(self)@.marking_drain(id, true),
    {
        let tokens = self.fiber(id).disposables.tokens();
        self.fiber_mut(id).draining = true;
        tokens
    }

    /// Drains on: hands out the next cleanup the host has to run, or nothing when
    /// the drain is complete.
    pub fn drain_next(&mut self, id: FiberId, tokens: &mut Vec<DisposableToken>) -> (r: Option<
        Cleanup,
    >)
        requires
            old(self).wf(),
            old(self)@.has(id),
        ensures
            final(self).wf(),
            final(self)@ == old(self)@.drained(id, old(tokens)@).root,
            final(tokens)@ == old(self)@.drained(id, old(tokens)@).tokens,
            match r {
                Some(c) => old(self)@.drained(id, old(tokens)@).run == Some(c@),
                None => old(self)@.drained(id, old(tokens)@).run is None,
            },
    {
        loop
            invariant
                self.wf(),
                self@.has(id),
                self@.drained(id, tokens@) == old(self)@.drained(id, old(tokens)@),
            decreases tokens@.len(),
        {
            let ghost before = tokens@;
            match tokens.pop() {
                None => {
                    self.fiber_mut(id).draining = false;
                    return None;
                },
                Some(token) => {
                    assert(tokens@ =~= before.drop_last());
                    match self.remove_disposable(id, token) {
                        None => {},
                        Some(cleanup) => {
                            let ghost claimed = self@;
                            match self.execute_cleanup(cleanup) {
                                Some(cleanup) => {
                                    assert(self@ == claimed);
                                    return Some(cleanup);
                                },
                                None => {
                                    proof {
                                        lemma_cleaned_counters(claimed, cleanup@);
                                    }
                                },
                            }
                        },
                    }
                },
            }
        }
    }
}

/// A drain serves its tokens newest first, and what it served is claimed: the
/// tokens left are the oldest ones, and none of the others can run again.
pub proof fn law_a_drain_serves_newest_first_and_once(
    r: RootView,
    id: FiberId,
    tokens: Seq<DisposableToken>,
)
    requires
        r.has(id),
        r.fiber(id).journal.wf(),
    ensures
        ({
            let step = r.drained(id, tokens);
            &&& step.tokens == tokens.take(step.tokens.len() as int)
            &&& step.run is None ==> step.tokens.len() == 0
            &&& step.root.fiber(id).journal.wf()
            &&& forall|t: DisposableToken|
                r.obligation(id, t) is None ==> (#[trigger] step.root.obligation(id, t)) is None
            &&& forall|j: int|
                step.tokens.len() <= j < tokens.len() ==> step.root.obligation(
                    id,
                    #[trigger] tokens[j],
                ) is None
        }),
    decreases tokens.len(),
{
    let step = r.drained(id, tokens);
    if tokens.len() == 0 {
        assert(tokens =~= tokens.take(0));
    } else {
        let last = tokens.last();
        let rest = tokens.drop_last();
        let claimed = r.claiming(id, last);
        law_a_token_is_claimed_exactly_once(r.fiber(id).journal, last);
        assert forall|t: DisposableToken| r.obligation(id, t) is None implies (
        #[trigger] claimed.obligation(id, t)) is None by {
            if t != last {
                law_a_claim_leaves_the_others(r.fiber(id).journal, last, t);
            }
        }
        match r.obligation(id, last) {
            None => {
                lemma_drained_counters(claimed, id, rest);
                law_a_drain_serves_newest_first_and_once(claimed, id, rest);
            },
            Some(cleanup) => {
                if !cleanup.is_hosted() {
                    lemma_cleaned_counters(claimed, cleanup);
                    lemma_drained_counters(claimed.cleaned(cleanup), id, rest);
                    law_a_drain_serves_newest_first_and_once(claimed.cleaned(cleanup), id, rest);
                }
            },
        }
        assert(step.tokens == rest.take(step.tokens.len() as int));
        assert(step.tokens =~= tokens.take(step.tokens.len() as int));
        assert forall|t: DisposableToken| r.obligation(id, t) is None implies (
        #[trigger] step.root.obligation(id, t)) is None by {
            assert(claimed.obligation(id, t) is None);
        }
        assert(claimed.obligation(id, last) is None);
        assert(step.root.obligation(id, last) is None);
        assert forall|j: int| step.tokens.len() <= j < tokens.len() implies step.root.obligation(
            id,
            #[trigger] tokens[j],
        ) is None by {
            if j < rest.len() {
                assert(rest[j] == tokens[j]);
            }
        }
    }
}

/// A drain of everything a generation owns leaves in the journal exactly the
/// obligations it has not served yet; a complete one leaves nothing.
pub proof fn law_a_complete_drain_empties_the_journal(r: RootView, id: FiberId)
    requires
        r.has(id),
        r.fiber(id).journal.wf(),
    ensures
        ({
            let step = r.drained(id, r.fiber(id).journal.tokens());
            &&& step.root.fiber(id).journal.tokens() == step.tokens
            &&& step.run is None ==> step.root.fiber(id).journal.entries.len() == 0
        }),
    decreases r.fiber(id).journal.entries.len(),
{
    let journal = r.fiber(id).journal;
    let tokens = journal.tokens();
    if tokens.len() > 0 {
        let k = journal.entries.len() - 1;
        let last = tokens.last();
        assert(journal.entries[k].0 == last);
        assert(is_first(journal.entries, names(last), k));
        lemma_first_found(journal.entries, names(last), k);
        let claimed = r.claiming(id, last);
        assert(claimed.fiber(id).journal.entries =~= journal.entries.drop_last());
        assert(claimed.fiber(id).journal.tokens() =~= tokens.drop_last());
        law_a_token_is_claimed_exactly_once(journal, last);
        match r.obligation(id, last) {
            None => {
                law_a_complete_drain_empties_the_journal(claimed, id);
            },
            Some(cleanup) => {
                if !cleanup.is_hosted() {
                    lemma_cleaned_counters(claimed, cleanup);
                    law_a_complete_drain_empties_the_journal(claimed.cleaned(cleanup), id);
                }
            },
        }
    }
}

} // verus!
