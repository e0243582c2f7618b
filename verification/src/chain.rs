//! The onion of Mapper and Around listeners: who is entered next, and through
//! whom a result comes back.

use crate::event::{InvocationFailure, InvocationFailureView};
use crate::ids::ListenerRegistrationId;
use vstd::prelude::*;

verus! {

/// What came back from a callback or a tail: a payload named by the host, or a
/// failure.
pub type ChainResult = Result<u64, InvocationFailure>;

/// What came back, as a mathematical value.
pub type ChainResultView = Result<u64, InvocationFailureView>;

/// The view of a result.
pub open spec fn result_view(r: ChainResult) -> ChainResultView {
    match r {
        Ok(payload) => Ok(payload),
        Err(failure) => Err(failure@),
    }
}

/// The result, a failure attributed to `id` where nobody is blamed yet.
pub open spec fn correlated(r: ChainResultView, id: ListenerRegistrationId) -> ChainResultView {
    match r {
        Ok(payload) => Ok(payload),
        Err(failure) => Err(failure.correlated(id)),
    }
}

/// Whose answer a chain waits for.
#[derive(Clone, Copy, PartialEq, Eq, Structural, Debug)]
pub enum Awaiting {
    /// The innermost open Around listener moves next.
    Around,
    /// The Mapper listener at this position.
    Mapper(usize),
    /// The tail.
    Tail,
    /// Nobody's: the chain is over.
    Nobody,
}

/// What happened to a chain.
pub enum ChainEvent {
    /// The awaited Mapper or tail returned.
    Returned(ChainResult),
    /// The innermost open Around listener called its continuation.
    NextCalled(u64),
    /// The open Around listener at this depth returned; whatever was still open
    /// inside it is abandoned.
    AroundReturned {
        /// The listener's depth, counted from the outermost open one.
        depth: usize,
        /// What it returned.
        result: ChainResult,
    },
}

/// What happened to a chain, as a mathematical value.
#[allow(inconsistent_fields)]
pub enum ChainEventView {
    Returned(ChainResultView),
    NextCalled(u64),
    AroundReturned { depth: usize, result: ChainResultView },
}

impl View for ChainEvent {
    type V = ChainEventView;

    open spec fn view(&self) -> ChainEventView {
        match self {
            ChainEvent::Returned(r) => ChainEventView::Returned(result_view(*r)),
            ChainEvent::NextCalled(payload) => ChainEventView::NextCalled(*payload),
            ChainEvent::AroundReturned { depth, result } => ChainEventView::AroundReturned {
                depth: *depth,
                result: result_view(*result),
            },
        }
    }
}

/// Where a chain goes next.
pub enum ChainMove {
    /// The event is not one the chain waits for; nothing changes.
    Ignore,
    /// The listeners from this position on are entered with a payload.
    Enter {
        /// The position.
        index: usize,
        /// The payload.
        payload: u64,
    },
    /// A result goes to the innermost open Around listener.
    Resume(ChainResult),
    /// A result comes out of the chain.
    Finish(ChainResult),
}

/// Where a chain goes next, as a mathematical value.
pub enum ChainMoveView {
    Ignore,
    Enter { index: usize, payload: u64 },
    Resume(ChainResultView),
    Finish(ChainResultView),
}

impl View for ChainMove {
    type V = ChainMoveView;

    open spec fn view(&self) -> ChainMoveView {
        match self {
            ChainMove::Ignore => ChainMoveView::Ignore,
            ChainMove::Enter { index, payload } => ChainMoveView::Enter {
                index: *index,
                payload: *payload,
            },
            ChainMove::Resume(r) => ChainMoveView::Resume(result_view(*r)),
            ChainMove::Finish(r) => ChainMoveView::Finish(result_view(*r)),
        }
    }
}

/// The progress of one onion of listeners.
pub struct Chain {
    /// The listeners, in effective order.
    ids: Vec<ListenerRegistrationId>,
    /// The positions of the Around listeners that are open, outermost first.
    open: Vec<usize>,
    awaiting: Awaiting,
}

/// The progress as a mathematical value.
#[verifier::ext_equal]
pub struct ChainView {
    pub ids: Seq<ListenerRegistrationId>,
    pub open: Seq<usize>,
    pub awaiting: Awaiting,
}

/// What one event makes of a chain.
#[verifier::ext_equal]
pub struct ChainStep {
    pub chain: ChainView,
    pub next: ChainMoveView,
}

impl View for Chain {
    type V = ChainView;

    closed spec fn view(&self) -> ChainView {
        ChainView { ids: self.ids@, open: self.open@, awaiting: self.awaiting }
    }
}

impl ChainView {
    /// A chain that nobody has entered.
    pub open spec fn fresh(ids: Seq<ListenerRegistrationId>) -> ChainView {
        ChainView { ids, open: Seq::empty(), awaiting: Awaiting::Nobody }
    }

    /// Positions point into the chain.
    pub open spec fn wf(self) -> bool {
        &&& forall|i: int| 0 <= i < self.open.len() ==> (#[trigger] self.open[i]) < self.ids.len()
        &&& self.awaiting matches Awaiting::Mapper(k) ==> k < self.ids.len()
        &&& self.awaiting is Around ==> self.open.len() > 0
    }

    /// A result comes back to what encloses it: the innermost open Around
    /// listener, or out of the chain.
    pub open spec fn completing(self, result: ChainResultView) -> ChainStep {
        if self.open.len() > 0 {
            ChainStep {
                chain: ChainView { awaiting: Awaiting::Around, ..self },
                next: ChainMoveView::Resume(result),
            }
        } else {
            ChainStep {
                chain: ChainView { awaiting: Awaiting::Nobody, ..self },
                next: ChainMoveView::Finish(result),
            }
        }
    }

    /// The chain with an Around listener opened.
    pub open spec fn opening(self, index: usize) -> ChainView {
        ChainView { open: self.open.push(index), awaiting: Awaiting::Around, ..self }
    }

    /// What one event makes of the chain. A Mapper's payload goes on downstream;
    /// a failure, and everything an Around listener returns, goes outward,
    /// attributed to the listener it comes from unless it is attributed already.
    pub open spec fn step(self, event: ChainEventView) -> ChainStep {
        let ignored = ChainStep { chain: self, next: ChainMoveView::Ignore };
        match event {
            ChainEventView::Returned(result) => match self.awaiting {
                Awaiting::Mapper(k) => match result {
                    Ok(payload) => ChainStep {
                        chain: self,
                        next: ChainMoveView::Enter { index: (k + 1) as usize, payload },
                    },
                    Err(_) => self.completing(correlated(result, self.ids[k as int])),
                },
                Awaiting::Tail => self.completing(result),
                _ => ignored,
            },
            ChainEventView::NextCalled(payload) => if self.awaiting is Around {
                ChainStep {
                    chain: self,
                    next: ChainMoveView::Enter { index: (self.open.last() + 1) as usize, payload },
                }
            } else {
                ignored
            },
            ChainEventView::AroundReturned { depth, result } => if depth < self.open.len() {
                let outer = ChainView { open: self.open.take(depth as int), ..self };
                outer.completing(correlated(result, self.ids[self.open[depth as int] as int]))
            } else {
                ignored
            },
        }
    }
}

impl Chain {
    /// A chain that nobody has entered.
    pub fn new(ids: Vec<ListenerRegistrationId>) -> (r: Chain)
        ensures
            r@ == ChainView::fresh(ids@),
    {
        Chain { ids, open: Vec::new(), awaiting: Awaiting::Nobody }
    }

    /// How many listeners the chain has.
    pub fn len(&self) -> (r: usize)
        ensures
            r == self@.ids.len(),
            r <= usize::MAX,
    {
        self.ids.len()
    }

    /// The listener at a position.
    pub fn id(&self, index: usize) -> (r: ListenerRegistrationId)
        requires
            index < self@.ids.len(),
        ensures
            r == self@.ids[index as int],
    {
        self.ids[index]
    }

    /// Opens the Around listener at a position.
    pub fn open_around(&mut self, index: usize)
        ensures
            final(self)@ == old(self)@.opening(index),
    {
        self.open.push(index);
        self.awaiting = Awaiting::Around;
    }

    /// Waits for a Mapper or for the tail.
    pub fn wait_for(&mut self, awaiting: Awaiting)
        ensures
            final(self)@ == (ChainView { awaiting, ..old(self)@ }),
    {
        self.awaiting = awaiting;
    }

    /// Brings a result back to what encloses it.
    pub fn complete(&mut self, result: ChainResult) -> (r: ChainMove)
        ensures
            final(self)@ == old(self)@.completing(result_view(result)).chain,
            r@ == old(self)@.completing(result_view(result)).next,
    {
        if self.open.len() > 0 {
            self.awaiting = Awaiting::Around;
            ChainMove::Resume(result)
        } else {
            self.awaiting = Awaiting::Nobody;
            ChainMove::Finish(result)
        }
    }

    /// Takes one event.
    pub fn step(&mut self, event: ChainEvent) -> (r: ChainMove)
        requires
            old(self)@.wf(),
        ensures
            final(self)@ == old(self)@.step(event@).chain,
            r@ == old(self)@.step(event@).next,
    {
        let count: usize = self.ids.len();
        assert(count <= usize::MAX);
        match event {
            ChainEvent::Returned(result) => match self.awaiting {
                Awaiting::Mapper(k) => match result {
                    Ok(payload) => ChainMove::Enter { index: k + 1, payload },
                    Err(failure) => {
                        let id = self.ids[k];
                        self.complete(Err(failure.correlate(id)))
                    },
                },
                Awaiting::Tail => self.complete(result),
                _ => ChainMove::Ignore,
            },
            ChainEvent::NextCalled(payload) => match self.awaiting {
                Awaiting::Around => {
                    let at = self.open[self.open.len() - 1];
                    assert(at == self@.open.last());
                    ChainMove::Enter { index: at + 1, payload }
                },
                _ => ChainMove::Ignore,
            },
            ChainEvent::AroundReturned { depth, result } => {
                if depth < self.open.len() {
                    let id = self.ids[self.open[depth]];
                    self.open.truncate(depth);
                    assert(self@ =~= (ChainView {
                        open: old(self)@.open.take(depth as int),
                        ..old(self)@
                    }));
                    match result {
                        Ok(payload) => self.complete(Ok(payload)),
                        Err(failure) => self.complete(Err(failure.correlate(id))),
                    }
                } else {
                    ChainMove::Ignore
                }
            },
        }
    }
}

/// Every event leaves the positions of a chain inside it.
pub proof fn lemma_chain_wf(chain: ChainView, event: ChainEventView)
    requires
        chain.wf(),
        chain.ids.len() <= usize::MAX,
    ensures
        chain.step(event).chain.wf(),
        chain.step(event).chain.ids == chain.ids,
        chain.step(event).next matches ChainMoveView::Enter { index, .. } ==> index
            <= chain.ids.len(),
{
}

/// A failure that comes out of a chain is attributed to the innermost listener it
/// came through, and to nobody where it came from the tail alone: an attribution
/// is never replaced further out.
pub proof fn law_an_attribution_is_never_replaced(
    result: ChainResultView,
    inner: ListenerRegistrationId,
    outer: ListenerRegistrationId,
)
    ensures
        correlated(correlated(result, inner), outer) == correlated(result, inner),
{
}

/// A listener is entered only through the one before it: a Mapper hands on to the
/// next position, and so does the innermost open Around listener.
pub proof fn law_a_chain_goes_inward_one_position_at_a_time(
    chain: ChainView,
    event: ChainEventView,
)
    requires
        chain.wf(),
        chain.ids.len() <= usize::MAX,
    ensures
        chain.step(event).next matches ChainMoveView::Enter { index, .. } ==> {
            ||| chain.awaiting matches Awaiting::Mapper(k) && index == k + 1
            ||| chain.awaiting is Around && index == chain.open.last() + 1
        },
        chain.step(event).next is Enter ==> chain.step(event).chain == chain,
{
}

/// What an Around listener returns goes to the Around listener that encloses it,
/// or out of the chain; what it had opened inside is abandoned.
pub proof fn law_an_around_result_goes_to_the_enclosing_listener(
    chain: ChainView,
    depth: usize,
    result: ChainResultView,
)
    requires
        chain.wf(),
        depth < chain.open.len(),
    ensures
        ({
            let step = chain.step(ChainEventView::AroundReturned { depth, result });
            &&& step.chain.open == chain.open.take(depth as int)
            &&& depth == 0 ==> step.next is Finish
            &&& depth > 0 ==> step.next is Resume
        }),
{
}

} // verus!
