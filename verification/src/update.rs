//! Precommit control of same-Fiber updates: listeners per Plugin contract.

use crate::chain::{
    lemma_chain_wf, result_view, Awaiting, Chain, ChainEvent, ChainEventView, ChainMove,
    ChainMoveView, ChainResult, ChainResultView, ChainView,
};
use crate::event::{InvocationFailure, InvocationFailureView, ListenerOptions};
use crate::ids::{ContractId, ListenerRegistrationId};
use crate::plugin::PreparedChange;
use crate::scope::{in_reach, layer_chain, layer_in_reach, ScopeNode};
use crate::seqs::{
    first, first_index, is_first, lemma_filter_step, lemma_first_absent, lemma_first_found,
    without_first,
};
use std::sync::Arc;
use vstd::prelude::*;

verus! {

/// What an update listener does. Callbacks are named by the host.
#[derive(Clone, Copy, PartialEq, Eq, Structural, Debug)]
pub enum UpdateKind {
    /// Transforms the candidate.
    Mapper(u64),
    /// Wraps the rest of the control chain.
    Around(u64),
}

/// One registered update listener.
pub struct UpdateHook {
    /// The exact registration.
    pub id: ListenerRegistrationId,
    /// The position it was registered at.
    pub scope: Option<Arc<ScopeNode>>,
    /// The registration options.
    pub options: ListenerOptions,
    /// What the listener does.
    pub kind: UpdateKind,
}

/// An update listener as a mathematical value.
pub struct UpdateHookView {
    pub id: ListenerRegistrationId,
    pub scope: Seq<u64>,
    pub options: ListenerOptions,
    pub kind: UpdateKind,
}

impl View for UpdateHook {
    type V = UpdateHookView;

    open spec fn view(&self) -> UpdateHookView {
        UpdateHookView {
            id: self.id,
            scope: layer_chain(self.scope),
            options: self.options,
            kind: self.kind,
        }
    }
}

/// The views of a list of update listeners.
pub open spec fn update_views(hooks: Seq<UpdateHook>) -> Seq<UpdateHookView> {
    hooks.map_values(|h: UpdateHook| h@)
}

/// A selected update listener.
#[derive(Clone, Copy, PartialEq, Eq, Structural, Debug)]
pub struct UpdateSnap {
    /// The exact registration.
    pub id: ListenerRegistrationId,
    /// What the listener does.
    pub kind: UpdateKind,
}

/// Whether a listener controls updates of a Fiber at `target`.
pub open spec fn controls(target: Seq<u64>) -> spec_fn(UpdateHookView) -> bool {
    |h: UpdateHookView| h.options.global || in_reach(h.scope, target)
}

/// Whether a listener is the exact registration.
pub open spec fn is_update(id: ListenerRegistrationId) -> spec_fn(UpdateHookView) -> bool {
    |h: UpdateHookView| h.id == id
}

/// Whether a listener list is for `contract`.
pub open spec fn updates_of(contract: ContractId) -> spec_fn(
    (ContractId, Seq<UpdateHookView>),
) -> bool {
    |row: (ContractId, Seq<UpdateHookView>)| row.0 == contract
}

/// What one invocation needs of a listener.
pub open spec fn snap_of(h: UpdateHookView) -> UpdateSnap {
    UpdateSnap { id: h.id, kind: h.kind }
}

/// Update listeners by Plugin contract.
pub struct UpdateStore {
    hooks: Vec<(ContractId, Vec<UpdateHook>)>,
}

/// The update store as a mathematical value.
#[verifier::ext_equal]
pub struct UpdatesView {
    /// The listeners of each contract that has some, in effective order.
    pub hooks: Seq<(ContractId, Seq<UpdateHookView>)>,
}

impl View for UpdateStore {
    type V = UpdatesView;

    closed spec fn view(&self) -> UpdatesView {
        UpdatesView {
            hooks: self.hooks@.map_values(
                |row: (ContractId, Vec<UpdateHook>)| (row.0, update_views(row.1@)),
            ),
        }
    }
}

impl UpdatesView {
    /// A store without listeners.
    pub open spec fn empty() -> UpdatesView {
        UpdatesView { hooks: Seq::empty() }
    }

    /// The listeners of `contract`, in effective order.
    pub open spec fn listeners(self, contract: ContractId) -> Seq<UpdateHookView> {
        match first(self.hooks, updates_of(contract)) {
            Some(row) => row.1,
            None => Seq::empty(),
        }
    }

    /// The store with exactly `list` as the listeners of `contract`.
    pub open spec fn listing(self, contract: ContractId, list: Seq<UpdateHookView>) -> UpdatesView {
        match first_index(self.hooks, updates_of(contract)) {
            Some(i) => UpdatesView {
                hooks: if list.len() == 0 {
                    self.hooks.remove(i)
                } else {
                    self.hooks.update(i, (contract, list))
                },
            },
            None => UpdatesView {
                hooks: if list.len() == 0 {
                    self.hooks
                } else {
                    self.hooks.push((contract, list))
                },
            },
        }
    }

    /// The store with `hook` registered for `contract`.
    pub open spec fn adding(self, contract: ContractId, hook: UpdateHookView) -> UpdatesView {
        let list = self.listeners(contract);
        self.listing(
            contract,
            if hook.options.prepend {
                seq![hook] + list
            } else {
                list.push(hook)
            },
        )
    }

    /// The exact listener of `contract`, while it is registered.
    pub open spec fn find(self, contract: ContractId, id: ListenerRegistrationId) -> Option<
        UpdateHookView,
    > {
        first(self.listeners(contract), is_update(id))
    }

    /// The store with the exact listener unregistered.
    pub open spec fn removing(self, contract: ContractId, id: ListenerRegistrationId) -> UpdatesView {
        match self.find(contract, id) {
            Some(_) => self.listing(
                contract,
                without_first(self.listeners(contract), is_update(id)),
            ),
            None => self,
        }
    }

    /// The store after the exact listener was claimed for one invocation.
    pub open spec fn claiming(self, contract: ContractId, id: ListenerRegistrationId) -> UpdatesView {
        match self.find(contract, id) {
            Some(h) => if h.options.once {
                self.removing(contract, id)
            } else {
                self
            },
            None => self,
        }
    }

    /// The listeners that control an update of a Fiber at `target`.
    pub open spec fn snapshot(self, contract: ContractId, target: Seq<u64>) -> Seq<UpdateSnap> {
        self.listeners(contract).filter(controls(target)).map_values(|h: UpdateHookView| snap_of(h))
    }
}

impl UpdateStore {
    /// A store without listeners.
    pub fn new() -> (r: UpdateStore)
        ensures
            r@ == UpdatesView::empty(),
    {
        let r = UpdateStore { hooks: Vec::new() };
        assert(r@ =~= UpdatesView::empty());
        r
    }

    fn position(&self, contract: ContractId) -> (r: Option<usize>)
        ensures
            match r {
                Some(i) => i < self.hooks@.len() && first_index(self@.hooks, updates_of(contract))
                    == Some(i as int) && self.hooks@[i as int].0 == contract && self@.listeners(
                    contract,
                ) == update_views(self.hooks@[i as int].1@),
                None => first_index(self@.hooks, updates_of(contract)) is None && self@.listeners(
                    contract,
                ) == Seq::<UpdateHookView>::empty(),
            },
    {
        let ghost rows = self@.hooks;
        let mut i: usize = 0;
        while i < self.hooks.len()
            invariant
                i <= self.hooks@.len(),
                rows == self@.hooks,
                forall|j: int| 0 <= j < i ==> (#[trigger] rows[j]).0 != contract,
            decreases self.hooks@.len() - i,
        {
            assert(rows[i as int] == (
                self.hooks@[i as int].0,
                update_views(self.hooks@[i as int].1@),
            ));
            if self.hooks[i].0 == contract {
                proof {
                    assert(is_first(rows, updates_of(contract), i as int));
                    lemma_first_found(rows, updates_of(contract), i as int);
                }
                return Some(i);
            }
            i = i + 1;
        }
        proof {
            lemma_first_absent(rows, updates_of(contract));
        }
        None
    }

    /// Registers a listener before or after the others.
    pub fn add(&mut self, contract: ContractId, hook: UpdateHook)
        ensures
            final(self)@ == old(self)@.adding(contract, hook@),
    {
        let ghost before = self@;
        let ghost view = hook@;
        match self.position(contract) {
            Some(i) => {
                let ghost list = update_views(self.hooks@[i as int].1@);
                if hook.options.is_prepend() {
                    self.hooks[i].1.insert(0, hook);
                    assert(update_views(self.hooks@[i as int].1@) =~= seq![view] + list);
                } else {
                    self.hooks[i].1.push(hook);
                    assert(update_views(self.hooks@[i as int].1@) =~= list.push(view));
                }
                assert(self@.hooks =~= before.hooks.update(
                    i as int,
                    (contract, update_views(self.hooks@[i as int].1@)),
                ));
            },
            None => {
                let mut list: Vec<UpdateHook> = Vec::new();
                list.push(hook);
                self.hooks.push((contract, list));
                proof {
                    let none = Seq::<UpdateHookView>::empty();
                    assert(update_views(list@) =~= none.push(view));
                    assert(seq![view] + none =~= none.push(view));
                    assert(self@.hooks =~= before.hooks.push((contract, update_views(list@))));
                }
            },
        }
    }

    fn locate(list: &Vec<UpdateHook>, id: ListenerRegistrationId) -> (r: Option<usize>)
        ensures
            match r {
                Some(i) => i < list@.len() && first_index(update_views(list@), is_update(id))
                    == Some(i as int),
                None => first_index(update_views(list@), is_update(id)) is None,
            },
    {
        let ghost rows = update_views(list@);
        let mut i: usize = 0;
        while i < list.len()
            invariant
                i <= list@.len(),
                rows == update_views(list@),
                forall|j: int| 0 <= j < i ==> !is_update(id)(#[trigger] rows[j]),
            decreases list@.len() - i,
        {
            assert(rows[i as int] == list@[i as int]@);
            if list[i].id == id {
                proof {
                    assert(is_first(rows, is_update(id), i as int));
                    lemma_first_found(rows, is_update(id), i as int);
                }
                return Some(i);
            }
            i = i + 1;
        }
        proof {
            lemma_first_absent(rows, is_update(id));
        }
        None
    }

    /// Unregisters an exact listener; says whether it was registered.
    pub fn remove(&mut self, contract: ContractId, id: ListenerRegistrationId) -> (r: bool)
        ensures
            r == (old(self)@.find(contract, id) is Some),
            final(self)@ == old(self)@.removing(contract, id),
    {
        let ghost before = self@;
        match self.position(contract) {
            None => {
                proof {
                    lemma_first_absent(Seq::<UpdateHookView>::empty(), is_update(id));
                }
                false
            },
            Some(i) => {
                match Self::locate(&self.hooks[i].1, id) {
                    None => false,
                    Some(at) => {
                        let ghost list = update_views(self.hooks@[i as int].1@);
                        let _ = self.hooks[i].1.remove(at);
                        assert(update_views(self.hooks@[i as int].1@) =~= list.remove(at as int));
                        if self.hooks[i].1.len() == 0 {
                            let _ = self.hooks.remove(i);
                            assert(self@.hooks =~= before.hooks.remove(i as int));
                        } else {
                            assert(self@.hooks =~= before.hooks.update(
                                i as int,
                                (contract, list.remove(at as int)),
                            ));
                        }
                        true
                    },
                }
            },
        }
    }

    /// Claims an exact listener for one invocation; a one-time listener is
    /// unregistered.
    pub fn claim(&mut self, contract: ContractId, id: ListenerRegistrationId) -> (r: bool)
        ensures
            r == (old(self)@.find(contract, id) is Some),
            final(self)@ == old(self)@.claiming(contract, id),
    {
        let once = match self.position(contract) {
            None => {
                proof {
                    lemma_first_absent(Seq::<UpdateHookView>::empty(), is_update(id));
                }
                return false;
            },
            Some(i) => match Self::locate(&self.hooks[i].1, id) {
                None => {
                    return false;
                },
                Some(at) => {
                    assert(update_views(self.hooks@[i as int].1@)[at as int]
                        == self.hooks@[i as int].1@[at as int]@);
                    self.hooks[i].1[at].options.is_once()
                },
            },
        };
        if !once {
            return true;
        }
        self.remove(contract, id)
    }

    /// The listeners that control an update of a Fiber at `target`, in effective
    /// order.
    pub fn snapshot(&self, contract: ContractId, target: &Option<Arc<ScopeNode>>) -> (r: Vec<
        UpdateSnap,
    >)
        ensures
            r@ == self@.snapshot(contract, layer_chain(*target)),
    {
        let ghost chain = layer_chain(*target);
        let ghost p = controls(chain);
        let ghost list = self@.listeners(contract);
        let mut out: Vec<UpdateSnap> = Vec::new();
        proof {
            reveal(Seq::filter);
            assert(list.take(0) =~= Seq::empty());
            assert(out@ =~= list.take(0).filter(p).map_values(|h: UpdateHookView| snap_of(h)));
        }
        match self.position(contract) {
            None => {
                assert(list.take(0) =~= list);
            },
            Some(at) => {
                let hooks = &self.hooks[at].1;
                let mut i: usize = 0;
                while i < hooks.len()
                    invariant
                        i <= hooks@.len(),
                        list == update_views(hooks@),
                        chain == layer_chain(*target),
                        p == controls(chain),
                        out@ == list.take(i as int).filter(p).map_values(
                            |h: UpdateHookView| snap_of(h),
                        ),
                    decreases hooks@.len() - i,
                {
                    proof {
                        lemma_filter_step(list, p, i as int);
                        assert(list[i as int] == hooks@[i as int]@);
                    }
                    let ghost kept = list.take(i as int).filter(p);
                    if hooks[i].options.is_global() || layer_in_reach(&hooks[i].scope, target) {
                        assert(kept.push(list[i as int]).map_values(|h: UpdateHookView| snap_of(h))
                            =~= kept.map_values(|h: UpdateHookView| snap_of(h)).push(
                            snap_of(list[i as int]),
                        ));
                        out.push(UpdateSnap { id: hooks[i].id, kind: hooks[i].kind });
                    }
                    i = i + 1;
                }
                assert(list.take(i as int) =~= list);
            },
        }
        out
    }
}

/// What the control of an update does next.
pub enum ControlAction {
    /// The event is not one the control waits for.
    Ignore,
    /// Invoke a listener with an input; an Around listener also gets a
    /// continuation.
    Invoke {
        /// The listener.
        hook: UpdateSnap,
        /// The host's name for the input.
        input: u64,
    },
    /// Hand a result to the innermost open Around listener, as what its
    /// continuation returned.
    Resume(ChainResult),
    /// Control is complete: the accepted candidate, or none where it was vetoed.
    Done(Result<Option<PreparedChange>, InvocationFailure>),
}

/// What the control of an update does next, as a mathematical value.
#[allow(inconsistent_fields)]
pub enum ControlActionView {
    Ignore,
    Invoke { hook: UpdateSnap, input: u64 },
    Resume(ChainResultView),
    Done(Result<Option<PreparedChange>, InvocationFailureView>),
}

impl View for ControlAction {
    type V = ControlActionView;

    open spec fn view(&self) -> ControlActionView {
        match self {
            ControlAction::Ignore => ControlActionView::Ignore,
            ControlAction::Invoke { hook, input } => ControlActionView::Invoke {
                hook: *hook,
                input: *input,
            },
            ControlAction::Resume(r) => ControlActionView::Resume(result_view(*r)),
            ControlAction::Done(r) => ControlActionView::Done(
                match *r {
                    Ok(accepted) => Ok(accepted),
                    Err(failure) => Err(failure@),
                },
            ),
        }
    }
}

/// One precommit control run: the listeners selected when it began, and whether
/// its private tail was reached.
pub struct UpdateControl {
    contract: ContractId,
    hooks: Vec<UpdateSnap>,
    chain: Chain,
    reached: bool,
}

/// A control run as a mathematical value.
#[verifier::ext_equal]
pub struct ControlView {
    /// The contract the control is for.
    pub contract: ContractId,
    /// The selected listeners, in effective order.
    pub hooks: Seq<UpdateSnap>,
    /// The onion of the listeners.
    pub chain: ChainView,
    /// Whether the private tail was reached.
    pub reached: bool,
}

/// What one step of a control run comes to.
#[verifier::ext_equal]
pub struct ControlStep {
    /// The listeners registered after it.
    pub updates: UpdatesView,
    /// The run after it.
    pub control: ControlView,
    /// What comes next.
    pub action: ControlActionView,
}

impl View for UpdateControl {
    type V = ControlView;

    closed spec fn view(&self) -> ControlView {
        ControlView {
            contract: self.contract,
            hooks: self.hooks@,
            chain: self.chain@,
            reached: self.reached,
        }
    }
}

/// The first position from `index` on whose listener can still be claimed.
pub open spec fn next_claimable(
    updates: UpdatesView,
    contract: ContractId,
    hooks: Seq<UpdateSnap>,
    index: int,
) -> int
    decreases hooks.len() - index,
{
    if index < 0 || index >= hooks.len() {
        hooks.len() as int
    } else if updates.find(contract, hooks[index].id) is Some {
        index
    } else {
        next_claimable(updates, contract, hooks, index + 1)
    }
}

/// The identities of a list of selected listeners.
pub open spec fn snap_ids(hooks: Seq<UpdateSnap>) -> Seq<ListenerRegistrationId> {
    hooks.map_values(|h: UpdateSnap| h.id)
}

impl ControlView {
    /// A control run nobody has entered.
    pub open spec fn begin(contract: ContractId, hooks: Seq<UpdateSnap>) -> ControlView {
        ControlView {
            contract,
            hooks,
            chain: ChainView::fresh(snap_ids(hooks)),
            reached: false,
        }
    }

    /// The onion is made of the selected listeners.
    pub open spec fn wf(self) -> bool {
        &&& self.chain.ids == snap_ids(self.hooks)
        &&& self.chain.wf()
        &&& self.hooks.len() <= usize::MAX
    }

    /// What a move of the onion means. What comes out of it is accepted only where
    /// the private tail was reached; otherwise the update is vetoed.
    pub open spec fn moved(self, updates: UpdatesView, next: ChainMoveView) -> ControlStep {
        match next {
            ChainMoveView::Resume(result) => ControlStep {
                updates,
                control: self,
                action: ControlActionView::Resume(result),
            },
            ChainMoveView::Finish(result) => ControlStep {
                updates,
                control: self,
                action: ControlActionView::Done(
                    match result {
                        Ok(input) => Ok(
                            if self.reached {
                                Some(PreparedChange { contract: self.contract, input })
                            } else {
                                None
                            },
                        ),
                        Err(failure) => Err(failure),
                    },
                ),
            },
            _ => ControlStep { updates, control: self, action: ControlActionView::Ignore },
        }
    }

    /// Entering from a position: listeners unregistered meanwhile are passed by,
    /// the first one left is claimed and invoked. Past the last one the private
    /// tail is reached and hands the candidate back as it is.
    pub open spec fn entering(self, updates: UpdatesView, index: int, input: u64) -> ControlStep {
        let k = next_claimable(updates, self.contract, self.hooks, index);
        if k < self.hooks.len() {
            let hook = self.hooks[k];
            ControlStep {
                updates: updates.claiming(self.contract, hook.id),
                control: ControlView {
                    chain: match hook.kind {
                        UpdateKind::Around(_) => self.chain.opening(k as usize),
                        UpdateKind::Mapper(_) => ChainView {
                            awaiting: Awaiting::Mapper(k as usize),
                            ..self.chain
                        },
                    },
                    ..self
                },
                action: ControlActionView::Invoke { hook, input },
            }
        } else {
            let s = self.chain.completing(Ok(input));
            (ControlView { chain: s.chain, reached: true, ..self }).moved(updates, s.next)
        }
    }

    /// What one event makes of a control run.
    pub open spec fn step(self, updates: UpdatesView, event: ChainEventView) -> ControlStep {
        let s = self.chain.step(event);
        let after = ControlView { chain: s.chain, ..self };
        match s.next {
            ChainMoveView::Enter { index, payload } => after.entering(
                updates,
                index as int,
                payload,
            ),
            _ => after.moved(updates, s.next),
        }
    }
}

impl UpdateControl {
    /// Begins control of an update of a Fiber at `target`.
    pub fn begin(store: &UpdateStore, contract: ContractId, target: &Option<Arc<ScopeNode>>) -> (r:
        UpdateControl)
        ensures
            r@ == ControlView::begin(contract, store@.snapshot(contract, layer_chain(*target))),
            r@.wf(),
    {
        let hooks = store.snapshot(contract, target);
        let ghost all = snap_ids(hooks@);
        let mut ids: Vec<ListenerRegistrationId> = Vec::new();
        let mut i: usize = 0;
        while i < hooks.len()
            invariant
                i <= hooks@.len(),
                all == snap_ids(hooks@),
                ids@ == all.take(i as int),
            decreases hooks@.len() - i,
        {
            ids.push(hooks[i].id);
            assert(ids@ =~= all.take(i + 1));
            i = i + 1;
        }
        assert(ids@ =~= all);
        UpdateControl { contract, hooks, chain: Chain::new(ids), reached: false }
    }

    fn relay(&self, next: ChainMove) -> (r: ControlAction)
        requires
            !(next is Enter),
        ensures
            forall|u: UpdatesView| r@ == (#[trigger] self@.moved(u, next@)).action,
    {
        match next {
            ChainMove::Resume(result) => ControlAction::Resume(result),
            ChainMove::Finish(result) => ControlAction::Done(
                match result {
                    Ok(input) => Ok(
                        if self.reached {
                            Some(PreparedChange::from_parts(self.contract, input))
                        } else {
                            None
                        },
                    ),
                    Err(failure) => Err(failure),
                },
            ),
            _ => ControlAction::Ignore,
        }
    }

    fn enter(&mut self, store: &mut UpdateStore, index: usize, input: u64) -> (r: ControlAction)
        requires
            old(self)@.wf(),
            index <= old(self)@.hooks.len(),
        ensures
            final(self)@.wf(),
            final(store)@ == old(self)@.entering(old(store)@, index as int, input).updates,
            final(self)@ == old(self)@.entering(old(store)@, index as int, input).control,
            r@ == old(self)@.entering(old(store)@, index as int, input).action,
    {
        let mut i: usize = index;
        while i < self.hooks.len()
            invariant
                index <= i <= self.hooks@.len(),
                self@ == old(self)@,
                self@.wf(),
                store@ == old(store)@,
                next_claimable(store@, self@.contract, self@.hooks, index as int)
                    == next_claimable(store@, self@.contract, self@.hooks, i as int),
            decreases self.hooks@.len() - i,
        {
            let hook = self.hooks[i];
            if store.claim(self.contract, hook.id) {
                match hook.kind {
                    UpdateKind::Around(_) => self.chain.open_around(i),
                    UpdateKind::Mapper(_) => self.chain.wait_for(Awaiting::Mapper(i)),
                }
                return ControlAction::Invoke { hook, input };
            }
            assert(store@ == old(store)@);
            i = i + 1;
        }
        self.reached = true;
        let next = self.chain.complete(Ok(input));
        self.relay(next)
    }

    /// Enters the onion with the candidate's input.
    pub fn start(&mut self, store: &mut UpdateStore, change: PreparedChange) -> (r: ControlAction)
        requires
            old(self)@.wf(),
        ensures
            final(self)@.wf(),
            final(store)@ == old(self)@.entering(old(store)@, 0, change.input).updates,
            final(self)@ == old(self)@.entering(old(store)@, 0, change.input).control,
            r@ == old(self)@.entering(old(store)@, 0, change.input).action,
    {
        let (_, input) = change.into_parts();
        self.enter(store, 0, input)
    }

    /// Takes one event; says what comes next.
    pub fn step(&mut self, store: &mut UpdateStore, event: ChainEvent) -> (r: ControlAction)
        requires
            old(self)@.wf(),
        ensures
            final(self)@.wf(),
            final(store)@ == old(self)@.step(old(store)@, event@).updates,
            final(self)@ == old(self)@.step(old(store)@, event@).control,
            r@ == old(self)@.step(old(store)@, event@).action,
    {
        proof {
            lemma_chain_wf(self@.chain, event@);
        }
        match self.chain.step(event) {
            ChainMove::Enter { index, payload } => self.enter(store, index, payload),
            next => self.relay(next),
        }
    }
}

/// Without listeners nothing can veto: control accepts the candidate as it is.
pub proof fn law_an_update_without_listeners_is_accepted(
    updates: UpdatesView,
    contract: ContractId,
    input: u64,
)
    ensures
        ControlView::begin(contract, Seq::empty()).entering(updates, 0, input).action
            == ControlActionView::Done(Ok(Some(PreparedChange { contract, input }))),
{
}

/// A listener that returns without having called its continuation vetoes the
/// update where nothing inside reached the tail before.
pub proof fn law_control_that_skips_the_tail_is_a_veto(
    control: ControlView,
    updates: UpdatesView,
    input: u64,
)
    requires
        control.wf(),
        !control.reached,
        control.chain.open.len() > 0,
    ensures
        control.step(
            updates,
            ChainEventView::AroundReturned { depth: 0, result: Ok(input) },
        ).action == ControlActionView::Done(Ok(None::<PreparedChange>)),
{
}

/// The control never invokes a listener twice: what it invokes next lies at or
/// after where it stands.
pub proof fn law_the_control_chain_moves_forward(
    updates: UpdatesView,
    contract: ContractId,
    hooks: Seq<UpdateSnap>,
    index: int,
)
    requires
        0 <= index <= hooks.len(),
    ensures
        index <= next_claimable(updates, contract, hooks, index) <= hooks.len(),
    decreases hooks.len() - index,
{
    if index < hooks.len() && updates.find(contract, hooks[index].id) is None {
        law_the_control_chain_moves_forward(updates, contract, hooks, index + 1);
    }
}

/// Whether every listener has an identity of its own, issued before `bound`.
pub open spec fn distinct_updates(list: Seq<UpdateHookView>, bound: u64) -> bool {
    &&& forall|k: int| 0 <= k < list.len() ==> (#[trigger] list[k]).id.0 < bound
    &&& forall|j: int, k: int|
        0 <= j < k < list.len() ==> (#[trigger] list[j]).id != (#[trigger] list[k]).id
}

impl UpdatesView {
    /// Every contract with listeners is listed once, and each of its listeners has
    /// an identity of its own, issued before `bound`.
    pub open spec fn sound(self, bound: u64) -> bool {
        &&& forall|i: int, j: int|
            0 <= i < j < self.hooks.len() ==> (#[trigger] self.hooks[i]).0 != (
            #[trigger] self.hooks[j]).0
        &&& forall|i: int|
            0 <= i < self.hooks.len() ==> distinct_updates((#[trigger] self.hooks[i]).1, bound)
    }
}

/// A consistent store stays so under a higher identity bound.
pub proof fn lemma_updates_more(updates: UpdatesView, bound: u64, more: u64)
    requires
        updates.sound(bound),
        bound <= more,
    ensures
        updates.sound(more),
{
    assert forall|i: int| 0 <= i < updates.hooks.len() implies distinct_updates(
        (#[trigger] updates.hooks[i]).1,
        more,
    ) by {
        let list = updates.hooks[i].1;
        assert(distinct_updates(list, bound));
        assert forall|k: int| 0 <= k < list.len() implies (#[trigger] list[k]).id.0 < more by {
            assert(list[k].id.0 < bound);
        }
    }
}

/// The listeners of `contract` become exactly `list`, and no other contract's
/// change.
proof fn lemma_updates_listing(
    updates: UpdatesView,
    contract: ContractId,
    list: Seq<UpdateHookView>,
    other: ContractId,
    bound: u64,
)
    requires
        updates.sound(bound),
        distinct_updates(list, bound),
    ensures
        updates.listing(contract, list).sound(bound),
        updates.listing(contract, list).listeners(contract) == list,
        other != contract ==> updates.listing(contract, list).listeners(other)
            == updates.listeners(other),
{
    let after = updates.listing(contract, list);
    let old_rows = updates.hooks;
    let rows = after.hooks;
    crate::seqs::lemma_first_meets(old_rows, updates_of(contract));
    crate::seqs::lemma_first_meets(old_rows, updates_of(other));
    match first_index(old_rows, updates_of(contract)) {
        Some(i) => {
            if list.len() == 0 {
                assert forall|k: int| 0 <= k < rows.len() implies #[trigger] rows[k] == old_rows[
                if k < i {
                    k
                } else {
                    k + 1
                }] by {}
                assert forall|k: int| 0 <= k < rows.len() implies !updates_of(contract)(
                    #[trigger] rows[k],
                ) by {
                    if k >= i {
                        assert(old_rows[i].0 != old_rows[k + 1].0);
                    }
                }
                lemma_first_absent(rows, updates_of(contract));
                assert(list =~= Seq::empty());
                if other != contract {
                    match first_index(old_rows, updates_of(other)) {
                        Some(k) => {
                            let at = if k < i {
                                k
                            } else {
                                k - 1
                            };
                            assert(is_first(rows, updates_of(other), at));
                            lemma_first_found(rows, updates_of(other), at);
                        },
                        None => {
                            lemma_first_absent(rows, updates_of(other));
                        },
                    }
                }
            } else {
                assert(is_first(rows, updates_of(contract), i));
                lemma_first_found(rows, updates_of(contract), i);
                if other != contract {
                    match first_index(old_rows, updates_of(other)) {
                        Some(k) => {
                            assert(is_first(rows, updates_of(other), k));
                            lemma_first_found(rows, updates_of(other), k);
                        },
                        None => {
                            lemma_first_absent(rows, updates_of(other));
                        },
                    }
                }
            }
        },
        None => {
            if list.len() == 0 {
                assert(list =~= Seq::empty());
            } else {
                let n = old_rows.len() as int;
                assert(is_first(rows, updates_of(contract), n));
                lemma_first_found(rows, updates_of(contract), n);
                if other != contract {
                    match first_index(old_rows, updates_of(other)) {
                        Some(k) => {
                            assert(is_first(rows, updates_of(other), k));
                            lemma_first_found(rows, updates_of(other), k);
                        },
                        None => {
                            lemma_first_absent(rows, updates_of(other));
                        },
                    }
                }
            }
        },
    }
}

proof fn lemma_listeners_distinct(updates: UpdatesView, contract: ContractId, bound: u64)
    requires
        updates.sound(bound),
    ensures
        distinct_updates(updates.listeners(contract), bound),
{
    crate::seqs::lemma_first_meets(updates.hooks, updates_of(contract));
}

/// An unregistration keeps the store consistent, ends its own listener and no
/// other.
pub proof fn law_an_unregistered_update_listener_is_gone(
    updates: UpdatesView,
    contract: ContractId,
    id: ListenerRegistrationId,
    other: ContractId,
    that: ListenerRegistrationId,
    bound: u64,
)
    requires
        updates.sound(bound),
    ensures
        updates.removing(contract, id).sound(bound),
        updates.removing(contract, id).find(contract, id) is None,
        other != contract || that != id ==> updates.removing(contract, id).find(other, that)
            == updates.find(other, that),
{
    let list = updates.listeners(contract);
    lemma_listeners_distinct(updates, contract, bound);
    crate::seqs::lemma_first_meets(list, is_update(id));
    crate::seqs::lemma_first_meets(list, is_update(that));
    match first_index(list, is_update(id)) {
        Some(i) => {
            let fewer = without_first(list, is_update(id));
            assert forall|k: int| 0 <= k < fewer.len() implies #[trigger] fewer[k] == list[if k
                < i {
                k
            } else {
                k + 1
            }] by {}
            assert(distinct_updates(fewer, bound)) by {
                assert forall|j: int, k: int| 0 <= j < k < fewer.len() implies (
                #[trigger] fewer[j]).id != (#[trigger] fewer[k]).id by {
                    let a = if j < i {
                        j
                    } else {
                        j + 1
                    };
                    let b = if k < i {
                        k
                    } else {
                        k + 1
                    };
                    assert(list[a].id != list[b].id);
                }
            }
            lemma_updates_listing(updates, contract, fewer, other, bound);
            assert forall|k: int| 0 <= k < fewer.len() implies !is_update(id)(
                #[trigger] fewer[k],
            ) by {
                if k < i {
                    assert(list[k].id != list[i].id);
                } else {
                    assert(list[i].id != list[k + 1].id);
                }
            }
            lemma_first_absent(fewer, is_update(id));
            if that != id {
                match first_index(list, is_update(that)) {
                    Some(k) => {
                        let at = if k < i {
                            k
                        } else {
                            k - 1
                        };
                        assert(is_first(fewer, is_update(that), at));
                        lemma_first_found(fewer, is_update(that), at);
                    },
                    None => {
                        lemma_first_absent(fewer, is_update(that));
                    },
                }
            }
        },
        None => {},
    }
}

/// A registration under a fresh identity keeps the store consistent; what is found
/// after it was found before, or is the listener itself.
pub proof fn law_a_registered_update_listener_is_found(
    updates: UpdatesView,
    contract: ContractId,
    hook: UpdateHookView,
    other: ContractId,
    that: ListenerRegistrationId,
    bound: u64,
    more: u64,
)
    requires
        updates.sound(bound),
        bound <= hook.id.0 < more,
    ensures
        updates.adding(contract, hook).sound(more),
        updates.adding(contract, hook).find(contract, hook.id) == Some(hook),
        other != contract || that != hook.id ==> updates.adding(contract, hook).find(other, that)
            == updates.find(other, that),
{
    lemma_updates_more(updates, bound, more);
    lemma_listeners_distinct(updates, contract, bound);
    let list = updates.listeners(contract);
    let longer = if hook.options.prepend {
        seq![hook] + list
    } else {
        list.push(hook)
    };
    let at = if hook.options.prepend {
        0int
    } else {
        list.len() as int
    };
    let shift = if hook.options.prepend {
        1int
    } else {
        0int
    };
    assert forall|k: int| 0 <= k < longer.len() implies #[trigger] longer[k] == (if k == at {
        hook
    } else {
        list[k - shift]
    }) by {}
    assert(distinct_updates(longer, more)) by {
        assert forall|j: int, k: int| 0 <= j < k < longer.len() implies (
        #[trigger] longer[j]).id != (#[trigger] longer[k]).id by {
            if j != at && k != at {
                assert(list[j - shift].id != list[k - shift].id);
            }
        }
    }
    lemma_updates_listing(updates, contract, longer, other, more);
    assert forall|j: int| 0 <= j < at implies !is_update(hook.id)(#[trigger] longer[j]) by {
        assert(list[j - shift].id.0 < bound);
    }
    assert(is_first(longer, is_update(hook.id), at));
    lemma_first_found(longer, is_update(hook.id), at);
    if that != hook.id {
        crate::seqs::lemma_first_meets(list, is_update(that));
        match first_index(list, is_update(that)) {
            Some(k) => {
                assert(longer[k + shift] == list[k]);
                assert(is_first(longer, is_update(that), k + shift)) by {
                    assert forall|j: int| 0 <= j < k + shift implies !is_update(that)(
                        #[trigger] longer[j],
                    ) by {
                        if j != at {
                            assert(!is_update(that)(list[j - shift]));
                        }
                    }
                }
                lemma_first_found(longer, is_update(that), k + shift);
            },
            None => {
                assert forall|j: int| 0 <= j < longer.len() implies !is_update(that)(
                    #[trigger] longer[j],
                ) by {
                    if j != at {
                        assert(!is_update(that)(list[j - shift]));
                    }
                }
                lemma_first_absent(longer, is_update(that));
            },
        }
    }
}

} // verus!
