//! What flows through an onion of listeners: payloads inward, results outward, and
//! who is blamed for a failure.

use crate::chain::{Awaiting, ChainEventView, ChainMoveView, ChainResultView, ChainView};
use crate::dispatch::{law_a_dispatch_moves_forward, Invocation};
use crate::event::{DispatchErrorView, DispatchOutcomeKind, EventOperation, InvocationFailureView};
use crate::event_store::HookKind;
use crate::ids::{ContractId, ListenerRegistrationId};
use crate::plugin::PreparedChange;
use crate::root::RootView;
use crate::scope::in_reach;
use crate::seqs::lemma_filter_members;
use crate::update::{
    controls, next_claimable, ControlActionView, ControlView, UpdateHookView, UpdateKind,
    UpdateSnap, UpdatesView,
};
use crate::waterfall::{WaterfallActionView, WaterfallView};
use vstd::prelude::*;

verus! {

/// A result as it leaves a listener: a payload as it is, a failure attributed to the
/// listener unless it is attributed already.
pub open spec fn leaving(result: ChainResultView, id: ListenerRegistrationId) -> ChainResultView {
    match result {
        Ok(payload) => Ok(payload),
        Err(failure) => Err(
            InvocationFailureView {
                registration: match failure.registration {
                    Some(blamed) => Some(blamed),
                    None => Some(id),
                },
                ..failure
            },
        ),
    }
}

/// Whether a result goes to the innermost open Around listener, or out of the chain
/// where none is open.
pub open spec fn goes_outward(
    before: ChainView,
    next: ChainMoveView,
    after: ChainView,
    result: ChainResultView,
) -> bool {
    &&& after.ids == before.ids
    &&& if after.open.len() > 0 {
        next == ChainMoveView::Resume(result) && after.awaiting is Around
    } else {
        next == ChainMoveView::Finish(result) && after.awaiting is Nobody
    }
}

/// What a Mapper returns is what the listener behind it is entered with; its failure
/// goes outward, attributed to it.
pub proof fn law_a_mappers_output_is_the_next_input(
    chain: ChainView,
    k: usize,
    result: ChainResultView,
)
    requires
        chain.wf(),
        chain.ids.len() <= usize::MAX,
        chain.awaiting == Awaiting::Mapper(k),
    ensures
        ({
            let step = chain.step(ChainEventView::Returned(result));
            match result {
                Ok(payload) => step.chain == chain && step.next == (ChainMoveView::Enter {
                    index: (k + 1) as usize,
                    payload,
                }),
                Err(_) => {
                    &&& step.chain.open == chain.open
                    &&& goes_outward(
                        chain,
                        step.next,
                        step.chain,
                        leaving(result, chain.ids[k as int]),
                    )
                },
            }
        }),
{
}

/// What the tail returns goes outward as it is, attributed to nobody.
pub proof fn law_the_tails_result_goes_outward(chain: ChainView, result: ChainResultView)
    requires
        chain.awaiting is Tail,
    ensures
        ({
            let step = chain.step(ChainEventView::Returned(result));
            step.chain.open == chain.open && goes_outward(chain, step.next, step.chain, result)
        }),
{
}

/// An Around listener enters what lies inside it with the payload it calls its
/// continuation with, as often as it calls it.
pub proof fn law_a_continuation_enters_with_its_payload(chain: ChainView, payload: u64)
    requires
        chain.wf(),
        chain.ids.len() <= usize::MAX,
        chain.awaiting is Around,
    ensures
        ({
            let step = chain.step(ChainEventView::NextCalled(payload));
            &&& step.chain == chain
            &&& step.next == (ChainMoveView::Enter {
                index: (chain.open.last() + 1) as usize,
                payload,
            })
        }),
{
}

/// What an Around listener returns goes outward as its own: a payload as it is,
/// whatever came from inside, and a failure attributed to it unless it is attributed
/// already.
pub proof fn law_an_around_listener_decides_the_result(
    chain: ChainView,
    depth: usize,
    result: ChainResultView,
)
    requires
        chain.wf(),
        depth < chain.open.len(),
    ensures
        ({
            let step = chain.step(ChainEventView::AroundReturned { depth, result });
            &&& step.chain.open == chain.open.take(depth as int)
            &&& goes_outward(
                chain,
                step.next,
                step.chain,
                leaving(result, chain.ids[chain.open[depth as int] as int]),
            )
        }),
{
}

/// What nobody waits for is ignored.
pub proof fn law_an_unexpected_answer_is_ignored(chain: ChainView, event: ChainEventView)
    requires
        match event {
            ChainEventView::Returned(_) => !(chain.awaiting is Mapper || chain.awaiting is Tail),
            ChainEventView::NextCalled(_) => !(chain.awaiting is Around),
            ChainEventView::AroundReturned { depth, .. } => depth >= chain.open.len(),
        },
    ensures
        chain.step(event).chain == chain,
        chain.step(event).next is Ignore,
{
}

/// A waterfall goes on with the first selected listener from a position on that is
/// still registered, and hands it the payload as it is; behind the last one the tail
/// gets it.
pub proof fn law_a_waterfall_enters_the_next_registered_listener(
    w: WaterfallView,
    root: RootView,
    index: int,
    payload: u64,
    k: int,
)
    requires
        w.wf(),
        0 <= index <= k <= w.hooks.len(),
        forall|i: int| index <= i < k ==> !root.claimable(w.event, #[trigger] w.hooks[i]),
        k < w.hooks.len() ==> root.claimable(w.event, w.hooks[k]),
    ensures
        ({
            let step = w.entering(root, index, payload);
            if k < w.hooks.len() {
                let hook = w.hooks[k];
                &&& step.root == root.claiming_hook(w.event, hook)
                &&& match hook.kind {
                    HookKind::Plain { callback, .. } => {
                        &&& step.action == WaterfallActionView::Mapper(
                            Invocation { id: hook.id, callback },
                            payload,
                        )
                        &&& step.chain.awaiting == Awaiting::Mapper(k as usize)
                        &&& step.chain.open == w.chain.open
                    },
                    HookKind::Around(callback) => {
                        &&& step.action == WaterfallActionView::Around(
                            Invocation { id: hook.id, callback },
                            payload,
                        )
                        &&& step.chain.awaiting is Around
                        &&& step.chain.open == w.chain.open.push(k as usize)
                    },
                }
            } else {
                &&& step.root == root
                &&& step.action == WaterfallActionView::Tail(payload)
                &&& step.chain.awaiting is Tail
                &&& step.chain.open == w.chain.open
            }
        }),
{
    law_a_dispatch_moves_forward(root, w.event, w.hooks, index);
    let at = root.next_hook(w.event, w.hooks, index);
    if at < k {
        assert(!root.claimable(w.event, w.hooks[at]));
    }
    if k < at {
        assert(!root.claimable(w.event, w.hooks[k]));
    }
}

/// What a Mapper of a waterfall returns is what the rest of it is entered with.
pub proof fn law_a_waterfall_hands_on_what_a_mapper_returns(
    w: WaterfallView,
    root: RootView,
    k: usize,
    payload: u64,
)
    requires
        w.wf(),
        w.chain.awaiting == Awaiting::Mapper(k),
    ensures
        w.step(root, ChainEventView::Returned(Ok(payload))) == w.entering(root, k + 1, payload),
{
}

/// What comes out of a waterfall is its result, and the dispatch is recorded as
/// completed, or as failed where it is a failure.
pub proof fn law_what_comes_out_completes_the_waterfall(
    w: WaterfallView,
    root: RootView,
    event: ChainEventView,
    result: ChainResultView,
)
    requires
        w.chain.step(event).next == ChainMoveView::Finish(result),
    ensures
        ({
            let step = w.step(root, event);
            match result {
                Ok(output) => {
                    &&& step.action == WaterfallActionView::Done(Ok(output))
                    &&& step.root == root.dispatched(
                        EventOperation::Waterfall,
                        w.event,
                        w.routing,
                        DispatchOutcomeKind::Completed,
                    )
                },
                Err(failure) => {
                    &&& step.action == WaterfallActionView::Done(
                        Err(DispatchErrorView::Invocation(failure)),
                    )
                    &&& step.root == root.dispatched(
                        EventOperation::Waterfall,
                        w.event,
                        w.routing,
                        DispatchOutcomeKind::Failed,
                    )
                },
            }
        }),
{
}

/// Control of an update goes on with the first selected listener from a position on
/// that is still registered, with the candidate as it is. Behind the last one the
/// candidate is accepted as it is where no listener is open around, and goes back to
/// the innermost one otherwise.
pub proof fn law_control_enters_the_next_registered_listener(
    control: ControlView,
    updates: UpdatesView,
    index: int,
    input: u64,
    k: int,
)
    requires
        control.wf(),
        0 <= index <= k <= control.hooks.len(),
        forall|i: int|
            index <= i < k ==> updates.find(
                control.contract,
                (#[trigger] control.hooks[i]).id,
            ) is None,
        k < control.hooks.len() ==> updates.find(control.contract, control.hooks[k].id) is Some,
    ensures
        ({
            let step = control.entering(updates, index, input);
            if k < control.hooks.len() {
                let hook = control.hooks[k];
                &&& step.action == (ControlActionView::Invoke { hook, input })
                &&& step.updates == updates.claiming(control.contract, hook.id)
                &&& step.control.reached == control.reached
                &&& match hook.kind {
                    UpdateKind::Mapper(_) => step.control.chain.awaiting == Awaiting::Mapper(
                        k as usize,
                    ),
                    UpdateKind::Around(_) => step.control.chain.open == control.chain.open.push(
                        k as usize,
                    ),
                }
            } else {
                &&& step.updates == updates
                &&& step.control.reached
                &&& step.action == (if control.chain.open.len() > 0 {
                    ControlActionView::Resume(Ok(input))
                } else {
                    ControlActionView::Done(
                        Ok(Some(PreparedChange { contract: control.contract, input })),
                    )
                })
            }
        }),
{
    lemma_next_claimable(updates, control.contract, control.hooks, index, k);
}

proof fn lemma_next_claimable(
    updates: UpdatesView,
    contract: ContractId,
    hooks: Seq<UpdateSnap>,
    index: int,
    k: int,
)
    requires
        0 <= index <= k <= hooks.len(),
        forall|i: int|
            index <= i < k ==> updates.find(contract, (#[trigger] hooks[i]).id) is None,
        k < hooks.len() ==> updates.find(contract, hooks[k].id) is Some,
    ensures
        next_claimable(updates, contract, hooks, index) == k,
    decreases k - index,
{
    if index < k {
        assert(updates.find(contract, hooks[index].id) is None);
        lemma_next_claimable(updates, contract, hooks, index + 1, k);
    }
}

/// What comes out of the control of an update decides it: a failure fails it; a
/// candidate is committed under the contract of the update where the tail was
/// reached, and vetoed where it was not.
pub proof fn law_what_comes_out_decides_an_update(
    control: ControlView,
    updates: UpdatesView,
    event: ChainEventView,
    result: ChainResultView,
)
    requires
        control.chain.step(event).next == ChainMoveView::Finish(result),
    ensures
        control.step(updates, event).action == ControlActionView::Done(
            match result {
                Err(failure) => Err(failure),
                Ok(input) => if control.reached {
                    Ok(Some(PreparedChange { contract: control.contract, input }))
                } else {
                    Ok(None)
                },
            },
        ),
        control.step(updates, event).updates == updates,
{
}

/// An update of a Fiber is controlled by exactly the listeners of its Plugin contract
/// that are global or whose position the Fiber's own lies beneath, in their order.
pub proof fn law_an_update_is_controlled_by_the_listeners_above(
    updates: UpdatesView,
    contract: ContractId,
    target: Seq<u64>,
    h: UpdateHookView,
)
    requires
        updates.listeners(contract).contains(h),
        h.options.global || in_reach(h.scope, target),
    ensures
        updates.snapshot(contract, target).contains(UpdateSnap { id: h.id, kind: h.kind }),
        updates.snapshot(contract, target).len() == updates.listeners(contract).filter(
            |x: UpdateHookView| x.options.global || in_reach(x.scope, target),
        ).len(),
{
    let list = updates.listeners(contract);
    let kept = list.filter(controls(target));
    lemma_filter_members(list, controls(target), h);
    let k = choose|k: int| 0 <= k < kept.len() && kept[k] == h;
    let snaps = updates.snapshot(contract, target);
    assert(snaps[k] == (UpdateSnap { id: h.id, kind: h.kind }));
    let direct = |x: UpdateHookView| x.options.global || in_reach(x.scope, target);
    assert(direct =~= controls(target));
}

} // verus!
