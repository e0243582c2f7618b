//! Runtime-local Event contract and listener storage.

use crate::event::{
    DispatchError, DispatchErrorView, EventContract, EventOperation, ListenerOptions, ListenerRole,
    Routing, RoutingView,
};
use crate::ids::ListenerRegistrationId;
use crate::scope::{clone_layer, in_reach, layer_chain, layer_in_reach, ScopeNode};
use crate::seqs::{
    first, first_index, is_first, lemma_filter_map_step, lemma_filter_step, lemma_first_absent,
    lemma_first_found,
};
use std::collections::HashMap;
use std::sync::Arc;
use vstd::prelude::*;
use vstd::std_specs::hash::group_hash_axioms;

verus! {

broadcast use group_hash_axioms;

/// What a listener does when it is invoked. Callbacks are named by the host.
#[derive(Clone, Copy, PartialEq, Eq, Structural, Debug)]
pub enum HookKind {
    /// An Observer, Responder or Mapper.
    Plain {
        /// The listener's role.
        role: ListenerRole,
        /// The host's name for the callback.
        callback: u64,
    },
    /// An Around listener.
    Around(u64),
}

impl HookKind {
    /// The listener's role.
    pub open spec fn spec_role(self) -> ListenerRole {
        match self {
            HookKind::Plain { role, .. } => role,
            HookKind::Around(_) => ListenerRole::Around,
        }
    }

    /// The listener's role.
    pub fn role(&self) -> (r: ListenerRole)
        ensures
            r == self.spec_role(),
    {
        match self {
            HookKind::Plain { role, .. } => *role,
            HookKind::Around(_) => ListenerRole::Around,
        }
    }
}

/// One registered listener.
pub struct Hook {
    /// The exact registration.
    pub id: ListenerRegistrationId,
    /// The position it was registered at.
    pub scope: Option<Arc<ScopeNode>>,
    /// The registration options.
    pub options: ListenerOptions,
    /// What the listener does.
    pub kind: HookKind,
}

/// A listener as a mathematical value.
pub struct HookView {
    pub id: ListenerRegistrationId,
    pub scope: Seq<u64>,
    pub options: ListenerOptions,
    pub kind: HookKind,
}

impl View for Hook {
    type V = HookView;

    open spec fn view(&self) -> HookView {
        HookView {
            id: self.id,
            scope: layer_chain(self.scope),
            options: self.options,
            kind: self.kind,
        }
    }
}

/// The views of a list of listeners.
pub open spec fn hook_views(hooks: Seq<Hook>) -> Seq<HookView> {
    hooks.map_values(|h: Hook| h@)
}

impl Hook {
    /// A snapshot of the listener.
    pub fn snap(&self) -> (r: Hook)
        ensures
            r@ == self@,
    {
        Hook {
            id: self.id,
            scope: clone_layer(&self.scope),
            options: self.options,
            kind: self.kind,
        }
    }

    /// Whether the listener takes part in a dispatch with this routing.
    pub fn eligible(&self, routing: &Routing) -> (r: bool)
        ensures
            r == eligible_for(routing@)(self@),
    {
        match routing {
            Routing::Unscoped => true,
            Routing::Scoped(scope) => self.options.is_global() || layer_in_reach(
                &self.scope,
                &scope.layer,
            ),
        }
    }
}

/// Whether a listener takes part in a dispatch with this routing: unscoped
/// routing filters nothing; scoped routing keeps globals and the listeners whose
/// position is the target's own or an ancestor's.
pub open spec fn eligible_for(routing: RoutingView) -> spec_fn(HookView) -> bool {
    |h: HookView|
        match routing {
            RoutingView::Unscoped => true,
            RoutingView::Scoped(scope) => h.options.global || in_reach(h.scope, scope.chain),
        }
}

/// Whether a listener's role is incompatible with an operation.
pub open spec fn misfit(operation: EventOperation) -> spec_fn(HookView) -> bool {
    |h: HookView| !operation.admits(h.kind.spec_role())
}

/// Whether a listener is the exact registration.
pub open spec fn is_hook(id: ListenerRegistrationId) -> spec_fn(HookView) -> bool {
    |h: HookView| h.id == id
}

/// Whether a listener is another registration.
pub open spec fn not_hook(id: ListenerRegistrationId) -> spec_fn(HookView) -> bool {
    |h: HookView| h.id != id
}

/// The listener an ordered identity stands for, while it is registered.
pub open spec fn entry_of(entries: Map<u64, Hook>) -> spec_fn(u64) -> Option<HookView> {
    |id: u64|
        if entries.contains_key(id) {
            Some(entries[id]@)
        } else {
            None
        }
}

/// The registered listeners in effective order.
pub open spec fn effective(order: Seq<u64>, entries: Map<u64, Hook>) -> Seq<HookView> {
    order.filter_map(entry_of(entries))
}

/// How many of `stale` unregistered identities a compaction beside `registered`
/// listeners leaves: all while they are few, and none once they are many.
pub open spec fn compacted(stale: nat, registered: nat) -> nat {
    if stale < 32 || stale < registered {
        stale
    } else {
        0
    }
}

/// The listeners of one Event: an order that may hold identities already
/// unregistered, and the registered entries.
pub struct EventHooks {
    order: Vec<u64>,
    entries: HashMap<u64, Hook>,
}

impl View for EventHooks {
    type V = Seq<HookView>;

    closed spec fn view(&self) -> Seq<HookView> {
        effective(self.order@, self.entries@)
    }
}

impl EventHooks {
    /// Every entry is ordered once, under its own identity.
    pub closed spec fn wf(&self) -> bool {
        &&& self.order@.no_duplicates()
        &&& forall|id: u64| #[trigger]
            self.entries@.contains_key(id) ==> self.order@.contains(id) && self.entries@[id].id.0
                == id
    }

    /// Every identity ever ordered is below `bound`.
    pub closed spec fn below(&self, bound: u64) -> bool {
        forall|i: int| 0 <= i < self.order@.len() ==> #[trigger] self.order@[i] < bound
    }

    /// How many unregistered identities still stand in the order.
    pub closed spec fn stale(&self) -> nat {
        (self.order@.len() - self.entries@.len()) as nat
    }

    /// No listeners.
    pub fn new() -> (r: EventHooks)
        ensures
            r.wf(),
            forall|b: u64| r.below(b),
            r@ == Seq::<HookView>::empty(),
            r.stale() == 0,
    {
        let r = EventHooks { order: Vec::new(), entries: HashMap::new() };
        proof {
            reveal(Seq::filter_map);
        }
        r
    }

    /// Registers a listener with a fresh identity, before or after the others.
    pub fn add(&mut self, hook: Hook)
        requires
            old(self).wf(),
            old(self).below(hook.id.0),
            hook.id.0 < u64::MAX,
        ensures
            final(self).wf(),
            final(self).below((hook.id.0 + 1) as u64),
            final(self)@ == (if hook.options.prepend {
                seq![hook@] + old(self)@
            } else {
                old(self)@.push(hook@)
            }),
            final(self).stale() == compacted(old(self).stale(), old(self)@.len()),
    {
        self.compact_if_sparse();
        proof {
            lemma_order_covers(self);
        }
        let ghost order = self.order@;
        let ghost entries = self.entries@;
        let id = hook.id.0;
        let prepend = hook.options.is_prepend();
        let ghost view = hook@;
        proof {
            assert(!order.contains(id)) by {
                if order.contains(id) {
                    let i = choose|i: int| 0 <= i < order.len() && order[i] == id;
                    assert(self.order@[i] < id);
                }
            }
            lemma_entry_elsewhere(order, entries, id, hook);
        }
        let _ = self.entries.insert(id, hook);
        if prepend {
            self.order.insert(0, id);
            proof {
                assert(self.order@ =~= seq![id] + order);
                lemma_effective_prepend(order, self.entries@, id);
                assert(self.entries@[id]@ == view);
            }
        } else {
            self.order.push(id);
            proof {
                let longer = order.push(id);
                assert(longer.take((order.len() + 1) as int) =~= longer);
                assert(longer.take(order.len() as int) =~= order);
                lemma_filter_map_step(longer, entry_of(self.entries@), order.len() as int);
                assert(self.entries@[id]@ == view);
            }
        }
        proof {
            assert(self.wf()) by {
                assert forall|k: u64| #[trigger] self.entries@.contains_key(k) implies
                    self.order@.contains(k) && self.entries@[k].id.0 == k by {
                    if k == id {
                        if prepend {
                            assert(self.order@[0] == id);
                        } else {
                            assert(self.order@[order.len() as int] == id);
                        }
                    } else {
                        assert(entries.contains_key(k));
                        let i = choose|i: int| 0 <= i < order.len() && order[i] == k;
                        if prepend {
                            assert(self.order@[i + 1] == k);
                        } else {
                            assert(self.order@[i] == k);
                        }
                    }
                }
                assert(self.order@.no_duplicates()) by {
                    assert forall|i: int, j: int|
                        0 <= i < self.order@.len() && 0 <= j < self.order@.len() && i
                            != j implies self.order@[i] != self.order@[j] by {
                        if prepend {
                            if i > 0 {
                                assert(self.order@[i] == order[i - 1]);
                            }
                            if j > 0 {
                                assert(self.order@[j] == order[j - 1]);
                            }
                        }
                    }
                }
            }
            assert forall|i: int| 0 <= i < self.order@.len() implies #[trigger] self.order@[i] < (id
                + 1) as u64 by {
                if prepend && i > 0 {
                    assert(self.order@[i] == order[i - 1]);
                }
            }
        }
    }

    /// Unregisters a listener; its identity may stay in the order.
    pub fn remove(&mut self, id: ListenerRegistrationId) -> (r: Option<Hook>)
        requires
            old(self).wf(),
        ensures
            final(self).wf(),
            forall|b: u64| old(self).below(b) ==> final(self).below(b),
            match r {
                Some(hook) => first(old(self)@, is_hook(id)) == Some(hook@),
                None => first(old(self)@, is_hook(id)) is None,
            },
            final(self)@ == old(self)@.filter(not_hook(id)),
            final(self).stale() == old(self).stale() + (if r is Some {
                1nat
            } else {
                0nat
            }),
    {
        proof {
            lemma_order_covers(self);
            lemma_find(self, id);
            lemma_effective_remove(self.order@, self.entries@, id.0);
        }
        let removed = self.entries.remove(&id.0);
        assert(self.entries@ =~= old(self).entries@.remove(id.0));
        removed
    }

    /// The listener of an exact registration.
    pub fn get(&self, id: ListenerRegistrationId) -> (r: Option<&Hook>)
        requires
            self.wf(),
        ensures
            match r {
                Some(hook) => first(self@, is_hook(id)) == Some(hook@),
                None => first(self@, is_hook(id)) is None,
            },
    {
        proof {
            lemma_find(self, id);
        }
        self.entries.get(&id.0)
    }

    /// Drops unregistered identities from the order once they are many: at least
    /// 32, and no fewer than the registered ones. The effective order stays; while
    /// they are few, nothing changes.
    pub fn compact_if_sparse(&mut self)
        requires
            old(self).wf(),
        ensures
            final(self).wf(),
            forall|b: u64| old(self).below(b) ==> final(self).below(b),
            final(self)@ == old(self)@,
            final(self).stale() == compacted(old(self).stale(), old(self)@.len()),
            final(self).stale() < 32 || final(self).stale() < final(self)@.len(),
            (old(self).stale() < 32 || old(self).stale() < old(self)@.len()) ==> *final(self)
                == *old(self),
    {
        proof {
            lemma_order_covers(self);
            lemma_effective_len(self);
        }
        let stale: usize = self.order.len() - self.entries.len();
        if stale < 32 || stale < self.entries.len() {
            return ;
        }
        let ghost order = self.order@;
        let ghost live = |id: u64| self.entries@.contains_key(id);
        let mut kept: Vec<u64> = Vec::new();
        let mut i: usize = 0;
        proof {
            assert(order.take(0) =~= Seq::empty());
            reveal(Seq::filter);
        }
        while i < self.order.len()
            invariant
                i <= order.len(),
                order == self.order@,
                self.entries@ == old(self).entries@,
                live == (|id: u64| self.entries@.contains_key(id)),
                kept@ == order.take(i as int).filter(live),
            decreases order.len() - i,
        {
            proof {
                lemma_filter_step(order, live, i as int);
            }
            if self.entries.contains_key(&self.order[i]) {
                kept.push(self.order[i]);
            }
            i = i + 1;
        }
        self.order = kept;
        proof {
            assert(order.take(i as int) =~= order);
            lemma_effective_compact(order, self.entries@);
            assert forall|x: u64| #![trigger self.order@.contains(x)]
                self.order@.contains(x) == (order.contains(x) && self.entries@.contains_key(
                x,
            )) by {
                crate::seqs::lemma_filter_members(order, live, x);
            }
            lemma_filter_no_duplicates(order, live);
            lemma_live_order_len(self.order@, self.entries@);
            assert forall|b: u64| old(self).below(b) implies self.below(b) by {
                assert forall|k: int| 0 <= k < self.order@.len() implies #[trigger] self.order@[k]
                    < b by {
                    assert(self.order@.contains(self.order@[k]));
                    let n = choose|n: int| 0 <= n < order.len() && order[n] == self.order@[k];
                    assert(old(self).order@[n] < b);
                }
            }
        }
    }

    /// Whether no listener is registered.
    pub fn is_empty(&self) -> (r: bool)
        requires
            self.wf(),
        ensures
            r == (self@.len() == 0),
    {
        proof {
            lemma_empty(self);
        }
        self.entries.len() == 0
    }

    /// The registered listeners in effective order.
    pub fn iter(&self) -> (r: Vec<&Hook>)
        ensures
            r@.map_values(|h: &Hook| h@) == self@,
    {
        let ghost f = entry_of(self.entries@);
        let ghost order = self.order@;
        let mut out: Vec<&Hook> = Vec::new();
        let mut i: usize = 0;
        proof {
            assert(order.take(0) =~= Seq::empty());
            reveal(Seq::filter_map);
            assert(out@.map_values(|h: &Hook| h@) =~= order.take(0).filter_map(f));
        }
        while i < self.order.len()
            invariant
                i <= order.len(),
                order == self.order@,
                f == entry_of(self.entries@),
                out@.map_values(|h: &Hook| h@) == order.take(i as int).filter_map(f),
            decreases order.len() - i,
        {
            proof {
                lemma_filter_map_step(order, f, i as int);
            }
            match self.entries.get(&self.order[i]) {
                Some(hook) => {
                    assert(out@.push(hook).map_values(|h: &Hook| h@) =~= out@.map_values(
                        |h: &Hook| h@,
                    ).push(hook@));
                    out.push(hook);
                },
                None => {},
            }
            i = i + 1;
        }
        assert(order.take(i as int) =~= order);
        out
    }
}

proof fn lemma_filter_map_same<A, B>(
    s: Seq<A>,
    f: spec_fn(A) -> Option<B>,
    g: spec_fn(A) -> Option<B>,
)
    requires
        forall|i: int| 0 <= i < s.len() ==> f(#[trigger] s[i]) == g(s[i]),
    ensures
        s.filter_map(f) == s.filter_map(g),
    decreases s.len(),
{
    reveal(Seq::filter_map);
    if s.len() > 0 {
        let t = s.drop_last();
        assert forall|i: int| 0 <= i < t.len() implies f(#[trigger] t[i]) == g(t[i]) by {
            assert(t[i] == s[i]);
        }
        lemma_filter_map_same(t, f, g);
        assert(f(s[s.len() - 1]) == g(s[s.len() - 1]));
    }
}

/// An entry under an identity the order does not hold leaves the effective order.
proof fn lemma_entry_elsewhere(order: Seq<u64>, entries: Map<u64, Hook>, id: u64, hook: Hook)
    requires
        !order.contains(id),
    ensures
        effective(order, entries.insert(id, hook)) == effective(order, entries),
{
    assert forall|i: int| 0 <= i < order.len() implies entry_of(entries.insert(id, hook))(
        #[trigger] order[i],
    ) == entry_of(entries)(order[i]) by {
        assert(order.contains(order[i]));
    }
    lemma_filter_map_same(order, entry_of(entries.insert(id, hook)), entry_of(entries));
}

proof fn lemma_effective_prepend(order: Seq<u64>, entries: Map<u64, Hook>, id: u64)
    requires
        entries.contains_key(id),
    ensures
        effective(seq![id] + order, entries) == seq![entries[id]@] + effective(order, entries),
    decreases order.len(),
{
    let f = entry_of(entries);
    let whole = seq![id] + order;
    if order.len() == 0 {
        assert(whole =~= seq![id]);
        assert(whole.take(1) =~= whole);
        assert(whole.take(0) =~= Seq::empty());
        lemma_filter_map_step(whole, f, 0);
        reveal(Seq::filter_map);
        assert(effective(whole, entries) =~= seq![entries[id]@] + effective(order, entries));
    } else {
        let shorter = order.drop_last();
        lemma_effective_prepend(shorter, entries, id);
        let n = whole.len() - 1;
        assert(whole.take(n + 1) =~= whole);
        assert(whole.take(n) =~= seq![id] + shorter);
        lemma_filter_map_step(whole, f, n);
        assert(order.take(order.len() as int) =~= order);
        assert(order.take(order.len() - 1) =~= shorter);
        lemma_filter_map_step(order, f, order.len() - 1);
        assert(whole[n] == order.last());
        assert(effective(whole, entries) =~= seq![entries[id]@] + effective(order, entries));
    }
}

proof fn lemma_effective_remove(order: Seq<u64>, entries: Map<u64, Hook>, id: u64)
    requires
        forall|k: u64| #[trigger] entries.contains_key(k) ==> entries[k].id.0 == k,
    ensures
        effective(order, entries.remove(id)) == effective(order, entries).filter(
            not_hook(ListenerRegistrationId(id)),
        ),
    decreases order.len(),
{
    let p = not_hook(ListenerRegistrationId(id));
    reveal(Seq::filter);
    reveal(Seq::filter_map);
    if order.len() > 0 {
        let n = order.len() - 1;
        let shorter = order.drop_last();
        lemma_effective_remove(shorter, entries, id);
        assert(order.take(n + 1) =~= order);
        assert(order.take(n) =~= shorter);
        lemma_filter_map_step(order, entry_of(entries), n);
        lemma_filter_map_step(order, entry_of(entries.remove(id)), n);
        let rest = effective(shorter, entries);
        match entry_of(entries)(order[n]) {
            Some(h) => {
                assert(h.id.0 == order[n]);
                let longer = rest.push(h);
                assert(longer.drop_last() =~= rest);
                assert(longer.last() == h);
                assert(p(h) == (order[n] != id));
            },
            None => {},
        }
    }
}

proof fn lemma_effective_compact(order: Seq<u64>, entries: Map<u64, Hook>)
    ensures
        effective(order.filter(|id: u64| entries.contains_key(id)), entries) == effective(
            order,
            entries,
        ),
    decreases order.len(),
{
    let live = |id: u64| entries.contains_key(id);
    let f = entry_of(entries);
    reveal(Seq::filter);
    reveal(Seq::filter_map);
    if order.len() > 0 {
        let n = order.len() - 1;
        let shorter = order.drop_last();
        lemma_effective_compact(shorter, entries);
        assert(order.take(n + 1) =~= order);
        assert(order.take(n) =~= shorter);
        lemma_filter_map_step(order, f, n);
        if live(order[n]) {
            let kept = shorter.filter(live);
            let longer = kept.push(order[n]);
            assert(order.filter(live) == longer);
            assert(longer.take((kept.len() + 1) as int) =~= longer);
            assert(longer.take(kept.len() as int) =~= kept);
            lemma_filter_map_step(longer, f, kept.len() as int);
        }
    }
}

proof fn lemma_filter_no_duplicates(order: Seq<u64>, p: spec_fn(u64) -> bool)
    requires
        order.no_duplicates(),
    ensures
        order.filter(p).no_duplicates(),
    decreases order.len(),
{
    reveal(Seq::filter);
    if order.len() > 0 {
        let shorter = order.drop_last();
        lemma_filter_no_duplicates(shorter, p);
        let kept = shorter.filter(p);
        let x = order.last();
        crate::seqs::lemma_filter_members(shorter, p, x);
        assert(!shorter.contains(x)) by {
            if shorter.contains(x) {
                let i = choose|i: int| 0 <= i < shorter.len() && shorter[i] == x;
                assert(order[i] == order[order.len() - 1]);
            }
        }
        if p(x) {
            let longer = kept.push(x);
            assert forall|i: int, j: int|
                0 <= i < longer.len() && 0 <= j < longer.len() && i != j implies longer[i]
                != longer[j] by {
                if i == kept.len() {
                    assert(kept.contains(kept[j]));
                } else if j == kept.len() {
                    assert(kept.contains(kept[i]));
                }
            }
        }
    }
}

proof fn lemma_order_covers(hooks: &EventHooks)
    requires
        hooks.wf(),
    ensures
        hooks.entries@.len() <= hooks.order@.len(),
        hooks.entries@.dom().finite(),
{
    let ids = hooks.order@.to_set();
    vstd::seq_lib::seq_to_set_is_finite(hooks.order@);
    assert(hooks.entries@.dom().subset_of(ids)) by {
        assert forall|id: u64| hooks.entries@.dom().contains(id) implies ids.contains(id) by {
            assert(hooks.entries@.contains_key(id));
        }
    }
    vstd::set_lib::lemma_len_subset(hooks.entries@.dom(), ids);
    hooks.order@.lemma_cardinality_of_set();
}

/// An order that holds exactly the entries' identities, each once, is as long as
/// the entries are many.
proof fn lemma_live_order_len(order: Seq<u64>, entries: Map<u64, Hook>)
    requires
        order.no_duplicates(),
        forall|x: u64| #[trigger] order.contains(x) == entries.contains_key(x),
    ensures
        order.len() == entries.len(),
{
    order.unique_seq_to_set();
    assert(order.to_set() =~= entries.dom()) by {
        assert forall|x: u64| order.to_set().contains(x) == entries.dom().contains(x) by {
            assert(order.contains(x) == entries.contains_key(x));
        }
    }
}

/// The effective order is as long as the entries are many.
proof fn lemma_effective_len(hooks: &EventHooks)
    requires
        hooks.wf(),
    ensures
        hooks@.len() == hooks.entries@.len(),
{
    let order = hooks.order@;
    let entries = hooks.entries@;
    let live = |id: u64| entries.contains_key(id);
    let kept = order.filter(live);
    lemma_effective_compact(order, entries);
    lemma_filter_no_duplicates(order, live);
    assert forall|x: u64| #[trigger] kept.contains(x) == entries.contains_key(x) by {
        crate::seqs::lemma_filter_members(order, live, x);
        if entries.contains_key(x) {
            assert(order.contains(x));
        }
    }
    lemma_live_order_len(kept, entries);
    lemma_effective_total(kept, entries);
}

/// An order of registered identities only is as long as its effective order.
proof fn lemma_effective_total(order: Seq<u64>, entries: Map<u64, Hook>)
    requires
        forall|x: u64| #[trigger] order.contains(x) ==> entries.contains_key(x),
    ensures
        effective(order, entries).len() == order.len(),
    decreases order.len(),
{
    reveal(Seq::filter_map);
    if order.len() > 0 {
        let shorter = order.drop_last();
        assert forall|x: u64| #[trigger] shorter.contains(x) implies entries.contains_key(x) by {
            let i = choose|i: int| 0 <= i < shorter.len() && shorter[i] == x;
            assert(order[i] == x);
            assert(order.contains(x));
        }
        lemma_effective_total(shorter, entries);
        let n = order.len() - 1;
        assert(order.take(n + 1) =~= order);
        assert(order.take(n) =~= shorter);
        lemma_filter_map_step(order, entry_of(entries), n);
        assert(order.contains(order[n]));
    }
}

/// The effective order holds exactly the registered listeners.
proof fn lemma_find(hooks: &EventHooks, id: ListenerRegistrationId)
    requires
        hooks.wf(),
    ensures
        match first(hooks@, is_hook(id)) {
            Some(h) => hooks.entries@.contains_key(id.0) && h == hooks.entries@[id.0]@,
            None => !hooks.entries@.contains_key(id.0),
        },
{
    let f = entry_of(hooks.entries@);
    crate::seqs::lemma_first_meets(hooks@, is_hook(id));
    match first_index(hooks@, is_hook(id)) {
        Some(i) => {
            let h = hooks@[i];
            assert(hooks@.contains(h));
            crate::seqs::lemma_filter_map_members(hooks.order@, f, h);
            let k = choose|k: int|
                0 <= k < hooks.order@.len() && f(#[trigger] hooks.order@[k]) == Some(h);
            assert(hooks.entries@.contains_key(hooks.order@[k]));
        },
        None => {
            if hooks.entries@.contains_key(id.0) {
                let h = hooks.entries@[id.0]@;
                let k = choose|k: int| 0 <= k < hooks.order@.len() && hooks.order@[k] == id.0;
                assert(f(hooks.order@[k]) == Some(h));
                crate::seqs::lemma_filter_map_members(hooks.order@, f, h);
                let i = choose|i: int| 0 <= i < hooks@.len() && hooks@[i] == h;
                assert(is_hook(id)(hooks@[i]));
            }
        },
    }
}

proof fn lemma_empty(hooks: &EventHooks)
    requires
        hooks.wf(),
    ensures
        (hooks.entries@.len() == 0) == (hooks@.len() == 0),
{
    lemma_order_covers(hooks);
    let f = entry_of(hooks.entries@);
    if hooks@.len() > 0 {
        let h = hooks@[0];
        assert(hooks@.contains(h));
        crate::seqs::lemma_filter_map_members(hooks.order@, f, h);
        let k = choose|k: int|
            0 <= k < hooks.order@.len() && f(#[trigger] hooks.order@[k]) == Some(h);
        assert(hooks.entries@.dom().contains(hooks.order@[k]));
        if hooks.entries@.len() == 0 {
            assert(hooks.entries@.dom() =~= Set::empty());
        }
    } else if hooks.entries@.len() > 0 {
        let id = hooks.entries@.dom().choose();
        assert(hooks.entries@.dom().contains(id)) by {
            if hooks.entries@.dom() =~= Set::empty() {
                assert(hooks.entries@.dom().len() == 0);
            }
        }
        assert(hooks.entries@.contains_key(id));
        let k = choose|k: int| 0 <= k < hooks.order@.len() && hooks.order@[k] == id;
        assert(f(hooks.order@[k]) == Some(hooks.entries@[id]@));
        crate::seqs::lemma_filter_map_members(hooks.order@, f, hooks.entries@[id]@);
    }
}

/// The name is bound to an incompatible contract.
#[derive(Clone, Copy, PartialEq, Eq, Structural, Debug)]
pub struct EventContractMismatch;

/// Whether a binding is for `name`.
pub open spec fn binds_event(name: Seq<char>) -> spec_fn((Seq<char>, EventContract)) -> bool {
    |row: (Seq<char>, EventContract)| row.0 == name
}

/// Whether a listener list is for `name`.
pub open spec fn lists(name: Seq<char>) -> spec_fn((Seq<char>, Seq<HookView>)) -> bool {
    |row: (Seq<char>, Seq<HookView>)| row.0 == name
}

/// Event contract bindings and registered listeners.
pub struct EventStore {
    contracts: Vec<(String, EventContract)>,
    hooks: Vec<(String, EventHooks)>,
}

/// The Event store as a mathematical value.
#[verifier::ext_equal]
pub struct EventsView {
    /// Each Event name's one contract, in the order they were bound.
    pub contracts: Seq<(Seq<char>, EventContract)>,
    /// The listeners of each Event that has some, in effective order.
    pub hooks: Seq<(Seq<char>, Seq<HookView>)>,
}

impl View for EventStore {
    type V = EventsView;

    closed spec fn view(&self) -> EventsView {
        EventsView {
            contracts: self.contracts@.map_values(|row: (String, EventContract)| (row.0@, row.1)),
            hooks: self.hooks@.map_values(|row: (String, EventHooks)| (row.0@, row.1@)),
        }
    }
}

impl EventsView {
    /// Every Event with listeners is listed once, and no list is empty.
    pub open spec fn wf(self) -> bool {
        &&& forall|i: int, j: int|
            0 <= i < j < self.hooks.len() ==> (#[trigger] self.hooks[i]).0 != (
            #[trigger] self.hooks[j]).0
        &&& forall|i: int| 0 <= i < self.hooks.len() ==> (#[trigger] self.hooks[i]).1.len() > 0
    }

    /// A store with nothing bound and no listeners.
    pub open spec fn empty() -> EventsView {
        EventsView { contracts: Seq::empty(), hooks: Seq::empty() }
    }

    /// The contract `name` is bound to.
    pub open spec fn bound(self, name: Seq<char>) -> Option<EventContract> {
        match first(self.contracts, binds_event(name)) {
            Some(row) => Some(row.1),
            None => None,
        }
    }

    /// Whether `name` is free for, or bound to, `contract`.
    pub open spec fn compatible(self, name: Seq<char>, contract: EventContract) -> bool {
        match self.bound(name) {
            Some(c) => c == contract,
            None => true,
        }
    }

    /// The store with `name` bound to `contract`, unless it is bound already.
    pub open spec fn binding(self, name: Seq<char>, contract: EventContract) -> EventsView {
        match self.bound(name) {
            Some(_) => self,
            None => EventsView { contracts: self.contracts.push((name, contract)), ..self },
        }
    }

    /// The listeners of `name`, in effective order.
    pub open spec fn listeners(self, name: Seq<char>) -> Seq<HookView> {
        match first(self.hooks, lists(name)) {
            Some(row) => row.1,
            None => Seq::empty(),
        }
    }

    /// The store with exactly `list` as the listeners of `name`; an Event without
    /// listeners is not listed.
    pub open spec fn listing(self, name: Seq<char>, list: Seq<HookView>) -> EventsView {
        match first_index(self.hooks, lists(name)) {
            Some(i) => EventsView {
                hooks: if list.len() == 0 {
                    self.hooks.remove(i)
                } else {
                    self.hooks.update(i, (name, list))
                },
                ..self
            },
            None => EventsView {
                hooks: if list.len() == 0 {
                    self.hooks
                } else {
                    self.hooks.push((name, list))
                },
                ..self
            },
        }
    }

    /// The store with `hook` registered for `name`.
    pub open spec fn adding(self, name: Seq<char>, hook: HookView) -> EventsView {
        let list = self.listeners(name);
        self.listing(
            name,
            if hook.options.prepend {
                seq![hook] + list
            } else {
                list.push(hook)
            },
        )
    }

    /// The exact listener of `name`, while it is registered.
    pub open spec fn find(self, name: Seq<char>, id: ListenerRegistrationId) -> Option<HookView> {
        first(self.listeners(name), is_hook(id))
    }

    /// The store with the exact listener unregistered.
    pub open spec fn removing(self, name: Seq<char>, id: ListenerRegistrationId) -> EventsView {
        match self.find(name, id) {
            Some(_) => self.listing(name, self.listeners(name).filter(not_hook(id))),
            None => self,
        }
    }

    /// What a claim of the exact listener answers: whether it is claimed, and
    /// whether the claim unregisters it.
    pub open spec fn claimed(self, name: Seq<char>, id: ListenerRegistrationId) -> (bool, bool) {
        match self.find(name, id) {
            Some(h) => (true, h.options.once),
            None => (false, false),
        }
    }

    /// The store after `n` claims of the exact listener.
    pub open spec fn claims(self, name: Seq<char>, id: ListenerRegistrationId, n: nat) -> EventsView
        decreases n,
    {
        if n == 0 {
            self
        } else {
            self.claims(name, id, (n - 1) as nat).claiming(name, id)
        }
    }

    /// The store after the exact listener was claimed for one invocation: a
    /// one-time listener is unregistered.
    pub open spec fn claiming(self, name: Seq<char>, id: ListenerRegistrationId) -> EventsView {
        match self.find(name, id) {
            Some(h) => if h.options.once {
                self.removing(name, id)
            } else {
                self
            },
            None => self,
        }
    }

    /// The listeners of `name` that take part in a dispatch.
    pub open spec fn eligible(self, name: Seq<char>, routing: RoutingView) -> Seq<HookView> {
        self.listeners(name).filter(eligible_for(routing))
    }

    /// What the preflight of a dispatch answers.
    pub open spec fn preflight(
        self,
        name: Seq<char>,
        contract: EventContract,
        routing: RoutingView,
        operation: EventOperation,
    ) -> Result<Seq<HookView>, DispatchErrorView> {
        if !self.compatible(name, contract) {
            Err(DispatchErrorView::EventContractMismatch { event: name })
        } else {
            let selected = self.eligible(name, routing);
            match first(selected, misfit(operation)) {
                Some(h) => Err(
                    DispatchErrorView::IncompatibleRole { operation, role: h.kind.spec_role() },
                ),
                None => Ok(selected),
            }
        }
    }
}

impl EventStore {
    /// Every Event with listeners is listed once; every list is consistent and
    /// never empty.
    pub closed spec fn wf(&self) -> bool {
        &&& self@.wf()
        &&& forall|i: int| 0 <= i < self.hooks@.len() ==> (#[trigger] self.hooks@[i]).1.wf()
    }

    /// A consistent store lists each Event with listeners once, and no empty list.
    pub proof fn law_a_store_lists_each_event_once(&self)
        requires
            self.wf(),
        ensures
            self@.wf(),
    {
    }

    /// Every identity ever registered is below `bound`.
    pub closed spec fn below(&self, bound: u64) -> bool {
        forall|i: int| 0 <= i < self.hooks@.len() ==> (#[trigger] self.hooks@[i]).1.below(bound)
    }

    /// How many unregistered identities still stand in the order of `name`.
    pub closed spec fn stale(&self, name: Seq<char>) -> nat {
        match first_index(self@.hooks, lists(name)) {
            Some(i) => self.hooks@[i].1.stale(),
            None => 0,
        }
    }

    /// An identity bound can be raised.
    pub proof fn lemma_below_more(&self, bound: u64, more: u64)
        requires
            self.below(bound),
            bound <= more,
        ensures
            self.below(more),
    {
        assert forall|i: int| 0 <= i < self.hooks@.len() implies (
        #[trigger] self.hooks@[i]).1.below(more) by {
            let h = self.hooks@[i].1;
            assert(h.below(bound));
            assert forall|k: int| 0 <= k < h.order@.len() implies #[trigger] h.order@[k] < more by {
                assert(h.order@[k] < bound);
            }
        }
    }

    /// A store with nothing bound and no listeners.
    pub fn new() -> (r: EventStore)
        ensures
            r.wf(),
            forall|b: u64| r.below(b),
            r@ == EventsView::empty(),
    {
        let r = EventStore { contracts: Vec::new(), hooks: Vec::new() };
        assert(r@ =~= EventsView::empty());
        r
    }

    /// The contract `name` is bound to.
    pub fn contract(&self, name: &String) -> (r: Option<EventContract>)
        ensures
            r == self@.bound(name@),
    {
        let ghost rows = self@.contracts;
        let mut i: usize = 0;
        while i < self.contracts.len()
            invariant
                i <= self.contracts@.len(),
                rows == self@.contracts,
                forall|j: int| 0 <= j < i ==> (#[trigger] rows[j]).0 != name@,
            decreases self.contracts@.len() - i,
        {
            assert(rows[i as int] == (self.contracts@[i as int].0@, self.contracts@[i as int].1));
            if self.contracts[i].0 == *name {
                proof {
                    assert(is_first(rows, binds_event(name@), i as int));
                    lemma_first_found(rows, binds_event(name@), i as int);
                }
                return Some(self.contracts[i].1);
            }
            i = i + 1;
        }
        proof {
            lemma_first_absent(rows, binds_event(name@));
        }
        None
    }

    /// Binds `name` to `contract`, unless it is bound already; refuses a name
    /// bound to another contract.
    pub fn bind(&mut self, name: &String, contract: EventContract) -> (r: Result<
        (),
        EventContractMismatch,
    >)
        requires
            old(self).wf(),
        ensures
            r is Ok == old(self)@.compatible(name@, contract),
            final(self)@ == old(self)@.binding(name@, contract),
            final(self).wf(),
            forall|b: u64| old(self).below(b) ==> final(self).below(b),
            forall|n: Seq<char>| final(self).stale(n) == old(self).stale(n),
    {
        match self.contract(name) {
            Some(bound) => {
                if bound == contract {
                    Ok(())
                } else {
                    Err(EventContractMismatch)
                }
            },
            None => {
                self.contracts.push((name.clone(), contract));
                assert(self@.contracts =~= old(self)@.contracts.push((name@, contract)));
                assert(self@.hooks =~= old(self)@.hooks);
                assert(self.hooks == old(self).hooks);
                Ok(())
            },
        }
    }

    /// The position of the listener list of `name`.
    fn position(&self, name: &String) -> (r: Option<usize>)
        ensures
            match r {
                Some(i) => i < self.hooks@.len() && first_index(self@.hooks, lists(name@)) == Some(
                    i as int,
                ) && self.hooks@[i as int].0@ == name@ && self@.listeners(name@)
                    == self.hooks@[i as int].1@,
                None => first_index(self@.hooks, lists(name@)) is None && self@.listeners(name@)
                    == Seq::<HookView>::empty(),
            },
    {
        let ghost rows = self@.hooks;
        let mut i: usize = 0;
        while i < self.hooks.len()
            invariant
                i <= self.hooks@.len(),
                rows == self@.hooks,
                forall|j: int| 0 <= j < i ==> (#[trigger] rows[j]).0 != name@,
            decreases self.hooks@.len() - i,
        {
            assert(rows[i as int] == (self.hooks@[i as int].0@, self.hooks@[i as int].1@));
            if self.hooks[i].0 == *name {
                proof {
                    assert(is_first(rows, lists(name@), i as int));
                    lemma_first_found(rows, lists(name@), i as int);
                }
                return Some(i);
            }
            i = i + 1;
        }
        proof {
            lemma_first_absent(rows, lists(name@));
        }
        None
    }

    /// Registers a listener with a fresh identity, binding the name if it is
    /// free.
    pub fn add_reserved(&mut self, name: &String, contract: EventContract, hook: Hook) -> (r:
        Result<(), EventContractMismatch>)
        requires
            old(self).wf(),
            old(self).below(hook.id.0),
            hook.id.0 < u64::MAX,
        ensures
            r is Ok == old(self)@.compatible(name@, contract),
            final(self)@ == (if old(self)@.compatible(name@, contract) {
                old(self)@.binding(name@, contract).adding(name@, hook@)
            } else {
                old(self)@.binding(name@, contract)
            }),
            final(self).wf(),
            final(self).below((hook.id.0 + 1) as u64),
            r is Ok ==> final(self).stale(name@) == compacted(
                old(self).stale(name@),
                old(self)@.listeners(name@).len(),
            ),
    {
        let bound = self.bind(name, contract);
        let ghost more = (hook.id.0 + 1) as u64;
        proof {
            self.lemma_below_more(hook.id.0, more);
        }
        match bound {
            Err(e) => Err(e),
            Ok(_) => {
                let ghost before = *self;
                proof {
                    let list = before@.listeners(name@);
                    lemma_listing_wf(before@, name@, if hook.options.prepend {
                        seq![hook@] + list
                    } else {
                        list.push(hook@)
                    });
                }
                match self.position(name) {
                    Some(i) => {
                        self.hooks[i].1.add(hook);
                        proof {
                            assert(self@.hooks =~= before@.hooks.update(
                                i as int,
                                (name@, self.hooks@[i as int].1@),
                            ));
                            assert(self@.contracts =~= before@.contracts);
                            lemma_still_first(before@.hooks, self@.hooks, name@, i as int);
                            assert forall|k: int| 0 <= k < self.hooks@.len() implies (
                            #[trigger] self.hooks@[k]).1.wf() && self.hooks@[k].1.below(more) by {
                                if k != i {
                                    assert(self.hooks@[k] == before.hooks@[k]);
                                }
                            }
                        }
                    },
                    None => {
                        let mut list = EventHooks::new();
                        list.add(hook);
                        let key = name.clone();
                        self.hooks.push((key, list));
                        proof {
                            assert(list@ =~= (if hook.options.prepend {
                                seq![hook@] + Seq::<HookView>::empty()
                            } else {
                                Seq::<HookView>::empty().push(hook@)
                            }));
                            assert(self@.hooks =~= before@.hooks.push((name@, list@)));
                            assert(self@.contracts =~= before@.contracts);
                            lemma_still_first(
                                before@.hooks,
                                self@.hooks,
                                name@,
                                before@.hooks.len() as int,
                            );
                            assert forall|k: int| 0 <= k < self.hooks@.len() implies (
                            #[trigger] self.hooks@[k]).1.wf() && self.hooks@[k].1.below(more) by {
                                if k < before.hooks@.len() {
                                    assert(self.hooks@[k] == before.hooks@[k]);
                                }
                            }
                        }
                    },
                }
                Ok(())
            },
        }
    }

    /// Unregisters an exact listener; says whether it was registered.
    pub fn remove(&mut self, name: &String, id: ListenerRegistrationId) -> (r: bool)
        requires
            old(self).wf(),
        ensures
            r == (old(self)@.find(name@, id) is Some),
            final(self)@ == old(self)@.removing(name@, id),
            final(self).wf(),
            forall|b: u64| old(self).below(b) ==> final(self).below(b),
            final(self).stale(name@) == (if final(self)@.listeners(name@).len() == 0 {
                0
            } else if r {
                old(self).stale(name@) + 1
            } else {
                old(self).stale(name@)
            }),
    {
        let ghost before = *self;
        proof {
            crate::seqs::lemma_first_meets(Seq::<HookView>::empty(), is_hook(id));
            lemma_listing_wf(before@, name@, before@.listeners(name@).filter(not_hook(id)));
        }
        match self.position(name) {
            None => false,
            Some(i) => {
                let removed = self.hooks[i].1.remove(id);
                if removed.is_none() {
                    proof {
                        lemma_filter_absent(before.hooks@[i as int].1@, id);
                        assert(self@.hooks =~= before@.hooks);
                        assert(self@.contracts =~= before@.contracts);
                        assert forall|k: int| 0 <= k < self.hooks@.len() && k != i implies
                            #[trigger] self.hooks@[k] == before.hooks@[k] by {}
                        assert forall|b: u64| before.below(b) implies self.below(b) by {
                            assert forall|k: int| 0 <= k < self.hooks@.len() implies (
                            #[trigger] self.hooks@[k]).1.below(b) by {
                                assert(before.hooks@[k].1.below(b));
                            }
                        }
                    }
                    return false;
                }
                let ghost list = self.hooks@[i as int].1@;
                if self.hooks[i].1.is_empty() {
                    let ghost middle = *self;
                    let _ = self.hooks.remove(i);
                    proof {
                        assert(self@.hooks =~= before@.hooks.remove(i as int));
                        assert(self@.contracts =~= before@.contracts);
                        assert forall|k: int| 0 <= k < self.hooks@.len() implies (
                        #[trigger] self.hooks@[k]) == before.hooks@[if k < i {
                            k
                        } else {
                            k + 1
                        }] by {}
                        assert forall|b: u64| before.below(b) implies self.below(b) by {
                            assert forall|k: int| 0 <= k < self.hooks@.len() implies (
                            #[trigger] self.hooks@[k]).1.below(b) by {
                                let n = if k < i {
                                    k
                                } else {
                                    k + 1
                                };
                                assert(before.hooks@[n].1.below(b));
                            }
                        }
                    }
                } else {
                    proof {
                        assert(self@.hooks =~= before@.hooks.update(i as int, (name@, list)));
                        assert(self@.contracts =~= before@.contracts);
                        assert forall|k: int| 0 <= k < self.hooks@.len() && k != i implies
                            #[trigger] self.hooks@[k] == before.hooks@[k] by {}
                        assert forall|b: u64| before.below(b) implies self.below(b) by {
                            assert forall|k: int| 0 <= k < self.hooks@.len() implies (
                            #[trigger] self.hooks@[k]).1.below(b) by {
                                assert(before.hooks@[k].1.below(b));
                            }
                        }
                    }
                }
                true
            },
        }
    }

    /// Claims an exact listener for one invocation: whether it is claimed, and
    /// whether the claim unregistered it.
    pub fn claim(&mut self, name: &String, id: ListenerRegistrationId) -> (r: (bool, bool))
        requires
            old(self).wf(),
        ensures
            r == old(self)@.claimed(name@, id),
            final(self)@ == old(self)@.claiming(name@, id),
            final(self).wf(),
            forall|b: u64| old(self).below(b) ==> final(self).below(b),
            final(self).stale(name@) == (if final(self)@.listeners(name@).len() == 0 {
                0
            } else if r.1 {
                old(self).stale(name@) + 1
            } else {
                old(self).stale(name@)
            }),
    {
        proof {
            crate::seqs::lemma_first_meets(Seq::<HookView>::empty(), is_hook(id));
        }
        let once = match self.position(name) {
            None => {
                return (false, false);
            },
            Some(i) => match self.hooks[i].1.get(id) {
                None => {
                    return (false, false);
                },
                Some(hook) => hook.options.is_once(),
            },
        };
        if !once {
            return (true, false);
        }
        let _ = self.remove(name, id);
        (true, true)
    }

    /// Selects the listeners of one dispatch, in effective order. The name is
    /// bound if it is free; an eligible listener whose role does not fit refuses
    /// the dispatch.
    pub fn preflight(
        &mut self,
        name: &String,
        contract: EventContract,
        routing: &Routing,
        operation: EventOperation,
    ) -> (r: Result<Vec<Hook>, DispatchError>)
        requires
            old(self).wf(),
        ensures
            match old(self)@.preflight(name@, contract, routing@, operation) {
                Ok(selected) => r matches Ok(hooks) && hook_views(hooks@) == selected,
                Err(e) => r matches Err(x) && x@ == e,
            },
            final(self)@ == old(self)@.binding(name@, contract),
            final(self).wf(),
            forall|b: u64| old(self).below(b) ==> final(self).below(b),
            old(self)@.compatible(name@, contract) ==> final(self).stale(name@) == compacted(
                old(self).stale(name@),
                old(self)@.listeners(name@).len(),
            ),
    {
        let bound = self.bind(name, contract);
        if bound.is_err() {
            return Err(DispatchError::EventContractMismatch { event: name.clone() });
        }
        let ghost middle = *self;
        assert(middle@.hooks == old(self)@.hooks);
        let mut out: Vec<Hook> = Vec::new();
        match self.position(name) {
            None => {
                proof {
                    reveal(Seq::filter);
                    assert(hook_views(out@) =~= Seq::<HookView>::empty());
                    crate::seqs::lemma_first_absent(
                        Seq::<HookView>::empty(),
                        misfit(operation),
                    );
                }
                Ok(out)
            },
            Some(at) => {
                self.hooks[at].1.compact_if_sparse();
                proof {
                    assert(self@.hooks =~= middle@.hooks);
                    assert(self@.contracts =~= middle@.contracts);
                    assert forall|k: int| 0 <= k < self.hooks@.len() && k != at implies
                        #[trigger] self.hooks@[k] == middle.hooks@[k] by {}
                    assert forall|b: u64| middle.below(b) implies self.below(b) by {
                        assert forall|k: int| 0 <= k < self.hooks@.len() implies (
                        #[trigger] self.hooks@[k]).1.below(b) by {
                            assert(middle.hooks@[k].1.below(b));
                        }
                    }
                }
                let listed = self.hooks[at].1.iter();
                let ghost list = old(self)@.listeners(name@);
                let ghost p = eligible_for(routing@);
                let ghost selected = list.filter(p);
                assert(listed@.map_values(|h: &Hook| h@) == list);
                let mut i: usize = 0;
                proof {
                    assert(list.take(0) =~= Seq::empty());
                    reveal(Seq::filter);
                    assert(hook_views(out@) =~= list.take(0).filter(p));
                }
                while i < listed.len()
                    invariant
                        i <= listed@.len(),
                        list == listed@.map_values(|h: &Hook| h@),
                        list == old(self)@.listeners(name@),
                        p == eligible_for(routing@),
                        selected == list.filter(p),
                        hook_views(out@) == list.take(i as int).filter(p),
                        forall|k: int|
                            0 <= k < out@.len() ==> !misfit(operation)(
                                #[trigger] hook_views(out@)[k],
                            ),
                        old(self)@.compatible(name@, contract),
                        self@ == old(self)@.binding(name@, contract),
                        self.wf(),
                        forall|b: u64| old(self).below(b) ==> self.below(b),
                        self.stale(name@) == compacted(old(self).stale(name@), list.len()),
                    decreases listed@.len() - i,
                {
                    proof {
                        lemma_filter_step(list, p, i as int);
                        assert(list[i as int] == listed@[i as int]@);
                    }
                    if listed[i].eligible(routing) {
                        let role = listed[i].kind.role();
                        let ghost kept = hook_views(out@);
                        if !operation.compatible(role) {
                            proof {
                                lemma_filter_prefix(list, p, i + 1);
                                assert(selected.take((kept.len() + 1) as int) =~= kept.push(
                                    list[i as int],
                                ));
                                assert(selected[kept.len() as int] == kept.push(
                                    list[i as int],
                                )[kept.len() as int]);
                                assert(is_first(selected, misfit(operation), kept.len() as int))
                                    by {
                                    assert forall|j: int| 0 <= j < kept.len() implies !misfit(
                                        operation,
                                    )(#[trigger] selected[j]) by {
                                        assert(selected[j] == kept.push(list[i as int])[j]);
                                        assert(!misfit(operation)(kept[j]));
                                    }
                                }
                                lemma_first_found(selected, misfit(operation), kept.len() as int);
                            }
                            return Err(DispatchError::IncompatibleRole { operation, role });
                        }
                        let snap = listed[i].snap();
                        assert(hook_views(out@.push(snap)) =~= hook_views(out@).push(snap@));
                        out.push(snap);
                    }
                    i = i + 1;
                }
                proof {
                    assert(list.take(i as int) =~= list);
                    assert forall|j: int| 0 <= j < selected.len() implies !misfit(operation)(
                        #[trigger] selected[j],
                    ) by {
                        assert(selected[j] == hook_views(out@)[j]);
                    }
                    lemma_first_absent(selected, misfit(operation));
                }
                Ok(out)
            },
        }
    }
}

/// Filtering a prefix gives a prefix of what filtering the whole gives.
proof fn lemma_filter_prefix(list: Seq<HookView>, p: spec_fn(HookView) -> bool, n: int)
    requires
        0 <= n <= list.len(),
    ensures
        list.take(n).filter(p).len() <= list.filter(p).len(),
        list.filter(p).take(list.take(n).filter(p).len() as int) == list.take(n).filter(p),
    decreases list.len() - n,
{
    if n == list.len() {
        assert(list.take(n) =~= list);
        assert(list.filter(p).take(list.filter(p).len() as int) =~= list.filter(p));
    } else {
        lemma_filter_prefix(list, p, n + 1);
        lemma_filter_step(list, p, n);
        let short = list.take(n).filter(p);
        let long = list.take(n + 1).filter(p);
        assert(list.filter(p).take(short.len() as int) =~= long.take(short.len() as int));
        assert(long.take(short.len() as int) =~= short);
    }
}

proof fn lemma_filter_absent(list: Seq<HookView>, id: ListenerRegistrationId)
    requires
        first(list, is_hook(id)) is None,
    ensures
        list.filter(not_hook(id)) == list,
    decreases list.len(),
{
    reveal(Seq::filter);
    crate::seqs::lemma_first_meets(list, is_hook(id));
    if list.len() > 0 {
        let shorter = list.drop_last();
        assert forall|j: int| 0 <= j < shorter.len() implies !is_hook(id)(#[trigger] shorter[j]) by {
            assert(shorter[j] == list[j]);
        }
        lemma_first_absent(shorter, is_hook(id));
        lemma_filter_absent(shorter, id);
        assert(!is_hook(id)(list[list.len() - 1]));
        assert(list =~= shorter.push(list.last()));
    }
}

/// Whether every listener of a list has an identity of its own.
pub open spec fn distinct_hooks(list: Seq<HookView>) -> bool {
    forall|i: int, j: int|
        0 <= i < j < list.len() ==> (#[trigger] list[i]).id != (#[trigger] list[j]).id
}

/// Of listeners with identities of their own, every selection has them too.
pub proof fn lemma_filtered_distinct(list: Seq<HookView>, p: spec_fn(HookView) -> bool)
    requires
        distinct_hooks(list),
    ensures
        distinct_hooks(list.filter(p)),
    decreases list.len(),
{
    reveal(Seq::filter);
    if list.len() > 0 {
        let shorter = list.drop_last();
        let n = list.len() - 1;
        assert(distinct_hooks(shorter)) by {
            assert forall|i: int, j: int| 0 <= i < j < shorter.len() implies (
            #[trigger] shorter[i]).id != (#[trigger] shorter[j]).id by {
                assert(list[i].id != list[j].id);
            }
        }
        lemma_filtered_distinct(shorter, p);
        let fewer = shorter.filter(p);
        let kept = list.filter(p);
        assert forall|i: int, j: int| 0 <= i < j < kept.len() implies (#[trigger] kept[i]).id != (
        #[trigger] kept[j]).id by {
            if j < fewer.len() {
                assert(fewer[i].id != fewer[j].id);
            } else {
                assert(fewer.contains(fewer[i]));
                crate::seqs::lemma_filter_members(shorter, p, fewer[i]);
                let k = choose|k: int| 0 <= k < shorter.len() && shorter[k] == fewer[i];
                assert(list[k].id != list[n].id);
            }
        }
    }
}

/// Unscoped routing filters nothing.
pub proof fn law_unscoped_routing_selects_every_listener(events: EventsView, name: Seq<char>)
    ensures
        events.eligible(name, RoutingView::Unscoped) == events.listeners(name),
{
    lemma_filter_all(events.listeners(name), eligible_for(RoutingView::Unscoped));
}

proof fn lemma_filter_all(list: Seq<HookView>, p: spec_fn(HookView) -> bool)
    requires
        forall|i: int| 0 <= i < list.len() ==> p(#[trigger] list[i]),
    ensures
        list.filter(p) == list,
    decreases list.len(),
{
    reveal(Seq::filter);
    if list.len() > 0 {
        let shorter = list.drop_last();
        assert forall|i: int| 0 <= i < shorter.len() implies p(#[trigger] shorter[i]) by {
            assert(shorter[i] == list[i]);
        }
        lemma_filter_all(shorter, p);
        assert(p(list[list.len() - 1]));
        assert(list =~= list.drop_last().push(list.last()));
    }
}

/// Scoped routing selects exactly the global listeners and those registered at
/// the target position or one of its ancestors.
pub proof fn law_scoped_routing_selects_globals_and_ancestors(
    events: EventsView,
    name: Seq<char>,
    scope: crate::scope::ScopeView,
    h: HookView,
)
    ensures
        events.eligible(name, RoutingView::Scoped(scope)).contains(h) <==> events.listeners(
            name,
        ).contains(h) && (h.options.global || in_reach(h.scope, scope.chain)),
{
    crate::seqs::lemma_filter_members(
        events.listeners(name),
        eligible_for(RoutingView::Scoped(scope)),
        h,
    );
}

/// The listeners of `name` become exactly `list`, and no other Event's change.
pub proof fn law_a_registration_touches_one_event(
    events: EventsView,
    name: Seq<char>,
    list: Seq<HookView>,
    other: Seq<char>,
)
    requires
        events.wf(),
    ensures
        events.listing(name, list).listeners(name) == list,
        other != name ==> events.listing(name, list).listeners(other) == events.listeners(other),
        events.listing(name, list).wf(),
{
    let after = events.listing(name, list);
    let old_rows = events.hooks;
    let rows = after.hooks;
    crate::seqs::lemma_first_meets(old_rows, lists(name));
    crate::seqs::lemma_first_meets(old_rows, lists(other));
    match first_index(old_rows, lists(name)) {
        Some(i) => {
            if list.len() == 0 {
                assert forall|k: int| 0 <= k < rows.len() implies #[trigger] rows[k] == old_rows[
                if k < i {
                    k
                } else {
                    k + 1
                }] by {}
                assert forall|k: int| 0 <= k < rows.len() implies !lists(name)(
                    #[trigger] rows[k],
                ) by {
                    if k >= i {
                        assert(old_rows[i].0 != old_rows[k + 1].0);
                    }
                }
                lemma_first_absent(rows, lists(name));
                assert(list =~= Seq::empty());
                if other != name {
                    match first_index(old_rows, lists(other)) {
                        Some(k) => {
                            let at = if k < i {
                                k
                            } else {
                                k - 1
                            };
                            assert(is_first(rows, lists(other), at));
                            lemma_first_found(rows, lists(other), at);
                        },
                        None => {
                            lemma_first_absent(rows, lists(other));
                        },
                    }
                }
            } else {
                assert(is_first(rows, lists(name), i));
                lemma_first_found(rows, lists(name), i);
                if other != name {
                    match first_index(old_rows, lists(other)) {
                        Some(k) => {
                            assert(is_first(rows, lists(other), k));
                            lemma_first_found(rows, lists(other), k);
                        },
                        None => {
                            lemma_first_absent(rows, lists(other));
                        },
                    }
                }
            }
        },
        None => {
            if list.len() == 0 {
                assert(list =~= Seq::empty());
            } else {
                let n = old_rows.len() as int;
                assert(is_first(rows, lists(name), n));
                lemma_first_found(rows, lists(name), n);
                if other != name {
                    match first_index(old_rows, lists(other)) {
                        Some(k) => {
                            assert(is_first(rows, lists(other), k));
                            lemma_first_found(rows, lists(other), k);
                        },
                        None => {
                            lemma_first_absent(rows, lists(other));
                        },
                    }
                }
            }
        },
    }
}

/// The first list of an Event stays at its place while the lists before it stay.
proof fn lemma_still_first(
    before: Seq<(Seq<char>, Seq<HookView>)>,
    after: Seq<(Seq<char>, Seq<HookView>)>,
    name: Seq<char>,
    at: int,
)
    requires
        0 <= at < after.len(),
        at <= before.len(),
        first_index(before, lists(name)) == (if at < before.len() {
            Some(at)
        } else {
            None
        }),
        after[at].0 == name,
        forall|j: int| 0 <= j < at ==> (#[trigger] after[j]).0 == before[j].0,
    ensures
        first_index(after, lists(name)) == Some(at),
{
    crate::seqs::lemma_first_meets(before, lists(name));
    assert forall|j: int| 0 <= j < at implies !lists(name)(#[trigger] after[j]) by {
        assert(!lists(name)(before[j]));
    }
    assert(is_first(after, lists(name), at));
    lemma_first_found(after, lists(name), at);
}

proof fn lemma_listing_wf(events: EventsView, name: Seq<char>, list: Seq<HookView>)
    requires
        events.wf(),
    ensures
        events.listing(name, list).wf(),
{
    law_a_registration_touches_one_event(events, name, list, name);
}

/// An unregistration ends its own listener, and no listener begins with it.
pub proof fn law_an_unregistration_ends_its_listener(
    events: EventsView,
    name: Seq<char>,
    id: ListenerRegistrationId,
    other: Seq<char>,
    that: ListenerRegistrationId,
)
    requires
        events.wf(),
    ensures
        events.removing(name, id).find(name, id) is None,
        events.removing(name, id).find(other, that) is Some ==> events.find(other, that) is Some,
{
    let all = events.listeners(name);
    let list = all.filter(not_hook(id));
    law_a_registration_touches_one_event(events, name, list, other);
    assert forall|j: int| 0 <= j < list.len() implies !is_hook(id)(#[trigger] list[j]) by {
        assert(list.contains(list[j]));
        crate::seqs::lemma_filter_members(all, not_hook(id), list[j]);
    }
    lemma_first_absent(list, is_hook(id));
    if other == name && events.find(name, id) is Some {
        crate::seqs::lemma_first_meets(list, is_hook(that));
        match first_index(list, is_hook(that)) {
            Some(i) => {
                assert(list.contains(list[i]));
                crate::seqs::lemma_filter_members(all, not_hook(id), list[i]);
                let k = choose|k: int| 0 <= k < all.len() && all[k] == list[i];
                crate::seqs::lemma_first_exists(all, is_hook(that), k);
            },
            None => {},
        }
    }
}

/// What is found after a registration was found before, or is the listener itself.
pub proof fn law_a_registration_adds_one_listener(
    events: EventsView,
    name: Seq<char>,
    hook: HookView,
    other: Seq<char>,
    that: ListenerRegistrationId,
)
    requires
        events.wf(),
    ensures
        events.adding(name, hook).find(other, that) is Some ==> events.find(other, that) is Some
            || other == name && that == hook.id,
{
    let list = events.listeners(name);
    let longer = if hook.options.prepend {
        seq![hook] + list
    } else {
        list.push(hook)
    };
    law_a_registration_touches_one_event(events, name, longer, other);
    if other == name {
        crate::seqs::lemma_first_meets(longer, is_hook(that));
        match first_index(longer, is_hook(that)) {
            Some(i) => {
                if longer[i] != hook {
                    let k = if hook.options.prepend {
                        i - 1
                    } else {
                        i
                    };
                    assert(list[k] == longer[i]);
                    crate::seqs::lemma_first_exists(list, is_hook(that), k);
                }
            },
            None => {},
        }
    }
}

/// A one-time listener is claimed at most once: after a claim it is not
/// registered any more, and no other listener was touched.
pub proof fn law_a_one_time_listener_is_claimed_once(
    events: EventsView,
    name: Seq<char>,
    id: ListenerRegistrationId,
    other: Seq<char>,
)
    requires
        events.wf(),
        events.find(name, id) matches Some(h) && h.options.once,
    ensures
        events.claimed(name, id) == (true, true),
        events.claiming(name, id).find(name, id) is None,
        events.claiming(name, id).listeners(name) == events.listeners(name).filter(not_hook(id)),
        other != name ==> events.claiming(name, id).listeners(other) == events.listeners(other),
{
    let list = events.listeners(name).filter(not_hook(id));
    law_a_registration_touches_one_event(events, name, list, other);
    assert forall|j: int| 0 <= j < list.len() implies !is_hook(id)(#[trigger] list[j]) by {
        assert(list.contains(list[j]));
        crate::seqs::lemma_filter_members(events.listeners(name), not_hook(id), list[j]);
    }
    lemma_first_absent(list, is_hook(id));
}

/// However often one listener is claimed: where it is not registered, every claim
/// fails and changes nothing; a lasting one is claimed every time and stays; a
/// one-time one is claimed the first time, which unregisters it, and never again.
pub proof fn law_repeated_claims_of_a_listener(
    events: EventsView,
    name: Seq<char>,
    id: ListenerRegistrationId,
    n: nat,
)
    requires
        events.wf(),
    ensures
        match events.find(name, id) {
            None => events.claims(name, id, n) == events && events.claims(name, id, n).claimed(
                name,
                id,
            ) == (false, false),
            Some(h) => if h.options.once {
                n > 0 ==> events.claims(name, id, n) == events.removing(name, id) && events.claims(
                    name,
                    id,
                    n,
                ).claimed(name, id) == (false, false)
            } else {
                events.claims(name, id, n) == events && events.claims(name, id, n).claimed(
                    name,
                    id,
                ) == (true, false)
            },
        },
    decreases n,
{
    if n > 0 {
        law_repeated_claims_of_a_listener(events, name, id, (n - 1) as nat);
        assert(events.claims(name, id, 0) == events);
        match events.find(name, id) {
            Some(h) => {
                if h.options.once {
                    law_a_one_time_listener_is_claimed_once(events, name, id, name);
                }
            },
            None => {},
        }
    }
}

} // verus!
