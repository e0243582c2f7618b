//! What generations own and owe: every publication and listener has its cleanup in
//! a journal, and what a cleanup served is gone.

use crate::deps::EdgeView;
use crate::drain::{
    law_a_complete_drain_empties_the_journal, law_a_drain_serves_newest_first_and_once,
    lemma_cleaned_counters,
};
use crate::effect::{
    law_a_claim_leaves_the_others, law_a_token_is_claimed_exactly_once, lemma_claimed_owes,
    lemma_pushed_owes, names, CleanupView, DisposableToken,
};
use crate::event_store::{
    law_a_registration_touches_one_event, law_an_unregistration_ends_its_listener, not_hook,
};
use crate::fiber::FiberView;
use crate::ids::{ContractId, ExporterKey, FiberId, ListenerRegistrationId};
use crate::logger::{is_exporter, LoggerView};
use crate::observation::not_observer;
use crate::order::before;
use crate::plugin::normalized;
use crate::root::RootView;
use crate::seqs::{
    first_index, is_first, lemma_filter_members, lemma_first_absent, lemma_first_found,
    lemma_first_meets, without_first,
};
use crate::service::{lemma_without_other, lemma_without_same, owned_by, slot_at, SlotView};
use crate::sound::{law_a_drain_keeps_the_runtime_sound, lemma_served_sound};
use crate::update::law_an_unregistered_update_listener_is_gone;
use vstd::prelude::*;

verus! {

/// The withdrawal of an occupied slot.
pub open spec fn withdraws(slot: SlotView) -> spec_fn(CleanupView) -> bool {
    |c: CleanupView|
        c == (CleanupView::Withdraw {
            realm: slot.realm,
            service: slot.service,
            occurrence: slot.occurrence,
        })
}

/// The unregistration of an Event listener.
pub open spec fn unlistens(name: Seq<char>, id: ListenerRegistrationId) -> spec_fn(
    CleanupView,
) -> bool {
    |c: CleanupView|
        match c {
            CleanupView::Unlisten { meta } => meta.event == name && meta.id == id,
            _ => false,
        }
}

/// The unregistration of an update listener.
pub open spec fn unhooks(contract: ContractId, id: ListenerRegistrationId) -> spec_fn(
    CleanupView,
) -> bool {
    |c: CleanupView| c == (CleanupView::Unhook { contract, listener: id })
}

/// Whether dependency slots ascend by name, without a duplicate.
pub open spec fn ascending(edges: Seq<EdgeView>) -> bool {
    forall|i: int, j: int|
        0 <= i < j < edges.len() ==> before(
            (#[trigger] edges[i]).service,
            (#[trigger] edges[j]).service,
        )
}

/// Whether every exporter has a key of its own that was issued before.
pub open spec fn keyed(logger: LoggerView) -> bool {
    &&& forall|i: int|
        0 <= i < logger.exporters.len() ==> (#[trigger] logger.exporters[i]).key.0
            <= logger.exporter_sequence
    &&& forall|i: int, j: int|
        0 <= i < j < logger.exporters.len() ==> (#[trigger] logger.exporters[i]).key != (
        #[trigger] logger.exporters[j]).key
}

impl FiberView {
    /// The creation record of a spawned Fiber carries its name, and normalized
    /// declarations.
    pub open spec fn recorded(self) -> bool {
        self.spawn matches Some(s) ==> s.name == self.name && normalized(s.inject)
    }
}

impl RootView {
    /// Whether some generation owes a cleanup of a kind.
    pub open spec fn someone_owes(self, kind: spec_fn(CleanupView) -> bool) -> bool {
        exists|f: int|
            0 <= f < self.fibers.len() && (#[trigger] self.fibers[f]).journal.owes(kind)
    }

    /// The occupant of an exact slot, if there is one, has its withdrawal in its
    /// owner's journal.
    pub open spec fn slot_owed(self, edge: EdgeView) -> bool {
        match self.services.slot(edge) {
            Some(s) => self.has(s.owner) && self.fiber(s.owner).journal.owes(withdraws(s)),
            None => true,
        }
    }

    /// Every occupied slot has its withdrawal in its owner's journal, and every
    /// Event and update listener its unregistration in the journal of the
    /// generation that registered it.
    pub open spec fn owed(self) -> bool {
        &&& forall|edge: EdgeView| #[trigger] self.slot_owed(edge)
        &&& forall|name: Seq<char>, id: ListenerRegistrationId|
            (#[trigger] self.events.find(name, id)) is Some ==> self.someone_owes(
                unlistens(name, id),
            )
        &&& forall|contract: ContractId, id: ListenerRegistrationId|
            (#[trigger] self.updates.find(contract, id)) is Some ==> self.someone_owes(
                unhooks(contract, id),
            )
    }

    /// A Fiber with a residency claim is spawned and a resident member of a listed
    /// group, and a resident has a claim; journals are consistent; a spawned Fiber's
    /// dependency slots ascend by name; and its record is of its name.
    pub open spec fn linked(self) -> bool {
        &&& forall|i: int|
            0 <= i < self.fibers.len() ==> ((#[trigger] self.fibers[i]).residency matches Some(
                claim,
            ) ==> claim.fiber.0 == i && self.fibers[i].spawn is Some
                && self.registry.residents.contains(claim.fiber) && self.registry.members(
                claim.allocation,
            ).contains(claim.fiber))
        &&& forall|k: int|
            0 <= k < self.registry.residents.len() ==> self.has(
                #[trigger] self.registry.residents[k],
            ) && self.fiber(self.registry.residents[k]).residency is Some
        &&& forall|i: int| 0 <= i < self.fibers.len() ==> (#[trigger] self.fibers[i]).journal.wf()
        &&& forall|i: int|
            0 <= i < self.fibers.len() && (#[trigger] self.fibers[i]).spawn is Some ==> ascending(
                self.fibers[i].edges,
            )
        &&& forall|i: int| 0 <= i < self.fibers.len() ==> (#[trigger] self.fibers[i]).recorded()
    }

    /// Nothing is left of what a cleanup is for. A hosted one leaves nothing in the
    /// Runtime.
    pub open spec fn gone(self, cleanup: CleanupView) -> bool {
        match cleanup {
            CleanupView::Callback { .. } => true,
            CleanupView::Join { .. } => true,
            CleanupView::Withdraw { realm, service, occurrence } => !self.services.is_current(
                EdgeView { service, realm },
                occurrence,
            ),
            CleanupView::Unlisten { meta } => self.events.find(meta.event, meta.id) is None,
            CleanupView::Unhook { contract, listener } => self.updates.find(
                contract,
                listener,
            ) is None,
            CleanupView::Unexport { key } => first_index(
                self.logger.exporters,
                is_exporter(key),
            ) is None,
            CleanupView::Unobserve { observer } => forall|i: int|
                0 <= i < self.hub.observers.len() ==> (#[trigger] self.hub.observers[i]).id
                    != observer,
        }
    }

    /// What the stores need for their cleanups to be exact.
    pub open spec fn cleanable(self) -> bool {
        &&& self.services.exact()
        &&& self.events.wf()
        &&& self.updates.sound(self.next)
        &&& keyed(self.logger)
    }
}

proof fn lemma_exporter_gone(logger: LoggerView, key: ExporterKey)
    requires
        keyed(logger),
    ensures
        keyed(logger.removing(key)),
        first_index(logger.removing(key).exporters, is_exporter(key)) is None,
        forall|k: ExporterKey|
            first_index(logger.exporters, #[trigger] is_exporter(k)) is None ==> first_index(
                logger.removing(key).exporters,
                is_exporter(k),
            ) is None,
{
    let rows = logger.exporters;
    let after = without_first(rows, is_exporter(key));
    lemma_first_meets(rows, is_exporter(key));
    match first_index(rows, is_exporter(key)) {
        Some(i) => {
            assert forall|j: int| 0 <= j < after.len() implies #[trigger] after[j] == rows[if j
                < i {
                j
            } else {
                j + 1
            }] by {}
            assert forall|j: int| 0 <= j < after.len() implies !is_exporter(key)(
                #[trigger] after[j],
            ) by {
                if j < i {
                    assert(rows[j].key != rows[i].key);
                } else {
                    assert(rows[i].key != rows[j + 1].key);
                }
            }
            lemma_first_absent(after, is_exporter(key));
            assert(keyed(logger.removing(key))) by {
                assert forall|j: int, k: int| 0 <= j < k < after.len() implies (
                #[trigger] after[j]).key != (#[trigger] after[k]).key by {
                    let a = if j < i {
                        j
                    } else {
                        j + 1
                    };
                    let b = if k < i {
                        k
                    } else {
                        k + 1
                    };
                    assert(rows[a].key != rows[b].key);
                }
            }
            assert forall|k: ExporterKey|
                first_index(rows, #[trigger] is_exporter(k)) is None implies first_index(
                after,
                is_exporter(k),
            ) is None by {
                lemma_first_meets(rows, is_exporter(k));
                assert forall|j: int| 0 <= j < after.len() implies !is_exporter(k)(
                    #[trigger] after[j],
                ) by {
                    let n = if j < i {
                        j
                    } else {
                        j + 1
                    };
                    assert(!is_exporter(k)(rows[n]));
                }
                lemma_first_absent(after, is_exporter(k));
            }
        },
        None => {},
    }
}

/// The framework's part of a cleanup ends what the cleanup is for, and nothing that
/// was gone comes back with it.
pub proof fn law_a_cleanup_ends_what_it_is_for(
    root: RootView,
    cleanup: CleanupView,
    other: CleanupView,
)
    requires
        root.cleanable(),
    ensures
        root.cleaned(cleanup).gone(cleanup),
        root.gone(other) ==> root.cleaned(cleanup).gone(other),
        root.cleaned(cleanup).cleanable(),
{
    let after = root.cleaned(cleanup);
    match cleanup {
        CleanupView::Callback { .. } => {},
        CleanupView::Join { .. } => {},
        CleanupView::Withdraw { realm, service, occurrence } => {
            let edge = EdgeView { service, realm };
            lemma_without_same(root.services, edge);
            match other {
                CleanupView::Withdraw { realm, service, occurrence } => {
                    let e = EdgeView { service, realm };
                    if e != edge {
                        lemma_without_other(root.services, edge, e);
                    }
                },
                _ => {},
            }
        },
        CleanupView::Unlisten { meta } => {
            let list = root.events.listeners(meta.event).filter(
                not_hook(meta.id),
            );
            law_a_registration_touches_one_event(
                root.events,
                meta.event,
                list,
                meta.event,
            );
            law_an_unregistration_ends_its_listener(
                root.events,
                meta.event,
                meta.id,
                meta.event,
                meta.id,
            );
            match other {
                CleanupView::Unlisten { meta: that } => {
                    law_an_unregistration_ends_its_listener(
                        root.events,
                        meta.event,
                        meta.id,
                        that.event,
                        that.id,
                    );
                },
                _ => {},
            }
        },
        CleanupView::Unhook { contract, listener } => {
            law_an_unregistered_update_listener_is_gone(
                root.updates,
                contract,
                listener,
                contract,
                listener,
                root.next,
            );
            match other {
                CleanupView::Unhook { contract: c, listener: l } => {
                    law_an_unregistered_update_listener_is_gone(
                        root.updates,
                        contract,
                        listener,
                        c,
                        l,
                        root.next,
                    );
                },
                _ => {},
            }
        },
        CleanupView::Unexport { key } => {
            lemma_exporter_gone(root.logger, key);
            match other {
                CleanupView::Unexport { key: k } => {
                    let p = is_exporter(k);
                    assert(root.gone(other) ==> first_index(root.logger.exporters, p) is None);
                },
                _ => {},
            }
        },
        CleanupView::Unobserve { observer } => {
            let rows = root.hub.observers;
            let kept = rows.filter(not_observer(observer));
            assert forall|i: int| 0 <= i < kept.len() implies (#[trigger] kept[i]).id != observer
                && rows.contains(kept[i]) by {
                assert(kept.contains(kept[i]));
                lemma_filter_members(rows, not_observer(observer), kept[i]);
            }
            match other {
                CleanupView::Unobserve { observer: o } => {
                    if root.gone(other) {
                        assert forall|i: int| 0 <= i < kept.len() implies (
                        #[trigger] kept[i]).id != o by {
                            let k = choose|k: int| 0 <= k < rows.len() && rows[k] == kept[i];
                            assert(rows[k].id != o);
                        }
                    }
                },
                _ => {},
            }
        },
    }
}

/// One obligation more leaves every obligation owed.
pub proof fn lemma_owing_owed(root: RootView, id: FiberId, cleanup: CleanupView)
    requires
        root.owed(),
        root.linked(),
        root.has(id),
        root.fiber(id).journal.sn < u64::MAX,
    ensures
        root.owing(id, cleanup).owed(),
        root.owing(id, cleanup).linked(),
        forall|kind: spec_fn(CleanupView) -> bool|
            kind(cleanup) ==> #[trigger] root.owing(id, cleanup).fiber(id).journal.owes(kind),
{
    let after = root.owing(id, cleanup);
    assert forall|i: int, kind: spec_fn(CleanupView) -> bool|
        0 <= i < root.fibers.len() && root.fibers[i].journal.owes(
            kind,
        ) implies #[trigger] after.fibers[i].journal.owes(kind) by {
        if i == id.0 {
            lemma_pushed_owes(root.fibers[i].journal, cleanup, kind);
        }
    }
    assert forall|kind: spec_fn(CleanupView) -> bool|
        kind(cleanup) implies #[trigger] after.fiber(id).journal.owes(kind) by {
        lemma_pushed_owes(root.fiber(id).journal, cleanup, kind);
    }
    assert forall|kind: spec_fn(CleanupView) -> bool|
        root.someone_owes(kind) implies #[trigger] after.someone_owes(kind) by {
        let f = choose|f: int|
            0 <= f < root.fibers.len() && (#[trigger] root.fibers[f]).journal.owes(kind);
        assert(after.fibers[f].journal.owes(kind));
    }
    assert forall|edge: EdgeView| #[trigger] after.slot_owed(edge) by {
        assert(root.slot_owed(edge));
        match root.services.slot(edge) {
            Some(s) => {
                assert(root.fibers[s.owner.0 as int].journal.owes(withdraws(s)));
                assert(after.fibers[s.owner.0 as int].journal.owes(withdraws(s)));
            },
            None => {},
        }
    }
    assert forall|k: int| 0 <= k < after.registry.residents.len() implies after.has(
        #[trigger] after.registry.residents[k],
    ) && after.fiber(after.registry.residents[k]).residency is Some by {
        assert(root.has(root.registry.residents[k]));
    }
    assert forall|i: int| 0 <= i < after.fibers.len() implies (
    #[trigger] after.fibers[i]).journal.wf() by {
        assert(root.fibers[i].journal.wf());
        if i == id.0 {
            lemma_pushed_owes(root.fibers[i].journal, cleanup, |c: CleanupView| true);
        }
    }
}

/// The claim of an obligation whose resource is gone leaves every other obligation
/// owed.
pub proof fn lemma_claim_owed(root: RootView, id: FiberId, token: DisposableToken)
    requires
        root.owed(),
        root.linked(),
        root.has(id),
        root.obligation(id, token) matches Some(c) ==> root.gone(c),
    ensures
        root.claiming(id, token).owed(),
        root.claiming(id, token).linked(),
{
    let after = root.claiming(id, token);
    let journal = root.fiber(id).journal;
    assert(root.fibers[id.0 as int].journal.wf());
    law_a_token_is_claimed_exactly_once(journal, token);
    assert forall|i: int, kind: spec_fn(CleanupView) -> bool|
        0 <= i < root.fibers.len() && root.fibers[i].journal.owes(kind) && (journal.find(
            token,
        ) matches Some(c) ==> !kind(c)) implies #[trigger] after.fibers[i].journal.owes(kind) by {
        if i == id.0 {
            lemma_claimed_owes(journal, token, kind);
        }
    }
    assert forall|edge: EdgeView| #[trigger] after.slot_owed(edge) by {
        assert(root.slot_owed(edge));
        lemma_first_meets(root.services.slots, slot_at(edge));
        match root.services.slot(edge) {
            Some(s) => {
                assert(s.edge() == edge);
                assert(root.services.is_current(edge, s.occurrence));
                assert(root.fibers[s.owner.0 as int].journal.owes(withdraws(s)));
                assert(journal.find(token) matches Some(c) ==> !withdraws(s)(c));
                assert(after.fibers[s.owner.0 as int].journal.owes(withdraws(s)));
            },
            None => {},
        }
    }
    assert forall|name: Seq<char>, l: ListenerRegistrationId|
        (#[trigger] after.events.find(name, l)) is Some implies after.someone_owes(
        unlistens(name, l),
    ) by {
        assert(root.events.find(name, l) is Some);
        let kind = unlistens(name, l);
        let f = choose|f: int|
            0 <= f < root.fibers.len() && (#[trigger] root.fibers[f]).journal.owes(kind);
        assert(journal.find(token) matches Some(c) ==> !kind(c));
        assert(after.fibers[f].journal.owes(kind));
    }
    assert forall|contract: ContractId, l: ListenerRegistrationId|
        (#[trigger] after.updates.find(contract, l)) is Some implies after.someone_owes(
        unhooks(contract, l),
    ) by {
        assert(root.updates.find(contract, l) is Some);
        let kind = unhooks(contract, l);
        let f = choose|f: int|
            0 <= f < root.fibers.len() && (#[trigger] root.fibers[f]).journal.owes(kind);
        assert(journal.find(token) matches Some(c) ==> !kind(c));
        assert(after.fibers[f].journal.owes(kind));
    }
    assert forall|k: int| 0 <= k < after.registry.residents.len() implies after.has(
        #[trigger] after.registry.residents[k],
    ) && after.fiber(after.registry.residents[k]).residency is Some by {
        assert(root.has(root.registry.residents[k]));
    }
    assert forall|i: int| 0 <= i < after.fibers.len() implies (
    #[trigger] after.fibers[i]).journal.wf() by {
        assert(root.fibers[i].journal.wf());
    }
}

/// The framework's part of a cleanup takes away, so that what is left is owed
/// still.
pub proof fn lemma_cleaned_owed(root: RootView, cleanup: CleanupView)
    requires
        root.owed(),
        root.linked(),
        root.cleanable(),
    ensures
        root.cleaned(cleanup).owed(),
        root.cleaned(cleanup).linked(),
{
    let after = root.cleaned(cleanup);
    assert(after.fibers == root.fibers);
    assert forall|kind: spec_fn(CleanupView) -> bool|
        root.someone_owes(kind) implies #[trigger] after.someone_owes(kind) by {
        let f = choose|f: int|
            0 <= f < root.fibers.len() && (#[trigger] root.fibers[f]).journal.owes(kind);
        assert(after.fibers[f].journal.owes(kind));
    }
    assert forall|edge: EdgeView| #[trigger] after.slot_owed(edge) by {
        assert(root.slot_owed(edge));
        match cleanup {
            CleanupView::Withdraw { realm, service, occurrence } => {
                let e = EdgeView { service, realm };
                lemma_without_same(root.services, e);
                if e != edge {
                    lemma_without_other(root.services, e, edge);
                }
            },
            _ => {},
        }
        assert(after.services.slot(edge) is Some ==> root.services.slot(edge)
            == after.services.slot(edge));
    }
    assert forall|name: Seq<char>, l: ListenerRegistrationId|
        (#[trigger] after.events.find(name, l)) is Some implies root.events.find(name, l)
            is Some by {
        match cleanup {
            CleanupView::Unlisten { meta } => {
                law_an_unregistration_ends_its_listener(
                    root.events,
                    meta.event,
                    meta.id,
                    name,
                    l,
                );
            },
            _ => {},
        }
    }
    assert forall|contract: ContractId, l: ListenerRegistrationId|
        (#[trigger] after.updates.find(contract, l)) is Some implies root.updates.find(
        contract,
        l,
    ) is Some by {
        match cleanup {
            CleanupView::Unhook { contract: c, listener } => {
                law_an_unregistered_update_listener_is_gone(
                    root.updates,
                    c,
                    listener,
                    contract,
                    l,
                    root.next,
                );
            },
            _ => {},
        }
    }
}

/// What is gone stays gone through a drain, of whichever Fiber.
pub proof fn law_what_is_gone_stays_gone_through_a_drain(
    root: RootView,
    id: FiberId,
    tokens: Seq<DisposableToken>,
    cleanup: CleanupView,
)
    requires
        root.sound(),
        root.has(id),
        root.gone(cleanup),
    ensures
        root.drained(id, tokens).root.gone(cleanup),
    decreases tokens.len(),
{
    if tokens.len() > 0 {
        let claimed = root.claiming(id, tokens.last());
        let rest = tokens.drop_last();
        lemma_served_sound(root, id, tokens.last());
        match root.obligation(id, tokens.last()) {
            None => law_what_is_gone_stays_gone_through_a_drain(claimed, id, rest, cleanup),
            Some(c) => {
                if !c.is_hosted() {
                    reveal(RootView::sound);
                    law_a_cleanup_ends_what_it_is_for(root, c, cleanup);
                    lemma_cleaned_counters(claimed, c);
                    lemma_same_gone(root.cleaned(c), claimed.cleaned(c), cleanup);
                    law_what_is_gone_stays_gone_through_a_drain(
                        claimed.cleaned(c),
                        id,
                        rest,
                        cleanup,
                    );
                }
            },
        }
    }
}

proof fn lemma_same_gone(a: RootView, b: RootView, cleanup: CleanupView)
    requires
        b.services == a.services,
        b.events == a.events,
        b.updates == a.updates,
        b.logger == a.logger,
        b.hub.observers == a.hub.observers,
    ensures
        a.gone(cleanup) == b.gone(cleanup),
{
}

/// Nothing is left of an obligation that a drain has served: its publication is
/// withdrawn, its listener, exporter or observer unregistered.
pub proof fn law_a_drain_leaves_nothing_of_what_it_served(
    root: RootView,
    id: FiberId,
    tokens: Seq<DisposableToken>,
    j: int,
)
    requires
        root.sound(),
        root.has(id),
        root.drained(id, tokens).tokens.len() <= j < tokens.len(),
    ensures
        root.obligation(id, tokens[j]) matches Some(c) ==> root.drained(id, tokens).root.gone(c),
    decreases tokens.len(),
{
    let last = tokens.last();
    let rest = tokens.drop_last();
    let claimed = root.claiming(id, last);
    let step = root.drained(id, tokens);
    lemma_served_sound(root, id, last);
    assert(root.fibers[id.0 as int].journal.wf()) by {
        reveal(RootView::sound);
    }
    let after = match root.obligation(id, last) {
        None => claimed,
        Some(c) => if c.is_hosted() {
            claimed
        } else {
            claimed.cleaned(c)
        },
    };
    match root.obligation(id, last) {
        None => {},
        Some(c) => {
            lemma_cleaned_counters(claimed, c);
            if !c.is_hosted() {
                law_what_is_gone_stays_gone_through_a_drain(after, id, rest, c);
            }
        },
    }
    if tokens[j] != last {
        law_a_claim_leaves_the_others(root.fiber(id).journal, last, tokens[j]);
        assert(after.obligation(id, tokens[j]) == root.obligation(id, tokens[j]));
        assert(j < rest.len());
        assert(rest[j] == tokens[j]);
        if !(root.obligation(id, last) matches Some(c) && c.is_hosted()) {
            law_a_drain_leaves_nothing_of_what_it_served(after, id, rest, j);
        }
    }
}

/// In a consistent Runtime a generation that owes nothing publishes nothing.
pub proof fn law_a_generation_that_owes_nothing_publishes_nothing(root: RootView, id: FiberId)
    requires
        root.sound(),
        root.has(id),
        root.fiber(id).journal.entries.len() == 0,
    ensures
        root.services.owned(id).len() == 0,
{
    reveal(RootView::sound);
    let slots = root.services.slots;
    let mine = root.services.owned(id);
    if mine.len() > 0 {
        let s = mine[0];
        assert(mine.contains(s));
        lemma_filter_members(slots, owned_by(id), s);
        let i = choose|i: int| 0 <= i < slots.len() && slots[i] == s;
        assert(is_first(slots, slot_at(s.edge()), i)) by {
            assert forall|j: int| 0 <= j < i implies !slot_at(s.edge())(#[trigger] slots[j]) by {
                assert(slots[j].edge() != slots[i].edge());
            }
        }
        lemma_first_found(slots, slot_at(s.edge()), i);
        assert(root.slot_owed(s.edge()));
        assert(root.fiber(id).journal.owes(withdraws(s)));
    }
}

/// A complete drain of a generation leaves nothing behind: of every obligation that
/// stood in its journal nothing is left, nothing is owed any more, and no
/// publication of the Fiber stands.
pub proof fn law_a_complete_drain_leaves_nothing_behind(root: RootView, id: FiberId, k: int)
    requires
        root.sound(),
        root.has(id),
        0 <= k < root.fiber(id).journal.entries.len(),
        root.drained(id, root.fiber(id).journal.tokens()).run is None,
    ensures
        ({
            let after = root.drained(id, root.fiber(id).journal.tokens()).root;
            &&& after.gone(root.fiber(id).journal.entries[k].1)
            &&& after.fiber(id).journal.entries.len() == 0
            &&& after.services.owned(id).len() == 0
        }),
{
    let journal = root.fiber(id).journal;
    let tokens = journal.tokens();
    assert(root.fibers[id.0 as int].journal.wf()) by {
        reveal(RootView::sound);
    }
    law_a_drain_serves_newest_first_and_once(root, id, tokens);
    law_a_complete_drain_empties_the_journal(root, id);
    assert(is_first(journal.entries, names(tokens[k]), k)) by {
        assert forall|j: int| 0 <= j < k implies !names(tokens[k])(
            #[trigger] journal.entries[j],
        ) by {
            assert(journal.entries[j].0.0 < journal.entries[k].0.0);
        }
    }
    lemma_first_found(journal.entries, names(tokens[k]), k);
    law_a_drain_leaves_nothing_of_what_it_served(root, id, tokens, k);
    law_a_drain_keeps_the_runtime_sound(root, id, tokens);
    law_a_generation_that_owes_nothing_publishes_nothing(root.drained(id, tokens).root, id);
}

} // verus!
