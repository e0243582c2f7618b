//! What a spawned Fiber requires: the Services it declares, each where its spawning
//! Context looks it up.

use crate::context::{
    law_a_derivation_places_only_what_it_names, law_an_intercept_is_innermost_for_its_service,
    layers_for, places, ContextView, PlacementRows,
};
use crate::deps::EdgeView;
use crate::ids::{ContractId, FiberId, RealmKey};
use crate::laws::{law_a_lookup_finds_what_was_provided, lemma_providing};
use crate::order::{before, lemma_irreflexive};
use crate::plugin::{
    declared, declares, lemma_declared_at, normalized, InjectEntryView, TypedPlugin,
};
use crate::root::RootView;
use crate::seqs::{is_first, lemma_filter_members, lemma_first_found, lemma_first_meets};
use crate::service::slot_at;
use crate::sound::law_an_admission_keeps_the_runtime_sound;
use crate::spawn::{configuring, era_edges, era_scope};
use vstd::prelude::*;

verus! {

/// Whether a list of dependency slots has exactly one slot for a Service, in the
/// realm `realm`.
pub open spec fn requires_at(edges: Seq<EdgeView>, service: Seq<char>, realm: RealmKey) -> bool {
    exists|k: int|
        {
            &&& 0 <= k < edges.len()
            &&& #[trigger] edges[k] == (EdgeView { service, realm })
            &&& forall|j: int| 0 <= j < edges.len() && j != k ==> (#[trigger] edges[j]).service
                != service
        }
}

/// Whether a lookup of a Service at a Context finds a value, for whichever contract
/// it asks.
pub open spec fn found_at(root: RootView, ctx: ContextView, service: Seq<char>) -> bool {
    exists|contract: ContractId|
        #[trigger] root.lookup(
            EdgeView { service, realm: ctx.realm_of(service) },
            contract,
        ) is Ok
}

/// A spawned Fiber requires exactly what its declarations name: one slot for each
/// declared Service, in the realm where the spawning Context places it, and none for
/// any other.
pub proof fn law_a_spawned_fiber_requires_what_it_declares(
    root: RootView,
    ctx: ContextView,
    plugin: TypedPlugin,
    name: Seq<char>,
    inject: Seq<InjectEntryView>,
    service: Seq<char>,
)
    requires
        root.fibers.len() < usize::MAX,
        normalized(inject),
    ensures
        ({
            let edges = root.admitting(ctx, plugin, name, inject).fiber(root.next_fiber()).edges;
            &&& edges.len() == inject.len()
            &&& declares(inject, service) ==> requires_at(edges, service, ctx.realm_of(service))
            &&& !declares(inject, service) ==> forall|j: int|
                0 <= j < edges.len() ==> (#[trigger] edges[j]).service != service
        }),
{
    let after = root.admitting(ctx, plugin, name, inject);
    let edges = after.fiber(root.next_fiber()).edges;
    assert(edges == era_edges(ctx, inject));
    assert forall|j: int| 0 <= j < edges.len() implies (#[trigger] edges[j]).service
        == inject[j].name by {}
    if declares(inject, service) {
        let k = choose|k: int| 0 <= k < inject.len() && (#[trigger] inject[k]).name == service;
        assert(edges[k] == (EdgeView { service, realm: ctx.realm_of(service) }));
        assert forall|j: int| 0 <= j < edges.len() && j != k implies (#[trigger] edges[j]).service
            != service by {
            if j < k {
                assert(before(inject[j].name, inject[k].name));
            } else {
                assert(before(inject[k].name, inject[j].name));
            }
            lemma_irreflexive(service);
        }
    }
}

proof fn lemma_visible_is_found(root: RootView, ctx: ContextView, service: Seq<char>)
    requires
        root.sound(),
    ensures
        found_at(root, ctx, service) <==> root.occurrence(
            EdgeView { service, realm: ctx.realm_of(service) },
        ) is Some,
{
    reveal(RootView::sound);
    let edge = EdgeView { service, realm: ctx.realm_of(service) };
    lemma_first_meets(root.services.slots, slot_at(edge));
    match root.services.slot(edge) {
        Some(slot) => {
            assert(root.services.bound(slot.service) == Some(slot.contract));
            if root.is_visible(slot) {
                assert(root.lookup(edge, slot.contract) is Ok);
            }
        },
        None => {},
    }
}

/// A spawned Fiber misses a Service exactly if it declares it and a lookup at the
/// spawning Context finds none.
pub proof fn law_a_spawned_fiber_misses_what_a_lookup_misses(
    root: RootView,
    ctx: ContextView,
    plugin: TypedPlugin,
    name: Seq<char>,
    inject: Seq<InjectEntryView>,
    service: Seq<char>,
)
    requires
        root.sound(),
        root.room(3),
        root.fibers.len() < usize::MAX,
        normalized(inject),
    ensures
        ({
            let after = root.admitting(ctx, plugin, name, inject);
            after.missing(root.next_fiber()).contains(service) <==> declares(inject, service)
                && !found_at(after, ctx, service)
        }),
{
    let after = root.admitting(ctx, plugin, name, inject);
    let id = root.next_fiber();
    let edges = after.fiber(id).edges;
    let edge = EdgeView { service, realm: ctx.realm_of(service) };
    law_an_admission_keeps_the_runtime_sound(root, ctx, plugin, name, inject);
    law_a_spawned_fiber_requires_what_it_declares(root, ctx, plugin, name, inject, service);
    lemma_visible_is_found(after, ctx, service);
    lemma_missing(after, id, service);
    if declares(inject, service) {
        let k = choose|k: int| 0 <= k < edges.len() && #[trigger] edges[k] == edge && forall|j: int|
            0 <= j < edges.len() && j != k ==> (#[trigger] edges[j]).service != service;
        assert(edges[k].service == service);
    }
}

proof fn lemma_missing(root: RootView, id: FiberId, service: Seq<char>)
    ensures
        root.missing(id).contains(service) <==> exists|k: int|
            0 <= k < root.fiber(id).edges.len() && (#[trigger] root.fiber(id).edges[k]).service
                == service && root.occurrence(root.fiber(id).edges[k]) is None,
{
    let edges = root.fiber(id).edges;
    let p = root.is_missing();
    let kept = edges.filter(p);
    let names = root.missing(id);
    if names.contains(service) {
        let i = choose|i: int| 0 <= i < names.len() && names[i] == service;
        assert(kept.contains(kept[i]));
        lemma_filter_members(edges, p, kept[i]);
        let k = choose|k: int| 0 <= k < edges.len() && edges[k] == kept[i];
        assert(edges[k].service == service);
    }
    if exists|k: int|
        0 <= k < edges.len() && (#[trigger] edges[k]).service == service && root.occurrence(
            edges[k],
        ) is None {
        let k = choose|k: int|
            0 <= k < edges.len() && (#[trigger] edges[k]).service == service && root.occurrence(
                edges[k],
            ) is None;
        assert(edges.contains(edges[k]));
        lemma_filter_members(edges, p, edges[k]);
        let i = choose|i: int| 0 <= i < kept.len() && kept[i] == edges[k];
        assert(names[i] == service);
    }
}

/// What an active Fiber publishes at a Context, the Fibers spawned from that Context
/// find: a declared Service that was just provided there is not missing, whatever
/// realm the Context places it in.
pub proof fn law_a_spawned_fiber_finds_what_its_context_provides(
    root: RootView,
    ctx: ContextView,
    service: Seq<char>,
    contract: ContractId,
    value: u64,
    plugin: TypedPlugin,
    name: Seq<char>,
    inject: Seq<InjectEntryView>,
)
    requires
        root.sound(),
        root.room(4),
        root.fibers.len() < usize::MAX,
        normalized(inject),
        root.publish_verdict(ctx, service, contract) is Publish,
        root.fiber(ctx.fiber).current() is Active,
    ensures
        ({
            let provided = root.providing(ctx, service, contract, value);
            let after = provided.admitting(ctx, plugin, name, inject);
            !after.missing(provided.next_fiber()).contains(service)
        }),
{
    let provided = root.providing(ctx, service, contract, value);
    let after = provided.admitting(ctx, plugin, name, inject);
    let edge = EdgeView { service, realm: ctx.realm_of(service) };
    assert(root.services.exact()) by {
        reveal(RootView::sound);
    }
    law_a_lookup_finds_what_was_provided(root, ctx, service, contract, value);
    lemma_providing(root, ctx, service, contract, value);
    let id = provided.next_fiber();
    assert(after.services == provided.services);
    assert(provided.lookup(edge, contract) is Ok);
    let slot = provided.services.slot(edge).unwrap();
    assert(after.fibers == provided.fibers.push(
        provided.admitted_fiber(ctx, plugin, name, inject),
    ));
    assert(after.is_visible(slot));
    assert(after.occurrence(edge) is Some);
    law_a_spawned_fiber_requires_what_it_declares(provided, ctx, plugin, name, inject, service);
    lemma_missing(after, id, service);
    let edges = after.fiber(id).edges;
    if declares(inject, service) {
        let k = choose|k: int| 0 <= k < edges.len() && #[trigger] edges[k] == edge && forall|j: int|
            0 <= j < edges.len() && j != k ==> (#[trigger] edges[j]).service != service;
        assert(edges[k].service == service);
    }
}

/// A Fiber spawned from a Context that isolates a Service requires it in that
/// private realm; every other Service it requires where the outer Context does.
pub proof fn law_an_isolated_requirement_stays_private(
    root: RootView,
    outer: ContextView,
    isolated: Seq<char>,
    key: RealmKey,
    plugin: TypedPlugin,
    name: Seq<char>,
    inject: Seq<InjectEntryView>,
    service: Seq<char>,
)
    requires
        root.fibers.len() < usize::MAX,
        normalized(inject),
        declares(inject, service),
    ensures
        ({
            let inner = outer.placing(seq![(isolated, key)]);
            let edges = root.admitting(inner, plugin, name, inject).fiber(root.next_fiber()).edges;
            requires_at(
                edges,
                service,
                if service == isolated {
                    key
                } else {
                    outer.realm_of(service)
                },
            )
        }),
{
    let inner = outer.placing(seq![(isolated, key)]);
    law_an_isolating_context_places_one_service(outer, isolated, key, service);
    law_a_spawned_fiber_requires_what_it_declares(root, inner, plugin, name, inject, service);
}

/// A derivation that isolates one Service places it in the given realm and leaves
/// every other where it was. The outermost Context places everything in the default
/// realm.
pub proof fn law_an_isolating_context_places_one_service(
    outer: ContextView,
    isolated: Seq<char>,
    key: RealmKey,
    service: Seq<char>,
)
    ensures
        outer.placing(seq![(isolated, key)]).realm_of(service) == (if service == isolated {
            key
        } else {
            outer.realm_of(service)
        }),
        outer.isolate.len() == 0 ==> outer.realm_of(service) == RealmKey(0),
{
    let rows: PlacementRows = seq![(isolated, key)];
    law_a_derivation_places_only_what_it_names(outer, rows, service);
    lemma_first_meets(rows, places(service));
    if service == isolated {
        assert(is_first(rows, places(service), 0));
        lemma_first_found(rows, places(service), 0);
    } else {
        assert(rows[0].0 != service);
    }
}

/// The Context of a spawned Fiber looks every Service up where the spawning Context
/// does, and configures it as the spawning Context does, with the layer of the
/// Fiber's own declaration, where it carries one, innermost.
pub proof fn law_a_spawned_fiber_sees_what_its_context_sees(
    ctx: ContextView,
    inject: Seq<InjectEntryView>,
    id: u64,
    service: Seq<char>,
)
    requires
        normalized(inject),
    ensures
        ({
            let inner = era_scope(ctx, inject, id);
            &&& inner.realm_of(service) == ctx.realm_of(service)
            &&& inner.runtime == ctx.runtime
            &&& inner.scope == seq![id] + ctx.scope
            &&& layers_for(inner.intercept, service) == layers_for(ctx.intercept, service) + (
            if declared(inject).contains_key(service) {
                match declared(inject)[service] {
                    Some(layer) => seq![layer],
                    None => Seq::empty(),
                }
            } else {
                Seq::empty()
            })
        }),
{
    lemma_configured(ctx.scoped(id), inject, service);
    assert(declared(inject).contains_key(service) == declares(inject, service));
    if declares(inject, service) {
        let k = choose|k: int| 0 <= k < inject.len() && (#[trigger] inject[k]).name == service;
        lemma_declared_at(inject, k);
    }
}

proof fn lemma_configured(base: ContextView, inject: Seq<InjectEntryView>, service: Seq<char>)
    requires
        normalized(inject),
    ensures
        ({
            let inner = inject.fold_left(base, configuring());
            &&& inner.isolate == base.isolate
            &&& inner.runtime == base.runtime
            &&& inner.scope == base.scope
            &&& !declares(inject, service) ==> layers_for(inner.intercept, service) == layers_for(
                base.intercept,
                service,
            )
            &&& forall|k: int|
                0 <= k < inject.len() && (#[trigger] inject[k]).name == service ==> layers_for(
                    inner.intercept,
                    service,
                ) == layers_for(base.intercept, service) + (match inject[k].configured {
                    Some(layer) => seq![layer],
                    None => Seq::empty(),
                })
        }),
    decreases inject.len(),
{
    if inject.len() > 0 {
        let shorter = inject.drop_last();
        let last = inject.last();
        let mid = shorter.fold_left(base, configuring());
        assert(normalized(shorter)) by {
            assert forall|i: int, j: int| 0 <= i < j < shorter.len() implies before(
                (#[trigger] shorter[i]).name,
                (#[trigger] shorter[j]).name,
            ) by {
                assert(before(inject[i].name, inject[j].name));
            }
        }
        lemma_configured(base, shorter, service);
        match last.configured {
            Some(layer) => law_an_intercept_is_innermost_for_its_service(
                mid,
                last.name,
                layer,
                service,
            ),
            None => {},
        }
        let n = inject.len() - 1;
        let inner = inject.fold_left(base, configuring());
        assert(inner == configuring()(mid, last));
        if last.name == service {
            assert(!declares(shorter, service)) by {
                if declares(shorter, service) {
                    let k = choose|k: int|
                        0 <= k < shorter.len() && (#[trigger] shorter[k]).name == service;
                    assert(before(inject[k].name, inject[n].name));
                    lemma_irreflexive(service);
                }
            }
            let outer = layers_for(base.intercept, service);
            match last.configured {
                Some(layer) => {
                    assert(outer.push(layer) =~= outer + seq![layer]);
                },
                None => {
                    assert(outer =~= outer + Seq::empty());
                },
            }
            assert forall|k: int|
                0 <= k < inject.len() && (#[trigger] inject[k]).name == service implies k == n by {
                if k < n {
                    assert(before(inject[k].name, inject[n].name));
                    lemma_irreflexive(service);
                }
            }
        } else {
            assert forall|k: int|
                0 <= k < inject.len() && (#[trigger] inject[k]).name == service implies layers_for(
                inner.intercept,
                service,
            ) == layers_for(base.intercept, service) + (match inject[k].configured {
                Some(layer) => seq![layer],
                None => Seq::empty(),
            }) by {
                assert(k < n);
                assert(shorter[k] == inject[k]);
            }
            if declares(shorter, service) {
                let k = choose|k: int|
                    0 <= k < shorter.len() && (#[trigger] shorter[k]).name == service;
                assert(inject[k].name == service);
            }
        }
    }
}

} // verus!
