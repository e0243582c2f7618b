//! Capturing Runtime snapshots.

use crate::context::Context;
use crate::deps::EdgeView;
use crate::ids::{FiberId, ServicePublicationId};
use crate::observation::{
    fiber_records, service_records, FiberSnapshot, FiberSnapshotView, RuntimeSnapshot,
    ServiceSnapshot, ServiceSnapshotView, SnapshotView,
};
use crate::root::{Root, RootView};
use crate::order::before;
use crate::owed::ascending;
use crate::seqs::{lemma_filter_map_members, lemma_filter_map_step, lemma_filter_members};
use crate::service::{ServiceRealm, SlotView};
use crate::state::{FiberRole, FiberState};
use crate::text::views;
use vstd::prelude::*;

verus! {

impl RootView {
    /// The record of one ordinary Fiber: what it misses counts only while it lives
    /// and is pending.
    pub open spec fn fiber_record(self, id: FiberId) -> FiberSnapshotView {
        let fiber = self.fiber(id);
        FiberSnapshotView {
            id,
            role: FiberRole::Ordinary,
            name: fiber.name,
            state: fiber.current(),
            missing_services: if fiber.current() is Pending && fiber.alive {
                self.missing(id)
            } else {
                Seq::empty()
            },
        }
    }

    /// The record of the root Fiber.
    pub open spec fn root_record(self) -> FiberSnapshotView {
        FiberSnapshotView {
            id: FiberId(0),
            role: FiberRole::Root,
            name: self.fiber(FiberId(0)).name,
            state: FiberState::Active,
            missing_services: Seq::empty(),
        }
    }

    /// The record of a resident Fiber.
    pub open spec fn resident_record(self) -> spec_fn(FiberId) -> Option<FiberSnapshotView> {
        |id: FiberId|
            if self.has(id) {
                Some(self.fiber_record(id))
            } else {
                None
            }
    }

    /// The record of an occupied slot, while its owner's generation is open.
    pub open spec fn service_record(self) -> spec_fn(SlotView) -> Option<ServiceSnapshotView> {
        |s: SlotView|
            if self.admits(s.owner) {
                Some(
                    ServiceSnapshotView {
                        id: ServicePublicationId(s.occurrence),
                        service: s.service,
                        realm: self.realm_of(s.realm),
                        provider: s.owner,
                        visible: self.fiber(s.owner).current() is Active,
                    },
                )
            } else {
                None
            }
    }

    /// The flat projection of the Runtime's current state: the root Fiber first,
    /// then the residents; and every occupied occurrence of an open generation.
    pub open spec fn snapshot(self) -> SnapshotView {
        SnapshotView {
            fibers: seq![self.root_record()] + self.registry.residents.filter_map(
                self.resident_record(),
            ),
            services: self.services.slots.filter_map(self.service_record()),
        }
    }
}

/// The record of one ordinary Fiber.
pub fn fiber_snapshot(root: &Root, id: FiberId) -> (r: FiberSnapshot)
    requires
        root@.has(id),
    ensures
        r@ == root@.fiber_record(id),
{
    let state = root.fiber(id).state.current();
    let missing: Vec<String> = if state == FiberState::Pending && root.fiber(id).alive {
        root.missing_from(id)
    } else {
        Vec::new()
    };
    assert(state is Pending && root@.fiber(id).alive || views(missing@) =~= Seq::empty());
    FiberSnapshot::new(id, FiberRole::Ordinary, root.fiber(id).name.clone(), state, missing)
}

fn resident_records(root: &Root) -> (r: Vec<FiberSnapshot>)
    ensures
        fiber_records(r@) == root@.registry.residents.filter_map(root@.resident_record()),
{
    let residents = root.registry().snapshot_fibers();
    let ghost rows = residents@;
    let ghost f = root@.resident_record();
    let mut out: Vec<FiberSnapshot> = Vec::new();
    let mut i: usize = 0;
    proof {
        assert(rows.take(0) =~= Seq::empty());
        reveal(Seq::filter_map);
        assert(rows.take(0).filter_map(f) =~= fiber_records(out@));
    }
    while i < residents.len()
        invariant
            i <= residents@.len(),
            rows == residents@,
            f == root@.resident_record(),
            fiber_records(out@) == rows.take(i as int).filter_map(f),
        decreases residents@.len() - i,
    {
        proof {
            lemma_filter_map_step(rows, f, i as int);
        }
        if root.has_fiber(residents[i]) {
            let record = fiber_snapshot(root, residents[i]);
            assert(fiber_records(out@.push(record)) =~= fiber_records(out@).push(record@));
            out.push(record);
        }
        i = i + 1;
    }
    assert(rows.take(i as int) =~= rows);
    out
}

fn occurrence_records(root: &Root) -> (r: Vec<ServiceSnapshot>)
    ensures
        service_records(r@) == root@.services.slots.filter_map(root@.service_record()),
{
    let services = root.services();
    let ghost rows = services@.slots;
    let ghost f = root@.service_record();
    let mut out: Vec<ServiceSnapshot> = Vec::new();
    let mut i: usize = 0;
    proof {
        assert(rows.take(0) =~= Seq::empty());
        reveal(Seq::filter_map);
        assert(rows.take(0).filter_map(f) =~= service_records(out@));
    }
    while i < services.occupied()
        invariant
            i <= rows.len(),
            rows == services@.slots,
            f == root@.service_record(),
            service_records(out@) == rows.take(i as int).filter_map(f),
        decreases rows.len() - i,
    {
        proof {
            lemma_filter_map_step(rows, f, i as int);
        }
        let slot = services.at(i);
        if root.admits(slot.owner) {
            let record = ServiceSnapshot::new(
                ServicePublicationId(slot.occurrence),
                slot.service.clone(),
                ServiceRealm::new(root.runtime(), slot.realm),
                slot.owner,
                root.fiber(slot.owner).state.current() == FiberState::Active,
            );
            assert(service_records(out@.push(record)) =~= service_records(out@).push(record@));
            out.push(record);
        }
        i = i + 1;
    }
    assert(rows.take(i as int) =~= rows);
    out
}

impl Context {
    /// A flat read-only projection of the Runtime's current state.
    pub fn runtime_snapshot(&self, root: &Root) -> (r: RuntimeSnapshot)
        requires
            root@.has(FiberId(0)),
        ensures
            r@ == root@.snapshot(),
    {
        let mut fibers: Vec<FiberSnapshot> = Vec::new();
        let missing: Vec<String> = Vec::new();
        assert(views(missing@) =~= Seq::empty());
        let first = FiberSnapshot::new(
            FiberId(0),
            FiberRole::Root,
            root.fiber(FiberId(0)).name.clone(),
            FiberState::Active,
            missing,
        );
        fibers.push(first);
        let mut residents = resident_records(root);
        let ghost rest = fiber_records(residents@);
        fibers.append(&mut residents);
        assert(fiber_records(fibers@) =~= seq![root@.root_record()] + rest);
        RuntimeSnapshot::new(fibers, occurrence_records(root))
    }
}

/// A publication is shown as visible exactly where a lookup of its slot finds
/// it: a snapshot and a lookup agree.
pub proof fn law_a_snapshot_shows_what_a_lookup_finds(root: RootView, slot: SlotView)
    requires
        root.services.slot(slot.edge()) == Some(slot),
        root.admits(slot.owner),
    ensures
        root.service_record()(slot) matches Some(record) && record.visible == (root.occurrence(
            slot.edge(),
        ) == Some(slot.occurrence)),
{
}

proof fn lemma_resident_records(root: RootView, residents: Seq<FiberId>)
    requires
        forall|i: int| 0 <= i < residents.len() ==> root.has(#[trigger] residents[i]),
    ensures
        residents.filter_map(root.resident_record()).len() == residents.len(),
        forall|i: int|
            0 <= i < residents.len() ==> (#[trigger] residents.filter_map(
                root.resident_record(),
            )[i]) == root.fiber_record(residents[i]),
    decreases residents.len(),
{
    reveal(Seq::filter_map);
    if residents.len() > 0 {
        let n = residents.len() - 1;
        let shorter = residents.drop_last();
        assert forall|i: int| 0 <= i < shorter.len() implies root.has(#[trigger] shorter[i]) by {
            assert(root.has(residents[i]));
        }
        lemma_resident_records(root, shorter);
        assert(residents.take(n + 1) =~= residents);
        assert(residents.take(n) =~= shorter);
        lemma_filter_map_step(residents, root.resident_record(), n);
        assert(root.has(residents[n]));
    }
}

/// A snapshot begins with one record of the root Fiber, which is active and
/// misses nothing; every resident has one record more, as an ordinary Fiber; and
/// no two records are of one Fiber.
pub proof fn law_a_snapshot_has_one_record_per_fiber(root: RootView)
    requires
        root.sound(),
    ensures
        ({
            let fibers = root.snapshot().fibers;
            let residents = root.registry.residents;
            &&& fibers.len() == residents.len() + 1
            &&& fibers[0] == root.root_record()
            &&& fibers[0].role is Root
            &&& fibers[0].state is Active
            &&& fibers[0].missing_services.len() == 0
            &&& forall|i: int|
                0 < i < fibers.len() ==> (#[trigger] fibers[i]) == root.fiber_record(
                    residents[i - 1],
                ) && fibers[i].role is Ordinary
            &&& forall|i: int, j: int|
                0 <= i < j < fibers.len() ==> (#[trigger] fibers[i]).id != (
                #[trigger] fibers[j]).id
        }),
{
    reveal(RootView::sound);
    let fibers = root.snapshot().fibers;
    let residents = root.registry.residents;
    lemma_resident_records(root, residents);
    let records = residents.filter_map(root.resident_record());
    assert forall|i: int| 0 < i < fibers.len() implies (#[trigger] fibers[i]) == root.fiber_record(
        residents[i - 1],
    ) by {
        assert(fibers[i] == records[i - 1]);
    }
    assert forall|i: int, j: int| 0 <= i < j < fibers.len() implies (#[trigger] fibers[i]).id != (
    #[trigger] fibers[j]).id by {
        assert(residents.contains(residents[j - 1]));
        if i > 0 {
            assert(residents[i - 1] != residents[j - 1]);
        }
    }
}

/// A fresh Runtime shows its root Fiber alone, and no publication.
pub proof fn law_a_fresh_runtime_shows_its_root_alone(runtime: u64)
    ensures
        RootView::fresh(runtime).snapshot().fibers == seq![
            FiberSnapshotView {
                id: FiberId(0),
                role: FiberRole::Root,
                name: "root"@,
                state: FiberState::Active,
                missing_services: Seq::empty(),
            },
        ],
        RootView::fresh(runtime).snapshot().services.len() == 0,
{
    reveal(Seq::filter_map);
    let fresh = RootView::fresh(runtime);
    assert(fresh.snapshot().fibers =~= seq![fresh.root_record()]);
}

proof fn lemma_service_records(root: RootView, slots: Seq<SlotView>)
    requires
        forall|i: int, j: int|
            0 <= i < j < slots.len() ==> (#[trigger] slots[i]).edge() != (
            #[trigger] slots[j]).edge() && slots[i].occurrence != slots[j].occurrence,
    ensures
        ({
            let records = slots.filter_map(root.service_record());
            forall|i: int, j: int|
                0 <= i < j < records.len() ==> (#[trigger] records[i]).id != (
                #[trigger] records[j]).id && !(records[i].service == records[j].service
                    && records[i].realm == records[j].realm)
        }),
    decreases slots.len(),
{
    reveal(Seq::filter_map);
    if slots.len() > 0 {
        let f = root.service_record();
        let n = slots.len() - 1;
        let shorter = slots.drop_last();
        assert forall|i: int, j: int| 0 <= i < j < shorter.len() implies (
        #[trigger] shorter[i]).edge() != (#[trigger] shorter[j]).edge() && shorter[i].occurrence
            != shorter[j].occurrence by {
            assert(slots[i].edge() != slots[j].edge());
        }
        lemma_service_records(root, shorter);
        assert(slots.take(n + 1) =~= slots);
        assert(slots.take(n) =~= shorter);
        lemma_filter_map_step(slots, f, n);
        let fewer = shorter.filter_map(f);
        let records = slots.filter_map(f);
        assert forall|i: int, j: int| 0 <= i < j < records.len() implies (
        #[trigger] records[i]).id != (#[trigger] records[j]).id && !(records[i].service
            == records[j].service && records[i].realm == records[j].realm) by {
            if j < fewer.len() {
                assert(fewer[i].id != fewer[j].id);
            } else {
                assert(fewer.contains(fewer[i]));
                lemma_filter_map_members(shorter, f, fewer[i]);
                let k = choose|k: int|
                    0 <= k < shorter.len() && f(#[trigger] shorter[k]) == Some(fewer[i]);
                assert(slots[k] == shorter[k]);
                assert(slots[k].edge() != slots[n].edge());
                assert(f(slots[n]) == Some(records[j]));
            }
        }
    }
}

/// A snapshot shows each publication of an open generation once: no two records
/// have one identity or one exact slot, every provider's generation is open, and
/// a publication is visible exactly where its provider is active.
pub proof fn law_a_snapshot_shows_each_open_publication_once(root: RootView)
    requires
        root.sound(),
    ensures
        ({
            let records = root.snapshot().services;
            &&& forall|i: int, j: int|
                0 <= i < j < records.len() ==> (#[trigger] records[i]).id != (
                #[trigger] records[j]).id && !(records[i].service == records[j].service
                    && records[i].realm == records[j].realm)
            &&& forall|i: int|
                0 <= i < records.len() ==> root.admits((#[trigger] records[i]).provider)
                    && records[i].visible == root.fiber(records[i].provider).current() is Active
            &&& forall|i: int|
                0 <= i < root.services.slots.len() && root.admits(
                    (#[trigger] root.services.slots[i]).owner,
                ) ==> records.contains(root.service_record()(root.services.slots[i]).unwrap())
        }),
{
    reveal(RootView::sound);
    let slots = root.services.slots;
    let f = root.service_record();
    let records = root.snapshot().services;
    assert forall|i: int, j: int| 0 <= i < j < slots.len() implies (#[trigger] slots[i]).edge() != (
    #[trigger] slots[j]).edge() && slots[i].occurrence != slots[j].occurrence by {}
    lemma_service_records(root, slots);
    assert forall|i: int| 0 <= i < records.len() implies root.admits(
        (#[trigger] records[i]).provider,
    ) && records[i].visible == root.fiber(records[i].provider).current() is Active by {
        assert(records.contains(records[i]));
        lemma_filter_map_members(slots, f, records[i]);
        let k = choose|k: int| 0 <= k < slots.len() && f(#[trigger] slots[k]) == Some(records[i]);
        assert(root.admits(slots[k].owner));
    }
    assert forall|i: int| 0 <= i < slots.len() && root.admits(
        (#[trigger] slots[i]).owner,
    ) implies records.contains(f(slots[i]).unwrap()) by {
        lemma_filter_map_members(slots, f, f(slots[i]).unwrap());
        assert(f(slots[i]) == Some(f(slots[i]).unwrap()));
    }
}

proof fn lemma_filtered_ascend(edges: Seq<EdgeView>, p: spec_fn(EdgeView) -> bool)
    requires
        ascending(edges),
    ensures
        ascending(edges.filter(p)),
    decreases edges.len(),
{
    reveal(Seq::filter);
    if edges.len() > 0 {
        let shorter = edges.drop_last();
        let last = edges.last();
        let n = edges.len() - 1;
        assert(ascending(shorter)) by {
            assert forall|i: int, j: int| 0 <= i < j < shorter.len() implies before(
                (#[trigger] shorter[i]).service,
                (#[trigger] shorter[j]).service,
            ) by {
                assert(before(edges[i].service, edges[j].service));
            }
        }
        lemma_filtered_ascend(shorter, p);
        let fewer = shorter.filter(p);
        let kept = edges.filter(p);
        assert forall|i: int, j: int| 0 <= i < j < kept.len() implies before(
            (#[trigger] kept[i]).service,
            (#[trigger] kept[j]).service,
        ) by {
            if j < fewer.len() {
                assert(before(fewer[i].service, fewer[j].service));
            } else {
                assert(fewer.contains(fewer[i]));
                lemma_filter_members(shorter, p, fewer[i]);
                let k = choose|k: int| 0 <= k < shorter.len() && shorter[k] == fewer[i];
                assert(before(edges[k].service, edges[n].service));
            }
        }
    }
}

/// The missing Services of a spawned Fiber ascend by name, without a duplicate.
pub proof fn law_missing_services_ascend(root: RootView, id: FiberId)
    requires
        root.sound(),
        root.has(id),
        root.fiber(id).spawn is Some,
    ensures
        forall|i: int, j: int|
            0 <= i < j < root.missing(id).len() ==> before(
                #[trigger] root.missing(id)[i],
                #[trigger] root.missing(id)[j],
            ),
{
    reveal(RootView::sound);
    let edges = root.fibers[id.0 as int].edges;
    let kept = edges.filter(root.is_missing());
    lemma_filtered_ascend(edges, root.is_missing());
    assert forall|i: int, j: int| 0 <= i < j < root.missing(id).len() implies before(
        #[trigger] root.missing(id)[i],
        #[trigger] root.missing(id)[j],
    ) by {
        assert(before(kept[i].service, kept[j].service));
    }
}

/// In every record of a snapshot the missing Services ascend by name, without a
/// duplicate.
pub proof fn law_a_snapshot_lists_missing_services_in_order(root: RootView, n: int)
    requires
        root.sound(),
        0 <= n < root.snapshot().fibers.len(),
    ensures
        ({
            let missing = root.snapshot().fibers[n].missing_services;
            forall|i: int, j: int|
                0 <= i < j < missing.len() ==> before(
                    #[trigger] missing[i],
                    #[trigger] missing[j],
                )
        }),
{
    law_a_snapshot_has_one_record_per_fiber(root);
    if n > 0 {
        let id = root.registry.residents[n - 1];
        assert(root.has(id) && root.fiber(id).spawn is Some) by {
            reveal(RootView::sound);
            assert(root.fibers[id.0 as int].residency is Some);
        }
        law_missing_services_ascend(root, id);
    }
}

} // verus!
