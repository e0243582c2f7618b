//! Services: typed, reactive dependency slots. Each exact `(Service, realm)`
//! slot carries at most one current publication occurrence.

use crate::deps::{DependencyEdge, EdgeView};
use crate::ids::{ContractId, FiberId, RealmKey, ServiceOccurrenceId};
use crate::seqs::{
    first, first_index, is_first, lemma_filter_step, lemma_first_absent, lemma_first_found,
    without_first,
};
use crate::text::join3;
use vstd::prelude::*;

verus! {

/// An opaque Runtime-local placement identity for exact Service slots. Realms of
/// different Runtimes are never equal.
#[derive(Clone, Copy, PartialEq, Eq, Structural, Debug, Hash)]
pub struct ServiceRealm {
    /// The Runtime that allocated the realm.
    pub membership: u64,
    /// The realm's key in that Runtime.
    pub key: RealmKey,
}

impl ServiceRealm {
    /// The realm `key` of Runtime `membership`.
    pub fn new(membership: u64, key: RealmKey) -> (r: ServiceRealm)
        ensures
            r == (ServiceRealm { membership, key }),
    {
        ServiceRealm { membership, key }
    }

    /// Whether Runtime `membership` allocated the realm.
    pub fn belongs_to(&self, membership: u64) -> (r: bool)
        ensures
            r == (self.membership == membership),
    {
        self.membership == membership
    }

    /// The realm's key.
    pub fn key(&self) -> (r: RealmKey)
        ensures
            r == self.key,
    {
        self.key
    }
}

/// A complete Service-realm mapping batch was invalid.
#[derive(Debug)]
pub enum RealmMappingError {
    /// One Service name occurred more than once in the batch.
    DuplicateService {
        /// The duplicated Service name.
        service: String,
    },
    /// A mapping used a realm allocated by another Runtime.
    ForeignRealm {
        /// The Service name carrying the foreign realm.
        service: String,
    },
}

impl RealmMappingError {
    /// The text the refusal displays.
    pub open spec fn spec_message(self) -> Seq<char> {
        match self {
            RealmMappingError::DuplicateService { service } => "service `"@ + service@
                + "` is mapped more than once"@,
            RealmMappingError::ForeignRealm { service } => "service `"@ + service@
                + "` uses a realm from another Runtime"@,
        }
    }

    /// The text the refusal displays.
    pub fn message(&self) -> (r: String)
        ensures
            r@ == self.spec_message(),
    {
        match self {
            RealmMappingError::DuplicateService { service } => join3(
                "service `",
                service.as_str(),
                "` is mapped more than once",
            ),
            RealmMappingError::ForeignRealm { service } => join3(
                "service `",
                service.as_str(),
                "` uses a realm from another Runtime",
            ),
        }
    }
}

/// A type linked to one Runtime-local named Service contract.
pub trait Service {
    /// The Service contract name.
    const NAME: &'static str;
}

/// A Service contract that owns the composition of its configuration layers.
/// Layers are named by the host.
pub trait ConfigurableService: Service {
    /// The complete composed configuration.
    type Resolved;

    /// Failure while composing prepared layers.
    type ComposeError;

    /// What a composition may return; anything, unless the contract says more.
    open spec fn composes(
        base: Option<u64>,
        layers: Seq<u64>,
        head: Option<u64>,
        r: Result<Self::Resolved, Self::ComposeError>,
    ) -> bool {
        true
    }

    /// Composes the optional base, the ordered layers, and the optional head.
    fn compose_config(base: Option<u64>, layers: &Vec<u64>, head: Option<u64>) -> (r: Result<
        Self::Resolved,
        Self::ComposeError,
    >)
        ensures
            Self::composes(base, layers@, head, r),
    ;
}

/// Failure to resolve one configurable Service's complete configuration.
#[derive(Debug)]
pub enum ConfigResolutionError<E> {
    /// A same-name prepared layer belongs to another Service contract.
    ContractMismatch {
        /// The conflicting Service name.
        service: String,
    },
    /// The Service contract rejected composition.
    Compose(E),
}

/// Exact visible lookup failure.
#[derive(Debug, PartialEq, Eq)]
pub enum ServiceLookupError {
    /// The exact selected realm has no visible publication.
    Unavailable {
        /// The requested Service name.
        service: String,
    },
    /// The Runtime already binds this name to another typed contract.
    ContractMismatch {
        /// The conflicting Service name.
        service: String,
    },
}

impl ServiceLookupError {
    /// The text the failure displays.
    pub open spec fn spec_message(self) -> Seq<char> {
        match self {
            ServiceLookupError::Unavailable { service } => "service `"@ + service@
                + "` is unavailable"@,
            ServiceLookupError::ContractMismatch { service } => "service `"@ + service@
                + "` belongs to a different contract"@,
        }
    }

    /// The text the failure displays.
    pub fn message(&self) -> (r: String)
        ensures
            r@ == self.spec_message(),
    {
        match self {
            ServiceLookupError::Unavailable { service } => join3(
                "service `",
                service.as_str(),
                "` is unavailable",
            ),
            ServiceLookupError::ContractMismatch { service } => join3(
                "service `",
                service.as_str(),
                "` belongs to a different contract",
            ),
        }
    }
}

/// Service publication admission failure.
#[derive(Debug, PartialEq, Eq)]
pub enum ServicePublishError {
    /// The current Context generation no longer admits registrations.
    InactiveContext,
    /// The exact slot already has an eligible current publication.
    DuplicatePublication {
        /// The occupied Service name.
        service: String,
    },
    /// The Runtime already binds this name to another typed contract.
    ContractMismatch {
        /// The conflicting Service name.
        service: String,
    },
}

impl ServicePublishError {
    /// The text the refusal displays.
    pub open spec fn spec_message(self) -> Seq<char> {
        match self {
            ServicePublishError::InactiveContext => "the current Context generation is closed"@,
            ServicePublishError::DuplicatePublication { service } => "service `"@ + service@
                + "` already has a publication in this realm"@,
            ServicePublishError::ContractMismatch { service } => "service `"@ + service@
                + "` belongs to a different contract"@,
        }
    }

    /// The text the refusal displays.
    pub fn message(&self) -> (r: String)
        ensures
            r@ == self.spec_message(),
    {
        match self {
            ServicePublishError::InactiveContext =>
                "the current Context generation is closed".to_owned(),
            ServicePublishError::DuplicatePublication { service } => join3(
                "service `",
                service.as_str(),
                "` already has a publication in this realm",
            ),
            ServicePublishError::ContractMismatch { service } => join3(
                "service `",
                service.as_str(),
                "` belongs to a different contract",
            ),
        }
    }
}

/// Failure to control one exact Service publication occurrence.
#[derive(Debug, PartialEq, Eq)]
pub enum ServiceControlError {
    /// The capability no longer names the current occurrence in its exact slot.
    StalePublication {
        /// The Service whose exact publication is no longer current.
        service: String,
    },
    /// The exact occurrence is current, but its generation no longer admits
    /// mutation.
    MutationClosed {
        /// The Service whose current publication can no longer be mutated.
        service: String,
    },
}

impl ServiceControlError {
    /// The text the refusal displays.
    pub open spec fn spec_message(self) -> Seq<char> {
        match self {
            ServiceControlError::StalePublication { service } => "service `"@ + service@
                + "` publication is stale"@,
            ServiceControlError::MutationClosed { service } => "service `"@ + service@
                + "` publication mutation is closed"@,
        }
    }

    /// The text the refusal displays.
    pub fn message(&self) -> (r: String)
        ensures
            r@ == self.spec_message(),
    {
        match self {
            ServiceControlError::StalePublication { service } => join3(
                "service `",
                service.as_str(),
                "` publication is stale",
            ),
            ServiceControlError::MutationClosed { service } => join3(
                "service `",
                service.as_str(),
                "` publication mutation is closed",
            ),
        }
    }
}

/// One occupied exact slot.
pub struct ServiceSlot {
    /// The realm of the slot.
    pub realm: RealmKey,
    /// The Service name of the slot.
    pub service: String,
    /// The current occurrence.
    pub occurrence: ServiceOccurrenceId,
    /// The host's name for the published value.
    pub value: u64,
    /// The typed contract of the value.
    pub contract: ContractId,
    /// The Fiber whose generation owns the publication.
    pub owner: FiberId,
}

/// An occupied slot as a mathematical value.
pub struct SlotView {
    pub realm: RealmKey,
    pub service: Seq<char>,
    pub occurrence: ServiceOccurrenceId,
    pub value: u64,
    pub contract: ContractId,
    pub owner: FiberId,
}

impl View for ServiceSlot {
    type V = SlotView;

    open spec fn view(&self) -> SlotView {
        SlotView {
            realm: self.realm,
            service: self.service@,
            occurrence: self.occurrence,
            value: self.value,
            contract: self.contract,
            owner: self.owner,
        }
    }
}

impl SlotView {
    /// The dependency edge that selects the slot.
    pub open spec fn edge(self) -> EdgeView {
        EdgeView { service: self.service, realm: self.realm }
    }
}

/// Whether a slot is the exact `(Service, realm)` one.
pub open spec fn slot_at(edge: EdgeView) -> spec_fn(SlotView) -> bool {
    |s: SlotView| s.realm == edge.realm && s.service == edge.service
}

/// Whether a slot is owned by `fiber`.
pub open spec fn owned_by(fiber: FiberId) -> spec_fn(SlotView) -> bool {
    |s: SlotView| s.owner == fiber
}

/// Whether a binding is for `name`.
pub open spec fn binds(name: Seq<char>) -> spec_fn((Seq<char>, ContractId)) -> bool {
    |row: (Seq<char>, ContractId)| row.0 == name
}

/// One exact publication whose visibility a lifecycle transition changes.
pub struct ServiceVisibilityOccurrence {
    /// The slot.
    pub edge: DependencyEdge,
    /// The exact occurrence.
    pub occurrence: ServiceOccurrenceId,
}

/// A visibility change as a mathematical value.
pub struct VisibilityView {
    pub edge: EdgeView,
    pub occurrence: ServiceOccurrenceId,
}

impl View for ServiceVisibilityOccurrence {
    type V = VisibilityView;

    open spec fn view(&self) -> VisibilityView {
        VisibilityView { edge: self.edge@, occurrence: self.occurrence }
    }
}

/// The views of a list of visibility changes.
pub open spec fn visibility_views(s: Seq<ServiceVisibilityOccurrence>) -> Seq<VisibilityView> {
    s.map_values(|v: ServiceVisibilityOccurrence| v@)
}

/// The publications of a list of slots.
pub open spec fn slot_publications(slots: Seq<SlotView>) -> Seq<VisibilityView> {
    slots.map_values(|s: SlotView| VisibilityView { edge: s.edge(), occurrence: s.occurrence })
}

/// The edges of a list of slots.
pub open spec fn slot_edges(slots: Seq<SlotView>) -> Seq<EdgeView> {
    slots.map_values(|s: SlotView| s.edge())
}

/// Runtime-local Service contract bindings and exact occupied slots.
pub struct ServiceStore {
    contracts: Vec<(String, ContractId)>,
    slots: Vec<ServiceSlot>,
}

/// The Service store as a mathematical value.
#[verifier::ext_equal]
pub struct ServicesView {
    /// Each Service name's one typed contract, in the order they were bound.
    pub contracts: Seq<(Seq<char>, ContractId)>,
    /// The occupied slots.
    pub slots: Seq<SlotView>,
}

impl View for ServiceStore {
    type V = ServicesView;

    closed spec fn view(&self) -> ServicesView {
        ServicesView {
            contracts: self.contracts@.map_values(|row: (String, ContractId)| (row.0@, row.1)),
            slots: self.slots@.map_values(|s: ServiceSlot| s@),
        }
    }
}

impl ServicesView {
    /// A store with nothing bound and nothing published.
    pub open spec fn empty() -> ServicesView {
        ServicesView { contracts: Seq::empty(), slots: Seq::empty() }
    }

    /// The contract `name` is bound to.
    pub open spec fn bound(self, name: Seq<char>) -> Option<ContractId> {
        match first(self.contracts, binds(name)) {
            Some(row) => Some(row.1),
            None => None,
        }
    }

    /// Whether `name` is free for, or bound to, `contract`.
    pub open spec fn compatible(self, name: Seq<char>, contract: ContractId) -> bool {
        match self.bound(name) {
            Some(c) => c == contract,
            None => true,
        }
    }

    /// The store with `name` bound to `contract`, unless it is bound already.
    pub open spec fn binding(self, name: Seq<char>, contract: ContractId) -> ServicesView {
        match self.bound(name) {
            Some(_) => self,
            None => ServicesView { contracts: self.contracts.push((name, contract)), ..self },
        }
    }

    /// The occupant of an exact slot.
    pub open spec fn slot(self, edge: EdgeView) -> Option<SlotView> {
        first(self.slots, slot_at(edge))
    }

    /// The store with the exact slot vacated.
    pub open spec fn without(self, edge: EdgeView) -> ServicesView {
        ServicesView { slots: without_first(self.slots, slot_at(edge)), ..self }
    }

    /// The store with `slot` as its exact slot's occupant.
    pub open spec fn placing(self, slot: SlotView) -> ServicesView {
        let vacated = self.without(slot.edge());
        ServicesView { slots: vacated.slots.push(slot), ..vacated }
    }

    /// The store with another value in the exact slot.
    pub open spec fn with_value(self, edge: EdgeView, value: u64) -> ServicesView {
        match first_index(self.slots, slot_at(edge)) {
            Some(i) => ServicesView {
                slots: self.slots.update(i, SlotView { value, ..self.slots[i] }),
                ..self
            },
            None => self,
        }
    }

    /// Whether `occurrence` is the current occupant of the exact slot.
    pub open spec fn is_current(self, edge: EdgeView, occurrence: ServiceOccurrenceId) -> bool {
        match self.slot(edge) {
            Some(s) => s.occurrence == occurrence,
            None => false,
        }
    }

    /// The store after the exact occurrence was withdrawn; one that is no longer
    /// current withdraws nothing.
    pub open spec fn withdrawn(self, edge: EdgeView, occurrence: ServiceOccurrenceId) -> ServicesView {
        if self.is_current(edge, occurrence) {
            self.without(edge)
        } else {
            self
        }
    }

    /// The slots `fiber` owns.
    pub open spec fn owned(self, fiber: FiberId) -> Seq<SlotView> {
        self.slots.filter(owned_by(fiber))
    }

    /// Every exact slot has one occupant.
    pub open spec fn exact(self) -> bool {
        forall|i: int, j: int|
            0 <= i < j < self.slots.len() ==> (#[trigger] self.slots[i]).edge() != (
            #[trigger] self.slots[j]).edge()
    }

    /// Every exact slot has one occupant, under an identity of its own that was
    /// issued before `bound`, and its name is bound to its contract.
    pub open spec fn sound(self, bound: u64) -> bool {
        &&& self.exact()
        &&& forall|i: int, j: int|
            0 <= i < j < self.slots.len() ==> (#[trigger] self.slots[i]).occurrence != (
            #[trigger] self.slots[j]).occurrence
        &&& forall|i: int|
            0 <= i < self.slots.len() ==> (#[trigger] self.slots[i]).occurrence.0 < bound
        &&& forall|i: int|
            0 <= i < self.slots.len() ==> self.bound((#[trigger] self.slots[i]).service) == Some(
                self.slots[i].contract,
            )
    }
}

impl ServiceStore {
    /// A store with nothing bound and nothing published.
    pub fn new() -> (r: ServiceStore)
        ensures
            r@ == ServicesView::empty(),
    {
        let r = ServiceStore { contracts: Vec::new(), slots: Vec::new() };
        assert(r@ =~= ServicesView::empty());
        r
    }

    /// The contract `name` is bound to.
    pub fn contract(&self, name: &String) -> (r: Option<ContractId>)
        ensures
            r == self@.bound(name@),
    {
        let ghost rows = self@.contracts;
        let mut i: usize = 0;
        while i < self.contracts.len()
            invariant
                i <= self.contracts@.len(),
                rows == self@.contracts,
                forall|j: int| 0 <= j < i ==> (#[trigger] rows[j]).0 != name@,
            decreases self.contracts@.len() - i,
        {
            assert(rows[i as int] == (self.contracts@[i as int].0@, self.contracts@[i as int].1));
            if self.contracts[i].0 == *name {
                proof {
                    assert(is_first(rows, binds(name@), i as int));
                    lemma_first_found(rows, binds(name@), i as int);
                }
                return Some(self.contracts[i].1);
            }
            i = i + 1;
        }
        proof {
            lemma_first_absent(rows, binds(name@));
        }
        None
    }

    /// Binds `name` to `contract` for the Runtime's lifetime, unless it is bound
    /// already; says whether the binding is to `contract`.
    pub fn bind(&mut self, name: &String, contract: ContractId) -> (r: bool)
        ensures
            r == old(self)@.compatible(name@, contract),
            final(self)@ == old(self)@.binding(name@, contract),
    {
        match self.contract(name) {
            Some(bound) => bound == contract,
            None => {
                self.contracts.push((name.clone(), contract));
                assert(self@.contracts =~= old(self)@.contracts.push((name@, contract)));
                assert(self@.slots =~= old(self)@.slots);
                true
            },
        }
    }

    /// The position of the exact slot.
    fn position(&self, realm: RealmKey, name: &String) -> (r: Option<usize>)
        ensures
            match r {
                Some(i) => i < self.slots@.len() && first_index(
                    self@.slots,
                    slot_at(EdgeView { service: name@, realm }),
                ) == Some(i as int),
                None => first_index(
                    self@.slots,
                    slot_at(EdgeView { service: name@, realm }),
                ) is None,
            },
    {
        let ghost rows = self@.slots;
        let ghost p = slot_at(EdgeView { service: name@, realm });
        let mut i: usize = 0;
        while i < self.slots.len()
            invariant
                i <= self.slots@.len(),
                rows == self@.slots,
                p == slot_at(EdgeView { service: name@, realm }),
                forall|j: int| 0 <= j < i ==> !p(#[trigger] rows[j]),
            decreases self.slots@.len() - i,
        {
            assert(rows[i as int] == self.slots@[i as int]@);
            if self.slots[i].realm == realm && self.slots[i].service == *name {
                proof {
                    assert(is_first(rows, p, i as int));
                    lemma_first_found(rows, p, i as int);
                }
                return Some(i);
            }
            i = i + 1;
        }
        proof {
            lemma_first_absent(rows, p);
        }
        None
    }

    /// The occupant of an exact slot.
    pub fn slot(&self, realm: RealmKey, name: &String) -> (r: Option<&ServiceSlot>)
        ensures
            match r {
                Some(s) => self@.slot(EdgeView { service: name@, realm }) == Some(s@),
                None => self@.slot(EdgeView { service: name@, realm }) is None,
            },
    {
        match self.position(realm, name) {
            Some(i) => Some(&self.slots[i]),
            None => None,
        }
    }

    /// Vacates an exact slot and returns its occupant.
    pub fn vacate(&mut self, realm: RealmKey, name: &String) -> (r: Option<ServiceSlot>)
        ensures
            match r {
                Some(s) => old(self)@.slot(EdgeView { service: name@, realm }) == Some(s@),
                None => old(self)@.slot(EdgeView { service: name@, realm }) is None,
            },
            final(self)@ == old(self)@.without(EdgeView { service: name@, realm }),
    {
        match self.position(realm, name) {
            Some(i) => {
                let removed = self.slots.remove(i);
                assert(self@.slots =~= old(self)@.slots.remove(i as int));
                assert(self@.contracts =~= old(self)@.contracts);
                Some(removed)
            },
            None => None,
        }
    }

    /// Makes `slot` its exact slot's occupant and returns the one it evicted.
    pub fn place(&mut self, slot: ServiceSlot) -> (r: Option<ServiceSlot>)
        ensures
            match r {
                Some(s) => old(self)@.slot(slot@.edge()) == Some(s@),
                None => old(self)@.slot(slot@.edge()) is None,
            },
            final(self)@ == old(self)@.placing(slot@),
    {
        let name = slot.service.clone();
        let evicted = self.vacate(slot.realm, &name);
        let ghost vacated = self@;
        self.slots.push(slot);
        assert(self@.slots =~= vacated.slots.push(slot@));
        assert(self@.contracts =~= vacated.contracts);
        evicted
    }

    /// Replaces the value in an exact occupied slot and returns the outgoing one.
    pub fn replace_value(&mut self, realm: RealmKey, name: &String, value: u64) -> (r: Option<u64>)
        ensures
            match r {
                Some(outgoing) => old(self)@.slot(EdgeView { service: name@, realm }) matches Some(
                    s,
                ) && s.value == outgoing,
                None => old(self)@.slot(EdgeView { service: name@, realm }) is None,
            },
            final(self)@ == old(self)@.with_value(EdgeView { service: name@, realm }, value),
    {
        match self.position(realm, name) {
            Some(i) => {
                let outgoing = self.slots[i].value;
                self.slots[i].value = value;
                assert(self@.slots =~= old(self)@.slots.update(
                    i as int,
                    SlotView { value, ..old(self)@.slots[i as int] },
                ));
                assert(self@.contracts =~= old(self)@.contracts);
                Some(outgoing)
            },
            None => None,
        }
    }

    /// Withdraws the exact occurrence, if it is still current.
    pub fn withdraw_exact(
        &mut self,
        realm: RealmKey,
        name: &String,
        occurrence: ServiceOccurrenceId,
    ) -> (r: bool)
        ensures
            r == old(self)@.is_current(EdgeView { service: name@, realm }, occurrence),
            final(self)@ == old(self)@.withdrawn(EdgeView { service: name@, realm }, occurrence),
    {
        let current = match self.slot(realm, name) {
            Some(slot) => slot.occurrence == occurrence,
            None => false,
        };
        if current {
            let _ = self.vacate(realm, name);
        }
        current
    }

    /// How many slots are occupied.
    pub fn occupied(&self) -> (r: usize)
        ensures
            r == self@.slots.len(),
    {
        self.slots.len()
    }

    /// The occupied slot at a position.
    pub fn at(&self, i: usize) -> (r: &ServiceSlot)
        requires
            i < self@.slots.len(),
        ensures
            r@ == self@.slots[i as int],
    {
        &self.slots[i]
    }

    /// The exact publications `fiber` owns.
    pub fn publications_of(&self, fiber: FiberId) -> (r: Vec<ServiceVisibilityOccurrence>)
        ensures
            visibility_views(r@) == slot_publications(self@.owned(fiber)),
    {
        let mut out: Vec<ServiceVisibilityOccurrence> = Vec::new();
        let mut i: usize = 0;
        let ghost rows = self@.slots;
        let ghost p = owned_by(fiber);
        proof {
            assert(rows.take(0) =~= Seq::empty());
            reveal(Seq::filter);
            assert(slot_publications(rows.take(0).filter(p)) =~= visibility_views(out@));
        }
        while i < self.slots.len()
            invariant
                i <= self.slots@.len(),
                rows == self@.slots,
                p == owned_by(fiber),
                visibility_views(out@) == slot_publications(rows.take(i as int).filter(p)),
            decreases self.slots@.len() - i,
        {
            proof {
                lemma_filter_step(rows, p, i as int);
                assert(rows[i as int] == self.slots@[i as int]@);
            }
            let ghost kept = rows.take(i as int).filter(p);
            if self.slots[i].owner == fiber {
                let row = ServiceVisibilityOccurrence {
                    edge: DependencyEdge {
                        service: self.slots[i].service.clone(),
                        realm: self.slots[i].realm,
                    },
                    occurrence: self.slots[i].occurrence,
                };
                proof {
                    assert(visibility_views(out@.push(row)) =~= visibility_views(out@).push(row@));
                    assert(slot_publications(kept.push(rows[i as int])) =~= slot_publications(
                        kept,
                    ).push(row@));
                }
                out.push(row);
            }
            i = i + 1;
        }
        assert(rows.take(i as int) =~= rows);
        out
    }

    /// The exact slots `fiber` owns.
    pub fn slots_owned_by(&self, fiber: FiberId) -> (r: Vec<DependencyEdge>)
        ensures
            crate::deps::edge_views(r@) == slot_edges(self@.owned(fiber)),
    {
        let mut out: Vec<DependencyEdge> = Vec::new();
        let mut i: usize = 0;
        let ghost rows = self@.slots;
        let ghost p = owned_by(fiber);
        proof {
            assert(rows.take(0) =~= Seq::empty());
            reveal(Seq::filter);
            assert(slot_edges(rows.take(0).filter(p)) =~= crate::deps::edge_views(out@));
        }
        while i < self.slots.len()
            invariant
                i <= self.slots@.len(),
                rows == self@.slots,
                p == owned_by(fiber),
                crate::deps::edge_views(out@) == slot_edges(rows.take(i as int).filter(p)),
            decreases self.slots@.len() - i,
        {
            proof {
                lemma_filter_step(rows, p, i as int);
                assert(rows[i as int] == self.slots@[i as int]@);
            }
            let ghost kept = rows.take(i as int).filter(p);
            if self.slots[i].owner == fiber {
                let edge = DependencyEdge {
                    service: self.slots[i].service.clone(),
                    realm: self.slots[i].realm,
                };
                proof {
                    assert(crate::deps::edge_views(out@.push(edge)) =~= crate::deps::edge_views(
                        out@,
                    ).push(edge@));
                    assert(slot_edges(kept.push(rows[i as int])) =~= slot_edges(kept).push(
                        rows[i as int].edge(),
                    ));
                }
                out.push(edge);
            }
            i = i + 1;
        }
        assert(rows.take(i as int) =~= rows);
        out
    }
}

/// A Service name keeps the contract it was first bound to.
pub proof fn law_a_binding_is_for_the_runtime_lifetime(
    store: ServicesView,
    name: Seq<char>,
    contract: ContractId,
    other: Seq<char>,
    offered: ContractId,
)
    requires
        store.bound(name) == Some(contract),
    ensures
        store.binding(other, offered).bound(name) == Some(contract),
{
    let after = store.binding(other, offered);
    if store.bound(other) is None {
        crate::seqs::lemma_first_meets(store.contracts, binds(name));
        let i = first_index(store.contracts, binds(name)).unwrap();
        assert forall|j: int| 0 <= j < i implies !binds(name)(#[trigger] after.contracts[j]) by {
            assert(after.contracts[j] == store.contracts[j]);
        }
        assert(after.contracts[i] == store.contracts[i]);
        assert(is_first(after.contracts, binds(name), i));
        lemma_first_found(after.contracts, binds(name), i);
    }
}

/// A name that was free is bound to the contract it was first offered.
pub proof fn law_the_first_binding_holds(
    store: ServicesView,
    name: Seq<char>,
    contract: ContractId,
)
    requires
        store.bound(name) is None,
    ensures
        store.binding(name, contract).bound(name) == Some(contract),
{
    let after = store.binding(name, contract);
    let i = store.contracts.len() as int;
    crate::seqs::lemma_first_meets(store.contracts, binds(name));
    assert forall|j: int| 0 <= j < i implies !binds(name)(#[trigger] after.contracts[j]) by {
        assert(after.contracts[j] == store.contracts[j]);
    }
    assert(is_first(after.contracts, binds(name), i));
    lemma_first_found(after.contracts, binds(name), i);
}

/// A consistent store stays so under a higher identity bound.
pub proof fn lemma_services_more(store: ServicesView, bound: u64, more: u64)
    requires
        store.sound(bound),
        bound <= more,
    ensures
        store.sound(more),
{
    assert forall|i: int| 0 <= i < store.slots.len() implies (
    #[trigger] store.slots[i]).occurrence.0 < more by {
        assert(store.slots[i].occurrence.0 < bound);
    }
}

/// A binding keeps the store consistent.
pub proof fn lemma_binding_sound(
    store: ServicesView,
    name: Seq<char>,
    contract: ContractId,
    bound: u64,
)
    requires
        store.sound(bound),
    ensures
        store.binding(name, contract).sound(bound),
        store.binding(name, contract).slots == store.slots,
{
    let after = store.binding(name, contract);
    assert forall|i: int| 0 <= i < after.slots.len() implies after.bound(
        (#[trigger] after.slots[i]).service,
    ) == Some(after.slots[i].contract) by {
        let s = store.slots[i];
        law_a_binding_is_for_the_runtime_lifetime(store, s.service, s.contract, name, contract);
    }
}

/// Vacating a slot keeps the store consistent.
pub proof fn lemma_without_sound(store: ServicesView, edge: EdgeView, bound: u64)
    requires
        store.sound(bound),
    ensures
        store.without(edge).sound(bound),
{
    let after = store.without(edge);
    lemma_without_same(store, edge);
    crate::seqs::lemma_first_meets(store.slots, slot_at(edge));
    match first_index(store.slots, slot_at(edge)) {
        Some(i) => {
            assert forall|j: int| 0 <= j < after.slots.len() implies #[trigger] after.slots[j] == (
            if j < i {
                store.slots[j]
            } else {
                store.slots[j + 1]
            }) by {}
            assert forall|j: int| 0 <= j < after.slots.len() implies (
            #[trigger] after.slots[j]).occurrence.0 < bound && after.bound(after.slots[j].service)
                == Some(after.slots[j].contract) by {
                let k = if j < i {
                    j
                } else {
                    j + 1
                };
                assert(after.bound(store.slots[k].service) == store.bound(store.slots[k].service));
            }
            assert forall|j: int, k: int| 0 <= j < k < after.slots.len() implies (
            #[trigger] after.slots[j]).occurrence != (#[trigger] after.slots[k]).occurrence by {
                let a = if j < i {
                    j
                } else {
                    j + 1
                };
                let b = if k < i {
                    k
                } else {
                    k + 1
                };
                assert(store.slots[a].occurrence != store.slots[b].occurrence);
            }
        },
        None => {},
    }
}

/// A publication under a fresh identity keeps the store consistent.
pub proof fn lemma_placing_sound(store: ServicesView, slot: SlotView, bound: u64, more: u64)
    requires
        store.sound(bound),
        bound <= slot.occurrence.0 < more,
        store.bound(slot.service) == Some(slot.contract),
    ensures
        store.placing(slot).sound(more),
{
    let vacated = store.without(slot.edge());
    let after = store.placing(slot);
    let n = vacated.slots.len() as int;
    lemma_without_sound(store, slot.edge(), bound);
    law_a_publication_occupies_one_exact_slot(store, slot, slot.edge());
    assert forall|j: int| 0 <= j < after.slots.len() implies (
    #[trigger] after.slots[j]).occurrence.0 < more && after.bound(after.slots[j].service) == Some(
        after.slots[j].contract,
    ) by {
        if j < n {
            assert(vacated.slots[j].occurrence.0 < bound);
            assert(after.bound(vacated.slots[j].service) == vacated.bound(
                vacated.slots[j].service,
            ));
        } else {
            assert(after.bound(slot.service) == store.bound(slot.service));
        }
    }
    assert forall|j: int, k: int| 0 <= j < k < after.slots.len() implies (
    #[trigger] after.slots[j]).occurrence != (#[trigger] after.slots[k]).occurrence by {
        assert(vacated.slots[j].occurrence.0 < bound);
        if k < n {
            assert(vacated.slots[j].occurrence != vacated.slots[k].occurrence);
        }
    }
}

/// Another value keeps the store consistent.
pub proof fn lemma_with_value_sound(store: ServicesView, edge: EdgeView, value: u64, bound: u64)
    requires
        store.sound(bound),
    ensures
        store.with_value(edge, value).sound(bound),
{
    let after = store.with_value(edge, value);
    crate::seqs::lemma_first_meets(store.slots, slot_at(edge));
    assert forall|i: int| 0 <= i < after.slots.len() implies (#[trigger] after.slots[i]) == (
    SlotView { value: after.slots[i].value, ..store.slots[i] }) by {}
    assert forall|i: int| 0 <= i < after.slots.len() implies (
    #[trigger] after.slots[i]).occurrence.0 < bound && after.bound(after.slots[i].service) == Some(
        after.slots[i].contract,
    ) by {
        assert(after.bound(store.slots[i].service) == store.bound(store.slots[i].service));
    }
    assert forall|i: int, j: int| 0 <= i < j < after.slots.len() implies (
    #[trigger] after.slots[i]).occurrence != (#[trigger] after.slots[j]).occurrence
        && after.slots[i].edge() != after.slots[j].edge() by {
        assert(store.slots[i].occurrence != store.slots[j].occurrence);
        assert(store.slots[i].edge() != store.slots[j].edge());
    }
}

/// Vacating one exact slot leaves every other slot's occupant.
pub proof fn lemma_without_other(store: ServicesView, edge: EdgeView, other: EdgeView)
    requires
        edge != other,
    ensures
        store.without(edge).slot(other) == store.slot(other),
{
    let after = store.without(edge);
    crate::seqs::lemma_first_meets(store.slots, slot_at(edge));
    crate::seqs::lemma_first_meets(store.slots, slot_at(other));
    match first_index(store.slots, slot_at(edge)) {
        Some(i) => {
            assert forall|j: int| 0 <= j < after.slots.len() implies #[trigger] after.slots[j] == (
            if j < i {
                store.slots[j]
            } else {
                store.slots[j + 1]
            }) by {}
            match first_index(store.slots, slot_at(other)) {
                Some(k) => {
                    let at = if k < i {
                        k
                    } else {
                        k - 1
                    };
                    assert(k != i);
                    assert(after.slots[at] == store.slots[k]);
                    assert(is_first(after.slots, slot_at(other), at));
                    lemma_first_found(after.slots, slot_at(other), at);
                },
                None => {
                    lemma_first_absent(after.slots, slot_at(other));
                },
            }
        },
        None => {},
    }
}

/// In an exact store, a vacated slot is empty.
pub proof fn lemma_without_same(store: ServicesView, edge: EdgeView)
    requires
        store.exact(),
    ensures
        store.without(edge).slot(edge) is None,
        store.without(edge).exact(),
{
    let after = store.without(edge);
    crate::seqs::lemma_first_meets(store.slots, slot_at(edge));
    match first_index(store.slots, slot_at(edge)) {
        Some(i) => {
            assert(store.slots[i].edge() == edge);
            assert forall|j: int| 0 <= j < after.slots.len() implies #[trigger] after.slots[j] == (
            if j < i {
                store.slots[j]
            } else {
                store.slots[j + 1]
            }) by {}
            assert forall|j: int| 0 <= j < after.slots.len() implies !slot_at(edge)(
                #[trigger] after.slots[j],
            ) by {
                if j < i {
                    assert(store.slots[j].edge() != store.slots[i].edge());
                } else {
                    assert(store.slots[i].edge() != store.slots[j + 1].edge());
                }
            }
            lemma_first_absent(after.slots, slot_at(edge));
        },
        None => {},
    }
}

/// A publication occupies its own exact slot and no other: lookup of any other
/// `(Service, realm)` pair gives what it gave before, and there is no fallback.
pub proof fn law_a_publication_occupies_one_exact_slot(
    store: ServicesView,
    slot: SlotView,
    other: EdgeView,
)
    requires
        store.exact(),
    ensures
        store.placing(slot).exact(),
        store.placing(slot).slot(slot.edge()) == Some(slot),
        other != slot.edge() ==> store.placing(slot).slot(other) == store.slot(other),
{
    let vacated = store.without(slot.edge());
    let after = store.placing(slot);
    let n = vacated.slots.len() as int;
    lemma_without_same(store, slot.edge());
    crate::seqs::lemma_first_meets(vacated.slots, slot_at(slot.edge()));
    assert forall|j: int| 0 <= j < n implies !slot_at(slot.edge())(#[trigger] after.slots[j]) by {
        assert(after.slots[j] == vacated.slots[j]);
    }
    assert(is_first(after.slots, slot_at(slot.edge()), n));
    lemma_first_found(after.slots, slot_at(slot.edge()), n);
    assert forall|i: int, j: int| 0 <= i < j < after.slots.len() implies (
    #[trigger] after.slots[i]).edge() != (#[trigger] after.slots[j]).edge() by {
        if j == n {
            assert(!slot_at(slot.edge())(after.slots[i]));
        } else {
            assert(vacated.slots[i].edge() != vacated.slots[j].edge());
        }
    }
    if other != slot.edge() {
        lemma_without_other(store, slot.edge(), other);
        crate::seqs::lemma_first_meets(vacated.slots, slot_at(other));
        match first_index(vacated.slots, slot_at(other)) {
            Some(k) => {
                assert(is_first(after.slots, slot_at(other), k));
                lemma_first_found(after.slots, slot_at(other), k);
            },
            None => {
                lemma_first_absent(after.slots, slot_at(other));
            },
        }
    }
}

/// A stale identity can neither withdraw nor disturb the publication that
/// replaced it.
pub proof fn law_a_stale_withdrawal_changes_nothing(
    store: ServicesView,
    edge: EdgeView,
    stale: ServiceOccurrenceId,
)
    requires
        !store.is_current(edge, stale),
    ensures
        store.withdrawn(edge, stale) == store,
{
}

/// An exact withdrawal empties its slot and leaves every other one.
pub proof fn law_an_exact_withdrawal_empties_one_slot(
    store: ServicesView,
    edge: EdgeView,
    occurrence: ServiceOccurrenceId,
    other: EdgeView,
)
    requires
        store.exact(),
        store.is_current(edge, occurrence),
    ensures
        store.withdrawn(edge, occurrence).exact(),
        store.withdrawn(edge, occurrence).slot(edge) is None,
        other != edge ==> store.withdrawn(edge, occurrence).slot(other) == store.slot(other),
{
    lemma_without_same(store, edge);
    if other != edge {
        lemma_without_other(store, edge, other);
    }
}

/// Replacing a value keeps the publication occurrence, its owner and its place;
/// every other slot is untouched.
pub proof fn law_a_value_replacement_keeps_the_occurrence(
    store: ServicesView,
    edge: EdgeView,
    value: u64,
    other: EdgeView,
)
    ensures
        match store.slot(edge) {
            Some(s) => store.with_value(edge, value).slot(edge) == Some(SlotView { value, ..s }),
            None => store.with_value(edge, value).slot(edge) is None,
        },
        other != edge ==> store.with_value(edge, value).slot(other) == store.slot(other),
{
    let after = store.with_value(edge, value);
    crate::seqs::lemma_first_meets(store.slots, slot_at(edge));
    crate::seqs::lemma_first_meets(store.slots, slot_at(other));
    match first_index(store.slots, slot_at(edge)) {
        Some(i) => {
            assert forall|j: int| 0 <= j < after.slots.len() implies (
            #[trigger] after.slots[j]).edge() == store.slots[j].edge() by {}
            assert(is_first(after.slots, slot_at(edge), i));
            lemma_first_found(after.slots, slot_at(edge), i);
            if other != edge {
                match first_index(store.slots, slot_at(other)) {
                    Some(k) => {
                        assert(k != i);
                        assert(is_first(after.slots, slot_at(other), k));
                        lemma_first_found(after.slots, slot_at(other), k);
                    },
                    None => {
                        lemma_first_absent(after.slots, slot_at(other));
                    },
                }
            }
        },
        None => {},
    }
}

} // verus!
