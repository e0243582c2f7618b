//! Registry residency and exact allocation claims.

use crate::ids::{ContractId, FiberId};
use crate::seqs::{
    first, first_index, is_first, lemma_first_absent, lemma_first_found, lemma_first_meets,
    without_first,
};
use vstd::prelude::*;

verus! {

/// Grouping equivalence of Plugin Fibers.
#[derive(Clone, Copy, PartialEq, Eq, Structural, Debug, Hash)]
pub enum PluginKey {
    /// Every Fiber of one Plugin contract.
    Typed(ContractId),
    /// A group named by number.
    Anonymous(u64),
}

/// One Fiber's exact residency: the allocation it was attached to.
#[derive(Clone, Copy, PartialEq, Eq, Structural, Debug)]
pub struct ResidencyClaim {
    /// The exact allocation.
    pub allocation: u64,
    /// The resident Fiber.
    pub fiber: FiberId,
}

/// One allocation: the Fibers of one group that were attached together.
pub struct PluginGroup {
    /// Identity of the allocation.
    pub allocation: u64,
    /// The group the allocation was made for.
    pub key: PluginKey,
    /// The members, in attach order.
    pub fibers: Vec<FiberId>,
}

/// An allocation as a mathematical value.
pub struct GroupView {
    pub allocation: u64,
    pub key: PluginKey,
    pub fibers: Seq<FiberId>,
}

impl View for PluginGroup {
    type V = GroupView;

    open spec fn view(&self) -> GroupView {
        GroupView { allocation: self.allocation, key: self.key, fibers: self.fibers@ }
    }
}

/// One committed bulk removal: the members frozen when the group was detached.
pub struct DetachedGroup {
    /// The detached allocation.
    pub allocation: u64,
    /// The frozen members, in attach order.
    pub fibers: Vec<FiberId>,
}

/// Plugin groups and the flat residency authority.
pub struct Registry {
    current: Vec<(PluginKey, u64)>,
    groups: Vec<PluginGroup>,
    residents: Vec<FiberId>,
}

/// The registry as a mathematical value.
#[verifier::ext_equal]
pub struct RegistryView {
    /// The allocation each key currently selects.
    pub current: Seq<(PluginKey, u64)>,
    /// The allocations that still have members.
    pub groups: Seq<GroupView>,
    /// The resident Fibers, in attach order.
    pub residents: Seq<FiberId>,
}

impl View for Registry {
    type V = RegistryView;

    closed spec fn view(&self) -> RegistryView {
        RegistryView {
            current: self.current@,
            groups: self.groups@.map_values(|g: PluginGroup| g@),
            residents: self.residents@,
        }
    }
}

/// Whether a mapping is for `key`.
pub open spec fn selects(key: PluginKey) -> spec_fn((PluginKey, u64)) -> bool {
    |row: (PluginKey, u64)| row.0 == key
}

/// Whether a group is the exact allocation.
pub open spec fn is_group(allocation: u64) -> spec_fn(GroupView) -> bool {
    |g: GroupView| g.allocation == allocation
}

/// Whether a resident is `fiber`.
pub open spec fn is_fiber(fiber: FiberId) -> spec_fn(FiberId) -> bool {
    |f: FiberId| f == fiber
}

impl RegistryView {
    /// A registry without residents.
    pub open spec fn empty() -> RegistryView {
        RegistryView { current: Seq::empty(), groups: Seq::empty(), residents: Seq::empty() }
    }

    /// The allocation `key` currently selects.
    pub open spec fn selected(self, key: PluginKey) -> Option<u64> {
        match first(self.current, selects(key)) {
            Some(row) => Some(row.1),
            None => None,
        }
    }

    /// The members of an allocation; none once it is empty.
    pub open spec fn members(self, allocation: u64) -> Seq<FiberId> {
        match first(self.groups, is_group(allocation)) {
            Some(g) => g.fibers,
            None => Seq::empty(),
        }
    }

    /// The members of the allocation `key` currently selects.
    pub open spec fn current_group(self, key: PluginKey) -> Seq<FiberId> {
        match self.selected(key) {
            Some(allocation) => self.members(allocation),
            None => Seq::empty(),
        }
    }

    /// The registry with `allocation` holding exactly `fibers`; an allocation
    /// without members is dropped.
    pub open spec fn with_members(self, allocation: u64, fibers: Seq<FiberId>) -> RegistryView {
        match first_index(self.groups, is_group(allocation)) {
            Some(i) => RegistryView {
                groups: if fibers.len() == 0 {
                    self.groups.remove(i)
                } else {
                    self.groups.update(i, GroupView { fibers, ..self.groups[i] })
                },
                ..self
            },
            None => self,
        }
    }

    /// The allocation an attach under `key` joins: the current one, or a fresh
    /// one.
    pub open spec fn attach_allocation(self, key: PluginKey, fresh: u64) -> u64 {
        match self.selected(key) {
            Some(allocation) => allocation,
            None => fresh,
        }
    }

    /// The registry with `fiber` attached under `key`.
    pub open spec fn attached(self, key: PluginKey, fiber: FiberId, fresh: u64) -> RegistryView {
        let joined = match self.selected(key) {
            Some(allocation) => self.with_members(
                allocation,
                self.members(allocation).push(fiber),
            ),
            None => RegistryView {
                current: self.current.push((key, fresh)),
                groups: self.groups.push(
                    GroupView { allocation: fresh, key, fibers: seq![fiber] },
                ),
                ..self
            },
        };
        RegistryView { residents: self.residents.push(fiber), ..joined }
    }

    /// The registry with the current allocation of `key` unmapped. Its members
    /// stay resident.
    pub open spec fn detached(self, key: PluginKey) -> RegistryView {
        RegistryView { current: without_first(self.current, selects(key)), ..self }
    }

    /// The registry after the exact claim was released: the Fiber leaves its own
    /// allocation and residency, and the mapping is pruned only where it still
    /// selects that allocation and the allocation became empty.
    pub open spec fn released(self, claim: ResidencyClaim) -> RegistryView {
        match first(self.groups, is_group(claim.allocation)) {
            None => self,
            Some(g) => {
                let left = without_first(g.fibers, is_fiber(claim.fiber));
                let regrouped = self.with_members(claim.allocation, left);
                RegistryView {
                    current: if left.len() == 0 && self.selected(g.key) == Some(
                        claim.allocation,
                    ) {
                        without_first(self.current, selects(g.key))
                    } else {
                        self.current
                    },
                    residents: without_first(self.residents, is_fiber(claim.fiber)),
                    ..regrouped
                }
            },
        }
    }

    /// Allocations are listed once, a mapping selects a listed allocation of its
    /// own key, and keys are mapped once.
    pub open spec fn wf(self) -> bool {
        &&& forall|i: int, j: int|
            0 <= i < j < self.groups.len() ==> (#[trigger] self.groups[i]).allocation != (
            #[trigger] self.groups[j]).allocation
        &&& forall|i: int, j: int|
            0 <= i < j < self.current.len() ==> (#[trigger] self.current[i]).0 != (
            #[trigger] self.current[j]).0
        &&& forall|i: int|
            0 <= i < self.current.len() ==> exists|k: int|
                #![trigger self.groups[k]]
                0 <= k < self.groups.len() && self.groups[k].allocation == (
                #[trigger] self.current[i]).1 && self.groups[k].key == self.current[i].0
    }
}

fn position_of(fibers: &Vec<FiberId>, fiber: FiberId) -> (r: Option<usize>)
    ensures
        match r {
            Some(i) => i < fibers@.len() && first_index(fibers@, is_fiber(fiber)) == Some(i as int),
            None => first_index(fibers@, is_fiber(fiber)) is None,
        },
{
    let mut i: usize = 0;
    while i < fibers.len()
        invariant
            i <= fibers@.len(),
            forall|j: int| 0 <= j < i ==> !is_fiber(fiber)(#[trigger] fibers@[j]),
        decreases fibers@.len() - i,
    {
        if fibers[i] == fiber {
            proof {
                assert(is_first(fibers@, is_fiber(fiber), i as int));
                lemma_first_found(fibers@, is_fiber(fiber), i as int);
            }
            return Some(i);
        }
        i = i + 1;
    }
    proof {
        lemma_first_absent(fibers@, is_fiber(fiber));
    }
    None
}

/// A copy of a list of Fibers.
pub fn copy_fibers(fibers: &Vec<FiberId>) -> (r: Vec<FiberId>)
    ensures
        r@ == fibers@,
{
    let mut out: Vec<FiberId> = Vec::new();
    let mut i: usize = 0;
    while i < fibers.len()
        invariant
            i <= fibers@.len(),
            out@ == fibers@.take(i as int),
        decreases fibers@.len() - i,
    {
        out.push(fibers[i]);
        assert(out@ =~= fibers@.take(i + 1));
        i = i + 1;
    }
    assert(out@ =~= fibers@);
    out
}

impl Registry {
    /// A registry without residents.
    pub fn new() -> (r: Registry)
        ensures
            r@ == RegistryView::empty(),
    {
        let r = Registry { current: Vec::new(), groups: Vec::new(), residents: Vec::new() };
        assert(r@ =~= RegistryView::empty());
        r
    }

    /// The resident Fibers, in attach order.
    pub fn snapshot_fibers(&self) -> (r: Vec<FiberId>)
        ensures
            r@ == self@.residents,
    {
        copy_fibers(&self.residents)
    }

    fn current_position(&self, key: PluginKey) -> (r: Option<usize>)
        ensures
            match r {
                Some(i) => i < self.current@.len() && first_index(self@.current, selects(key))
                    == Some(i as int),
                None => first_index(self@.current, selects(key)) is None,
            },
    {
        let mut i: usize = 0;
        while i < self.current.len()
            invariant
                i <= self.current@.len(),
                forall|j: int| 0 <= j < i ==> !selects(key)(#[trigger] self@.current[j]),
            decreases self.current@.len() - i,
        {
            if self.current[i].0 == key {
                proof {
                    assert(is_first(self@.current, selects(key), i as int));
                    lemma_first_found(self@.current, selects(key), i as int);
                }
                return Some(i);
            }
            i = i + 1;
        }
        proof {
            lemma_first_absent(self@.current, selects(key));
        }
        None
    }

    fn group_position(&self, allocation: u64) -> (r: Option<usize>)
        ensures
            match r {
                Some(i) => i < self.groups@.len() && first_index(
                    self@.groups,
                    is_group(allocation),
                ) == Some(i as int),
                None => first_index(self@.groups, is_group(allocation)) is None,
            },
    {
        let ghost rows = self@.groups;
        let mut i: usize = 0;
        while i < self.groups.len()
            invariant
                i <= self.groups@.len(),
                rows == self@.groups,
                forall|j: int| 0 <= j < i ==> !is_group(allocation)(#[trigger] rows[j]),
            decreases self.groups@.len() - i,
        {
            assert(rows[i as int] == self.groups@[i as int]@);
            if self.groups[i].allocation == allocation {
                proof {
                    assert(is_first(rows, is_group(allocation), i as int));
                    lemma_first_found(rows, is_group(allocation), i as int);
                }
                return Some(i);
            }
            i = i + 1;
        }
        proof {
            lemma_first_absent(rows, is_group(allocation));
        }
        None
    }

    /// The allocation `key` currently selects.
    pub fn allocation_of(&self, key: PluginKey) -> (r: Option<u64>)
        ensures
            r == self@.selected(key),
    {
        match self.current_position(key) {
            Some(i) => Some(self.current[i].1),
            None => None,
        }
    }

    /// How many Fibers an allocation has.
    pub fn fiber_count(&self, allocation: u64) -> (r: usize)
        ensures
            r == self@.members(allocation).len(),
    {
        match self.group_position(allocation) {
            Some(i) => self.groups[i].fibers.len(),
            None => 0,
        }
    }

    /// The members of the allocation `key` currently selects.
    pub fn current_members(&self, key: PluginKey) -> (r: Option<Vec<FiberId>>)
        ensures
            match r {
                Some(fibers) => self@.selected(key) matches Some(a) && fibers@ == self@.members(a),
                None => self@.selected(key) is None,
            },
    {
        match self.allocation_of(key) {
            Some(allocation) => match self.group_position(allocation) {
                Some(i) => Some(copy_fibers(&self.groups[i].fibers)),
                None => Some(Vec::new()),
            },
            None => None,
        }
    }

    /// Attaches one Fiber under `key` and returns its exact residency claim. The
    /// Fiber joins the current allocation, or a fresh one with identity `fresh`.
    pub fn attach_fiber(&mut self, key: PluginKey, fiber: FiberId, fresh: u64) -> (claim:
        ResidencyClaim)
        ensures
            claim == (ResidencyClaim {
                allocation: old(self)@.attach_allocation(key, fresh),
                fiber,
            }),
            final(self)@ == old(self)@.attached(key, fiber, fresh),
    {
        let ghost before = self@;
        let allocation: u64 = match self.allocation_of(key) {
            Some(allocation) => {
                match self.group_position(allocation) {
                    Some(i) => {
                        self.groups[i].fibers.push(fiber);
                        assert(self@.groups =~= before.groups.update(
                            i as int,
                            GroupView {
                                fibers: before.groups[i as int].fibers.push(fiber),
                                ..before.groups[i as int]
                            },
                        ));
                    },
                    None => {},
                }
                allocation
            },
            None => {
                let mut fibers: Vec<FiberId> = Vec::new();
                fibers.push(fiber);
                assert(fibers@ =~= seq![fiber]);
                let group = PluginGroup { allocation: fresh, key, fibers };
                self.groups.push(group);
                self.current.push((key, fresh));
                assert(self@.groups =~= before.groups.push(group@));
                fresh
            },
        };
        let ghost joined = self@;
        self.residents.push(fiber);
        assert(self@.groups =~= joined.groups);
        ResidencyClaim { allocation, fiber }
    }

    /// Detaches the current allocation of `key` and freezes its members. They
    /// stay resident until each releases its exact claim.
    pub fn detach(&mut self, key: PluginKey) -> (r: Option<DetachedGroup>)
        ensures
            match r {
                Some(group) => old(self)@.selected(key) == Some(group.allocation)
                    && group.fibers@ == old(self)@.members(group.allocation),
                None => old(self)@.selected(key) is None,
            },
            final(self)@ == old(self)@.detached(key),
    {
        let ghost before = self@;
        match self.current_position(key) {
            Some(i) => {
                let allocation = self.current[i].1;
                let fibers = match self.group_position(allocation) {
                    Some(k) => copy_fibers(&self.groups[k].fibers),
                    None => Vec::new(),
                };
                let _ = self.current.remove(i);
                assert(self@.groups =~= before.groups);
                Some(DetachedGroup { allocation, fibers })
            },
            None => None,
        }
    }

    /// Releases only the exact allocation a claim represents.
    pub fn release(&mut self, claim: ResidencyClaim)
        ensures
            final(self)@ == old(self)@.released(claim),
    {
        let ghost before = self@;
        match self.group_position(claim.allocation) {
            None => {},
            Some(i) => {
                let key = self.groups[i].key;
                let is_current = self.allocation_of(key) == Some(claim.allocation);
                match position_of(&self.groups[i].fibers, claim.fiber) {
                    Some(at) => {
                        let _ = self.groups[i].fibers.remove(at);
                    },
                    None => {},
                }
                let ghost left = without_first(
                    before.groups[i as int].fibers,
                    is_fiber(claim.fiber),
                );
                assert(self.groups@[i as int].fibers@ == left);
                let idle = self.groups[i].fibers.len() == 0;
                if idle {
                    let _ = self.groups.remove(i);
                    assert(self@.groups =~= before.groups.remove(i as int));
                } else {
                    assert(self@.groups =~= before.groups.update(
                        i as int,
                        GroupView { fibers: left, ..before.groups[i as int] },
                    ));
                }
                let ghost regrouped = self@;
                if idle && is_current {
                    match self.current_position(key) {
                        Some(k) => {
                            let _ = self.current.remove(k);
                        },
                        None => {},
                    }
                }
                match position_of(&self.residents, claim.fiber) {
                    Some(at) => {
                        let _ = self.residents.remove(at);
                    },
                    None => {},
                }
                assert(self@.groups =~= regrouped.groups);
            },
        }
    }
}

/// A fresh registry is consistent.
pub proof fn law_an_empty_registry_is_consistent()
    ensures
        RegistryView::empty().wf(),
{
}

/// Attaching, with an identity no allocation has, keeps the registry consistent;
/// the Fiber is resident and a member of the allocation its claim names.
pub proof fn law_an_attached_fiber_is_a_resident_member(
    reg: RegistryView,
    key: PluginKey,
    fiber: FiberId,
    fresh: u64,
)
    requires
        reg.wf(),
        forall|i: int| 0 <= i < reg.groups.len() ==> (#[trigger] reg.groups[i]).allocation != fresh,
    ensures
        reg.attached(key, fiber, fresh).wf(),
        reg.attached(key, fiber, fresh).residents.contains(fiber),
        reg.attached(key, fiber, fresh).selected(key) == Some(reg.attach_allocation(key, fresh)),
        reg.attached(key, fiber, fresh).members(reg.attach_allocation(key, fresh)).contains(fiber),
{
    let after = reg.attached(key, fiber, fresh);
    assert(after.residents[after.residents.len() - 1] == fiber);
    lemma_first_meets(reg.current, selects(key));
    match first_index(reg.current, selects(key)) {
        Some(c) => {
            let allocation = reg.current[c].1;
            let k = choose|k: int|
                #![trigger reg.groups[k]]
                0 <= k < reg.groups.len() && reg.groups[k].allocation == reg.current[c].1
                    && reg.groups[k].key == reg.current[c].0;
            assert(is_group(allocation)(reg.groups[k]));
            assert(is_first(reg.groups, is_group(allocation), k)) by {
                assert forall|j: int| 0 <= j < k implies !is_group(allocation)(
                    #[trigger] reg.groups[j],
                ) by {}
            }
            lemma_first_found(reg.groups, is_group(allocation), k);
            let grown = reg.groups[k].fibers.push(fiber);
            assert(after.groups =~= reg.groups.update(
                k,
                GroupView { fibers: grown, ..reg.groups[k] },
            ));
            assert(is_first(after.groups, is_group(allocation), k)) by {
                assert forall|j: int| 0 <= j < k implies !is_group(allocation)(
                    #[trigger] after.groups[j],
                ) by {
                    assert(after.groups[j] == reg.groups[j]);
                }
            }
            lemma_first_found(after.groups, is_group(allocation), k);
            assert(grown[grown.len() - 1] == fiber);
            assert(after.wf()) by {
                assert forall|i: int| 0 <= i < after.current.len() implies exists|n: int|
                    #![trigger after.groups[n]]
                    0 <= n < after.groups.len() && after.groups[n].allocation == (
                    #[trigger] after.current[i]).1 && after.groups[n].key == after.current[i].0 by {
                    let n = choose|n: int|
                        #![trigger reg.groups[n]]
                        0 <= n < reg.groups.len() && reg.groups[n].allocation == reg.current[i].1
                            && reg.groups[n].key == reg.current[i].0;
                    assert(after.groups[n].allocation == reg.groups[n].allocation);
                }
            }
        },
        None => {
            let n = reg.groups.len() as int;
            let c = reg.current.len() as int;
            assert(after.groups[n] == (GroupView { allocation: fresh, key, fibers: seq![fiber] }));
            assert(is_first(after.groups, is_group(fresh), n)) by {
                assert forall|j: int| 0 <= j < n implies !is_group(fresh)(
                    #[trigger] after.groups[j],
                ) by {
                    assert(after.groups[j] == reg.groups[j]);
                }
            }
            lemma_first_found(after.groups, is_group(fresh), n);
            assert(seq![fiber][0] == fiber);
            assert(is_first(after.current, selects(key), c)) by {
                assert forall|j: int| 0 <= j < c implies !selects(key)(
                    #[trigger] after.current[j],
                ) by {
                    assert(after.current[j] == reg.current[j]);
                }
            }
            lemma_first_found(after.current, selects(key), c);
            assert(after.wf()) by {
                assert forall|i: int| 0 <= i < after.current.len() implies exists|m: int|
                    #![trigger after.groups[m]]
                    0 <= m < after.groups.len() && after.groups[m].allocation == (
                    #[trigger] after.current[i]).1 && after.groups[m].key == after.current[i].0 by {
                    if i < c {
                        let m = choose|m: int|
                            #![trigger reg.groups[m]]
                            0 <= m < reg.groups.len() && reg.groups[m].allocation
                                == reg.current[i].1 && reg.groups[m].key == reg.current[i].0;
                        assert(after.groups[m] == reg.groups[m]);
                    } else {
                        assert(after.groups[n].allocation == fresh);
                    }
                }
                assert forall|i: int, j: int| 0 <= i < j < after.current.len() implies (
                #[trigger] after.current[i]).0 != (#[trigger] after.current[j]).0 by {
                    if j == c {
                        assert(!selects(key)(reg.current[i]));
                    }
                }
            }
        },
    }
}

/// Detaching keeps the registry consistent.
pub proof fn lemma_detached_wf(reg: RegistryView, key: PluginKey)
    requires
        reg.wf(),
    ensures
        reg.detached(key).wf(),
{
    let after = reg.detached(key);
    lemma_first_meets(reg.current, selects(key));
    lemma_fewer_rows_wf(reg, after, first_index(reg.current, selects(key)));
}

proof fn lemma_fewer_rows_wf(reg: RegistryView, after: RegistryView, at: Option<int>)
    requires
        reg.wf(),
        after.groups == reg.groups,
        match at {
            Some(i) => 0 <= i < reg.current.len() && after.current == reg.current.remove(i),
            None => after.current == reg.current,
        },
    ensures
        after.wf(),
{
    match at {
        Some(i) => {
            assert forall|j: int| 0 <= j < after.current.len() implies #[trigger] after.current[j]
                == reg.current[if j < i {
                j
            } else {
                j + 1
            }] by {}
            assert forall|j: int| 0 <= j < after.current.len() implies exists|k: int|
                #![trigger after.groups[k]]
                0 <= k < after.groups.len() && after.groups[k].allocation == (
                #[trigger] after.current[j]).1 && after.groups[k].key == after.current[j].0 by {
                let row = reg.current[if j < i {
                    j
                } else {
                    j + 1
                }];
                let k = choose|k: int|
                    #![trigger reg.groups[k]]
                    0 <= k < reg.groups.len() && reg.groups[k].allocation == row.1
                        && reg.groups[k].key == row.0;
                assert(after.groups[k] == reg.groups[k]);
            }
        },
        None => {},
    }
}

/// Releasing a claim keeps the registry consistent: an allocation is dropped only
/// together with the mapping that selects it.
pub proof fn lemma_released_wf(reg: RegistryView, claim: ResidencyClaim)
    requires
        reg.wf(),
    ensures
        reg.released(claim).wf(),
{
    lemma_first_meets(reg.groups, is_group(claim.allocation));
    match first_index(reg.groups, is_group(claim.allocation)) {
        Some(n) => {
            let g = reg.groups[n];
            let left = without_first(g.fibers, is_fiber(claim.fiber));
            let after = reg.released(claim);
            lemma_first_meets(reg.current, selects(g.key));
            if left.len() == 0 {
                let rows = if reg.selected(g.key) == Some(claim.allocation) {
                    reg.detached(g.key)
                } else {
                    reg
                };
                assert(rows.wf()) by {
                    lemma_detached_wf(reg, g.key);
                }
                assert(after.current == rows.current);
                assert(after.groups == reg.groups.remove(n));
                assert forall|i: int| 0 <= i < after.current.len() implies (
                #[trigger] after.current[i]).1 != claim.allocation by {
                    let row = rows.current[i];
                    if row.1 == claim.allocation {
                        let k = choose|k: int|
                            #![trigger rows.groups[k]]
                            0 <= k < rows.groups.len() && rows.groups[k].allocation == row.1
                                && rows.groups[k].key == row.0;
                        assert(reg.groups[k].allocation == reg.groups[n].allocation);
                        assert(k == n);
                        assert(row.0 == g.key);
                        match first_index(reg.current, selects(g.key)) {
                            Some(c) => {
                                if reg.current[c].1 == claim.allocation {
                                    law_detached_members_stay_resident(reg, g.key);
                                    lemma_first_meets(rows.current, selects(g.key));
                                    assert(selects(g.key)(rows.current[i]));
                                } else {
                                    assert(reg.current[i].0 == reg.current[c].0);
                                    assert(i == c);
                                }
                            },
                            None => {
                                assert(selects(g.key)(reg.current[i]));
                            },
                        }
                    }
                }
                assert forall|i: int| 0 <= i < after.groups.len() implies #[trigger] after.groups[i]
                    == reg.groups[if i < n {
                    i
                } else {
                    i + 1
                }] by {}
                assert forall|i: int| 0 <= i < after.current.len() implies exists|k: int|
                    #![trigger after.groups[k]]
                    0 <= k < after.groups.len() && after.groups[k].allocation == (
                    #[trigger] after.current[i]).1 && after.groups[k].key == after.current[i].0 by {
                    let row = rows.current[i];
                    let k = choose|k: int|
                        #![trigger rows.groups[k]]
                        0 <= k < rows.groups.len() && rows.groups[k].allocation == row.1
                            && rows.groups[k].key == row.0;
                    assert(k != n);
                    let at = if k < n {
                        k
                    } else {
                        k - 1
                    };
                    assert(after.groups[at] == reg.groups[k]);
                }
            } else {
                assert(after.current == reg.current);
                assert forall|i: int| 0 <= i < after.groups.len() implies (
                #[trigger] after.groups[i]).allocation == reg.groups[i].allocation
                    && after.groups[i].key == reg.groups[i].key by {}
                assert forall|i: int| 0 <= i < after.current.len() implies exists|k: int|
                    #![trigger after.groups[k]]
                    0 <= k < after.groups.len() && after.groups[k].allocation == (
                    #[trigger] after.current[i]).1 && after.groups[k].key == after.current[i].0 by {
                    let row = reg.current[i];
                    let k = choose|k: int|
                        #![trigger reg.groups[k]]
                        0 <= k < reg.groups.len() && reg.groups[k].allocation == row.1
                            && reg.groups[k].key == row.0;
                    assert(after.groups[k].allocation == reg.groups[k].allocation);
                }
            }
        },
        None => {},
    }
}

/// The group at a position is the one found under its allocation.
pub proof fn lemma_group_found(groups: Seq<GroupView>, k: int)
    requires
        0 <= k < groups.len(),
        forall|i: int, j: int|
            0 <= i < j < groups.len() ==> (#[trigger] groups[i]).allocation != (
            #[trigger] groups[j]).allocation,
    ensures
        first_index(groups, is_group(groups[k].allocation)) == Some(k),
{
    assert(is_first(groups, is_group(groups[k].allocation), k));
    lemma_first_found(groups, is_group(groups[k].allocation), k);
}

/// An attach leaves the members of every allocation in it.
pub proof fn lemma_attached_members(
    reg: RegistryView,
    key: PluginKey,
    fiber: FiberId,
    fresh: u64,
    allocation: u64,
    member: FiberId,
)
    requires
        reg.wf(),
        forall|i: int| 0 <= i < reg.groups.len() ==> (#[trigger] reg.groups[i]).allocation != fresh,
        reg.members(allocation).contains(member),
    ensures
        reg.attached(key, fiber, fresh).members(allocation).contains(member),
{
    let after = reg.attached(key, fiber, fresh);
    law_an_attached_fiber_is_a_resident_member(reg, key, fiber, fresh);
    lemma_first_meets(reg.groups, is_group(allocation));
    let k = first_index(reg.groups, is_group(allocation)).unwrap();
    assert(after.groups[k].allocation == allocation);
    lemma_group_found(after.groups, k);
    let m = choose|m: int| 0 <= m < reg.groups[k].fibers.len() && reg.groups[k].fibers[m] == member;
    assert(after.groups[k].fibers[m] == member);
}

/// A release leaves every other member in its allocation.
pub proof fn lemma_released_members(
    reg: RegistryView,
    claim: ResidencyClaim,
    allocation: u64,
    member: FiberId,
)
    requires
        reg.wf(),
        reg.members(allocation).contains(member),
        member != claim.fiber,
    ensures
        reg.released(claim).members(allocation).contains(member),
{
    let after = reg.released(claim);
    lemma_released_wf(reg, claim);
    lemma_first_meets(reg.groups, is_group(allocation));
    lemma_first_meets(reg.groups, is_group(claim.allocation));
    let k = first_index(reg.groups, is_group(allocation)).unwrap();
    let m = choose|m: int| 0 <= m < reg.groups[k].fibers.len() && reg.groups[k].fibers[m] == member;
    match first_index(reg.groups, is_group(claim.allocation)) {
        Some(n) => {
            let g = reg.groups[n];
            let left = without_first(g.fibers, is_fiber(claim.fiber));
            lemma_first_meets(g.fibers, is_fiber(claim.fiber));
            if k == n {
                let at = match first_index(g.fibers, is_fiber(claim.fiber)) {
                    Some(p) => if m < p {
                        m
                    } else {
                        m - 1
                    },
                    None => m,
                };
                assert(left[at] == member);
                assert(after.groups[k].allocation == allocation);
                lemma_group_found(after.groups, k);
            } else {
                let at = if left.len() == 0 && n < k {
                    k - 1
                } else {
                    k
                };
                assert(after.groups[at] == reg.groups[k]);
                lemma_group_found(after.groups, at);
            }
        },
        None => {},
    }
}

/// Detaching a group leaves every member resident, and the key selects a fresh
/// allocation next.
pub proof fn law_detached_members_stay_resident(reg: RegistryView, key: PluginKey)
    requires
        reg.wf(),
    ensures
        reg.detached(key).residents == reg.residents,
        reg.detached(key).groups == reg.groups,
        reg.detached(key).selected(key) is None,
{
    let after = reg.detached(key);
    lemma_first_meets(reg.current, selects(key));
    match first_index(reg.current, selects(key)) {
        Some(i) => {
            assert forall|j: int| 0 <= j < after.current.len() implies !selects(key)(
                #[trigger] after.current[j],
            ) by {
                if j < i {
                    assert(after.current[j] == reg.current[j]);
                } else {
                    assert(after.current[j] == reg.current[j + 1]);
                    assert(reg.current[i].0 != reg.current[j + 1].0);
                }
            }
        },
        None => {},
    }
    lemma_first_absent(after.current, selects(key));
}

/// Releasing a claim on an allocation that its key no longer selects leaves the
/// mapping: an old claim cannot prune a replacement.
pub proof fn law_an_old_claim_cannot_prune_a_replacement(
    reg: RegistryView,
    claim: ResidencyClaim,
    key: PluginKey,
)
    requires
        match first(reg.groups, is_group(claim.allocation)) {
            Some(g) => g.key == key,
            None => true,
        },
        reg.selected(key) != Some(claim.allocation),
    ensures
        reg.released(claim).selected(key) == reg.selected(key),
        reg.released(claim).current == reg.current,
{
}

/// Releasing one of several members leaves the mapping in place.
pub proof fn law_a_group_with_members_is_not_pruned(reg: RegistryView, claim: ResidencyClaim)
    requires
        without_first(reg.members(claim.allocation), is_fiber(claim.fiber)).len() > 0,
    ensures
        reg.released(claim).current == reg.current,
{
}

/// Releasing a claim takes exactly its own Fiber out of residency.
pub proof fn law_a_release_unlinks_exactly_its_fiber(
    reg: RegistryView,
    claim: ResidencyClaim,
    other: FiberId,
)
    requires
        reg.residents.no_duplicates(),
        first(reg.groups, is_group(claim.allocation)) is Some,
    ensures
        !reg.released(claim).residents.contains(claim.fiber),
        other != claim.fiber ==> reg.released(claim).residents.contains(other)
            == reg.residents.contains(other),
        reg.released(claim).residents.no_duplicates(),
{
    let p = is_fiber(claim.fiber);
    let after = reg.released(claim).residents;
    lemma_first_meets(reg.residents, p);
    match first_index(reg.residents, p) {
        Some(i) => {
            assert(after =~= reg.residents.remove(i));
            assert forall|j: int| 0 <= j < after.len() implies after[j] != claim.fiber by {
                if j < i {
                    assert(after[j] == reg.residents[j]);
                } else {
                    assert(after[j] == reg.residents[j + 1]);
                }
            }
            if other != claim.fiber {
                if reg.residents.contains(other) {
                    let k = choose|k: int| 0 <= k < reg.residents.len() && reg.residents[k] == other;
                    if k < i {
                        assert(after[k] == other);
                    } else {
                        assert(after[k - 1] == other);
                    }
                }
            }
        },
        None => {
            assert forall|j: int| 0 <= j < after.len() implies after[j] != claim.fiber by {
                assert(!p(reg.residents[j]));
            }
        },
    }
}

} // verus!
