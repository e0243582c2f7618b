//! Typed Plugin sealing, prepared changes and dependency declarations.

use crate::ids::ContractId;
use crate::order::{before, lemma_asymmetric, lemma_transitive, place_of, Place};
use vstd::prelude::*;

verus! {

/// A prepared, typed configuration layer retained for one Service contract.
#[derive(Clone, Copy, PartialEq, Eq, Structural, Debug)]
pub struct ConfiguredLayer {
    /// The Service contract the layer was prepared for.
    pub service_type: ContractId,
    /// The host's name for the prepared value.
    pub value: u64,
}

impl ConfiguredLayer {
    /// Retains one prepared layer.
    pub fn new(service_type: ContractId, value: u64) -> (r: ConfiguredLayer)
        ensures
            r == (ConfiguredLayer { service_type, value }),
    {
        ConfiguredLayer { service_type, value }
    }

    /// Whether the layer was prepared for `contract`.
    pub fn matches(&self, contract: ContractId) -> (r: bool)
        ensures
            r == (self.service_type == contract),
    {
        self.service_type == contract
    }
}

/// One normalized required-Service declaration.
pub struct InjectEntry {
    /// The Service name.
    pub name: String,
    /// The prepared configuration layer, if the declaration carries one.
    pub configured: Option<ConfiguredLayer>,
}

/// A declaration as a mathematical value.
pub struct InjectEntryView {
    pub name: Seq<char>,
    pub configured: Option<ConfiguredLayer>,
}

impl View for InjectEntry {
    type V = InjectEntryView;

    open spec fn view(&self) -> InjectEntryView {
        InjectEntryView { name: self.name@, configured: self.configured }
    }
}

impl InjectEntry {
    /// Another value with the same content.
    pub fn duplicate(&self) -> (r: InjectEntry)
        ensures
            r@ == self@,
    {
        InjectEntry { name: self.name.clone(), configured: self.configured }
    }
}

/// The views of a list of declarations.
pub open spec fn entry_views(rows: Seq<InjectEntry>) -> Seq<InjectEntryView> {
    rows.map_values(|e: InjectEntry| e@)
}

/// Whether declarations stand in strictly ascending order of name.
pub open spec fn normalized(rows: Seq<InjectEntryView>) -> bool {
    forall|i: int, j: int|
        0 <= i < j < rows.len() ==> before((#[trigger] rows[i]).name, (#[trigger] rows[j]).name)
}

/// Whether `name` is declared.
pub open spec fn declares(rows: Seq<InjectEntryView>, name: Seq<char>) -> bool {
    exists|i: int| 0 <= i < rows.len() && (#[trigger] rows[i]).name == name
}

/// What is declared, as a map from Service name to configuration layer.
pub open spec fn declared(rows: Seq<InjectEntryView>) -> Map<Seq<char>, Option<ConfiguredLayer>> {
    Map::new(
        |name: Seq<char>| declares(rows, name),
        |name: Seq<char>|
            rows[choose|i: int| 0 <= i < rows.len() && (#[trigger] rows[i]).name == name].configured,
    )
}

/// In normalized declarations a row is found under its name.
pub proof fn lemma_declared_at(rows: Seq<InjectEntryView>, i: int)
    requires
        normalized(rows),
        0 <= i < rows.len(),
    ensures
        declares(rows, rows[i].name),
        declared(rows)[rows[i].name] == rows[i].configured,
{
    let name = rows[i].name;
    assert(rows[i].name == name);
    let k = choose|k: int| 0 <= k < rows.len() && (#[trigger] rows[k]).name == name;
    if k != i {
        lemma_asymmetric(rows[k].name, rows[i].name);
        lemma_asymmetric(rows[i].name, rows[k].name);
    }
}

/// An immutable, normalized set of required Services: at most one row for each
/// Service name, in ascending order of name.
pub struct InjectSpec {
    rows: Vec<InjectEntry>,
}

impl View for InjectSpec {
    type V = Seq<InjectEntryView>;

    closed spec fn view(&self) -> Seq<InjectEntryView> {
        entry_views(self.rows@)
    }
}

impl InjectSpec {
    #[verifier::type_invariant]
    spec fn inv(self) -> bool {
        normalized(entry_views(self.rows@))
    }

    /// The semantic empty dependency declaration.
    pub fn none() -> (r: InjectSpec)
        ensures
            r@ == Seq::<InjectEntryView>::empty(),
    {
        let rows: Vec<InjectEntry> = Vec::new();
        assert(entry_views(rows@) =~= Seq::<InjectEntryView>::empty());
        InjectSpec { rows }
    }

    /// The declarations, in ascending order of name.
    pub fn entries(&self) -> (r: &Vec<InjectEntry>)
        ensures
            entry_views(r@) == self@,
            normalized(self@),
    {
        proof {
            use_type_invariant(self);
        }
        &self.rows
    }

    /// Declares `entry`, replacing any earlier row for the same Service.
    fn upsert(self, entry: InjectEntry) -> (r: InjectSpec)
        ensures
            normalized(r@),
            declared(r@) == declared(self@).insert(entry@.name, entry@.configured),
    {
        proof {
            use_type_invariant(&self);
        }
        let ghost before_rows = self@;
        let mut rows = self.rows;
        let mut i: usize = 0;
        while i < rows.len()
            invariant
                i <= rows@.len(),
                before_rows == self@,
                entry_views(rows@) == before_rows,
                normalized(before_rows),
                forall|j: int| 0 <= j < i ==> before((#[trigger] before_rows[j]).name, entry@.name),
            decreases rows@.len() - i,
        {
            let ghost here = before_rows[i as int];
            assert(here == rows@[i as int]@);
            match place_of(rows[i].name.as_str(), entry.name.as_str()) {
                Place::Before => {},
                Place::Same => {
                    let ghost e = entry@;
                    rows[i] = entry;
                    proof {
                        assert(entry_views(rows@) =~= before_rows.update(i as int, e));
                        lemma_replaced(before_rows, i as int, e);
                    }
                    return InjectSpec { rows };
                },
                Place::After => {
                    let ghost e = entry@;
                    rows.insert(i, entry);
                    proof {
                        assert(entry_views(rows@) =~= before_rows.insert(i as int, e));
                        assert forall|j: int| i <= j < before_rows.len() implies before(
                            e.name,
                            (#[trigger] before_rows[j]).name,
                        ) by {
                            if j > i {
                                lemma_transitive(e.name, here.name, before_rows[j].name);
                            }
                        }
                        lemma_inserted(before_rows, i as int, e);
                    }
                    return InjectSpec { rows };
                },
            }
            i = i + 1;
        }
        let ghost e = entry@;
        rows.push(entry);
        proof {
            assert(entry_views(rows@) =~= before_rows.insert(before_rows.len() as int, e));
            lemma_inserted(before_rows, before_rows.len() as int, e);
        }
        InjectSpec { rows }
    }

    /// Requires `name`, replacing and clearing any earlier configured row.
    pub fn require(self, name: &str) -> (r: InjectSpec)
        ensures
            normalized(r@),
            declared(r@) == declared(self@).insert(name@, None),
    {
        self.upsert(InjectEntry { name: name.to_owned(), configured: None })
    }

    /// Requires a configurable Service with an already-prepared typed layer,
    /// replacing any earlier row.
    pub fn require_configured(self, name: &str, layer: ConfiguredLayer) -> (r: InjectSpec)
        ensures
            normalized(r@),
            declared(r@) == declared(self@).insert(name@, Some(layer)),
    {
        self.upsert(InjectEntry { name: name.to_owned(), configured: Some(layer) })
    }

    /// These declarations with every row of `overlay` upserted over them.
    pub fn overlay(self, overlay: InjectSpec) -> (r: InjectSpec)
        ensures
            normalized(r@),
            declared(r@) == declared(self@).union_prefer_right(declared(overlay@)),
    {
        proof {
            use_type_invariant(&self);
            use_type_invariant(&overlay);
        }
        let ghost base = declared(self@);
        let mut out = self;
        let mut i: usize = 0;
        assert(base.union_prefer_right(declared(overlay@.take(0))) =~= base);
        while i < overlay.rows.len()
            invariant
                i <= overlay.rows@.len(),
                normalized(out@),
                normalized(overlay@),
                overlay@ == entry_views(overlay.rows@),
                declared(out@) == base.union_prefer_right(declared(overlay@.take(i as int))),
            decreases overlay.rows@.len() - i,
        {
            let entry = overlay.rows[i].duplicate();
            proof {
                lemma_declared_prefix(overlay@, i as int);
                assert(entry@ == overlay@[i as int]);
            }
            out = out.upsert(entry);
            assert(declared(out@) =~= base.union_prefer_right(
                declared(overlay@.take(i + 1)),
            ));
            i = i + 1;
        }
        assert(overlay@.take(i as int) =~= overlay@);
        out
    }

    /// Another value with the same declarations.
    pub fn duplicate(&self) -> (r: InjectSpec)
        ensures
            r@ == self@,
    {
        proof {
            use_type_invariant(self);
        }
        let mut rows: Vec<InjectEntry> = Vec::new();
        let mut i: usize = 0;
        while i < self.rows.len()
            invariant
                i <= self.rows@.len(),
                entry_views(rows@) == entry_views(self.rows@).take(i as int),
            decreases self.rows@.len() - i,
        {
            let entry = self.rows[i].duplicate();
            assert(entry_views(rows@.push(entry)) =~= entry_views(rows@).push(entry@));
            rows.push(entry);
            assert(entry_views(rows@) =~= entry_views(self.rows@).take(i + 1));
            i = i + 1;
        }
        assert(entry_views(rows@) =~= entry_views(self.rows@));
        InjectSpec { rows }
    }
}

proof fn lemma_replaced(rows: Seq<InjectEntryView>, i: int, e: InjectEntryView)
    requires
        normalized(rows),
        0 <= i < rows.len(),
        rows[i].name == e.name,
    ensures
        normalized(rows.update(i, e)),
        declared(rows.update(i, e)) == declared(rows).insert(e.name, e.configured),
{
    let after = rows.update(i, e);
    assert(normalized(after));
    assert forall|name: Seq<char>|
        declares(after, name) == (declares(rows, name) || name == e.name) by {
        if declares(rows, name) {
            let k = choose|k: int| 0 <= k < rows.len() && (#[trigger] rows[k]).name == name;
            assert(after[k].name == name);
        }
        if name == e.name {
            assert(after[i].name == name);
        }
        if declares(after, name) {
            let k = choose|k: int| 0 <= k < after.len() && (#[trigger] after[k]).name == name;
            assert(rows[k].name == name);
        }
    }
    assert forall|name: Seq<char>| #[trigger] declares(after, name) implies declared(after)[name]
        == declared(rows).insert(e.name, e.configured)[name] by {
        let k = choose|k: int| 0 <= k < after.len() && (#[trigger] after[k]).name == name;
        lemma_declared_at(after, k);
        lemma_declared_at(rows, k);
        if k != i {
            lemma_asymmetric(rows[k].name, rows[i].name);
            lemma_asymmetric(rows[i].name, rows[k].name);
        }
    }
    assert(declared(after) =~= declared(rows).insert(e.name, e.configured));
}

proof fn lemma_inserted(rows: Seq<InjectEntryView>, i: int, e: InjectEntryView)
    requires
        normalized(rows),
        0 <= i <= rows.len(),
        forall|j: int| 0 <= j < i ==> before((#[trigger] rows[j]).name, e.name),
        forall|j: int| i <= j < rows.len() ==> before(e.name, (#[trigger] rows[j]).name),
    ensures
        normalized(rows.insert(i, e)),
        declared(rows.insert(i, e)) == declared(rows).insert(e.name, e.configured),
{
    let after = rows.insert(i, e);
    assert forall|k: int| 0 <= k < after.len() implies #[trigger] after[k] == (if k < i {
        rows[k]
    } else if k == i {
        e
    } else {
        rows[k - 1]
    }) by {}
    assert(normalized(after)) by {
        assert forall|a: int, b: int| 0 <= a < b < after.len() implies before(
            (#[trigger] after[a]).name,
            (#[trigger] after[b]).name,
        ) by {
            if a == i {
                assert(before(e.name, rows[b - 1].name));
            } else if b == i {
                assert(before(rows[a].name, e.name));
            }
        }
    }
    assert forall|name: Seq<char>|
        declares(after, name) == (declares(rows, name) || name == e.name) by {
        if declares(rows, name) {
            let k = choose|k: int| 0 <= k < rows.len() && (#[trigger] rows[k]).name == name;
            if k < i {
                assert(after[k].name == name);
            } else {
                assert(after[k + 1].name == name);
            }
        }
        if name == e.name {
            assert(after[i].name == name);
        }
        if declares(after, name) && name != e.name {
            let k = choose|k: int| 0 <= k < after.len() && (#[trigger] after[k]).name == name;
            if k < i {
                assert(rows[k].name == name);
            } else {
                assert(rows[k - 1].name == name);
            }
        }
    }
    assert forall|name: Seq<char>| #[trigger] declares(after, name) implies declared(after)[name]
        == declared(rows).insert(e.name, e.configured)[name] by {
        let k = choose|k: int| 0 <= k < after.len() && (#[trigger] after[k]).name == name;
        lemma_declared_at(after, k);
        if k < i {
            lemma_declared_at(rows, k);
            lemma_asymmetric(rows[k].name, e.name);
        } else if k > i {
            lemma_declared_at(rows, k - 1);
            lemma_asymmetric(e.name, rows[k - 1].name);
        }
    }
    assert(declared(after) =~= declared(rows).insert(e.name, e.configured));
}

proof fn lemma_declared_prefix(rows: Seq<InjectEntryView>, i: int)
    requires
        normalized(rows),
        0 <= i < rows.len(),
    ensures
        declared(rows.take(i + 1)) == declared(rows.take(i)).insert(
            rows[i].name,
            rows[i].configured,
        ),
{
    let short = rows.take(i);
    assert(rows.take(i + 1) =~= short.insert(i, rows[i]));
    assert(normalized(short));
    lemma_inserted(short, i, rows[i]);
}

/// Normalized declarations are determined by what they declare: the order in
/// which rows were required leaves no trace.
pub proof fn law_declaration_order_leaves_no_trace(
    a: Seq<InjectEntryView>,
    b: Seq<InjectEntryView>,
)
    requires
        normalized(a),
        normalized(b),
        declared(a) == declared(b),
    ensures
        a == b,
    decreases a.len(),
{
    if a.len() == 0 {
        if b.len() > 0 {
            lemma_declared_at(b, 0);
            assert(declared(b).dom().contains(b[0].name));
            assert(declares(a, b[0].name));
        }
        assert(a =~= b);
    } else {
        lemma_declared_at(a, a.len() - 1);
        assert(declared(a).dom().contains(a.last().name));
        assert(declares(b, a.last().name));
        lemma_declared_at(b, b.len() - 1);
        assert(declared(b).dom().contains(b.last().name));
        assert(declares(a, b.last().name));
        let i = choose|i: int| 0 <= i < b.len() && (#[trigger] b[i]).name == a.last().name;
        let j = choose|j: int| 0 <= j < a.len() && (#[trigger] a[j]).name == b.last().name;
        if i != b.len() - 1 {
            // Then `a`'s last name comes before `b`'s, which comes no later
            // than `a`'s.
            assert(before(a.last().name, b.last().name));
            if j != a.len() - 1 {
                assert(before(a[j].name, a.last().name));
                lemma_asymmetric(a.last().name, b.last().name);
            } else {
                lemma_asymmetric(a.last().name, b.last().name);
            }
        }
        assert(a.last().name == b.last().name);
        assert(a.last() == b.last());
        let x = a.drop_last();
        let y = b.drop_last();
        assert(x =~= a.take(a.len() - 1));
        assert(y =~= b.take(b.len() - 1));
        assert(a.take(a.len() as int) =~= a);
        assert(b.take(b.len() as int) =~= b);
        lemma_declared_prefix(a, a.len() - 1);
        lemma_declared_prefix(b, b.len() - 1);
        let name = a.last().name;
        assert(!declares(x, name)) by {
            if declares(x, name) {
                let k = choose|k: int| 0 <= k < x.len() && (#[trigger] x[k]).name == name;
                assert(before(a[k].name, a.last().name));
                lemma_asymmetric(a[k].name, a.last().name);
            }
        }
        assert(!declares(y, name)) by {
            if declares(y, name) {
                let k = choose|k: int| 0 <= k < y.len() && (#[trigger] y[k]).name == name;
                assert(before(b[k].name, b.last().name));
                lemma_asymmetric(b[k].name, b.last().name);
            }
        }
        assert(declared(x) =~= declared(a).remove(name));
        assert(declared(y) =~= declared(b).remove(name));
        law_declaration_order_leaves_no_trace(x, y);
        assert(a =~= x.push(a.last()));
        assert(b =~= y.push(b.last()));
    }
}

/// A move-only, one-attempt prepared input replacement. It holds a Plugin
/// contract identity and one complete replacement input, nothing else.
pub struct PreparedChange {
    /// The Plugin contract the candidate was sealed for.
    pub contract: ContractId,
    /// The host's name for the replacement input.
    pub input: u64,
}

impl PreparedChange {
    /// Seals one replacement input for a Plugin contract.
    pub fn from_input(contract: ContractId, input: u64) -> (r: PreparedChange)
        ensures
            r == (PreparedChange { contract, input }),
    {
        PreparedChange { contract, input }
    }

    /// The Plugin contract this candidate was sealed for.
    pub fn contract(&self) -> (r: ContractId)
        ensures
            r == self.contract,
    {
        self.contract
    }

    /// Opens the seal.
    pub fn into_parts(self) -> (r: (ContractId, u64))
        ensures
            r == (self.contract, self.input),
    {
        (self.contract, self.input)
    }

    /// Seals the parts again.
    pub fn from_parts(contract: ContractId, input: u64) -> (r: PreparedChange)
        ensures
            r == (PreparedChange { contract, input }),
    {
        PreparedChange { contract, input }
    }
}

/// One Plugin behavior sealed with one input of its contract. The pair is away
/// while an apply is running and after it moved into a successor.
#[derive(Clone, Copy, Debug)]
pub struct TypedPlugin {
    /// The Plugin contract.
    pub contract: ContractId,
    /// The host's names for the behavior and its input.
    pub state: Option<(u64, u64)>,
}

impl TypedPlugin {
    /// Takes the pair for one apply.
    pub fn lease(&mut self) -> (r: Option<(u64, u64)>)
        ensures
            r == old(self).state,
            *final(self) == (TypedPlugin { contract: old(self).contract, state: None }),
    {
        let state = self.state;
        self.state = None;
        state
    }

    /// Returns the pair after an apply.
    pub fn restore(&mut self, state: (u64, u64))
        ensures
            *final(self) == (TypedPlugin { contract: old(self).contract, state: Some(state) }),
    {
        self.state = Some(state);
    }

    /// Replaces the retained input, leaving the behavior untouched, and returns
    /// the superseded input. A change of another contract, or one that finds
    /// the pair away, is handed back and nothing changes.
    pub fn swap_input(&mut self, change: PreparedChange) -> (r: Result<u64, PreparedChange>)
        ensures
            match r {
                Ok(superseded) => {
                    &&& change.contract == old(self).contract
                    &&& old(self).state matches Some((plugin, input)) && superseded == input
                        && *final(self) == (TypedPlugin {
                        contract: old(self).contract,
                        state: Some((plugin, change.input)),
                    })
                },
                Err(back) => {
                    &&& change.contract != old(self).contract || old(self).state is None
                    &&& back == change
                    &&& *final(self) == *old(self)
                },
            },
    {
        let (contract, input) = change.into_parts();
        if contract != self.contract {
            return Err(PreparedChange::from_parts(contract, input));
        }
        match self.state {
            Some((plugin, superseded)) => {
                self.state = Some((plugin, input));
                Ok(superseded)
            },
            None => Err(PreparedChange::from_parts(contract, input)),
        }
    }

    /// Moves the behavior into a fresh seal carrying the change's input; this
    /// seal is left empty. A change of another contract, or an empty seal, hands
    /// the change back and nothing changes.
    pub fn into_successor(&mut self, change: PreparedChange) -> (r: Result<
        TypedPlugin,
        PreparedChange,
    >)
        ensures
            match r {
                Ok(successor) => {
                    &&& change.contract == old(self).contract
                    &&& old(self).state matches Some((plugin, _)) && successor == (TypedPlugin {
                        contract: change.contract,
                        state: Some((plugin, change.input)),
                    })
                    &&& *final(self) == (TypedPlugin {
                        contract: old(self).contract,
                        state: None,
                    })
                },
                Err(back) => {
                    &&& change.contract != old(self).contract || old(self).state is None
                    &&& back == change
                    &&& *final(self) == *old(self)
                },
            },
    {
        let (contract, input) = change.into_parts();
        if contract != self.contract {
            return Err(PreparedChange::from_parts(contract, input));
        }
        match self.lease() {
            Some((plugin, _)) => Ok(TypedPlugin { contract, state: Some((plugin, input)) }),
            None => Err(PreparedChange::from_parts(contract, input)),
        }
    }
}

/// A move-only seal associating one Plugin with one value of its input contract
/// and its materialized declarations.
pub struct PreparedPlugin {
    /// The sealed behavior and input.
    pub plugin: TypedPlugin,
    /// The diagnostic Plugin name.
    pub name: String,
    /// The required Services.
    pub inject: InjectSpec,
}

impl PreparedPlugin {
    /// Seals a Plugin with one input of its contract; its name and declarations
    /// are fixed here.
    pub fn from_input(
        contract: ContractId,
        plugin: u64,
        input: u64,
        name: String,
        inject: InjectSpec,
    ) -> (r: PreparedPlugin)
        ensures
            r.plugin == (TypedPlugin { contract, state: Some((plugin, input)) }),
            r.name == name,
            r.inject == inject,
    {
        PreparedPlugin {
            plugin: TypedPlugin { contract, state: Some((plugin, input)) },
            name,
            inject,
        }
    }

    /// Applies a normalized dependency overlay before lifecycle admission.
    pub fn with_inject_overlay(self, overlay: InjectSpec) -> (r: PreparedPlugin)
        ensures
            r.plugin == self.plugin,
            r.name == self.name,
            normalized(r.inject@),
            declared(r.inject@) == declared(self.inject@).union_prefer_right(declared(overlay@)),
    {
        PreparedPlugin {
            plugin: self.plugin,
            name: self.name,
            inject: self.inject.overlay(overlay),
        }
    }
}

} // verus!
