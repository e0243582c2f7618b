//! Context: a cheap Runtime view over four orthogonal axes (the current Fiber,
//! Service placement, Event Scope, Service configuration).

use crate::ids::{ContractId, FiberId, RealmKey};
use crate::plugin::ConfiguredLayer;
use crate::scope::{clone_layer, layer_chain, Scope, ScopeNode, ScopeView};
use crate::seqs::{first, is_first, lemma_first_absent, lemma_first_found};
use crate::service::{
    ConfigResolutionError, ConfigurableService, RealmMappingError, ServiceRealm,
};
use std::sync::Arc;
use vstd::prelude::*;

verus! {

/// The placements one derivation installs.
pub type PlacementRows = Seq<(Seq<char>, RealmKey)>;

/// The mathematical value of a placement list.
pub open spec fn placement_rows(map: Seq<(String, RealmKey)>) -> PlacementRows {
    map.map_values(|row: (String, RealmKey)| (row.0@, row.1))
}

/// Whether a placement row is for `name`.
pub open spec fn places(name: Seq<char>) -> spec_fn((Seq<char>, RealmKey)) -> bool {
    |row: (Seq<char>, RealmKey)| row.0 == name
}

/// The realm one derivation gives to `name`, if it places it.
pub open spec fn row_realm(rows: PlacementRows, name: Seq<char>) -> Option<RealmKey> {
    match first(rows, places(name)) {
        Some(row) => Some(row.1),
        None => None,
    }
}

/// The realm a chain of derivations, innermost first, gives to `name`.
pub open spec fn chain_realm(chain: Seq<PlacementRows>, name: Seq<char>) -> Option<RealmKey>
    decreases chain.len(),
{
    if chain.len() == 0 {
        None
    } else {
        match row_realm(chain[0], name) {
            Some(key) => Some(key),
            None => chain_realm(chain.drop_first(), name),
        }
    }
}

/// The realm a Service is placed in: the innermost derivation that places it
/// decides, and the default realm where none does.
pub open spec fn placement(chain: Seq<PlacementRows>, name: Seq<char>) -> RealmKey {
    match chain_realm(chain, name) {
        Some(key) => key,
        None => RealmKey::spec_default(),
    }
}

/// One derivation of the Service-placement axis.
pub struct IsolateLayer {
    /// The placements this derivation installs.
    pub map: Vec<(String, RealmKey)>,
    /// The derivation it was made over.
    pub outer: Option<Arc<IsolateLayer>>,
}

impl IsolateLayer {
    /// This derivation's placements followed by those it was made over.
    pub open spec fn chain(&self) -> Seq<PlacementRows>
        decreases self,
    {
        match &self.outer {
            Some(o) => seq![placement_rows(self.map@)] + o.chain(),
            None => seq![placement_rows(self.map@)],
        }
    }

    /// The realm this derivation alone gives to `key`.
    fn own(&self, key: &String) -> (r: Option<RealmKey>)
        ensures
            r == row_realm(placement_rows(self.map@), key@),
    {
        let ghost rows = placement_rows(self.map@);
        let mut i: usize = 0;
        while i < self.map.len()
            invariant
                i <= self.map@.len(),
                rows == placement_rows(self.map@),
                forall|j: int| 0 <= j < i ==> (#[trigger] rows[j]).0 != key@,
            decreases self.map@.len() - i,
        {
            if self.map[i].0 == *key {
                proof {
                    assert(rows[i as int].0 == key@);
                    assert(is_first(rows, places(key@), i as int));
                    lemma_first_found(rows, places(key@), i as int);
                }
                return Some(self.map[i].1);
            }
            assert(rows[i as int].0 != key@);
            i = i + 1;
        }
        proof {
            lemma_first_absent(rows, places(key@));
        }
        None
    }

    /// The realm the innermost derivation that places `key` gives it.
    pub fn lookup(&self, key: &String) -> (r: Option<RealmKey>)
        ensures
            r == chain_realm(self.chain(), key@),
    {
        let mut node: Option<&IsolateLayer> = Some(self);
        loop
            invariant
                match node {
                    Some(c) => chain_realm(self.chain(), key@) == chain_realm(c.chain(), key@),
                    None => chain_realm(self.chain(), key@) is None,
                },
            decreases node,
        {
            match node {
                None => {
                    return None;
                },
                Some(current) => {
                    let own = current.own(key);
                    if own.is_some() {
                        return own;
                    }
                    proof {
                        assert(current.chain()[0] == placement_rows(current.map@));
                        match &current.outer {
                            Some(o) => {
                                assert(current.chain().drop_first() =~= o.chain());
                                assert(chain_realm(current.chain(), key@) == chain_realm(
                                    current.chain().drop_first(),
                                    key@,
                                ));
                            },
                            None => {
                                assert(current.chain().drop_first() =~= Seq::empty());
                            },
                        }
                    }
                    node = match &current.outer {
                        Some(o) => Some(&**o),
                        None => None,
                    };
                },
            }
        }
    }
}

/// The chain of an optional derivation.
pub open spec fn isolate_chain(layer: Option<Arc<IsolateLayer>>) -> Seq<PlacementRows> {
    match layer {
        Some(node) => node.chain(),
        None => Seq::empty(),
    }
}

fn clone_isolate(layer: &Option<Arc<IsolateLayer>>) -> (r: Option<Arc<IsolateLayer>>)
    ensures
        r == *layer,
{
    match layer {
        Some(node) => Some(Arc::clone(node)),
        None => None,
    }
}

/// One prepared configuration layer on a Context.
pub struct InterceptLayer {
    /// The Service the layer is for.
    pub name: String,
    /// The prepared layer.
    pub configured: ConfiguredLayer,
    /// The layer it was installed over.
    pub outer: Option<Arc<InterceptLayer>>,
}

/// A configuration layer as a mathematical value.
pub struct InterceptView {
    pub name: Seq<char>,
    pub configured: ConfiguredLayer,
}

impl InterceptLayer {
    /// This layer followed by those it was installed over.
    pub open spec fn chain(&self) -> Seq<InterceptView>
        decreases self,
    {
        let own = InterceptView { name: self.name@, configured: self.configured };
        match &self.outer {
            Some(o) => seq![own] + o.chain(),
            None => seq![own],
        }
    }
}

/// The chain of an optional configuration layer.
pub open spec fn intercept_chain(layer: Option<Arc<InterceptLayer>>) -> Seq<InterceptView> {
    match layer {
        Some(node) => node.chain(),
        None => Seq::empty(),
    }
}

fn clone_intercept(layer: &Option<Arc<InterceptLayer>>) -> (r: Option<Arc<InterceptLayer>>)
    ensures
        r == *layer,
{
    match layer {
        Some(node) => Some(Arc::clone(node)),
        None => None,
    }
}

/// The layers for `name`, outermost first.
pub open spec fn layers_for(chain: Seq<InterceptView>, name: Seq<char>) -> Seq<ConfiguredLayer>
    decreases chain.len(),
{
    if chain.len() == 0 {
        Seq::empty()
    } else if chain[0].name == name {
        layers_for(chain.drop_first(), name).push(chain[0].configured)
    } else {
        layers_for(chain.drop_first(), name)
    }
}

/// The values of a list of layers.
pub open spec fn layer_values(layers: Seq<ConfiguredLayer>) -> Seq<u64> {
    layers.map_values(|l: ConfiguredLayer| l.value)
}

/// A view on one Runtime.
pub struct Context {
    /// Identity of the Runtime.
    pub runtime: u64,
    /// The current Fiber.
    pub fiber: FiberId,
    /// The Service-placement axis.
    pub isolate: Option<Arc<IsolateLayer>>,
    /// The Event Scope axis.
    pub scope: Option<Arc<ScopeNode>>,
    /// The Service-configuration axis.
    pub intercept: Option<Arc<InterceptLayer>>,
}

/// A Context as a mathematical value.
#[verifier::ext_equal]
pub struct ContextView {
    pub runtime: u64,
    pub fiber: FiberId,
    pub isolate: Seq<PlacementRows>,
    pub scope: Seq<u64>,
    pub intercept: Seq<InterceptView>,
}

impl View for Context {
    type V = ContextView;

    open spec fn view(&self) -> ContextView {
        ContextView {
            runtime: self.runtime,
            fiber: self.fiber,
            isolate: isolate_chain(self.isolate),
            scope: layer_chain(self.scope),
            intercept: intercept_chain(self.intercept),
        }
    }
}

impl ContextView {
    /// The view of a Runtime's root Context.
    pub open spec fn origin(runtime: u64, fiber: FiberId) -> ContextView {
        ContextView {
            runtime,
            fiber,
            isolate: Seq::empty(),
            scope: Seq::empty(),
            intercept: Seq::empty(),
        }
    }

    /// The realm the Context places `name` in.
    pub open spec fn realm_of(self, name: Seq<char>) -> RealmKey {
        placement(self.isolate, name)
    }

    /// The same view with another current Fiber.
    pub open spec fn on_fiber(self, fiber: FiberId) -> ContextView {
        ContextView { fiber, ..self }
    }

    /// The view one placement derivation further in.
    pub open spec fn placing(self, rows: PlacementRows) -> ContextView {
        ContextView { isolate: seq![rows] + self.isolate, ..self }
    }

    /// The view at a Scope node derived beneath the current position.
    pub open spec fn scoped(self, id: u64) -> ContextView {
        ContextView { scope: seq![id] + self.scope, ..self }
    }

    /// The view one configuration layer further in.
    pub open spec fn configured(self, name: Seq<char>, layer: ConfiguredLayer) -> ContextView {
        ContextView {
            intercept: seq![InterceptView { name, configured: layer }] + self.intercept,
            ..self
        }
    }
}

/// Whether the names of `pairs` are pairwise distinct.
pub open spec fn distinct_names(pairs: Seq<(String, ServiceRealm)>) -> bool {
    forall|i: int, j: int|
        0 <= i < j < pairs.len() ==> (#[trigger] pairs[i]).0@ != (#[trigger] pairs[j]).0@
}

/// Whether `i` is the first position whose name occurred before.
pub open spec fn first_repeat(pairs: Seq<(String, ServiceRealm)>, i: int) -> bool {
    &&& 0 <= i < pairs.len()
    &&& distinct_names(pairs.take(i))
    &&& exists|j: int| 0 <= j < i && (#[trigger] pairs[j]).0@ == pairs[i].0@
}

/// Whether a pair uses a realm of another Runtime.
pub open spec fn foreign(runtime: u64) -> spec_fn((String, ServiceRealm)) -> bool {
    |pair: (String, ServiceRealm)| pair.1.membership != runtime
}

/// The placements that pairs of name and realm stand for.
pub open spec fn realm_rows(pairs: Seq<(String, ServiceRealm)>) -> PlacementRows {
    pairs.map_values(|pair: (String, ServiceRealm)| (pair.0@, pair.1.key))
}

impl Context {
    /// Another reference to the same view.
    pub fn duplicate(&self) -> (r: Context)
        ensures
            r@ == self@,
    {
        Context {
            runtime: self.runtime,
            fiber: self.fiber,
            isolate: clone_isolate(&self.isolate),
            scope: clone_layer(&self.scope),
            intercept: clone_intercept(&self.intercept),
        }
    }

    /// The same view with another current Fiber.
    pub fn with_fiber(&self, fiber: FiberId) -> (r: Context)
        ensures
            r@ == self@.on_fiber(fiber),
    {
        Context { fiber, ..self.duplicate() }
    }

    /// The current Fiber.
    pub fn fiber(&self) -> (r: FiberId)
        ensures
            r == self@.fiber,
    {
        self.fiber
    }

    /// The realm this Context places `name` in.
    pub fn isolate_key(&self, name: &String) -> (r: RealmKey)
        ensures
            r == self@.realm_of(name@),
    {
        match &self.isolate {
            Some(layer) => match layer.lookup(name) {
                Some(key) => key,
                None => RealmKey::default_realm(),
            },
            None => RealmKey::default_realm(),
        }
    }

    /// The view with `map` installed over its placements; the other axes stay.
    pub fn derive_isolate(&self, map: Vec<(String, RealmKey)>) -> (r: Context)
        ensures
            r@ == self@.placing(placement_rows(map@)),
    {
        let layer = IsolateLayer { map, outer: clone_isolate(&self.isolate) };
        let r = Context { isolate: Some(Arc::new(layer)), ..self.duplicate() };
        assert(r@.isolate =~= seq![placement_rows(map@)] + self@.isolate);
        r
    }

    /// Installs a complete batch of realm mappings, or refuses the batch: a name
    /// that occurs twice is reported before a realm of another Runtime.
    pub fn with_service_realms(&self, pairs: Vec<(String, ServiceRealm)>) -> (r: Result<
        Context,
        RealmMappingError,
    >)
        ensures
            match r {
                Err(RealmMappingError::DuplicateService { service }) => exists|i: int|
                    #[trigger] first_repeat(pairs@, i) && service@ == pairs@[i].0@,
                Err(RealmMappingError::ForeignRealm { service }) => distinct_names(pairs@)
                    && exists|i: int|
                    #[trigger] is_first(pairs@, foreign(self@.runtime), i) && service@
                        == pairs@[i].0@,
                Ok(derived) => {
                    &&& distinct_names(pairs@)
                    &&& forall|i: int|
                        0 <= i < pairs@.len() ==> (#[trigger] pairs@[i]).1.membership
                            == self@.runtime
                    &&& derived@ == self@.placing(realm_rows(pairs@))
                },
            },
    {
        let mut i: usize = 0;
        while i < pairs.len()
            invariant
                i <= pairs@.len(),
                distinct_names(pairs@.take(i as int)),
            decreases pairs@.len() - i,
        {
            let mut j: usize = 0;
            while j < i
                invariant
                    j <= i < pairs@.len(),
                    distinct_names(pairs@.take(i as int)),
                    forall|k: int| 0 <= k < j ==> (#[trigger] pairs@[k]).0@ != pairs@[i as int].0@,
                decreases i - j,
            {
                if pairs[j].0 == pairs[i].0 {
                    assert(pairs@[j as int].0@ == pairs@[i as int].0@);
                    assert(first_repeat(pairs@, i as int));
                    return Err(
                        RealmMappingError::DuplicateService { service: pairs[i].0.clone() },
                    );
                }
                j = j + 1;
            }
            proof {
                let shorter = pairs@.take(i as int);
                let longer = pairs@.take(i + 1);
                assert forall|a: int, b: int| 0 <= a < b < longer.len() implies (
                #[trigger] longer[a]).0@ != (#[trigger] longer[b]).0@ by {
                    if b < i {
                        assert(shorter[a].0@ != shorter[b].0@);
                    } else {
                        assert(pairs@[a].0@ != pairs@[i as int].0@);
                    }
                }
            }
            i = i + 1;
        }
        assert(pairs@.take(i as int) =~= pairs@);
        let mut map: Vec<(String, RealmKey)> = Vec::new();
        let mut k: usize = 0;
        while k < pairs.len()
            invariant
                k <= pairs@.len(),
                distinct_names(pairs@),
                forall|n: int|
                    0 <= n < k ==> (#[trigger] pairs@[n]).1.membership == self@.runtime,
                placement_rows(map@) == realm_rows(pairs@).take(k as int),
            decreases pairs@.len() - k,
        {
            if !pairs[k].1.belongs_to(self.runtime) {
                assert(is_first(pairs@, foreign(self@.runtime), k as int));
                return Err(RealmMappingError::ForeignRealm { service: pairs[k].0.clone() });
            }
            let row = (pairs[k].0.clone(), pairs[k].1.key());
            assert(placement_rows(map@.push(row)) =~= placement_rows(map@).push((row.0@, row.1)));
            map.push(row);
            assert(placement_rows(map@) =~= realm_rows(pairs@).take(k + 1));
            k = k + 1;
        }
        assert(placement_rows(map@) =~= realm_rows(pairs@));
        Ok(self.derive_isolate(map))
    }

    /// The Context's Event Scope position.
    pub fn scope(&self) -> (r: Scope)
        ensures
            r@ == (ScopeView { membership: self@.runtime, chain: self@.scope }),
    {
        Scope { membership: self.runtime, layer: clone_layer(&self.scope) }
    }

    /// The view at a fresh Scope node `id` beneath the current position.
    pub fn at_child_scope(&self, id: u64) -> (r: Context)
        ensures
            r@ == self@.scoped(id),
    {
        let node = ScopeNode::derive(&self.scope, id);
        let r = Context { scope: Some(node), ..self.duplicate() };
        assert(r@.scope =~= seq![id] + self@.scope);
        r
    }

    /// The view with one prepared configuration layer installed innermost.
    pub fn with_configured_intercept(&self, name: String, configured: ConfiguredLayer) -> (r:
        Context)
        ensures
            r@ == self@.configured(name@, configured),
    {
        let layer = InterceptLayer { name, configured, outer: clone_intercept(&self.intercept) };
        let r = Context { intercept: Some(Arc::new(layer)), ..self.duplicate() };
        assert(r@.intercept =~= seq![InterceptView { name: name@, configured }]
            + self@.intercept);
        r
    }

    /// The view with one prepared layer for Service `S` installed innermost.
    pub fn with_intercept<S: ConfigurableService>(&self, contract: ContractId, layer: u64) -> (r:
        Context)
        ensures
            r@ == self@.configured(
                S::NAME@,
                ConfiguredLayer { service_type: contract, value: layer },
            ),
    {
        self.with_configured_intercept(S::NAME.to_owned(), ConfiguredLayer::new(contract, layer))
    }

    /// The layers for `name` on this Context, outermost first.
    pub fn intercepts(&self, name: &String) -> (r: Vec<ConfiguredLayer>)
        ensures
            r@ == layers_for(self@.intercept, name@),
    {
        let mut out: Vec<ConfiguredLayer> = Vec::new();
        let mut node: Option<&InterceptLayer> = match &self.intercept {
            Some(layer) => Some(&**layer),
            None => None,
        };
        let ghost all = layers_for(self@.intercept, name@);
        proof {
            assert(all + out@ =~= all);
        }
        loop
            invariant
                match node {
                    Some(c) => all == layers_for(c.chain(), name@) + out@,
                    None => all == out@,
                },
            ensures
                all == out@,
            decreases node,
        {
            match node {
                None => {
                    break ;
                },
                Some(current) => {
                    let ghost rest = current.chain().drop_first();
                    proof {
                        match &current.outer {
                            Some(o) => {
                                assert(rest =~= o.chain());
                            },
                            None => {
                                assert(rest =~= Seq::empty());
                            },
                        }
                    }
                    if current.name == *name {
                        let ghost before = out@;
                        out.insert(0, current.configured);
                        assert(layers_for(rest, name@).push(current.configured) + before
                            =~= layers_for(rest, name@) + out@);
                    }
                    node = match &current.outer {
                        Some(o) => Some(&**o),
                        None => None,
                    };
                    proof {
                        if node is None {
                            assert(layers_for(rest, name@) + out@ =~= out@);
                        }
                    }
                },
            }
        }
        out
    }

    /// Resolves the complete configuration of Service `S`: the layers on this
    /// Context, outermost first, between an optional base and an optional head.
    /// A layer of the same name that was prepared for another contract refuses
    /// the resolution before anything is composed.
    pub fn resolve_config<S: ConfigurableService>(
        &self,
        contract: ContractId,
        base: Option<u64>,
        head: Option<u64>,
    ) -> (r: Result<S::Resolved, ConfigResolutionError<S::ComposeError>>)
        ensures
            ({
                let layers = layers_for(self@.intercept, S::NAME@);
                let mismatch = exists|i: int|
                    0 <= i < layers.len() && (#[trigger] layers[i]).service_type != contract;
                match r {
                    Err(ConfigResolutionError::ContractMismatch { service }) => mismatch && service@
                        == S::NAME@,
                    Err(ConfigResolutionError::Compose(e)) => !mismatch && S::composes(
                        base,
                        layer_values(layers),
                        head,
                        Err(e),
                    ),
                    Ok(resolved) => !mismatch && S::composes(
                        base,
                        layer_values(layers),
                        head,
                        Ok(resolved),
                    ),
                }
            }),
    {
        let name: String = S::NAME.to_owned();
        let layers = self.intercepts(&name);
        let mut values: Vec<u64> = Vec::new();
        let mut i: usize = 0;
        while i < layers.len()
            invariant
                i <= layers@.len(),
                layers@ == layers_for(self@.intercept, S::NAME@),
                forall|j: int|
                    0 <= j < i ==> (#[trigger] layers@[j]).service_type == contract,
                values@ == layer_values(layers@).take(i as int),
            decreases layers@.len() - i,
        {
            if !layers[i].matches(contract) {
                return Err(ConfigResolutionError::ContractMismatch { service: name_of::<S>() });
            }
            values.push(layers[i].value);
            assert(values@ =~= layer_values(layers@).take(i + 1));
            i = i + 1;
        }
        assert(values@ =~= layer_values(layers@));
        match S::compose_config(base, &values, head) {
            Ok(resolved) => Ok(resolved),
            Err(error) => Err(ConfigResolutionError::Compose(error)),
        }
    }
}

/// A Service's contract name as owned text.
pub fn name_of<S: ConfigurableService>() -> (r: String)
    ensures
        r@ == S::NAME@,
{
    S::NAME.to_owned()
}

/// A derivation changes the placement of the Services it names and of no other:
/// every other Service keeps the realm it had.
pub proof fn law_a_derivation_places_only_what_it_names(
    ctx: ContextView,
    rows: PlacementRows,
    name: Seq<char>,
)
    ensures
        ctx.placing(rows).realm_of(name) == (match row_realm(rows, name) {
            Some(key) => key,
            None => ctx.realm_of(name),
        }),
{
    let chain = seq![rows] + ctx.isolate;
    assert(chain[0] == rows);
    assert(chain.drop_first() =~= ctx.isolate);
}

/// The four axes are independent: each derivation changes one of them.
pub proof fn law_derivations_change_one_axis(
    ctx: ContextView,
    fiber: FiberId,
    rows: PlacementRows,
    id: u64,
    name: Seq<char>,
    layer: ConfiguredLayer,
)
    ensures
        ({
            let d = ctx.on_fiber(fiber);
            d.isolate == ctx.isolate && d.scope == ctx.scope && d.intercept == ctx.intercept
        }),
        ({
            let d = ctx.placing(rows);
            d.fiber == ctx.fiber && d.scope == ctx.scope && d.intercept == ctx.intercept
        }),
        ({
            let d = ctx.scoped(id);
            d.fiber == ctx.fiber && d.isolate == ctx.isolate && d.intercept == ctx.intercept
        }),
        ({
            let d = ctx.configured(name, layer);
            d.fiber == ctx.fiber && d.isolate == ctx.isolate && d.scope == ctx.scope
        }),
{
}

/// A layer installed for one Service composes after every outer layer of that
/// Service and is invisible to every other.
pub proof fn law_an_intercept_is_innermost_for_its_service(
    ctx: ContextView,
    name: Seq<char>,
    layer: ConfiguredLayer,
    other: Seq<char>,
)
    ensures
        layers_for(ctx.configured(name, layer).intercept, other) == if other == name {
            layers_for(ctx.intercept, other).push(layer)
        } else {
            layers_for(ctx.intercept, other)
        },
{
    let chain = ctx.configured(name, layer).intercept;
    assert(chain[0] == (InterceptView { name, configured: layer }));
    assert(chain.drop_first() =~= ctx.intercept);
}

} // verus!
