//! Event Scope positions: a position sees its own registrations and those of
//! its ancestors, never those of a sibling or a descendant.

use crate::ids::ScopeId;
use std::sync::Arc;
use vstd::prelude::*;

verus! {

/// One node of the Scope tree. A node is identified by its own fresh key and
/// keeps the chain to the root alive.
pub struct ScopeNode {
    /// Fresh identity of this node.
    pub id: u64,
    /// The node this one was derived from; `None` under the root position.
    pub parent: Option<Arc<ScopeNode>>,
}

impl ScopeNode {
    /// The node's own identity followed by those of its ancestors, nearest
    /// first.
    pub open spec fn chain(&self) -> Seq<u64>
        decreases self,
    {
        match &self.parent {
            Some(p) => seq![self.id] + p.chain(),
            None => seq![self.id],
        }
    }

    /// Whether `head` is this node or one of its ancestors.
    pub fn reaches(&self, head: &ScopeNode) -> (r: bool)
        ensures
            r == self.chain().contains(head.id),
    {
        let mut cur: Option<&ScopeNode> = Some(self);
        loop
            invariant
                match cur {
                    Some(c) => self.chain().contains(head.id) == c.chain().contains(head.id),
                    None => !self.chain().contains(head.id),
                },
            decreases cur,
        {
            match cur {
                None => {
                    return false;
                },
                Some(c) => {
                    if c.id == head.id {
                        assert(c.chain()[0] == head.id);
                        return true;
                    }
                    proof {
                        lemma_chain_contains(c, head.id);
                    }
                    cur = match &c.parent {
                        Some(p) => Some(&**p),
                        None => None,
                    };
                },
            }
        }
    }

    /// A fresh node beneath `parent`.
    pub fn derive(parent: &Option<Arc<ScopeNode>>, id: u64) -> (r: Arc<ScopeNode>)
        ensures
            r.chain() == seq![id] + layer_chain(*parent),
            r.id == id,
    {
        let node = ScopeNode { id, parent: clone_layer(parent) };
        proof {
            assert(node.chain() =~= seq![id] + layer_chain(*parent));
        }
        Arc::new(node)
    }
}

/// A chain holds its head and what its parent's chain holds.
pub proof fn lemma_chain_contains(node: &ScopeNode, id: u64)
    ensures
        node.chain().contains(id) == (node.id == id || match &node.parent {
            Some(p) => p.chain().contains(id),
            None => false,
        }),
{
    let s = node.chain();
    if node.id == id {
        assert(s[0] == id);
    }
    match &node.parent {
        Some(p) => {
            let t = p.chain();
            assert(s == seq![node.id] + t);
            if t.contains(id) {
                let i = choose|i: int| 0 <= i < t.len() && t[i] == id;
                assert(s[i + 1] == id);
            }
            if s.contains(id) && node.id != id {
                let i = choose|i: int| 0 <= i < s.len() && s[i] == id;
                assert(t[i - 1] == id);
            }
        },
        None => {},
    }
}

/// The chain of an optional node; the root position has none.
pub open spec fn layer_chain(layer: Option<Arc<ScopeNode>>) -> Seq<u64> {
    match layer {
        Some(node) => node.chain(),
        None => Seq::empty(),
    }
}

/// The identity of a position that is given by its chain.
pub open spec fn chain_id(chain: Seq<u64>) -> Option<u64> {
    if chain.len() == 0 {
        None
    } else {
        Some(chain[0])
    }
}

/// Another reference to the same position.
pub fn clone_layer(layer: &Option<Arc<ScopeNode>>) -> (r: Option<Arc<ScopeNode>>)
    ensures
        r == *layer,
{
    match layer {
        Some(node) => Some(Arc::clone(node)),
        None => None,
    }
}

/// Whether a registration made at `registration` is eligible for a dispatch
/// that targets `dispatch`: it was made at the root position, or `dispatch` is
/// that position or beneath it.
pub open spec fn in_reach(registration: Seq<u64>, dispatch: Seq<u64>) -> bool {
    registration.len() == 0 || dispatch.contains(registration[0])
}

/// Decides [`in_reach`] for two positions.
pub fn layer_in_reach(
    registration: &Option<Arc<ScopeNode>>,
    dispatch: &Option<Arc<ScopeNode>>,
) -> (r: bool)
    ensures
        r == in_reach(layer_chain(*registration), layer_chain(*dispatch)),
{
    match registration {
        None => true,
        Some(reg) => match dispatch {
            None => false,
            Some(at) => at.reaches(reg),
        },
    }
}

/// One Event Scope position of one Runtime.
pub struct Scope {
    /// The Runtime the position belongs to.
    pub membership: u64,
    /// The position; `None` is the root.
    pub layer: Option<Arc<ScopeNode>>,
}

/// A Scope as a mathematical value.
pub struct ScopeView {
    pub membership: u64,
    pub chain: Seq<u64>,
}

impl View for Scope {
    type V = ScopeView;

    open spec fn view(&self) -> ScopeView {
        ScopeView { membership: self.membership, chain: layer_chain(self.layer) }
    }
}

impl ScopeView {
    /// The opaque identity of the position.
    pub open spec fn id(self) -> ScopeId {
        ScopeId { membership: self.membership, layer: chain_id(self.chain) }
    }
}

impl Scope {
    /// Whether the position was taken in the Runtime `membership`.
    pub fn belongs_to(&self, membership: u64) -> (r: bool)
        ensures
            r == (self@.membership == membership),
    {
        self.membership == membership
    }

    /// Another reference to the same position.
    pub fn duplicate(&self) -> (r: Scope)
        ensures
            r@ == self@,
    {
        Scope { membership: self.membership, layer: clone_layer(&self.layer) }
    }
}

impl ScopeId {
    /// The identity of a position of Runtime `membership`.
    pub fn from_layer(membership: u64, layer: &Option<Arc<ScopeNode>>) -> (r: ScopeId)
        ensures
            r == (ScopeView { membership, chain: layer_chain(*layer) }).id(),
    {
        match layer {
            Some(node) => ScopeId { membership, layer: Some(node.id) },
            None => ScopeId { membership, layer: None },
        }
    }

    /// The identity of a Scope.
    pub fn from_scope(scope: &Scope) -> (r: ScopeId)
        ensures
            r == scope@.id(),
    {
        ScopeId::from_layer(scope.membership, &scope.layer)
    }
}

/// A dispatch that targets a position reaches the registrations made there.
pub proof fn law_scope_reaches_itself(chain: Seq<u64>)
    ensures
        in_reach(chain, chain),
{
    if chain.len() > 0 {
        assert(chain[0] == chain[0]);
        assert(chain.contains(chain[0]));
    }
}

/// Every registration that a position reaches is also reached from each
/// position derived beneath it.
pub proof fn law_descendants_reach_what_their_ancestors_reach(
    registration: Seq<u64>,
    dispatch: Seq<u64>,
    id: u64,
)
    requires
        in_reach(registration, dispatch),
    ensures
        in_reach(registration, seq![id] + dispatch),
{
    let deeper = seq![id] + dispatch;
    if registration.len() > 0 {
        let i = choose|i: int| 0 <= i < dispatch.len() && dispatch[i] == registration[0];
        assert(deeper[i + 1] == registration[0]);
    }
}

/// A position derived with a fresh identity is not reached from anywhere that
/// existed before it: neither from its parent nor from a sibling.
pub proof fn law_fresh_scope_is_out_of_reach_of_older_positions(
    parent: Seq<u64>,
    id: u64,
    dispatch: Seq<u64>,
)
    requires
        !dispatch.contains(id),
    ensures
        !in_reach(seq![id] + parent, dispatch),
{
    assert((seq![id] + parent)[0] == id);
}

/// The chains of the nodes derived so far, by identity: each is its own identity
/// before its parent's chain.
pub open spec fn is_forest(nodes: Map<u64, Seq<u64>>) -> bool {
    forall|id: u64| #[trigger]
        nodes.contains_key(id) ==> {
            &&& nodes[id].len() > 0
            &&& nodes[id][0] == id
            &&& nodes[id].len() > 1 ==> nodes.contains_key(nodes[id][1]) && nodes[id].skip(1)
                == nodes[nodes[id][1]]
        }
}

/// A node derived with a fresh identity, from the root position or from a node
/// derived before, takes its place among the others.
pub proof fn law_a_derivation_grows_the_forest(
    nodes: Map<u64, Seq<u64>>,
    parent: Option<u64>,
    id: u64,
)
    requires
        is_forest(nodes),
        !nodes.contains_key(id),
        parent matches Some(p) ==> nodes.contains_key(p),
    ensures
        is_forest(
            nodes.insert(
                id,
                seq![id] + (match parent {
                    Some(p) => nodes[p],
                    None => Seq::empty(),
                }),
            ),
        ),
{
    let above = match parent {
        Some(p) => nodes[p],
        None => Seq::empty(),
    };
    let chain = seq![id] + above;
    let after = nodes.insert(id, chain);
    assert(chain.skip(1) =~= above);
    assert forall|k: u64| #[trigger] after.contains_key(k) implies {
        &&& after[k].len() > 0
        &&& after[k][0] == k
        &&& after[k].len() > 1 ==> after.contains_key(after[k][1]) && after[k].skip(1)
            == after[after[k][1]]
    } by {
        if k != id {
            assert(nodes.contains_key(k));
            if nodes[k].len() > 1 {
                assert(nodes.contains_key(nodes[k][1]));
            }
        } else if above.len() > 0 {
            let p = parent.unwrap();
            assert(nodes.contains_key(p));
            assert(chain[1] == above[0]);
        }
    }
}

/// Below a node of a chain stands that node's own chain.
proof fn lemma_chain_suffix(nodes: Map<u64, Seq<u64>>, x: u64, i: int)
    requires
        is_forest(nodes),
        nodes.contains_key(x),
        0 <= i < nodes[x].len(),
    ensures
        nodes.contains_key(nodes[x][i]),
        nodes[x].skip(i) == nodes[nodes[x][i]],
    decreases i,
{
    let chain = nodes[x];
    if i == 0 {
        assert(chain.skip(0) =~= chain);
    } else {
        let p = chain[1];
        assert(nodes.contains_key(p));
        assert(nodes[p] == chain.skip(1));
        lemma_chain_suffix(nodes, p, i - 1);
        assert(chain.skip(1).skip(i - 1) =~= chain.skip(i));
        assert(chain.skip(1)[i - 1] == chain[i]);
    }
}

/// Reach among derived nodes is an order: a node reaches itself; what it reaches
/// reaches no more than it does; and two nodes that reach each other are one.
pub proof fn law_reach_is_an_order(nodes: Map<u64, Seq<u64>>, x: u64, y: u64, z: u64)
    requires
        is_forest(nodes),
        nodes.contains_key(x),
        nodes.contains_key(y),
        nodes.contains_key(z),
    ensures
        nodes[x].contains(x),
        nodes[x].contains(y) && nodes[y].contains(z) ==> nodes[x].contains(z),
        nodes[x].contains(y) && nodes[y].contains(x) ==> x == y,
{
    assert(nodes[x][0] == x);
    if nodes[x].contains(y) {
        let i = choose|i: int| 0 <= i < nodes[x].len() && nodes[x][i] == y;
        lemma_chain_suffix(nodes, x, i);
        if nodes[y].contains(z) {
            let k = choose|k: int| 0 <= k < nodes[y].len() && nodes[y][k] == z;
            assert(nodes[x].skip(i)[k] == nodes[x][i + k]);
        }
        if nodes[y].contains(x) {
            let k = choose|k: int| 0 <= k < nodes[y].len() && nodes[y][k] == x;
            lemma_chain_suffix(nodes, y, k);
        }
    }
}

/// A node reaches its parent and is not reached from it; it reaches itself and
/// what its parent reaches, nothing else.
pub proof fn law_a_node_reaches_its_parent(nodes: Map<u64, Seq<u64>>, c: u64, p: u64, x: u64)
    requires
        is_forest(nodes),
        nodes.contains_key(c),
        nodes.contains_key(p),
        nodes[c] == seq![c] + nodes[p],
    ensures
        nodes[c].contains(p),
        !nodes[p].contains(c),
        nodes[c].contains(x) <==> x == c || nodes[p].contains(x),
{
    assert(nodes[c][0] == c);
    assert(nodes[c][1] == nodes[p][0]);
    if nodes[p].contains(c) {
        let k = choose|k: int| 0 <= k < nodes[p].len() && nodes[p][k] == c;
        lemma_chain_suffix(nodes, p, k);
    }
    if nodes[c].contains(x) && x != c {
        let k = choose|k: int| 0 <= k < nodes[c].len() && nodes[c][k] == x;
        assert(nodes[p][k - 1] == x);
    }
    if nodes[p].contains(x) {
        let k = choose|k: int| 0 <= k < nodes[p].len() && nodes[p][k] == x;
        assert(nodes[c][k + 1] == x);
    }
}

/// Neither of two nodes derived from one position reaches the other.
pub proof fn law_siblings_do_not_reach_each_other(
    nodes: Map<u64, Seq<u64>>,
    parent: Seq<u64>,
    c: u64,
    d: u64,
)
    requires
        is_forest(nodes),
        nodes.contains_key(c),
        nodes.contains_key(d),
        nodes[c] == seq![c] + parent,
        nodes[d] == seq![d] + parent,
        c != d,
    ensures
        !nodes[c].contains(d),
        !nodes[d].contains(c),
{
    if nodes[c].contains(d) {
        let k = choose|k: int| 0 <= k < nodes[c].len() && nodes[c][k] == d;
        lemma_chain_suffix(nodes, c, k);
    }
    if nodes[d].contains(c) {
        let k = choose|k: int| 0 <= k < nodes[d].len() && nodes[d][k] == c;
        lemma_chain_suffix(nodes, d, k);
    }
}

} // verus!
