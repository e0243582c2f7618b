//! Dependency edges and the projection from edges to the Fibers that declare
//! them.

use crate::ids::{FiberId, RealmKey};
use crate::seqs::{lemma_filter_map_step, lemma_filter_step};
use vstd::prelude::*;

verus! {

/// One exact dependency slot a Fiber declares.
#[derive(Debug, PartialEq, Eq)]
pub struct DependencyEdge {
    /// The Service name.
    pub service: String,
    /// The realm the name was placed in when the Fiber was created.
    pub realm: RealmKey,
}

/// An edge as a mathematical value.
pub struct EdgeView {
    pub service: Seq<char>,
    pub realm: RealmKey,
}

impl View for DependencyEdge {
    type V = EdgeView;

    open spec fn view(&self) -> EdgeView {
        EdgeView { service: self.service@, realm: self.realm }
    }
}

/// The views of a list of edges.
pub open spec fn edge_views(edges: Seq<DependencyEdge>) -> Seq<EdgeView> {
    edges.map_values(|e: DependencyEdge| e@)
}

impl DependencyEdge {
    /// The edge to `service` in `realm`.
    pub fn new(service: String, realm: RealmKey) -> (r: DependencyEdge)
        ensures
            r@ == (EdgeView { service: service@, realm }),
    {
        DependencyEdge { service, realm }
    }

    /// Whether two edges select the same slot.
    pub fn same(&self, other: &DependencyEdge) -> (r: bool)
        ensures
            r == (self@ == other@),
    {
        self.realm == other.realm && self.service == other.service
    }

    /// Another edge to the same slot.
    pub fn duplicate(&self) -> (r: DependencyEdge)
        ensures
            r@ == self@,
    {
        DependencyEdge { service: self.service.clone(), realm: self.realm }
    }
}

/// Another list of the same edges.
pub fn duplicate_edges(edges: &Vec<DependencyEdge>) -> (r: Vec<DependencyEdge>)
    ensures
        edge_views(r@) == edge_views(edges@),
{
    let mut out: Vec<DependencyEdge> = Vec::new();
    let mut i: usize = 0;
    while i < edges.len()
        invariant
            i <= edges@.len(),
            edge_views(out@) == edge_views(edges@).take(i as int),
        decreases edges@.len() - i,
    {
        let edge = edges[i].duplicate();
        assert(edge_views(out@.push(edge)) =~= edge_views(out@).push(edge@));
        out.push(edge);
        assert(edge_views(out@) =~= edge_views(edges@).take(i + 1));
        i = i + 1;
    }
    assert(edge_views(out@) =~= edge_views(edges@));
    out
}

/// Whether two lists of edges have a slot in common.
pub open spec fn touches(mine: Seq<EdgeView>, edges: Seq<EdgeView>) -> bool {
    exists|i: int| 0 <= i < mine.len() && edges.contains(#[trigger] mine[i])
}

/// Decides [`touches`].
pub fn any_common(mine: &Vec<DependencyEdge>, edges: &Vec<DependencyEdge>) -> (r: bool)
    ensures
        r == touches(edge_views(mine@), edge_views(edges@)),
{
    let ghost m = edge_views(mine@);
    let ghost e = edge_views(edges@);
    let mut i: usize = 0;
    while i < mine.len()
        invariant
            i <= mine@.len(),
            m == edge_views(mine@),
            e == edge_views(edges@),
            forall|k: int| 0 <= k < i ==> !e.contains(#[trigger] m[k]),
        decreases mine@.len() - i,
    {
        let mut j: usize = 0;
        while j < edges.len()
            invariant
                i < mine@.len(),
                j <= edges@.len(),
                m == edge_views(mine@),
                e == edge_views(edges@),
                forall|k: int| 0 <= k < j ==> #[trigger] e[k] != m[i as int],
            decreases edges@.len() - j,
        {
            if mine[i].same(&edges[j]) {
                assert(e[j as int] == m[i as int]);
                assert(e.contains(m[i as int]));
                return true;
            }
            assert(e[j as int] != m[i as int]);
            j = j + 1;
        }
        assert(!e.contains(m[i as int]));
        i = i + 1;
    }
    false
}

/// One registered Fiber and its edges.
pub struct IndexRow {
    /// The Fiber.
    pub fiber: FiberId,
    /// Its declared edges.
    pub edges: Vec<DependencyEdge>,
}

/// A registered Fiber as a mathematical value.
pub struct IndexRowView {
    pub fiber: FiberId,
    pub edges: Seq<EdgeView>,
}

impl View for IndexRow {
    type V = IndexRowView;

    open spec fn view(&self) -> IndexRowView {
        IndexRowView { fiber: self.fiber, edges: edge_views(self.edges@) }
    }
}

/// The Fiber of a row whose edges touch `edges`.
pub open spec fn row_hit(edges: Seq<EdgeView>) -> spec_fn(IndexRowView) -> Option<FiberId> {
    |row: IndexRowView|
        if touches(row.edges, edges) {
            Some(row.fiber)
        } else {
            None
        }
}

/// The projection from edges to the Fibers that declare them. It accelerates
/// fan-out; without it the resident Fibers' own edges decide.
pub struct DependencyIndex {
    available: bool,
    rows: Vec<IndexRow>,
}

/// The projection as a mathematical value.
#[verifier::ext_equal]
pub struct IndexView {
    pub available: bool,
    pub rows: Seq<IndexRowView>,
}

impl View for DependencyIndex {
    type V = IndexView;

    closed spec fn view(&self) -> IndexView {
        IndexView { available: self.available, rows: self.rows@.map_values(|r: IndexRow| r@) }
    }
}

/// Whether a row is another Fiber's.
pub open spec fn not_of(fiber: FiberId) -> spec_fn(IndexRowView) -> bool {
    |row: IndexRowView| row.fiber != fiber
}

impl IndexView {
    /// A complete projection of nothing.
    pub open spec fn empty() -> IndexView {
        IndexView { available: true, rows: Seq::empty() }
    }

    /// The projection with one Fiber more.
    pub open spec fn registered(self, fiber: FiberId, edges: Seq<EdgeView>) -> IndexView {
        IndexView { rows: self.rows.push(IndexRowView { fiber, edges }), ..self }
    }

    /// The projection without a Fiber.
    pub open spec fn unregistered(self, fiber: FiberId) -> IndexView {
        IndexView { rows: self.rows.filter(not_of(fiber)), ..self }
    }

    /// The registered Fibers that declare one of `edges`, in registration order.
    pub open spec fn hits(self, edges: Seq<EdgeView>) -> Seq<FiberId> {
        self.rows.filter_map(row_hit(edges))
    }
}

impl DependencyIndex {
    /// A complete projection of nothing.
    pub fn new() -> (r: DependencyIndex)
        ensures
            r@ == IndexView::empty(),
    {
        let r = DependencyIndex { available: true, rows: Vec::new() };
        assert(r@ =~= IndexView::empty());
        r
    }

    /// Registers a Fiber's edges.
    pub fn register(&mut self, fiber: FiberId, edges: Vec<DependencyEdge>)
        ensures
            final(self)@ == old(self)@.registered(fiber, edge_views(edges@)),
    {
        let row = IndexRow { fiber, edges };
        self.rows.push(row);
        assert(self@.rows =~= old(self)@.rows.push(row@));
    }

    /// Removes a Fiber's edges.
    pub fn unregister(&mut self, fiber: FiberId)
        ensures
            final(self)@ == old(self)@.unregistered(fiber),
    {
        let ghost before = self@.rows;
        let ghost p = not_of(fiber);
        let mut kept: Vec<IndexRow> = Vec::new();
        let mut rest: Vec<IndexRow> = Vec::new();
        std::mem::swap(&mut rest, &mut self.rows);
        let ghost all = rest@;
        proof {
            assert(before.take(0) =~= Seq::empty());
            reveal(Seq::filter);
            assert(kept@.map_values(|r: IndexRow| r@) =~= before.take(0).filter(p));
        }
        let ghost mut i: int = 0;
        while rest.len() > 0
            invariant
                0 <= i,
                i + rest@.len() == all.len(),
                rest@ == all.skip(i),
                before == all.map_values(|r: IndexRow| r@),
                p == not_of(fiber),
                kept@.map_values(|r: IndexRow| r@) == before.take(i).filter(p),
                self.available == old(self).available,
            decreases rest@.len(),
        {
            let row = rest.remove(0);
            proof {
                assert(row == all[i]);
                assert(before[i] == row@);
                lemma_filter_step(before, p, i);
                assert(rest@ =~= all.skip(i + 1));
                assert(kept@.push(row).map_values(|r: IndexRow| r@) =~= kept@.map_values(
                    |r: IndexRow| r@,
                ).push(row@));
            }
            if row.fiber != fiber {
                kept.push(row);
            }
            proof {
                i = i + 1;
            }
        }
        self.rows = kept;
        assert(before.take(i) =~= before);
    }

    /// Makes the projection unavailable; lookups fall back to the Fibers' own
    /// edges.
    pub fn disable(&mut self)
        ensures
            final(self)@ == (IndexView { available: false, ..old(self)@ }),
    {
        self.available = false;
        assert(self@.rows =~= old(self)@.rows);
    }

    /// Makes the projection complete again over the given rows.
    pub fn rebuild(&mut self, rows: Vec<IndexRow>)
        ensures
            final(self)@ == (IndexView {
                available: true,
                rows: rows@.map_values(|r: IndexRow| r@),
            }),
    {
        self.rows = rows;
        self.available = true;
        assert(self@.rows =~= rows@.map_values(|r: IndexRow| r@));
    }

    /// The registered Fibers that declare one of `edges`, while the projection
    /// is available.
    pub fn dependents_of(&self, edges: &Vec<DependencyEdge>) -> (r: Option<Vec<FiberId>>)
        ensures
            match r {
                Some(fibers) => self@.available && fibers@ == self@.hits(edge_views(edges@)),
                None => !self@.available,
            },
    {
        if !self.available {
            return None;
        }
        let ghost rows = self@.rows;
        let ghost f = row_hit(edge_views(edges@));
        let mut out: Vec<FiberId> = Vec::new();
        let mut i: usize = 0;
        proof {
            assert(rows.take(0) =~= Seq::empty());
            reveal(Seq::filter_map);
        }
        while i < self.rows.len()
            invariant
                i <= self.rows@.len(),
                rows == self@.rows,
                f == row_hit(edge_views(edges@)),
                out@ == rows.take(i as int).filter_map(f),
            decreases self.rows@.len() - i,
        {
            proof {
                assert(rows[i as int] == self.rows@[i as int]@);
                lemma_filter_map_step(rows, f, i as int);
            }
            if any_common(&self.rows[i].edges, edges) {
                out.push(self.rows[i].fiber);
            }
            i = i + 1;
        }
        assert(rows.take(i as int) =~= rows);
        Some(out)
    }
}

} // verus!
