//! Lexicographic order of texts by character.

use crate::text::chars_of;
use vstd::prelude::*;

verus! {

/// Whether `a` comes before `b` because they first differ at position `k`.
pub open spec fn before_at(a: Seq<char>, b: Seq<char>, k: int) -> bool {
    &&& 0 <= k <= a.len()
    &&& k < b.len()
    &&& forall|j: int| 0 <= j < k ==> a[j] == b[j]
    &&& (k == a.len() || (a[k] as int) < (b[k] as int))
}

/// Whether `a` comes before `b`.
pub open spec fn before(a: Seq<char>, b: Seq<char>) -> bool {
    exists|k: int| before_at(a, b, k)
}

/// How two texts compare.
#[derive(Clone, Copy, PartialEq, Eq, Structural, Debug)]
pub enum Place {
    /// The first text comes before the second.
    Before,
    /// The texts are equal.
    Same,
    /// The first text comes after the second.
    After,
}

/// Compares two texts.
pub fn place_of(a: &str, b: &str) -> (r: Place)
    ensures
        r == Place::Before <==> before(a@, b@),
        r == Place::Same <==> a@ == b@,
        r == Place::After <==> before(b@, a@),
{
    let x = chars_of(a);
    let y = chars_of(b);
    let mut i: usize = 0;
    while i < x.len() && i < y.len() && x[i] == y[i]
        invariant
            x@ == a@,
            y@ == b@,
            i <= x@.len(),
            i <= y@.len(),
            forall|j: int| 0 <= j < i ==> x@[j] == y@[j],
        decreases x@.len() - i,
    {
        i = i + 1;
    }
    proof {
        lemma_asymmetric(a@, b@);
        lemma_asymmetric(b@, a@);
    }
    if i == x.len() && i == y.len() {
        assert(a@ =~= b@);
        proof {
            lemma_irreflexive(a@);
        }
        Place::Same
    } else if i == x.len() {
        assert(before_at(a@, b@, i as int));
        Place::Before
    } else if i == y.len() {
        assert(before_at(b@, a@, i as int));
        Place::After
    } else if x[i] < y[i] {
        assert(before_at(a@, b@, i as int));
        Place::Before
    } else {
        assert(before_at(b@, a@, i as int));
        Place::After
    }
}

pub proof fn lemma_irreflexive(a: Seq<char>)
    ensures
        !before(a, a),
{
}

pub proof fn lemma_asymmetric(a: Seq<char>, b: Seq<char>)
    ensures
        !(before(a, b) && before(b, a)),
        before(a, b) ==> a != b,
{
    if before(a, b) && before(b, a) {
        let k = choose|k: int| before_at(a, b, k);
        let m = choose|m: int| before_at(b, a, m);
        if k < m {
            assert(b[k] == a[k]);
        } else if m < k {
            assert(a[m] == b[m]);
        }
    }
    if a == b {
        lemma_irreflexive(a);
    }
}

pub proof fn lemma_transitive(a: Seq<char>, b: Seq<char>, c: Seq<char>)
    requires
        before(a, b),
        before(b, c),
    ensures
        before(a, c),
{
    let k = choose|k: int| before_at(a, b, k);
    let m = choose|m: int| before_at(b, c, m);
    let n = if k < m {
        k
    } else {
        m
    };
    assert forall|j: int| 0 <= j < n implies a[j] == c[j] by {
        assert(a[j] == b[j]);
        assert(b[j] == c[j]);
    }
    assert(before_at(a, c, n));
}

} // verus!
