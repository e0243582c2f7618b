//! Facts about sequences that several stores share: the first element that
//! meets a condition, and the shape of a filtered prefix.

use vstd::prelude::*;

verus! {

/// Whether `i` is the position of the first element of `s` that meets `p`.
pub open spec fn is_first<A>(s: Seq<A>, p: spec_fn(A) -> bool, i: int) -> bool {
    &&& 0 <= i < s.len()
    &&& p(s[i])
    &&& forall|j: int| 0 <= j < i ==> !p(#[trigger] s[j])
}

/// The position of the first element that meets `p`, if there is one.
pub open spec fn first_index<A>(s: Seq<A>, p: spec_fn(A) -> bool) -> Option<int> {
    if exists|i: int| is_first(s, p, i) {
        Some(choose|i: int| is_first(s, p, i))
    } else {
        None
    }
}

/// The first element that meets `p`, if there is one.
pub open spec fn first<A>(s: Seq<A>, p: spec_fn(A) -> bool) -> Option<A> {
    match first_index(s, p) {
        Some(i) => Some(s[i]),
        None => None,
    }
}

/// The sequence without the first element that meets `p`.
pub open spec fn without_first<A>(s: Seq<A>, p: spec_fn(A) -> bool) -> Seq<A> {
    match first_index(s, p) {
        Some(i) => s.remove(i),
        None => s,
    }
}

pub proof fn lemma_first_found<A>(s: Seq<A>, p: spec_fn(A) -> bool, i: int)
    requires
        is_first(s, p, i),
    ensures
        first_index(s, p) == Some(i),
{
    let k = choose|k: int| is_first(s, p, k);
    assert(is_first(s, p, k));
    if k < i {
        assert(!p(s[k]));
    }
    if i < k {
        assert(!p(s[i]));
    }
}

pub proof fn lemma_first_absent<A>(s: Seq<A>, p: spec_fn(A) -> bool)
    requires
        forall|j: int| 0 <= j < s.len() ==> !p(#[trigger] s[j]),
    ensures
        first_index(s, p) == None::<int>,
{
}

/// Where some element meets `p`, a first one does.
pub proof fn lemma_first_exists<A>(s: Seq<A>, p: spec_fn(A) -> bool, k: int)
    requires
        0 <= k < s.len(),
        p(s[k]),
    ensures
        first_index(s, p) is Some,
        is_first(s, p, first_index(s, p).unwrap()),
        first_index(s, p).unwrap() <= k,
    decreases k,
{
    if forall|j: int| 0 <= j < k ==> !p(#[trigger] s[j]) {
        assert(is_first(s, p, k));
        lemma_first_found(s, p, k);
    } else {
        let j = choose|j: int| 0 <= j < k && p(#[trigger] s[j]);
        lemma_first_exists(s, p, j);
    }
}

/// A first position that was found meets `p`, and nothing before it does.
pub proof fn lemma_first_meets<A>(s: Seq<A>, p: spec_fn(A) -> bool)
    ensures
        match first_index(s, p) {
            Some(i) => is_first(s, p, i),
            None => forall|j: int| 0 <= j < s.len() ==> !p(#[trigger] s[j]),
        },
{
    if first_index(s, p) is None {
        assert forall|j: int| 0 <= j < s.len() implies !p(#[trigger] s[j]) by {
            if p(s[j]) {
                lemma_first_exists(s, p, j);
            }
        }
    }
}

/// Folding one element more is one more step.
pub proof fn lemma_fold_step<A, B>(s: Seq<A>, b: B, f: spec_fn(B, A) -> B, i: int)
    requires
        0 <= i < s.len(),
    ensures
        s.take(i + 1).fold_left(b, f) == f(s.take(i).fold_left(b, f), s[i]),
{
    let t = s.take(i + 1);
    assert(t.drop_last() =~= s.take(i));
    assert(t.last() == s[i]);
}

/// Filtering one element more keeps it exactly when it meets the condition.
pub proof fn lemma_filter_step<A>(s: Seq<A>, p: spec_fn(A) -> bool, i: int)
    requires
        0 <= i < s.len(),
    ensures
        s.take(i + 1).filter(p) == if p(s[i]) {
            s.take(i).filter(p).push(s[i])
        } else {
            s.take(i).filter(p)
        },
{
    reveal(Seq::filter);
    let t = s.take(i + 1);
    assert(t.drop_last() =~= s.take(i));
    assert(t.last() == s[i]);
}

/// Filter-mapping one element more adds its image, where it has one.
pub proof fn lemma_filter_map_step<A, B>(s: Seq<A>, f: spec_fn(A) -> Option<B>, i: int)
    requires
        0 <= i < s.len(),
    ensures
        s.take(i + 1).filter_map(f) == match f(s[i]) {
            Some(b) => s.take(i).filter_map(f).push(b),
            None => s.take(i).filter_map(f),
        },
{
    reveal(Seq::filter_map);
    let t = s.take(i + 1);
    assert(t.drop_last() =~= s.take(i));
    assert(t.last() == s[i]);
    if let Some(b) = f(s[i]) {
        assert(s.take(i).filter_map(f) + seq![b] =~= s.take(i).filter_map(f).push(b));
    }
}

/// A filter-mapped sequence holds the images, and no others.
pub proof fn lemma_filter_map_members<A, B>(s: Seq<A>, f: spec_fn(A) -> Option<B>, b: B)
    ensures
        s.filter_map(f).contains(b) <==> exists|i: int| 0 <= i < s.len() && f(#[trigger] s[i])
            == Some(b),
    decreases s.len(),
{
    reveal(Seq::filter_map);
    if s.len() > 0 {
        let t = s.drop_last();
        let n = s.len() - 1;
        lemma_filter_map_members(t, f, b);
        assert(s.take(n + 1) =~= s);
        assert(s.take(n) =~= t);
        lemma_filter_map_step(s, f, n);
        let ft = t.filter_map(f);
        let fs = s.filter_map(f);
        if exists|i: int| 0 <= i < t.len() && f(#[trigger] t[i]) == Some(b) {
            let i = choose|i: int| 0 <= i < t.len() && f(#[trigger] t[i]) == Some(b);
            assert(f(s[i]) == Some(b));
        }
        if exists|i: int| 0 <= i < s.len() && f(#[trigger] s[i]) == Some(b) {
            let i = choose|i: int| 0 <= i < s.len() && f(#[trigger] s[i]) == Some(b);
            if i < n {
                assert(f(t[i]) == Some(b));
            }
        }
        match f(s[n]) {
            Some(x) => {
                assert(fs == ft.push(x));
                assert(fs.contains(b) <==> (ft.contains(b) || b == x)) by {
                    if ft.contains(b) {
                        let i = choose|i: int| 0 <= i < ft.len() && ft[i] == b;
                        assert(fs[i] == b);
                    }
                    if b == x {
                        assert(fs[fs.len() - 1] == b);
                    }
                    if fs.contains(b) {
                        let i = choose|i: int| 0 <= i < fs.len() && fs[i] == b;
                        if i < ft.len() {
                            assert(ft[i] == b);
                        }
                    }
                }
            },
            None => {},
        }
    }
}

/// A filtered sequence holds the elements that meet the condition, and no others.
pub proof fn lemma_filter_members<A>(s: Seq<A>, p: spec_fn(A) -> bool, a: A)
    ensures
        s.filter(p).contains(a) <==> (s.contains(a) && p(a)),
    decreases s.len(),
{
    reveal(Seq::filter);
    if s.len() > 0 {
        let t = s.drop_last();
        lemma_filter_members(t, p, a);
        let x = s.last();
        assert(s =~= t.push(x));
        assert(s.contains(a) <==> (t.contains(a) || a == x)) by {
            if t.contains(a) {
                let i = choose|i: int| 0 <= i < t.len() && t[i] == a;
                assert(s[i] == a);
            }
            if a == x {
                assert(s[s.len() - 1] == a);
            }
            if s.contains(a) {
                let i = choose|i: int| 0 <= i < s.len() && s[i] == a;
                if i < t.len() {
                    assert(t[i] == a);
                }
            }
        }
        let ft = t.filter(p);
        if p(x) {
            let fs = ft.push(x);
            assert(fs.contains(a) <==> (ft.contains(a) || a == x)) by {
                if ft.contains(a) {
                    let i = choose|i: int| 0 <= i < ft.len() && ft[i] == a;
                    assert(fs[i] == a);
                }
                if a == x {
                    assert(fs[fs.len() - 1] == a);
                }
                if fs.contains(a) {
                    let i = choose|i: int| 0 <= i < fs.len() && fs[i] == a;
                    if i < ft.len() {
                        assert(ft[i] == a);
                    }
                }
            }
        }
    }
}

} // verus!
