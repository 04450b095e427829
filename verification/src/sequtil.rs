//! Small sequence helpers shared across the store: a deterministic
//! first-index search and one unfolding step of `Seq::filter`.

use vstd::prelude::*;

verus! {

/// Index of the first element of `s` at or after `i` that satisfies `p`.
pub open spec fn first_where<A>(s: Seq<A>, p: spec_fn(A) -> bool, i: int) -> Option<int>
    decreases s.len() - i + 1,
{
    if i < 0 || i >= s.len() {
        None
    } else if p(s[i]) {
        Some(i)
    } else {
        first_where(s, p, i + 1)
    }
}

/// What a found first index means: it is in bounds, satisfies the
/// predicate, and nothing at or after the search start before it does.
pub proof fn lemma_first_where_props<A>(s: Seq<A>, p: spec_fn(A) -> bool, i: int)
    requires
        0 <= i,
    ensures
        match first_where(s, p, i) {
            Some(k) => i <= k < s.len() && p(s[k]) && forall|j: int|
                0 <= j < k && i <= j ==> !p(s[j]),
            None => forall|j: int| 0 <= j < s.len() && i <= j ==> !p(s[j]),
        },
    decreases s.len() - i + 1,
{
    if i < 0 || i >= s.len() {
    } else if p(s[i]) {
    } else {
        lemma_first_where_props(s, p, i + 1);
    }
}

/// Two sequences on which a predicate agrees pointwise have the same
/// first match.
pub proof fn lemma_first_where_congruent<A>(
    s1: Seq<A>,
    s2: Seq<A>,
    p: spec_fn(A) -> bool,
    i: int,
)
    requires
        s1.len() == s2.len(),
        forall|j: int| 0 <= j < s1.len() ==> p(#[trigger] s1[j]) == p(#[trigger] s2[j]),
    ensures
        first_where(s1, p, i) == first_where(s2, p, i),
    decreases s1.len() - i + 1,
{
    if i < 0 || i >= s1.len() {
    } else if p(s1[i]) {
    } else {
        lemma_first_where_congruent(s1, s2, p, i + 1);
    }
}

/// One unfolding step of the (opaque) `Seq::filter`.
pub proof fn lemma_filter_push<A>(s: Seq<A>, x: A, p: spec_fn(A) -> bool)
    ensures
        s.push(x).filter(p) == if p(x) {
            s.filter(p).push(x)
        } else {
            s.filter(p)
        },
{
    reveal(Seq::filter);
    assert(s.push(x).drop_last() =~= s);
    assert(s.push(x).last() == x);
}

/// Every element of a filtered sequence comes from the sequence itself.
pub proof fn lemma_filter_preimage<A>(s: Seq<A>, p: spec_fn(A) -> bool, i: int)
    requires
        0 <= i < s.filter(p).len(),
    ensures
        exists|k: int| 0 <= k < s.len() && s[k] == s.filter(p)[i],
    decreases s.len(),
{
    reveal(Seq::filter);
    if s.len() == 0 {
    } else {
        let pre = s.drop_last();
        if p(s.last()) && i == s.filter(p).len() - 1 {
            assert(s[s.len() - 1] == s.filter(p)[i]);
        } else {
            lemma_filter_preimage(pre, p, i);
            let k = choose|k: int| 0 <= k < pre.len() && pre[k] == pre.filter(p)[i];
            assert(s[k] == s.filter(p)[i]);
        }
    }
}

/// A property of every element survives filtering.
pub proof fn lemma_filter_all<A>(s: Seq<A>, p: spec_fn(A) -> bool, q: spec_fn(A) -> bool)
    requires
        forall|i: int| 0 <= i < s.len() ==> q(#[trigger] s[i]),
    ensures
        forall|i: int| 0 <= i < s.filter(p).len() ==> q(#[trigger] s.filter(p)[i]),
{
    assert forall|i: int| 0 <= i < s.filter(p).len() implies q(s.filter(p)[i]) by {
        lemma_filter_preimage(s, p, i);
    }
}

/// A pairwise property, holding of every ordered pair, survives filtering.
pub proof fn lemma_filter_pairwise<A>(s: Seq<A>, p: spec_fn(A) -> bool, r: spec_fn(A, A) -> bool)
    requires
        forall|i: int, j: int| 0 <= i < j < s.len() ==> r(#[trigger] s[i], #[trigger] s[j]),
    ensures
        forall|i: int, j: int|
            0 <= i < j < s.filter(p).len() ==> r(
                #[trigger] s.filter(p)[i],
                #[trigger] s.filter(p)[j],
            ),
    decreases s.len(),
{
    reveal(Seq::filter);
    if s.len() == 0 {
    } else {
        let pre = s.drop_last();
        assert(forall|i: int, j: int|
            0 <= i < j < pre.len() ==> r(#[trigger] pre[i], #[trigger] pre[j]));
        lemma_filter_pairwise(pre, p, r);
        let fs = s.filter(p);
        let fpre = pre.filter(p);
        assert forall|i: int, j: int| 0 <= i < j < fs.len() implies r(fs[i], fs[j]) by {
            if p(s.last()) && j == fs.len() - 1 && fs.len() == fpre.len() + 1 {
                assert(fs[j] == s.last());
                assert(fs[i] == fpre[i]);
                lemma_filter_preimage(pre, p, i);
                let k = choose|k: int| 0 <= k < pre.len() && pre[k] == fpre[i];
                assert(s[k] == fs[i]);
                assert(r(s[k], s[s.len() - 1]));
            } else {
                assert(fs[i] == fpre[i] && fs[j] == fpre[j]);
            }
        }
    }
}


/// Nothing satisfies the predicate: no first match.
pub proof fn lemma_first_where_none<A>(s: Seq<A>, p: spec_fn(A) -> bool)
    requires
        forall|i: int| 0 <= i < s.len() ==> !p(#[trigger] s[i]),
    ensures
        first_where(s, p, 0) is None,
{
    lemma_first_where_props(s, p, 0);
    if first_where(s, p, 0) is Some {
        let k = first_where(s, p, 0)->0;
        assert(!p(s[k]));
        assert(false);
    }
}

/// The predicate first holds at `k`: the first match is exactly there.
pub proof fn lemma_first_where_at<A>(s: Seq<A>, p: spec_fn(A) -> bool, k: int)
    requires
        0 <= k < s.len(),
        p(s[k]),
        forall|i: int| 0 <= i < k ==> !p(#[trigger] s[i]),
    ensures
        first_where(s, p, 0) == Some(k),
{
    lemma_first_where_props(s, p, 0);
    match first_where(s, p, 0) {
        None => {
            assert(!p(s[k]));
            assert(false);
        },
        Some(k2) => {
            if k2 < k {
                assert(!p(s[k2]));
                assert(false);
            } else if k < k2 {
                assert(!p(s[k]));
                assert(false);
            }
        },
    }
}

/// A predicate holding everywhere filters nothing out.
pub proof fn lemma_filter_all_true<A>(s: Seq<A>, p: spec_fn(A) -> bool)
    requires
        forall|i: int| 0 <= i < s.len() ==> p(#[trigger] s[i]),
    ensures
        s.filter(p) == s,
    decreases s.len(),
{
    reveal(Seq::filter);
    if s.len() == 0 {
        assert(s.filter(p) =~= s);
    } else {
        let pre = s.drop_last();
        assert(forall|i: int| 0 <= i < pre.len() ==> p(#[trigger] pre[i]));
        lemma_filter_all_true(pre, p);
        assert(s.filter(p) =~= s);
    }
}

/// A predicate holding exactly on the first `m` elements filters the
/// sequence down to exactly that prefix.
pub proof fn lemma_filter_prefix_true<A>(s: Seq<A>, p: spec_fn(A) -> bool, m: int)
    requires
        0 <= m <= s.len(),
        forall|i: int| 0 <= i < s.len() ==> (p(#[trigger] s[i]) <==> i < m),
    ensures
        s.filter(p) == s.subrange(0, m),
    decreases s.len(),
{
    reveal(Seq::filter);
    if s.len() == 0 {
        assert(s.filter(p) =~= s.subrange(0, m));
    } else {
        let pre = s.drop_last();
        if m == s.len() {
            assert(forall|i: int| 0 <= i < pre.len() ==> (p(#[trigger] pre[i]) <==> i < pre.len()));
            lemma_filter_prefix_true(pre, p, pre.len() as int);
            assert(pre.subrange(0, pre.len() as int) =~= pre);
            assert(p(s.last()));
            assert(s.filter(p) =~= s.subrange(0, m));
        } else {
            assert(forall|i: int| 0 <= i < pre.len() ==> (p(#[trigger] pre[i]) <==> i < m));
            lemma_filter_prefix_true(pre, p, m);
            assert(!p(s.last()));
            assert(pre.subrange(0, m) =~= s.subrange(0, m));
            assert(s.filter(p) == s.subrange(0, m));
        }
    }
}

/// A predicate holding exactly from index `m` on filters the sequence down
/// to exactly that suffix.
pub proof fn lemma_filter_suffix_true<A>(s: Seq<A>, p: spec_fn(A) -> bool, m: int)
    requires
        0 <= m <= s.len(),
        forall|i: int| 0 <= i < s.len() ==> (p(#[trigger] s[i]) <==> i >= m),
    ensures
        s.filter(p) == s.subrange(m, s.len() as int),
    decreases s.len(),
{
    reveal(Seq::filter);
    if s.len() == 0 {
        assert(s.filter(p) =~= s.subrange(m, s.len() as int));
    } else {
        let pre = s.drop_last();
        if m == s.len() {
            assert(forall|i: int| 0 <= i < pre.len() ==> (p(#[trigger] pre[i]) <==> i >= m));
            lemma_filter_suffix_true(pre, p, pre.len() as int);
            assert(!p(s.last()));
            assert(pre.subrange(pre.len() as int, pre.len() as int) =~= s.subrange(
                m,
                s.len() as int,
            ));
            assert(s.filter(p) == s.subrange(m, s.len() as int));
        } else {
            assert(forall|i: int| 0 <= i < pre.len() ==> (p(#[trigger] pre[i]) <==> i >= m));
            lemma_filter_suffix_true(pre, p, m);
            assert(p(s.last()));
            assert(pre.subrange(m, pre.len() as int).push(s.last()) =~= s.subrange(
                m,
                s.len() as int,
            ));
            assert(s.filter(p) == s.subrange(m, s.len() as int));
        }
    }
}

} // verus!
