//! Stable ordering by a key: what `sort_by_key` promises, stated over
//! sequences, and the insertion step that the sorts of this crate are built on.
use vstd::prelude::*;

verus! {

/// `le` is a total order on keys.
pub open spec fn total_order<K>(le: spec_fn(K, K) -> bool) -> bool {
    &&& forall|a: K| #[trigger] le(a, a)
    &&& forall|a: K, b: K| #[trigger] le(a, b) && #[trigger] le(b, a) ==> a == b
    &&& forall|a: K, b: K, c: K| #[trigger] le(a, b) && #[trigger] le(b, c) ==> le(a, c)
    &&& forall|a: K, b: K| #[trigger] le(a, b) || le(b, a)
}

/// `s` is ordered by `key` under `le`.
pub open spec fn sorted_by<T, K>(s: Seq<T>, key: spec_fn(T) -> K, le: spec_fn(K, K) -> bool) -> bool {
    forall|i: int, j: int| 0 <= i < j < s.len() ==> le(key(#[trigger] s[i]), key(#[trigger] s[j]))
}

/// The elements of `s` whose key is `k`, in order.
pub open spec fn with_key<T, K>(s: Seq<T>, key: spec_fn(T) -> K, k: K) -> Seq<T> {
    s.filter(|x: T| key(x) == k)
}

/// `r` is `s` stably sorted by `key`: ordered by key, and the elements of each
/// key keep their relative order (so `r` is also a permutation of `s`).
pub open spec fn stable_sorted_by<T, K>(
    r: Seq<T>,
    s: Seq<T>,
    key: spec_fn(T) -> K,
    le: spec_fn(K, K) -> bool,
) -> bool {
    &&& sorted_by(r, key, le)
    &&& forall|k: K| #[trigger] with_key(r, key, k) == with_key(s, key, k)
}

/// Inserting `x` after every element whose key is not above its own keeps the
/// order and appends `x` to the elements of its key.
pub proof fn lemma_insert_stable_by<T, K>(
    r: Seq<T>,
    p: int,
    x: T,
    key: spec_fn(T) -> K,
    le: spec_fn(K, K) -> bool,
)
    requires
        total_order(le),
        sorted_by(r, key, le),
        0 <= p <= r.len(),
        forall|k: int| 0 <= k < p ==> le(key(#[trigger] r[k]), key(x)),
        forall|k: int| p <= k < r.len() ==> !le(key(#[trigger] r[k]), key(x)),
    ensures
        sorted_by(r.insert(p, x), key, le),
        forall|kk: K|
            #[trigger] with_key(r.insert(p, x), key, kk) == if key(x) == kk {
                with_key(r, key, kk).push(x)
            } else {
                with_key(r, key, kk)
            },
{
    let n = r.insert(p, x);
    assert forall|i: int, j: int| 0 <= i < j < n.len() implies le(
        key(#[trigger] n[i]),
        key(#[trigger] n[j]),
    ) by {
        if j < p {
            assert(n[i] == r[i] && n[j] == r[j]);
        } else if j == p {
            assert(n[i] == r[i]);
        } else if i == p {
            assert(n[j] == r[j - 1]);
            assert(!le(key(r[j - 1]), key(x)));
        } else if i < p {
            assert(n[i] == r[i] && n[j] == r[j - 1]);
        } else {
            assert(n[i] == r[i - 1] && n[j] == r[j - 1]);
        }
    }
    assert(n =~= r.take(p) + seq![x] + r.skip(p));
    assert(r =~= r.take(p) + r.skip(p));
    assert forall|kk: K| #[trigger] with_key(n, key, kk) == if key(x) == kk {
        with_key(r, key, kk).push(x)
    } else {
        with_key(r, key, kk)
    } by {
        let pred = |y: T| key(y) == kk;
        Seq::filter_distributes_over_add(r.take(p) + seq![x], r.skip(p), pred);
        Seq::filter_distributes_over_add(r.take(p), seq![x], pred);
        Seq::filter_distributes_over_add(r.take(p), r.skip(p), pred);
        reveal_with_fuel(Seq::filter, 2);
        assert(seq![x].drop_last() =~= Seq::<T>::empty());
        if key(x) == kk {
            assert forall|k: int| 0 <= k < r.skip(p).len() implies !pred(
                #[trigger] r.skip(p)[k],
            ) by {
                assert(r.skip(p)[k] == r[p + k]);
                if key(r[p + k]) == kk {
                    assert(le(key(x), key(x)));
                }
            }
            r.skip(p).lemma_all_neg_filter_empty(pred);
            assert(r.skip(p).filter(pred) =~= Seq::<T>::empty());
            assert(seq![x].filter(pred) =~= seq![x]);
        } else {
            assert(seq![x].filter(pred) =~= Seq::<T>::empty());
        }
    }
}

/// Appending one element to the processed prefix extends each key's
/// subsequence by that element when the key matches.
pub proof fn lemma_with_key_push<T, K>(s: Seq<T>, x: T, key: spec_fn(T) -> K)
    ensures
        forall|kk: K|
            #[trigger] with_key(s.push(x), key, kk) == if key(x) == kk {
                with_key(s, key, kk).push(x)
            } else {
                with_key(s, key, kk)
            },
{
    assert forall|kk: K| #[trigger] with_key(s.push(x), key, kk) == if key(x) == kk {
        with_key(s, key, kk).push(x)
    } else {
        with_key(s, key, kk)
    } by {
        reveal(Seq::filter);
        assert(s.push(x).drop_last() =~= s);
    }
}

} // verus!

verus! {

/// Order of strings (`String::cmp`), as a "not above" relation.
pub open spec fn text_le(a: Seq<char>, b: Seq<char>) -> bool {
    !crate::text::seq_lt(b, a)
}

pub proof fn lemma_text_le_total()
    ensures
        total_order(|a: Seq<char>, b: Seq<char>| text_le(a, b)),
{
    let le = |a: Seq<char>, b: Seq<char>| text_le(a, b);
    assert forall|a: Seq<char>| #[trigger] le(a, a) by {
        crate::text::lemma_seq_lt_irrefl(a);
    }
    assert forall|a: Seq<char>, b: Seq<char>| #[trigger] le(a, b) && #[trigger] le(b, a) implies a
        == b by {
        if a != b {
            crate::text::lemma_seq_lt_total(a, b);
        }
    }
    assert forall|a: Seq<char>, b: Seq<char>, c: Seq<char>| #[trigger] le(a, b) && #[trigger] le(
        b,
        c,
    ) implies le(a, c) by {
        if crate::text::seq_lt(c, a) {
            if a == b {
            } else if b == c {
            } else {
                crate::text::lemma_seq_lt_total(a, b);
                crate::text::lemma_seq_lt_total(b, c);
                crate::text::lemma_seq_lt_trans(a, b, c);
                crate::text::lemma_seq_lt_asym(a, c);
            }
        }
    }
    assert forall|a: Seq<char>, b: Seq<char>| #[trigger] le(a, b) || le(b, a) by {
        if crate::text::seq_lt(b, a) {
            crate::text::lemma_seq_lt_asym(b, a);
        }
    }
}

} // verus!

verus! {

/// Every two elements at different positions of `s` are related by `rel`.
pub open spec fn pairwise<T>(s: Seq<T>, rel: spec_fn(T, T) -> bool) -> bool {
    forall|i: int, j: int| 0 <= i < s.len() && 0 <= j < s.len() && i != j ==> rel(#[trigger] s[i], #[trigger] s[j])
}

/// A relation that holds between every two elements of a sequence still holds
/// between every two elements of any filtering of it.
pub proof fn lemma_filter_pairwise<T>(s: Seq<T>, pred: spec_fn(T) -> bool, rel: spec_fn(T, T) -> bool)
    requires
        pairwise(s, rel),
    ensures
        pairwise(s.filter(pred), rel),
    decreases s.len(),
{
    reveal(Seq::filter);
    if s.len() > 0 {
        let d = s.drop_last();
        assert(pairwise(d, rel)) by {
            assert forall|i: int, j: int| 0 <= i < d.len() && 0 <= j < d.len() && i != j implies rel(
                #[trigger] d[i],
                #[trigger] d[j],
            ) by {
                assert(d[i] == s[i] && d[j] == s[j]);
            }
        }
        lemma_filter_pairwise(d, pred, rel);
        let f = d.filter(pred);
        if pred(s.last()) {
            let g = f.push(s.last());
            assert forall|i: int, j: int| 0 <= i < g.len() && 0 <= j < g.len() && i != j implies rel(
                #[trigger] g[i],
                #[trigger] g[j],
            ) by {
                if i < f.len() && j < f.len() {
                    assert(g[i] == f[i] && g[j] == f[j]);
                } else if i < f.len() {
                    assert(f.contains(f[i]));
                    d.lemma_filter_contains_rev(pred, f[i]);
                    let k = choose|k: int| 0 <= k < d.len() && d[k] == f[i];
                    assert(s[k] == d[k]);
                    assert(rel(s[k], s[s.len() - 1]));
                } else {
                    assert(f.contains(f[j]));
                    d.lemma_filter_contains_rev(pred, f[j]);
                    let k = choose|k: int| 0 <= k < d.len() && d[k] == f[j];
                    assert(s[k] == d[k]);
                    assert(rel(s[s.len() - 1], s[k]));
                }
            }
        }
    }
}

} // verus!

verus! {

/// Lexicographic order of integer pairs.
pub open spec fn pair_le(a: (int, int), b: (int, int)) -> bool {
    a.0 < b.0 || (a.0 == b.0 && a.1 <= b.1)
}

pub proof fn lemma_pair_le_total()
    ensures
        total_order(|a: (int, int), b: (int, int)| pair_le(a, b)),
{
}

/// Lexicographic order of (text, number) pairs.
pub open spec fn text_num_le(a: (Seq<char>, int), b: (Seq<char>, int)) -> bool {
    crate::text::seq_lt(a.0, b.0) || (a.0 == b.0 && a.1 <= b.1)
}

pub proof fn lemma_text_num_le_total()
    ensures
        total_order(|a: (Seq<char>, int), b: (Seq<char>, int)| text_num_le(a, b)),
{
    let le = |a: (Seq<char>, int), b: (Seq<char>, int)| text_num_le(a, b);
    assert forall|a: (Seq<char>, int)| #[trigger] le(a, a) by {}
    assert forall|a: (Seq<char>, int), b: (Seq<char>, int)| #[trigger] le(a, b) && #[trigger] le(
        b,
        a,
    ) implies a == b by {
        if crate::text::seq_lt(a.0, b.0) {
            crate::text::lemma_seq_lt_asym(a.0, b.0);
            if b.0 == a.0 {
                crate::text::lemma_seq_lt_irrefl(a.0);
            }
        } else if crate::text::seq_lt(b.0, a.0) {
            crate::text::lemma_seq_lt_asym(b.0, a.0);
            if b.0 == a.0 {
                crate::text::lemma_seq_lt_irrefl(a.0);
            }
        }
    }
    assert forall|a: (Seq<char>, int), b: (Seq<char>, int), c: (Seq<char>, int)| #[trigger] le(
        a,
        b,
    ) && #[trigger] le(b, c) implies le(a, c) by {
        if crate::text::seq_lt(a.0, b.0) && crate::text::seq_lt(b.0, c.0) {
            crate::text::lemma_seq_lt_trans(a.0, b.0, c.0);
        }
    }
    assert forall|a: (Seq<char>, int), b: (Seq<char>, int)| #[trigger] le(a, b) || le(b, a) by {
        if a.0 != b.0 {
            crate::text::lemma_seq_lt_total(a.0, b.0);
        }
    }
}

/// Order of integers.
pub open spec fn int_le(a: int, b: int) -> bool {
    a <= b
}

pub proof fn lemma_int_le_total()
    ensures
        total_order(|a: int, b: int| int_le(a, b)),
{
}

} // verus!

verus! {

/// Filtering by a predicate every element meets changes nothing.
pub proof fn lemma_filter_keeps_all<T>(s: Seq<T>, pred: spec_fn(T) -> bool)
    requires
        forall|i: int| 0 <= i < s.len() ==> pred(#[trigger] s[i]),
    ensures
        s.filter(pred) == s,
    decreases s.len(),
{
    reveal(Seq::filter);
    if s.len() > 0 {
        let d = s.drop_last();
        assert forall|i: int| 0 <= i < d.len() implies pred(#[trigger] d[i]) by {
            assert(d[i] == s[i]);
        }
        lemma_filter_keeps_all(d, pred);
        assert(pred(s[s.len() - 1]));
        assert(d.push(s.last()) =~= s);
    }
}

} // verus!
