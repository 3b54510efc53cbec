//! Lexicographic ordering of names by code point, and the sorted-insertion
//! model that every manifest list is proved equal to. Deterministic ordering
//! is a load-bearing invariant of the manifest: generated output must not
//! depend on the key order of the source document.

use vstd::prelude::*;

verus! {

broadcast use vstd::std_specs::vec::axiom_vec_index_decreases, vstd::seq::axiom_seq_index_decreases, vstd::std_specs::vec::axiom_vec_decreases_to_view, vstd::seq_lib::group_to_multiset_ensures, vstd::multiset::group_multiset_axioms, vstd::multiset::group_multiset_properties;

/// Code-point lexicographic order on character sequences; the order `str`
/// comparison uses.
pub open spec fn lex_le(a: Seq<char>, b: Seq<char>) -> bool
    decreases a.len(),
{
    if a.len() == 0 {
        true
    } else if b.len() == 0 {
        false
    } else if a[0] == b[0] {
        lex_le(a.drop_first(), b.drop_first())
    } else {
        a[0] < b[0]
    }
}

pub proof fn lemma_lex_le_refl(a: Seq<char>)
    ensures
        lex_le(a, a),
    decreases a.len(),
{
    if a.len() > 0 {
        lemma_lex_le_refl(a.drop_first());
    }
}

pub proof fn lemma_lex_le_total(a: Seq<char>, b: Seq<char>)
    ensures
        lex_le(a, b) || lex_le(b, a),
    decreases a.len(),
{
    if a.len() == 0 || b.len() == 0 {
    } else if a[0] == b[0] {
        lemma_lex_le_total(a.drop_first(), b.drop_first());
    }
}

pub proof fn lemma_lex_le_antisym(a: Seq<char>, b: Seq<char>)
    requires
        lex_le(a, b),
        lex_le(b, a),
    ensures
        a == b,
    decreases a.len(),
{
    if a.len() == 0 {
        assert(b.len() == 0);
        assert(a =~= b);
    } else {
        assert(b.len() != 0);
        assert(a[0] == b[0]);
        lemma_lex_le_antisym(a.drop_first(), b.drop_first());
        assert(forall|i: int|
            1 <= i < a.len() ==> #[trigger] a[i] == a.drop_first()[i - 1]);
        assert(forall|i: int|
            1 <= i < b.len() ==> #[trigger] b[i] == b.drop_first()[i - 1]);
        assert(a =~= b);
    }
}

pub proof fn lemma_lex_le_trans(a: Seq<char>, b: Seq<char>, c: Seq<char>)
    requires
        lex_le(a, b),
        lex_le(b, c),
    ensures
        lex_le(a, c),
    decreases a.len(),
{
    if a.len() == 0 || b.len() == 0 || c.len() == 0 {
    } else if a[0] == b[0] && b[0] == c[0] {
        lemma_lex_le_trans(a.drop_first(), b.drop_first(), c.drop_first());
    }
}

/// Character-wise comparison; what `<=` on `str` means, proved rather than
/// assumed.
pub fn str_le(a: &str, b: &str) -> (r: bool)
    ensures
        r == lex_le(a@, b@),
{
    let an = a.unicode_len();
    let bn = b.unicode_len();
    let n = if an < bn {
        an
    } else {
        bn
    };
    assert(a@.skip(0) =~= a@ && b@.skip(0) =~= b@);
    for i in 0..n
        invariant
            an == a@.len(),
            bn == b@.len(),
            n == if an < bn {
                an
            } else {
                bn
            },
            lex_le(a@, b@) == lex_le(a@.skip(i as int), b@.skip(i as int)),
    {
        let ca = a.get_char(i);
        let cb = b.get_char(i);
        assert(a@.skip(i as int)[0] == a@[i as int] && b@.skip(i as int)[0] == b@[i as int]);
        if ca != cb {
            return ca < cb;
        }
        assert(a@.skip(i as int).drop_first() =~= a@.skip(i + 1));
        assert(b@.skip(i as int).drop_first() =~= b@.skip(i + 1));
    }
    assert(a@.skip(n as int).len() == 0 || b@.skip(n as int).len() == 0);
    an <= bn
}

/// The characters after the last `/`, or the whole sequence when it has none:
/// how a `$ref` path names its schema.
pub open spec fn last_segment(s: Seq<char>) -> Seq<char>
    decreases s.len(),
{
    if s.len() == 0 {
        s
    } else if s.last() == '/' {
        Seq::empty()
    } else {
        last_segment(s.drop_last()).push(s.last())
    }
}

proof fn lemma_last_segment_suffix(s: Seq<char>, start: int)
    requires
        0 <= start <= s.len(),
        start > 0 ==> s[start - 1] == '/',
        forall|j: int| start <= j < s.len() ==> s[j] != '/',
    ensures
        last_segment(s) == s.subrange(start, s.len() as int),
    decreases s.len() - start,
{
    if start == s.len() {
        if s.len() == 0 {
            assert(last_segment(s) =~= s.subrange(start, s.len() as int));
        } else {
            assert(s.last() == '/');
            assert(last_segment(s) =~= s.subrange(start, s.len() as int));
        }
    } else {
        assert(s.last() != '/');
        let p = s.drop_last();
        lemma_last_segment_suffix(p, start);
        assert(p.subrange(start, p.len() as int) =~= s.subrange(start, s.len() as int - 1));
        assert(last_segment(s) =~= s.subrange(start, s.len() as int));
    }
}

/// The text after the final `/` of a reference path (the path itself when it
/// has no `/`).
pub fn last_segment_of(s: &str) -> (r: String)
    ensures
        r@ == last_segment(s@),
{
    let n = s.unicode_len();
    let mut start: usize = 0;
    for i in 0..n
        invariant
            n == s@.len(),
            0 <= start <= i,
            start > 0 ==> s@[start as int - 1] == '/',
            forall|j: int| start <= j < i ==> s@[j] != '/',
    {
        if s.get_char(i) == '/' {
            start = i + 1;
        }
    }
    proof {
        lemma_last_segment_suffix(s@, start as int);
    }
    let seg = s.substring_char(start, n);
    seg.to_owned()
}

/// Sorted ascending under `key`, ties left where they stand.
pub open spec fn sorted_by_key<T>(s: Seq<T>, key: spec_fn(T) -> Seq<char>) -> bool {
    forall|i: int, j: int|
        0 <= i < j < s.len() ==> lex_le(key(#[trigger] s[i]), key(#[trigger] s[j]))
}

/// No two elements share a key.
pub open spec fn distinct_keys<T>(s: Seq<T>, key: spec_fn(T) -> Seq<char>) -> bool {
    forall|i: int, j: int|
        0 <= i < j < s.len() ==> key(#[trigger] s[i]) != key(#[trigger] s[j])
}

/// Insertion into a sorted sequence, after any elements of equal key.
pub open spec fn insert_by_key<T>(s: Seq<T>, x: T, key: spec_fn(T) -> Seq<char>) -> Seq<T>
    decreases s.len(),
{
    if s.len() == 0 {
        seq![x]
    } else if lex_le(key(s.last()), key(x)) {
        s.push(x)
    } else {
        insert_by_key(s.drop_last(), x, key).push(s.last())
    }
}

/// Stable insertion sort by key, left to right.
pub open spec fn sort_by_key<T>(s: Seq<T>, key: spec_fn(T) -> Seq<char>) -> Seq<T>
    decreases s.len(),
{
    if s.len() == 0 {
        s
    } else {
        insert_by_key(sort_by_key(s.drop_last(), key), s.last(), key)
    }
}

pub proof fn lemma_insert_by_key_props<T>(s: Seq<T>, x: T, key: spec_fn(T) -> Seq<char>)
    requires
        sorted_by_key(s, key),
    ensures
        sorted_by_key(insert_by_key(s, x, key), key),
        insert_by_key(s, x, key).to_multiset() == s.to_multiset().insert(x),
        insert_by_key(s, x, key).len() == s.len() + 1,
    decreases s.len(),
{
    let r = insert_by_key(s, x, key);
    if s.len() == 0 {
        assert(Seq::<T>::empty().push(x) =~= seq![x]);
        assert(seq![x].to_multiset() =~= s.to_multiset().insert(x));
    } else if lex_le(key(s.last()), key(x)) {
        assert forall|i: int, j: int| 0 <= i < j < r.len() implies lex_le(
            key(#[trigger] r[i]),
            key(#[trigger] r[j]),
        ) by {
            if j == r.len() - 1 {
                if i < s.len() - 1 {
                    lemma_lex_le_trans(key(s[i]), key(s.last()), key(x));
                }
            }
        }
    } else {
        let p = s.drop_last();
        assert(forall|i: int, j: int|
            0 <= i < j < p.len() ==> lex_le(key(#[trigger] p[i]), key(#[trigger] p[j])));
        lemma_insert_by_key_props(p, x, key);
        let q = insert_by_key(p, x, key);
        lemma_lex_le_total(key(s.last()), key(x));
        assert forall|i: int, j: int| 0 <= i < j < r.len() implies lex_le(
            key(#[trigger] r[i]),
            key(#[trigger] r[j]),
        ) by {
            if j == r.len() - 1 {
                // every element of q is either from p or is x; both sit below s.last()
                assert(q.to_multiset().contains(q[i]));
                assert(p.to_multiset().insert(x).count(q[i]) > 0);
                if q[i] == x {
                    assert(lex_le(key(x), key(s.last())));
                } else {
                    assert(p.to_multiset().contains(q[i]));
                    assert(p.contains(q[i]));
                    let m = choose|m: int| 0 <= m < p.len() && p[m] == q[i];
                    assert(lex_le(key(p[m]), key(s[s.len() - 1])));
                }
            }
        }
        assert(r.drop_last() =~= q);
        assert(r.to_multiset() =~= s.to_multiset().insert(x)) by {
            assert(p.push(s.last()) =~= s);
            assert(p.push(s.last()).to_multiset() == p.to_multiset().insert(s.last()));
            assert(q.push(s.last()).to_multiset() == q.to_multiset().insert(s.last()));
            assert(q.to_multiset() == p.to_multiset().insert(x));
            assert(r == q.push(s.last()));
            assert(p.to_multiset().insert(x).insert(s.last()) =~= p.to_multiset().insert(
                s.last(),
            ).insert(x));
        }
    }
}

pub proof fn lemma_sort_by_key_props<T>(s: Seq<T>, key: spec_fn(T) -> Seq<char>)
    ensures
        sorted_by_key(sort_by_key(s, key), key),
        sort_by_key(s, key).to_multiset() == s.to_multiset(),
        sort_by_key(s, key).len() == s.len(),
    decreases s.len(),
{
    if s.len() == 0 {
    } else {
        let p = s.drop_last();
        lemma_sort_by_key_props(p, key);
        lemma_insert_by_key_props(sort_by_key(p, key), s.last(), key);
        assert(p.push(s.last()) =~= s);
        assert(p.push(s.last()).to_multiset() == p.to_multiset().insert(s.last()));
    }
}

/// Two sorted sequences with the same elements and no repeated key are the
/// same sequence: the ground of output determinism.
pub proof fn lemma_sorted_unique_by_key<T>(x: Seq<T>, y: Seq<T>, key: spec_fn(T) -> Seq<char>)
    requires
        sorted_by_key(x, key),
        sorted_by_key(y, key),
        distinct_keys(x, key),
        x.to_multiset() == y.to_multiset(),
    ensures
        x == y,
    decreases x.len(),
{
    if x.len() == 0 {
        assert(x.to_multiset().len() == x.len());
        assert(y.to_multiset().len() == y.len());
        assert(x =~= y);
    } else {
        assert(x.to_multiset().len() == x.len());
        assert(y.to_multiset().len() == y.len());
        assert(y.len() > 0);
        assert(x.to_multiset().count(x[0]) > 0) by {
            assert(x.contains(x[0]));
        }
        assert(y.to_multiset().count(y[0]) > 0) by {
            assert(y.contains(y[0]));
        }
        assert(x.to_multiset().count(y[0]) > 0);
        assert(y.to_multiset().count(x[0]) > 0);
        assert(x.contains(y[0]));
        assert(y.contains(x[0]));
        let i = choose|i: int| 0 <= i < x.len() && x[i] == y[0];
        let j = choose|j: int| 0 <= j < y.len() && y[j] == x[0];
        assert(lex_le(key(x[0]), key(x[i]))) by {
            if i == 0 {
                lemma_lex_le_refl(key(x[0]));
            }
        }
        assert(lex_le(key(y[0]), key(y[j]))) by {
            if j == 0 {
                lemma_lex_le_refl(key(y[0]));
            }
        }
        lemma_lex_le_antisym(key(x[0]), key(y[0]));
        assert(key(x[0]) == key(y[0]));
        assert(i == 0 || key(x[0]) != key(x[i]));
        assert(x[0] == y[0]);
        let xt = x.drop_first();
        let yt = y.drop_first();
        assert(x.remove(0).to_multiset() == x.to_multiset().remove(x[0]));
        assert(y.remove(0).to_multiset() == y.to_multiset().remove(y[0]));
        assert(x.remove(0) =~= xt);
        assert(y.remove(0) =~= yt);
        assert(xt.to_multiset() == yt.to_multiset());
        assert forall|m: int, n: int| 0 <= m < n < xt.len() implies lex_le(
            key(#[trigger] xt[m]),
            key(#[trigger] xt[n]),
        ) && key(xt[m]) != key(xt[n]) by {
            assert(xt[m] == x[m + 1]);
            assert(xt[n] == x[n + 1]);
        }
        assert forall|m: int, n: int| 0 <= m < n < yt.len() implies lex_le(
            key(#[trigger] yt[m]),
            key(#[trigger] yt[n]),
        ) by {
            assert(yt[m] == y[m + 1]);
            assert(yt[n] == y[n + 1]);
        }
        lemma_sorted_unique_by_key(xt, yt, key);
        assert(forall|m: int| 1 <= m < x.len() ==> #[trigger] x[m] == xt[m - 1]);
        assert(forall|m: int| 1 <= m < y.len() ==> #[trigger] y[m] == yt[m - 1]);
        assert(x =~= y);
    }
}

/// Element-by-element image of a sequence, built from the back.
pub open spec fn map_seq<T, U>(s: Seq<T>, g: spec_fn(T) -> U) -> Seq<U>
    decreases s.len(),
{
    if s.len() == 0 {
        Seq::empty()
    } else {
        map_seq(s.drop_last(), g).push(g(s.last()))
    }
}

pub proof fn lemma_map_seq_index<T, U>(s: Seq<T>, g: spec_fn(T) -> U)
    ensures
        map_seq(s, g).len() == s.len(),
        forall|i: int| 0 <= i < s.len() ==> #[trigger] map_seq(s, g)[i] == g(s[i]),
    decreases s.len(),
{
    if s.len() > 0 {
        lemma_map_seq_index(s.drop_last(), g);
    }
}

/// Reordering the elements reorders their images: the image multiset depends
/// on the element multiset alone.
pub proof fn lemma_map_seq_multiset<T, U>(s1: Seq<T>, s2: Seq<T>, g: spec_fn(T) -> U)
    requires
        s1.to_multiset() == s2.to_multiset(),
    ensures
        map_seq(s1, g).to_multiset() == map_seq(s2, g).to_multiset(),
    decreases s1.len(),
{
    lemma_map_seq_index(s1, g);
    lemma_map_seq_index(s2, g);
    if s1.len() == 0 {
        assert(s1.to_multiset().len() == s1.len());
        assert(s2.to_multiset().len() == s2.len());
        assert(map_seq(s1, g).to_multiset() =~= map_seq(s2, g).to_multiset());
    } else {
        assert(s1.to_multiset().len() == s1.len());
        assert(s2.to_multiset().len() == s2.len());
        let x = s1.last();
        assert(s1.to_multiset().count(x) > 0) by {
            assert(s1.contains(x));
        }
        assert(s2.to_multiset().count(x) > 0);
        assert(s2.contains(x));
        let j = choose|j: int| 0 <= j < s2.len() && s2[j] == x;
        let s2r = s2.remove(j);
        assert(s2r.to_multiset() == s2.to_multiset().remove(x));
        let s1r = s1.drop_last();
        assert(s1r.push(x) =~= s1);
        assert(s1r.push(x).to_multiset() == s1r.to_multiset().insert(x));
        assert(s1r.to_multiset() =~= s1.to_multiset().remove(x));
        assert(s1r.to_multiset() == s2r.to_multiset());
        lemma_map_seq_multiset(s1r, s2r, g);
        lemma_map_seq_index(s2r, g);
        assert(map_seq(s2r, g) =~= map_seq(s2, g).remove(j));
        assert(map_seq(s2, g).remove(j).to_multiset() == map_seq(s2, g).to_multiset().remove(
            map_seq(s2, g)[j],
        ));
        assert(map_seq(s2, g)[j] == g(x));
        assert(map_seq(s1, g) == map_seq(s1r, g).push(g(x)));
        assert(map_seq(s1r, g).push(g(x)).to_multiset() == map_seq(s1r, g).to_multiset().insert(
            g(x),
        ));
        assert(map_seq(s2, g).to_multiset().count(g(x)) > 0) by {
            assert(map_seq(s2, g).contains(g(x))) by {
                assert(map_seq(s2, g)[j] == g(x));
            }
        }
        assert(map_seq(s2, g).to_multiset().remove(g(x)).insert(g(x)) =~= map_seq(
            s2,
            g,
        ).to_multiset());
        assert(map_seq(s1, g).to_multiset() =~= map_seq(s2, g).to_multiset());
    }
}

/// Distinctness of keys survives any reordering.
pub proof fn lemma_distinct_keys_multiset<T>(
    s1: Seq<T>,
    s2: Seq<T>,
    key: spec_fn(T) -> Seq<char>,
)
    requires
        s1.to_multiset() == s2.to_multiset(),
        distinct_keys(s1, key),
    ensures
        distinct_keys(s2, key),
{
    assert forall|i: int, j: int| 0 <= i < j < s2.len() implies key(#[trigger] s2[i]) != key(
        #[trigger] s2[j],
    ) by {
        let x = s2[i];
        let y = s2[j];
        if x == y {
            assert(s2.remove(i).to_multiset() == s2.to_multiset().remove(x));
            assert(s2.remove(i)[j - 1] == y);
            assert(s2.remove(i).contains(y));
            assert(s2.remove(i).to_multiset().count(y) > 0);
            assert(s1.to_multiset().count(x) >= 2);
            assert(s1.contains(x));
            let m = choose|m: int| 0 <= m < s1.len() && s1[m] == x;
            assert(s1.remove(m).to_multiset() == s1.to_multiset().remove(x));
            assert(s1.remove(m).to_multiset().count(x) > 0);
            assert(s1.remove(m).contains(x));
            let m2 = choose|m2: int| 0 <= m2 < s1.remove(m).len() && s1.remove(m)[m2] == x;
            if m2 < m {
                assert(s1[m2] == x);
                assert(key(s1[m2]) != key(s1[m]));
            } else {
                assert(s1[m2 + 1] == x);
                assert(key(s1[m]) != key(s1[m2 + 1]));
            }
        } else {
            assert(s2.to_multiset().count(x) > 0) by {
                assert(s2.contains(x));
            }
            assert(s1.contains(x));
            assert(s2.remove(i).to_multiset() == s2.to_multiset().remove(x));
            assert(s2.remove(i)[j - 1] == y);
            assert(s2.remove(i).contains(y));
            assert(s2.remove(i).to_multiset().count(y) > 0);
            assert(s1.to_multiset().count(y) > 0);
            assert(s1.contains(y));
            let mx = choose|mx: int| 0 <= mx < s1.len() && s1[mx] == x;
            let my = choose|my: int| 0 <= my < s1.len() && s1[my] == y;
            assert(mx != my);
            if mx < my {
                assert(key(s1[mx]) != key(s1[my]));
            } else {
                assert(key(s1[my]) != key(s1[mx]));
            }
        }
    }
}

/// Element-wise view of a sequence of viewable values.
pub open spec fn seq_view<T: View>(s: Seq<T>) -> Seq<T::V> {
    Seq::new(s.len(), |i: int| s[i]@)
}

/// A manifest element carrying a name its list is sorted by.
pub trait Named: View + Sized {
    /// The sort key of the element's model.
    spec fn vkey(v: Self::V) -> Seq<char>;

    /// Name comparison in the manifest order.
    fn le_by_name(&self, other: &Self) -> (r: bool)
        ensures
            r == lex_le(Self::vkey(self@), Self::vkey(other@)),
    ;
}

/// Stable insertion sort of a manifest list, ascending by name.
#[verifier::loop_isolation(false)]
pub fn sort_by_name<T: Named>(v: Vec<T>) -> (r: Vec<T>)
    ensures
        seq_view(r@) == sort_by_key(seq_view(v@), (|x: T::V| T::vkey(x))),
{
    let ghost orig = v@;
    let ghost key = (|x: T::V| T::vkey(x));
    let mut rest = v;
    let mut out: Vec<T> = Vec::new();
    proof {
        assert(orig.skip(0) =~= orig);
        assert(seq_view(orig.take(0)) =~= Seq::<T::V>::empty());
        assert(seq_view(out@) =~= Seq::<T::V>::empty());
    }
    while rest.len() > 0
        invariant
            out@.len() + rest@.len() == orig.len(),
            rest@ == orig.skip(out@.len() as int),
            seq_view(out@) == sort_by_key(seq_view(orig.take(out@.len() as int)), key),
            sorted_by_key(seq_view(out@), key),
        decreases rest@.len(),
    {
        let ghost p = out@.len() as int;
        let x = rest.remove(0);
        proof {
            assert(orig.skip(p)[0] == orig[p]);
            assert(x == orig[p]);
            assert(orig.skip(p).remove(0) =~= orig.skip(p + 1));
        }
        let mut j = out.len();
        while j > 0 && !out[j - 1].le_by_name(&x)
            invariant
                j <= out@.len(),
                forall|m: int|
                    j <= m < out@.len() ==> !lex_le(T::vkey(#[trigger] out@[m]@), T::vkey(x@)),
            decreases j,
        {
            j = j - 1;
        }
        let ghost prev = out@;
        let ghost s = seq_view(prev);
        out.insert(j, x);
        proof {
            assert forall|m: int| j <= m < s.len() implies !lex_le(
                key(#[trigger] s[m]),
                key(x@),
            ) by {
                assert(s[m] == prev[m]@);
            }
            if j > 0 {
                assert(s[j - 1] == prev[j - 1]@);
                assert(lex_le(key(s[j - 1]), key(x@)));
            }
            lemma_insert_by_key_at(s, x@, key, j as int);
            assert(out@ == prev.insert(j as int, x));
            assert(seq_view(out@) =~= s.subrange(0, j as int) + seq![x@] + s.subrange(
                j as int,
                s.len() as int,
            )) by {
                assert(forall|m: int|
                    0 <= m < j ==> #[trigger] prev.insert(j as int, x)[m] == prev[m]);
                assert(prev.insert(j as int, x)[j as int] == x);
                assert(forall|m: int|
                    j < m < prev.len() + 1 ==> #[trigger] prev.insert(j as int, x)[m] == prev[m
                        - 1]);
            }
            assert(seq_view(out@) == insert_by_key(s, x@, key));
            let big = seq_view(orig.take(p + 1));
            assert(big.drop_last() =~= seq_view(orig.take(p)));
            assert(big.last() == x@);
            assert(sort_by_key(big, key) == insert_by_key(
                sort_by_key(seq_view(orig.take(p)), key),
                x@,
                key,
            ));
            lemma_insert_by_key_props(s, x@, key);
            assert(seq_view(out@) == sort_by_key(seq_view(orig.take(p + 1)), key));
        }
    }
    proof {
        assert(orig.take(out@.len() as int) =~= orig);
        assert(seq_view(v@) == seq_view(orig));
    }
    out
}

/// Where the scan of a sorted sequence stops is where the model inserts.
pub proof fn lemma_insert_by_key_at<T>(s: Seq<T>, x: T, key: spec_fn(T) -> Seq<char>, at: int)
    requires
        0 <= at <= s.len(),
        forall|m: int| at <= m < s.len() ==> !lex_le(key(#[trigger] s[m]), key(x)),
        at > 0 ==> lex_le(key(s[at - 1]), key(x)),
    ensures
        insert_by_key(s, x, key) == s.subrange(0, at) + seq![x] + s.subrange(at, s.len() as int),
    decreases s.len(),
{
    if s.len() == 0 {
        assert(insert_by_key(s, x, key) =~= s.subrange(0, at) + seq![x] + s.subrange(
            at,
            s.len() as int,
        ));
    } else if at == s.len() {
        assert(lex_le(key(s.last()), key(x)));
        assert(insert_by_key(s, x, key) =~= s.subrange(0, at) + seq![x] + s.subrange(
            at,
            s.len() as int,
        ));
    } else {
        assert(!lex_le(key(s[s.len() - 1]), key(x)));
        let p = s.drop_last();
        lemma_insert_by_key_at(p, x, key, at);
        assert(insert_by_key(s, x, key) =~= s.subrange(0, at) + seq![x] + s.subrange(
            at,
            s.len() as int,
        ));
    }
}

} // verus!
