//! The document model walked by the extractors: a JSON-shaped tree of
//! fragments, together with the spec-level lookup functions that the
//! extraction contracts are stated over.

use vstd::prelude::*;

verus! {

broadcast use vstd::std_specs::vec::axiom_vec_index_decreases, vstd::seq::axiom_seq_index_decreases, vstd::std_specs::vec::axiom_vec_decreases_to_view;

/// One node of a parsed schema document: the root, a named schema, or any
/// nested property value. Numbers carry no payload because no extraction rule
/// reads a numeric value.
#[derive(Debug, PartialEq)]
pub enum Fragment {
    Null,
    Bool(bool),
    Number,
    Text(String),
    List(Vec<Fragment>),
    Object(Vec<(String, Fragment)>),
}

/// First value bound to key `k` in an entry list, if any.
pub open spec fn entries_get(es: Seq<(String, Fragment)>, k: Seq<char>) -> Option<Fragment>
    decreases es.len(),
{
    if es.len() == 0 {
        None
    } else if es[0].0@ == k {
        Some(es[0].1)
    } else {
        entries_get(es.drop_first(), k)
    }
}

/// Value bound to key `k` of an object fragment; `None` on non-objects.
pub open spec fn frag_get(f: Fragment, k: Seq<char>) -> Option<Fragment> {
    match f {
        Fragment::Object(es) => entries_get(es@, k),
        _ => None,
    }
}

/// String value bound to key `k`, if the key is present and holds text.
pub open spec fn frag_get_str(f: Fragment, k: Seq<char>) -> Option<Seq<char>> {
    match frag_get(f, k) {
        Some(Fragment::Text(s)) => Some(s@),
        _ => None,
    }
}

/// A value found by `entries_get` is one of the entry values.
pub proof fn lemma_entries_get_index(es: Seq<(String, Fragment)>, k: Seq<char>)
    requires
        entries_get(es, k) is Some,
    ensures
        exists|i: int|
            0 <= i < es.len() && es[i].1 == entries_get(es, k)->Some_0 && es[i].0@ == k,
    decreases es.len(),
{
    if es.len() == 0 {
    } else if es[0].0@ == k {
        assert(es[0].1 == entries_get(es, k)->Some_0);
    } else {
        lemma_entries_get_index(es.drop_first(), k);
        let i = choose|i: int|
            0 <= i < es.drop_first().len() && es.drop_first()[i].1 == entries_get(
                es.drop_first(),
                k,
            )->Some_0 && es.drop_first()[i].0@ == k;
        assert(es[i + 1] == es.drop_first()[i]);
    }
}

/// A child found by `frag_get` sits below its fragment, for termination of
/// recursive walks.
pub proof fn lemma_frag_get_decreases(f: Fragment, k: Seq<char>)
    requires
        frag_get(f, k) is Some,
    ensures
        decreases_to!(f => frag_get(f, k)->Some_0),
{
    let es = f->Object_0;
    lemma_entries_get_index(es@, k);
    let i = choose|i: int|
        0 <= i < es@.len() && es@[i].1 == entries_get(es@, k)->Some_0 && es@[i].0@ == k;
    assert(decreases_to!(es => es@[i]));
    assert(decreases_to!(es@[i] => es@[i].1));
}

impl Fragment {
    /// Looks the key up among an object's entries; `None` on any other
    /// fragment shape. On duplicate keys the first entry wins.
    pub fn get<'a>(&'a self, k: &str) -> (r: Option<&'a Fragment>)
        ensures
            match r {
                Some(c) => frag_get(*self, k@) == Some(*c),
                None => frag_get(*self, k@) is None,
            },
    {
        match self {
            Fragment::Object(es) => {
                let n = es.len();
                assert(frag_get(*self, k@) == entries_get(es@, k@));
                assert(es@.skip(0) =~= es@);
                for i in 0..n
                    invariant
                        n == es@.len(),
                        *self is Object,
                        frag_get(*self, k@) == entries_get(es@, k@),
                        entries_get(es@, k@) == entries_get(es@.skip(i as int), k@),
                {
                    assert(es@.skip(i as int)[0] == es@[i as int]);
                    if str_eq(es[i].0.as_str(), k) {
                        assert(entries_get(es@.skip(i as int), k@) == Some(es@[i as int].1));
                        return Some(&es[i].1);
                    }
                    assert(es@.skip(i as int).drop_first() =~= es@.skip(i + 1));
                }
                assert(es@.skip(n as int).len() == 0);
                None
            },
            _ => None,
        }
    }

    /// The text under the key, if the key holds text.
    pub fn get_str<'a>(&'a self, k: &str) -> (r: Option<&'a String>)
        ensures
            match r {
                Some(s) => frag_get_str(*self, k@) == Some(s@),
                None => frag_get_str(*self, k@) is None,
            },
    {
        match self.get(k) {
            Some(Fragment::Text(s)) => Some(s),
            _ => None,
        }
    }
}

/// Character-wise string equality; what `==` on `str` means, proved rather
/// than assumed.
pub fn str_eq(a: &str, b: &str) -> (r: bool)
    ensures
        r == (a@ == b@),
{
    let an = a.unicode_len();
    let bn = b.unicode_len();
    if an != bn {
        assert(a@ != b@);
        return false;
    }
    for i in 0..an
        invariant
            an == a@.len(),
            an == b@.len(),
            forall|j: int| 0 <= j < i ==> a@[j] == b@[j],
    {
        if a.get_char(i) != b.get_char(i) {
            return false;
        }
    }
    assert(a@ =~= b@);
    true
}

} // verus!
