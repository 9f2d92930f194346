//! Small string helpers shared by the other modules: slice equality,
//! membership in a list of names, and joining a list with a separator.

use vstd::prelude::*;
use vstd::string::StringExecFns;
use itertools::Itertools;

verus! {

/// Relies on `<str as PartialEq>::eq`: two string slices compare equal
/// exactly when their character sequences are equal.
#[verifier::external_body]
pub fn str_eq(a: &str, b: &str) -> (r: bool)
    ensures
        r == (a@ == b@),
{
    a == b
}

/// The elements of `elems` concatenated, with `sep` between each pair of
/// consecutive elements.
pub open spec fn join_seq(elems: Seq<Seq<char>>, sep: Seq<char>) -> Seq<char>
    decreases elems.len(),
{
    if elems.len() == 0 {
        Seq::empty()
    } else if elems.len() == 1 {
        elems[0]
    } else {
        elems[0] + sep + join_seq(elems.drop_first(), sep)
    }
}

/// Relies on `itertools::Itertools::join`: combines all elements into one
/// `String`, inserting the separator between consecutive elements.
#[verifier::external_body]
pub fn join_comma(parts: &Vec<String>) -> (r: String)
    ensures
        r@ == join_seq(parts.deep_view(), ", "@),
{
    parts.iter().join(", ")
}

/// Whether `s` occurs in `v` (comparing character sequences).
pub fn contains_str(v: &Vec<String>, s: &str) -> (r: bool)
    ensures
        r == v.deep_view().contains(s@),
{
    let mut i: usize = 0;
    while i < v.len()
        invariant
            i <= v.len(),
            forall|j: int| 0 <= j < i ==> v.deep_view()[j] != s@,
        decreases v.len() - i,
    {
        if str_eq(v[i].as_str(), s) {
            assert(v.deep_view()[i as int] == s@);
            return true;
        }
        i += 1;
    }
    assert(forall|j: int| 0 <= j < v.deep_view().len() ==> v.deep_view()[j] != s@);
    false
}

/// Whether the two lists hold the same strings in the same order.
pub fn vec_str_eq(a: &Vec<String>, b: &Vec<String>) -> (r: bool)
    ensures
        r == (a.deep_view() == b.deep_view()),
{
    if a.len() != b.len() {
        assert(a.deep_view().len() == a@.len());
        assert(b.deep_view().len() == b@.len());
        return false;
    }
    let mut i: usize = 0;
    while i < a.len()
        invariant
            i <= a.len(),
            a.len() == b.len(),
            forall|j: int| 0 <= j < i ==> a.deep_view()[j] == b.deep_view()[j],
        decreases a.len() - i,
    {
        if !str_eq(a[i].as_str(), b[i].as_str()) {
            assert(a.deep_view()[i as int] != b.deep_view()[i as int]);
            return false;
        }
        i += 1;
    }
    assert(a.deep_view() =~= b.deep_view());
    true
}

/// `s` surrounded by single quotes.
pub open spec fn quoted(s: Seq<char>) -> Seq<char> {
    "'"@ + s + "'"@
}

/// Returns `s` surrounded by single quotes.
pub fn quote(s: &str) -> (r: String)
    ensures
        r@ == quoted(s@),
{
    let mut q = String::from_str("'");
    q.append(s);
    q.append("'");
    assert(q@ =~= quoted(s@));
    q
}

} // verus!
