//! Small shared utilities.

use vstd::prelude::*;

verus! {

/// Are all elements of the sequence pairwise distinct?
pub open spec fn spec_uniq(s: Seq<Seq<char>>) -> bool {
    forall|i: int, j: int| 0 <= i < j < s.len() ==> s[i] != s[j]
}

/// The views of every string in a sequence.
pub open spec fn string_views(s: Seq<String>) -> Seq<Seq<char>> {
    s.map_values(|x: String| x@)
}

/// Decides whether the strings of `v` are pairwise distinct.
pub fn uniq(v: &Vec<String>) -> (r: bool)
    ensures
        r == spec_uniq(string_views(v@)),
{
    let mut i: usize = 0;
    while i < v.len()
        invariant
            0 <= i <= v@.len(),
            forall|p: int, q: int| 0 <= p < q < i ==> string_views(v@)[p] != string_views(v@)[q],
        decreases v@.len() - i,
    {
        let mut j: usize = 0;
        while j < i
            invariant
                0 <= j <= i < v@.len(),
                forall|q: int| 0 <= q < j ==> string_views(v@)[q] != string_views(v@)[i as int],
            decreases i - j,
        {
            if v[j] == v[i] {
                proof {
                    assert(string_views(v@)[j as int] == string_views(v@)[i as int]);
                }
                return false;
            }
            proof {
                assert(string_views(v@)[j as int] == v@[j as int]@);
                assert(string_views(v@)[i as int] == v@[i as int]@);
            }
            j = j + 1;
        }
        i = i + 1;
    }
    true
}


/// The views of a string sequence, element by element.
pub proof fn lemma_string_views(s: Seq<String>)
    ensures
        string_views(s).len() == s.len(),
        forall|i: int| 0 <= i < s.len() ==> #[trigger] string_views(s)[i] == s[i]@,
{
}

/// Builds a `String` from a vector of characters.
///
/// Relies on `String`'s `FromIterator<char>` implementation: collecting an
/// iterator of characters yields the string of exactly those characters in
/// order.
#[verifier::external_body]
pub fn chars_to_string(cs: &Vec<char>) -> (r: String)
    ensures
        r@ == cs@,
{
    cs.iter().collect()
}

/// Turns a string into the vector of its characters.
pub fn string_to_chars(s: &str) -> (r: Vec<char>)
    ensures
        r@ == s@,
{
    let n = s.unicode_len();
    let mut r: Vec<char> = Vec::new();
    let mut i: usize = 0;
    while i < n
        invariant
            0 <= i <= n == s@.len(),
            r@ == s@.subrange(0, i as int),
        decreases n - i,
    {
        let c = s.get_char(i);
        r.push(c);
        proof {
            assert(r@ =~= s@.subrange(0, i + 1));
        }
        i = i + 1;
    }
    proof {
        assert(s@.subrange(0, n as int) =~= s@);
    }
    r
}

} // verus!
