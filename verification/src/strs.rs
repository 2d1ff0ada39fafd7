//! Helpers shared by the path-list operations: the character-sequence view of
//! a list of strings, membership and occurrence counts, and character search.

use vstd::prelude::*;

verus! {

/// The character sequences of a sequence of strings.
pub open spec fn views(ss: Seq<String>) -> Seq<Seq<char>> {
    ss.map_values(|s: String| s@)
}

/// How many times `v` occurs in `s`.
pub open spec fn spec_count(s: Seq<Seq<char>>, v: Seq<char>) -> nat
    decreases s.len(),
{
    if s.len() == 0 {
        0
    } else {
        spec_count(s.drop_last(), v) + if s.last() == v {
            1nat
        } else {
            0nat
        }
    }
}

/// A value occurs in a sequence exactly when its occurrence count is positive.
pub proof fn lemma_count_positive_iff_contains(s: Seq<Seq<char>>, v: Seq<char>)
    ensures
        spec_count(s, v) > 0 <==> s.contains(v),
    decreases s.len(),
{
    if s.len() > 0 {
        lemma_count_positive_iff_contains(s.drop_last(), v);
        assert(s.drop_last().contains(v) ==> s.contains(v));
        if s.contains(v) {
            let i = choose|i: int| 0 <= i < s.len() && s[i] == v;
            if i < s.len() - 1 {
                assert(s.drop_last()[i] == v);
            }
        }
    }
}

/// Counting distributes over appending one element.
pub proof fn lemma_count_push(s: Seq<Seq<char>>, e: Seq<char>, v: Seq<char>)
    ensures
        spec_count(s.push(e), v) == spec_count(s, v) + if e == v {
            1nat
        } else {
            0nat
        },
{
    assert(s.push(e).drop_last() =~~= s);
    assert(s.push(e).last() == e);
}

/// Appending a string appends its character sequence to the view.
pub proof fn lemma_views_push(ss: Seq<String>, s: String)
    ensures
        views(ss.push(s)) == views(ss).push(s@),
{
    assert(views(ss.push(s)) =~~= views(ss).push(s@));
}

/// Membership after appending one element: the old members, and the new one.
pub proof fn lemma_contains_push(s: Seq<Seq<char>>, e: Seq<char>, v: Seq<char>)
    ensures
        s.push(e).contains(v) <==> (s.contains(v) || e == v),
{
    if s.contains(v) {
        let k = choose|k: int| 0 <= k < s.len() && #[trigger] s[k] == v;
        assert(s.push(e)[k] == v);
    }
    if e == v {
        assert(s.push(e)[s.len() as int] == v);
    }
    if s.push(e).contains(v) {
        let k = choose|k: int| 0 <= k < s.push(e).len() && #[trigger] s.push(e)[k] == v;
        if k < s.len() {
            assert(s[k] == v);
        }
    }
}

/// Whether the string holds the character.
pub fn contains_char(s: &str, c: char) -> (r: bool)
    ensures
        r == s@.contains(c),
{
    let len = s.unicode_len();
    let mut i: usize = 0;
    while i < len
        invariant
            i <= len,
            len == s@.len(),
            forall|k: int| 0 <= k < i ==> s@[k] != c,
        decreases len - i,
    {
        if s.get_char(i) == c {
            return true;
        }
        i += 1;
    }
    false
}

/// Whether some string of the list has the same text as `x`.
pub fn contains_string(v: &Vec<String>, x: &String) -> (r: bool)
    ensures
        r == views(v@).contains(x@),
{
    let mut i: usize = 0;
    while i < v.len()
        invariant
            i <= v@.len(),
            forall|k: int| 0 <= k < i ==> views(v@)[k] != x@,
        decreases v@.len() - i,
    {
        if v[i].eq(x) {
            assert(views(v@)[i as int] == x@);
            return true;
        }
        i += 1;
    }
    false
}

/// How many strings of the list have the same text as `x`.
pub fn count_string(v: &Vec<String>, x: &String) -> (n: usize)
    ensures
        n == spec_count(views(v@), x@),
{
    let mut i: usize = 0;
    let mut n: usize = 0;
    while i < v.len()
        invariant
            i <= v@.len(),
            n == spec_count(views(v@).take(i as int), x@),
            n <= i,
        decreases v@.len() - i,
    {
        proof {
            assert(views(v@).take(i as int).push(views(v@)[i as int])
                =~~= views(v@).take(i + 1));
            lemma_count_push(views(v@).take(i as int), views(v@)[i as int], x@);
        }
        if v[i].eq(x) {
            n += 1;
        }
        i += 1;
    }
    assert(views(v@).take(v@.len() as int) =~~= views(v@));
    n
}

} // verus!
