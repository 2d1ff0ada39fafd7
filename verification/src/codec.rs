//! Path list codec: splitting a separator-delimited string into an ordered
//! sequence of entries, and joining such a sequence back into a string.
//!
//! The library follows the POSIX convention: the list separator is `:`.
//! An empty raw string denotes the empty list; otherwise consecutive
//! separators yield empty entries, so that splitting is an exact inverse of
//! joining for separator-free entries.

use vstd::prelude::*;

use crate::strs::contains_char;
use crate::strs::views;

verus! {

/// Joining failed: an entry holds the separator character itself, so the
/// entry boundaries would be lost.
#[derive(Clone, Copy, Debug, PartialEq, Eq, Structural)]
pub struct JoinError;

/// The list separator of the POSIX path-list convention.
pub const SEPARATOR: char = ':';

/// Splits a non-empty raw string into its segments: the maximal runs of
/// characters between separators. A string without separators is one segment;
/// the empty string is one empty segment.
pub open spec fn split_segments(s: Seq<char>) -> Seq<Seq<char>>
    decreases s.len(),
{
    if s.len() == 0 {
        seq![Seq::<char>::empty()]
    } else if s[0] == SEPARATOR {
        seq![Seq::<char>::empty()] + split_segments(s.skip(1))
    } else {
        let rest = split_segments(s.skip(1));
        seq![seq![s[0]] + rest[0]] + rest.skip(1)
    }
}

/// What `split` returns: the empty string denotes the empty path list, any
/// other string is split into its segments.
pub open spec fn spec_split(s: Seq<char>) -> Seq<Seq<char>> {
    if s.len() == 0 {
        Seq::<Seq<char>>::empty()
    } else {
        split_segments(s)
    }
}

/// What `join` returns on success: the entries with one separator between
/// each pair of neighbours.
pub open spec fn spec_join(es: Seq<Seq<char>>) -> Seq<char>
    decreases es.len(),
{
    if es.len() == 0 {
        Seq::<char>::empty()
    } else if es.len() == 1 {
        es[0]
    } else {
        spec_join(es.drop_last()) + seq![SEPARATOR] + es.last()
    }
}

/// Splitting always yields at least one segment.
pub proof fn lemma_split_segments_len(s: Seq<char>)
    ensures
        split_segments(s).len() >= 1,
    decreases s.len(),
{
    if s.len() != 0 {
        lemma_split_segments_len(s.skip(1));
    }
}

/// A separator-free string is one single segment.
pub proof fn lemma_split_segments_no_sep(s: Seq<char>)
    requires
        forall|i: int| 0 <= i < s.len() ==> s[i] != SEPARATOR,
    ensures
        split_segments(s) == seq![s],
    decreases s.len(),
{
    if s.len() == 0 {
        assert(split_segments(s) =~~= seq![s]);
    } else {
        lemma_split_segments_no_sep(s.skip(1));
        lemma_split_segments_len(s.skip(1));
        assert(split_segments(s) =~~= seq![s]);
    }
}

/// Splitting at the first separator: everything before it is the first
/// segment, the rest of the string is split on its own.
pub proof fn lemma_split_segments_first_sep(s: Seq<char>, j: int)
    requires
        0 <= j < s.len(),
        s[j] == SEPARATOR,
        forall|i: int| 0 <= i < j ==> s[i] != SEPARATOR,
    ensures
        split_segments(s) == seq![s.take(j)] + split_segments(s.skip(j + 1)),
    decreases j,
{
    if j == 0 {
        assert(s.take(0) =~= Seq::<char>::empty());
        assert(s.skip(1) =~= s.skip(j + 1));
        assert(split_segments(s) =~~= seq![s.take(j)] + split_segments(s.skip(j + 1)));
    } else {
        let t = s.skip(1);
        assert(t[j - 1] == SEPARATOR);
        assert(forall|i: int| 0 <= i < j - 1 ==> t[i] != SEPARATOR);
        lemma_split_segments_first_sep(t, j - 1);
        lemma_split_segments_len(t.skip(j));
        assert(t.skip(j) =~= s.skip(j + 1));
        assert(seq![s[0]] + t.take(j - 1) =~= s.take(j));
        assert((seq![t.take(j - 1)] + split_segments(t.skip(j))).skip(1)
            =~~= split_segments(s.skip(j + 1)));
        assert(split_segments(s) =~~= seq![s.take(j)] + split_segments(s.skip(j + 1)));
    }
}

/// Joining two or more entries: the first entry, a separator, then the join
/// of the rest.
pub proof fn lemma_join_cons(es: Seq<Seq<char>>)
    requires
        es.len() >= 2,
    ensures
        spec_join(es) == es[0] + seq![SEPARATOR] + spec_join(es.drop_first()),
    decreases es.len(),
{
    if es.len() == 2 {
        assert(es.drop_last() =~~= seq![es[0]]);
        assert(es.drop_first() =~~= seq![es[1]]);
        assert(spec_join(es.drop_last()) == es.drop_last()[0]);
        assert(spec_join(es.drop_first()) == es.drop_first()[0]);
        assert(spec_join(es) =~= es[0] + seq![SEPARATOR] + spec_join(es.drop_first()));
    } else {
        lemma_join_cons(es.drop_last());
        let a = es[0];
        let sep = seq![SEPARATOR];
        let mid = spec_join(es.drop_first().drop_last());
        assert(es.drop_last()[0] == es[0]);
        assert(es.drop_last().drop_first() =~~= es.drop_first().drop_last());
        assert(spec_join(es.drop_last()) == a + sep + mid);
        assert(spec_join(es) == (a + sep + mid) + sep + es.last());
        assert(es.drop_first().last() == es.last());
        assert(es.drop_first().len() >= 2);
        assert(spec_join(es.drop_first()) == mid + sep + es.last());
        assert((a + sep + mid) + sep + es.last() =~= a + sep + (mid + sep + es.last()));
    }
}

/// No segment produced by splitting contains the separator.
pub proof fn lemma_split_segments_sep_free(s: Seq<char>)
    ensures
        forall|k: int| 0 <= k < split_segments(s).len()
            ==> !(#[trigger] split_segments(s)[k]).contains(SEPARATOR),
    decreases s.len(),
{
    if s.len() == 0 {
        assert(!split_segments(s)[0].contains(SEPARATOR));
    } else if s[0] == SEPARATOR {
        lemma_split_segments_sep_free(s.skip(1));
        let rest = split_segments(s.skip(1));
        assert forall|k: int| 0 <= k < split_segments(s).len()
            implies !(#[trigger] split_segments(s)[k]).contains(SEPARATOR) by {
            if k >= 1 {
                assert(split_segments(s)[k] == rest[k - 1]);
            }
        }
    } else {
        lemma_split_segments_sep_free(s.skip(1));
        lemma_split_segments_len(s.skip(1));
        let rest = split_segments(s.skip(1));
        let first = seq![s[0]] + rest[0];
        assert(!rest[0].contains(SEPARATOR));
        assert forall|i: int| 0 <= i < first.len() implies first[i] != SEPARATOR by {
            if i > 0 {
                assert(first[i] == rest[0][i - 1]);
            }
        }
        assert(!first.contains(SEPARATOR));
        assert forall|k: int| 0 <= k < split_segments(s).len()
            implies !(#[trigger] split_segments(s)[k]).contains(SEPARATOR) by {
            if k >= 1 {
                assert(split_segments(s)[k] == rest[k]);
            }
        }
    }
}

/// Splitting undoes joining, segment-wise: rejoining any non-empty sequence
/// of separator-free entries and splitting the result into segments yields
/// the original entries.
pub proof fn lemma_split_segments_join(es: Seq<Seq<char>>)
    requires
        es.len() >= 1,
        forall|k: int| 0 <= k < es.len() ==> !(#[trigger] es[k]).contains(SEPARATOR),
    ensures
        split_segments(spec_join(es)) == es,
    decreases es.len(),
{
    if es.len() == 1 {
        assert(forall|i: int| 0 <= i < es[0].len() ==> es[0][i] != SEPARATOR);
        lemma_split_segments_no_sep(es[0]);
        assert(split_segments(spec_join(es)) =~~= es);
    } else {
        lemma_join_cons(es);
        let s = spec_join(es);
        let j = es[0].len() as int;
        assert(s =~= es[0] + seq![SEPARATOR] + spec_join(es.drop_first()));
        assert(s[j] == SEPARATOR);
        assert(forall|i: int| 0 <= i < j ==> s[i] == es[0][i]);
        assert(forall|i: int| 0 <= i < es[0].len() ==> es[0][i] != SEPARATOR);
        lemma_split_segments_first_sep(s, j);
        assert(s.take(j) =~= es[0]);
        assert(s.skip(j + 1) =~= spec_join(es.drop_first()));
        assert(forall|k: int| 0 <= k < es.drop_first().len()
            ==> es.drop_first()[k] == es[k + 1]);
        lemma_split_segments_join(es.drop_first());
        assert(split_segments(s) =~~= es);
    }
}

/// Splits a raw path-list string on the separator. The empty string yields
/// the empty list; otherwise every separator ends an entry, so consecutive
/// separators yield empty entries.
pub fn split(raw: &str) -> (r: Vec<String>)
    ensures
        views(r@) == spec_split(raw@),
{
    let mut r: Vec<String> = Vec::new();
    let len = raw.unicode_len();
    if len == 0 {
        assert(views(r@) =~~= spec_split(raw@));
        return r;
    }
    let mut start: usize = 0;
    let mut i: usize = 0;
    proof {
        assert(raw@.skip(0) =~= raw@);
        assert(views(r@) + split_segments(raw@.skip(0)) =~~= split_segments(raw@));
    }
    while i < len
        invariant
            start <= i <= len,
            len == raw@.len(),
            len > 0,
            forall|k: int| start <= k < i ==> raw@[k] != SEPARATOR,
            split_segments(raw@) == views(r@) + split_segments(raw@.skip(start as int)),
        decreases len - i,
    {
        if raw.get_char(i) == SEPARATOR {
            let piece = raw.substring_char(start, i);
            proof {
                let tail = raw@.skip(start as int);
                assert(tail[i - start] == SEPARATOR);
                assert(forall|k: int| 0 <= k < i - start ==> tail[k] != SEPARATOR);
                lemma_split_segments_first_sep(tail, i - start);
                assert(tail.take(i - start) =~= raw@.subrange(start as int, i as int));
                assert(tail.skip(i - start + 1) =~= raw@.skip(i + 1));
            }
            r.push(piece.to_owned());
            proof {
                assert(views(r@) =~~= views(r@.drop_last())
                    .push(raw@.subrange(start as int, i as int)));
                assert(split_segments(raw@) =~~= views(r@)
                    + split_segments(raw@.skip(i + 1)));
            }
            start = i + 1;
        }
        i += 1;
    }
    let piece = raw.substring_char(start, len);
    proof {
        let tail = raw@.skip(start as int);
        assert(forall|k: int| 0 <= k < tail.len() ==> tail[k] != SEPARATOR);
        lemma_split_segments_no_sep(tail);
        assert(tail =~= raw@.subrange(start as int, len as int));
    }
    r.push(piece.to_owned());
    proof {
        assert(views(r@) =~~= views(r@.drop_last()).push(raw@.skip(start as int)));
        assert(views(r@) =~~= split_segments(raw@));
    }
    r
}

/// Joins the entries with the separator between each pair of neighbours.
/// Fails with `JoinError` exactly when some entry holds the separator
/// character itself.
pub fn join(paths: &Vec<String>) -> (r: Result<String, JoinError>)
    ensures
        r is Ok <==> (forall|k: int| 0 <= k < paths@.len()
            ==> !(#[trigger] views(paths@)[k]).contains(SEPARATOR)),
        r matches Ok(s) ==> s@ == spec_join(views(paths@)),
{
    let mut out = String::new();
    let mut i: usize = 0;
    proof {
        reveal_strlit(":");
    }
    while i < paths.len()
        invariant
            i <= paths@.len(),
            out@ == spec_join(views(paths@).take(i as int)),
            forall|k: int| 0 <= k < i ==> !(#[trigger] views(paths@)[k]).contains(SEPARATOR),
            ":"@ == seq![SEPARATOR],
        decreases paths@.len() - i,
    {
        if contains_char(paths[i].as_str(), SEPARATOR) {
            assert(views(paths@)[i as int].contains(SEPARATOR));
            return Err(JoinError);
        }
        if i > 0 {
            out.append(":");
        }
        out.append(paths[i].as_str());
        proof {
            let es = views(paths@);
            assert(es.take(i + 1).drop_last() =~~= es.take(i as int));
            assert(es.take(i + 1).last() == es[i as int]);
            if i == 0 {
                assert(out@ =~= spec_join(es.take(1)));
            } else {
                assert(out@ =~= spec_join(es.take(i as int)) + seq![SEPARATOR]
                    + es[i as int]);
            }
        }
        i += 1;
    }
    proof {
        assert(views(paths@).take(paths@.len() as int) =~~= views(paths@));
    }
    Ok(out)
}

/// Round trip: splitting the join of any sequence of separator-free entries
/// reproduces the entries, except for the one sequence whose join is the
/// empty string while the sequence itself is not empty: the single empty
/// entry.
pub proof fn lemma_split_join_roundtrip(es: Seq<Seq<char>>)
    requires
        forall|k: int| 0 <= k < es.len() ==> !(#[trigger] es[k]).contains(SEPARATOR),
        !(es.len() == 1 && es[0].len() == 0),
    ensures
        spec_split(spec_join(es)) == es,
{
    if es.len() == 0 {
        assert(spec_split(spec_join(es)) =~~= es);
    } else {
        lemma_split_segments_join(es);
        if es.len() == 1 {
            assert(spec_join(es).len() > 0);
        } else {
            lemma_join_cons(es);
            assert(spec_join(es)[es[0].len() as int] == SEPARATOR);
            assert(spec_join(es).len() > 0);
        }
    }
}

} // verus!
