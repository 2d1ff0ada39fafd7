//! Duplicate analysis and order-preserving deduplication of a path list.
//!
//! Entries can be equal verbatim (same literal text) or by resolution (same
//! canonical directory after following symlinks). Resolution is a filesystem
//! question; the functions here that need it either take the resolved form of
//! every entry as an explicit argument, or compute it once per entry through
//! the probe and pass it on. An entry that cannot be resolved stands for
//! itself in every resolution-based comparison.

use vstd::prelude::*;

use crate::probe::resolve_or_self;
use crate::strs::contains_string;
use crate::strs::count_string;
use crate::strs::lemma_contains_push;
use crate::strs::lemma_count_positive_iff_contains;
use crate::strs::lemma_count_push;
use crate::strs::lemma_views_push;
use crate::strs::spec_count;
use crate::strs::views;

verus! {

/// The entries that repeat an earlier entry verbatim, in scan order: the
/// first occurrence of a value is never listed, each later occurrence is.
pub open spec fn spec_find_duplicates(ps: Seq<Seq<char>>) -> Seq<Seq<char>>
    decreases ps.len(),
{
    if ps.len() == 0 {
        Seq::<Seq<char>>::empty()
    } else {
        let prev = spec_find_duplicates(ps.drop_last());
        if ps.drop_last().contains(ps.last()) {
            prev.push(ps.last())
        } else {
            prev
        }
    }
}

/// Lists every entry that repeats an earlier entry verbatim, in the order
/// encountered, once per repeat.
pub fn find_duplicates(paths: &Vec<String>) -> (dups: Vec<String>)
    ensures
        views(dups@) == spec_find_duplicates(views(paths@)),
{
    let mut seen: Vec<String> = Vec::new();
    let mut dups: Vec<String> = Vec::new();
    let mut i: usize = 0;
    while i < paths.len()
        invariant
            i <= paths@.len(),
            forall|v: Seq<char>| #[trigger] views(seen@).contains(v)
                <==> views(paths@).take(i as int).contains(v),
            views(dups@) == spec_find_duplicates(views(paths@).take(i as int)),
        decreases paths@.len() - i,
    {
        let ghost ps = views(paths@);
        let p = &paths[i];
        let is_dup = contains_string(&seen, p);
        let ghost prev_seen = seen@;
        let ghost prev_dups = dups@;
        proof {
            assert(ps.take(i + 1).drop_last() =~~= ps.take(i as int));
            assert(ps.take(i + 1).last() == ps[i as int]);
            assert(paths@[i as int]@ == ps[i as int]);
        }
        if is_dup {
            dups.push(p.clone());
            proof {
                lemma_views_push(prev_dups, paths@[i as int]);
                assert(views(dups@) == views(prev_dups).push(ps[i as int]));
                assert(ps.take(i as int).contains(ps[i as int]));
                assert(views(dups@) == spec_find_duplicates(ps.take(i + 1)));
                assert forall|v: Seq<char>| #[trigger] views(seen@).contains(v)
                    <==> ps.take(i + 1).contains(v) by {
                    lemma_contains_push(ps.take(i as int), ps[i as int], v);
                    assert(ps.take(i + 1) == ps.take(i as int).push(ps[i as int]));
                }
            }
        } else {
            seen.push(p.clone());
            proof {
                lemma_views_push(prev_seen, paths@[i as int]);
                assert(views(seen@) == views(prev_seen).push(ps[i as int]));
                assert(!ps.take(i as int).contains(ps[i as int]));
                assert(views(dups@) == spec_find_duplicates(ps.take(i + 1)));
                assert forall|v: Seq<char>| #[trigger] views(seen@).contains(v)
                    <==> ps.take(i + 1).contains(v) by {
                    lemma_contains_push(views(prev_seen), ps[i as int], v);
                    lemma_contains_push(ps.take(i as int), ps[i as int], v);
                    assert(ps.take(i + 1) == ps.take(i as int).push(ps[i as int]));
                }
            }
        }
        i += 1;
    }
    proof {
        assert(views(paths@).take(paths@.len() as int) =~~= views(paths@));
    }
    dups
}

/// Lists every entry whose canonical form repeats an earlier entry's
/// canonical form, in the order encountered, once per repeat — reported as
/// the shared canonical form, not as the literal entry. The canonical form
/// of each entry is computed once, here; which form that is depends on the
/// filesystem, so the contract names it only as some sequence of resolved
/// forms, one per entry.
pub fn find_duplicates_resolved(paths: &Vec<String>) -> (dups: Vec<String>)
    ensures
        exists|rs: Seq<Seq<char>>| rs.len() == paths@.len()
            && views(dups@) == spec_find_duplicates(rs),
{
    let mut resolved: Vec<String> = Vec::new();
    let mut i: usize = 0;
    while i < paths.len()
        invariant
            i <= paths@.len(),
            resolved@.len() == i as int,
        decreases paths@.len() - i,
    {
        resolved.push(resolve_or_self(&paths[i]));
        i += 1;
    }
    let dups = find_duplicates(&resolved);
    proof {
        let rs = views(resolved@);
        assert(rs.len() == paths@.len() && views(dups@) == spec_find_duplicates(rs));
    }
    dups
}

/// Whether entry `j` clashes with some already-kept entry: equal literal
/// text, or equal resolved form.
pub open spec fn conflicts_with_kept(
    ps: Seq<Seq<char>>,
    rs: Seq<Seq<char>>,
    kept: Seq<int>,
    j: int,
) -> bool {
    exists|k: int| 0 <= k < kept.len()
        && (ps[#[trigger] kept[k]] == ps[j] || rs[kept[k]] == rs[j])
}

/// Which of the first `n` entries survive deduplication: the indices, in
/// order, of the entries whose literal text and resolved form both differ
/// from those of every earlier surviving entry.
pub open spec fn spec_dedup_indices(ps: Seq<Seq<char>>, rs: Seq<Seq<char>>, n: int) -> Seq<int>
    decreases n,
{
    if n <= 0 {
        Seq::<int>::empty()
    } else {
        let prev = spec_dedup_indices(ps, rs, n - 1);
        if conflicts_with_kept(ps, rs, prev, n - 1) {
            prev
        } else {
            prev.push(n - 1)
        }
    }
}

/// What deduplication keeps, given the entries and their resolved forms: the
/// surviving entries, as written, in their original order.
pub open spec fn spec_dedup(ps: Seq<Seq<char>>, rs: Seq<Seq<char>>) -> Seq<Seq<char>> {
    spec_dedup_indices(ps, rs, ps.len() as int).map_values(|j: int| ps[j])
}

/// The resolved forms of what deduplication keeps.
pub open spec fn spec_dedup_resolved(ps: Seq<Seq<char>>, rs: Seq<Seq<char>>) -> Seq<Seq<char>> {
    spec_dedup_indices(ps, rs, ps.len() as int).map_values(|j: int| rs[j])
}

/// The surviving indices lie among the first `n` entries and are strictly
/// increasing: survivors keep their original relative order.
pub proof fn lemma_dedup_indices_ordered(ps: Seq<Seq<char>>, rs: Seq<Seq<char>>, n: int)
    requires
        0 <= n,
    ensures
        forall|k: int| 0 <= k < spec_dedup_indices(ps, rs, n).len()
            ==> 0 <= #[trigger] spec_dedup_indices(ps, rs, n)[k] < n,
        forall|k1: int, k2: int| 0 <= k1 < k2 < spec_dedup_indices(ps, rs, n).len()
            ==> spec_dedup_indices(ps, rs, n)[k1] < spec_dedup_indices(ps, rs, n)[k2],
    decreases n,
{
    if n > 0 {
        lemma_dedup_indices_ordered(ps, rs, n - 1);
        let prev = spec_dedup_indices(ps, rs, n - 1);
        let idx = spec_dedup_indices(ps, rs, n);
        if !conflicts_with_kept(ps, rs, prev, n - 1) {
            assert(forall|k: int| 0 <= k < prev.len() ==> idx[k] == prev[k]);
            assert(idx[idx.len() - 1] == n - 1);
        }
    }
}

/// No two survivors share their literal text, and no two share their
/// resolved form.
pub proof fn lemma_dedup_indices_distinct(ps: Seq<Seq<char>>, rs: Seq<Seq<char>>, n: int)
    requires
        0 <= n,
    ensures
        forall|k1: int, k2: int| 0 <= k1 < k2 < spec_dedup_indices(ps, rs, n).len()
            ==> ps[spec_dedup_indices(ps, rs, n)[k1]] != ps[spec_dedup_indices(ps, rs, n)[k2]]
                && rs[spec_dedup_indices(ps, rs, n)[k1]]
                    != rs[spec_dedup_indices(ps, rs, n)[k2]],
    decreases n,
{
    if n > 0 {
        lemma_dedup_indices_distinct(ps, rs, n - 1);
        let prev = spec_dedup_indices(ps, rs, n - 1);
        let idx = spec_dedup_indices(ps, rs, n);
        if !conflicts_with_kept(ps, rs, prev, n - 1) {
            assert(forall|k: int| 0 <= k < prev.len() ==> idx[k] == prev[k]);
            assert forall|k1: int, k2: int| 0 <= k1 < k2 < idx.len()
                implies ps[idx[k1]] != ps[idx[k2]] && rs[idx[k1]] != rs[idx[k2]] by {
                if k2 == idx.len() - 1 {
                    assert(idx[k2] == n - 1);
                    assert(!(ps[prev[k1]] == ps[n - 1] || rs[prev[k1]] == rs[n - 1]));
                }
            }
        }
    }
}

/// Keeps each entry whose literal text and resolved form are both new, in a
/// single left-to-right pass: the first occurrence always wins, later
/// entries equal to a kept one — verbatim or once resolved — are dropped.
/// `resolved` gives the canonical form of the entry at the same position.
pub fn dedup_with(paths: &Vec<String>, resolved: &Vec<String>) -> (unique: Vec<String>)
    requires
        paths@.len() == resolved@.len(),
    ensures
        views(unique@) == spec_dedup(views(paths@), views(resolved@)),
{
    let mut kept: Vec<String> = Vec::new();
    let mut kept_res: Vec<String> = Vec::new();
    let mut i: usize = 0;
    while i < paths.len()
        invariant
            i <= paths@.len(),
            paths@.len() == resolved@.len(),
            views(kept@) == spec_dedup_indices(views(paths@), views(resolved@), i as int)
                .map_values(|j: int| views(paths@)[j]),
            views(kept_res@) == spec_dedup_indices(views(paths@), views(resolved@), i as int)
                .map_values(|j: int| views(resolved@)[j]),
        decreases paths@.len() - i,
    {
        let ghost ps = views(paths@);
        let ghost rs = views(resolved@);
        let ghost idx = spec_dedup_indices(ps, rs, i as int);
        let p = &paths[i];
        let r = &resolved[i];
        let dup_lit = contains_string(&kept, p);
        let dup_res = contains_string(&kept_res, r);
        let ghost prev_kept = kept@;
        let ghost prev_kept_res = kept_res@;
        proof {
            assert(paths@[i as int]@ == ps[i as int]);
            assert(resolved@[i as int]@ == rs[i as int]);
            if dup_lit {
                let m = choose|m: int| 0 <= m < views(prev_kept).len()
                    && #[trigger] views(prev_kept)[m] == ps[i as int];
                assert(ps[idx[m]] == ps[i as int]);
                assert(conflicts_with_kept(ps, rs, idx, i as int));
            }
            if dup_res {
                let m = choose|m: int| 0 <= m < views(prev_kept_res).len()
                    && #[trigger] views(prev_kept_res)[m] == rs[i as int];
                assert(rs[idx[m]] == rs[i as int]);
                assert(conflicts_with_kept(ps, rs, idx, i as int));
            }
            if !dup_lit && !dup_res && conflicts_with_kept(ps, rs, idx, i as int) {
                let k = choose|k: int| 0 <= k < idx.len()
                    && (ps[#[trigger] idx[k]] == ps[i as int] || rs[idx[k]] == rs[i as int]);
                if ps[idx[k]] == ps[i as int] {
                    assert(views(prev_kept)[k] == ps[i as int]);
                } else {
                    assert(views(prev_kept_res)[k] == rs[i as int]);
                }
            }
        }
        if !dup_lit && !dup_res {
            kept.push(p.clone());
            kept_res.push(r.clone());
            proof {
                lemma_views_push(prev_kept, paths@[i as int]);
                lemma_views_push(prev_kept_res, resolved@[i as int]);
                assert(spec_dedup_indices(ps, rs, i + 1) == idx.push(i as int));
                assert(views(kept@) =~~= spec_dedup_indices(ps, rs, i + 1)
                    .map_values(|j: int| ps[j]));
                assert(views(kept_res@) =~~= spec_dedup_indices(ps, rs, i + 1)
                    .map_values(|j: int| rs[j]));
            }
        } else {
            proof {
                assert(spec_dedup_indices(ps, rs, i + 1) == idx);
            }
        }
        i += 1;
    }
    kept
}

/// Order-preserving deduplication: keeps the first occurrence of every
/// entry, drops any later entry equal to a kept one verbatim or by
/// resolution. The canonical form of each entry is computed once, here, and
/// depends on the filesystem; the contract names it only as some sequence of
/// resolved forms, one per entry.
pub fn dedup(paths: &Vec<String>) -> (unique: Vec<String>)
    ensures
        exists|rs: Seq<Seq<char>>| rs.len() == paths@.len()
            && views(unique@) == spec_dedup(views(paths@), rs),
{
    let mut resolved: Vec<String> = Vec::new();
    let mut i: usize = 0;
    while i < paths.len()
        invariant
            i <= paths@.len(),
            resolved@.len() == i as int,
        decreases paths@.len() - i,
    {
        resolved.push(resolve_or_self(&paths[i]));
        i += 1;
    }
    let unique = dedup_with(paths, &resolved);
    proof {
        let rs = views(resolved@);
        assert(rs.len() == paths@.len() && views(unique@) == spec_dedup(views(paths@), rs));
    }
    unique
}

/// `xs` can be read off `ys` left to right: some strictly increasing choice
/// of positions of `ys` spells out `xs`.
pub open spec fn is_subsequence_of(xs: Seq<Seq<char>>, ys: Seq<Seq<char>>) -> bool {
    exists|f: Seq<int>|
        #[trigger] f.len() == xs.len()
        && (forall|k: int| 0 <= k < f.len() ==> 0 <= #[trigger] f[k] < ys.len()
            && ys[f[k]] == xs[k])
        && (forall|k1: int, k2: int| 0 <= k1 < k2 < f.len() ==> f[k1] < f[k2])
}

/// Order preservation: what deduplication keeps is a subsequence of the
/// input — entries are only dropped, never added, changed or reordered.
pub proof fn lemma_dedup_subsequence(ps: Seq<Seq<char>>, rs: Seq<Seq<char>>)
    ensures
        is_subsequence_of(spec_dedup(ps, rs), ps),
{
    let n = ps.len() as int;
    lemma_dedup_indices_ordered(ps, rs, n);
    let f = spec_dedup_indices(ps, rs, n);
    assert(f.len() == spec_dedup(ps, rs).len());
    assert(forall|k: int| 0 <= k < f.len() ==> 0 <= #[trigger] f[k] < ps.len()
        && ps[f[k]] == spec_dedup(ps, rs)[k]);
}

/// No two entries kept by deduplication are equal verbatim, and no two have
/// the same resolved form.
pub proof fn lemma_dedup_no_duplicates(ps: Seq<Seq<char>>, rs: Seq<Seq<char>>)
    ensures
        spec_dedup(ps, rs).no_duplicates(),
        spec_dedup_resolved(ps, rs).no_duplicates(),
{
    let n = ps.len() as int;
    lemma_dedup_indices_distinct(ps, rs, n);
}

/// A later alias of a kept entry is always dropped: two entries equal
/// verbatim or by resolution never both survive.
pub proof fn lemma_dedup_drops_later_aliases(
    ps: Seq<Seq<char>>,
    rs: Seq<Seq<char>>,
    i: int,
    j: int,
)
    requires
        0 <= i < j < ps.len(),
        ps[i] == ps[j] || rs[i] == rs[j],
    ensures
        !(spec_dedup_indices(ps, rs, ps.len() as int).contains(i)
            && spec_dedup_indices(ps, rs, ps.len() as int).contains(j)),
{
    let n = ps.len() as int;
    let idx = spec_dedup_indices(ps, rs, n);
    lemma_dedup_indices_ordered(ps, rs, n);
    lemma_dedup_indices_distinct(ps, rs, n);
    if idx.contains(i) && idx.contains(j) {
        let k1 = choose|k1: int| 0 <= k1 < idx.len() && #[trigger] idx[k1] == i;
        let k2 = choose|k2: int| 0 <= k2 < idx.len() && #[trigger] idx[k2] == j;
        if k2 < k1 {
            assert(idx[k2] < idx[k1]);
        }
        assert(k1 < k2);
        assert(ps[idx[k1]] != ps[idx[k2]] && rs[idx[k1]] != rs[idx[k2]]);
    }
}

/// With all literal texts pairwise distinct and all resolved forms pairwise
/// distinct, deduplication keeps every entry.
pub proof fn lemma_dedup_indices_all_kept(ps: Seq<Seq<char>>, rs: Seq<Seq<char>>, n: int)
    requires
        0 <= n,
        forall|k1: int, k2: int| 0 <= k1 < k2 < n ==> ps[k1] != ps[k2] && rs[k1] != rs[k2],
    ensures
        spec_dedup_indices(ps, rs, n) == Seq::new(n as nat, |k: int| k),
    decreases n,
{
    if n > 0 {
        lemma_dedup_indices_all_kept(ps, rs, n - 1);
        let prev = spec_dedup_indices(ps, rs, n - 1);
        if conflicts_with_kept(ps, rs, prev, n - 1) {
            let k = choose|k: int| 0 <= k < prev.len()
                && (ps[#[trigger] prev[k]] == ps[n - 1] || rs[prev[k]] == rs[n - 1]);
            assert(prev[k] == k);
            assert(false);
        }
        assert(spec_dedup_indices(ps, rs, n) =~= Seq::new(n as nat, |k: int| k));
    } else {
        assert(spec_dedup_indices(ps, rs, n) =~= Seq::new(n as nat, |k: int| k));
    }
}

/// Idempotence: deduplicating what deduplication kept — each survivor still
/// paired with the resolved form it had — changes nothing.
pub proof fn lemma_dedup_idempotent(ps: Seq<Seq<char>>, rs: Seq<Seq<char>>)
    ensures
        spec_dedup(spec_dedup(ps, rs), spec_dedup_resolved(ps, rs)) == spec_dedup(ps, rs),
{
    let n = ps.len() as int;
    lemma_dedup_indices_distinct(ps, rs, n);
    let idx = spec_dedup_indices(ps, rs, n);
    let qs = spec_dedup(ps, rs);
    let qrs = spec_dedup_resolved(ps, rs);
    assert(forall|k1: int, k2: int| 0 <= k1 < k2 < qs.len()
        ==> qs[k1] != qs[k2] && qrs[k1] != qrs[k2]);
    lemma_dedup_indices_all_kept(qs, qrs, qs.len() as int);
    assert(spec_dedup(qs, qrs)
        =~~= Seq::new(qs.len(), |k: int| k).map_values(|j: int| qs[j]));
    assert(Seq::new(qs.len(), |k: int| k).map_values(|j: int| qs[j]) =~~= qs);
}

/// Duplicate count consistency: a value occurring `k` times verbatim is
/// listed exactly `k - 1` times among the duplicates, and a value occurring
/// at most once is not listed at all.
pub proof fn lemma_find_duplicates_count(ps: Seq<Seq<char>>, v: Seq<char>)
    ensures
        spec_count(ps, v) > 0 ==> spec_count(spec_find_duplicates(ps), v)
            == spec_count(ps, v) - 1,
        spec_count(ps, v) == 0 ==> spec_count(spec_find_duplicates(ps), v) == 0,
    decreases ps.len(),
{
    if ps.len() > 0 {
        let prefix = ps.drop_last();
        lemma_find_duplicates_count(prefix, v);
        lemma_count_positive_iff_contains(prefix, v);
        lemma_count_push(prefix, ps.last(), v);
        assert(prefix.push(ps.last()) =~~= ps);
        if prefix.contains(ps.last()) {
            lemma_count_push(spec_find_duplicates(prefix), ps.last(), v);
        }
    }
}

/// The distinct values of a sequence, each once, in order of first
/// appearance.
pub open spec fn spec_first_occurrences(s: Seq<Seq<char>>) -> Seq<Seq<char>>
    decreases s.len(),
{
    if s.len() == 0 {
        Seq::<Seq<char>>::empty()
    } else {
        let prev = spec_first_occurrences(s.drop_last());
        if s.drop_last().contains(s.last()) {
            prev
        } else {
            prev.push(s.last())
        }
    }
}

/// The first occurrences are exactly the values that occur.
pub proof fn lemma_first_occurrences_contains(s: Seq<Seq<char>>, v: Seq<char>)
    ensures
        spec_first_occurrences(s).contains(v) <==> s.contains(v),
    decreases s.len(),
{
    if s.len() > 0 {
        lemma_first_occurrences_contains(s.drop_last(), v);
        let prev = spec_first_occurrences(s.drop_last());
        lemma_contains_push(prev, s.last(), v);
        lemma_contains_push(s.drop_last(), s.last(), v);
        assert(s.drop_last().push(s.last()) =~~= s);
    }
}

/// Groups a list of duplicates by value: each distinct value once, in order
/// of first appearance, paired with the number of times it occurs in the
/// whole list.
pub fn duplicate_counts(dups: &Vec<String>) -> (groups: Vec<(String, usize)>)
    ensures
        groups@.len() == spec_first_occurrences(views(dups@)).len(),
        forall|k: int| 0 <= k < groups@.len()
            ==> (#[trigger] groups@[k]).0@ == spec_first_occurrences(views(dups@))[k]
                && groups@[k].1 == spec_count(views(dups@), groups@[k].0@),
{
    let mut groups: Vec<(String, usize)> = Vec::new();
    let mut seen: Vec<String> = Vec::new();
    let mut i: usize = 0;
    while i < dups.len()
        invariant
            i <= dups@.len(),
            views(seen@) == spec_first_occurrences(views(dups@).take(i as int)),
            groups@.len() == seen@.len(),
            forall|k: int| 0 <= k < groups@.len()
                ==> (#[trigger] groups@[k]).0@ == views(seen@)[k]
                    && groups@[k].1 == spec_count(views(dups@), groups@[k].0@),
        decreases dups@.len() - i,
    {
        let ghost ds = views(dups@);
        let p = &dups[i];
        let is_new = !contains_string(&seen, p);
        let ghost prev_seen = seen@;
        let ghost prev_groups = groups@;
        proof {
            assert(ds.take(i + 1).drop_last() =~~= ds.take(i as int));
            assert(ds.take(i + 1).last() == ds[i as int]);
            assert(dups@[i as int]@ == ds[i as int]);
            lemma_first_occurrences_contains(ds.take(i as int), ds[i as int]);
        }
        if is_new {
            let n = count_string(dups, p);
            seen.push(p.clone());
            groups.push((p.clone(), n));
            proof {
                lemma_views_push(prev_seen, dups@[i as int]);
                assert(views(seen@) == views(prev_seen).push(ds[i as int]));
                assert forall|k: int| 0 <= k < groups@.len()
                    implies (#[trigger] groups@[k]).0@ == views(seen@)[k]
                        && groups@[k].1 == spec_count(ds, groups@[k].0@) by {
                    if k < groups@.len() - 1 {
                        assert(groups@[k] == prev_groups[k]);
                        assert(views(seen@)[k] == views(prev_seen)[k]);
                    }
                }
            }
        }
        i += 1;
    }
    proof {
        assert(views(dups@).take(dups@.len() as int) =~~= views(dups@));
    }
    groups
}

} // verus!
