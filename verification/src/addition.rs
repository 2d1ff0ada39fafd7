//! Addition validator: checks that a candidate entry is an existing
//! directory and is not already in the path list — verbatim or once resolved
//! — and appends or prepends entries to a path-list string.

use vstd::prelude::*;

use crate::codec::JoinError;
use crate::codec::SEPARATOR;
use crate::codec::lemma_split_segments_sep_free;
use crate::codec::spec_join;
use crate::codec::spec_split;
use crate::codec::split;
use crate::codec::join;
use crate::probe::exists_as_directory;
use crate::probe::resolve_or_self;
use crate::strs::contains_string;
use crate::strs::lemma_views_push;
use crate::strs::views;

verus! {

/// Why a candidate entry may not be added to the path list.
#[derive(Clone, Debug, PartialEq, Eq)]
pub enum AdditionError {
    /// The candidate does not resolve to an existing directory.
    NotADirectory,
    /// The candidate is already in the list, verbatim.
    AlreadyPresent,
    /// The candidate resolves to the same canonical path as an entry already
    /// in the list; `resolved` is that shared canonical form.
    AlreadyPresentResolved { resolved: String },
}

/// Decides whether the candidate may be added, given every filesystem answer
/// as an argument: whether the candidate is a directory, its canonical form,
/// and the canonical form of each list entry. The checks are made in order:
/// existence, then verbatim uniqueness, then uniqueness under resolution.
pub fn validate_addition_with(
    paths: &Vec<String>,
    resolved: &Vec<String>,
    candidate: &String,
    candidate_resolved: &String,
    candidate_is_dir: bool,
) -> (r: Result<(), AdditionError>)
    ensures
        r is Ok <==> (candidate_is_dir && !views(paths@).contains(candidate@)
            && !views(resolved@).contains(candidate_resolved@)),
        r matches Err(AdditionError::NotADirectory) <==> !candidate_is_dir,
        r matches Err(AdditionError::AlreadyPresent) <==> (candidate_is_dir
            && views(paths@).contains(candidate@)),
        r matches Err(AdditionError::AlreadyPresentResolved { resolved: res })
            ==> res@ == candidate_resolved@,
        (candidate_is_dir && !views(paths@).contains(candidate@)
            && views(resolved@).contains(candidate_resolved@))
            <==> r matches Err(AdditionError::AlreadyPresentResolved { resolved: res }),
{
    if !candidate_is_dir {
        return Err(AdditionError::NotADirectory);
    }
    if contains_string(paths, candidate) {
        return Err(AdditionError::AlreadyPresent);
    }
    if contains_string(resolved, candidate_resolved) {
        return Err(AdditionError::AlreadyPresentResolved {
            resolved: candidate_resolved.clone(),
        });
    }
    Ok(())
}

/// Checks that the candidate is not already in the path-list string,
/// verbatim or by resolution. The verbatim check is a pure string question
/// and is pinned down exactly; the resolution check depends on the
/// filesystem, so of it only the outcome shape is stated.
pub fn ensure_unique_addition(path_var: &str, addition: &str) -> (r: Result<(), AdditionError>)
    ensures
        !(r matches Err(AdditionError::NotADirectory)),
        r matches Err(AdditionError::AlreadyPresent)
            <==> spec_split(path_var@).contains(addition@),
        r is Ok ==> !spec_split(path_var@).contains(addition@),
{
    let paths = split(path_var);
    let mut resolved: Vec<String> = Vec::new();
    let mut i: usize = 0;
    while i < paths.len()
        invariant
            i <= paths@.len(),
            resolved@.len() == i as int,
        decreases paths@.len() - i,
    {
        resolved.push(resolve_or_self(&paths[i]));
        i += 1;
    }
    let candidate = addition.to_owned();
    let candidate_resolved = resolve_or_self(&candidate);
    validate_addition_with(&paths, &resolved, &candidate, &candidate_resolved, true)
}

/// Checks that the candidate resolves to an existing directory and is not
/// already in the path-list string, verbatim or by resolution: existence
/// first, then verbatim uniqueness, then uniqueness under resolution. The
/// decision over every filesystem answer is `validate_addition_with`; here
/// only the answers are gathered.
pub fn validate_addition(path_var: &str, addition: &str) -> (r: Result<(), AdditionError>)
    ensures
        r matches Err(AdditionError::AlreadyPresent)
            ==> spec_split(path_var@).contains(addition@),
        r matches Err(AdditionError::AlreadyPresentResolved { .. })
            ==> !spec_split(path_var@).contains(addition@),
        r is Ok ==> !spec_split(path_var@).contains(addition@),
{
    let candidate = addition.to_owned();
    let candidate_is_dir = exists_as_directory(&candidate);
    let paths = split(path_var);
    let mut resolved: Vec<String> = Vec::new();
    let mut i: usize = 0;
    while i < paths.len()
        invariant
            i <= paths@.len(),
            resolved@.len() == i as int,
        decreases paths@.len() - i,
    {
        resolved.push(resolve_or_self(&paths[i]));
        i += 1;
    }
    let candidate_resolved = resolve_or_self(&candidate);
    validate_addition_with(&paths, &resolved, &candidate, &candidate_resolved, candidate_is_dir)
}

/// Splits the path-list string, adds the candidate as the new last entry,
/// and joins the result. Fails exactly when the candidate itself holds the
/// separator; the split entries never do.
pub fn append_path(path_var: &str, addition: &str) -> (r: Result<String, JoinError>)
    ensures
        r is Ok <==> !addition@.contains(SEPARATOR),
        r matches Ok(s) ==> s@ == spec_join(spec_split(path_var@).push(addition@)),
{
    let mut paths = split(path_var);
    let ghost prev = paths@;
    paths.push(addition.to_owned());
    proof {
        lemma_views_push(prev, paths@.last());
        assert(views(paths@) == spec_split(path_var@).push(addition@));
        lemma_split_segments_sep_free(path_var@);
        assert(forall|k: int| 0 <= k < prev.len()
            ==> !(#[trigger] views(paths@)[k]).contains(SEPARATOR));
        assert(views(paths@).last() == addition@);
    }
    join(&paths)
}

/// Splits the path-list string, adds the candidate as the new first entry,
/// and joins the result. Fails exactly when the candidate itself holds the
/// separator; the split entries never do.
pub fn prepend_path(path_var: &str, addition: &str) -> (r: Result<String, JoinError>)
    ensures
        r is Ok <==> !addition@.contains(SEPARATOR),
        r matches Ok(s) ==> s@ == spec_join(seq![addition@] + spec_split(path_var@)),
{
    let mut paths = split(path_var);
    let ghost prev = paths@;
    paths.insert(0, addition.to_owned());
    proof {
        assert(views(paths@) =~~= seq![addition@] + spec_split(path_var@));
        lemma_split_segments_sep_free(path_var@);
        assert(forall|k: int| 1 <= k < views(paths@).len()
            ==> views(paths@)[k] == spec_split(path_var@)[k - 1]);
        assert(views(paths@)[0] == addition@);
    }
    join(&paths)
}

} // verus!
