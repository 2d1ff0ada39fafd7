//! Filesystem probe: resolving one path entry to its canonical form, testing
//! whether it is an accessible directory, and counting the regular files in
//! it. Every filesystem call sits in a small trusted wrapper; its outcome
//! depends on the state of the filesystem, so the wrappers promise nothing of
//! their results, and the functions here state only what holds of every
//! outcome.

use vstd::prelude::*;

verus! {

/// A single entry's directory listing failed: the entry is missing, not a
/// directory, or not readable.
#[derive(Clone, Copy, Debug, PartialEq, Eq, Structural)]
pub struct ProbeError;

/// How one entry of the path list presents itself, for display.
#[derive(Clone, Copy, Debug, PartialEq, Eq, Structural)]
pub enum EntryStatus {
    /// The entry resolves to itself.
    Normal,
    /// The entry resolves to a different canonical path.
    ResolvesElsewhere,
    /// The entry cannot be resolved.
    Inaccessible,
}

/// Relies on std::path::Path::canonicalize: resolves symlinks and normalizes
/// the entry to an absolute canonical path. Any failure, and a canonical path
/// that is not valid UTF-8, count as unresolvable. The outcome depends on the
/// filesystem, so nothing is assumed of it.
#[verifier::external_body]
fn canonicalize_entry(entry: &String) -> (r: Option<String>) {
    match std::path::Path::new(entry.as_str()).canonicalize() {
        Ok(p) => match p.to_str() {
            Some(s) => Some(s.to_string()),
            None => None,
        },
        Err(_) => None,
    }
}

/// Relies on std::path::Path::is_dir: true exactly when the path can be
/// queried and its metadata says directory; false on any error. The outcome
/// depends on the filesystem, so nothing is assumed of it.
#[verifier::external_body]
fn entry_is_dir(entry: &String) -> (r: bool) {
    std::path::Path::new(entry.as_str()).is_dir()
}

/// Relies on std::path::Path::is_file: true exactly when the path can be
/// queried and its metadata says regular file; false on any error. The
/// outcome depends on the filesystem, so nothing is assumed of it.
#[verifier::external_body]
fn entry_is_file(entry: &String) -> (r: bool) {
    std::path::Path::new(entry.as_str()).is_file()
}

/// Relies on std::path::Path::read_dir: lists the immediate children of the
/// directory. `None` when the directory cannot be read at all; children whose
/// entry errors or whose path is not valid UTF-8 are left out. The outcome
/// depends on the filesystem, so nothing is assumed of it.
#[verifier::external_body]
fn read_dir_entries(entry: &String) -> (r: Option<Vec<String>>) {
    match std::path::Path::new(entry.as_str()).read_dir() {
        Ok(iter) => Some(
            iter.filter_map(|e| e.ok().and_then(|d| d.path().to_str().map(String::from)))
                .collect(),
        ),
        Err(_) => None,
    }
}

/// Resolves the entry to its canonical path, or reports it unresolvable.
pub fn resolve(entry: &String) -> (r: Option<String>) {
    canonicalize_entry(entry)
}

/// The canonical form used in resolution-based comparisons: the resolved
/// path when the entry resolves, the entry itself when it does not.
pub fn resolve_or_self(entry: &String) -> (r: String) {
    match canonicalize_entry(entry) {
        Some(c) => c,
        None => entry.clone(),
    }
}

/// Whether the entry resolves to an existing directory.
pub fn exists_as_directory(entry: &String) -> (r: bool) {
    match canonicalize_entry(entry) {
        Some(c) => entry_is_dir(&c),
        None => false,
    }
}

/// Flags the entry for display from its resolution: unresolvable entries are
/// inaccessible, an entry that is its own canonical path is normal, any
/// other points elsewhere.
pub fn classify_entry(entry: &String, resolution: &Option<String>) -> (s: EntryStatus)
    ensures
        resolution is None ==> s == EntryStatus::Inaccessible,
        (resolution matches Some(r) && r@ == entry@) ==> s == EntryStatus::Normal,
        (resolution matches Some(r) && r@ != entry@) ==> s == EntryStatus::ResolvesElsewhere,
{
    match resolution {
        None => EntryStatus::Inaccessible,
        Some(r) => {
            if r.eq(entry) {
                EntryStatus::Normal
            } else {
                EntryStatus::ResolvesElsewhere
            }
        },
    }
}

/// How many of the flags are set.
pub open spec fn spec_count_true(flags: Seq<bool>) -> nat
    decreases flags.len(),
{
    if flags.len() == 0 {
        0
    } else {
        spec_count_true(flags.drop_last()) + if flags.last() {
            1nat
        } else {
            0nat
        }
    }
}

/// Counts the set flags: one per child that resolved to a regular file.
pub fn count_true(flags: &Vec<bool>) -> (n: usize)
    ensures
        n == spec_count_true(flags@),
{
    let mut n: usize = 0;
    let mut i: usize = 0;
    while i < flags.len()
        invariant
            i <= flags@.len(),
            n == spec_count_true(flags@.take(i as int)),
            n <= i,
        decreases flags@.len() - i,
    {
        proof {
            assert(flags@.take(i + 1).drop_last() =~= flags@.take(i as int));
            assert(flags@.take(i + 1).last() == flags@[i as int]);
        }
        if flags[i] {
            n += 1;
        }
        i += 1;
    }
    proof {
        assert(flags@.take(flags@.len() as int) =~= flags@);
    }
    n
}

/// Counts the immediate children of the entry that resolve to a regular
/// file; a child that does not resolve (a broken symlink) is not counted.
/// Fails with `ProbeError` exactly when the directory listing itself fails;
/// an empty but readable directory yields zero, not an error.
pub fn count_files(entry: &String) -> (r: Result<usize, ProbeError>) {
    match read_dir_entries(entry) {
        None => Err(ProbeError),
        Some(children) => {
            let mut flags: Vec<bool> = Vec::new();
            let mut i: usize = 0;
            while i < children.len()
                decreases children@.len() - i,
            {
                let regular = match canonicalize_entry(&children[i]) {
                    Some(c) => entry_is_file(&c),
                    None => false,
                };
                flags.push(regular);
                i += 1;
            }
            Ok(count_true(&flags))
        },
    }
}

/// Maps a file count to the emptiness answer: a directory is empty exactly
/// when it holds zero regular files; a probe failure passes through
/// unchanged.
pub fn emptiness_of(count: Result<usize, ProbeError>) -> (b: Result<bool, ProbeError>)
    ensures
        count matches Ok(n) ==> b == Ok::<bool, ProbeError>(n == 0),
        count is Err ==> b is Err,
{
    match count {
        Ok(n) => Ok(n == 0),
        Err(e) => Err(e),
    }
}

/// Whether the entry is an accessible directory with no regular files in it:
/// `emptiness_of` applied to `count_files`, so it fails with `ProbeError`
/// exactly when the directory listing does.
pub fn is_empty(entry: &String) -> (r: Result<bool, ProbeError>) {
    emptiness_of(count_files(entry))
}

} // verus!
