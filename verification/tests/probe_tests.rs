//! The filesystem-facing operations, run against temporary directories:
//! existence and emptiness probing, file counting, resolution aliasing, and
//! addition validation against real directories.

use pathops::addition::validate_addition;
use pathops::addition::AdditionError;
use pathops::codec::join;
use pathops::dups::dedup;
use pathops::dups::find_duplicates_resolved;
use pathops::probe::classify_entry;
use pathops::probe::count_files;
use pathops::probe::emptiness_of;
use pathops::probe::count_true;
use pathops::probe::exists_as_directory;
use pathops::probe::is_empty;
use pathops::probe::resolve;
use pathops::probe::EntryStatus;
use pathops::probe::ProbeError;

/// A fresh temporary directory and its canonical path as a string.
fn canonical_tempdir() -> (tempfile::TempDir, String) {
    let dir = tempfile::tempdir().unwrap();
    let literal = dir.path().to_str().unwrap().to_string();
    let canonical = resolve(&literal).unwrap();
    (dir, canonical)
}

#[test]
fn test_exists() {
    let (_dir, path) = canonical_tempdir();
    assert!(exists_as_directory(&path))
}

#[test]
fn test_count_files() {
    let (dir, path) = canonical_tempdir();
    let _keep = tempfile::NamedTempFile::new_in(dir.path()).unwrap();
    let count = count_files(&path).unwrap();
    assert!(count > 0)
}

#[test]
fn test_is_empty() {
    let (dir, path) = canonical_tempdir();
    let _keep = tempfile::NamedTempFile::new_in(dir.path()).unwrap();
    let res = is_empty(&path).unwrap();
    assert!(!res)
}

#[test]
fn test_ensure_unique_addition() {
    let path = String::from("/usr/local/bin:/usr/local/sbin:/usr/bin:/bin:/usr/local/bin");
    let addition = String::from("/unique/addition");
    pathops::addition::ensure_unique_addition(&path, &addition).unwrap();
    let existing = String::from("/usr/local/bin");
    let res = pathops::addition::ensure_unique_addition(&path, &existing);
    assert!(res.is_err())
}

#[test]
fn count_files_excludes_subdirectories_and_broken_symlinks() {
    let (dir, path) = canonical_tempdir();
    let _f1 = tempfile::NamedTempFile::new_in(dir.path()).unwrap();
    let _f2 = tempfile::NamedTempFile::new_in(dir.path()).unwrap();
    let _f3 = tempfile::NamedTempFile::new_in(dir.path()).unwrap();
    symlink::symlink_file("/missing/target", dir.path().join("broken")).unwrap();
    assert_eq!(count_files(&path), Ok(3));
}

#[test]
fn count_files_fails_on_missing_directory() {
    let missing = String::from("/missing/dir");
    assert_eq!(count_files(&missing), Err(ProbeError));
    assert_eq!(is_empty(&missing), Err(ProbeError));
}

#[test]
fn empty_directory_is_empty_but_accessible() {
    let (_dir, path) = canonical_tempdir();
    assert_eq!(count_files(&path), Ok(0));
    assert_eq!(is_empty(&path), Ok(true));
}

#[test]
fn emptiness_is_a_count_of_zero() {
    assert_eq!(emptiness_of(Ok(0)), Ok(true));
    assert_eq!(emptiness_of(Ok(3)), Ok(false));
    assert_eq!(emptiness_of(Err(ProbeError)), Err(ProbeError));
}

#[test]
fn count_true_counts_the_set_flags() {
    assert_eq!(count_true(&vec![true, false, true, true]), 3);
    assert_eq!(count_true(&Vec::new()), 0);
}

#[test]
fn resolution_aliases_collapse_under_dedup() {
    let (_dir, canonical) = canonical_tempdir();
    let alias = format!("{}/.", canonical);
    let paths = vec![canonical.clone(), alias.clone()];
    assert_eq!(dedup(&paths), vec![canonical.clone()]);
    assert_eq!(find_duplicates_resolved(&paths), vec![canonical.clone()]);
}

#[test]
fn validate_addition_rejects_candidate_resolving_to_existing_entry() {
    let (_dir, canonical) = canonical_tempdir();
    let alias = format!("{}/.", canonical);
    let list = join(&vec![canonical.clone(), String::from("/bin")]).unwrap();
    let res = validate_addition(&list, &alias);
    assert_eq!(
        res,
        Err(AdditionError::AlreadyPresentResolved { resolved: canonical.clone() })
    );
}

#[test]
fn validate_addition_rejects_existing_entry_verbatim() {
    let (_dir, canonical) = canonical_tempdir();
    let list = join(&vec![canonical.clone(), String::from("/bin")]).unwrap();
    assert_eq!(validate_addition(&list, &canonical), Err(AdditionError::AlreadyPresent));
}

#[test]
fn validate_addition_accepts_fresh_directory() {
    let (_dir, canonical) = canonical_tempdir();
    let res = validate_addition("/missing/one:/missing/two", &canonical);
    assert_eq!(res, Ok(()));
}

#[test]
fn classify_entry_follows_the_resolution() {
    let entry = String::from("/somewhere");
    assert_eq!(classify_entry(&entry, &None), EntryStatus::Inaccessible);
    assert_eq!(
        classify_entry(&entry, &Some(String::from("/somewhere"))),
        EntryStatus::Normal
    );
    assert_eq!(
        classify_entry(&entry, &Some(String::from("/elsewhere"))),
        EntryStatus::ResolvesElsewhere
    );
}

#[test]
fn resolve_fails_on_missing_path() {
    assert_eq!(resolve(&String::from("/missing/dir")), None);
}
