//! The path-list string operations on concrete values: splitting, joining,
//! duplicate analysis, deduplication, and the append/prepend editors.

use pathops::addition::append_path;
use pathops::addition::prepend_path;
use pathops::addition::AdditionError;
use pathops::codec::join;
use pathops::codec::split;
use pathops::codec::JoinError;
use pathops::dups::dedup_with;
use pathops::dups::duplicate_counts;
use pathops::dups::find_duplicates;

fn example_path() -> String {
    String::from("/usr/local/bin:/usr/local/sbin:/usr/bin:/bin:/usr/local/bin")
}

fn example_paths() -> Vec<String> {
    vec![
        String::from("/usr/local/bin"),
        String::from("/usr/local/sbin"),
        String::from("/usr/bin"),
        String::from("/bin"),
        String::from("/usr/local/bin"),
    ]
}

#[test]
fn test_split() {
    assert_eq!(split(&example_path()), example_paths())
}

#[test]
fn test_join() {
    let joined = join(&example_paths()).unwrap();
    assert_eq!(joined, example_path())
}

#[test]
fn test_find_duplicates() {
    let dups = vec![String::from("/usr/local/bin")];
    assert_eq!(find_duplicates(&example_paths()), dups)
}

#[test]
fn test_dedup() {
    let dups = vec![String::from("/usr/local/bin")];
    assert_eq!(find_duplicates(&example_paths()), dups)
}

#[test]
fn test_append_path() {
    let path = example_path();
    let addition = String::from("/unique/addition");
    let expected = format!("{}{}{}", path, ":", addition);
    let res = append_path(&path, &addition).unwrap();
    assert_eq!(res, expected)
}

#[test]
fn test_prepend_path() {
    let path = example_path();
    let addition = String::from("/unique/addition");
    let expected = format!("{}{}{}", addition, ":", path);
    let res = prepend_path(&path, &addition).unwrap();
    assert_eq!(res, expected)
}

#[test]
fn split_of_empty_string_is_empty_list() {
    assert_eq!(split(""), Vec::<String>::new());
}

#[test]
fn split_keeps_empty_segments_between_separators() {
    assert_eq!(split(":"), vec![String::new(), String::new()]);
    assert_eq!(split("a::b:"), vec![
        String::from("a"),
        String::new(),
        String::from("b"),
        String::new(),
    ]);
}

#[test]
fn join_of_empty_list_is_empty_string() {
    assert_eq!(join(&Vec::new()).unwrap(), String::new());
}

#[test]
fn join_rejects_entry_holding_the_separator() {
    let entries = vec![String::from("/bin"), String::from("/a:/b")];
    assert_eq!(join(&entries), Err(JoinError));
}

#[test]
fn split_join_round_trip_on_separator_free_entries() {
    let entries = vec![String::from("/bin"), String::new(), String::from("rel/dir")];
    let joined = join(&entries).unwrap();
    assert_eq!(split(&joined), entries);
    assert_eq!(join(&split(&joined)).unwrap(), joined);
}

#[test]
fn find_duplicates_reports_each_repeat_once() {
    let paths = vec![
        String::from("/a"),
        String::from("/b"),
        String::from("/a"),
        String::from("/a"),
        String::from("/b"),
    ];
    let expected = vec![String::from("/a"), String::from("/a"), String::from("/b")];
    assert_eq!(find_duplicates(&paths), expected);
}

#[test]
fn dedup_with_drops_verbatim_and_resolved_duplicates() {
    let paths = vec![
        String::from("/a"),
        String::from("/b"),
        String::from("/a"),
        String::from("/c"),
    ];
    let resolved = vec![
        String::from("/a"),
        String::from("/b"),
        String::from("/a"),
        String::from("/b"),
    ];
    let expected = vec![String::from("/a"), String::from("/b")];
    assert_eq!(dedup_with(&paths, &resolved), expected);
}

#[test]
fn dedup_with_is_idempotent_on_concrete_values() {
    let paths = vec![
        String::from("/x"),
        String::from("/y"),
        String::from("/x"),
    ];
    let resolved = paths.clone();
    let once = dedup_with(&paths, &resolved);
    let twice = dedup_with(&once, &once.clone());
    assert_eq!(twice, once);
}

#[test]
fn duplicate_counts_groups_by_value_in_first_seen_order() {
    let dups = vec![
        String::from("/b"),
        String::from("/c"),
        String::from("/b"),
    ];
    let groups = duplicate_counts(&dups);
    assert_eq!(groups, vec![(String::from("/b"), 2), (String::from("/c"), 1)]);
}

#[test]
fn validate_addition_rejects_missing_candidate() {
    let res = pathops::addition::validate_addition("/a:/b", "/missing/dir");
    assert_eq!(res, Err(AdditionError::NotADirectory));
}

#[test]
fn ensure_unique_addition_rejects_verbatim_duplicate() {
    let res = pathops::addition::ensure_unique_addition("/a:/b", "/a");
    assert_eq!(res, Err(AdditionError::AlreadyPresent));
}

#[test]
fn ensure_unique_addition_accepts_new_entry() {
    let res = pathops::addition::ensure_unique_addition("/a:/b", "/unique/addition");
    assert_eq!(res, Ok(()));
}

#[test]
fn append_path_rejects_addition_holding_the_separator() {
    assert_eq!(append_path("/a:/b", "/c:/d"), Err(JoinError));
    assert_eq!(prepend_path("/a:/b", "/c:/d"), Err(JoinError));
}
