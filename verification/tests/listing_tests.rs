use path_sizer::listing::{build_file_entry, sort_entries};
use path_sizer::types::FileEntry;

fn entry(name: &str, is_dir: bool) -> FileEntry {
    FileEntry { name: name.to_string(), is_dir, size: 0, modified: None }
}

fn names(v: &Vec<FileEntry>) -> Vec<String> {
    v.iter().map(|e| e.name.clone()).collect()
}

#[test]
fn directories_come_before_files() {
    let sorted = sort_entries(&vec![
        entry("zeta.txt", false),
        entry("alpha", true),
        entry("beta.txt", false),
        entry("omega", true),
    ]);
    assert_eq!(names(&sorted), vec!["alpha", "omega", "beta.txt", "zeta.txt"]);
}

#[test]
fn names_compare_case_insensitively() {
    // By raw scalar values "B" (66) would sort before "a" (97); the
    // case-folded comparison puts "a" first.
    let sorted = sort_entries(&vec![entry("B", false), entry("a", false)]);
    assert_eq!(names(&sorted), vec!["a", "B"]);
    let sorted = sort_entries(&vec![entry("Zebra", false), entry("apple", false)]);
    assert_eq!(names(&sorted), vec!["apple", "Zebra"]);
}

#[test]
fn sorting_keeps_every_entry() {
    let sorted = sort_entries(&vec![
        entry("c", false),
        entry("a", false),
        entry("b", false),
        entry("a", false),
    ]);
    assert_eq!(names(&sorted), vec!["a", "a", "b", "c"]);
}

#[test]
fn empty_listing_sorts_to_empty() {
    assert!(sort_entries(&Vec::new()).is_empty());
}

#[test]
fn built_directory_entries_show_size_zero() {
    let e = build_file_entry("sub".to_string(), true, 999, None);
    assert_eq!(e.name, "sub");
    assert!(e.is_dir);
    assert_eq!(e.size, 0);
    assert!(e.modified.is_none());
}

#[test]
fn built_file_entries_keep_their_size() {
    let e = build_file_entry("a.txt".to_string(), false, 42, Some(0));
    assert!(!e.is_dir);
    assert_eq!(e.size, 42);
    assert!(e.modified.is_some());
}

#[test]
fn duplicate_copies_every_field() {
    let e = build_file_entry("a.txt".to_string(), false, 42, Some(0));
    let d = e.duplicate();
    assert_eq!(d.name, e.name);
    assert_eq!(d.is_dir, e.is_dir);
    assert_eq!(d.size, e.size);
    assert_eq!(d.modified, e.modified);
}
