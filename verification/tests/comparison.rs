use hash_checker::compare::compare_paths_vectors;
use hash_checker::names::get_paths_from_folder;
use hash_checker::names::PathEntry;

fn file(path: &str, file_name: &str) -> PathEntry {
    PathEntry::File { path: String::from(path), file_name: String::from(file_name) }
}

#[test]
fn matching_names_compare_true_with_nothing_missing() {
    let a = get_paths_from_folder(&vec![file("a/x.txt", "x.txt"), file("a/y.md", "y.md")]);
    let b = get_paths_from_folder(&vec![file("b/y.rs", "y.rs"), file("b/x.csv", "x.csv")]);
    let (same, missing) = compare_paths_vectors(a, b);
    assert!(same);
    assert!(missing.is_empty());
}

#[test]
fn different_extensions_still_match_by_name() {
    let a = get_paths_from_folder(&vec![file("a/a.txt", "a.txt")]);
    let b = get_paths_from_folder(&vec![file("b/a.md", "a.md")]);
    let (same, missing) = compare_paths_vectors(a, b);
    assert!(same);
    assert!(missing.is_empty());
}

#[test]
fn a_file_absent_from_the_target_is_reported_missing() {
    let a = get_paths_from_folder(&vec![file("a/x.txt", "x.txt")]);
    let b = get_paths_from_folder(&Vec::new());
    let (same, missing) = compare_paths_vectors(a, b);
    assert!(!same);
    assert_eq!(missing, vec![String::from("a/x.txt")]);
}

#[test]
fn missing_paths_come_in_entry_order() {
    let a = get_paths_from_folder(&vec![
        file("a/one.txt", "one.txt"),
        file("a/two.txt", "two.txt"),
        file("a/three.txt", "three.txt"),
    ]);
    let b = get_paths_from_folder(&vec![file("b/two.log", "two.log")]);
    let (same, missing) = compare_paths_vectors(a, b);
    assert!(!same);
    assert_eq!(missing, vec![String::from("a/one.txt"), String::from("a/three.txt")]);
}

#[test]
fn an_empty_folder_compares_true_in_name_mode() {
    let a = get_paths_from_folder(&Vec::new());
    let b = get_paths_from_folder(&vec![file("b/x.txt", "x.txt")]);
    let (same, missing) = compare_paths_vectors(a, b);
    assert!(same);
    assert!(missing.is_empty());
}

#[test]
fn renaming_can_break_the_name_mode_verdict() {
    // The digest-mode scenario of three renamed but identical files: by
    // name, files whose derived names changed no longer match.
    let a = get_paths_from_folder(&vec![
        file("a/first.dat", "first.dat"),
        file("a/second.dat", "second.dat"),
        file("a/third.dat", "third.dat"),
    ]);
    let b = get_paths_from_folder(&vec![
        file("b/first.bak", "first.bak"),
        file("b/renamed.dat", "renamed.dat"),
        file("b/third.dat", "third.dat"),
    ]);
    let (same, missing) = compare_paths_vectors(a, b);
    assert!(!same);
    assert_eq!(missing, vec![String::from("a/second.dat")]);
}

#[test]
fn subdirectories_never_match_or_miss() {
    let a = get_paths_from_folder(&vec![PathEntry::Directory, file("a/x.txt", "x.txt")]);
    let b = get_paths_from_folder(&vec![file("b/x.md", "x.md"), PathEntry::Directory]);
    let (same, missing) = compare_paths_vectors(a, b);
    assert!(same);
    assert!(missing.is_empty());
}

#[test]
fn duplicate_names_in_the_source_are_each_checked() {
    let a = get_paths_from_folder(&vec![file("a/x.txt", "x.txt"), file("a/x.md", "x.md")]);
    let b = get_paths_from_folder(&Vec::new());
    let (same, missing) = compare_paths_vectors(a, b);
    assert!(!same);
    assert_eq!(missing, vec![String::from("a/x.txt"), String::from("a/x.md")]);
}
