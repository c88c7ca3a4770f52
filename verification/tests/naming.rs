use hash_checker::names::get_name;
use hash_checker::names::get_paths_from_folder;
use hash_checker::names::PathEntry;

#[test]
fn derives_name_before_first_interior_dot() {
    assert_eq!(get_name("report.csv"), "report");
}

#[test]
fn derives_name_before_first_of_several_dots() {
    assert_eq!(get_name("archive.tar.gz"), "archive");
}

#[test]
fn keeps_a_leading_dot() {
    assert_eq!(get_name(".bashrc"), ".bashrc");
}

#[test]
fn keeps_a_name_without_dots() {
    assert_eq!(get_name("noext"), "noext");
}

#[test]
fn truncates_a_dot_file_with_an_extension() {
    assert_eq!(get_name(".hidden.txt"), ".hidden");
}

#[test]
fn derives_nothing_from_an_empty_name() {
    assert_eq!(get_name(""), "");
}

#[test]
fn different_extensions_share_a_derived_name() {
    assert_eq!(get_name("a.txt"), get_name("a.md"));
    assert_eq!(get_name("a.txt"), "a");
}

#[test]
fn records_files_and_skips_directories() {
    let entries = vec![
        PathEntry::File { path: String::from("a/report.csv"), file_name: String::from("report.csv") },
        PathEntry::Directory,
        PathEntry::File { path: String::from("a/.bashrc"), file_name: String::from(".bashrc") },
    ];
    let records = get_paths_from_folder(&entries);
    assert_eq!(
        records,
        vec![
            (String::from("a/report.csv"), String::from("report")),
            (String::from("a/.bashrc"), String::from(".bashrc")),
        ]
    );
}

#[test]
fn a_folder_of_only_directories_yields_no_records() {
    let entries = vec![PathEntry::Directory, PathEntry::Directory];
    let records = get_paths_from_folder(&entries);
    assert!(records.is_empty());
}
