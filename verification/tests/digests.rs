use hash_checker::compare::compare_hash_vectors;
use hash_checker::hashing::generate_hash_for_contents;
use hash_checker::hashing::generate_hashes_for_folder;
use hash_checker::hashing::to_hex;
use hash_checker::hashing::FolderEntry;

const ABC_DIGEST: &str = "ba7816bf8f01cfea414140de5dae2223b00361a396177a9cb410ff61f20015ad";
const EMPTY_DIGEST: &str = "e3b0c44298fc1c149afbf4c8996fb92427ae41e4649b934ca495991b7852b855";

#[test]
fn renders_bytes_as_lowercase_hex() {
    assert_eq!(to_hex(&vec![0x00u8, 0xff, 0x1a]), "00ff1a");
}

#[test]
fn renders_no_bytes_as_the_empty_string() {
    assert_eq!(to_hex(&Vec::new()), "");
}

#[test]
fn hashes_known_contents() {
    assert_eq!(generate_hash_for_contents(&b"abc".to_vec()), ABC_DIGEST);
}

#[test]
fn hashes_empty_contents() {
    assert_eq!(generate_hash_for_contents(&Vec::new()), EMPTY_DIGEST);
}

#[test]
fn hashes_files_and_skips_directories() {
    let entries = vec![
        FolderEntry::File { content: b"abc".to_vec() },
        FolderEntry::Directory,
        FolderEntry::File { content: Vec::new() },
    ];
    let hashes = generate_hashes_for_folder(&entries);
    assert_eq!(hashes, vec![String::from(ABC_DIGEST), String::from(EMPTY_DIGEST)]);
}

#[test]
fn a_folder_of_only_directories_yields_no_hashes() {
    let entries = vec![FolderEntry::Directory, FolderEntry::Directory];
    assert!(generate_hashes_for_folder(&entries).is_empty());
}

fn folder_hashes(contents: &[&[u8]]) -> Vec<String> {
    let entries: Vec<FolderEntry> =
        contents.iter().map(|c| FolderEntry::File { content: c.to_vec() }).collect();
    generate_hashes_for_folder(&entries)
}

#[test]
fn identical_contents_compare_true_both_ways() {
    let a = folder_hashes(&[b"one", b"two", b"three"]);
    let b = folder_hashes(&[b"one", b"two", b"three"]);
    assert!(compare_hash_vectors(a.clone(), b.clone()));
    assert!(compare_hash_vectors(b, a));
}

#[test]
fn an_extra_file_breaks_one_direction_only() {
    let a = folder_hashes(&[b"one", b"two", b"extra"]);
    let b = folder_hashes(&[b"one", b"two"]);
    assert!(!compare_hash_vectors(a.clone(), b.clone()));
    assert!(compare_hash_vectors(b, a));
}

#[test]
fn shuffled_entries_compare_the_same() {
    let a = folder_hashes(&[b"one", b"two", b"three"]);
    let a_shuffled = folder_hashes(&[b"three", b"one", b"two"]);
    let b = folder_hashes(&[b"two", b"three", b"one"]);
    assert!(compare_hash_vectors(a.clone(), b.clone()));
    assert!(compare_hash_vectors(a_shuffled.clone(), b.clone()));
    let c = folder_hashes(&[b"one"]);
    assert_eq!(compare_hash_vectors(a, c.clone()), compare_hash_vectors(a_shuffled, c));
}

#[test]
fn empty_folder_compares_true_against_anything() {
    let empty: Vec<String> = Vec::new();
    let b = folder_hashes(&[b"one", b"two"]);
    assert!(compare_hash_vectors(empty.clone(), b));
    assert!(compare_hash_vectors(empty.clone(), empty));
}

#[test]
fn duplicates_do_not_change_the_verdict() {
    let a = folder_hashes(&[b"one", b"one", b"two"]);
    let b = folder_hashes(&[b"two", b"one"]);
    assert!(compare_hash_vectors(a.clone(), b.clone()));
    assert!(compare_hash_vectors(b, a));
}

#[test]
fn renamed_but_identical_files_compare_true_in_digest_mode() {
    // The same three contents under different names: digests see no change.
    let a = folder_hashes(&[b"alpha", b"beta", b"gamma"]);
    let b = folder_hashes(&[b"alpha", b"beta", b"gamma"]);
    assert!(compare_hash_vectors(a, b));
}
