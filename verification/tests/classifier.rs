//! Extension extraction and the extension-to-language table.

use tele_stats::extensions::{ExtensionTable, classify, extension};

fn sample_table() -> ExtensionTable {
    let mut t = ExtensionTable::new();
    t.insert("rs", "Rust");
    t.insert("py", "Python");
    t.insert("gz", "Tarball");
    t
}

#[test]
fn extension_of_plain_file() {
    assert_eq!(extension("main.rs"), Some("rs"));
}

#[test]
fn extension_of_nested_path() {
    assert_eq!(extension("src/deep/dir/main.rs"), Some("rs"));
}

#[test]
fn no_extension_without_dot() {
    assert_eq!(extension("Makefile"), None);
    assert_eq!(extension("src/Makefile"), None);
}

#[test]
fn hidden_file_has_no_extension() {
    assert_eq!(extension(".gitignore"), None);
    assert_eq!(extension("a/b/.gitignore"), None);
}

#[test]
fn hidden_file_with_second_dot_has_one() {
    assert_eq!(extension("a/.hidden.txt"), Some("txt"));
}

#[test]
fn only_final_extension_counts() {
    assert_eq!(extension("archive.tar.gz"), Some("gz"));
}

#[test]
fn trailing_dot_gives_empty_extension() {
    assert_eq!(extension("foo."), Some(""));
}

#[test]
fn dot_in_directory_does_not_count() {
    assert_eq!(extension("dir.d/file"), None);
}

#[test]
fn multibyte_paths_classify_by_their_extension() {
    assert_eq!(extension("src/día.rs"), Some("rs"));
}

#[test]
fn lookup_finds_inserted_mappings() {
    let t = sample_table();
    assert_eq!(t.lookup("rs").map(String::as_str), Some("Rust"));
    assert_eq!(t.lookup("py").map(String::as_str), Some("Python"));
    assert_eq!(t.lookup("c"), None);
}

#[test]
fn insert_replaces_existing_mapping() {
    let mut t = sample_table();
    t.insert("rs", "Rust 2021");
    assert_eq!(t.lookup("rs").map(String::as_str), Some("Rust 2021"));
    assert_eq!(t.entries.len(), 3);
}

#[test]
fn classify_matches_mapped_blob_paths() {
    let t = sample_table();
    assert_eq!(classify("src/main.rs", &t).map(String::as_str), Some("Rust"));
    assert_eq!(classify("tool.py", &t).map(String::as_str), Some("Python"));
    assert_eq!(classify("notes.txt", &t), None);
    assert_eq!(classify("README", &t), None);
}

#[test]
fn classification_is_case_sensitive() {
    let t = sample_table();
    assert_eq!(classify("main.RS", &t), None);
}
