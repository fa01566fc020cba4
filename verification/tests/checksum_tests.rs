use nuance::checksum::{hash_directory, FileEntry};

fn entry(path: &str, data: &str) -> FileEntry {
    FileEntry { path: path.as_bytes().to_vec(), data: data.as_bytes().to_vec() }
}

#[test]
fn hash_is_deterministic() {
    let h1 = hash_directory(vec![entry("a.txt", "hello"), entry("sub/b.txt", "world")]);
    let h2 = hash_directory(vec![entry("a.txt", "hello"), entry("sub/b.txt", "world")]);
    assert_eq!(h1, h2);
    assert_eq!(h1.len(), 64); // SHA-256 hex length
}

#[test]
fn hash_changes_with_content() {
    let h1 = hash_directory(vec![entry("file.txt", "version1")]);
    let h2 = hash_directory(vec![entry("file.txt", "version2")]);
    assert_ne!(h1, h2);
}

#[test]
fn hash_changes_with_rename() {
    let h1 = hash_directory(vec![entry("file.txt", "version1")]);
    let h2 = hash_directory(vec![entry("renamed.txt", "version1")]);
    assert_ne!(h1, h2);
}

#[test]
fn hash_ignores_listing_order() {
    let h1 = hash_directory(vec![entry("a.txt", "hello"), entry("sub/b.txt", "world")]);
    let h2 = hash_directory(vec![entry("sub/b.txt", "world"), entry("a.txt", "hello")]);
    assert_eq!(h1, h2);
}

#[test]
fn hash_known_values() {
    // The digest of an empty tree is the SHA-256 of the empty byte string.
    let empty = hash_directory(Vec::new());
    assert_eq!(empty, "e3b0c44298fc1c149afbf4c8996fb92427ae41e4649b934ca495991b7852b855");

    // One file: the path bytes followed by the content bytes.
    let one = hash_directory(vec![entry("file.txt", "version1")]);
    assert_eq!(one, "943db92027257106f3d62c1e4b5a8f225a5b0badb9e7c0376c55e17aa14dca27");

    // Two files, fed in sorted path order whatever the listing order was.
    let two = hash_directory(vec![entry("sub/b.txt", "world"), entry("a.txt", "hello")]);
    assert_eq!(two, "799f5f31fc5c91f945eb75bde34e9ea97a44fdd26405a2e40076fa4dbfca46be");
}
