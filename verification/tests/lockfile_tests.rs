use nuance::installer::build_lockfile;
use nuance::lockfile::{LockedPackage, Lockfile};
use nuance::resolver::resolve_from_lock;

fn sample_lockfile() -> Lockfile {
    Lockfile {
        version: 1,
        packages: vec![
            LockedPackage {
                name: "nu-git-utils".to_string(),
                git: "https://github.com/someuser/nu-git-utils".to_string(),
                tag: Some("v0.2.0".to_string()),
                rev: "d4e8f1a2b3c4d5e6f7a8b9c0d1e2f3a4b5c6d7e8".to_string(),
                sha256: "abc123".to_string(),
            },
            LockedPackage {
                name: "nu-str-extras".to_string(),
                git: "https://github.com/someuser/nu-str-extras".to_string(),
                tag: Some("v1.0.0".to_string()),
                rev: "1a2b3c4d5e6f7a8b9c0d1e2f3a4b5c6d7e8f9a0b".to_string(),
                sha256: "def456".to_string(),
            },
        ],
    }
}

#[test]
fn find_package_by_name() {
    let lock = sample_lockfile();
    let pkg = lock.find_package("nu-git-utils").unwrap();
    assert_eq!(pkg.rev, "d4e8f1a2b3c4d5e6f7a8b9c0d1e2f3a4b5c6d7e8");
    assert!(lock.find_package("nonexistent").is_none());
}

#[test]
fn find_package_returns_the_first_match() {
    let mut lock = sample_lockfile();
    let mut dup = lock.packages[0].clone();
    dup.rev = "ffffffffffffffffffffffffffffffffffffffff".to_string();
    lock.packages.push(dup);
    let pkg = lock.find_package("nu-git-utils").unwrap();
    assert_eq!(pkg.rev, "d4e8f1a2b3c4d5e6f7a8b9c0d1e2f3a4b5c6d7e8");
}

#[test]
fn lockfile_round_trip() {
    // Reading the packages back through the from-lock resolution and
    // re-locking them with their own checksums reproduces the lockfile.
    let lock = sample_lockfile();
    let resolved = resolve_from_lock(&lock.packages);
    let sums: Vec<String> = lock.packages.iter().map(|p| p.sha256.clone()).collect();
    let relocked = build_lockfile(&resolved, &sums);
    assert_eq!(relocked, lock);
}

#[test]
fn remove_package_keeps_the_rest() {
    let mut lock = sample_lockfile();
    lock.remove_package("nu-git-utils");
    assert_eq!(lock.version, 1);
    assert_eq!(lock.packages.len(), 1);
    assert_eq!(lock.packages[0].name, "nu-str-extras");

    lock.remove_package("not-there");
    assert_eq!(lock.packages.len(), 1);
}

#[test]
fn resolve_from_lock_drops_only_the_checksum() {
    let lock = sample_lockfile();
    let resolved = resolve_from_lock(&lock.packages);
    assert_eq!(resolved.len(), 2);
    assert_eq!(resolved[0].name, "nu-git-utils");
    assert_eq!(resolved[0].git, "https://github.com/someuser/nu-git-utils");
    assert_eq!(resolved[0].tag.as_deref(), Some("v0.2.0"));
    assert_eq!(resolved[0].rev, "d4e8f1a2b3c4d5e6f7a8b9c0d1e2f3a4b5c6d7e8");
    assert_eq!(resolved[1].name, "nu-str-extras");
}
