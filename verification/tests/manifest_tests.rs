use nuance::manifest::{Dependency, DependencySpec, Manifest, Package};

fn plain_package(name: &str, version: &str) -> Package {
    Package {
        name: name.to_string(),
        version: version.to_string(),
        description: None,
        license: None,
        authors: None,
        nu_version: None,
    }
}

fn dep(name: &str, git: &str, tag: Option<&str>, rev: Option<&str>, branch: Option<&str>)
    -> Dependency {
    Dependency {
        name: name.to_string(),
        spec: DependencySpec {
            git: git.to_string(),
            tag: tag.map(|s| s.to_string()),
            rev: rev.map(|s| s.to_string()),
            branch: branch.map(|s| s.to_string()),
        },
    }
}

#[test]
fn reject_no_ref_spec() {
    let manifest = Manifest {
        package: plain_package("bad", "0.1.0"),
        dependencies: vec![dep("broken", "https://github.com/user/broken", None, None, None)],
    };
    let err = manifest.validate().unwrap_err();
    assert!(err.message().contains("must specify one of"));
}

#[test]
fn reject_multiple_ref_specs() {
    let manifest = Manifest {
        package: plain_package("bad", "0.1.0"),
        dependencies: vec![
            dep("broken", "https://github.com/user/broken", Some("v1"), None, Some("main")),
        ],
    };
    let err = manifest.validate().unwrap_err();
    assert!(err.message().contains("specify only one of"));
}

#[test]
fn reject_empty_name() {
    let manifest = Manifest { package: plain_package("", "0.1.0"), dependencies: Vec::new() };
    let err = manifest.validate().unwrap_err();
    assert!(err.message().contains("name cannot be empty"));
}

#[test]
fn reject_empty_version() {
    let manifest = Manifest { package: plain_package("good", ""), dependencies: Vec::new() };
    let err = manifest.validate().unwrap_err();
    assert!(err.message().contains("version cannot be empty"));
}

#[test]
fn reject_duplicate_dependency_names() {
    let manifest = Manifest {
        package: plain_package("good", "0.1.0"),
        dependencies: vec![
            dep("twice", "https://github.com/user/a", Some("v1"), None, None),
            dep("twice", "https://github.com/user/b", Some("v2"), None, None),
        ],
    };
    let err = manifest.validate().unwrap_err();
    assert!(err.message().contains("declared more than once"));
}

#[test]
fn accept_valid_manifest() {
    let manifest = Manifest {
        package: plain_package("my-module", "0.3.1"),
        dependencies: vec![
            dep("nu-git-utils", "https://github.com/someuser/nu-git-utils", Some("v0.2.0"), None,
                None),
            dep("nu-str-extras", "https://github.com/someuser/nu-str-extras", None, None,
                Some("main")),
        ],
    };
    assert!(manifest.validate().is_ok());
}

#[test]
fn spec_validation_counts_refs() {
    let one = DependencySpec {
        git: "https://github.com/user/repo".to_string(),
        tag: Some("v1".to_string()),
        rev: None,
        branch: None,
    };
    assert!(one.validate("x").is_ok());

    let none = DependencySpec {
        git: "https://github.com/user/repo".to_string(),
        tag: None,
        rev: None,
        branch: None,
    };
    let err = none.validate("x").unwrap_err();
    assert_eq!(
        err.message(),
        "manifest error: dependency 'x': must specify one of 'tag', 'rev', or 'branch'"
    );

    let three = DependencySpec {
        git: "https://github.com/user/repo".to_string(),
        tag: Some("v1".to_string()),
        rev: Some("abc".to_string()),
        branch: Some("main".to_string()),
    };
    let err = three.validate("x").unwrap_err();
    assert_eq!(
        err.message(),
        "manifest error: dependency 'x': specify only one of 'tag', 'rev', or 'branch'"
    );
}

#[test]
fn ref_spec_prefers_rev_then_tag_then_branch() {
    let with_rev = DependencySpec {
        git: "g".to_string(),
        tag: None,
        rev: Some("abc123".to_string()),
        branch: None,
    };
    assert_eq!(with_rev.ref_spec(), "abc123");

    let with_tag =
        DependencySpec { git: "g".to_string(), tag: Some("v1".to_string()), rev: None, branch: None };
    assert_eq!(with_tag.ref_spec(), "v1");

    let with_branch = DependencySpec {
        git: "g".to_string(),
        tag: None,
        rev: None,
        branch: Some("main".to_string()),
    };
    assert_eq!(with_branch.ref_spec(), "main");
}
