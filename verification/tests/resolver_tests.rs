use nuance::error::NuanceError;
use nuance::git::{Repo, RepoStore};
use nuance::manifest::{Dependency, DependencySpec, Manifest, Package};
use nuance::resolver::{resolve, Resolution, ResolvedDep};

fn tag_dep(name: &str, git: &str, tag: &str) -> Dependency {
    Dependency {
        name: name.to_string(),
        spec: DependencySpec {
            git: git.to_string(),
            tag: Some(tag.to_string()),
            rev: None,
            branch: None,
        },
    }
}

fn manifest_with(deps: Vec<Dependency>) -> Manifest {
    Manifest {
        package: Package {
            name: "fixture".to_string(),
            version: "0.1.0".to_string(),
            description: None,
            license: None,
            authors: None,
            nu_version: None,
        },
        dependencies: deps,
    }
}

fn bare_repo(url: &str, tags: Vec<(&str, &str)>, commits: Vec<&str>) -> Repo {
    Repo {
        url: url.to_string(),
        tags: tags.iter().map(|(t, c)| (t.to_string(), c.to_string())).collect(),
        branches: Vec::new(),
        commits: commits.iter().map(|c| c.to_string()).collect(),
        manifests: Vec::new(),
    }
}

#[test]
fn conflict_detection() {
    let resolved = vec![ResolvedDep {
        name: "my-dep".to_string(),
        git: "https://github.com/user/my-dep".to_string(),
        tag: Some("v1.0.0".to_string()),
        rev: "aaaa".to_string(),
    }];

    let deps = vec![tag_dep("my-dep", "https://github.com/user/my-dep", "v2.0.0")];

    assert!(resolved.iter().any(|d| d.name == "my-dep"));
    assert_eq!(deps[0].name, "my-dep");
}

#[test]
fn machine_deduplicates_identical_resolutions() {
    let url = "https://github.com/user/my-dep";
    let roots = vec![tag_dep("my-dep", url, "v1.0.0"), tag_dep("my-dep", url, "v1.0.0")];
    let mut run = Resolution::new(&roots);

    assert!(run.resolve_next("aaaa".to_string()).unwrap());
    assert!(!run.resolve_next("aaaa".to_string()).unwrap());

    let out = run.finish();
    assert_eq!(out.len(), 1);
    assert_eq!(out[0].name, "my-dep");
    assert_eq!(out[0].rev, "aaaa");
}

#[test]
fn machine_reports_conflicts_with_both_revs() {
    let url = "https://github.com/user/my-dep";
    let roots = vec![tag_dep("my-dep", url, "v1.0.0"), tag_dep("my-dep", url, "v2.0.0")];
    let mut run = Resolution::new(&roots);

    assert!(run.resolve_next("aaaa".to_string()).unwrap());
    match run.resolve_next("bbbb".to_string()) {
        Err(NuanceError::Conflict { name, rev_a, rev_b }) => {
            assert_eq!(name, "my-dep");
            assert_eq!(rev_a, "aaaa");
            assert_eq!(rev_b, "bbbb");
        }
        other => panic!("expected a conflict, got {:?}", other),
    }
}

#[test]
fn resolve_single_tagged_dependency() {
    let url = "https://github.com/user/foo";
    let commit = "f1e2d3c4b5a69788f1e2d3c4b5a69788f1e2d3c4";
    let store = RepoStore { repos: vec![bare_repo(url, vec![("v1.0.0", commit)], vec![commit])] };
    let roots = vec![tag_dep("foo", url, "v1.0.0")];

    let out = resolve(&store, &roots).unwrap();
    assert_eq!(out.len(), 1);
    assert_eq!(out[0].name, "foo");
    assert_eq!(out[0].git, url);
    assert_eq!(out[0].tag.as_deref(), Some("v1.0.0"));
    assert_eq!(out[0].rev, commit);
}

#[test]
fn resolve_walks_transitive_dependencies() {
    let root_url = "https://github.com/user/top";
    let leaf_url = "https://github.com/user/leaf";
    let top_commit = "aaaa111122223333aaaa111122223333aaaa1111";
    let leaf_commit = "bbbb111122223333bbbb111122223333bbbb1111";

    let top_manifest = manifest_with(vec![tag_dep("leaf", leaf_url, "v0.1.0")]);
    let top = Repo {
        url: root_url.to_string(),
        tags: vec![("v1.0.0".to_string(), top_commit.to_string())],
        branches: Vec::new(),
        commits: vec![top_commit.to_string()],
        manifests: vec![(top_commit.to_string(), top_manifest)],
    };
    let leaf = bare_repo(leaf_url, vec![("v0.1.0", leaf_commit)], vec![leaf_commit]);
    let store = RepoStore { repos: vec![top, leaf] };

    let roots = vec![tag_dep("top", root_url, "v1.0.0")];
    let out = resolve(&store, &roots).unwrap();
    assert_eq!(out.len(), 2);
    // Sorted by name: leaf before top.
    assert_eq!(out[0].name, "leaf");
    assert_eq!(out[0].rev, leaf_commit);
    assert_eq!(out[1].name, "top");
    assert_eq!(out[1].rev, top_commit);
}

#[test]
fn resolve_deduplicates_diamond_dependencies() {
    let a_url = "https://github.com/user/a";
    let b_url = "https://github.com/user/b";
    let shared_url = "https://github.com/user/shared";
    let a_commit = "aaaa000000000000aaaa000000000000aaaa0000";
    let b_commit = "bbbb000000000000bbbb000000000000bbbb0000";
    let shared_commit = "cccc000000000000cccc000000000000cccc0000";

    let shared_dep = tag_dep("shared", shared_url, "v1.0.0");
    let a = Repo {
        url: a_url.to_string(),
        tags: vec![("v1.0.0".to_string(), a_commit.to_string())],
        branches: Vec::new(),
        commits: vec![a_commit.to_string()],
        manifests: vec![(a_commit.to_string(), manifest_with(vec![shared_dep.clone()]))],
    };
    let b = Repo {
        url: b_url.to_string(),
        tags: vec![("v1.0.0".to_string(), b_commit.to_string())],
        branches: Vec::new(),
        commits: vec![b_commit.to_string()],
        manifests: vec![(b_commit.to_string(), manifest_with(vec![shared_dep.clone()]))],
    };
    let shared = bare_repo(shared_url, vec![("v1.0.0", shared_commit)], vec![shared_commit]);
    let store = RepoStore { repos: vec![a, b, shared] };

    let roots = vec![tag_dep("a", a_url, "v1.0.0"), tag_dep("b", b_url, "v1.0.0")];
    let out = resolve(&store, &roots).unwrap();
    assert_eq!(out.len(), 3);
    assert_eq!(out[0].name, "a");
    assert_eq!(out[1].name, "b");
    assert_eq!(out[2].name, "shared");
    assert_eq!(out[2].rev, shared_commit);
}

#[test]
fn resolve_rejects_diverging_diamond() {
    let a_url = "https://github.com/user/a";
    let b_url = "https://github.com/user/b";
    let shared_url = "https://github.com/user/shared";
    let a_commit = "aaaa000000000000aaaa000000000000aaaa0000";
    let b_commit = "bbbb000000000000bbbb000000000000bbbb0000";
    let shared_v1 = "cccc000000000000cccc000000000000cccc0000";
    let shared_v2 = "dddd000000000000dddd000000000000dddd0000";

    let a = Repo {
        url: a_url.to_string(),
        tags: vec![("v1.0.0".to_string(), a_commit.to_string())],
        branches: Vec::new(),
        commits: vec![a_commit.to_string()],
        manifests: vec![(
            a_commit.to_string(),
            manifest_with(vec![tag_dep("shared", shared_url, "v1.0.0")]),
        )],
    };
    let b = Repo {
        url: b_url.to_string(),
        tags: vec![("v1.0.0".to_string(), b_commit.to_string())],
        branches: Vec::new(),
        commits: vec![b_commit.to_string()],
        manifests: vec![(
            b_commit.to_string(),
            manifest_with(vec![tag_dep("shared", shared_url, "v2.0.0")]),
        )],
    };
    let shared = bare_repo(
        shared_url,
        vec![("v1.0.0", shared_v1), ("v2.0.0", shared_v2)],
        vec![shared_v1, shared_v2],
    );
    let store = RepoStore { repos: vec![a, b, shared] };

    let roots = vec![tag_dep("a", a_url, "v1.0.0"), tag_dep("b", b_url, "v1.0.0")];
    match resolve(&store, &roots) {
        Err(NuanceError::Conflict { name, rev_a, rev_b }) => {
            assert_eq!(name, "shared");
            let mut revs = vec![rev_a, rev_b];
            revs.sort();
            assert_eq!(revs, vec![shared_v1.to_string(), shared_v2.to_string()]);
        }
        other => panic!("expected a conflict, got {:?}", other),
    }
}

#[test]
fn resolve_fails_on_unknown_repository() {
    let store = RepoStore { repos: Vec::new() };
    let roots = vec![tag_dep("foo", "https://github.com/user/foo", "v1.0.0")];
    match resolve(&store, &roots) {
        Err(NuanceError::Git(m)) => assert!(m.contains("repository not found")),
        other => panic!("expected a git error, got {:?}", other),
    }
}
