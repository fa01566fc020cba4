use nuance::checksum::FileEntry;
use nuance::config::GlobalConfig;
use nuance::error::NuanceError;
use nuance::installer::{activate_script, build_lockfile, global_install_plan, install_plan,
    is_global_lockfile_stale, is_lockfile_stale, locked_package, InstallPlan};
use nuance::lockfile::{LockedPackage, Lockfile};
use nuance::manifest::{Dependency, DependencySpec, Manifest, Package};
use nuance::git::{Repo, RepoStore};
use nuance::resolver::{compute_checksum, resolve, ResolvedDep};

fn fixture_manifest(dep_names: &[&str]) -> Manifest {
    Manifest {
        package: Package {
            name: "demo".to_string(),
            version: "0.1.0".to_string(),
            description: None,
            license: None,
            authors: None,
            nu_version: None,
        },
        dependencies: dep_names
            .iter()
            .map(|n| Dependency {
                name: n.to_string(),
                spec: DependencySpec {
                    git: format!("https://github.com/user/{n}"),
                    tag: Some("v1.0.0".to_string()),
                    rev: None,
                    branch: None,
                },
            })
            .collect(),
    }
}

fn fixture_lock(pkg_names: &[&str]) -> Lockfile {
    Lockfile {
        version: 1,
        packages: pkg_names
            .iter()
            .map(|n| LockedPackage {
                name: n.to_string(),
                git: format!("https://github.com/user/{n}"),
                tag: Some("v1.0.0".to_string()),
                rev: "aaaa000000000000aaaa000000000000aaaa0000".to_string(),
                sha256: "abc123".to_string(),
            })
            .collect(),
    }
}

#[test]
fn writes_activate_overlay_with_modules() {
    let activate = activate_script(&vec!["nu-foo".to_string(), "nu-bar".to_string()]);
    assert!(activate.contains("export use nu-foo *"));
    assert!(activate.contains("export use nu-bar *"));
    assert!(activate.contains("export alias deactivate = overlay hide activate"));
}

#[test]
fn writes_activate_overlay_without_modules() {
    let activate = activate_script(&Vec::new());
    assert!(!activate.lines().any(|line| line.starts_with("export use ")));
    assert!(activate.contains("export alias deactivate = overlay hide activate"));
}

#[test]
fn frozen_install_without_dependencies_writes_activate_overlay() {
    // An empty manifest never reaches the frozen lockfile check: the plan
    // says nothing is declared, and only the activation script is written.
    let manifest = fixture_manifest(&[]);
    match install_plan(&manifest, true, &None).unwrap() {
        InstallPlan::NothingDeclared => {}
        other => panic!("expected no work, got {:?}", plan_label(&other)),
    }
    let activate = activate_script(&Vec::new());
    assert!(!activate.lines().any(|line| line.starts_with("export use ")));
    assert!(activate.contains("export alias deactivate = overlay hide activate"));
}

fn plan_label(plan: &InstallPlan) -> &'static str {
    match plan {
        InstallPlan::NothingDeclared => "nothing declared",
        InstallPlan::UseLock(_) => "use lock",
        InstallPlan::Resolve => "resolve",
    }
}

#[test]
fn frozen_install_demands_a_lockfile() {
    let manifest = fixture_manifest(&["nu-foo"]);
    match install_plan(&manifest, true, &None) {
        Err(NuanceError::Lockfile(m)) => {
            assert_eq!(m, "mod.lock not found (required with --frozen)");
        }
        other => panic!("expected a lockfile error, got {:?}", other.map(|p| plan_label(&p))),
    }

    let config = GlobalConfig {
        modules_dir: None,
        default_git_provider: "github".to_string(),
        dependencies: fixture_manifest(&["nu-foo"]).dependencies,
    };
    match global_install_plan(&config, true, &None) {
        Err(NuanceError::Lockfile(m)) => {
            assert_eq!(m, "config.lock not found (required with --frozen)");
        }
        other => panic!("expected a lockfile error, got {:?}", other.map(|p| plan_label(&p))),
    }
}

#[test]
fn frozen_install_uses_the_lockfile() {
    let manifest = fixture_manifest(&["nu-foo"]);
    let lock = fixture_lock(&["nu-foo"]);
    match install_plan(&manifest, true, &Some(lock)).unwrap() {
        InstallPlan::UseLock(resolved) => {
            assert_eq!(resolved.len(), 1);
            assert_eq!(resolved[0].name, "nu-foo");
            assert_eq!(resolved[0].rev, "aaaa000000000000aaaa000000000000aaaa0000");
        }
        other => panic!("expected the lock to be used, got {:?}", plan_label(&other)),
    }
}

#[test]
fn fresh_and_stale_lockfiles_trigger_resolution() {
    let manifest = fixture_manifest(&["nu-foo", "nu-bar"]);
    match install_plan(&manifest, false, &None).unwrap() {
        InstallPlan::Resolve => {}
        other => panic!("expected a fresh resolve, got {:?}", plan_label(&other)),
    }
    let stale = fixture_lock(&["nu-foo"]);
    match install_plan(&manifest, false, &Some(stale)).unwrap() {
        InstallPlan::Resolve => {}
        other => panic!("expected a fresh resolve, got {:?}", plan_label(&other)),
    }
    let fresh = fixture_lock(&["nu-bar", "nu-foo"]);
    match install_plan(&manifest, false, &Some(fresh)).unwrap() {
        InstallPlan::UseLock(resolved) => assert_eq!(resolved.len(), 2),
        other => panic!("expected the lock to be used, got {:?}", plan_label(&other)),
    }
}

#[test]
fn staleness_compares_name_sets() {
    // Declared {A, B} against locked {A}: stale.
    assert!(is_lockfile_stale(&fixture_manifest(&["a", "b"]), &fixture_lock(&["a"])));
    // Locked {A, B, C} against declared {A, B}: stale.
    assert!(is_lockfile_stale(&fixture_manifest(&["a", "b"]), &fixture_lock(&["a", "b", "c"])));
    // Identical name sets, any internal order: not stale.
    assert!(!is_lockfile_stale(&fixture_manifest(&["a", "b"]), &fixture_lock(&["b", "a"])));
}

#[test]
fn global_staleness_compares_name_sets() {
    let config = GlobalConfig {
        modules_dir: None,
        default_git_provider: "github".to_string(),
        dependencies: fixture_manifest(&["a", "b"]).dependencies,
    };
    assert!(is_global_lockfile_stale(&config, &fixture_lock(&["a"])));
    assert!(!is_global_lockfile_stale(&config, &fixture_lock(&["b", "a"])));
}

#[test]
fn build_lockfile_pairs_checksums_with_packages() {
    let resolved = vec![
        ResolvedDep {
            name: "nu-foo".to_string(),
            git: "https://github.com/user/nu-foo".to_string(),
            tag: Some("v1.0.0".to_string()),
            rev: "aaaa000000000000aaaa000000000000aaaa0000".to_string(),
        },
        ResolvedDep {
            name: "nu-bar".to_string(),
            git: "https://github.com/user/nu-bar".to_string(),
            tag: None,
            rev: "bbbb000000000000bbbb000000000000bbbb0000".to_string(),
        },
    ];
    let sums = vec!["sum-one".to_string(), "sum-two".to_string()];
    let lock = build_lockfile(&resolved, &sums);
    assert_eq!(lock.version, 1);
    assert_eq!(lock.packages.len(), 2);
    assert_eq!(lock.packages[0].name, "nu-foo");
    assert_eq!(lock.packages[0].sha256, "sum-one");
    assert_eq!(lock.packages[1].name, "nu-bar");
    assert_eq!(lock.packages[1].tag, None);
    assert_eq!(lock.packages[1].sha256, "sum-two");

    let single = locked_package(&resolved[0], "s".to_string());
    assert_eq!(single.name, "nu-foo");
    assert_eq!(single.sha256, "s");
}

#[test]
fn install_produces_lock_matching_checksums() {
    // A one-dependency end-to-end pass at the value level: resolve against a
    // fixture store, checksum the exported tree, and lock the result.
    let url = "https://github.com/user/foo";
    let commit = "f1e2d3c4b5a69788f1e2d3c4b5a69788f1e2d3c4";
    let store = RepoStore {
        repos: vec![Repo {
            url: url.to_string(),
            tags: vec![("v1.0.0".to_string(), commit.to_string())],
            branches: Vec::new(),
            commits: vec![commit.to_string()],
            manifests: Vec::new(),
        }],
    };
    let roots = vec![Dependency {
        name: "foo".to_string(),
        spec: DependencySpec {
            git: url.to_string(),
            tag: Some("v1.0.0".to_string()),
            rev: None,
            branch: None,
        },
    }];

    let resolved = resolve(&store, &roots).unwrap();
    assert_eq!(resolved.len(), 1);
    assert_eq!(resolved[0].rev, commit);

    let tree = || vec![FileEntry {
        path: b"mod.nu".to_vec(),
        data: b"export def hello [] { 'hi' }\n".to_vec(),
    }];
    let sum = compute_checksum(tree());
    let lock = build_lockfile(&resolved, &vec![sum.clone()]);
    assert_eq!(lock.packages.len(), 1);
    assert_eq!(lock.packages[0].name, "foo");
    assert_eq!(lock.packages[0].rev, commit);
    assert_eq!(lock.packages[0].sha256, sum);
    assert_eq!(lock.packages[0].sha256, compute_checksum(tree()));
}
