use nuance::error::NuanceError;
use nuance::git::{cache_dir, default_branch, latest_tag, repo_name_from_url, resolve_ref,
    url_to_dirname, RefKind, Repo};

fn repo_with_refs() -> Repo {
    Repo {
        url: "https://github.com/user/nu-utils".to_string(),
        tags: vec![
            ("v0.1.0".to_string(), "1111aaaa1111aaaa1111aaaa1111aaaa1111aaaa".to_string()),
            ("v0.2.0".to_string(), "2222bbbb2222bbbb2222bbbb2222bbbb2222bbbb".to_string()),
        ],
        branches: vec![("main".to_string(), "3333cccc3333cccc3333cccc3333cccc3333cccc".to_string())],
        commits: vec![
            "1111aaaa1111aaaa1111aaaa1111aaaa1111aaaa".to_string(),
            "2222bbbb2222bbbb2222bbbb2222bbbb2222bbbb".to_string(),
            "3333cccc3333cccc3333cccc3333cccc3333cccc".to_string(),
        ],
        manifests: Vec::new(),
    }
}

#[test]
fn repo_names_from_urls() {
    assert_eq!(repo_name_from_url("https://github.com/user/nu-utils").as_deref(), Some("nu-utils"));
    assert_eq!(
        repo_name_from_url("https://github.com/user/nu-utils.git").as_deref(),
        Some("nu-utils")
    );
    assert_eq!(
        repo_name_from_url("https://github.com/user/nu-utils/").as_deref(),
        Some("nu-utils")
    );
    assert_eq!(repo_name_from_url("nu-utils").as_deref(), Some("nu-utils"));
}

#[test]
fn url_to_dirname_flattens_separators() {
    assert_eq!(
        url_to_dirname("https://github.com/user/nu-utils"),
        "https_github_com_user_nu-utils"
    );
    assert_eq!(url_to_dirname("a/b\\c.d"), "a_b_c_d");
}

#[test]
fn cache_dir_is_under_the_platform_cache() {
    let dir = cache_dir().unwrap();
    assert!(dir.ends_with("/nuance/git"));
}

#[test]
fn ref_kind_priority() {
    let tag = Some("v1".to_string());
    let rev = Some("abc".to_string());
    let branch = Some("main".to_string());
    assert_eq!(RefKind::from_spec(&tag, &rev, &None), RefKind::Rev);
    assert_eq!(RefKind::from_spec(&tag, &None, &branch), RefKind::Tag);
    assert_eq!(RefKind::from_spec(&None, &None, &branch), RefKind::Branch);
}

#[test]
fn resolve_ref_peels_tags_and_branches() {
    let repo = repo_with_refs();
    assert_eq!(
        resolve_ref(&repo, "v0.2.0", RefKind::Tag).unwrap(),
        "2222bbbb2222bbbb2222bbbb2222bbbb2222bbbb"
    );
    assert_eq!(
        resolve_ref(&repo, "main", RefKind::Branch).unwrap(),
        "3333cccc3333cccc3333cccc3333cccc3333cccc"
    );
    assert_eq!(
        resolve_ref(&repo, "1111aaaa1111aaaa1111aaaa1111aaaa1111aaaa", RefKind::Rev).unwrap(),
        "1111aaaa1111aaaa1111aaaa1111aaaa1111aaaa"
    );
}

#[test]
fn resolve_ref_misses_are_fatal() {
    let repo = repo_with_refs();
    match resolve_ref(&repo, "v9.9.9", RefKind::Tag) {
        Err(NuanceError::Git(m)) => assert!(m.contains("tag not found")),
        other => panic!("expected a git error, got {:?}", other),
    }
    match resolve_ref(&repo, "develop", RefKind::Branch) {
        Err(NuanceError::Git(m)) => assert!(m.contains("branch not found")),
        other => panic!("expected a git error, got {:?}", other),
    }
    match resolve_ref(&repo, "ffffffffffffffffffffffffffffffffffffffff", RefKind::Rev) {
        Err(NuanceError::Git(m)) => assert!(m.contains("commit not found")),
        other => panic!("expected a git error, got {:?}", other),
    }
}

#[test]
fn latest_tag_is_lexicographically_greatest() {
    let tags = vec!["v0.9.0".to_string(), "v1.0.0".to_string(), "v0.10.0".to_string()];
    assert_eq!(latest_tag(&tags).as_deref(), Some("v1.0.0"));

    // The ordering is plain text, not semantic versioning: "v10..." sorts
    // before "v2...".
    let texty = vec!["v10.0.0".to_string(), "v2.0.0".to_string()];
    assert_eq!(latest_tag(&texty).as_deref(), Some("v2.0.0"));

    assert_eq!(latest_tag(&Vec::new()), None);
}

#[test]
fn default_branch_prefers_main() {
    let both = vec!["master".to_string(), "main".to_string()];
    assert_eq!(default_branch(&both).unwrap(), "main");

    let master_only = vec!["master".to_string()];
    assert_eq!(default_branch(&master_only).unwrap(), "master");

    let neither = vec!["develop".to_string()];
    let err = default_branch(&neither).unwrap_err();
    assert!(err.message().contains("could not determine default branch"));
}
