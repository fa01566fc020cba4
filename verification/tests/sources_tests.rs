use nuance::config::GlobalConfig;
use nuance::sources::{auto_detect_dep_spec, is_git_url, is_repo_shorthand,
    normalize_dependency_source};

fn provider_config(provider: &str) -> GlobalConfig {
    GlobalConfig {
        modules_dir: None,
        default_git_provider: provider.to_string(),
        dependencies: Vec::new(),
    }
}

#[test]
fn normalize_dependency_source_passes_through_urls() {
    let https = normalize_dependency_source("https://example.com/team/repo", None).unwrap();
    assert_eq!(https, "https://example.com/team/repo");

    let ssh = normalize_dependency_source("git@github.com:user/repo.git", None).unwrap();
    assert_eq!(ssh, "git@github.com:user/repo.git");
}

#[test]
fn normalize_dependency_source_expands_repo_shorthand() {
    let config = provider_config("github");
    let provider = config.default_git_provider_base_url().unwrap();
    let expanded =
        normalize_dependency_source("freepicheep/nu-salesforce", Some(provider.as_str())).unwrap();
    assert_eq!(expanded, "https://github.com/freepicheep/nu-salesforce");
}

#[test]
fn normalize_dependency_source_uses_custom_provider() {
    let config = provider_config("gitlab");
    let provider = config.default_git_provider_base_url().unwrap();
    let expanded = normalize_dependency_source("group/repo", Some(provider.as_str())).unwrap();
    assert_eq!(expanded, "https://gitlab.com/group/repo");
}

#[test]
fn normalize_dependency_source_rejects_invalid_input() {
    let err = normalize_dependency_source("just-a-repo", None).unwrap_err();
    assert!(err.message().contains("owner/repo shorthand"));
}

#[test]
fn normalize_dependency_source_requires_provider_for_shorthand() {
    let err = normalize_dependency_source("owner/repo", None).unwrap_err();
    assert!(err.message().contains("default git provider"));
}

#[test]
fn normalize_dependency_source_rejects_empty_input() {
    let err = normalize_dependency_source("   ", None).unwrap_err();
    assert!(err.message().contains("cannot be empty"));
}

#[test]
fn git_url_detection() {
    assert!(is_git_url("https://github.com/user/repo"));
    assert!(is_git_url("ssh://host/repo"));
    assert!(is_git_url("git@github.com:user/repo.git"));
    assert!(!is_git_url("owner/repo"));
    assert!(!is_git_url("plain-name"));
}

#[test]
fn repo_shorthand_detection() {
    assert!(is_repo_shorthand("owner/repo"));
    assert!(!is_repo_shorthand("owner"));
    assert!(!is_repo_shorthand("owner/"));
    assert!(!is_repo_shorthand("/repo"));
    assert!(!is_repo_shorthand("a/b/c"));
    assert!(!is_repo_shorthand("ow ner/repo"));
}

#[test]
fn shorthand_rejects_any_whitespace_character() {
    // The whole Unicode white-space class counts, not just ASCII blanks.
    assert!(!is_repo_shorthand("a\u{000B}b/c"));
    assert!(!is_repo_shorthand("owner/re\u{00A0}po"));
    assert!(!is_repo_shorthand("owner/re\u{2009}po"));
    // Each of those offending characters is whitespace by std's reckoning.
    assert!('\u{000B}'.is_whitespace() && '\u{00A0}'.is_whitespace() && '\u{2009}'.is_whitespace());
}

#[test]
fn auto_detect_prefers_explicit_refs() {
    let spec = auto_detect_dep_spec(
        "https://github.com/user/nu-utils",
        Some("v1.2.3".to_string()),
        None,
        None,
        &Vec::new(),
        &Vec::new(),
    )
    .unwrap();
    assert_eq!(spec.git, "https://github.com/user/nu-utils");
    assert_eq!(spec.tag.as_deref(), Some("v1.2.3"));
    assert!(spec.rev.is_none() && spec.branch.is_none());
}

#[test]
fn auto_detect_uses_latest_tag() {
    let tags = vec!["v0.9.0".to_string(), "v1.0.0".to_string(), "v0.2.0".to_string()];
    let spec = auto_detect_dep_spec(
        "https://github.com/user/nu-utils",
        None,
        None,
        None,
        &tags,
        &Vec::new(),
    )
    .unwrap();
    assert_eq!(spec.tag.as_deref(), Some("v1.0.0"));
}

#[test]
fn auto_detect_falls_back_to_default_branch() {
    let branches = vec!["develop".to_string(), "master".to_string()];
    let spec = auto_detect_dep_spec(
        "https://github.com/user/nu-utils",
        None,
        None,
        None,
        &Vec::new(),
        &branches,
    )
    .unwrap();
    assert_eq!(spec.branch.as_deref(), Some("master"));

    let none: Vec<String> = Vec::new();
    let err = auto_detect_dep_spec(
        "https://github.com/user/nu-utils",
        None,
        None,
        None,
        &Vec::new(),
        &none,
    )
    .unwrap_err();
    assert!(err.message().contains("could not determine default branch"));
}
