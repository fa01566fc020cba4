use nuance::config::GlobalConfig;
use nuance::config::{global_config_dir, global_config_path, global_lock_path,
    normalize_provider_base_url};

fn config_with_provider(provider: &str) -> GlobalConfig {
    GlobalConfig {
        modules_dir: None,
        default_git_provider: provider.to_string(),
        dependencies: Vec::new(),
    }
}

#[test]
fn modules_dir_custom() {
    let config = GlobalConfig {
        modules_dir: Some("/custom/modules".to_string()),
        default_git_provider: "github".to_string(),
        dependencies: Vec::new(),
    };
    assert_eq!(config.modules_dir().unwrap(), "/custom/modules".to_string());
}

#[test]
fn modules_dir_default() {
    let config = GlobalConfig {
        modules_dir: None,
        default_git_provider: "github".to_string(),
        dependencies: Vec::new(),
    };
    let dir = config.modules_dir().unwrap();
    // Should end with nushell/vendor/nuance_modules
    assert!(dir.ends_with("nushell/vendor/nuance_modules"));
}

#[test]
fn config_dir_paths() {
    // These should not error on any platform with a home directory
    let dir = global_config_dir().unwrap();
    assert!(dir.ends_with("nuance"));

    let path = global_config_path().unwrap();
    assert!(path.ends_with("nuance/config.toml"));

    let lock = global_lock_path().unwrap();
    assert!(lock.ends_with("nuance/config.lock"));
}

#[test]
fn default_provider_base_url_resolves_known_aliases() {
    let mut config = GlobalConfig::default();
    assert_eq!(config.default_git_provider_base_url().unwrap(), "https://github.com");

    config.default_git_provider = "gitlab".to_string();
    assert_eq!(config.default_git_provider_base_url().unwrap(), "https://gitlab.com");
}

#[test]
fn default_provider_base_url_supports_custom_domain() {
    let config = GlobalConfig {
        modules_dir: None,
        default_git_provider: "git.example.com".to_string(),
        dependencies: Vec::new(),
    };
    assert_eq!(config.default_git_provider_base_url().unwrap(), "https://git.example.com");
}

#[test]
fn default_provider_base_url_rejects_unknown_provider() {
    let config = GlobalConfig {
        modules_dir: None,
        default_git_provider: "not-a-provider".to_string(),
        dependencies: Vec::new(),
    };
    let err = config.default_git_provider_base_url().unwrap_err();
    assert!(err.message().contains("unsupported default_git_provider"));
}

#[test]
fn provider_normalization_trims_and_lowercases() {
    assert_eq!(normalize_provider_base_url("  GitHub/  ").unwrap(), "https://github.com");
    // Trimming strips the whole Unicode white-space class, as str::trim does.
    assert_eq!(normalize_provider_base_url("github\u{00A0}").unwrap(), "https://github.com");
    assert_eq!(normalize_provider_base_url("\u{2003}gitlab\u{000C}").unwrap(), "https://gitlab.com");
    assert_eq!(normalize_provider_base_url("codeberg"), Some("https://codeberg.org".to_string()));
    assert_eq!(normalize_provider_base_url("bitbucket"), Some("https://bitbucket.org".to_string()));
}

#[test]
fn provider_normalization_keeps_explicit_urls() {
    assert_eq!(
        normalize_provider_base_url("https://git.internal.example/"),
        Some("https://git.internal.example".to_string())
    );
    assert_eq!(
        normalize_provider_base_url("http://forge.local"),
        Some("http://forge.local".to_string())
    );
}

#[test]
fn provider_normalization_rejects_unusable_values() {
    assert_eq!(normalize_provider_base_url(""), None);
    assert_eq!(normalize_provider_base_url("   "), None);
    assert_eq!(normalize_provider_base_url("no-dot"), None);
    assert_eq!(normalize_provider_base_url("has space.com x"), None);
    assert_eq!(normalize_provider_base_url("a/b.c"), None);
}

#[test]
fn default_config_values() {
    let config = GlobalConfig::default();
    assert!(config.modules_dir.is_none());
    assert_eq!(config.default_git_provider, "github");
    assert!(config.dependencies.is_empty());
    let other = config_with_provider("github");
    assert_eq!(other.default_git_provider, config.default_git_provider);
}
