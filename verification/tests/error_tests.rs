use nuance::error::NuanceError;

#[test]
fn error_messages_name_their_subsystem() {
    assert_eq!(NuanceError::Manifest("bad".to_string()).message(), "manifest error: bad");
    assert_eq!(NuanceError::Lockfile("gone".to_string()).message(), "lockfile error: gone");
    assert_eq!(NuanceError::Git("refused".to_string()).message(), "git error: refused");
    assert_eq!(NuanceError::Config("odd".to_string()).message(), "config error: odd");
    assert_eq!(
        NuanceError::NoManifest("/some/dir".to_string()).message(),
        "no mod.toml found in /some/dir"
    );
    assert_eq!(NuanceError::Io("broken pipe".to_string()).message(), "io error: broken pipe");
    assert_eq!(
        NuanceError::TomlParse("line 3".to_string()).message(),
        "toml parse error: line 3"
    );
    assert_eq!(
        NuanceError::TomlSerialize("cycle".to_string()).message(),
        "toml serialize error: cycle"
    );
    assert_eq!(NuanceError::Other("plain".to_string()).message(), "plain");
}

#[test]
fn conflict_message_names_both_revs() {
    let err = NuanceError::Conflict {
        name: "my-dep".to_string(),
        rev_a: "aaaa".to_string(),
        rev_b: "bbbb".to_string(),
    };
    assert_eq!(
        err.message(),
        "dependency conflict: package 'my-dep' required at aaaa and bbbb"
    );
}
