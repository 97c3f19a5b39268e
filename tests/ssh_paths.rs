use ssv::paths::SshPaths;

fn paths() -> SshPaths {
    SshPaths::new(".")
}

#[test]
fn validate_host_accepts_simple_names() {
    let paths = paths();
    assert!(paths.validate_host("github.com").is_ok());
    assert!(paths.validate_host("internal-host_01").is_ok());
}

#[test]
fn validate_host_rejects_invalid_characters() {
    let paths = paths();
    assert!(paths.validate_host("bad/host").is_err());
    assert!(paths.validate_host("spaces host").is_err());
}

#[test]
fn validate_key_type_restricts_charset() {
    let paths = paths();
    assert!(paths.validate_key_type("ed25519").is_ok());
    assert!(paths.validate_key_type("RSA").is_err());
}
