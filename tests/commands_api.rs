use ssv::commands::generate_host::{GenerateHost, KeyPair};
use ssv::error::AppError;
use ssv::paths::SshPaths;
use ssv::root::ManagedRoot;
use ssv::{generate, list, remove};

const HOME: &str = "/home/tester";

fn fresh_root() -> ManagedRoot {
    ManagedRoot::new(SshPaths::new(HOME))
}

/// The key pair that the stand-in key generator writes for `key_type`.
fn stub_keys(key_type: &str) -> KeyPair {
    KeyPair {
        private_key: format!("PRIVATE-{key_type}\n"),
        public_key: format!("ssh-{key_type} AAAATESTKEY {key_type}@ssv\n"),
    }
}

/// Checks, "runs" the key generator, and records the result, as a caller of the library does.
fn generate_with_stub(
    root: &mut ManagedRoot,
    host: &str,
    key_type: &str,
    user: Option<&str>,
    port: Option<u16>,
) -> Result<String, AppError> {
    let command = GenerateHost { host, key_type, user, port };
    command.check(root)?;
    generate(root, host, key_type, user, port, Ok(stub_keys(key_type)))
}

fn host_config_path(host: &str) -> String {
    format!("{HOME}/.ssh/conf.d/{host}.conf")
}

fn private_key_path(key_type: &str, host: &str) -> String {
    format!("{HOME}/.ssh/id_{key_type}_{host}")
}

#[test]
fn generate_creates_assets_via_library_api() {
    let mut root = fresh_root();
    generate_with_stub(&mut root, "code.test", "ed25519", Some("git"), Some(2222))
        .expect("generate should succeed");

    assert!(root.contains(&host_config_path("code.test")));
    assert!(root.contains(&private_key_path("ed25519", "code.test")));
}

#[test]
fn list_returns_hosts_via_library_api() {
    let mut root = fresh_root();
    generate_with_stub(&mut root, "first.test", "ed25519", None, None).unwrap();
    generate_with_stub(&mut root, "second.test", "rsa", None, None).unwrap();
    let mut hosts = list(&root).expect("list should succeed");
    hosts.sort();
    assert_eq!(hosts, vec!["first.test".to_string(), "second.test".to_string()]);
}

#[test]
fn remove_deletes_assets_via_library_api() {
    let mut root = fresh_root();
    generate_with_stub(&mut root, "remove.test", "ed25519", None, None).unwrap();

    remove(&mut root, "remove.test").expect("remove should succeed");

    assert!(!root.contains(&host_config_path("remove.test")));
    assert!(!root.contains(&private_key_path("ed25519", "remove.test")));
}

#[test]
fn remove_does_not_delete_other_hosts_when_guessing() {
    let mut root = fresh_root();
    generate_with_stub(&mut root, "foo.bar.com", "ed25519", None, None).unwrap();

    let other_key = private_key_path("ed25519", "foo.bar.com");
    assert!(root.contains(&other_key), "expected foo.bar.com key to exist before removal");

    remove(&mut root, "bar.com").expect("remove should tolerate missing config");

    assert!(root.contains(&other_key), "remove for bar.com should not delete foo.bar.com key");
}

#[test]
fn remove_ignores_identity_files_outside_ssh_root() {
    let mut root = fresh_root();

    let outside = format!("{HOME}/outside.key");
    root.add_file(&outside, "outside");

    let config_path = host_config_path("danger");
    root.add_file(&config_path, &format!("Host danger\nIdentityFile {}\nIdentitiesOnly yes\n", outside));

    remove(&mut root, "danger").expect("remove should succeed");

    assert!(root.contains(&outside), "outside identity file should not be removed");
    assert!(!root.contains(&config_path), "config file should be removed");
}
