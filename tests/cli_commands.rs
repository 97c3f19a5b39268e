use ssv::commands::generate_host::{GenerateHost, KeyPair};
use ssv::error::AppError;
use ssv::paths::SshPaths;
use ssv::root::ManagedRoot;
use ssv::{generate, list, remove};

const HOME: &str = "/home/tester";

fn stub_keys(key_type: &str) -> KeyPair {
    KeyPair {
        private_key: format!("PRIVATE-{key_type}\n"),
        public_key: format!("ssh-{key_type} AAAATESTKEY {key_type}@ssv\n"),
    }
}

fn run_generate(
    root: &mut ManagedRoot,
    host: &str,
    key_type: &str,
    user: Option<&str>,
    port: Option<u16>,
) -> Result<String, AppError> {
    let command = GenerateHost { host, key_type, user, port };
    command.check(root)?;
    generate(root, host, key_type, user, port, Ok(stub_keys(key_type)))
}

fn host_config_path(host: &str) -> String {
    format!("{HOME}/.ssh/conf.d/{host}.conf")
}

fn private_key_path(key_type: &str, host: &str) -> String {
    format!("{HOME}/.ssh/id_{key_type}_{host}")
}

fn config_contains(root: &ManagedRoot, host: &str, needle: &str) -> bool {
    root.file(&host_config_path(host)).expect("Config not readable").contains(needle)
}

#[test]
fn generate_command_provisions_assets() {
    let mut root = ManagedRoot::new(SshPaths::new(HOME));

    let public_key = run_generate(&mut root, "github.com", "ed25519", Some("git"), Some(2222))
        .expect("generate should succeed");
    assert!(public_key.contains("ssh-ed25519 AAAATESTKEY ed25519@ssv"));

    assert!(root.contains(&host_config_path("github.com")), "Config file should be created");
    assert!(config_contains(&root, "github.com", "Host github.com"));
    assert!(config_contains(&root, "github.com", "User git"));
    assert!(config_contains(&root, "github.com", "Port 2222"));

    let private_key = private_key_path("ed25519", "github.com");
    assert!(root.contains(&private_key), "Private key should be created");
    let contents = root.file(&private_key).expect("Failed to read private key");
    assert!(contents.contains("PRIVATE-ed25519"));
}

#[test]
fn list_command_outputs_hosts() {
    let mut root = ManagedRoot::new(SshPaths::new(HOME));

    run_generate(&mut root, "alpha.test", "ed25519", None, None).unwrap();
    run_generate(&mut root, "beta.test", "rsa", None, None).unwrap();

    let hosts = list(&root).unwrap();
    assert!(hosts.iter().any(|h| h == "alpha.test") && hosts.iter().any(|h| h == "beta.test"));
}

#[test]
fn remove_command_cleans_up_assets() {
    let mut root = ManagedRoot::new(SshPaths::new(HOME));

    run_generate(&mut root, "cleanup.test", "ed25519", None, None).unwrap();

    let config = host_config_path("cleanup.test");
    assert!(root.contains(&config), "Config should exist before removal");

    remove(&mut root, "cleanup.test").unwrap();

    assert!(!root.contains(&config), "Config should be removed");
    let private_key = private_key_path("ed25519", "cleanup.test");
    assert!(!root.contains(&private_key), "Private key should be removed");
}
