use ssv::commands::generate_host::{GenerateHost, KeyPair};
use ssv::paths::SshPaths;
use ssv::root::ManagedRoot;
use ssv::{generate, list, remove};

const HOME: &str = "/home/tester";

#[test]
fn end_to_end_generate_list_remove_cycle() {
    let mut root = ManagedRoot::new(SshPaths::new(HOME));

    let command = GenerateHost { host: "workflow.test", key_type: "ed25519", user: None, port: None };
    command.check(&root).unwrap();
    let keys = KeyPair {
        private_key: "PRIVATE-ed25519\n".to_string(),
        public_key: "ssh-ed25519 AAAATESTKEY ed25519@ssv\n".to_string(),
    };
    generate(&mut root, "workflow.test", "ed25519", None, None, Ok(keys)).unwrap();

    let hosts = list(&root).unwrap();
    assert!(hosts.iter().any(|h| h.contains("workflow.test")));

    let pub_key = format!("{HOME}/.ssh/id_ed25519_workflow.test.pub");
    assert!(root.contains(&pub_key), "Public key should exist prior to removal");

    remove(&mut root, "workflow.test").unwrap();

    assert!(!root.contains(&format!("{HOME}/.ssh/conf.d/workflow.test.conf")));
    assert!(!root.contains(&pub_key));
    assert!(!root.contains(&format!("{HOME}/.ssh/id_ed25519_workflow.test")));
}
