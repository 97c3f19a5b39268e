use ssv::commands::generate_host::{GenerateHost, KeyPair};
use ssv::config::{build_stanza, parse_identity_files};
use ssv::error::{AppError, ErrorKind};
use ssv::paths::{normalize_path, SshPaths};
use ssv::root::ManagedRoot;
use ssv::storage::{FilesystemStorage, Storage};
use ssv::{generate, list, remove};

const HOME: &str = "/home/tester";

fn stub_keys(key_type: &str) -> KeyPair {
    KeyPair {
        private_key: format!("PRIVATE-{key_type}\n"),
        public_key: format!("ssh-{key_type} AAAATESTKEY {key_type}@ssv\n"),
    }
}

fn fresh_root() -> ManagedRoot {
    ManagedRoot::new(SshPaths::new(HOME))
}

fn generated(root: &mut ManagedRoot, host: &str, key_type: &str) -> Result<String, AppError> {
    generate(root, host, key_type, None, None, Ok(stub_keys(key_type)))
}

fn populated_root() -> ManagedRoot {
    let mut root = fresh_root();
    root.add_file("/home/tester/.ssh/known_hosts", "github.com ssh-ed25519 AAAA\n");
    root.add_file("/home/tester/.bashrc", "export X=1\n");
    root.add_file("/home/tester/.ssh/conf.d/other.conf", "Host other\n");
    root
}

#[test]
fn generate_then_remove_restores_the_tree() {
    let mut root = populated_root();
    let before = root.entries();
    generated(&mut root, "round.trip", "ed25519").unwrap();
    assert_eq!(root.entries().len(), before.len() + 3);
    remove(&mut root, "round.trip").unwrap();
    assert_eq!(root.entries(), before);
}

#[test]
fn generate_with_user_and_port_then_remove_restores_the_tree() {
    let mut root = populated_root();
    let before = root.entries();
    generate(&mut root, "h1", "rsa", Some("deploy"), Some(65535), Ok(stub_keys("rsa"))).unwrap();
    remove(&mut root, "h1").unwrap();
    assert_eq!(root.entries(), before);
}

#[test]
fn removing_twice_equals_removing_once() {
    let mut root = populated_root();
    generated(&mut root, "twice.test", "ed25519").unwrap();
    remove(&mut root, "twice.test").unwrap();
    let once = root.entries();
    remove(&mut root, "twice.test").expect("second removal is a no-op success");
    assert_eq!(root.entries(), once);
}

#[test]
fn removing_an_unknown_host_is_a_silent_no_op() {
    let mut root = populated_root();
    let before = root.entries();
    remove(&mut root, "nobody.test").unwrap();
    assert_eq!(root.entries(), before);
}

#[test]
fn invalid_hosts_are_rejected_without_changes() {
    let paths = SshPaths::new(HOME);
    for bad in ["", "a/b", "a b", "a@b", "tab\there", "ünï"] {
        assert!(matches!(paths.validate_host(bad), Err(AppError::ValidationError(_))), "{bad}");
    }
    let mut root = populated_root();
    let before = root.entries();
    assert!(matches!(remove(&mut root, "../x"), Err(AppError::ValidationError(_))));
    assert!(matches!(generated(&mut root, "bad/host", "ed25519"), Err(AppError::ValidationError(_))));
    assert!(matches!(generated(&mut root, "good.host", "RSA"), Err(AppError::ValidationError(_))));
    assert!(matches!(generated(&mut root, "good.host", ""), Err(AppError::ValidationError(_))));
    assert_eq!(root.entries(), before);
}

#[test]
fn list_on_a_fresh_root_is_empty() {
    let root = fresh_root();
    assert_eq!(list(&root).unwrap(), Vec::<String>::new());
}

#[test]
fn list_is_sorted_and_ignores_other_files() {
    let mut root = fresh_root();
    generated(&mut root, "zeta.test", "ed25519").unwrap();
    generated(&mut root, "alpha.test", "ed25519").unwrap();
    generated(&mut root, "Beta.test", "rsa").unwrap();
    root.add_file("/home/tester/.ssh/conf.d/notes.txt", "x");
    root.add_file("/home/tester/.ssh/conf.d/.conf", "x");
    root.add_file("/home/tester/.ssh/conf.d/nested/deep.conf", "x");
    assert_eq!(list(&root).unwrap(), vec!["Beta.test", "alpha.test", "zeta.test"]);
}

#[test]
fn generated_stanza_has_exactly_the_expected_lines() {
    let mut root = fresh_root();
    let shown = generate(&mut root, "github.com", "ed25519", Some("git"), Some(2222), Ok(stub_keys("ed25519")))
        .unwrap();
    assert_eq!(shown, "ssh-ed25519 AAAATESTKEY ed25519@ssv\n");
    assert_eq!(
        root.file("/home/tester/.ssh/conf.d/github.com.conf").unwrap(),
        "Host github.com\nHostName github.com\nUser git\nPort 2222\nIdentityFile ~/.ssh/id_ed25519_github.com\nIdentitiesOnly yes\n"
    );
    assert_eq!(root.file("/home/tester/.ssh/id_ed25519_github.com.pub").unwrap(), shown);
}

#[test]
fn stanza_without_user_or_port() {
    assert_eq!(
        build_stanza("h", "rsa", None, Some(0)),
        "Host h\nHostName h\nPort 0\nIdentityFile ~/.ssh/id_rsa_h\nIdentitiesOnly yes\n"
    );
    assert_eq!(
        build_stanza("h", "rsa", None, None),
        "Host h\nHostName h\nIdentityFile ~/.ssh/id_rsa_h\nIdentitiesOnly yes\n"
    );
}

#[test]
fn generating_twice_is_refused_and_keeps_the_first_assets() {
    let mut root = fresh_root();
    generated(&mut root, "dup.test", "ed25519").unwrap();
    let first = root.entries();
    let command = GenerateHost { host: "dup.test", key_type: "ed25519", user: None, port: None };
    assert!(matches!(command.check(&root), Err(AppError::ValidationError(_))));
    let again = generate(&mut root, "dup.test", "rsa", None, None, Ok(stub_keys("rsa")));
    assert!(matches!(again, Err(AppError::ValidationError(_))));
    assert_eq!(root.entries(), first);
}

#[test]
fn a_failed_key_generator_changes_nothing() {
    let mut root = fresh_root();
    let failure = AppError::CommandFailed { program: "ssh-keygen".to_string(), status: Some(1) };
    let r = generate(&mut root, "fail.test", "ed25519", None, None, Err(failure));
    match r {
        Err(e) => assert_eq!(e.kind(), ErrorKind::Other),
        Ok(_) => panic!("a failed generator must fail the generation"),
    }
    assert!(root.entries().is_empty());
}

#[test]
fn check_names_the_private_key_path() {
    let root = fresh_root();
    let command = GenerateHost { host: "k.test", key_type: "ecdsa", user: None, port: None };
    let path = command.check(&root).unwrap();
    assert_eq!(path.to_text(), "/home/tester/.ssh/id_ecdsa_k.test");
}

#[test]
fn references_outside_the_root_are_never_deleted() {
    let mut root = fresh_root();
    for p in ["/home/tester/outside.key", "/etc/passwd", "/home/tester/.ssh.pub", "/home/tester/.ssh/../x"] {
        root.add_file(p, "keep");
    }
    root.add_file(
        "/home/tester/.ssh/conf.d/evil.conf",
        "Host evil\nIdentityFile ../outside.key\nIdentityFile ~/../../etc/passwd\nIdentityFile /etc/passwd\nIdentityFile ~/.ssh/../x\n",
    );
    remove(&mut root, "evil").unwrap();
    assert!(root.contains("/home/tester/outside.key"));
    assert!(root.contains("/etc/passwd"));
    assert!(root.contains("/home/tester/.ssh.pub"));
    assert!(root.contains("/home/tester/x"));
    assert!(!root.contains("/home/tester/.ssh/conf.d/evil.conf"));
}

#[test]
fn a_reference_to_the_root_itself_stops_removal_with_an_io_error() {
    let mut root = fresh_root();
    for p in [
        "/home/tester/.ssh.pub",
        "/home/tester/.ssh/id_first",
        "/home/tester/.ssh/id_first.pub",
        "/home/tester/.ssh/id_later",
        "/home/tester/.ssh/id_ed25519_stop.test",
    ] {
        root.add_file(p, "keep");
    }
    root.add_file(
        "/home/tester/.ssh/conf.d/stop.test.conf",
        "Host stop.test\nIdentityFile ~/.ssh/id_first\nIdentityFile .\nIdentityFile ~/.ssh/id_later\n",
    );
    match remove(&mut root, "stop.test") {
        Err(AppError::Io { kind, .. }) => assert_eq!(kind, ErrorKind::Other),
        _ => panic!("naming the root itself must fail removal"),
    }
    assert!(!root.contains("/home/tester/.ssh/conf.d/stop.test.conf"));
    assert!(!root.contains("/home/tester/.ssh/id_first"));
    assert!(!root.contains("/home/tester/.ssh/id_first.pub"));
    assert!(root.contains("/home/tester/.ssh/id_later"));
    assert!(root.contains("/home/tester/.ssh.pub"));
    // no fallback to the name pattern
    assert!(root.contains("/home/tester/.ssh/id_ed25519_stop.test"));
}

#[test]
fn parsing_keeps_a_reference_to_the_root_itself() {
    let paths = SshPaths::new(HOME);
    for text in ["IdentityFile ~/.ssh\n", "IdentityFile .\n", "IdentityFile \"\"\n", "IdentityFile ~/.ssh/keys/..\n"] {
        let found = parse_identity_files(text, &paths);
        let texts: Vec<String> = found.iter().map(|p| p.to_text()).collect();
        assert_eq!(texts, vec!["/home/tester/.ssh"], "{text}");
    }
}

#[test]
fn validation_messages_name_the_offending_value() {
    let paths = SshPaths::new(HOME);
    match paths.validate_host("bad/host") {
        Err(AppError::ValidationError(m)) => assert!(m.contains("'bad/host'")),
        _ => panic!("expected a validation error"),
    }
    match paths.validate_key_type("RSA") {
        Err(AppError::ValidationError(m)) => assert!(m.contains("'RSA'")),
        _ => panic!("expected a validation error"),
    }
    let mut root = fresh_root();
    generated(&mut root, "twice.example", "ed25519").unwrap();
    match generated(&mut root, "twice.example", "ed25519") {
        Err(AppError::ValidationError(m)) => assert!(m.contains("'twice.example'")),
        _ => panic!("expected a validation error"),
    }
}

#[test]
fn quoted_relative_and_mixed_case_references_are_followed() {
    let mut root = fresh_root();
    for p in ["/home/tester/.ssh/id_custom", "/home/tester/.ssh/id_custom.pub", "/home/tester/.ssh/rel", "/home/tester/.ssh/keys/k2", "/home/tester/.ssh/id_x_q.test"] {
        root.add_file(p, "k");
    }
    root.add_file(
        "/home/tester/.ssh/conf.d/q.test.conf",
        "Host q.test\n  identityfile \"~/.ssh/id_custom\"\nIDENTITYFILE rel\r\nIdentityFile ./keys/./k2\n",
    );
    remove(&mut root, "q.test").unwrap();
    assert!(!root.contains("/home/tester/.ssh/id_custom"));
    assert!(!root.contains("/home/tester/.ssh/id_custom.pub"));
    assert!(!root.contains("/home/tester/.ssh/rel"));
    assert!(!root.contains("/home/tester/.ssh/keys/k2"));
    // the configuration named keys, so the name pattern is not consulted
    assert!(root.contains("/home/tester/.ssh/id_x_q.test"));
}

#[test]
fn without_configuration_the_name_pattern_decides() {
    let mut root = fresh_root();
    for p in [
        "/home/tester/.ssh/id_rsa_g.test",
        "/home/tester/.ssh/id_rsa_g.test.pub",
        "/home/tester/.ssh/id_ed25519_g.test",
        "/home/tester/.ssh/id_rsa_xg.test",
        "/home/tester/.ssh/sub/id_rsa_g.test",
    ] {
        root.add_file(p, "k");
    }
    remove(&mut root, "g.test").unwrap();
    assert!(!root.contains("/home/tester/.ssh/id_rsa_g.test"));
    assert!(!root.contains("/home/tester/.ssh/id_rsa_g.test.pub"));
    assert!(!root.contains("/home/tester/.ssh/id_ed25519_g.test"));
    assert!(root.contains("/home/tester/.ssh/id_rsa_xg.test"));
    assert!(root.contains("/home/tester/.ssh/sub/id_rsa_g.test"));
}

#[test]
fn parsing_keeps_only_references_inside_the_root() {
    let paths = SshPaths::new("/home/tester/");
    let found = parse_identity_files(
        "IdentityFile ~/.ssh/a\nIdentityFile\nUser x\nIdentityFile /home/tester/.ssh/b extra\nIdentityFile /tmp/c\n",
        &paths,
    );
    let texts: Vec<String> = found.iter().map(|p| p.to_text()).collect();
    assert_eq!(texts, vec!["/home/tester/.ssh/a", "/home/tester/.ssh/b"]);
}

#[test]
fn normalization_is_lexical() {
    assert_eq!(normalize_path("/a/./b/../c").to_text(), "/a/c");
    assert_eq!(normalize_path("/..").to_text(), "/");
    assert_eq!(normalize_path("a//b/").to_text(), "a/b");
    assert_eq!(normalize_path("../x").to_text(), "x");
    assert_eq!(normalize_path("").to_text(), "");
}

#[test]
fn paths_below_home() {
    let paths = SshPaths::new("/home/tester");
    assert_eq!(paths.ssh_root().to_text(), "/home/tester/.ssh");
    assert_eq!(paths.conf_dir().to_text(), "/home/tester/.ssh/conf.d");
    assert_eq!(paths.host_config_path("h").to_text(), "/home/tester/.ssh/conf.d/h.conf");
    let (private, public) = paths.key_paths("ed25519", "h");
    assert_eq!(private.to_text(), "/home/tester/.ssh/id_ed25519_h");
    assert_eq!(public.to_text(), "/home/tester/.ssh/id_ed25519_h.pub");
}

#[test]
fn error_kinds() {
    assert_eq!(AppError::ConfigError("x".to_string()).kind(), ErrorKind::InvalidInput);
    assert_eq!(AppError::ValidationError("x".to_string()).kind(), ErrorKind::InvalidInput);
    assert_eq!(AppError::HostNotFound("x".to_string()).kind(), ErrorKind::NotFound);
    assert_eq!(AppError::ItemNotFound("x".to_string()).kind(), ErrorKind::NotFound);
    assert_eq!(
        AppError::Io { kind: ErrorKind::PermissionDenied, message: "x".to_string() }.kind(),
        ErrorKind::PermissionDenied
    );
}

#[test]
fn listed_items_appear_once_each() {
    let mut storage = FilesystemStorage::new_default(HOME);
    storage.add_item("b", "1").unwrap();
    storage.add_item("a", "2").unwrap();
    storage.add_item("b", "3").unwrap();
    assert_eq!(storage.list_items().unwrap(), vec!["a", "b"]);
}

#[test]
fn item_identifiers_follow_the_unicode_alphanumeric_class() {
    assert!(FilesystemStorage::is_id_valid("élan-2"));
    assert!(FilesystemStorage::is_id_valid("日本"));
    assert!(!FilesystemStorage::is_id_valid("a/b"));
    assert!(!FilesystemStorage::is_id_valid("a.b"));
    assert!(!FilesystemStorage::is_id_valid(""));
    let mut storage = FilesystemStorage::new_default(HOME);
    assert!(matches!(storage.add_item("../up", "x"), Err(AppError::ConfigError(_))));
    assert!(matches!(storage.delete_item("bad id"), Err(AppError::ConfigError(_))));
}

#[test]
fn adding_an_item_again_replaces_its_content() {
    let mut storage = FilesystemStorage::new_default(HOME);
    storage.add_item("one", "a").unwrap();
    storage.add_item("one", "b").unwrap();
    assert_eq!(storage.list_items().unwrap(), vec!["one"]);
    assert_eq!(storage.content("one"), Some("b".to_string()));
}

#[test]
fn changes_name_what_went_and_what_came() {
    let mut root = fresh_root();
    root.add_file("/home/tester/.ssh/id_rsa_old.test", "k");
    let before = root.entries();
    generated(&mut root, "new.test", "ed25519").unwrap();
    remove(&mut root, "old.test").unwrap();
    let (gone, came) = ssv::changes::changes(&before, &root.entries());
    assert_eq!(gone, vec!["/home/tester/.ssh/id_rsa_old.test".to_string()]);
    let came_paths: Vec<&str> = came.iter().map(|(p, _)| p.as_str()).collect();
    assert_eq!(
        came_paths,
        vec![
            "/home/tester/.ssh/id_ed25519_new.test",
            "/home/tester/.ssh/id_ed25519_new.test.pub",
            "/home/tester/.ssh/conf.d/new.test.conf",
        ]
    );
}
