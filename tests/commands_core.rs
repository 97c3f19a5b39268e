use ssv::commands::generate_host::KeyPair;
use ssv::error::ErrorKind;
use ssv::generate;
use ssv::paths::SshPaths;
use ssv::root::ManagedRoot;

#[test]
fn generate_with_invalid_host_surfaces_error() {
    let mut root = ManagedRoot::new(SshPaths::new("/home/tester"));
    let keys = KeyPair { private_key: "PRIVATE-ed25519\n".to_string(), public_key: "ssh-ed25519 AAAATESTKEY ed25519@ssv\n".to_string() };
    let err = match generate(&mut root, "invalid/host", "ed25519", None, None, Ok(keys)) {
        Ok(_) => panic!("invalid host should fail"),
        Err(e) => e,
    };
    assert_eq!(err.kind(), ErrorKind::InvalidInput);
}
