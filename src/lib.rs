//! Lifecycle management of per-host SSH key pairs and configuration fragments.
//!
//! The managed root `<home>/.ssh` is modelled as a [`root::ManagedRoot`]: the files below a
//! home directory, each at its lexically normalized path. The three operations work on that
//! model; whoever drives them performs the matching filesystem changes and runs the
//! key-generation tool.
pub mod changes;
pub mod commands;
pub mod config;
pub mod items;
pub mod error;
pub mod guarantees;
pub mod paths;
pub mod root;
pub mod storage;
pub mod text;
pub mod validate;

use vstd::prelude::*;
use crate::commands::generate_host::{GenerateHost, KeyPair, generated, refused};
use crate::commands::list_hosts::{ListHosts, hosts_in, sorted};
use crate::commands::remove_host::RemoveHost;
use crate::config::text_opt;
use crate::error::AppError;
use crate::paths::conf_dir_of;
use crate::root::{ManagedRoot, after_removal, names_root};
use crate::validate::valid_host;

verus! {

/// Generates the assets of `host`: records the key pair that the key-generation tool wrote
/// (`keys`) and the configuration stanza, and returns the public key. Refused, with a
/// validation error and nothing changed, when the host or key type is malformed or an
/// artifact already exists; a failed tool is passed on, with nothing changed.
pub fn generate(
    root: &mut ManagedRoot,
    host: &str,
    key_type: &str,
    user: Option<&str>,
    port: Option<u16>,
    keys: Result<KeyPair, AppError>,
) -> (r: Result<String, AppError>)
    requires
        old(root).wf(),
    ensures
        final(root).home() == old(root).home(),
        final(root).wf(),
        refused(old(root).home(), old(root).files(), host@, key_type@) ==> (r matches Err(e)
            && e is ValidationError),
        !refused(old(root).home(), old(root).files(), host@, key_type@) ==> (match keys {
            Ok(k) => r matches Ok(s) && s@ == k.public_key@ && final(root).files() == generated(
                old(root).home(),
                old(root).files(),
                host@,
                key_type@,
                text_opt(user),
                port,
                k.private_key@,
                k.public_key@,
            ),
            Err(e) => r == Err::<String, AppError>(e),
        }),
        r is Err ==> final(root).files() == old(root).files(),
{
    let command = GenerateHost { host, key_type, user, port };
    command.execute(root, keys)
}

/// The managed hosts, in lexicographic order: one for each `<host>.conf` file directly in
/// the configuration directory. A tree without any gives an empty list.
pub fn list(root: &ManagedRoot) -> (r: Result<Vec<String>, AppError>)
    requires
        root.wf(),
    ensures
        r matches Ok(v) && sorted(v.deep_view()) && v.deep_view().no_duplicates()
            && v.deep_view().to_multiset() == hosts_in(
            conf_dir_of(root.home()),
            root.files(),
        ).to_multiset(),
{
    let command = ListHosts;
    command.execute(root)
}

/// Removes the configuration fragment and key files of `host`; see
/// [`commands::remove_host::RemoveHost::execute`].
pub fn remove(root: &mut ManagedRoot, host: &str) -> (r: Result<(), AppError>)
    requires
        old(root).wf(),
    ensures
        final(root).home() == old(root).home(),
        final(root).wf(),
        r is Ok <==> valid_host(host@) && !names_root(old(root).home(), old(root).files(), host@),
        valid_host(host@) ==> final(root).files() == after_removal(
            old(root).home(),
            old(root).files(),
            host@,
        ),
        valid_host(host@) && names_root(old(root).home(), old(root).files(), host@) ==> (
        r matches Err(e) && e is Io),
        !valid_host(host@) ==> (r matches Err(e) && e is ValidationError && final(root).files()
            == old(root).files()),
{
    let command = RemoveHost { host };
    command.execute(root)
}

} // verus!
