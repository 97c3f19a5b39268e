//! Provisioning of a host's key pair and configuration fragment.
use vstd::prelude::*;
use crate::config::{build_stanza, stanza, text_opt};
use crate::error::AppError;
use crate::paths::{PathName, PathView, config_path_of, private_key_of, public_key_of};
use crate::root::{FileView, ManagedRoot, has_file, lemma_without_absent, lookup};
use crate::validate::{valid_host, valid_key_type};

verus! {

/// What the key-generation tool wrote: a private key and its public half.
pub struct KeyPair {
    pub private_key: String,
    pub public_key: String,
}

/// Generation must be refused: the host or the key type is malformed, or one of the
/// three artifacts is already there.
pub open spec fn refused(home: PathView, fs: Seq<FileView>, host: Seq<char>, key_type: Seq<char>) -> bool {
    ||| !valid_host(host)
    ||| !valid_key_type(key_type)
    ||| has_file(fs, private_key_of(home, key_type, host))
    ||| has_file(fs, public_key_of(home, key_type, host))
    ||| has_file(fs, config_path_of(home, host))
}

/// The files after a generation: the key pair, then the configuration stanza.
pub open spec fn generated(
    home: PathView,
    fs: Seq<FileView>,
    host: Seq<char>,
    key_type: Seq<char>,
    user: Option<Seq<char>>,
    port: Option<u16>,
    private_key: Seq<char>,
    public_key: Seq<char>,
) -> Seq<FileView> {
    fs.push((private_key_of(home, key_type, host), private_key)).push(
        (public_key_of(home, key_type, host), public_key),
    ).push((config_path_of(home, host), stanza(host, key_type, user, port)))
}

/// The command that provisions the assets of one host.
pub struct GenerateHost<'a> {
    pub host: &'a str,
    pub key_type: &'a str,
    pub user: Option<&'a str>,
    pub port: Option<u16>,
}

impl<'a> GenerateHost<'a> {
    /// Checks that generation may go ahead, and gives the private key path that the
    /// key-generation tool is to write.
    pub fn check(&self, root: &ManagedRoot) -> (r: Result<PathName, AppError>)
        ensures
            r is Err <==> refused(root.home(), root.files(), self.host@, self.key_type@),
            r matches Err(e) ==> e is ValidationError,
            r matches Ok(p) ==> p@ == private_key_of(root.home(), self.key_type@, self.host@),
    {
        let paths = root.paths();
        match paths.validate_host(self.host) {
            Ok(()) => {},
            Err(e) => return Err(e),
        }
        match paths.validate_key_type(self.key_type) {
            Ok(()) => {},
            Err(e) => return Err(e),
        }
        let (private_key, public_key) = paths.key_paths(self.key_type, self.host);
        let config_path = paths.host_config_path(self.host);
        if root.read(&private_key).is_some() || root.read(&public_key).is_some() || root.read(
            &config_path,
        ).is_some() {
            return Err(
                AppError::validation_error(
                    "Artifacts for host '",
                    self.host,
                    "' already exist; remove them before regenerating",
                ),
            );
        }
        Ok(private_key)
    }

    /// Records the key pair that the tool produced (`keys`) and the configuration stanza,
    /// and gives back the public key. A refused generation, or a failed tool, changes
    /// nothing.
    pub fn execute(&self, root: &mut ManagedRoot, keys: Result<KeyPair, AppError>) -> (r: Result<
        String,
        AppError,
    >)
        requires
            old(root).wf(),
        ensures
            final(root).home() == old(root).home(),
            final(root).wf(),
            refused(old(root).home(), old(root).files(), self.host@, self.key_type@) ==> (
            r matches Err(e) && e is ValidationError),
            !refused(old(root).home(), old(root).files(), self.host@, self.key_type@) ==> (
            match keys {
                Ok(k) => r matches Ok(s) && s@ == k.public_key@ && final(root).files()
                    == generated(
                    old(root).home(),
                    old(root).files(),
                    self.host@,
                    self.key_type@,
                    text_opt(self.user),
                    self.port,
                    k.private_key@,
                    k.public_key@,
                ),
                Err(e) => r == Err::<String, AppError>(e),
            }),
            r is Err ==> final(root).files() == old(root).files(),
    {
        let private_key = match self.check(root) {
            Ok(p) => p,
            Err(e) => return Err(e),
        };
        let pair = match keys {
            Ok(k) => k,
            Err(e) => return Err(e),
        };
        let paths = root.paths();
        let (_, public_key) = paths.key_paths(self.key_type, self.host);
        let config_path = paths.host_config_path(self.host);
        let contents = build_stanza(self.host, self.key_type, self.user, self.port);
        let shown = pair.public_key.clone();
        let ghost fs = root.files();
        let ghost home = root.home();
        let ghost pair_private = pair.private_key@;
        let ghost pair_public = pair.public_key@;
        root.write(private_key, pair.private_key);
        root.write(public_key, pair.public_key);
        root.write(config_path, contents);
        proof {
            let pk = private_key_of(home, self.key_type@, self.host@);
            let qk = public_key_of(home, self.key_type@, self.host@);
            let cp = config_path_of(home, self.host@);
            assert(pk.1.len() == qk.1.len());
            assert(pk.1.last().len() != qk.1.last().len());
            assert(pk != qk);
            assert(cp.1.len() != pk.1.len());
            lemma_without_absent(fs, pk);
            let f1 = fs.push((pk, pair_private));
            assert(f1.drop_last() =~= fs);
            lemma_without_absent(f1, qk);
            let f2 = f1.push((qk, pair_public));
            assert(f2.drop_last() =~= f1);
            assert(cp.1.len() != qk.1.len());
            assert(lookup(f2, cp) == lookup(f1, cp));
            assert(lookup(f1, cp) == lookup(fs, cp));
            lemma_without_absent(f2, cp);
        }
        Ok(shown)
    }
}

} // verus!
