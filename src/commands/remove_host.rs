//! Safe removal of a host's configuration and key files.
use vstd::prelude::*;
use crate::config::{accepted_all, identity_values, parse_identity_files, to_public_key_path, views};
use crate::error::{AppError, ErrorKind};
use crate::paths::{PathView, config_path_of, root_of, strictly_within, within};
use crate::root::{
    FileView, ManagedRoot, after_removal, before_root, guessed, lemma_before_root, lookup,
    names_root, removal_candidates, removed_keys, same_path, without, without_keys,
};
use crate::validate::valid_host;

verus! {

/// Every path of `ps` lies strictly inside `root`.
pub open spec fn all_within(ps: Seq<PathView>, root: PathView) -> bool {
    forall|i: int| 0 <= i < ps.len() ==> strictly_within(#[trigger] ps[i], root)
}

/// Every path of `ps` is `root` or lies inside it.
pub open spec fn all_at_or_below(ps: Seq<PathView>, root: PathView) -> bool {
    forall|i: int| 0 <= i < ps.len() ==> within(#[trigger] ps[i], root)
}

pub proof fn lemma_accepted_within(home: PathView, vs: Seq<Seq<char>>)
    ensures
        all_at_or_below(accepted_all(home, vs), root_of(home)),
    decreases vs.len(),
{
    if vs.len() > 0 {
        lemma_accepted_within(home, vs.drop_last());
    }
}

pub proof fn lemma_guessed_within(root: PathView, fs: Seq<FileView>, host: Seq<char>)
    ensures
        all_within(guessed(root, fs, host), root),
    decreases fs.len(),
{
    if fs.len() > 0 {
        lemma_guessed_within(root, fs.drop_last(), host);
    }
}

/// Every identity file chosen as a candidate is the managed root or lies inside it.
pub proof fn lemma_candidates_within(home: PathView, fs: Seq<FileView>, host: Seq<char>)
    ensures
        all_at_or_below(removal_candidates(home, fs, host), root_of(home)),
{
    lemma_guessed_within(root_of(home), fs, host);
    match lookup(fs, config_path_of(home, host)) {
        Some(c) => lemma_accepted_within(home, identity_values(c)),
        None => {},
    }
}

/// Every key that removal deletes lies strictly inside the managed root.
pub proof fn lemma_removed_within(home: PathView, fs: Seq<FileView>, host: Seq<char>)
    ensures
        all_within(removed_keys(home, fs, host), root_of(home)),
{
    let keys = removal_candidates(home, fs, host);
    let root = root_of(home);
    lemma_candidates_within(home, fs, host);
    assert forall|j: int| 0 <= j < removed_keys(home, fs, host).len() implies strictly_within(
        #[trigger] removed_keys(home, fs, host)[j],
        root,
    ) by {
        lemma_first_root_bound(keys, root);
        let p = keys[j];
        assert(removed_keys(home, fs, host)[j] == p);
        assert(within(p, root));
        assert(p != root);
        if p.1.len() == root.1.len() {
            assert(p.1 =~= root.1);
        }
    }
}

/// The candidates before the first that is `root` are not `root`.
proof fn lemma_first_root_bound(keys: Seq<PathView>, root: PathView)
    ensures
        before_root(keys, root) <= keys.len(),
        forall|j: int| 0 <= j < before_root(keys, root) ==> keys[j] != root,
    decreases keys.len(),
{
    if keys.len() > 0 {
        let d = keys.drop_last();
        lemma_first_root_bound(d, root);
        assert forall|j: int| 0 <= j < before_root(keys, root) implies keys[j] != root by {
            if j < d.len() {
                assert(keys[j] == d[j]);
                if before_root(d, root) >= d.len() {
                } else {
                    assert(j < before_root(d, root));
                }
            }
        }
    }
}



/// The command that removes the assets of one host.
pub struct RemoveHost<'a> {
    pub host: &'a str,
}

impl<'a> RemoveHost<'a> {
    /// Removes the host's configuration fragment, then the key files that it names at or
    /// inside the managed root (or, when it names none, those whose names have the host's
    /// key shape), each with its `.pub` sibling. Files already gone are no error. A key that
    /// is the managed root itself, a directory, cannot be deleted: removal stops there with
    /// an I/O error, the configuration and the keys before it already gone.
    pub fn execute(&self, root: &mut ManagedRoot) -> (r: Result<(), AppError>)
        requires
            old(root).wf(),
        ensures
            final(root).home() == old(root).home(),
            final(root).wf(),
            r is Ok <==> valid_host(self.host@) && !names_root(
                old(root).home(),
                old(root).files(),
                self.host@,
            ),
            valid_host(self.host@) ==> final(root).files() == after_removal(
                old(root).home(),
                old(root).files(),
                self.host@,
            ),
            valid_host(self.host@) && names_root(old(root).home(), old(root).files(), self.host@)
                ==> (r matches Err(e) && e is Io),
            !valid_host(self.host@) ==> (r matches Err(e) && e is ValidationError
                && final(root).files() == old(root).files()),
    {
        match root.paths().validate_host(self.host) {
            Ok(()) => {},
            Err(e) => return Err(e),
        }
        let ghost home = root.home();
        let ghost fs = root.files();
        let ssh_root = root.paths().ssh_root();
        let config_path = root.paths().host_config_path(self.host);
        let mut candidates = match root.read(&config_path) {
            Some(contents) => parse_identity_files(contents.as_str(), root.paths()),
            None => Vec::new(),
        };
        if candidates.len() == 0 {
            candidates = root.guess_identity_files(self.host);
        }
        let ghost keys = views(candidates@);
        assert(keys == removal_candidates(home, fs, self.host@));
        proof {
            lemma_candidates_within(home, fs, self.host@);
        }
        root.delete(&config_path);
        let ghost base = root.files();
        let mut i: usize = 0;
        assert(keys.take(0) =~= Seq::<PathView>::empty());
        while i < candidates.len()
            invariant
                i <= candidates.len(),
                keys == views(candidates@),
                keys == removal_candidates(home, fs, self.host@),
                home == old(root).home(),
                fs == old(root).files(),
                valid_host(self.host@),
                base == without(fs, config_path_of(home, self.host@)),
                root.home() == home,
                root.wf(),
                ssh_root@ == root_of(home),
                all_at_or_below(keys, root_of(home)),
                forall|j: int| 0 <= j < i ==> keys[j] != root_of(home),
                root.files() == without_keys(base, keys.take(i as int)),
            decreases candidates.len() - i,
        {
            let key = &candidates[i];
            if same_path(key, &ssh_root) {
                proof {
                    lemma_before_root(keys, root_of(home), i as int);
                }
                let mut message = "cannot remove the managed root directory ".to_owned();
                message.append(ssh_root.to_text().as_str());
                return Err(AppError::Io { kind: ErrorKind::Other, message });
            }
            assert(within(keys[i as int], root_of(home)));
            root.delete(key);
            match to_public_key_path(key) {
                Some(p) => root.delete(&p),
                None => {},
            }
            proof {
                let ks = keys.take(i + 1);
                assert(ks.drop_last() =~= keys.take(i as int));
                assert(ks.last() == key@);
            }
            i = i + 1;
        }
        proof {
            lemma_before_root(keys, root_of(home), i as int);
        }
        assert(keys.take(i as int) =~= keys);
        Ok(())
    }
}

} // verus!
