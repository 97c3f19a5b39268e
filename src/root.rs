//! The managed root as a set of files, and the operations of the host-asset lifecycle on it.
use vstd::prelude::*;
use crate::config::{identity_candidates, is_strictly_within, views};
use crate::paths::{
    PathName, PathView, SshPaths, config_path_of, key_prefix, normal_form, normalize_path,
    path_text, pub_suffix, public_sibling, root_of,
};
use crate::text::{ends_with_text, has_prefix, has_suffix, starts_with_text};

verus! {

/// A file as its path and its contents.
pub type FileView = (PathView, Seq<char>);

/// One file of the tree: where it is and what it holds.
pub struct StoredFile {
    pub path: PathName,
    pub contents: String,
}

impl View for StoredFile {
    type V = FileView;

    open spec fn view(&self) -> FileView {
        (self.path@, self.contents@)
    }
}

impl Clone for StoredFile {
    fn clone(&self) -> (r: StoredFile)
        ensures
            r@ == self@,
    {
        StoredFile { path: self.path.clone(), contents: self.contents.clone() }
    }
}

pub open spec fn file_views(v: Seq<StoredFile>) -> Seq<FileView> {
    Seq::new(v.len(), |i: int| v[i]@)
}

/// The contents of the last file at `p`, if any.
pub open spec fn lookup(fs: Seq<FileView>, p: PathView) -> Option<Seq<char>>
    decreases fs.len(),
{
    if fs.len() == 0 {
        None
    } else if fs.last().0 == p {
        Some(fs.last().1)
    } else {
        lookup(fs.drop_last(), p)
    }
}

pub open spec fn has_file(fs: Seq<FileView>, p: PathView) -> bool {
    lookup(fs, p) is Some
}

/// `fs` without the files at `p`, the others in their order.
pub open spec fn without(fs: Seq<FileView>, p: PathView) -> Seq<FileView>
    decreases fs.len(),
{
    if fs.len() == 0 {
        fs
    } else if fs.last().0 == p {
        without(fs.drop_last(), p)
    } else {
        without(fs.drop_last(), p).push(fs.last())
    }
}

/// `p` is a file directly in `root` whose name has the shape of a private key of `host`:
/// `id_` first, `_<host>` last, and not `.pub` last.
pub open spec fn guess_matches(root: PathView, p: PathView, host: Seq<char>) -> bool {
    &&& p.0 == root.0
    &&& p.1.len() == root.1.len() + 1
    &&& p.1.subrange(0, root.1.len() as int) == root.1
    &&& has_prefix(p.1.last(), key_prefix())
    &&& has_suffix(p.1.last(), seq!['_'] + host)
    &&& !has_suffix(p.1.last(), pub_suffix())
}

/// The paths of the files of `fs` that look like private keys of `host`, in order.
pub open spec fn guessed(root: PathView, fs: Seq<FileView>, host: Seq<char>) -> Seq<PathView>
    decreases fs.len(),
{
    if fs.len() == 0 {
        Seq::empty()
    } else if guess_matches(root, fs.last().0, host) {
        guessed(root, fs.drop_last(), host).push(fs.last().0)
    } else {
        guessed(root, fs.drop_last(), host)
    }
}

/// The identity files to delete for `host`: those that its configuration names inside the
/// managed root; failing any, those that the file-name pattern finds.
pub open spec fn removal_candidates(home: PathView, fs: Seq<FileView>, host: Seq<char>) -> Seq<
    PathView,
> {
    let parsed = match lookup(fs, config_path_of(home, host)) {
        Some(c) => identity_candidates(home, c),
        None => Seq::empty(),
    };
    if parsed.len() > 0 {
        parsed
    } else {
        guessed(root_of(home), fs, host)
    }
}

/// `fs` without each key of `keys` and its `.pub` sibling.
pub open spec fn without_keys(fs: Seq<FileView>, keys: Seq<PathView>) -> Seq<FileView>
    decreases keys.len(),
{
    if keys.len() == 0 {
        fs
    } else {
        let f = without_keys(fs, keys.drop_last());
        without(without(f, keys.last()), public_sibling(keys.last()))
    }
}

/// How many of `keys` come before the first that is `root` itself (all of them if none is).
pub open spec fn before_root(keys: Seq<PathView>, root: PathView) -> nat
    decreases keys.len(),
{
    if keys.len() == 0 {
        0
    } else {
        let k = before_root(keys.drop_last(), root);
        if k < keys.len() - 1 {
            k
        } else if keys.last() == root {
            (keys.len() - 1) as nat
        } else {
            keys.len()
        }
    }
}

pub proof fn lemma_before_root(keys: Seq<PathView>, root: PathView, i: int)
    requires
        0 <= i <= keys.len(),
        forall|j: int| 0 <= j < i ==> keys[j] != root,
    ensures
        i <= before_root(keys, root) <= keys.len(),
        i < keys.len() && keys[i] == root ==> before_root(keys, root) == i,
    decreases keys.len(),
{
    if keys.len() > 0 {
        let d = keys.drop_last();
        let i2 = if i == keys.len() {
            i - 1
        } else {
            i
        };
        assert forall|j: int| 0 <= j < i2 implies d[j] != root by {
            assert(d[j] == keys[j]);
        }
        lemma_before_root(d, root, i2);
        if i == keys.len() {
            assert(keys[keys.len() - 1] != root);
        }
        if i < d.len() && keys[i] == root {
            assert(d[i] == root);
        }
    }
}

/// The configuration of `host` names the managed root itself (before removal gets to any
/// other key it names, or not): removal deletes the keys before it and then fails, as a
/// directory is no key file.
pub open spec fn names_root(home: PathView, fs: Seq<FileView>, host: Seq<char>) -> bool {
    let keys = removal_candidates(home, fs, host);
    before_root(keys, root_of(home)) < keys.len()
}

/// The keys that removal deletes (each with its `.pub` sibling): the candidates, up to the
/// first that is the managed root itself.
pub open spec fn removed_keys(home: PathView, fs: Seq<FileView>, host: Seq<char>) -> Seq<
    PathView,
> {
    let keys = removal_candidates(home, fs, host);
    keys.take(before_root(keys, root_of(home)) as int)
}

/// The files that remain once `host` is removed.
pub open spec fn after_removal(home: PathView, fs: Seq<FileView>, host: Seq<char>) -> Seq<
    FileView,
> {
    without_keys(without(fs, config_path_of(home, host)), removed_keys(home, fs, host))
}

/// No two files of `fs` are at the same path.
pub open spec fn distinct_paths(fs: Seq<FileView>) -> bool {
    forall|i: int, j: int| 0 <= i < j < fs.len() ==> fs[i].0 != fs[j].0
}

/// No file of `s` is at `p`.
pub open spec fn absent(s: Seq<FileView>, p: PathView) -> bool {
    forall|i: int| 0 <= i < s.len() ==> (#[trigger] s[i]).0 != p
}

/// Every file of `a` is a file of `b`.
pub open spec fn among(a: Seq<FileView>, b: Seq<FileView>) -> bool {
    forall|i: int| 0 <= i < a.len() ==> b.contains(#[trigger] a[i])
}

pub proof fn lemma_without_among(fs: Seq<FileView>, p: PathView)
    ensures
        among(without(fs, p), fs),
        absent(without(fs, p), p),
    decreases fs.len(),
{
    if fs.len() > 0 {
        let d = fs.drop_last();
        lemma_without_among(d, p);
        let w = without(d, p);
        assert forall|i: int| 0 <= i < w.len() implies fs.contains(#[trigger] w[i]) by {
            let j = choose|j: int| 0 <= j < d.len() && d[j] == w[i];
            assert(fs[j] == w[i]);
        }
        if fs.last().0 != p {
            let r = w.push(fs.last());
            assert forall|i: int| 0 <= i < r.len() implies fs.contains(#[trigger] r[i]) by {
                if i == w.len() {
                    assert(fs[fs.len() - 1] == r[i]);
                } else {
                    assert(r[i] == w[i]);
                }
            }
            assert forall|i: int| 0 <= i < r.len() implies (#[trigger] r[i]).0 != p by {
                if i < w.len() {
                    assert(r[i] == w[i]);
                }
            }
        }
    }
}

pub proof fn lemma_among_trans(a: Seq<FileView>, b: Seq<FileView>, c: Seq<FileView>)
    requires
        among(a, b),
        among(b, c),
    ensures
        among(a, c),
{
    assert forall|i: int| 0 <= i < a.len() implies c.contains(#[trigger] a[i]) by {
        let j = choose|j: int| 0 <= j < b.len() && b[j] == a[i];
        assert(c.contains(b[j]));
    }
}

pub proof fn lemma_without_distinct(fs: Seq<FileView>, p: PathView)
    requires
        distinct_paths(fs),
    ensures
        distinct_paths(without(fs, p)),
    decreases fs.len(),
{
    if fs.len() > 0 {
        let d = fs.drop_last();
        assert(distinct_paths(d)) by {
            assert forall|i: int, j: int| 0 <= i < j < d.len() implies d[i].0 != d[j].0 by {
                assert(d[i] == fs[i] && d[j] == fs[j]);
            }
        }
        lemma_without_distinct(d, p);
        lemma_without_among(d, p);
        let w = without(d, p);
        if fs.last().0 != p {
            let r = w.push(fs.last());
            assert forall|i: int, j: int| 0 <= i < j < r.len() implies r[i].0 != r[j].0 by {
                if j == w.len() {
                    assert(r[i] == w[i]);
                    let k = choose|k: int| 0 <= k < d.len() && d[k] == w[i];
                    assert(fs[k] == d[k]);
                    assert(fs[k].0 != fs[fs.len() - 1].0);
                } else {
                    assert(r[i] == w[i] && r[j] == w[j]);
                }
            }
        }
    }
}

pub proof fn lemma_push_distinct(fs: Seq<FileView>, f: FileView)
    requires
        distinct_paths(fs),
        absent(fs, f.0),
    ensures
        distinct_paths(fs.push(f)),
{
    let r = fs.push(f);
    assert forall|i: int, j: int| 0 <= i < j < r.len() implies r[i].0 != r[j].0 by {
        assert(r[i] == fs[i]);
        if j < fs.len() {
            assert(r[j] == fs[j]);
        }
    }
}

pub proof fn lemma_without_absent(fs: Seq<FileView>, p: PathView)
    requires
        !has_file(fs, p),
    ensures
        without(fs, p) == fs,
    decreases fs.len(),
{
    if fs.len() > 0 {
        lemma_without_absent(fs.drop_last(), p);
        assert(fs.drop_last().push(fs.last()) =~= fs);
    }
}

/// `r` lists the files `fs` in order, each as its path text and its contents.
pub open spec fn listed(r: Seq<(String, String)>, fs: Seq<FileView>) -> bool {
    &&& r.len() == fs.len()
    &&& forall|i: int| 0 <= i < r.len() ==> (#[trigger] r[i]).1@ == fs[i].1
    &&& forall|i: int| 0 <= i < r.len() ==> (#[trigger] r[i]).0@ == path_text(fs[i].0)
}

/// The managed tree below a home directory, as the files it holds.
pub struct ManagedRoot {
    paths: SshPaths,
    files: Vec<StoredFile>,
}

pub fn same_path(a: &PathName, b: &PathName) -> (r: bool)
    ensures
        r == (a@ == b@),
{
    if a.absolute != b.absolute || a.segments.len() != b.segments.len() {
        proof {
            if a.segments.len() != b.segments.len() {
                assert(a@.1.len() != b@.1.len());
            }
        }
        return false;
    }
    let mut i: usize = 0;
    while i < a.segments.len()
        invariant
            a.segments.len() == b.segments.len(),
            i <= a.segments.len(),
            forall|j: int| 0 <= j < i ==> a.segments.deep_view()[j] == b.segments.deep_view()[j],
        decreases a.segments.len() - i,
    {
        if a.segments[i] != b.segments[i] {
            assert(a@.1[i as int] != b@.1[i as int]);
            return false;
        }
        i = i + 1;
    }
    assert(a@.1 =~= b@.1);
    true
}

impl ManagedRoot {
    pub closed spec fn home(&self) -> PathView {
        self.paths@
    }

    pub closed spec fn files(&self) -> Seq<FileView> {
        file_views(self.files@)
    }

    /// Well-formed: no two files share a path.
    pub open spec fn wf(&self) -> bool {
        distinct_paths(self.files())
    }

    /// An empty tree below the home directory of `paths`.
    pub fn new(paths: SshPaths) -> (r: ManagedRoot)
        ensures
            r.home() == paths@,
            r.files() == Seq::<FileView>::empty(),
            r.wf(),
    {
        let r = ManagedRoot { paths, files: Vec::new() };
        assert(r.files() =~= Seq::<FileView>::empty());
        r
    }

    pub fn paths(&self) -> (r: &SshPaths)
        ensures
            r@ == self.home(),
    {
        &self.paths
    }

    /// The number of files.
    pub fn len(&self) -> (r: usize)
        ensures
            r == self.files().len(),
    {
        self.files.len()
    }

    /// The path of the file at position `i`.
    pub fn path_at(&self, i: usize) -> (r: &PathName)
        requires
            i < self.files().len(),
        ensures
            r@ == self.files()[i as int].0,
    {
        &self.files[i].path
    }

    /// The contents of the file at `p`, if there is one.
    pub fn read(&self, p: &PathName) -> (r: Option<String>)
        ensures
            r matches Some(c) ==> lookup(self.files(), p@) == Some(c@),
            r is None ==> lookup(self.files(), p@) is None,
    {
        let mut found: Option<String> = None;
        let mut i: usize = 0;
        proof {
            assert(self.files().take(0) =~= Seq::<FileView>::empty());
        }
        while i < self.files.len()
            invariant
                i <= self.files.len(),
                found matches Some(c) ==> lookup(self.files().take(i as int), p@) == Some(c@),
                found is None ==> lookup(self.files().take(i as int), p@) is None,
            decreases self.files.len() - i,
        {
            proof {
                assert(self.files().take(i + 1).drop_last() =~= self.files().take(i as int));
                assert(self.files().take(i + 1).last() == self.files@[i as int]@);
            }
            if same_path(&self.files[i].path, p) {
                found = Some(self.files[i].contents.clone());
            }
            i = i + 1;
        }
        assert(self.files().take(i as int) =~= self.files());
        found
    }

    /// Deletes every file at `p`; a path with no file is no error.
    pub fn delete(&mut self, p: &PathName)
        requires
            old(self).wf(),
        ensures
            final(self).home() == old(self).home(),
            final(self).files() == without(old(self).files(), p@),
            final(self).wf(),
    {
        let mut kept: Vec<StoredFile> = Vec::new();
        let mut i: usize = 0;
        proof {
            assert(self.files().take(0) =~= Seq::<FileView>::empty());
            assert(file_views(kept@) =~= Seq::<FileView>::empty());
        }
        while i < self.files.len()
            invariant
                i <= self.files.len(),
                file_views(kept@) == without(self.files().take(i as int), p@),
            decreases self.files.len() - i,
        {
            let ghost before = file_views(kept@);
            proof {
                assert(self.files().take(i + 1).drop_last() =~= self.files().take(i as int));
                assert(self.files().take(i + 1).last() == self.files@[i as int]@);
            }
            if !same_path(&self.files[i].path, p) {
                kept.push(self.files[i].clone());
                assert(file_views(kept@) =~= before.push(self.files@[i as int]@));
            }
            i = i + 1;
        }
        assert(self.files().take(i as int) =~= self.files());
        proof {
            lemma_without_distinct(self.files(), p@);
        }
        self.files = kept;
    }

    /// Puts a file at `p` with `contents`, in place of any file there before.
    pub fn write(&mut self, p: PathName, contents: String)
        requires
            old(self).wf(),
        ensures
            final(self).home() == old(self).home(),
            final(self).files() == without(old(self).files(), p@).push((p@, contents@)),
            final(self).wf(),
    {
        proof {
            lemma_without_among(self.files(), p@);
        }
        self.delete(&p);
        let ghost before = self.files();
        proof {
            lemma_push_distinct(before, (p@, contents@));
        }
        let f = StoredFile { path: p, contents };
        self.files.push(f);
        assert(self.files() =~= before.push(f@));
    }

    /// Puts a file at the path text `path` (taken in lexical normal form) with `contents`.
    pub fn add_file(&mut self, path: &str, contents: &str)
        requires
            old(self).wf(),
        ensures
            final(self).wf(),
            final(self).home() == old(self).home(),
            final(self).files() == without(old(self).files(), normal_form(path@)).push(
                (normal_form(path@), contents@),
            ),
    {
        let p = normalize_path(path);
        self.write(p, contents.to_owned());
    }

    /// The contents of the file at the path text `path`, if there is one.
    pub fn file(&self, path: &str) -> (r: Option<String>)
        ensures
            r matches Some(c) ==> lookup(self.files(), normal_form(path@)) == Some(c@),
            r is None ==> lookup(self.files(), normal_form(path@)) is None,
    {
        self.read(&normalize_path(path))
    }

    /// Whether a file is at the path text `path`.
    pub fn contains(&self, path: &str) -> (r: bool)
        ensures
            r == has_file(self.files(), normal_form(path@)),
    {
        self.file(path).is_some()
    }

    /// Every file, as its path text and its contents, in order.
    pub fn entries(&self) -> (r: Vec<(String, String)>)
        ensures
            listed(r@, self.files()),
    {
        let mut out: Vec<(String, String)> = Vec::new();
        let mut i: usize = 0;
        while i < self.files.len()
            invariant
                i <= self.files.len(),
                out@.len() == i,
                forall|j: int| 0 <= j < i ==> (#[trigger] out@[j]).1@ == self.files()[j].1,
                forall|j: int| 0 <= j < i ==> (#[trigger] out@[j]).0@ == path_text(self.files()[j].0),
            decreases self.files.len() - i,
        {
            out.push((self.files[i].path.to_text(), self.files[i].contents.clone()));
            i = i + 1;
        }
        out
    }

    /// The files directly in the managed root whose names look like private keys of `host`.
    pub fn guess_identity_files(&self, host: &str) -> (r: Vec<PathName>)
        ensures
            views(r@) == guessed(root_of(self.home()), self.files(), host@),
    {
        let root = self.paths.ssh_root();
        let tail = host_suffix(host);
        let mut out: Vec<PathName> = Vec::new();
        let mut i: usize = 0;
        proof {
            assert(self.files().take(0) =~= Seq::<FileView>::empty());
            assert(views(out@) =~= Seq::<PathView>::empty());
        }
        while i < self.files.len()
            invariant
                i <= self.files.len(),
                root@ == root_of(self.home()),
                tail@ == seq!['_'] + host@,
                views(out@) == guessed(root_of(self.home()), self.files().take(i as int), host@),
            decreases self.files.len() - i,
        {
            let ghost before = views(out@);
            proof {
                assert(self.files().take(i + 1).drop_last() =~= self.files().take(i as int));
                assert(self.files().take(i + 1).last() == self.files@[i as int]@);
            }
            let p = &self.files[i].path;
            if is_guess(&root, p, tail.as_str()) {
                out.push(p.clone());
                assert(views(out@) =~= before.push(p@));
            }
            i = i + 1;
        }
        assert(self.files().take(i as int) =~= self.files());
        out
    }
}

fn host_suffix(host: &str) -> (r: String)
    ensures
        r@ == seq!['_'] + host@,
{
    proof {
        reveal_strlit("_");
    }
    let mut t = "_".to_owned();
    t.append(host);
    assert(t@ =~= seq!['_'] + host@);
    t
}

/// Whether `p` lies directly in `root` with a name of the private-key shape: `id_` first,
/// `tail` last, and not `.pub` last.
fn is_guess(root: &PathName, p: &PathName, tail: &str) -> (r: bool)
    ensures
        forall|host: Seq<char>| tail@ == seq!['_'] + host ==> r == guess_matches(root@, p@, host),
{
    proof {
        reveal_strlit("id_");
        reveal_strlit(".pub");
        assert("id_"@ =~= key_prefix());
        assert(".pub"@ =~= pub_suffix());
    }
    if p.segments.len() == 0 || p.segments.len() - 1 != root.segments.len()
        || !is_strictly_within(p, root) {
        return false;
    }
    let name = p.segments[p.segments.len() - 1].as_str();
    assert(name@ == p@.1.last());
    starts_with_text(name, "id_") && ends_with_text(name, tail) && !ends_with_text(name, ".pub")
}

} // verus!
