//! Lexical paths and the locations of the managed assets below a home directory.
use vstd::prelude::*;
use crate::text::{Sep, split_by, split_text};

verus! {

/// A path as its absolute flag and its segments.
pub type PathView = (bool, Seq<Seq<char>>);

pub open spec fn dot() -> Seq<char> {
    seq!['.']
}

pub open spec fn dot_dot() -> Seq<char> {
    seq!['.', '.']
}

/// One lexical step: `.` and empty segments vanish, `..` drops the last segment (if any).
pub open spec fn step(acc: Seq<Seq<char>>, seg: Seq<char>) -> Seq<Seq<char>> {
    if seg.len() == 0 || seg == dot() {
        acc
    } else if seg == dot_dot() {
        if acc.len() > 0 {
            acc.drop_last()
        } else {
            acc
        }
    } else {
        acc.push(seg)
    }
}

/// Applies the segments `segs` one by one on top of `base`.
pub open spec fn walk(base: Seq<Seq<char>>, segs: Seq<Seq<char>>) -> Seq<Seq<char>>
    decreases segs.len(),
{
    if segs.len() == 0 {
        base
    } else {
        step(walk(base, segs.drop_last()), segs.last())
    }
}

pub open spec fn starts_at_root(p: Seq<char>) -> bool {
    p.len() > 0 && p[0] == '/'
}

/// The lexical normal form of the path text `p`.
pub open spec fn normal_form(p: Seq<char>) -> PathView {
    (starts_at_root(p), walk(Seq::empty(), split_by(p, Sep::Slash)))
}

/// `inner` is `outer` or lies below it.
pub open spec fn within(inner: PathView, outer: PathView) -> bool {
    &&& inner.0 == outer.0
    &&& outer.1.len() <= inner.1.len()
    &&& inner.1.subrange(0, outer.1.len() as int) == outer.1
}

/// `inner` lies strictly below `outer`.
pub open spec fn strictly_within(inner: PathView, outer: PathView) -> bool {
    &&& inner.0 == outer.0
    &&& outer.1.len() < inner.1.len()
    &&& inner.1.subrange(0, outer.1.len() as int) == outer.1
}

pub open spec fn pub_suffix() -> Seq<char> {
    seq!['.', 'p', 'u', 'b']
}

/// The `.pub` sibling of a key path: the same path with `.pub` after its last segment.
pub open spec fn public_sibling(p: PathView) -> PathView {
    (p.0, p.1.update(p.1.len() - 1, p.1.last() + pub_suffix()))
}

/// A path, as an absolute flag and a list of segments.
pub struct PathName {
    pub absolute: bool,
    pub segments: Vec<String>,
}

impl View for PathName {
    type V = PathView;

    open spec fn view(&self) -> PathView {
        (self.absolute, self.segments.deep_view())
    }
}

pub fn is_dot(seg: &String) -> (r: bool)
    ensures
        r == (seg@ == dot()),
{
    let s = seg.as_str();
    if s.unicode_len() != 1 {
        return false;
    }
    let c = s.get_char(0);
    assert(c == '.' ==> s@ =~= dot());
    c == '.'
}

pub fn is_dot_dot(seg: &String) -> (r: bool)
    ensures
        r == (seg@ == dot_dot()),
{
    let s = seg.as_str();
    if s.unicode_len() != 2 {
        return false;
    }
    let c0 = s.get_char(0);
    let c1 = s.get_char(1);
    assert(c0 == '.' && c1 == '.' ==> s@ =~= dot_dot());
    c0 == '.' && c1 == '.'
}

/// Applies the segments of `segs` on top of `acc`.
pub fn walk_onto(acc: &mut Vec<String>, segs: &Vec<String>)
    ensures
        final(acc).deep_view() == walk(old(acc).deep_view(), segs.deep_view()),
{
    let ghost base = acc.deep_view();
    let mut j: usize = 0;
    proof {
        assert(segs.deep_view().take(0) =~= Seq::<Seq<char>>::empty());
    }
    while j < segs.len()
        invariant
            j <= segs.len(),
            acc.deep_view() == walk(base, segs.deep_view().take(j as int)),
        decreases segs.len() - j,
    {
        let seg = &segs[j];
        let ghost before = acc.deep_view();
        proof {
            assert(segs.deep_view().take(j + 1).drop_last() =~= segs.deep_view().take(j as int));
            assert(segs.deep_view().take(j + 1).last() == seg@);
        }
        if seg.as_str().unicode_len() == 0 || is_dot(seg) {
        } else if is_dot_dot(seg) {
            if acc.len() > 0 {
                acc.pop();
                assert(acc.deep_view() =~= before.drop_last());
            }
        } else {
            acc.push(seg.clone());
            assert(acc.deep_view() =~= before.push(seg@));
        }
        j = j + 1;
    }
    assert(segs.deep_view().take(j as int) =~= segs.deep_view());
}

/// Lexically normalizes `path`: `.` segments vanish and `..` drops the segment before it;
/// symbolic links are not consulted.
pub fn normalize_path(path: &str) -> (r: PathName)
    ensures
        r@ == normal_form(path@),
{
    let pieces = split_text(path, Sep::Slash);
    let mut segments: Vec<String> = Vec::new();
    assert(segments.deep_view() =~= Seq::<Seq<char>>::empty());
    walk_onto(&mut segments, &pieces);
    let absolute = path.unicode_len() > 0 && path.get_char(0) == '/';
    PathName { absolute, segments }
}

pub open spec fn ssh_dir_name() -> Seq<char> {
    seq!['.', 's', 's', 'h']
}

pub open spec fn conf_dir_name() -> Seq<char> {
    seq!['c', 'o', 'n', 'f', '.', 'd']
}

pub open spec fn conf_suffix() -> Seq<char> {
    seq!['.', 'c', 'o', 'n', 'f']
}

pub open spec fn key_prefix() -> Seq<char> {
    seq!['i', 'd', '_']
}

/// The managed root `<home>/.ssh`.
pub open spec fn root_of(home: PathView) -> PathView {
    (home.0, home.1.push(ssh_dir_name()))
}

/// The configuration directory `<home>/.ssh/conf.d`.
pub open spec fn conf_dir_of(home: PathView) -> PathView {
    (home.0, root_of(home).1.push(conf_dir_name()))
}

/// The configuration fragment `<home>/.ssh/conf.d/<host>.conf`.
pub open spec fn config_path_of(home: PathView, host: Seq<char>) -> PathView {
    (home.0, conf_dir_of(home).1.push(host + conf_suffix()))
}

/// The file name `id_<key_type>_<host>` of a private key.
pub open spec fn key_name(key_type: Seq<char>, host: Seq<char>) -> Seq<char> {
    key_prefix() + key_type + seq!['_'] + host
}

pub open spec fn private_key_of(home: PathView, key_type: Seq<char>, host: Seq<char>) -> PathView {
    (home.0, root_of(home).1.push(key_name(key_type, host)))
}

pub open spec fn public_key_of(home: PathView, key_type: Seq<char>, host: Seq<char>) -> PathView {
    (home.0, root_of(home).1.push(key_name(key_type, host) + pub_suffix()))
}

/// The locations of the managed assets below one home directory.
pub struct SshPaths {
    home: PathName,
}

impl View for SshPaths {
    type V = PathView;

    closed spec fn view(&self) -> PathView {
        self.home@
    }
}

impl Clone for PathName {
    fn clone(&self) -> (r: PathName)
        ensures
            r@ == self@,
    {
        let mut segments: Vec<String> = Vec::new();
        let mut i: usize = 0;
        while i < self.segments.len()
            invariant
                i <= self.segments.len(),
                segments.deep_view() == self.segments.deep_view().take(i as int),
            decreases self.segments.len() - i,
        {
            let ghost before = segments.deep_view();
            let seg = self.segments[i].clone();
            segments.push(seg);
            assert(segments.deep_view() =~= before.push(self.segments.deep_view()[i as int]));
            i = i + 1;
            assert(segments.deep_view() =~= self.segments.deep_view().take(i as int));
        }
        assert(self.segments.deep_view().take(i as int) =~= self.segments.deep_view());
        PathName { absolute: self.absolute, segments }
    }
}

impl PathName {
    /// This path with one more segment at its end.
    pub fn child(&self, name: String) -> (r: PathName)
        ensures
            r@ == (self@.0, self@.1.push(name@)),
    {
        let mut r = self.clone();
        let ghost before = r.segments.deep_view();
        r.segments.push(name);
        assert(r.segments.deep_view() =~= before.push(name@));
        r
    }

    /// The path as text, segments joined by `/`.
    pub fn to_text(&self) -> (r: String)
        ensures
            r@ == path_text(self@),
    {
        let mut out = String::new();
        if self.absolute {
            proof {
                reveal_strlit("/");
            }
            out.append("/");
        }
        let mut i: usize = 0;
        while i < self.segments.len()
            invariant
                i <= self.segments.len(),
                out@ == path_text((self.absolute, self.segments.deep_view().take(i as int))),
            decreases self.segments.len() - i,
        {
            let ghost done = self.segments.deep_view().take(i as int);
            if i > 0 {
                proof {
                    reveal_strlit("/");
                }
                out.append("/");
            }
            out.append(self.segments[i].as_str());
            i = i + 1;
            proof {
                let next = self.segments.deep_view().take(i as int);
                assert(next.drop_last() =~= done);
                assert(out@ =~= path_text((self.absolute, next)));
            }
        }
        assert(self.segments.deep_view().take(i as int) =~= self.segments.deep_view());
        out
    }
}

/// The segments joined by `/`.
pub open spec fn joined(segs: Seq<Seq<char>>) -> Seq<char>
    decreases segs.len(),
{
    if segs.len() == 0 {
        Seq::empty()
    } else if segs.len() == 1 {
        segs[0]
    } else {
        joined(segs.drop_last()) + seq!['/'] + segs.last()
    }
}

/// The text of a path: `/` first when it is absolute, then its segments joined by `/`.
pub open spec fn path_text(p: PathView) -> Seq<char> {
    if p.0 {
        seq!['/'] + joined(p.1)
    } else {
        joined(p.1)
    }
}

fn text_of(lit: &str) -> (r: String)
    ensures
        r@ == lit@,
{
    lit.to_owned()
}

impl SshPaths {
    /// The paths below the home directory `home`, taken in its lexical normal form.
    pub fn new(home: &str) -> (r: SshPaths)
        ensures
            r@ == normal_form(home@),
    {
        SshPaths { home: normalize_path(home) }
    }

    pub fn home(&self) -> (r: PathName)
        ensures
            r@ == self@,
    {
        self.home.clone()
    }

    pub fn ssh_root(&self) -> (r: PathName)
        ensures
            r@ == root_of(self@),
    {
        proof {
            reveal_strlit(".ssh");
            assert(".ssh"@ =~= ssh_dir_name());
        }
        self.home.child(text_of(".ssh"))
    }

    pub fn conf_dir(&self) -> (r: PathName)
        ensures
            r@ == conf_dir_of(self@),
    {
        proof {
            reveal_strlit("conf.d");
            assert("conf.d"@ =~= conf_dir_name());
        }
        self.ssh_root().child(text_of("conf.d"))
    }

    pub fn host_config_path(&self, host: &str) -> (r: PathName)
        ensures
            r@ == config_path_of(self@, host@),
    {
        let mut name = text_of(host);
        proof {
            reveal_strlit(".conf");
            assert(".conf"@ =~= conf_suffix());
        }
        name.append(".conf");
        self.conf_dir().child(name)
    }

    /// The private key path and its `.pub` sibling for `key_type` and `host`.
    pub fn key_paths(&self, key_type: &str, host: &str) -> (r: (PathName, PathName))
        ensures
            r.0@ == private_key_of(self@, key_type@, host@),
            r.1@ == public_key_of(self@, key_type@, host@),
    {
        proof {
            reveal_strlit("id_");
            reveal_strlit("_");
            reveal_strlit(".pub");
            assert("id_"@ =~= key_prefix());
            assert("_"@ =~= seq!['_']);
            assert(".pub"@ =~= pub_suffix());
        }
        let mut name = text_of("id_");
        name.append(key_type);
        name.append("_");
        name.append(host);
        let mut public_name = name.clone();
        public_name.append(".pub");
        assert(name@ =~= key_name(key_type@, host@));
        let root = self.ssh_root();
        (root.child(name), root.child(public_name))
    }
}

} // verus!
