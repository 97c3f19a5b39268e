//! The host configuration stanza: how it is written and how its identity files are read back.
use vstd::prelude::*;
use crate::paths::{
    PathName, PathView, key_name, pub_suffix, public_sibling, normal_form, root_of, ssh_dir_name, starts_at_root,
    strictly_within, walk, within,
};
use crate::paths::{SshPaths, normalize_path, walk_onto};
use crate::text::{
    Sep, eq_ignore_ascii_case, eq_ignore_case, has_prefix, split_by, split_text, split_words,
    words,
};

verus! {

pub open spec fn identity_keyword() -> Seq<char> {
    seq!['I', 'd', 'e', 'n', 't', 'i', 't', 'y', 'F', 'i', 'l', 'e']
}

pub open spec fn digit(d: nat) -> char {
    if d == 0 {
        '0'
    } else if d == 1 {
        '1'
    } else if d == 2 {
        '2'
    } else if d == 3 {
        '3'
    } else if d == 4 {
        '4'
    } else if d == 5 {
        '5'
    } else if d == 6 {
        '6'
    } else if d == 7 {
        '7'
    } else if d == 8 {
        '8'
    } else {
        '9'
    }
}

/// The decimal digits of `n`, without leading zeros.
pub open spec fn decimal(n: nat) -> Seq<char>
    decreases n,
{
    if n < 10 {
        seq![digit(n)]
    } else {
        decimal(n / 10).push(digit(n % 10))
    }
}

pub open spec fn line(key: Seq<char>, value: Seq<char>) -> Seq<char> {
    key + seq![' '] + value + seq!['\n']
}

pub open spec fn host_key() -> Seq<char> {
    seq!['H', 'o', 's', 't']
}

pub open spec fn host_name_key() -> Seq<char> {
    seq!['H', 'o', 's', 't', 'N', 'a', 'm', 'e']
}

pub open spec fn user_key() -> Seq<char> {
    seq!['U', 's', 'e', 'r']
}

pub open spec fn port_key() -> Seq<char> {
    seq!['P', 'o', 'r', 't']
}

pub open spec fn home_prefix() -> Seq<char> {
    seq!['~', '/']
}

/// `~/.ssh/id_<key_type>_<host>`, the reference that a generated stanza makes to its key.
pub open spec fn identity_reference(key_type: Seq<char>, host: Seq<char>) -> Seq<char> {
    home_prefix() + ssh_dir_name() + seq!['/'] + key_name(key_type, host)
}

pub open spec fn identities_only_line() -> Seq<char> {
    seq![
        'I', 'd', 'e', 'n', 't', 'i', 't', 'i', 'e', 's', 'O', 'n', 'l', 'y', ' ', 'y', 'e', 's',
        '\n',
    ]
}

/// The configuration stanza for a host: `Host`, `HostName`, `User` and `Port` when given,
/// `IdentityFile` and `IdentitiesOnly yes`, one per line.
pub open spec fn stanza(
    host: Seq<char>,
    key_type: Seq<char>,
    user: Option<Seq<char>>,
    port: Option<u16>,
) -> Seq<char> {
    let user_line = match user {
        Some(u) => line(user_key(), u),
        None => Seq::empty(),
    };
    let port_line = match port {
        Some(p) => line(port_key(), decimal(p as nat)),
        None => Seq::empty(),
    };
    line(host_key(), host) + line(host_name_key(), host) + user_line + port_line + line(
        identity_keyword(),
        identity_reference(key_type, host),
    ) + identities_only_line()
}

/// The value of an `IdentityFile` directive on one line, if the line is one.
pub open spec fn directive_value(l: Seq<char>) -> Option<Seq<char>> {
    let w = words(l);
    if w.len() >= 2 && eq_ignore_case(w[0], identity_keyword()) {
        Some(w[1])
    } else {
        None
    }
}

/// The `IdentityFile` values of the lines `ls`, in order.
pub open spec fn directive_values(ls: Seq<Seq<char>>) -> Seq<Seq<char>>
    decreases ls.len(),
{
    if ls.len() == 0 {
        Seq::empty()
    } else {
        let r = directive_values(ls.drop_last());
        match directive_value(ls.last()) {
            Some(v) => r.push(v),
            None => r,
        }
    }
}

/// The `IdentityFile` values of a configuration text, in order.
pub open spec fn identity_values(contents: Seq<char>) -> Seq<Seq<char>> {
    directive_values(split_by(contents, Sep::Newline))
}

/// `v` without one pair of surrounding double quotes, if it has them.
pub open spec fn unquoted(v: Seq<char>) -> Seq<char> {
    if v.len() >= 2 && v[0] == '"' && v.last() == '"' {
        v.subrange(1, v.len() - 1)
    } else {
        v
    }
}

/// Where a reference points: `~/...` below home, an absolute path as it is, anything
/// else below the managed root; all taken in lexical normal form.
pub open spec fn resolved(home: PathView, v: Seq<char>) -> PathView {
    if has_prefix(v, home_prefix()) {
        (home.0, walk(home.1, split_by(v.subrange(2, v.len() as int), Sep::Slash)))
    } else if starts_at_root(v) {
        normal_form(v)
    } else {
        (home.0, walk(root_of(home).1, split_by(v, Sep::Slash)))
    }
}

/// Where `v` points, unless that escapes the managed root (the root itself is kept).
pub open spec fn inside_root(home: PathView, v: Seq<char>) -> Option<PathView> {
    let p = resolved(home, v);
    if within(p, root_of(home)) {
        Some(p)
    } else {
        None
    }
}

/// The key file that the (possibly quoted) reference `v` names, unless it escapes the
/// managed root.
pub open spec fn accepted(home: PathView, v: Seq<char>) -> Option<PathView> {
    inside_root(home, unquoted(v))
}

/// The accepted key files of the references `vs`, in order.
pub open spec fn accepted_all(home: PathView, vs: Seq<Seq<char>>) -> Seq<PathView>
    decreases vs.len(),
{
    if vs.len() == 0 {
        Seq::empty()
    } else {
        let r = accepted_all(home, vs.drop_last());
        match accepted(home, vs.last()) {
            Some(p) => r.push(p),
            None => r,
        }
    }
}

/// The key files that a configuration text names inside the managed root (or at it).
pub open spec fn identity_candidates(home: PathView, contents: Seq<char>) -> Seq<PathView> {
    accepted_all(home, identity_values(contents))
}

pub open spec fn text_opt(u: Option<&str>) -> Option<Seq<char>> {
    match u {
        Some(t) => Some(t@),
        None => None,
    }
}

pub open spec fn views(v: Seq<PathName>) -> Seq<PathView> {
    Seq::new(v.len(), |i: int| v[i]@)
}

fn digit_text(d: u16) -> (r: &'static str)
    requires
        d < 10,
    ensures
        r@ == seq![digit(d as nat)],
{
    proof {
        reveal_strlit("0");
        reveal_strlit("1");
        reveal_strlit("2");
        reveal_strlit("3");
        reveal_strlit("4");
        reveal_strlit("5");
        reveal_strlit("6");
        reveal_strlit("7");
        reveal_strlit("8");
        reveal_strlit("9");
    }
    let r = if d == 0 {
        "0"
    } else if d == 1 {
        "1"
    } else if d == 2 {
        "2"
    } else if d == 3 {
        "3"
    } else if d == 4 {
        "4"
    } else if d == 5 {
        "5"
    } else if d == 6 {
        "6"
    } else if d == 7 {
        "7"
    } else if d == 8 {
        "8"
    } else {
        "9"
    };
    assert(r@ =~= seq![digit(d as nat)]);
    r
}

/// Appends the decimal digits of `n` to `out`.
pub fn push_decimal(out: &mut String, n: u16)
    ensures
        final(out)@ == old(out)@ + decimal(n as nat),
    decreases n,
{
    if n >= 10 {
        push_decimal(out, n / 10);
    }
    out.append(digit_text(n % 10));
    assert(out@ =~= old(out)@ + decimal(n as nat));
}

/// Appends `key value\n` to `out`.
fn push_line(out: &mut String, key: &str, value: &str)
    ensures
        final(out)@ == old(out)@ + line(key@, value@),
{
    proof {
        reveal_strlit(" ");
        reveal_strlit("\n");
    }
    out.append(key);
    out.append(" ");
    out.append(value);
    out.append("\n");
    assert(out@ =~= old(out)@ + line(key@, value@));
}

/// The configuration stanza for `host`.
pub fn build_stanza(host: &str, key_type: &str, user: Option<&str>, port: Option<u16>) -> (r:
    String)
    ensures
        r@ == stanza(host@, key_type@, text_opt(user), port),
{
    proof {
        reveal_strlit("Host");
        reveal_strlit("HostName");
        reveal_strlit("User");
        reveal_strlit("Port ");
        reveal_strlit("\n");
        reveal_strlit("IdentityFile");
        reveal_strlit("~/.ssh/id_");
        reveal_strlit("_");
        reveal_strlit("IdentitiesOnly yes\n");
        assert("Host"@ =~= host_key());
        assert("HostName"@ =~= host_name_key());
        assert("User"@ =~= user_key());
        assert("IdentityFile"@ =~= identity_keyword());
        assert("IdentitiesOnly yes\n"@ =~= identities_only_line());
    }
    let mut out = String::new();
    push_line(&mut out, "Host", host);
    push_line(&mut out, "HostName", host);
    match user {
        Some(u) => push_line(&mut out, "User", u),
        None => {},
    }
    let ghost with_user = out@;
    match port {
        Some(p) => {
            out.append("Port ");
            push_decimal(&mut out, p);
            out.append("\n");
            assert(out@ =~= with_user + line(port_key(), decimal(p as nat)));
        },
        None => {},
    }
    let mut reference = "~/.ssh/id_".to_owned();
    reference.append(key_type);
    reference.append("_");
    reference.append(host);
    assert(reference@ =~= identity_reference(key_type@, host@));
    push_line(&mut out, "IdentityFile", reference.as_str());
    out.append("IdentitiesOnly yes\n");
    assert(out@ =~= stanza(host@, key_type@, text_opt(user), port));
    out
}

pub open spec fn path_opt(p: Option<PathName>) -> Option<PathView> {
    match p {
        Some(q) => Some(q@),
        None => None,
    }
}

/// Strips one pair of surrounding double quotes from `s`, if it has them.
pub fn unquote(s: &str) -> (r: &str)
    ensures
        r@ == unquoted(s@),
{
    let n = s.unicode_len();
    if n >= 2 && s.get_char(0) == '"' && s.get_char(n - 1) == '"' {
        s.substring_char(1, n - 1)
    } else {
        s
    }
}

/// `inner` is `outer` or lies below it.
pub fn is_within(inner: &PathName, outer: &PathName) -> (r: bool)
    ensures
        r == within(inner@, outer@),
{
    if inner.absolute != outer.absolute || outer.segments.len() > inner.segments.len() {
        return false;
    }
    let mut i: usize = 0;
    while i < outer.segments.len()
        invariant
            outer.segments.len() <= inner.segments.len(),
            i <= outer.segments.len(),
            forall|j: int| 0 <= j < i ==> inner.segments.deep_view()[j] == outer.segments.deep_view()[j],
        decreases outer.segments.len() - i,
    {
        if inner.segments[i] != outer.segments[i] {
            assert(inner@.1.subrange(0, outer@.1.len() as int)[i as int] != outer@.1[i as int]);
            return false;
        }
        i = i + 1;
    }
    assert(inner@.1.subrange(0, outer@.1.len() as int) =~= outer@.1);
    true
}

/// `inner` lies strictly below `outer`.
pub fn is_strictly_within(inner: &PathName, outer: &PathName) -> (r: bool)
    ensures
        r == strictly_within(inner@, outer@),
{
    if inner.absolute != outer.absolute || outer.segments.len() >= inner.segments.len() {
        return false;
    }
    let mut i: usize = 0;
    while i < outer.segments.len()
        invariant
            outer.segments.len() < inner.segments.len(),
            i <= outer.segments.len(),
            forall|j: int| 0 <= j < i ==> inner.segments.deep_view()[j] == outer.segments.deep_view()[j],
        decreases outer.segments.len() - i,
    {
        if inner.segments[i] != outer.segments[i] {
            assert(inner@.1.subrange(0, outer@.1.len() as int)[i as int] != outer@.1[i as int]);
            return false;
        }
        i = i + 1;
    }
    assert(inner@.1.subrange(0, outer@.1.len() as int) =~= outer@.1);
    true
}

/// Resolves the reference `value` (`~/...` below home, absolute as it is, otherwise below
/// the managed root) to its lexical normal form, and keeps it unless it escapes the
/// managed root.
pub fn expand_path(value: &str, paths: &SshPaths) -> (r: Option<PathName>)
    ensures
        path_opt(r) == inside_root(paths@, value@),
{
    let n = value.unicode_len();
    let root = paths.ssh_root();
    let candidate = if n >= 2 && value.get_char(0) == '~' && value.get_char(1) == '/' {
        assert(value@.subrange(0, 2) =~= home_prefix());
        let rest = value.substring_char(2, n);
        let pieces = split_text(rest, Sep::Slash);
        let mut home = paths.home();
        walk_onto(&mut home.segments, &pieces);
        home
    } else if n > 0 && value.get_char(0) == '/' {
        normalize_path(value)
    } else {
        let pieces = split_text(value, Sep::Slash);
        let mut base = root.clone();
        walk_onto(&mut base.segments, &pieces);
        base
    };
    if is_within(&candidate, &root) {
        Some(candidate)
    } else {
        None
    }
}

/// The key files that the `IdentityFile` directives of `contents` name strictly inside the
/// managed root, in order.
pub fn parse_identity_files(contents: &str, paths: &SshPaths) -> (r: Vec<PathName>)
    ensures
        views(r@) == identity_candidates(paths@, contents@),
{
    proof {
        reveal_strlit("IdentityFile");
        assert("IdentityFile"@ =~= identity_keyword());
    }
    let keyword = "IdentityFile";
    let lines = split_text(contents, Sep::Newline);
    let mut out: Vec<PathName> = Vec::new();
    let mut i: usize = 0;
    proof {
        assert(lines.deep_view().take(0) =~= Seq::<Seq<char>>::empty());
        assert(views(out@) =~= Seq::<PathView>::empty());
    }
    while i < lines.len()
        invariant
            i <= lines.len(),
            lines.deep_view() == split_by(contents@, Sep::Newline),
            keyword@ == identity_keyword(),
            views(out@) == accepted_all(paths@, directive_values(lines.deep_view().take(i as int))),
        decreases lines.len() - i,
    {
        let ghost before = views(out@);
        let ghost done = directive_values(lines.deep_view().take(i as int));
        proof {
            assert(lines.deep_view().take(i + 1).drop_last() =~= lines.deep_view().take(i as int));
            assert(lines.deep_view().take(i + 1).last() == lines[i as int]@);
        }
        let w = split_words(lines[i].as_str());
        assert(w.deep_view().len() == w@.len());
        if w.len() >= 2 && eq_ignore_ascii_case(w[0].as_str(), keyword) {
            assert(w.deep_view()[0] == w[0]@ && w.deep_view()[1] == w[1]@);
            assert(words(lines[i as int]@) == w.deep_view());
            assert(eq_ignore_case(w[0]@, identity_keyword()));
            assert(directive_value(lines[i as int]@) == Some(w[1]@));
            assert(done.push(w[1]@).drop_last() =~= done);
            let value = unquote(w[1].as_str());
            match expand_path(value, paths) {
                Some(p) => {
                    out.push(p);
                    assert(views(out@) =~= before.push(out@.last()@));
                },
                None => {},
            }
        } else {
            assert(words(lines[i as int]@) == w.deep_view());
            if w.len() >= 2 {
                assert(w.deep_view()[0] == w[0]@);
            }
            assert(directive_value(lines[i as int]@) is None);
        }
        i = i + 1;
    }
    assert(lines.deep_view().take(i as int) =~= lines.deep_view());
    out
}

/// The `.pub` sibling of a key path; none for a path without segments.
pub fn to_public_key_path(private: &PathName) -> (r: Option<PathName>)
    ensures
        r is Some <==> private@.1.len() > 0,
        r matches Some(p) ==> p@ == public_sibling(private@),
{
    let n = private.segments.len();
    if n == 0 {
        return None;
    }
    let mut p = private.clone();
    assert(p.segments.deep_view().len() == p.segments@.len());
    let mut name = private.segments[n - 1].clone();
    proof {
        reveal_strlit(".pub");
        assert(".pub"@ =~= pub_suffix());
    }
    name.append(".pub");
    let ghost before = p.segments.deep_view();
    p.segments.set(n - 1, name);
    assert(p.segments.deep_view() =~= before.update(n - 1, private@.1.last() + pub_suffix()));
    Some(p)
}

} // verus!
