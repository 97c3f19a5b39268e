//! Facts about the lifecycle as a whole: what removal spares, undoes and repeats.
use vstd::prelude::*;
use crate::commands::generate_host::{generated, refused};
use crate::commands::list_hosts::{host_of, hosts_in};
use crate::commands::remove_host::{all_within, lemma_removed_within};
use crate::config::{
    accepted, accepted_all, home_prefix, resolved, unquoted,
    host_key, host_name_key, identities_only_line, identity_reference, port_key, user_key,
    decimal, directive_value, directive_values, identity_keyword, identity_values, line, stanza,
};
use crate::text::{
    Sep, eq_ignore_case, free_of, is_sep, lemma_split_after, lemma_split_whole, lemma_words_after, lemma_words_whole,
    non_empty, split_by, words,
};
use crate::paths::{
    PathView, conf_dir_of, dot, dot_dot, key_name, ssh_dir_name, walk, config_path_of, private_key_of, public_key_of, public_sibling,
    root_of, strictly_within,
};
use crate::root::{
    FileView, absent, after_removal, among, guess_matches, guessed, has_file, lemma_among_trans,
    lemma_before_root, lemma_without_among, removed_keys, lemma_without_absent, lookup, removal_candidates,
    without, without_keys,
};
use crate::validate::{host_char, key_type_char, valid_host, valid_key_type};
use vstd::seq_lib::to_multiset_len;

verus! {

proof fn lemma_without_keeps(fs: Seq<FileView>, p: PathView, f: FileView)
    requires
        fs.contains(f),
        f.0 != p,
    ensures
        without(fs, p).contains(f),
    decreases fs.len(),
{
    let r = without(fs, p);
    if fs.last() == f {
        assert(r.last() == f);
    } else {
        let i = choose|i: int| 0 <= i < fs.len() && fs[i] == f;
        assert(fs.drop_last()[i] == f);
        lemma_without_keeps(fs.drop_last(), p, f);
        let w = without(fs.drop_last(), p);
        let j = choose|j: int| 0 <= j < w.len() && w[j] == f;
        if fs.last().0 != p {
            assert(r[j] == f);
        }
    }
}

proof fn lemma_sibling_within(k: PathView, root: PathView)
    requires
        strictly_within(k, root),
    ensures
        strictly_within(public_sibling(k), root),
{
    let s = public_sibling(k);
    assert(s.1.subrange(0, root.1.len() as int) =~= k.1.subrange(0, root.1.len() as int));
}

proof fn lemma_without_keys_keeps(fs: Seq<FileView>, keys: Seq<PathView>, root: PathView, f: FileView)
    requires
        fs.contains(f),
        all_within(keys, root),
        !strictly_within(f.0, root),
    ensures
        without_keys(fs, keys).contains(f),
    decreases keys.len(),
{
    if keys.len() > 0 {
        let k = keys.last();
        assert(strictly_within(keys[keys.len() - 1], root));
        lemma_without_keys_keeps(fs, keys.drop_last(), root, f);
        let g = without_keys(fs, keys.drop_last());
        lemma_without_keeps(g, k, f);
        lemma_sibling_within(k, root);
        lemma_without_keeps(without(g, k), public_sibling(k), f);
    }
}

/// Removal never deletes a file that lies outside the managed root, whatever the host's
/// configuration names: every such file of the tree is still there afterwards.
pub proof fn lemma_remove_spares_outside(home: PathView, fs: Seq<FileView>, host: Seq<char>, f: FileView)
    requires
        fs.contains(f),
        !strictly_within(f.0, root_of(home)),
    ensures
        after_removal(home, fs, host).contains(f),
{
    let root = root_of(home);
    let cp = config_path_of(home, host);
    assert(cp.1.subrange(0, root.1.len() as int) =~= root.1);
    assert(strictly_within(cp, root));
    lemma_without_keeps(fs, cp, f);
    lemma_removed_within(home, fs, host);
    lemma_without_keys_keeps(without(fs, cp), removed_keys(home, fs, host), root, f);
}

/// Once a host has been generated, generating it again (with any key type) is refused, so
/// it fails with a validation error and leaves the first generation's files as they are.
pub proof fn lemma_generate_twice_refused(
    home: PathView,
    fs: Seq<FileView>,
    host: Seq<char>,
    key_type: Seq<char>,
    user: Option<Seq<char>>,
    port: Option<u16>,
    private_key: Seq<char>,
    public_key: Seq<char>,
    second_key_type: Seq<char>,
)
    requires
        !refused(home, fs, host, key_type),
    ensures
        refused(
            home,
            generated(home, fs, host, key_type, user, port, private_key, public_key),
            host,
            second_key_type,
        ),
{
    let g = generated(home, fs, host, key_type, user, port, private_key, public_key);
    assert(lookup(g, config_path_of(home, host)) == Some(stanza(host, key_type, user, port)));
}

/// A tree with no file in the configuration directory has no hosts to list: what `list`
/// returns for it (a sequence with the same elements as `hosts_in`) is empty.
pub proof fn lemma_no_fragments_no_hosts(home: PathView, fs: Seq<FileView>, listed: Seq<Seq<char>>)
    requires
        forall|i: int| 0 <= i < fs.len() ==> !strictly_within(#[trigger] fs[i].0, conf_dir_of(home)),
        listed.to_multiset() == hosts_in(conf_dir_of(home), fs).to_multiset(),
    ensures
        hosts_in(conf_dir_of(home), fs) == Seq::<Seq<char>>::empty(),
        listed.len() == 0,
{
    lemma_no_hosts(home, fs);
    to_multiset_len(listed);
    to_multiset_len(hosts_in(conf_dir_of(home), fs));
}

proof fn lemma_no_hosts(home: PathView, fs: Seq<FileView>)
    requires
        forall|i: int| 0 <= i < fs.len() ==> !strictly_within(#[trigger] fs[i].0, conf_dir_of(home)),
    ensures
        hosts_in(conf_dir_of(home), fs) == Seq::<Seq<char>>::empty(),
    decreases fs.len(),
{
    if fs.len() > 0 {
        let conf = conf_dir_of(home);
        assert(!strictly_within(fs[fs.len() - 1].0, conf));
        assert(host_of(conf, fs.last().0) is None);
        lemma_no_hosts(home, fs.drop_last());
    }
}

proof fn lemma_absent_lookup(s: Seq<FileView>, p: PathView)
    requires
        absent(s, p),
    ensures
        lookup(s, p) is None,
    decreases s.len(),
{
    if s.len() > 0 {
        assert(s[s.len() - 1].0 != p);
        lemma_absent_lookup(s.drop_last(), p);
    }
}

proof fn lemma_without_keeps_absent(fs: Seq<FileView>, p: PathView, q: PathView)
    requires
        absent(fs, q),
    ensures
        absent(without(fs, p), q),
{
    lemma_without_among(fs, p);
    let w = without(fs, p);
    assert forall|i: int| 0 <= i < w.len() implies (#[trigger] w[i]).0 != q by {
        let j = choose|j: int| 0 <= j < fs.len() && fs[j] == w[i];
        assert(fs[j].0 != q);
    }
}

/// What `without_keys` leaves is among what it was given, and none of it is at a key.
proof fn lemma_without_keys_among(fs: Seq<FileView>, keys: Seq<PathView>)
    ensures
        among(without_keys(fs, keys), fs),
        forall|k: int| 0 <= k < keys.len() ==> absent(without_keys(fs, keys), #[trigger] keys[k]),
    decreases keys.len(),
{
    if keys.len() == 0 {
        let r = without_keys(fs, keys);
        assert forall|i: int| 0 <= i < r.len() implies fs.contains(#[trigger] r[i]) by {
            assert(fs[i] == r[i]);
        }
    } else {
        let d = keys.drop_last();
        let k = keys.last();
        lemma_without_keys_among(fs, d);
        let g = without_keys(fs, d);
        let g1 = without(g, k);
        lemma_without_among(g, k);
        lemma_without_among(g1, public_sibling(k));
        lemma_among_trans(g1, g, fs);
        lemma_among_trans(without(g1, public_sibling(k)), g1, fs);
        assert forall|j: int| 0 <= j < keys.len() implies absent(
            without_keys(fs, keys),
            #[trigger] keys[j],
        ) by {
            if j < d.len() {
                assert(keys[j] == d[j]);
                lemma_without_keeps_absent(g, k, d[j]);
                lemma_without_keeps_absent(g1, public_sibling(k), d[j]);
            } else {
                lemma_without_keeps_absent(g1, public_sibling(k), k);
            }
        }
    }
}

proof fn lemma_none_guessed(root: PathView, fs: Seq<FileView>, host: Seq<char>)
    requires
        forall|i: int| 0 <= i < fs.len() ==> !guess_matches(root, (#[trigger] fs[i]).0, host),
    ensures
        guessed(root, fs, host) == Seq::<PathView>::empty(),
    decreases fs.len(),
{
    if fs.len() > 0 {
        assert(!guess_matches(root, fs[fs.len() - 1].0, host));
        lemma_none_guessed(root, fs.drop_last(), host);
    }
}

/// Removing a host twice in a row leaves the same files as removing it once, provided the
/// first removal leaves no file of the host's private-key shape behind: that is, every such
/// file directly in the managed root is among the keys that the first removal deletes (as it
/// always is when the configuration names none and the shape decided).
pub proof fn lemma_remove_twice(home: PathView, fs: Seq<FileView>, host: Seq<char>)
    requires
        forall|i: int|
            0 <= i < fs.len() && guess_matches(root_of(home), (#[trigger] fs[i]).0, host)
                ==> removed_keys(home, fs, host).contains(fs[i].0),
    ensures
        after_removal(home, after_removal(home, fs, host), host) == after_removal(home, fs, host),
{
    let root = root_of(home);
    let cp = config_path_of(home, host);
    let cands = removed_keys(home, fs, host);
    let w = without(fs, cp);
    let a = after_removal(home, fs, host);
    lemma_without_among(fs, cp);
    lemma_without_keys_among(w, cands);
    lemma_among_trans(a, w, fs);
    lemma_without_keeps_absent(w, cp, cp);
    // no configuration is left
    assert forall|i: int| 0 <= i < a.len() implies (#[trigger] a[i]).0 != cp by {
        let j = choose|j: int| 0 <= j < w.len() && w[j] == a[i];
        assert(w[j].0 != cp);
    }
    lemma_absent_lookup(a, cp);
    // no file of the key shape is left
    assert forall|i: int| 0 <= i < a.len() implies !guess_matches(
        root,
        (#[trigger] a[i]).0,
        host,
    ) by {
        if guess_matches(root, a[i].0, host) {
            let j = choose|j: int| 0 <= j < fs.len() && fs[j] == a[i];
            assert(guess_matches(root, fs[j].0, host));
            let k = choose|k: int| 0 <= k < cands.len() && cands[k] == fs[j].0;
            assert(absent(a, cands[k]));
            assert(a[i].0 != cands[k]);
        }
    }
    lemma_none_guessed(root, a, host);
    assert(removal_candidates(home, a, host) == Seq::<PathView>::empty());
    assert(removed_keys(home, a, host) =~= Seq::<PathView>::empty());
    assert(!has_file(a, cp));
    lemma_without_absent(a, cp);
}

proof fn lemma_values_concat(a: Seq<Seq<char>>, b: Seq<Seq<char>>)
    ensures
        directive_values(a + b) == directive_values(a) + directive_values(b),
    decreases b.len(),
{
    if b.len() == 0 {
        assert(a + b =~= a);
        assert(directive_values(a) + directive_values(b) =~= directive_values(a));
    } else {
        lemma_values_concat(a, b.drop_last());
        assert((a + b).drop_last() =~= a + b.drop_last());
        assert((a + b).last() == b.last());
        match directive_value(b.last()) {
            Some(v) => {
                assert((directive_values(a) + directive_values(b.drop_last())).push(v)
                    =~= directive_values(a) + directive_values(b.drop_last()).push(v));
            },
            None => {},
        }
    }
}

/// The values of a text that starts with one line `x`.
proof fn lemma_values_line(x: Seq<char>, rest: Seq<char>)
    requires
        free_of(x, Sep::Newline),
    ensures
        identity_values(x + seq!['\n'] + rest) == directive_values(seq![x]) + identity_values(rest),
{
    assert(is_sep(Sep::Newline, '\n'));
    lemma_split_after(x, '\n', rest, Sep::Newline);
    lemma_values_concat(seq![x], split_by(rest, Sep::Newline));
}

/// A line `key value` whose key is not `IdentityFile` (in any case) names no identity file.
proof fn lemma_other_line(key: Seq<char>, value: Seq<char>, rest: Seq<char>)
    requires
        key.len() > 0,
        key.len() != identity_keyword().len(),
        free_of(key, Sep::Blank),
        free_of(key + seq![' '] + value, Sep::Newline),
    ensures
        identity_values(line(key, value) + rest) == identity_values(rest),
{
    let x = key + seq![' '] + value;
    assert(line(key, value) + rest =~= x + seq!['\n'] + rest);
    lemma_values_line(x, rest);
    lemma_words_after(key, value);
    assert(words(x)[0] == key);
    assert(directive_value(x) is None);
    let one = seq![x];
    assert(one.drop_last() =~= Seq::<Seq<char>>::empty());
    assert(one.last() == x);
    assert(directive_values(one.drop_last()) == Seq::<Seq<char>>::empty());
    assert(directive_values(one) =~= Seq::<Seq<char>>::empty());
    assert(Seq::<Seq<char>>::empty() + identity_values(rest) =~= identity_values(rest));
}

/// A line `IdentityFile reference` names `reference`.
proof fn lemma_identity_line(reference: Seq<char>, rest: Seq<char>)
    requires
        reference.len() > 0,
        free_of(reference, Sep::Blank),
        free_of(reference, Sep::Newline),
    ensures
        identity_values(line(identity_keyword(), reference) + rest) == seq![reference]
            + identity_values(rest),
{
    let key = identity_keyword();
    let x = key + seq![' '] + reference;
    assert(free_of(key, Sep::Blank));
    assert(free_of(x, Sep::Newline)) by {
        assert forall|i: int| 0 <= i < x.len() implies !is_sep(Sep::Newline, #[trigger] x[i]) by {
            if i > key.len() {
                assert(x[i] == reference[i - key.len() - 1]);
            }
        }
    }
    assert(line(key, reference) + rest =~= x + seq!['\n'] + rest);
    lemma_values_line(x, rest);
    lemma_words_after(key, reference);
    lemma_words_whole(reference);
    assert(seq![key] + seq![reference] =~= seq![key, reference]);
    assert(eq_ignore_case(key, key));
    assert(directive_value(x) == Some(reference));
    let one = seq![x];
    assert(one.drop_last() =~= Seq::<Seq<char>>::empty());
    assert(one.last() == x);
    assert(directive_values(one.drop_last()) == Seq::<Seq<char>>::empty());
    assert(Seq::<Seq<char>>::empty().push(reference) =~= seq![reference]);
    assert(directive_values(one) =~= seq![reference]);
}

proof fn lemma_values_empty()
    ensures
        identity_values(Seq::<char>::empty()) == Seq::<Seq<char>>::empty(),
{
    let e = Seq::<char>::empty();
    let one = seq![e];
    assert(split_by(e, Sep::Newline) == one);
    assert(one.drop_last() =~= Seq::<Seq<char>>::empty());
    assert(one.last() == e);
    assert(split_by(e, Sep::Blank) == one);
    assert(non_empty(one.drop_last()) == Seq::<Seq<char>>::empty());
    assert(non_empty(one) == non_empty(one.drop_last()));
    assert(words(e) == Seq::<Seq<char>>::empty());
    assert(directive_value(e) is None);
    assert(directive_values(one.drop_last()) == Seq::<Seq<char>>::empty());
    assert(directive_values(one) == Seq::<Seq<char>>::empty());
}

proof fn lemma_decimal_digits(n: nat)
    ensures
        forall|i: int| 0 <= i < decimal(n).len() ==> '0' <= #[trigger] decimal(n)[i] <= '9',
    decreases n,
{
    if n >= 10 {
        lemma_decimal_digits(n / 10);
        let d = decimal(n / 10);
        assert forall|i: int| 0 <= i < decimal(n).len() implies '0' <= #[trigger] decimal(n)[i]
            <= '9' by {
            if i < d.len() {
                assert(decimal(n)[i] == d[i]);
            }
        }
    }
}

/// Characters that are neither white space, nor a line feed, nor a slash.
pub open spec fn plain(a: Seq<char>) -> bool {
    forall|i: int|
        0 <= i < a.len() ==> ('a' <= #[trigger] a[i] <= 'z') || ('A' <= a[i] <= 'Z') || ('0' <= a[i]
            <= '9') || a[i] == '.' || a[i] == '-' || a[i] == '_' || a[i] == '~'
}

proof fn lemma_plain_free(a: Seq<char>)
    requires
        plain(a),
    ensures
        free_of(a, Sep::Blank),
        free_of(a, Sep::Newline),
        free_of(a, Sep::Slash),
{
    assert forall|i: int| 0 <= i < a.len() implies !is_sep(Sep::Blank, #[trigger] a[i]) by {
        let c = a[i];
        assert(('a' <= c <= 'z') || ('A' <= c <= 'Z') || ('0' <= c <= '9') || c == '.' || c == '-'
            || c == '_' || c == '~');
    }
}

proof fn lemma_plain_concat(a: Seq<char>, b: Seq<char>)
    requires
        plain(a),
        plain(b),
    ensures
        plain(a + b),
{
    assert forall|i: int| 0 <= i < (a + b).len() implies ('a' <= #[trigger] (a + b)[i] <= 'z') || (
    'A' <= (a + b)[i] <= 'Z') || ('0' <= (a + b)[i] <= '9') || (a + b)[i] == '.' || (a + b)[i]
        == '-' || (a + b)[i] == '_' || (a + b)[i] == '~' by {
        if i < a.len() {
            assert((a + b)[i] == a[i]);
        } else {
            assert((a + b)[i] == b[i - a.len()]);
        }
    }
}

proof fn lemma_free_line(key: Seq<char>, value: Seq<char>)
    requires
        free_of(key, Sep::Newline),
        free_of(value, Sep::Newline),
    ensures
        free_of(key + seq![' '] + value, Sep::Newline),
{
    let x = key + seq![' '] + value;
    assert forall|i: int| 0 <= i < x.len() implies !is_sep(Sep::Newline, #[trigger] x[i]) by {
        if i < key.len() {
            assert(x[i] == key[i]);
        } else if i > key.len() {
            assert(x[i] == value[i - key.len() - 1]);
        }
    }
}

proof fn lemma_valid_plain(host: Seq<char>, key_type: Seq<char>)
    requires
        valid_host(host),
        valid_key_type(key_type),
    ensures
        plain(host),
        plain(key_type),
{
    assert forall|i: int| 0 <= i < host.len() implies ('a' <= #[trigger] host[i] <= 'z') || ('A'
        <= host[i] <= 'Z') || ('0' <= host[i] <= '9') || host[i] == '.' || host[i] == '-'
        || host[i] == '_' || host[i] == '~' by {
        assert(host_char(host[i]));
    }
    assert forall|i: int| 0 <= i < key_type.len() implies ('a' <= #[trigger] key_type[i] <= 'z')
        || ('A' <= key_type[i] <= 'Z') || ('0' <= key_type[i] <= '9') || key_type[i] == '.'
        || key_type[i] == '-' || key_type[i] == '_' || key_type[i] == '~' by {
        assert(key_type_char(key_type[i]));
    }
}

proof fn lemma_free_concat(a: Seq<char>, b: Seq<char>, sep: Sep)
    requires
        free_of(a, sep),
        free_of(b, sep),
    ensures
        free_of(a + b, sep),
{
    assert forall|i: int| 0 <= i < (a + b).len() implies !is_sep(sep, #[trigger] (a + b)[i]) by {
        if i < a.len() {
            assert((a + b)[i] == a[i]);
        } else {
            assert((a + b)[i] == b[i - a.len()]);
        }
    }
}

proof fn lemma_key_name_plain(key_type: Seq<char>, host: Seq<char>)
    requires
        valid_host(host),
        valid_key_type(key_type),
    ensures
        plain(key_name(key_type, host)),
{
    lemma_valid_plain(host, key_type);
    let head = seq!['i', 'd', '_'];
    assert(plain(head));
    assert(plain(seq!['_']));
    lemma_plain_concat(head, key_type);
    lemma_plain_concat(head + key_type, seq!['_']);
    lemma_plain_concat(head + key_type + seq!['_'], host);
    assert(key_name(key_type, host) =~= head + key_type + seq!['_'] + host);
}

/// The only file that a generated stanza names is `~/.ssh/id_<key_type>_<host>`, provided
/// the user name (if any) stays on its line.
pub proof fn lemma_stanza_values(
    host: Seq<char>,
    key_type: Seq<char>,
    user: Option<Seq<char>>,
    port: Option<u16>,
)
    requires
        valid_host(host),
        valid_key_type(key_type),
        user matches Some(u) ==> free_of(u, Sep::Newline),
    ensures
        identity_values(stanza(host, key_type, user, port)) == seq![
            identity_reference(key_type, host),
        ],
{
    lemma_valid_plain(host, key_type);
    let host_k = host_key();
    let host_name_k = host_name_key();
    let user_k = user_key();
    let port_k = port_key();
    let io_k = seq!['I', 'd', 'e', 'n', 't', 'i', 't', 'i', 'e', 's', 'O', 'n', 'l', 'y'];
    let yes = seq!['y', 'e', 's'];
    assert(plain(host_k));
    assert(plain(host_name_k));
    assert(plain(user_k));
    assert(plain(port_k));
    assert(plain(io_k));
    assert(plain(yes));
    lemma_plain_free(host_k);
    lemma_plain_free(host_name_k);
    lemma_plain_free(user_k);
    lemma_plain_free(port_k);
    lemma_plain_free(io_k);
    lemma_plain_free(yes);
    lemma_plain_free(host);
    let reference = identity_reference(key_type, host);
    let head = seq!['~', '/', '.', 's', 's', 'h', '/'];
    let name = key_name(key_type, host);
    lemma_key_name_plain(key_type, host);
    lemma_plain_free(name);
    assert(free_of(head, Sep::Blank));
    assert(free_of(head, Sep::Newline));
    assert(reference =~= head + name);
    lemma_free_concat(head, name, Sep::Blank);
    lemma_free_concat(head, name, Sep::Newline);
    let e = Seq::<char>::empty();
    let io = line(io_k, yes);
    assert(identities_only_line() =~= io);
    lemma_free_line(io_k, yes);
    lemma_other_line(io_k, yes, e);
    assert(io + e =~= io);
    lemma_values_empty();
    let tail = line(identity_keyword(), reference) + io;
    lemma_identity_line(reference, io);
    assert(seq![reference] + Seq::<Seq<char>>::empty() =~= seq![reference]);
    let port_line = match port {
        Some(p) => line(port_k, decimal(p as nat)),
        None => e,
    };
    match port {
        Some(p) => {
            let d = decimal(p as nat);
            lemma_decimal_digits(p as nat);
            assert(plain(d));
            lemma_plain_free(d);
            lemma_free_line(port_k, d);
            lemma_other_line(port_k, d, tail);
        },
        None => {
            assert(port_line + tail =~= tail);
        },
    }
    let user_line = match user {
        Some(u) => line(user_k, u),
        None => e,
    };
    match user {
        Some(u) => {
            lemma_free_line(user_k, u);
            lemma_other_line(user_k, u, port_line + tail);
        },
        None => {
            assert(user_line + (port_line + tail) =~= port_line + tail);
        },
    }
    let rest = user_line + (port_line + tail);
    lemma_free_line(host_name_k, host);
    lemma_other_line(host_name_k, host, rest);
    lemma_free_line(host_k, host);
    lemma_other_line(host_k, host, line(host_name_k, host) + rest);
    assert(stanza(host, key_type, user, port) =~= line(host_k, host) + (line(host_name_k, host)
        + rest));
}

/// The reference that a generated stanza makes resolves to the generated private key.
proof fn lemma_reference_accepted(home: PathView, key_type: Seq<char>, host: Seq<char>)
    requires
        valid_host(host),
        valid_key_type(key_type),
    ensures
        accepted(home, identity_reference(key_type, host)) == Some(
            private_key_of(home, key_type, host),
        ),
{
    let reference = identity_reference(key_type, host);
    let name = key_name(key_type, host);
    let ssh = ssh_dir_name();
    lemma_key_name_plain(key_type, host);
    lemma_plain_free(name);
    assert(unquoted(reference) == reference);
    assert(reference.subrange(0, 2) =~= home_prefix());
    let rest = reference.subrange(2, reference.len() as int);
    assert(rest =~= ssh + seq!['/'] + name);
    assert(free_of(ssh, Sep::Slash));
    assert(is_sep(Sep::Slash, '/'));
    lemma_split_after(ssh, '/', name, Sep::Slash);
    lemma_split_whole(name, Sep::Slash);
    let segs = split_by(rest, Sep::Slash);
    assert(segs =~= seq![ssh, name]);
    assert(segs.drop_last() =~= seq![ssh]);
    assert(seq![ssh].drop_last() =~= Seq::<Seq<char>>::empty());
    assert(ssh.len() == 4 && name.len() >= 5);
    assert(ssh != dot() && ssh != dot_dot());
    assert(name != dot() && name != dot_dot());
    assert(seq![ssh].last() == ssh);
    assert(walk(home.1, seq![ssh].drop_last()) == home.1);
    assert(walk(home.1, seq![ssh]) == home.1.push(ssh));
    assert(segs.last() == name);
    assert(walk(home.1, segs) == home.1.push(ssh).push(name));
    let p = private_key_of(home, key_type, host);
    assert(resolved(home, reference) == p);
    assert(p.1.subrange(0, root_of(home).1.len() as int) =~= root_of(home).1);
}

/// Generating a host and then removing it leaves the tree exactly as it was before the
/// generation, provided the user name (if any) stays on its line of the stanza.
pub proof fn lemma_generate_then_remove(
    home: PathView,
    fs: Seq<FileView>,
    host: Seq<char>,
    key_type: Seq<char>,
    user: Option<Seq<char>>,
    port: Option<u16>,
    private_key: Seq<char>,
    public_key: Seq<char>,
)
    requires
        !refused(home, fs, host, key_type),
        user matches Some(u) ==> free_of(u, Sep::Newline),
    ensures
        after_removal(
            home,
            generated(home, fs, host, key_type, user, port, private_key, public_key),
            host,
        ) == fs,
{
    let pk = private_key_of(home, key_type, host);
    let qk = public_key_of(home, key_type, host);
    let cp = config_path_of(home, host);
    let text = stanza(host, key_type, user, port);
    let a = (pk, private_key);
    let b = (qk, public_key);
    let c = (cp, text);
    let f1 = fs.push(a);
    let f2 = f1.push(b);
    let g = f2.push(c);
    assert(g == generated(home, fs, host, key_type, user, port, private_key, public_key));
    assert(pk.1.last().len() != qk.1.last().len());
    assert(pk != qk);
    assert(cp.1.len() != pk.1.len() && cp.1.len() != qk.1.len());
    // the stanza names exactly the private key
    lemma_stanza_values(host, key_type, user, port);
    lemma_reference_accepted(home, key_type, host);
    let reference = identity_reference(key_type, host);
    assert(seq![reference].drop_last() =~= Seq::<Seq<char>>::empty());
    assert(seq![reference].last() == reference);
    assert(accepted_all(home, seq![reference].drop_last()) == Seq::<PathView>::empty());
    assert(Seq::<PathView>::empty().push(pk) =~= seq![pk]);
    assert(accepted_all(home, seq![reference]) =~= seq![pk]);
    assert(lookup(g, cp) == Some(text));
    assert(removal_candidates(home, g, host) == seq![pk]);
    assert(pk.1.len() != root_of(home).1.len());
    lemma_before_root(seq![pk], root_of(home), 1);
    assert(seq![pk].take(1) =~= seq![pk]);
    assert(removed_keys(home, g, host) == seq![pk]);
    // the configuration goes
    assert(g.drop_last() =~= f2 && f2.drop_last() =~= f1 && f1.drop_last() =~= fs);
    lemma_without_absent(fs, cp);
    assert(without(g, cp) == without(f2, cp));
    assert(without(f1, cp) == fs.push(a));
    assert(without(f2, cp) == f2);
    // then the key and its sibling
    let ks = seq![pk];
    assert(ks.drop_last() =~= Seq::<PathView>::empty());
    assert(public_sibling(pk) =~= qk) by {
        assert(public_sibling(pk).1 =~= qk.1);
    }
    lemma_without_absent(fs, pk);
    assert(without(f1, pk) == fs);
    assert(without(f2, pk) == fs.push(b));
    lemma_without_absent(fs, qk);
    let h = fs.push(b);
    assert(h.drop_last() =~= fs);
    assert(without(h, qk) == fs);
    assert(ks.last() == pk);
    assert(without_keys(f2, ks.drop_last()) == f2);
    assert(without_keys(f2, ks) == without(without(f2, pk), qk));
}

/// A host identifier with a slash, a space, or any character outside ASCII letters, digits,
/// `.`, `-` and `_` is rejected (and so generation and removal change nothing for it).
pub proof fn lemma_bad_character_rejected(host: Seq<char>, i: int)
    requires
        0 <= i < host.len(),
        host[i] == '/' || host[i] == ' ' || !host_char(host[i]),
    ensures
        !valid_host(host),
{
    assert(!host_char(host[i]));
}

} // verus!
