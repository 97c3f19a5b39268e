//! Enumeration of the managed hosts.
use vstd::prelude::*;
use crate::config::is_strictly_within;
use crate::error::AppError;
use crate::paths::{PathName, PathView, conf_dir_of, conf_suffix};
use crate::root::{FileView, ManagedRoot, distinct_paths};
use crate::text::{ends_with_text, has_suffix};
use vstd::seq_lib::{to_multiset_build, to_multiset_insert};

verus! {

/// Code-point (equivalently, UTF-8 byte) lexicographic order: `a` comes no later than `b`.
pub open spec fn lex_le(a: Seq<char>, b: Seq<char>) -> bool
    decreases a.len(),
{
    if a.len() == 0 {
        true
    } else if b.len() == 0 {
        false
    } else if (a[0] as u32) < (b[0] as u32) {
        true
    } else if (a[0] as u32) == (b[0] as u32) {
        lex_le(a.drop_first(), b.drop_first())
    } else {
        false
    }
}

pub proof fn lemma_lex_total(a: Seq<char>, b: Seq<char>)
    ensures
        lex_le(a, b) || lex_le(b, a),
    decreases a.len(),
{
    if a.len() > 0 && b.len() > 0 && (a[0] as u32) == (b[0] as u32) {
        lemma_lex_total(a.drop_first(), b.drop_first());
    }
}

pub proof fn lemma_lex_trans(a: Seq<char>, b: Seq<char>, c: Seq<char>)
    requires
        lex_le(a, b),
        lex_le(b, c),
    ensures
        lex_le(a, c),
    decreases a.len(),
{
    if a.len() > 0 && b.len() > 0 && c.len() > 0 && (a[0] as u32) == (b[0] as u32) && (b[0] as u32)
        == (c[0] as u32) {
        lemma_lex_trans(a.drop_first(), b.drop_first(), c.drop_first());
    }
}

pub open spec fn sorted(s: Seq<Seq<char>>) -> bool {
    forall|i: int, j: int| 0 <= i < j < s.len() ==> lex_le(s[i], s[j])
}

/// The host whose configuration fragment is at `p`, if `p` is a `<host>.conf` file
/// directly in the configuration directory `conf`.
pub open spec fn host_of(conf: PathView, p: PathView) -> Option<Seq<char>> {
    let name = p.1.last();
    if p.0 == conf.0 && p.1.len() == conf.1.len() + 1 && p.1.subrange(0, conf.1.len() as int)
        == conf.1 && name.len() > 5 && has_suffix(name, conf_suffix()) {
        Some(name.subrange(0, name.len() - 5))
    } else {
        None
    }
}

/// The hosts of the configuration fragments among `fs`, in the order of `fs`.
pub open spec fn hosts_in(conf: PathView, fs: Seq<FileView>) -> Seq<Seq<char>>
    decreases fs.len(),
{
    if fs.len() == 0 {
        Seq::empty()
    } else {
        let r = hosts_in(conf, fs.drop_last());
        match host_of(conf, fs.last().0) {
            Some(h) => r.push(h),
            None => r,
        }
    }
}

proof fn lemma_host_of_injective(conf: PathView, p: PathView, q: PathView)
    requires
        host_of(conf, p) is Some,
        host_of(conf, p) == host_of(conf, q),
    ensures
        p == q,
{
    let np = p.1.last();
    let nq = q.1.last();
    let h = np.subrange(0, np.len() - 5);
    assert(np =~= h + conf_suffix());
    assert(nq =~= nq.subrange(0, nq.len() - 5) + conf_suffix());
    assert(np == nq);
    assert(p.1 =~= p.1.subrange(0, conf.1.len() as int).push(np));
    assert(q.1 =~= q.1.subrange(0, conf.1.len() as int).push(nq));
}

proof fn lemma_hosts_from(conf: PathView, fs: Seq<FileView>)
    ensures
        forall|k: int|
            0 <= k < hosts_in(conf, fs).len() ==> exists|j: int|
                0 <= j < fs.len() && host_of(conf, fs[j].0) == Some(#[trigger] hosts_in(conf, fs)[k]),
    decreases fs.len(),
{
    if fs.len() > 0 {
        let d = fs.drop_last();
        lemma_hosts_from(conf, d);
        let hd = hosts_in(conf, d);
        assert forall|k: int| 0 <= k < hosts_in(conf, fs).len() implies exists|j: int|
            0 <= j < fs.len() && host_of(conf, fs[j].0) == Some(#[trigger] hosts_in(conf, fs)[k]) by {
            if k < hd.len() {
                assert(hosts_in(conf, fs)[k] == hd[k]);
                let j = choose|j: int| 0 <= j < d.len() && host_of(conf, d[j].0) == Some(hd[k]);
                assert(fs[j] == d[j]);
            } else {
                assert(host_of(conf, fs[fs.len() - 1].0) == Some(hosts_in(conf, fs)[k]));
            }
        }
    }
}

/// Files at distinct paths give each host once.
pub proof fn lemma_hosts_distinct(conf: PathView, fs: Seq<FileView>)
    requires
        distinct_paths(fs),
    ensures
        hosts_in(conf, fs).no_duplicates(),
    decreases fs.len(),
{
    if fs.len() > 0 {
        let d = fs.drop_last();
        assert(distinct_paths(d)) by {
            assert forall|i: int, j: int| 0 <= i < j < d.len() implies d[i].0 != d[j].0 by {
                assert(d[i] == fs[i] && d[j] == fs[j]);
            }
        }
        lemma_hosts_distinct(conf, d);
        lemma_hosts_from(conf, d);
        let hd = hosts_in(conf, d);
        match host_of(conf, fs.last().0) {
            Some(h) => {
                let r = hd.push(h);
                assert forall|a: int, b: int| 0 <= a < r.len() && 0 <= b < r.len() && a != b implies r[a]
                    != r[b] by {
                    if a == hd.len() || b == hd.len() {
                        let k = if a == hd.len() {
                            b
                        } else {
                            a
                        };
                        assert(r[k] == hd[k]);
                        if hd[k] == h {
                            let j = choose|j: int| 0 <= j < d.len() && host_of(conf, d[j].0) == Some(hd[k]);
                            lemma_host_of_injective(conf, d[j].0, fs.last().0);
                            assert(fs[j] == d[j]);
                            assert(fs[j].0 != fs[fs.len() - 1].0);
                        }
                    } else {
                        assert(r[a] == hd[a] && r[b] == hd[b]);
                    }
                }
            },
            None => {},
        }
    }
}

/// A sequence with the same elements as one without duplicates has none either.
pub proof fn lemma_same_elements_no_duplicates(a: Seq<Seq<char>>, b: Seq<Seq<char>>)
    requires
        a.to_multiset() == b.to_multiset(),
        b.no_duplicates(),
    ensures
        a.no_duplicates(),
{
    b.lemma_multiset_has_no_duplicates();
    a.lemma_multiset_has_no_duplicates_conv();
}

fn compare_le(a: &String, b: &String) -> (r: bool)
    ensures
        r == lex_le(a@, b@),
{
    let s = a.as_str();
    let t = b.as_str();
    let n = s.unicode_len();
    let m = t.unicode_len();
    let mut i: usize = 0;
    assert(s@.subrange(0, n as int) =~= s@);
    assert(t@.subrange(0, m as int) =~= t@);
    while i < n && i < m
        invariant
            s@ == a@,
            t@ == b@,
            n == s@.len(),
            m == t@.len(),
            i <= n,
            i <= m,
            lex_le(s@, t@) == lex_le(s@.subrange(i as int, n as int), t@.subrange(i as int, m as int)),
        decreases n - i,
    {
        let x = s.get_char(i);
        let y = t.get_char(i);
        let ghost ss = s@.subrange(i as int, n as int);
        let ghost tt = t@.subrange(i as int, m as int);
        assert(ss.len() > 0 && tt.len() > 0);
        assert(ss[0] == x && tt[0] == y);
        if (x as u32) < (y as u32) {
            assert(lex_le(ss, tt));
            return true;
        }
        if (x as u32) != (y as u32) {
            assert(!lex_le(ss, tt));
            return false;
        }
        assert(ss.drop_first() =~= s@.subrange(i + 1, n as int));
        assert(tt.drop_first() =~= t@.subrange(i + 1, m as int));
        i = i + 1;
    }
    i == n
}

/// Puts `x` into the sorted `v` after every element that comes no later than it.
pub fn insert_sorted(v: &mut Vec<String>, x: String)
    requires
        sorted(old(v).deep_view()),
    ensures
        sorted(final(v).deep_view()),
        final(v).deep_view().to_multiset() == old(v).deep_view().to_multiset().insert(x@),
{
    let mut j: usize = 0;
    while j < v.len() && compare_le(&v[j], &x)
        invariant
            j <= v.len(),
            forall|i: int| 0 <= i < j ==> lex_le(#[trigger] v.deep_view()[i], x@),
        decreases v.len() - j,
    {
        j = j + 1;
    }
    let ghost before = v.deep_view();
    let ghost y = x@;
    proof {
        assert forall|i: int| j <= i < before.len() implies lex_le(y, #[trigger] before[i]) by {
            assert(!lex_le(before[j as int], y));
            lemma_lex_total(before[j as int], y);
            if i > j {
                lemma_lex_trans(y, before[j as int], before[i]);
            }
        }
    }
    v.insert(j, x);
    proof {
        let w = before.insert(j as int, y);
        assert(v.deep_view() =~= w);
        assert forall|p: int, q: int| 0 <= p < q < w.len() implies lex_le(w[p], w[q]) by {
            if q < j {
                assert(w[p] == before[p] && w[q] == before[q]);
            } else if q == j {
                assert(w[p] == before[p]);
            } else if p < j {
                assert(w[p] == before[p] && w[q] == before[q - 1]);
            } else if p == j {
                assert(w[q] == before[q - 1]);
            } else {
                assert(w[p] == before[p - 1] && w[q] == before[q - 1]);
            }
        }
        to_multiset_insert(before, j as int, y);
    }
}

/// The host of the configuration fragment at `p`, if `p` is one directly in `conf`.
fn host_of_path(conf: &PathName, p: &PathName) -> (r: Option<String>)
    ensures
        r matches Some(h) ==> host_of(conf@, p@) == Some(h@),
        r is None ==> host_of(conf@, p@) is None,
{
    proof {
        reveal_strlit(".conf");
        assert(".conf"@ =~= conf_suffix());
    }
    if p.segments.len() == 0 || p.segments.len() - 1 != conf.segments.len()
        || !is_strictly_within(p, conf) {
        return None;
    }
    let name = p.segments[p.segments.len() - 1].as_str();
    assert(name@ == p@.1.last());
    let n = name.unicode_len();
    if n > 5 && ends_with_text(name, ".conf") {
        Some(name.substring_char(0, n - 5).to_owned())
    } else {
        None
    }
}

/// The command that lists the managed hosts.
pub struct ListHosts;

impl ListHosts {
    /// The hosts that have a configuration fragment, in lexicographic order.
    pub fn execute(&self, root: &ManagedRoot) -> (r: Result<Vec<String>, AppError>)
        requires
            root.wf(),
        ensures
            r matches Ok(v) && sorted(v.deep_view()) && v.deep_view().no_duplicates()
                && v.deep_view().to_multiset() == hosts_in(
                conf_dir_of(root.home()),
                root.files(),
            ).to_multiset(),
    {
        let conf = root.paths().conf_dir();
        let mut hosts: Vec<String> = Vec::new();
        let ghost fs = root.files();
        let mut i: usize = 0;
        proof {
            assert(fs.take(0) =~= Seq::<FileView>::empty());
            assert(hosts.deep_view() =~= Seq::<Seq<char>>::empty());
        }
        while i < root.len()
            invariant
                i <= fs.len(),
                fs == root.files(),
                conf@ == conf_dir_of(root.home()),
                sorted(hosts.deep_view()),
                hosts.deep_view().to_multiset() == hosts_in(conf@, fs.take(i as int)).to_multiset(),
            decreases fs.len() - i,
        {
            proof {
                assert(fs.take(i + 1).drop_last() =~= fs.take(i as int));
                assert(fs.take(i + 1).last() == fs[i as int]);
            }
            let ghost found = hosts_in(conf@, fs.take(i as int));
            match host_of_path(&conf, root.path_at(i)) {
                Some(h) => {
                    proof {
                        to_multiset_build(found, h@);
                    }
                    insert_sorted(&mut hosts, h);
                },
                None => {},
            }
            i = i + 1;
        }
        assert(fs.take(i as int) =~= fs);
        proof {
            lemma_hosts_distinct(conf@, fs);
            lemma_same_elements_no_duplicates(hosts.deep_view(), hosts_in(conf@, fs));
        }
        Ok(hosts)
    }
}

} // verus!
