//! Character-level text helpers: splitting on separators, tokens, prefixes.
use vstd::prelude::*;

verus! {

/// The separator classes that text is split on.
#[derive(Clone, Copy, PartialEq, Eq)]
pub enum Sep {
    /// The path separator `/`.
    Slash,
    /// The line feed `\n`.
    Newline,
    /// Any Unicode white space, as `char::is_whitespace` classifies it.
    Blank,
}

/// Unicode `White_Space`, the set that `char::is_whitespace` tests for.
pub open spec fn is_white(c: char) -> bool {
    let n = c as u32;
    n == 0x20 || (0x09 <= n && n <= 0x0D) || n == 0x85 || n == 0xA0 || n == 0x1680 || (0x2000
        <= n && n <= 0x200A) || n == 0x2028 || n == 0x2029 || n == 0x202F || n == 0x205F || n
        == 0x3000
}

pub open spec fn is_sep(sep: Sep, c: char) -> bool {
    match sep {
        Sep::Slash => c == '/',
        Sep::Newline => c == '\n',
        Sep::Blank => is_white(c),
    }
}

/// The pieces of `s` between separators, empty pieces included (always at least one).
pub open spec fn split_by(s: Seq<char>, sep: Sep) -> Seq<Seq<char>>
    decreases s.len(),
{
    if s.len() == 0 {
        seq![Seq::empty()]
    } else {
        let r = split_by(s.drop_last(), sep);
        if is_sep(sep, s.last()) {
            r.push(Seq::empty())
        } else {
            r.update(r.len() - 1, r.last().push(s.last()))
        }
    }
}

/// The non-empty pieces of `v`, in order.
pub open spec fn non_empty(v: Seq<Seq<char>>) -> Seq<Seq<char>>
    decreases v.len(),
{
    if v.len() == 0 {
        Seq::empty()
    } else if v.last().len() == 0 {
        non_empty(v.drop_last())
    } else {
        non_empty(v.drop_last()).push(v.last())
    }
}

/// The white-space separated words of `s`, as `str::split_whitespace` yields them.
pub open spec fn words(s: Seq<char>) -> Seq<Seq<char>> {
    non_empty(split_by(s, Sep::Blank))
}

pub open spec fn has_prefix(s: Seq<char>, p: Seq<char>) -> bool {
    p.len() <= s.len() && s.subrange(0, p.len() as int) == p
}

pub open spec fn has_suffix(s: Seq<char>, p: Seq<char>) -> bool {
    p.len() <= s.len() && s.subrange(s.len() - p.len(), s.len() as int) == p
}

/// The code of `c` with ASCII upper case letters taken to lower case.
pub open spec fn lower_code(c: char) -> u32 {
    let n = c as u32;
    if 65 <= n && n <= 90 {
        (n + 32) as u32
    } else {
        n
    }
}

/// Equality up to ASCII case, as `str::eq_ignore_ascii_case` decides it.
pub open spec fn eq_ignore_case(a: Seq<char>, b: Seq<char>) -> bool {
    a.len() == b.len() && forall|i: int| 0 <= i < a.len() ==> lower_code(a[i]) == lower_code(b[i])
}

pub proof fn lemma_split_nonempty(s: Seq<char>, sep: Sep)
    ensures
        split_by(s, sep).len() >= 1,
    decreases s.len(),
{
    if s.len() > 0 {
        lemma_split_nonempty(s.drop_last(), sep);
    }
}

pub fn sep_matches(sep: Sep, c: char) -> (r: bool)
    ensures
        r == is_sep(sep, c),
{
    match sep {
        Sep::Slash => c == '/',
        Sep::Newline => c == '\n',
        Sep::Blank => {
            let n = c as u32;
            n == 0x20 || (0x09 <= n && n <= 0x0D) || n == 0x85 || n == 0xA0 || n == 0x1680 || (
            0x2000 <= n && n <= 0x200A) || n == 0x2028 || n == 0x2029 || n == 0x202F || n
                == 0x205F || n == 0x3000
        },
    }
}

/// Splits `s` at every separator of the class `sep`.
pub fn split_text(s: &str, sep: Sep) -> (r: Vec<String>)
    ensures
        r.deep_view() == split_by(s@, sep),
{
    let n = s.unicode_len();
    let mut parts: Vec<String> = Vec::new();
    let mut start: usize = 0;
    let mut i: usize = 0;
    proof {
        assert(s@.take(0) =~= Seq::<char>::empty());
        assert(parts.deep_view().push(s@.subrange(0, 0)) =~= split_by(s@.take(0), sep));
    }
    while i < n
        invariant
            n == s@.len(),
            start <= i <= n,
            parts.deep_view().push(s@.subrange(start as int, i as int)) == split_by(
                s@.take(i as int),
                sep,
            ),
        decreases n - i,
    {
        let c = s.get_char(i);
        let ghost prev = s@.take(i as int);
        proof {
            assert(s@.take(i + 1).drop_last() =~= prev);
            assert(s@.take(i + 1).last() == c);
            lemma_split_nonempty(prev, sep);
        }
        if sep_matches(sep, c) {
            let ghost old_parts = parts.deep_view();
            let piece = s.substring_char(start, i);
            let owned = piece.to_owned();
            assert(owned@ == s@.subrange(start as int, i as int));
            parts.push(owned);
            proof {
                assert(parts.deep_view() =~= old_parts.push(s@.subrange(start as int, i as int)));
            }
            start = i + 1;
            proof {
                assert(s@.subrange(start as int, i + 1) =~= Seq::<char>::empty());
                assert(parts.deep_view().push(s@.subrange(start as int, i + 1)) =~= split_by(
                    s@.take(i + 1),
                    sep,
                ));
            }
        } else {
            proof {
                let sub = s@.subrange(start as int, i as int);
                assert(s@.subrange(start as int, i + 1) =~= sub.push(c));
                let r = split_by(prev, sep);
                assert(r == parts.deep_view().push(sub));
                assert(split_by(s@.take(i + 1), sep) == r.update(r.len() - 1, r.last().push(c)));
                assert(r.update(r.len() - 1, r.last().push(c)) =~= parts.deep_view().push(
                    sub.push(c),
                ));
                assert(parts.deep_view().push(s@.subrange(start as int, i + 1)) =~= split_by(
                    s@.take(i + 1),
                    sep,
                ));
            }
        }
        i = i + 1;
    }
    let last = s.substring_char(start, n);
    parts.push(last.to_owned());
    proof {
        assert(s@.take(n as int) =~= s@);
        assert(parts.deep_view() =~= split_by(s@, sep));
    }
    parts
}

pub fn eq_ignore_ascii_case(a: &str, b: &str) -> (r: bool)
    ensures
        r == eq_ignore_case(a@, b@),
{
    let n = a.unicode_len();
    if n != b.unicode_len() {
        return false;
    }
    let mut i: usize = 0;
    while i < n
        invariant
            n == a@.len(),
            n == b@.len(),
            i <= n,
            forall|j: int| 0 <= j < i ==> lower_code(a@[j]) == lower_code(b@[j]),
        decreases n - i,
    {
        let x = a.get_char(i) as u32;
        let y = b.get_char(i) as u32;
        let lx = if 65 <= x && x <= 90 {
            x + 32
        } else {
            x
        };
        let ly = if 65 <= y && y <= 90 {
            y + 32
        } else {
            y
        };
        if lx != ly {
            return false;
        }
        i = i + 1;
    }
    true
}

/// The non-empty strings of `v`, in order.
pub fn keep_non_empty(v: Vec<String>) -> (r: Vec<String>)
    ensures
        r.deep_view() == non_empty(v.deep_view()),
{
    let mut out: Vec<String> = Vec::new();
    let mut i: usize = 0;
    proof {
        assert(v.deep_view().take(0) =~= Seq::<Seq<char>>::empty());
        assert(out.deep_view() =~= Seq::<Seq<char>>::empty());
    }
    while i < v.len()
        invariant
            i <= v.len(),
            out.deep_view() == non_empty(v.deep_view().take(i as int)),
        decreases v.len() - i,
    {
        let ghost before = out.deep_view();
        proof {
            assert(v.deep_view().take(i + 1).drop_last() =~= v.deep_view().take(i as int));
            assert(v.deep_view().take(i + 1).last() == v[i as int]@);
        }
        if v[i].as_str().unicode_len() > 0 {
            out.push(v[i].clone());
            assert(out.deep_view() =~= before.push(v[i as int]@));
        }
        i = i + 1;
    }
    assert(v.deep_view().take(i as int) =~= v.deep_view());
    out
}

/// The white-space separated words of `s`.
pub fn split_words(s: &str) -> (r: Vec<String>)
    ensures
        r.deep_view() == words(s@),
{
    keep_non_empty(split_text(s, Sep::Blank))
}

/// Whether `s` ends with `suffix`.
pub fn ends_with_text(s: &str, suffix: &str) -> (r: bool)
    ensures
        r == has_suffix(s@, suffix@),
{
    let n = s.unicode_len();
    let m = suffix.unicode_len();
    if m > n {
        return false;
    }
    let mut i: usize = 0;
    while i < m
        invariant
            n == s@.len(),
            m == suffix@.len(),
            m <= n,
            i <= m,
            forall|j: int| 0 <= j < i ==> s@[n - m + j] == suffix@[j],
        decreases m - i,
    {
        if s.get_char(n - m + i) != suffix.get_char(i) {
            assert(s@.subrange(n - m, n as int)[i as int] != suffix@[i as int]);
            return false;
        }
        i = i + 1;
    }
    assert(s@.subrange(n - m, n as int) =~= suffix@);
    true
}

/// Whether `s` starts with `prefix`.
pub fn starts_with_text(s: &str, prefix: &str) -> (r: bool)
    ensures
        r == has_prefix(s@, prefix@),
{
    let n = s.unicode_len();
    let m = prefix.unicode_len();
    if m > n {
        return false;
    }
    let mut i: usize = 0;
    while i < m
        invariant
            n == s@.len(),
            m == prefix@.len(),
            m <= n,
            i <= m,
            forall|j: int| 0 <= j < i ==> s@[j] == prefix@[j],
        decreases m - i,
    {
        if s.get_char(i) != prefix.get_char(i) {
            assert(s@.subrange(0, m as int)[i as int] != prefix@[i as int]);
            return false;
        }
        i = i + 1;
    }
    assert(s@.subrange(0, m as int) =~= prefix@);
    true
}

/// No character of `a` is a separator of the class `sep`.
pub open spec fn free_of(a: Seq<char>, sep: Sep) -> bool {
    forall|i: int| 0 <= i < a.len() ==> !is_sep(sep, #[trigger] a[i])
}

pub proof fn lemma_split_whole(a: Seq<char>, sep: Sep)
    requires
        free_of(a, sep),
    ensures
        split_by(a, sep) == seq![a],
    decreases a.len(),
{
    if a.len() > 0 {
        assert(!is_sep(sep, a[a.len() - 1]));
        assert(free_of(a.drop_last(), sep)) by {
            assert forall|i: int| 0 <= i < a.drop_last().len() implies !is_sep(
                sep,
                #[trigger] a.drop_last()[i],
            ) by {
                assert(a.drop_last()[i] == a[i]);
            }
        }
        lemma_split_whole(a.drop_last(), sep);
        assert(a.drop_last().push(a.last()) =~= a);
        assert(seq![a.drop_last()].update(0, a.drop_last().push(a.last())) =~= seq![a]);
    } else {
        assert(a =~= Seq::<char>::empty());
    }
}

/// Splitting text that starts with a separator-free piece and a separator.
pub proof fn lemma_split_after(a: Seq<char>, c: char, rest: Seq<char>, sep: Sep)
    requires
        free_of(a, sep),
        is_sep(sep, c),
    ensures
        split_by(a + seq![c] + rest, sep) == seq![a] + split_by(rest, sep),
    decreases rest.len(),
{
    let s = a + seq![c] + rest;
    if rest.len() == 0 {
        assert(s.drop_last() =~= a);
        lemma_split_whole(a, sep);
        assert(seq![a].push(Seq::<char>::empty()) =~= seq![a] + seq![Seq::<char>::empty()]);
    } else {
        let r = rest.drop_last();
        assert(s.drop_last() =~= a + seq![c] + r);
        assert(s.last() == rest.last());
        lemma_split_after(a, c, r, sep);
        lemma_split_nonempty(r, sep);
        let t = split_by(r, sep);
        if is_sep(sep, rest.last()) {
            assert((seq![a] + t).push(Seq::<char>::empty()) =~= seq![a] + t.push(
                Seq::<char>::empty(),
            ));
        } else {
            let u = seq![a] + t;
            assert(u.update(u.len() - 1, u.last().push(rest.last())) =~= seq![a] + t.update(
                t.len() - 1,
                t.last().push(rest.last()),
            ));
        }
    }
}

pub proof fn lemma_non_empty_concat(a: Seq<Seq<char>>, b: Seq<Seq<char>>)
    ensures
        non_empty(a + b) == non_empty(a) + non_empty(b),
    decreases b.len(),
{
    if b.len() == 0 {
        assert(a + b =~= a);
        assert(non_empty(a) + non_empty(b) =~= non_empty(a));
    } else {
        lemma_non_empty_concat(a, b.drop_last());
        assert((a + b).drop_last() =~= a + b.drop_last());
        assert((a + b).last() == b.last());
        if b.last().len() > 0 {
            assert((non_empty(a) + non_empty(b.drop_last())).push(b.last()) =~= non_empty(a)
                + non_empty(b.drop_last()).push(b.last()));
        }
    }
}

/// The words of `key value`, for a non-empty `key` without white space.
pub proof fn lemma_words_after(key: Seq<char>, value: Seq<char>)
    requires
        key.len() > 0,
        free_of(key, Sep::Blank),
    ensures
        words(key + seq![' '] + value) == seq![key] + words(value),
{
    assert(is_sep(Sep::Blank, ' '));
    lemma_split_after(key, ' ', value, Sep::Blank);
    lemma_non_empty_concat(seq![key], split_by(value, Sep::Blank));
    lemma_non_empty_single(key);
}

/// The words of a non-empty text without white space: the text itself.
pub proof fn lemma_words_whole(a: Seq<char>)
    requires
        a.len() > 0,
        free_of(a, Sep::Blank),
    ensures
        words(a) == seq![a],
{
    lemma_split_whole(a, Sep::Blank);
    lemma_non_empty_single(a);
}

proof fn lemma_non_empty_single(a: Seq<char>)
    requires
        a.len() > 0,
    ensures
        non_empty(seq![a]) == seq![a],
{
    let v = seq![a];
    assert(v.drop_last() =~= Seq::<Seq<char>>::empty());
    assert(non_empty(v.drop_last()) == Seq::<Seq<char>>::empty());
    assert(v.last() == a);
    assert(Seq::<Seq<char>>::empty().push(a) =~= v);
}

} // verus!
