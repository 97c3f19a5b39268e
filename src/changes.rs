//! The difference between two listings of the tree: which files went, which came.
use vstd::prelude::*;

verus! {

/// Some entry of `s` has the path text `p`.
pub open spec fn has_path(s: Seq<(String, String)>, p: Seq<char>) -> bool
    decreases s.len(),
{
    s.len() > 0 && (s.last().0@ == p || has_path(s.drop_last(), p))
}

/// The path texts of `before` that `after` no longer has, in order.
pub open spec fn departed(before: Seq<(String, String)>, after: Seq<(String, String)>) -> Seq<
    Seq<char>,
>
    decreases before.len(),
{
    if before.len() == 0 {
        Seq::empty()
    } else {
        let r = departed(before.drop_last(), after);
        if has_path(after, before.last().0@) {
            r
        } else {
            r.push(before.last().0@)
        }
    }
}

/// The entries of `after` whose path texts `before` did not have, in order.
pub open spec fn arrived(before: Seq<(String, String)>, after: Seq<(String, String)>) -> Seq<
    (Seq<char>, Seq<char>),
>
    decreases after.len(),
{
    if after.len() == 0 {
        Seq::empty()
    } else {
        let r = arrived(before, after.drop_last());
        if has_path(before, after.last().0@) {
            r
        } else {
            r.push((after.last().0@, after.last().1@))
        }
    }
}

pub open spec fn pair_views(v: Seq<(String, String)>) -> Seq<(Seq<char>, Seq<char>)> {
    Seq::new(v.len(), |i: int| (v[i].0@, v[i].1@))
}

fn contains_path(s: &Vec<(String, String)>, p: &String) -> (r: bool)
    ensures
        r == has_path(s@, p@),
{
    let mut i: usize = 0;
    let mut found = false;
    assert(s@.take(0) =~= Seq::<(String, String)>::empty());
    while i < s.len()
        invariant
            i <= s.len(),
            found == has_path(s@.take(i as int), p@),
        decreases s.len() - i,
    {
        assert(s@.take(i + 1).drop_last() =~= s@.take(i as int));
        assert(s@.take(i + 1).last() == s@[i as int]);
        if s[i].0 == *p {
            found = true;
        }
        i = i + 1;
    }
    assert(s@.take(i as int) =~= s@);
    found
}

/// The files to delete and the files to write to go from `before` to `after`.
pub fn changes(before: &Vec<(String, String)>, after: &Vec<(String, String)>) -> (r: (
    Vec<String>,
    Vec<(String, String)>,
))
    ensures
        r.0.deep_view() == departed(before@, after@),
        pair_views(r.1@) == arrived(before@, after@),
{
    let mut gone: Vec<String> = Vec::new();
    let mut i: usize = 0;
    assert(before@.take(0) =~= Seq::<(String, String)>::empty());
    assert(gone.deep_view() =~= Seq::<Seq<char>>::empty());
    while i < before.len()
        invariant
            i <= before.len(),
            gone.deep_view() == departed(before@.take(i as int), after@),
        decreases before.len() - i,
    {
        let ghost g = gone.deep_view();
        assert(before@.take(i + 1).drop_last() =~= before@.take(i as int));
        assert(before@.take(i + 1).last() == before@[i as int]);
        if !contains_path(after, &before[i].0) {
            gone.push(before[i].0.clone());
            assert(gone.deep_view() =~= g.push(before@[i as int].0@));
        }
        i = i + 1;
    }
    assert(before@.take(i as int) =~= before@);
    let mut came: Vec<(String, String)> = Vec::new();
    let mut j: usize = 0;
    assert(after@.take(0) =~= Seq::<(String, String)>::empty());
    assert(pair_views(came@) =~= Seq::<(Seq<char>, Seq<char>)>::empty());
    while j < after.len()
        invariant
            j <= after.len(),
            pair_views(came@) == arrived(before@, after@.take(j as int)),
        decreases after.len() - j,
    {
        let ghost c = pair_views(came@);
        assert(after@.take(j + 1).drop_last() =~= after@.take(j as int));
        assert(after@.take(j + 1).last() == after@[j as int]);
        if !contains_path(before, &after[j].0) {
            came.push((after[j].0.clone(), after[j].1.clone()));
            assert(pair_views(came@) =~= c.push((after@[j as int].0@, after@[j as int].1@)));
        }
        j = j + 1;
    }
    assert(after@.take(j as int) =~= after@);
    (gone, came)
}

} // verus!
