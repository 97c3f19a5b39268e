//! A small store of text items, each kept under its own identifier.
use vstd::prelude::*;
use crate::commands::list_hosts::{insert_sorted, lemma_same_elements_no_duplicates, sorted};
use crate::error::AppError;
use crate::paths::{PathName, PathView, normal_form, normalize_path};

verus! {

/// An item as its identifier and its content.
pub type ItemView = (Seq<char>, Seq<char>);

/// What `char::is_alphanumeric` says of `c` (Unicode `Alphabetic` or `Numeric`).
pub uninterp spec fn alphanumeric(c: char) -> bool;

/// Relies on `char::is_alphanumeric`, whose result depends on the character alone; ASCII
/// letters and digits are alphabetic or numeric.
#[verifier::external_body]
fn is_alphanumeric(c: char) -> (r: bool)
    ensures
        r == alphanumeric(c),
        ('a' <= c <= 'z') || ('A' <= c <= 'Z') || ('0' <= c <= '9') ==> r,
{
    c.is_alphanumeric()
}

/// An item identifier: non-empty, of alphanumeric characters and `-` only.
pub open spec fn valid_item_id(id: Seq<char>) -> bool {
    id.len() > 0 && forall|i: int| 0 <= i < id.len() ==> alphanumeric(#[trigger] id[i]) || id[i] == '-'
}

/// The content of the last item with identifier `id`, if any.
pub open spec fn find_item(items: Seq<ItemView>, id: Seq<char>) -> Option<Seq<char>>
    decreases items.len(),
{
    if items.len() == 0 {
        None
    } else if items.last().0 == id {
        Some(items.last().1)
    } else {
        find_item(items.drop_last(), id)
    }
}

/// `items` without those with identifier `id`, the others in their order.
pub open spec fn drop_item(items: Seq<ItemView>, id: Seq<char>) -> Seq<ItemView>
    decreases items.len(),
{
    if items.len() == 0 {
        items
    } else if items.last().0 == id {
        drop_item(items.drop_last(), id)
    } else {
        drop_item(items.drop_last(), id).push(items.last())
    }
}

pub open spec fn item_ids(items: Seq<ItemView>) -> Seq<Seq<char>> {
    Seq::new(items.len(), |i: int| items[i].0)
}

/// No two items share an identifier.
pub open spec fn distinct_ids(items: Seq<ItemView>) -> bool {
    item_ids(items).no_duplicates()
}

/// What `drop_item` keeps is among `items`, none of it has identifier `id`, and distinct
/// identifiers stay distinct.
pub proof fn lemma_drop_item(items: Seq<ItemView>, id: Seq<char>)
    ensures
        forall|k: int|
            0 <= k < drop_item(items, id).len() ==> items.contains(#[trigger] drop_item(items, id)[k]),
        forall|k: int| 0 <= k < drop_item(items, id).len() ==> (#[trigger] drop_item(items, id)[k]).0 != id,
        distinct_ids(items) ==> distinct_ids(drop_item(items, id)),
    decreases items.len(),
{
    if items.len() > 0 {
        let d = items.drop_last();
        lemma_drop_item(d, id);
        let w = drop_item(d, id);
        assert forall|k: int| 0 <= k < w.len() implies items.contains(#[trigger] w[k]) by {
            let j = choose|j: int| 0 <= j < d.len() && d[j] == w[k];
            assert(items[j] == w[k]);
        }
        if distinct_ids(items) {
            assert(distinct_ids(d)) by {
                assert forall|a: int, b: int| 0 <= a < item_ids(d).len() && 0 <= b < item_ids(d).len()
                    && a != b implies item_ids(d)[a] != item_ids(d)[b] by {
                    assert(item_ids(d)[a] == item_ids(items)[a] && item_ids(d)[b] == item_ids(items)[b]);
                }
            }
        }
        if items.last().0 != id {
            let r = w.push(items.last());
            assert forall|k: int| 0 <= k < r.len() implies items.contains(#[trigger] r[k]) by {
                if k == w.len() {
                    assert(items[items.len() - 1] == r[k]);
                } else {
                    assert(r[k] == w[k]);
                }
            }
            assert forall|k: int| 0 <= k < r.len() implies (#[trigger] r[k]).0 != id by {
                if k < w.len() {
                    assert(r[k] == w[k]);
                }
            }
            if distinct_ids(items) {
                assert forall|a: int, b: int| 0 <= a < item_ids(r).len() && 0 <= b < item_ids(r).len()
                    && a != b implies item_ids(r)[a] != item_ids(r)[b] by {
                    if a == w.len() || b == w.len() {
                        let k = if a == w.len() {
                            b
                        } else {
                            a
                        };
                        assert(r[k] == w[k]);
                        let j = choose|j: int| 0 <= j < d.len() && d[j] == w[k];
                        assert(item_ids(items)[j] == d[j].0);
                        assert(item_ids(items)[items.len() - 1] == items.last().0);
                    } else {
                        assert(r[a] == w[a] && r[b] == w[b]);
                        assert(item_ids(w)[a] == w[a].0 && item_ids(w)[b] == w[b].0);
                    }
                }
            }
        }
    }
}

/// A place where items are kept.
pub trait Storage {
    spec fn items(&self) -> Seq<ItemView>;

    /// Stores `content` under `id`, in place of what was there; a malformed identifier is
    /// a configuration error.
    fn add_item(&mut self, id: &str, content: &str) -> (r: Result<(), AppError>)
        requires
            distinct_ids(old(self).items()),
        ensures
            distinct_ids(final(self).items()),
            r is Ok <==> valid_item_id(id@),
            r is Ok ==> final(self).items() == drop_item(old(self).items(), id@).push(
                (id@, content@),
            ),
            r matches Err(e) ==> e is ConfigError && final(self).items() == old(self).items(),
    ;

    /// The identifiers of the stored items, in lexicographic order.
    fn list_items(&self) -> (r: Result<Vec<String>, AppError>)
        requires
            distinct_ids(self.items()),
        ensures
            r matches Ok(v) && sorted(v.deep_view()) && v.deep_view().no_duplicates()
                && v.deep_view().to_multiset() == item_ids(
                self.items(),
            ).to_multiset(),
    ;

    /// Deletes the item `id`: a malformed identifier is a configuration error, a missing
    /// item is `ItemNotFound` with the identifier.
    fn delete_item(&mut self, id: &str) -> (r: Result<(), AppError>)
        requires
            distinct_ids(old(self).items()),
        ensures
            distinct_ids(final(self).items()),
            r is Ok <==> valid_item_id(id@) && find_item(old(self).items(), id@) is Some,
            r is Ok ==> final(self).items() == drop_item(old(self).items(), id@),
            !valid_item_id(id@) ==> (r matches Err(e) && e is ConfigError),
            valid_item_id(id@) && find_item(old(self).items(), id@) is None ==> (r matches Err(
                AppError::ItemNotFound(s),
            ) && s@ == id@),
            r is Err ==> final(self).items() == old(self).items(),
    ;
}

pub struct StoredItem {
    pub id: String,
    pub content: String,
}

pub open spec fn item_views(v: Seq<StoredItem>) -> Seq<ItemView> {
    Seq::new(v.len(), |i: int| (v[i].id@, v[i].content@))
}

/// A store of items held in memory. Its paths are those of a layout below
/// `<home>/.config/rs-cli-tmpl`, one directory per item holding `item.txt`, but nothing here
/// reads or writes the disk.
pub struct FilesystemStorage {
    root_path: PathName,
    entries: Vec<StoredItem>,
}

pub open spec fn storage_root(home: PathView) -> PathView {
    (
        home.0,
        home.1.push(seq!['.', 'c', 'o', 'n', 'f', 'i', 'g']).push(
            seq!['r', 's', '-', 'c', 'l', 'i', '-', 't', 'm', 'p', 'l'],
        ),
    )
}

impl FilesystemStorage {
    pub closed spec fn root(&self) -> PathView {
        self.root_path@
    }

    /// An empty store below the home directory `home`.
    pub fn new_default(home: &str) -> (r: FilesystemStorage)
        ensures
            r.root() == storage_root(normal_form(home@)),
            r.items() == Seq::<ItemView>::empty(),
            distinct_ids(r.items()),
    {
        proof {
            reveal_strlit(".config");
            reveal_strlit("rs-cli-tmpl");
            assert(".config"@ =~= seq!['.', 'c', 'o', 'n', 'f', 'i', 'g']);
            assert("rs-cli-tmpl"@ =~= seq!['r', 's', '-', 'c', 'l', 'i', '-', 't', 'm', 'p', 'l']);
        }
        let base = normalize_path(home);
        let root_path = base.child(".config".to_owned()).child("rs-cli-tmpl".to_owned());
        let r = FilesystemStorage { root_path, entries: Vec::new() };
        assert(item_views(r.entries@) =~= Seq::<ItemView>::empty());
        assert(item_ids(item_views(r.entries@)) =~= Seq::<Seq<char>>::empty());
        r
    }

    /// Whether `id` may name an item.
    pub fn is_id_valid(id: &str) -> (r: bool)
        ensures
            r == valid_item_id(id@),
    {
        let n = id.unicode_len();
        if n == 0 {
            return false;
        }
        let mut i: usize = 0;
        while i < n
            invariant
                n == id@.len(),
                i <= n,
                forall|j: int| 0 <= j < i ==> alphanumeric(#[trigger] id@[j]) || id@[j] == '-',
            decreases n - i,
        {
            let c = id.get_char(i);
            if !(is_alphanumeric(c) || c == '-') {
                return false;
            }
            i = i + 1;
        }
        true
    }

    fn ensure_valid_id(&self, id: &str) -> (r: Result<(), AppError>)
        ensures
            r is Ok <==> valid_item_id(id@),
            r matches Err(e) ==> e is ConfigError,
    {
        if Self::is_id_valid(id) {
            Ok(())
        } else {
            Err(AppError::ConfigError("invalid item identifier".to_owned()))
        }
    }

    /// The directory of the item `id`.
    pub fn item_dir(&self, id: &str) -> (r: PathName)
        ensures
            r@ == (self.root().0, self.root().1.push(id@)),
    {
        self.root_path.child(id.to_owned())
    }

    /// The file that holds the content of the item `id`.
    pub fn item_file(&self, id: &str) -> (r: PathName)
        ensures
            r@ == (self.root().0, self.root().1.push(id@).push(
                seq!['i', 't', 'e', 'm', '.', 't', 'x', 't'],
            )),
    {
        proof {
            reveal_strlit("item.txt");
            assert("item.txt"@ =~= seq!['i', 't', 'e', 'm', '.', 't', 'x', 't']);
        }
        self.item_dir(id).child("item.txt".to_owned())
    }

    fn position(&self, id: &str) -> (r: Option<usize>)
        ensures
            r is None ==> find_item(item_views(self.entries@), id@) is None,
            r matches Some(i) ==> i < self.entries@.len() && find_item(
                item_views(self.entries@),
                id@,
            ) == Some(self.entries@[i as int].content@),
    {
        let ghost all = item_views(self.entries@);
        let key = id.to_owned();
        let mut found: Option<usize> = None;
        let mut i: usize = 0;
        assert(all.take(0) =~= Seq::<ItemView>::empty());
        while i < self.entries.len()
            invariant
                i <= self.entries.len(),
                all == item_views(self.entries@),
                key@ == id@,
                found is None ==> find_item(all.take(i as int), id@) is None,
                found matches Some(k) ==> k < i && find_item(all.take(i as int), id@) == Some(
                    self.entries@[k as int].content@,
                ),
            decreases self.entries.len() - i,
        {
            assert(all.take(i + 1).drop_last() =~= all.take(i as int));
            assert(all.take(i + 1).last() == all[i as int]);
            if self.entries[i].id == key {
                found = Some(i);
            }
            i = i + 1;
        }
        assert(all.take(i as int) =~= all);
        found
    }

    /// The content of the item `id`, if it is stored.
    pub fn content(&self, id: &str) -> (r: Option<String>)
        ensures
            r matches Some(c) ==> find_item(self.items(), id@) == Some(c@),
            r is None ==> find_item(self.items(), id@) is None,
    {
        match self.position(id) {
            Some(i) => Some(self.entries[i].content.clone()),
            None => None,
        }
    }

    fn remove_entries(&mut self, id: &str)
        ensures
            final(self).root() == old(self).root(),
            item_views(final(self).entries@) == drop_item(item_views(old(self).entries@), id@),
            forall|k: int|
                0 <= k < final(self).entries@.len() ==> (#[trigger] item_views(
                    final(self).entries@,
                )[k]).0 != id@,
            distinct_ids(item_views(old(self).entries@)) ==> distinct_ids(
                item_views(final(self).entries@),
            ),
    {
        let ghost all = item_views(self.entries@);
        let key = id.to_owned();
        let mut kept: Vec<StoredItem> = Vec::new();
        let mut i: usize = 0;
        assert(all.take(0) =~= Seq::<ItemView>::empty());
        assert(item_views(kept@) =~= Seq::<ItemView>::empty());
        while i < self.entries.len()
            invariant
                i <= self.entries.len(),
                all == item_views(self.entries@),
                key@ == id@,
                item_views(kept@) == drop_item(all.take(i as int), id@),
            decreases self.entries.len() - i,
        {
            let ghost before = item_views(kept@);
            assert(all.take(i + 1).drop_last() =~= all.take(i as int));
            assert(all.take(i + 1).last() == all[i as int]);
            if self.entries[i].id != key {
                let e = StoredItem {
                    id: self.entries[i].id.clone(),
                    content: self.entries[i].content.clone(),
                };
                kept.push(e);
                assert(item_views(kept@) =~= before.push(all[i as int]));
            }
            i = i + 1;
        }
        assert(all.take(i as int) =~= all);
        self.entries = kept;
        proof {
            lemma_drop_item(all, id@);
        }
    }
}

impl Storage for FilesystemStorage {
    closed spec fn items(&self) -> Seq<ItemView> {
        item_views(self.entries@)
    }

    fn add_item(&mut self, id: &str, content: &str) -> (r: Result<(), AppError>) {
        match self.ensure_valid_id(id) {
            Ok(()) => {},
            Err(e) => return Err(e),
        }
        self.remove_entries(id);
        let ghost before = item_views(self.entries@);
        let e = StoredItem { id: id.to_owned(), content: content.to_owned() };
        self.entries.push(e);
        assert(item_views(self.entries@) =~= before.push((id@, content@)));
        proof {
            let after = before.push((id@, content@));
            assert forall|a: int, b: int| 0 <= a < item_ids(after).len() && 0 <= b < item_ids(
                after,
            ).len() && a != b implies item_ids(after)[a] != item_ids(after)[b] by {
                if a < before.len() {
                    assert(item_ids(after)[a] == item_ids(before)[a]);
                    assert(before[a].0 != id@);
                }
                if b < before.len() {
                    assert(item_ids(after)[b] == item_ids(before)[b]);
                    assert(before[b].0 != id@);
                }
            }
        }
        Ok(())
    }

    fn list_items(&self) -> (r: Result<Vec<String>, AppError>) {
        let ghost all = item_views(self.entries@);
        let mut ids: Vec<String> = Vec::new();
        let mut i: usize = 0;
        assert(item_ids(all).take(0) =~= Seq::<Seq<char>>::empty());
        assert(ids.deep_view() =~= Seq::<Seq<char>>::empty());
        while i < self.entries.len()
            invariant
                i <= self.entries.len(),
                all == item_views(self.entries@),
                sorted(ids.deep_view()),
                ids.deep_view().to_multiset() == item_ids(all).take(i as int).to_multiset(),
            decreases self.entries.len() - i,
        {
            let ghost done = item_ids(all).take(i as int);
            assert(item_ids(all).take(i + 1) =~= done.push(self.entries@[i as int].id@));
            proof {
                vstd::seq_lib::to_multiset_build(done, self.entries@[i as int].id@);
            }
            insert_sorted(&mut ids, self.entries[i].id.clone());
            i = i + 1;
        }
        assert(item_ids(all).take(i as int) =~= item_ids(all));
        proof {
            lemma_same_elements_no_duplicates(ids.deep_view(), item_ids(all));
        }
        Ok(ids)
    }

    fn delete_item(&mut self, id: &str) -> (r: Result<(), AppError>) {
        match self.ensure_valid_id(id) {
            Ok(()) => {},
            Err(e) => return Err(e),
        }
        match self.position(id) {
            None => Err(AppError::ItemNotFound(id.to_owned())),
            Some(_) => {
                self.remove_entries(id);
                Ok(())
            },
        }
    }
}

} // verus!
