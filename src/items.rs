//! Commands over a [`Storage`]: add, delete and list items.
use vstd::prelude::*;
use crate::commands::list_hosts::sorted;
use crate::error::AppError;
use crate::storage::{Storage, distinct_ids, drop_item, find_item, item_ids, valid_item_id};

verus! {

/// Stores one item.
pub struct AddItem<'a> {
    pub id: &'a str,
    pub content: &'a str,
}

impl<'a> AddItem<'a> {
    pub fn execute<S: Storage>(&self, storage: &mut S) -> (r: Result<(), AppError>)
        requires
            distinct_ids(old(storage).items()),
        ensures
            r is Ok <==> valid_item_id(self.id@),
            distinct_ids(final(storage).items()),
            r is Ok ==> final(storage).items() == drop_item(old(storage).items(), self.id@).push(
                (self.id@, self.content@),
            ),
            r matches Err(e) ==> e is ConfigError && final(storage).items() == old(storage).items(),
    {
        storage.add_item(self.id, self.content)
    }
}

/// Deletes one item.
pub struct DeleteItem<'a> {
    pub id: &'a str,
}

impl<'a> DeleteItem<'a> {
    pub fn execute<S: Storage>(&self, storage: &mut S) -> (r: Result<(), AppError>)
        requires
            distinct_ids(old(storage).items()),
        ensures
            r is Ok <==> valid_item_id(self.id@) && find_item(old(storage).items(), self.id@) is Some,
            distinct_ids(final(storage).items()),
            r is Ok ==> final(storage).items() == drop_item(old(storage).items(), self.id@),
            !valid_item_id(self.id@) ==> (r matches Err(e) && e is ConfigError),
            valid_item_id(self.id@) && find_item(old(storage).items(), self.id@) is None ==> (
            r matches Err(AppError::ItemNotFound(s)) && s@ == self.id@),
            r is Err ==> final(storage).items() == old(storage).items(),
    {
        storage.delete_item(self.id)
    }
}

/// Lists the identifiers of the stored items.
pub struct ListItems;

impl ListItems {
    pub fn execute<S: Storage>(&self, storage: &S) -> (r: Result<Vec<String>, AppError>)
        requires
            distinct_ids(storage.items()),
        ensures
            r matches Ok(v) && sorted(v.deep_view()) && v.deep_view().no_duplicates()
                && v.deep_view().to_multiset() == item_ids(
                storage.items(),
            ).to_multiset(),
    {
        storage.list_items()
    }
}

} // verus!
