use ssv::error::AppError;
use ssv::items::{AddItem, DeleteItem, ListItems};
use ssv::storage::{FilesystemStorage, Storage};

const HOME: &str = "/home/tester";

fn storage() -> FilesystemStorage {
    FilesystemStorage::new_default(HOME)
}

#[test]
fn add_item_forwards_to_storage() {
    let mut storage = storage();
    let command = AddItem { id: "demo", content: "example" };

    command.execute(&mut storage).expect("execution should succeed");

    let items = storage.list_items().unwrap();
    assert_eq!(items.len(), 1);
    assert_eq!(items[0], "demo".to_string());
    assert_eq!(storage.content("demo"), Some("example".to_string()));
}

#[test]
fn delete_item_forwards_to_storage() {
    let mut storage = storage();
    storage.add_item("demo", "x").unwrap();
    let command = DeleteItem { id: "demo" };

    command.execute(&mut storage).expect("execution should succeed");

    let items = storage.list_items().unwrap();
    assert!(items.is_empty());
}

#[test]
fn list_items_returns_storage_values() {
    let mut storage = storage();
    storage.add_item("first", "1").unwrap();
    storage.add_item("second", "2").unwrap();

    let items = ListItems.execute(&storage).expect("execution should succeed");
    assert_eq!(items, vec!["first".to_string(), "second".to_string()]);
}

#[test]
fn add_item_persists_contents() {
    let mut storage = storage();
    storage.add_item("demo", "example content").expect("add_item should succeed");
    let saved = storage.item_file("demo").to_text();
    assert_eq!(saved, format!("{HOME}/.config/rs-cli-tmpl/demo/item.txt"));
    assert_eq!(storage.content("demo"), Some("example content".to_string()));
}

#[test]
fn list_items_returns_all_ids() {
    let mut storage = storage();

    storage.add_item("first", "one").unwrap();
    storage.add_item("second", "two").unwrap();

    let mut items = storage.list_items().expect("list_items succeeds");
    items.sort();
    assert_eq!(items, vec!["first", "second"]);
}

#[test]
fn delete_item_removes_directory() {
    let mut storage = storage();

    storage.add_item("temp", "data").unwrap();
    storage.delete_item("temp").expect("delete succeeds");

    assert_eq!(storage.content("temp"), None);
}

#[test]
fn delete_item_fails_if_not_exists() {
    let mut storage = storage();

    let result = storage.delete_item("nonexistent");
    assert!(matches!(result, Err(AppError::ItemNotFound(ref id)) if id == "nonexistent"));
}
