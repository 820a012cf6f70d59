use todo_kernel::codec::{decode_list, encode_list};
use todo_kernel::storage::{init_todo_storage, path_exists, TodoStorageError};
use todo_kernel::store::{KvStore, MemStore, StoreError};
use todo_kernel::todo::TodoItem;

fn item(body: &str, created_at: u64) -> TodoItem {
    TodoItem::new(body.to_string(), created_at)
}

#[test]
fn test_todo_storage() {
    let mut runtime = MemStore::new();
    let todos = init_todo_storage(&mut runtime).expect("Failed to init todos storage");

    let expected_todo_items = vec![item("Buy milk", 0)];
    todos
        .save(&mut runtime, 1, &expected_todo_items)
        .expect("Failed to save todo");

    let todo_items = todos.get(&runtime, 1).expect("Failed to get todo");

    assert_eq!(expected_todo_items, todo_items);

    let not_foud_todo = todos.get(&runtime, 2);
    assert_eq!(not_foud_todo.unwrap_err(), TodoStorageError::TodoNotFound(2));
}

#[test]
fn round_trip_preserves_items() {
    let mut store = MemStore::new();
    let todos = init_todo_storage(&mut store).unwrap();

    let mut second = item("water the plants", 1700000001);
    second.complete();
    let saved = vec![
        item("Buy milk", 1700000000),
        second,
        item("", 0),
        item("café ☕ 読む", u64::MAX),
    ];
    todos.save(&mut store, 42, &saved).unwrap();

    let got = todos.get(&store, 42).unwrap();
    assert_eq!(saved, got);
    assert_eq!(got.len(), 4);
    assert_eq!(got[1].completed, true);
    assert_eq!(got[3].body, "café ☕ 読む");
    assert_eq!(got[3].created_at, u64::MAX);
}

#[test]
fn empty_list_round_trip() {
    let mut store = MemStore::new();
    let todos = init_todo_storage(&mut store).unwrap();
    todos.save(&mut store, 5, &vec![]).unwrap();
    let got = todos.get(&store, 5).unwrap();
    assert!(got.is_empty());
}

#[test]
fn get_never_saved_is_not_found() {
    let mut store = MemStore::new();
    let todos = init_todo_storage(&mut store).unwrap();
    assert_eq!(
        todos.get(&store, 7).unwrap_err(),
        TodoStorageError::TodoNotFound(7)
    );
    assert_eq!(
        todos.get(&store, 0).unwrap_err(),
        TodoStorageError::TodoNotFound(0)
    );
}

#[test]
fn save_item_on_missing_list_fails_without_writes() {
    let mut store = MemStore::new();
    let todos = init_todo_storage(&mut store).unwrap();

    let r = todos.save_item(&mut store, 9, 0, &item("orphan", 3));
    assert_eq!(r.unwrap_err(), TodoStorageError::TodoNotFound(9));

    let item_path = todos.item_path(9, 0).unwrap();
    let list_path = todos.list_path(9).unwrap();
    assert_eq!(path_exists(&store, &item_path).unwrap(), false);
    assert_eq!(path_exists(&store, &list_path).unwrap(), false);
}

#[test]
fn save_item_into_existing_list() {
    let mut store = MemStore::new();
    let todos = init_todo_storage(&mut store).unwrap();

    let saved = vec![item("first", 1)];
    todos.save(&mut store, 3, &saved).unwrap();
    todos
        .save_item(&mut store, 3, 0, &item("replacement", 2))
        .unwrap();

    // The aggregate snapshot at the list path stays authoritative for
    // reads; a per-item write does not change what get returns.
    let got = todos.get(&store, 3).unwrap();
    assert_eq!(saved, got);
    let item_path = todos.item_path(3, 0).unwrap();
    assert_eq!(path_exists(&store, &item_path).unwrap(), true);
}

#[test]
fn overwrite_leaves_only_second_list() {
    let mut store = MemStore::new();
    let todos = init_todo_storage(&mut store).unwrap();

    let v1 = vec![item("one", 1), item("two", 2), item("three", 3)];
    let v2 = vec![item("only", 9)];
    todos.save(&mut store, 11, &v1).unwrap();
    todos.save(&mut store, 11, &v2).unwrap();

    let got = todos.get(&store, 11).unwrap();
    assert_eq!(v2, got);
}

#[test]
fn paths_are_deterministic_and_collision_free() {
    let mut store = MemStore::new();
    let todos = init_todo_storage(&mut store).unwrap();

    assert_eq!(todos.list_path(7).unwrap(), todos.list_path(7).unwrap());
    assert_eq!(
        todos.item_path(7, 1).unwrap(),
        todos.item_path(7, 1).unwrap()
    );
    assert_ne!(todos.list_path(7).unwrap(), todos.list_path(8).unwrap());
    assert_ne!(
        todos.item_path(7, 1).unwrap(),
        todos.item_path(7, 2).unwrap()
    );
    assert_ne!(
        todos.item_path(7, 1).unwrap(),
        todos.item_path(8, 1).unwrap()
    );
    assert_ne!(todos.list_path(7).unwrap(), todos.item_path(7, 0).unwrap());

    assert_eq!(todos.list_path(120).unwrap(), b"/todos/120".to_vec());
    assert_eq!(todos.item_path(120, 4).unwrap(), b"/todos/120/4".to_vec());
    assert_eq!(
        todos.list_path(u64::MAX).unwrap(),
        b"/todos/18446744073709551615".to_vec()
    );
}

#[test]
fn end_to_end_scenario() {
    let mut store = MemStore::new();
    let todos = init_todo_storage(&mut store).unwrap();

    todos
        .save(&mut store, 1, &vec![item("Buy milk", 1234)])
        .unwrap();

    let got = todos.get(&store, 1).unwrap();
    assert_eq!(got.len(), 1);
    assert_eq!(got[0].body, "Buy milk");
    assert_eq!(got[0].completed, false);

    assert_eq!(
        todos.get(&store, 2).unwrap_err(),
        TodoStorageError::TodoNotFound(2)
    );
}

#[test]
fn corrupted_bytes_fail_deserialization() {
    let mut store = MemStore::new();
    let todos = init_todo_storage(&mut store).unwrap();

    let list_path = todos.list_path(4).unwrap();
    let garbage = vec![1u8, 2, 3];
    store.write(&list_path, &garbage, 0).unwrap();

    assert_eq!(
        todos.get(&store, 4).unwrap_err(),
        TodoStorageError::DeserializationFailed
    );
}

#[test]
fn init_is_idempotent() {
    let mut store = MemStore::new();
    let first = init_todo_storage(&mut store).unwrap();
    first.save(&mut store, 6, &vec![item("kept", 5)]).unwrap();

    let second = init_todo_storage(&mut store).unwrap();
    let got = second.get(&store, 6).unwrap();
    assert_eq!(got.len(), 1);
    assert_eq!(got[0].body, "kept");
}

#[test]
fn complete_and_uncomplete_toggle_only_the_flag() {
    let mut t = item("task", 77);
    assert_eq!(t.completed, false);
    t.complete();
    assert_eq!(t.completed, true);
    assert_eq!(t.body, "task");
    assert_eq!(t.created_at, 77);
    t.uncomplete();
    assert_eq!(t.completed, false);
    assert_eq!(t.body, "task");
    assert_eq!(t.created_at, 77);
}

#[test]
fn store_errors_carry_their_kind() {
    let store = MemStore::new();
    let probe = vec![47u8, 120];
    assert_eq!(store.value_size(&probe).unwrap_err(), StoreError::PathNotFound);
    assert_eq!(store.read(&probe, 0, 1).unwrap_err(), StoreError::PathNotFound);

    let mut store = MemStore::new();
    let value = vec![9u8, 9];
    store.write(&probe, &value, 0).unwrap();
    assert_eq!(store.value_size(&probe).unwrap(), 2);
    assert_eq!(store.read(&probe, 1, 2).unwrap_err(), StoreError::OutOfBounds);
    assert_eq!(store.read(&probe, 1, 1).unwrap(), vec![9u8]);
}

#[test]
fn codec_layout_is_size_prefixed() {
    let items = vec![item("A", 5)];
    let bytes = encode_list(&items);
    let expected: Vec<u8> = vec![
        1, 0, 0, 0, 0, 0, 0, 0, // item count
        1, 0, 0, 0, 0, 0, 0, 0, // body length
        65, // body "A"
        0,  // not completed
        5, 0, 0, 0, 0, 0, 0, 0, // created_at
    ];
    assert_eq!(bytes, expected);
    let back = decode_list(&bytes).unwrap();
    assert_eq!(back, items);
}

#[test]
fn decode_rejects_trailing_bytes() {
    let mut bytes = encode_list(&vec![item("A", 5)]);
    bytes.push(0);
    assert!(decode_list(&bytes).is_none());
}

#[test]
fn decode_rejects_bad_completion_byte() {
    let mut bytes = encode_list(&vec![item("A", 5)]);
    bytes[17] = 2;
    assert!(decode_list(&bytes).is_none());
}

#[test]
fn decode_rejects_invalid_utf8_body() {
    let mut bytes = encode_list(&vec![item("A", 5)]);
    bytes[16] = 0xFF;
    assert!(decode_list(&bytes).is_none());
}

#[test]
fn decode_rejects_truncated_input() {
    let bytes = encode_list(&vec![item("milk", 1)]);
    let truncated = bytes[..bytes.len() - 1].to_vec();
    assert!(decode_list(&truncated).is_none());
}
