use obscura::storage::error::{Kind, StorageError};
use obscura::storage::indexed_db::{pair_at, version_from, IndexedDb, IndexedDbStore};
use obscura::storage::json::{index_key, key_of_field, Field};
use obscura::storage::local_storage::LocalStorage;
use obscura::storage::rows::{first_integer, first_text, first_texts, key_values, numbered_texts};
use obscura::storage::sqlite::Cell;
use obscura::storage::traits::StorageBackend;

fn store() -> (IndexedDb, i64) {
    let mut db = IndexedDb::open_memory().unwrap();
    db.ensure_database("test").unwrap();
    let id = db.create_object_store("test", "items", Some("id"), false).unwrap();
    (db, id)
}

#[test]
fn memory_indexed_db_basic_ops() {
    let mut db = IndexedDb::open_memory().unwrap();
    db.ensure_database("test").unwrap();
    let store_id = db.create_object_store("test", "items", Some("id"), false).unwrap();

    db.put(store_id, Some("a"), "{\"name\":\"alpha\"}").unwrap();
    db.put(store_id, Some("b"), "{\"name\":\"beta\"}").unwrap();

    assert_eq!(db.count(store_id).unwrap(), 2);
    assert_eq!(
        db.get(store_id, "a").unwrap().as_deref(),
        Some("{\"name\":\"alpha\"}")
    );

    let keys = db.get_all_keys(store_id).unwrap();
    assert!(keys.contains(&"a".to_string()));
    assert!(keys.contains(&"b".to_string()));

    assert!(db.delete(store_id, "a").unwrap());
    assert_eq!(db.count(store_id).unwrap(), 1);

    db.clear_store(store_id).unwrap();
    assert_eq!(db.count(store_id).unwrap(), 0);
}

#[test]
fn memory_indexed_db_auto_increment() {
    let mut db = IndexedDb::open_memory().unwrap();
    db.ensure_database("test").unwrap();
    let store_id = db.create_object_store("test", "auto", None, true).unwrap();

    let k1 = db.put(store_id, None, "first").unwrap();
    let k2 = db.put(store_id, None, "second").unwrap();
    assert_ne!(k1, k2);
    assert_eq!(db.count(store_id).unwrap(), 2);
}

#[test]
fn memory_local_storage_crud() {
    let mut store = LocalStorage::open_memory().unwrap();
    assert!(store.get("missing").unwrap().is_none());
    store.set("hello", "world").unwrap();
    assert_eq!(store.get("hello").unwrap().as_deref(), Some("world"));
    assert!(store.contains_key("hello").unwrap());
    assert_eq!(store.len().unwrap(), 1);
    store.remove("hello").unwrap();
    assert!(store.get("hello").unwrap().is_none());
}

#[test]
fn memory_local_storage_overwrite() {
    let mut store = LocalStorage::open_memory().unwrap();
    store.set("k", "v1").unwrap();
    store.set("k", "v2").unwrap();
    assert_eq!(store.get("k").unwrap().as_deref(), Some("v2"));
}

#[test]
fn memory_local_storage_clear() {
    let mut store = LocalStorage::open_memory().unwrap();
    store.set("a", "1").unwrap();
    store.set("b", "2").unwrap();
    assert_eq!(store.len().unwrap(), 2);
    store.clear().unwrap();
    assert_eq!(store.len().unwrap(), 0);
}

#[test]
fn local_storage_keys_are_all_there_once() {
    let mut store = LocalStorage::open(std::path::PathBuf::from(":memory:")).unwrap();
    store.set("a", "1").unwrap();
    store.set("b", "2").unwrap();
    store.set("a", "3").unwrap();
    let mut keys = store.keys().unwrap();
    keys.sort();
    assert_eq!(keys, vec!["a".to_string(), "b".to_string()]);
    assert!(!store.contains_key("c").unwrap());
}

#[test]
fn stores_in_no_database_are_refused() {
    let mut db = IndexedDb::open_memory().unwrap();
    match db.create_object_store("none", "items", None, false) {
        Err(StorageError::Sqlite(e)) => assert!(StorageError::Sqlite(e).message().contains("FOREIGN KEY")),
        _ => panic!(),
    }
    assert!(matches!(db.put(7, Some("k"), "v"), Err(StorageError::Sqlite(_))));
    assert!(matches!(db.create_index(7, "i", "p"), Err(StorageError::Sqlite(_))));
}

#[test]
fn a_store_is_made_once() {
    let (mut db, id) = store();
    assert_eq!(db.create_object_store("test", "items", None, true).unwrap(), id);
    let other = db.create_object_store("test", "others", None, true).unwrap();
    assert_ne!(other, id);
    assert!(other > id);
}

#[test]
fn a_put_replaces_what_is_under_its_key() {
    let (mut db, id) = store();
    let other = db.create_object_store("test", "others", None, false).unwrap();
    db.put(other, Some("k"), "apart").unwrap();
    assert_eq!(db.put(id, Some("k"), "1").unwrap(), "k");
    assert_eq!(db.put(id, Some("k"), "2").unwrap(), "k");
    assert_eq!(db.count(id).unwrap(), 1);
    assert_eq!(db.get(id, "k").unwrap().as_deref(), Some("2"));
    assert_eq!(db.get(other, "k").unwrap().as_deref(), Some("apart"));
    assert!(db.delete(id, "k").unwrap());
    assert!(!db.delete(id, "k").unwrap());
    assert_eq!(db.get(id, "k").unwrap(), None);
}

#[test]
fn generated_keys_are_row_ids() {
    let (mut db, id) = store();
    assert_eq!(db.put(id, None, "x").unwrap(), "1");
    db.clear_store(id).unwrap();
    assert_eq!(db.put(id, None, "y").unwrap(), "2");
    assert_eq!(db.get_all_keys(id).unwrap(), vec!["2".to_string()]);
    assert_eq!(db.get(id, "2").unwrap().as_deref(), Some("y"));
}

#[test]
fn generated_keys_leave_other_keys_alone() {
    let (mut db, id) = store();
    let other = db.create_object_store("test", "others", None, true).unwrap();
    db.create_index(id, "by_n", "n").unwrap();
    db.put(id, Some("2"), "{\"n\":1}").unwrap();
    assert_eq!(db.put(id, None, "{\"n\":2}").unwrap(), "3");
    assert_eq!(db.get(id, "2").unwrap().as_deref(), Some("{\"n\":1}"));
    assert_eq!(db.get(id, "3").unwrap().as_deref(), Some("{\"n\":2}"));
    assert_eq!(db.count(id).unwrap(), 2);
    assert_eq!(db.index_get_all(id, "by_n", "2").unwrap().len(), 1);
    db.put(id, Some("6"), "a").unwrap();
    db.put(id, Some("7"), "b").unwrap();
    assert_eq!(db.put(id, None, "c").unwrap(), "8");
    assert_eq!(db.get(id, "6").unwrap().as_deref(), Some("a"));
    assert_eq!(db.get(id, "7").unwrap().as_deref(), Some("b"));
    assert_eq!(db.count(id).unwrap(), 5);
    db.put(id, Some("10"), "here").unwrap();
    assert_eq!(db.put(other, None, "there").unwrap(), "10");
    let tx = db.begin_transaction(&[id]).unwrap();
    db.transaction_put(tx, id, Some("12"), "d").unwrap();
    db.transaction_put(tx, id, None, "e").unwrap();
    db.commit_transaction(tx).unwrap();
    assert_eq!(db.get(id, "12").unwrap().as_deref(), Some("d"));
    assert_eq!(db.get(id, "13").unwrap().as_deref(), Some("e"));
}

#[test]
fn a_put_that_fails_changes_nothing() {
    let (mut db, id) = store();
    db.put(id, Some("k"), "v").unwrap();
    match db.put(id + 1, Some("k"), "w") {
        Err(e @ StorageError::Sqlite(_)) => assert!(e.message().contains("FOREIGN KEY")),
        _ => panic!(),
    }
    assert!(matches!(db.put(id + 1, None, "w"), Err(StorageError::Sqlite(_))));
    assert_eq!(db.count(id).unwrap(), 1);
    assert_eq!(db.put(id, Some("l"), "x").unwrap(), "l");
    assert_eq!(db.count(id).unwrap(), 2);
}

#[test]
fn stores_of_an_open_transaction_are_locked() {
    let (mut db, id) = store();
    let other = db.create_object_store("test", "others", None, false).unwrap();
    let tx = db.begin_transaction(&[id]).unwrap();
    match db.begin_transaction(&[other, id]) {
        Err(e) => {
            assert!(matches!(e, StorageError::StoreLocked(s) if s == id));
            assert_eq!(e.message(), format!("store {id} locked by another transaction"));
        }
        Ok(_) => panic!(),
    }
    let second = db.begin_transaction(&[other]).unwrap();
    assert_eq!(second, tx + 1);
    db.abort_transaction(tx).unwrap();
    let third = db.begin_transaction(&[id]).unwrap();
    db.transaction_put(third, id, Some("k"), "v").unwrap();
    assert!(matches!(db.begin_transaction(&[id]), Err(StorageError::StoreLocked(_))));
    db.commit_transaction(third).unwrap();
    assert_eq!(db.begin_transaction(&[id]).unwrap(), third + 1);
    assert!(matches!(db.begin_transaction(&[other]), Err(StorageError::StoreLocked(_))));
}

#[test]
fn transactions_take_effect_on_commit() {
    let (mut db, id) = store();
    db.put(id, Some("old"), "0").unwrap();
    let tx = db.begin_transaction(&[id]).unwrap();
    db.transaction_put(tx, id, Some("a"), "1").unwrap();
    db.transaction_put(tx, id, None, "2").unwrap();
    db.transaction_delete(tx, id, "old").unwrap();
    assert_eq!(db.count(id).unwrap(), 1);
    db.commit_transaction(tx).unwrap();
    assert_eq!(db.count(id).unwrap(), 2);
    assert_eq!(db.get(id, "a").unwrap().as_deref(), Some("1"));
    assert_eq!(db.get(id, "old").unwrap(), None);
    assert!(matches!(db.commit_transaction(tx), Err(StorageError::UnknownTransaction)));
}

#[test]
fn changes_are_applied_in_their_order() {
    let (mut db, id) = store();
    let tx = db.begin_transaction(&[id]).unwrap();
    db.transaction_put(tx, id, Some("a"), "1").unwrap();
    db.transaction_clear(tx, id).unwrap();
    db.transaction_put(tx, id, Some("b"), "2").unwrap();
    db.commit_transaction(tx).unwrap();
    assert_eq!(db.get_all_keys(id).unwrap(), vec!["b".to_string()]);
}

#[test]
fn aborted_transactions_leave_nothing() {
    let (mut db, id) = store();
    let tx = db.begin_transaction(&[id]).unwrap();
    db.transaction_put(tx, id, Some("a"), "1").unwrap();
    db.abort_transaction(tx).unwrap();
    assert_eq!(db.count(id).unwrap(), 0);
    match db.abort_transaction(tx) {
        Err(e) => assert_eq!(e.message(), "unknown transaction"),
        Ok(_) => panic!(),
    }
}

#[test]
fn a_failed_commit_changes_nothing() {
    let (mut db, id) = store();
    db.put(id, Some("k"), "v").unwrap();
    let tx = db.begin_transaction(&[id, 99]).unwrap();
    db.transaction_clear(tx, id).unwrap();
    db.transaction_put(tx, 99, Some("a"), "1").unwrap();
    assert!(matches!(db.commit_transaction(tx), Err(StorageError::Sqlite(_))));
    assert_eq!(db.get(id, "k").unwrap().as_deref(), Some("v"));
    assert_eq!(db.count(id).unwrap(), 1);
    let again = db.begin_transaction(&[id]).unwrap();
    db.transaction_put(again, id, Some("b"), "2").unwrap();
    db.commit_transaction(again).unwrap();
    assert_eq!(db.count(id).unwrap(), 2);
}

#[test]
fn transactions_keep_to_their_stores() {
    let (mut db, id) = store();
    let tx = db.begin_transaction(&[id]).unwrap();
    match db.transaction_put(tx, id + 1, None, "x") {
        Err(e) => assert_eq!(e.message(), format!("store {} not in transaction", id + 1)),
        Ok(_) => panic!(),
    }
    assert!(matches!(
        db.transaction_delete(tx, -5, "k"),
        Err(StorageError::StoreNotInTransaction(-5))
    ));
    assert_eq!(
        StorageError::StoreNotInTransaction(i64::MIN).message(),
        "store -9223372036854775808 not in transaction"
    );
    assert!(matches!(db.transaction_clear(tx + 1, id), Err(StorageError::UnknownTransaction)));
}

#[test]
fn ids_of_transactions_and_cursors_go_up() {
    let (mut db, id) = store();
    assert_eq!(db.begin_transaction(&[]).unwrap(), 1);
    assert_eq!(db.open_cursor(id).unwrap().0, 2);
    assert_eq!(db.begin_transaction(&[id]).unwrap(), 3);
}

#[test]
fn cursors_walk_in_order() {
    let (mut db, id) = store();
    db.put(id, Some("a"), "1").unwrap();
    db.put(id, None, "2").unwrap();
    db.put(id, Some("c"), "3").unwrap();
    let (cursor, all) = db.open_cursor(id).unwrap();
    let pair = |k: &str, v: &str| (k.to_string(), v.to_string());
    assert_eq!(all, vec![pair("a", "1"), pair("2", "2"), pair("c", "3")]);
    assert_eq!(pair_at(&all, 2), Some(pair("c", "3")));
    assert_eq!(pair_at(&all, 3), None);
    assert_eq!(db.cursor_advance(cursor, 0).unwrap(), Some(pair("a", "1")));
    assert_eq!(db.cursor_advance(cursor, 1).unwrap(), Some(pair("2", "2")));
    assert_eq!(db.cursor_advance(cursor, 1).unwrap(), Some(pair("c", "3")));
    assert_eq!(db.cursor_advance(cursor, u32::MAX).unwrap(), None);
    let (twice, _) = db.open_cursor(id).unwrap();
    assert_eq!(db.cursor_advance(twice, 2).unwrap(), Some(pair("c", "3")));
    db.close_cursor(cursor).unwrap();
    db.close_cursor(cursor).unwrap();
    match db.cursor_advance(cursor, 1) {
        Err(e) => assert_eq!(e.message(), "unknown cursor"),
        Ok(_) => panic!(),
    }
}

#[test]
fn an_index_finds_the_rows_with_the_key() {
    let (mut db, id) = store();
    db.put(id, Some("a"), "{\"name\":\"x\",\"n\":1}").unwrap();
    db.put(id, Some("b"), "{\"name\":\"x\",\"n\":2.5}").unwrap();
    db.put(id, Some("c"), "{\"name\":null,\"n\":true}").unwrap();
    db.put(id, Some("d"), "not json").unwrap();
    db.put(id, None, "{\"name\":[]}").unwrap();
    let by_name = db.create_index(id, "by_name", "name").unwrap();
    db.create_index(id, "by_n", "n").unwrap();
    let mut found: Vec<String> =
        db.index_get_all(id, "by_name", "x").unwrap().into_iter().map(|p| p.0).collect();
    found.sort();
    assert_eq!(found, vec!["a".to_string(), "b".to_string()]);
    assert_eq!(db.index_get_all(id, "by_name", "null").unwrap()[0].0, "c");
    assert_eq!(db.index_get_all(id, "by_name", "y").unwrap().len(), 0);
    assert_eq!(db.index_get_all(id, "by_n", "1").unwrap()[0].0, "a");
    assert_eq!(db.index_get_all(id, "by_n", "2.5").unwrap()[0].0, "b");
    assert_eq!(db.index_get_all(id, "by_n", "true").unwrap()[0].0, "c");
    db.delete(id, "a").unwrap();
    assert_eq!(db.index_get_all(id, "by_name", "x").unwrap().len(), 1);
    db.put(id, Some("e"), "{\"name\":\"x\"}").unwrap();
    assert_eq!(db.index_get_all(id, "by_name", "x").unwrap().len(), 2);
    assert_eq!(db.create_index(id, "by_name", "name").unwrap(), by_name);
    assert_eq!(db.index_get_all(id, "by_name", "x").unwrap().len(), 2);
    assert_eq!(db.create_index(id, "by_name", "n").unwrap(), by_name);
    assert_eq!(db.index_get_all(id, "by_name", "x").unwrap().len(), 0);
    db.put(id, Some("f"), "{\"n\":2.5}").unwrap();
    assert_eq!(db.index_get_all(id, "by_name", "2.5").unwrap().len(), 2);
}

#[test]
fn indexes_follow_the_rows() {
    let mut db = IndexedDb::open_memory().unwrap();
    db.ensure_database("t").unwrap();
    let s = db.create_object_store("t", "x", None, false).unwrap();
    db.create_index(s, "by_name", "name").unwrap();
    let value = "{\"name\":\"x\"}";
    db.put(s, Some("a"), value).unwrap();
    let pair = |k: &str, v: &str| (k.to_string(), v.to_string());
    assert_eq!(db.index_get_all(s, "by_name", "x").unwrap(), vec![pair("a", value)]);
    db.put(s, Some("a"), "{\"name\":\"y\"}").unwrap();
    assert_eq!(db.index_get_all(s, "by_name", "x").unwrap(), vec![]);
    assert_eq!(
        db.index_get_all(s, "by_name", "y").unwrap(),
        vec![pair("a", "{\"name\":\"y\"}")]
    );
    let k = db.put(s, None, value).unwrap();
    assert_eq!(db.index_get_all(s, "by_name", "x").unwrap(), vec![pair(&k, value)]);
    let tx = db.begin_transaction(&[s]).unwrap();
    db.transaction_put(tx, s, Some("b"), value).unwrap();
    db.transaction_delete(tx, s, &k).unwrap();
    db.commit_transaction(tx).unwrap();
    assert_eq!(db.index_get_all(s, "by_name", "x").unwrap(), vec![pair("b", value)]);
    db.clear_store(s).unwrap();
    assert_eq!(db.index_get_all(s, "by_name", "x").unwrap(), vec![]);
}

#[test]
fn a_deleted_index_is_gone() {
    let (mut db, id) = store();
    db.create_index(id, "i", "name").unwrap();
    assert_eq!(db.index_get_all(id, "i", "x").unwrap().len(), 0);
    db.delete_index(id, "i").unwrap();
    match db.index_get_all(id, "i", "x") {
        Err(e) => assert_eq!(e.message(), "Query returned no rows"),
        Ok(_) => panic!(),
    }
}

#[test]
fn versions_start_at_one() {
    let mut db = IndexedDb::open(std::path::PathBuf::from(":memory:")).unwrap();
    assert_eq!(db.get_version("test").unwrap(), 1);
    db.set_version("test", 5).unwrap();
    assert_eq!(db.get_version("test").unwrap(), 1);
    db.ensure_database("test").unwrap();
    assert_eq!(db.get_version("test").unwrap(), 1);
    db.set_version("test", u32::MAX).unwrap();
    assert_eq!(db.get_version("test").unwrap(), u32::MAX);
    db.ensure_database("test").unwrap();
    assert_eq!(db.get_version("test").unwrap(), u32::MAX);
}

#[test]
fn versions_are_cut_to_their_width() {
    assert_eq!(version_from(Ok(Some(3))), 3);
    assert_eq!(version_from(Ok(Some(4294967298))), 2);
    assert_eq!(version_from(Ok(None)), 1);
    assert_eq!(version_from(Err(StorageError::Sqlite(rusqlite::Error::InvalidQuery))), 1);
}

#[test]
fn versions_that_cannot_be_read_are_one() {
    let path = "file:odd_versions?mode=memory&cache=shared";
    let mut db = IndexedDb::open(std::path::PathBuf::from(path)).unwrap();
    db.ensure_database("d").unwrap();
    db.set_version("d", 7).unwrap();
    assert_eq!(db.get_version("d").unwrap(), 7);
    let other = rusqlite::Connection::open(path).unwrap();
    other.execute("UPDATE databases SET version = 'seven'", ()).unwrap();
    assert_eq!(db.get_version("d").unwrap(), 1);
    match db.find_version("d") {
        Err(e) => {
            assert_eq!(e.message(), "Invalid column type Text at index: 0, name: version")
        }
        Ok(_) => panic!(),
    }
    other.execute_batch("PRAGMA foreign_keys = OFF; DROP TABLE databases").unwrap();
    assert_eq!(db.get_version("d").unwrap(), 1);
    assert!(matches!(db.find_version("d"), Err(StorageError::Sqlite(_))));
}

#[test]
fn a_database_in_a_file_is_read_by_its_queries() {
    let path = "file:page_reads?mode=memory&cache=shared";
    let mut db = IndexedDb::open(std::path::PathBuf::from(path)).unwrap();
    db.ensure_database("d").unwrap();
    let s = db.create_object_store("d", "s", None, true).unwrap();
    db.create_index(s, "by_n", "n").unwrap();
    assert_eq!(db.put(s, None, "{\"n\":1}").unwrap(), "1");
    db.put(s, Some("k"), "{\"n\":1}").unwrap();
    assert_eq!(db.index_get_all(s, "by_n", "1").unwrap().len(), 2);
    let other = rusqlite::Connection::open(path).unwrap();
    other.execute("UPDATE store_data SET value = 'w' WHERE key_val = 'k'", ()).unwrap();
    assert_eq!(db.get(s, "k").unwrap().as_deref(), Some("w"));
    other.execute("UPDATE store_data SET value = x'00' WHERE key_val = 'k'", ()).unwrap();
    match db.get(s, "k") {
        Err(e) => assert_eq!(e.message(), "Invalid column type Blob at index: 0, name: value"),
        Ok(_) => panic!(),
    }
    let mut store = IndexedDbStore::new(db, s);
    assert_eq!(store.len().unwrap(), 2);
    assert!(store.contains_key("1").unwrap());
    assert!(store.contains_key("k").is_err());
    store.set("k", "x").unwrap();
    assert_eq!(store.get("k").unwrap().as_deref(), Some("x"));
    assert_eq!(store.db_mut().put(s, None, "y").unwrap(), "4");
    assert_eq!(store.db().count(s).unwrap(), 3);
}

#[test]
fn versions_are_found_as_they_were_set() {
    let mut db = IndexedDb::open_memory().unwrap();
    db.ensure_database("d").unwrap();
    assert_eq!(db.find_version("d").unwrap(), Some(1));
    db.set_version("d", 5).unwrap();
    db.ensure_database("d").unwrap();
    assert_eq!(db.get_version("d").unwrap(), 5);
    assert_eq!(db.find_version("d").unwrap(), Some(5));
    assert_eq!(db.get_version("other").unwrap(), 1);
    assert_eq!(db.find_version("other").unwrap(), None);
}

#[test]
fn an_object_store_is_a_backend() {
    let (db, id) = store();
    let mut backend = IndexedDbStore::new(db, id);
    assert_eq!(backend.get("k").unwrap(), None);
    backend.set("k", "v").unwrap();
    assert_eq!(backend.get("k").unwrap().as_deref(), Some("v"));
    backend.set("k", "w").unwrap();
    assert_eq!(backend.get("k").unwrap().as_deref(), Some("w"));
    assert!(backend.contains_key("k").unwrap());
    assert!(!backend.contains_key("l").unwrap());
    assert_eq!(backend.keys().unwrap(), vec!["k".to_string()]);
    assert_eq!(backend.len().unwrap(), 1);
    assert_eq!(backend.db().count(id).unwrap(), 1);
    backend.remove("k").unwrap();
    assert_eq!(backend.len().unwrap(), 0);
    backend.set("a", "1").unwrap();
    backend.clear().unwrap();
    assert_eq!(backend.len().unwrap(), 0);
}

#[test]
fn fields_give_index_keys() {
    assert_eq!(key_of_field(Field::Text("t".to_string())).as_deref(), Some("t"));
    assert_eq!(key_of_field(Field::Number("1e3".to_string())).as_deref(), Some("1e3"));
    assert_eq!(key_of_field(Field::Bool(true)).as_deref(), Some("true"));
    assert_eq!(key_of_field(Field::Bool(false)).as_deref(), Some("false"));
    assert_eq!(key_of_field(Field::Null).as_deref(), Some("null"));
    assert_eq!(key_of_field(Field::Missing), None);
    assert_eq!(key_of_field(Field::NotJson), None);
    assert_eq!(key_of_field(Field::Nested), None);
    assert_eq!(index_key("{\"a\":\"b\"}", "a").as_deref(), Some("b"));
    assert_eq!(index_key("{\"a\":\"b\"}", "c"), None);
    assert_eq!(index_key("[1]", "0"), None);
    assert_eq!(index_key("{", "a"), None);
}

#[test]
fn rows_are_read_by_their_columns() {
    let text = |s: &str| Cell::Text(s.to_string());
    assert_eq!(first_integer(&vec![vec![Cell::Integer(4)]], "id").unwrap(), 4);
    assert!(matches!(first_integer(&vec![], "id"), Err(StorageError::NoRow)));
    match first_integer(&vec![vec![text("4")]], "id") {
        Err(e) => assert_eq!(e.message(), "Invalid column type Text at index: 0, name: id"),
        Ok(_) => panic!(),
    }
    assert_eq!(first_text(&vec![vec![text("x")]], "value").unwrap().as_deref(), Some("x"));
    assert_eq!(first_text(&vec![], "value").unwrap(), None);
    match first_text(&vec![vec![]], "value") {
        Err(e) => {
            assert!(matches!(e, StorageError::MissingColumn(0)));
            assert_eq!(e.message(), "Invalid column index: 0");
        }
        Ok(_) => panic!(),
    }
    assert_eq!(
        first_texts(&vec![vec![text("x")], vec![text("y")]], "key").unwrap(),
        vec!["x", "y"]
    );
    match first_texts(&vec![vec![text("x")], vec![Cell::Real]], "key") {
        Err(e) => assert_eq!(e.message(), "Invalid column type Real at index: 0, name: key"),
        Ok(_) => panic!(),
    }
    assert_eq!(
        key_values(&vec![vec![Cell::Null, text("v")]]).unwrap(),
        vec![("".to_string(), "v".to_string())]
    );
    match key_values(&vec![vec![text("k"), Cell::Blob]]) {
        Err(StorageError::UnexpectedValue { found, index, name }) => {
            assert_eq!((found, index, name.as_str()), (Kind::Blob, 1, "value"));
        }
        _ => panic!(),
    }
    assert!(key_values(&vec![vec![Cell::Integer(1), text("v")]]).is_err());
    assert_eq!(
        numbered_texts(&vec![vec![Cell::Integer(2), text("v")]], "value").unwrap(),
        vec![(2, "v".to_string())]
    );
    match numbered_texts(&vec![vec![Cell::Null, text("v")]], "value") {
        Err(e) => assert_eq!(e.message(), "Invalid column type Null at index: 0, name: id"),
        Ok(_) => panic!(),
    }
    match numbered_texts(&vec![vec![Cell::Integer(1), Cell::Integer(2)]], "key_path") {
        Err(e) => {
            assert_eq!(e.message(), "Invalid column type Integer at index: 1, name: key_path")
        }
        Ok(_) => panic!(),
    }
}

#[test]
fn a_value_of_another_type_is_named_as_sqlite_names_it() {
    let e = rusqlite::Error::InvalidColumnType(
        1,
        "value".to_string(),
        rusqlite::types::Type::Blob,
    );
    let ours = StorageError::UnexpectedValue {
        found: Kind::Blob,
        index: 1,
        name: "value".to_string(),
    };
    assert_eq!(ours.message(), e.to_string());
    let e = rusqlite::Error::InvalidColumnIndex(12);
    assert_eq!(StorageError::MissingColumn(12).message(), e.to_string());
    let e = || rusqlite::Error::InvalidColumnIndex(3);
    assert_eq!(StorageError::Sqlite(e()).message(), e().to_string());
    assert_eq!(StorageError::RollbackFailed(e()).message(), e().to_string());
    assert_eq!(StorageError::RepeatedId(-4).message(), "row id -4 given out before");
}

#[test]
fn storages_with_the_same_path_share_it() {
    let path = || std::path::PathBuf::from("file:shared_local?mode=memory&cache=shared");
    let mut one = LocalStorage::open(path()).unwrap();
    let two = LocalStorage::open(path()).unwrap();
    one.set("k", "v").unwrap();
    assert_eq!(two.get("k").unwrap().as_deref(), Some("v"));
    let apart = std::path::PathBuf::from("file:other_local?mode=memory&cache=shared");
    assert_eq!(LocalStorage::open(apart).unwrap().get("k").unwrap(), None);
    let path = || std::path::PathBuf::from("file:shared_page?mode=memory&cache=shared");
    let mut one = IndexedDb::open(path()).unwrap();
    let two = IndexedDb::open(path()).unwrap();
    one.ensure_database("d").unwrap();
    one.set_version("d", 3).unwrap();
    assert_eq!(two.get_version("d").unwrap(), 3);
}

#[test]
fn a_path_that_cannot_be_opened() {
    let path = || std::path::PathBuf::from("/no/such/directory/file.db");
    assert!(matches!(LocalStorage::open(path()), Err(StorageError::Sqlite(_))));
    assert!(matches!(IndexedDb::open(path()), Err(StorageError::Sqlite(_))));
}
