//! The SQLite connection and what the statements of this library do to it.
//!
//! A connection to a private in-memory database is described by the tables that it
//! holds. Of a connection to a file, which others may write to as well, the path is
//! known and what was run on it, not what it holds.

use crate::storage::tables;
use crate::storage::tables::{DataRow, EntryRow, IndexRow, StoreRow, Tables};
use rusqlite::types::{Value, ValueRef};
use vstd::prelude::*;

verus! {

#[verifier::external_type_specification]
#[verifier::external_body]
pub struct ExConnection(rusqlite::Connection);

#[verifier::external_type_specification]
#[verifier::external_body]
pub struct ExSqliteError(rusqlite::Error);

#[verifier::external_type_specification]
#[verifier::external_body]
pub struct ExPathBuf(std::path::PathBuf);

/// A value that a statement is given.
#[derive(Debug)]
pub enum Param {
    Null,
    Integer(i64),
    Text(String),
}

/// A value that a query hands out.
#[derive(Debug)]
pub enum Cell {
    Null,
    Integer(i64),
    Text(String),
    Real,
    Blob,
}

/// What a value says.
pub enum Datum {
    Null,
    Integer(int),
    Text(Seq<char>),
    Real,
    Blob,
}

impl View for Param {
    type V = Datum;

    open spec fn view(&self) -> Datum {
        match self {
            Param::Null => Datum::Null,
            Param::Integer(i) => Datum::Integer(*i as int),
            Param::Text(s) => Datum::Text(s@),
        }
    }
}

impl View for Cell {
    type V = Datum;

    open spec fn view(&self) -> Datum {
        match self {
            Cell::Null => Datum::Null,
            Cell::Integer(i) => Datum::Integer(*i as int),
            Cell::Text(s) => Datum::Text(s@),
            Cell::Real => Datum::Real,
            Cell::Blob => Datum::Blob,
        }
    }
}

/// What a list of statement values says.
pub open spec fn given(params: Seq<Param>) -> Seq<Datum> {
    params.map_values(|p: Param| p@)
}

/// The values of a query for a number and a text.
pub open spec fn number_and_text(n: int, s: Seq<char>) -> Seq<Datum> {
    seq![Datum::Integer(n), Datum::Text(s)]
}

/// The values of a query for two texts.
pub open spec fn two_texts(a: Seq<char>, b: Seq<char>) -> Seq<Datum> {
    seq![Datum::Text(a), Datum::Text(b)]
}

/// What a row says.
pub open spec fn cells(row: Seq<Cell>) -> Seq<Datum> {
    row.map_values(|c: Cell| c@)
}

/// What the rows of a query say.
pub open spec fn table(rows: Seq<Vec<Cell>>) -> Seq<Seq<Datum>> {
    rows.map_values(|r: Vec<Cell>| cells(r@))
}

/// The tables of a page database, with foreign keys in force.
pub const PAGE_SCHEMA: &'static str = "CREATE TABLE IF NOT EXISTS databases (
    name TEXT PRIMARY KEY NOT NULL,
    version INTEGER NOT NULL DEFAULT 1
);
CREATE TABLE IF NOT EXISTS object_stores (
    id INTEGER PRIMARY KEY AUTOINCREMENT,
    db_name TEXT NOT NULL,
    store_name TEXT NOT NULL,
    key_path TEXT,
    auto_increment INTEGER NOT NULL DEFAULT 0,
    UNIQUE(db_name, store_name),
    FOREIGN KEY (db_name) REFERENCES databases(name) ON DELETE CASCADE
);
CREATE TABLE IF NOT EXISTS store_data (
    id INTEGER PRIMARY KEY AUTOINCREMENT,
    store_id INTEGER NOT NULL,
    key_val TEXT,
    value TEXT NOT NULL,
    FOREIGN KEY (store_id) REFERENCES object_stores(id) ON DELETE CASCADE
);
CREATE INDEX IF NOT EXISTS idx_store_data_key
    ON store_data(store_id, key_val);
CREATE TABLE IF NOT EXISTS store_indexes (
    id INTEGER PRIMARY KEY AUTOINCREMENT,
    store_id INTEGER NOT NULL,
    index_name TEXT NOT NULL,
    key_path TEXT NOT NULL,
    UNIQUE(store_id, index_name),
    FOREIGN KEY (store_id) REFERENCES object_stores(id) ON DELETE CASCADE
);
CREATE TABLE IF NOT EXISTS store_index_data (
    id INTEGER PRIMARY KEY AUTOINCREMENT,
    index_id INTEGER NOT NULL,
    index_key TEXT NOT NULL,
    store_row_id INTEGER NOT NULL,
    FOREIGN KEY (index_id) REFERENCES store_indexes(id) ON DELETE CASCADE,
    FOREIGN KEY (store_row_id) REFERENCES store_data(id) ON DELETE CASCADE
);
CREATE INDEX IF NOT EXISTS idx_index_data_key
    ON store_index_data(index_id, index_key);
PRAGMA foreign_keys = ON;";

/// The table of a local storage.
pub const LOCAL_SCHEMA: &'static str = "CREATE TABLE IF NOT EXISTS storage (
    key   TEXT PRIMARY KEY NOT NULL,
    value TEXT NOT NULL
);";

pub const BEGIN: &'static str = "BEGIN DEFERRED";

pub const COMMIT: &'static str = "COMMIT";

pub const ROLLBACK: &'static str = "ROLLBACK";

pub const SAVEPOINT: &'static str = "SAVEPOINT change";

pub const RELEASE: &'static str = "RELEASE change";

pub const ROLLBACK_TO: &'static str = "ROLLBACK TO change";

pub const ADD_DATABASE: &'static str = "INSERT OR IGNORE INTO databases (name, version) VALUES (?1, 1)";

pub const ADD_STORE: &'static str = "INSERT OR IGNORE INTO object_stores (db_name, store_name, key_path, auto_increment) VALUES (?1, ?2, ?3, ?4)";

pub const STORE_ID: &'static str = "SELECT id FROM object_stores WHERE db_name = ?1 AND store_name = ?2";

pub const ADD_KEYED_ROW: &'static str = "INSERT INTO store_data (store_id, key_val, value) VALUES (?1, ?2, ?3)";

pub const ADD_ROW: &'static str = "INSERT INTO store_data (store_id, value) VALUES (?1, ?2)";

pub const SET_KEY: &'static str = "UPDATE store_data SET key_val = ?1 WHERE id = ?2";

pub const VALUE_OF_KEY: &'static str = "SELECT value FROM store_data WHERE store_id = ?1 AND key_val = ?2 LIMIT 1";

pub const DELETE_KEY: &'static str = "DELETE FROM store_data WHERE store_id = ?1 AND key_val = ?2";

pub const DELETE_ROW: &'static str = "DELETE FROM store_data WHERE id = ?1";

pub const DELETE_ROWS: &'static str = "DELETE FROM store_data WHERE store_id = ?1";

pub const COUNT_ROWS: &'static str = "SELECT COUNT(*) FROM store_data WHERE store_id = ?1";

pub const ALL_KEYS: &'static str = "SELECT key_val FROM store_data WHERE store_id = ?1 AND key_val IS NOT NULL";

pub const ALL_PAIRS: &'static str = "SELECT key_val, value FROM store_data WHERE store_id = ?1 ORDER BY id";

pub const ALL_VALUES: &'static str = "SELECT id, value FROM store_data WHERE store_id = ?1";

pub const ADD_INDEX: &'static str = "INSERT OR IGNORE INTO store_indexes (store_id, index_name, key_path) VALUES (?1, ?2, ?3)";

pub const SET_INDEX_PATH: &'static str = "UPDATE store_indexes SET key_path = ?1 WHERE id = ?2";

pub const STORE_INDEXES: &'static str = "SELECT id, key_path FROM store_indexes WHERE store_id = ?1";

pub const INDEX_ID: &'static str = "SELECT id FROM store_indexes WHERE store_id = ?1 AND index_name = ?2";

pub const DELETE_ENTRIES: &'static str = "DELETE FROM store_index_data WHERE index_id = ?1";

pub const ADD_ENTRY: &'static str = "INSERT INTO store_index_data (index_id, index_key, store_row_id) VALUES (?1, ?2, ?3)";

pub const INDEXED_PAIRS: &'static str = "SELECT sd.key_val, sd.value FROM store_index_data sid JOIN store_data sd ON sd.id = sid.store_row_id WHERE sid.index_id = ?1 AND sid.index_key = ?2";

pub const DELETE_INDEX: &'static str = "DELETE FROM store_indexes WHERE store_id = ?1 AND index_name = ?2";

pub const VERSION_OF: &'static str = "SELECT version FROM databases WHERE name = ?1";

pub const SET_VERSION: &'static str = "UPDATE databases SET version = ?1 WHERE name = ?2";

pub const LOCAL_SET: &'static str = "INSERT OR REPLACE INTO storage (key, value) VALUES (?1, ?2)";

pub const LOCAL_REMOVE: &'static str = "DELETE FROM storage WHERE key = ?1";

pub const LOCAL_CLEAR: &'static str = "DELETE FROM storage";

pub const LOCAL_GET: &'static str = "SELECT value FROM storage WHERE key = ?1";

pub const LOCAL_KEYS: &'static str = "SELECT key FROM storage";

pub const LOCAL_LEN: &'static str = "SELECT COUNT(*) FROM storage";

pub const LOCAL_HAS: &'static str = "SELECT 1 FROM storage WHERE key = ?1 LIMIT 1";

/// The same data rows as `(key, value)` columns.
pub open spec fn pair_row(r: DataRow) -> Seq<Datum> {
    seq![
        match r.key {
            Some(k) => Datum::Text(k),
            None => Datum::Null,
        },
        Datum::Text(r.value),
    ]
}

/// Whether the statement changes the tables of a page database.
pub open spec fn is_page_change(sql: Seq<char>) -> bool {
    ||| sql == ADD_DATABASE@
    ||| sql == ADD_STORE@
    ||| sql == ADD_KEYED_ROW@
    ||| sql == ADD_ROW@
    ||| sql == DELETE_KEY@
    ||| sql == DELETE_ROW@
    ||| sql == DELETE_ROWS@
    ||| sql == ADD_INDEX@
    ||| sql == DELETE_ENTRIES@
    ||| sql == ADD_ENTRY@
    ||| sql == DELETE_INDEX@
    ||| sql == SET_VERSION@
    ||| sql == SET_KEY@
    ||| sql == SET_INDEX_PATH@
}

/// Whether the statement changes the table of a local storage.
pub open spec fn is_local_change(sql: Seq<char>) -> bool {
    ||| sql == LOCAL_SET@
    ||| sql == LOCAL_REMOVE@
    ||| sql == LOCAL_CLEAR@
}

/// Whether the statement only reads.
pub open spec fn is_query(sql: Seq<char>) -> bool {
    ||| sql == STORE_ID@
    ||| sql == VALUE_OF_KEY@
    ||| sql == COUNT_ROWS@
    ||| sql == ALL_KEYS@
    ||| sql == ALL_PAIRS@
    ||| sql == ALL_VALUES@
    ||| sql == STORE_INDEXES@
    ||| sql == INDEX_ID@
    ||| sql == INDEXED_PAIRS@
    ||| sql == VERSION_OF@
    ||| sql == LOCAL_GET@
    ||| sql == LOCAL_KEYS@
    ||| sql == LOCAL_LEN@
    ||| sql == LOCAL_HAS@
}

/// What a statement that succeeded on the tables `t` left behind: the tables `t2`,
/// and `n` rows changed. `rowid` is the id of the row that was inserted last.
pub open spec fn page_changed(
    sql: Seq<char>,
    p: Seq<Datum>,
    t: Tables,
    t2: Tables,
    n: int,
    rowid: int,
) -> bool {
    &&& sql == ADD_DATABASE@ && p.len() == 1 && p[0] is Text ==> t2 == tables::with_database(
        t,
        p[0]->Text_0,
    )
    &&& sql == ADD_STORE@ && p.len() == 4 && p[0] is Text && p[1] is Text && (p[2] is Null || p[2]
        is Text) && (p[3] == Datum::Integer(0) || p[3] == Datum::Integer(1)) ==> {
        &&& t.versions.contains_key(p[0]->Text_0)
        &&& if tables::stores_named(t, p[0]->Text_0, p[1]->Text_0).len() > 0 {
            t2 == t
        } else {
            &&& t.last_store < t2.last_store <= i64::MAX
            &&& t2 == tables::with_store(
                t,
                StoreRow {
                    id: t2.last_store,
                    db_name: p[0]->Text_0,
                    store_name: p[1]->Text_0,
                    key_path: if p[2] is Text {
                        Some(p[2]->Text_0)
                    } else {
                        None
                    },
                    auto_increment: p[3] == Datum::Integer(1),
                },
            )
        }
    }
    &&& sql == ADD_KEYED_ROW@ && p.len() == 3 && p[0] is Integer && p[1] is Text && p[2] is Text
        ==> {
        &&& tables::has_store(t, p[0]->Integer_0)
        &&& t.last_row < rowid <= i64::MAX
        &&& t2 == tables::with_row(t, rowid, p[0]->Integer_0, Some(p[1]->Text_0), p[2]->Text_0)
    }
    &&& sql == ADD_ROW@ && p.len() == 2 && p[0] is Integer && p[1] is Text ==> {
        &&& tables::has_store(t, p[0]->Integer_0)
        &&& t.last_row < rowid <= i64::MAX
        &&& t2 == tables::with_row(t, rowid, p[0]->Integer_0, None, p[1]->Text_0)
    }
    &&& sql == DELETE_KEY@ && p.len() == 2 && p[0] is Integer && p[1] is Text ==> {
        &&& t2 == tables::without_key(t, p[0]->Integer_0, p[1]->Text_0)
        &&& n == tables::rows_with_key(t, p[0]->Integer_0, p[1]->Text_0).len()
    }
    &&& sql == DELETE_ROW@ && p.len() == 1 && p[0] is Integer ==> t2 == tables::without_row(
        t,
        p[0]->Integer_0,
    )
    &&& sql == DELETE_ROWS@ && p.len() == 1 && p[0] is Integer ==> t2 == tables::without_store_rows(
        t,
        p[0]->Integer_0,
    )
    &&& sql == ADD_INDEX@ && p.len() == 3 && p[0] is Integer && p[1] is Text && p[2] is Text ==> {
        &&& tables::has_store(t, p[0]->Integer_0)
        &&& if tables::indexes_named(t, p[0]->Integer_0, p[1]->Text_0).len() > 0 {
            t2 == t
        } else {
            &&& t.last_index < t2.last_index <= i64::MAX
            &&& t2 == tables::with_index(
                t,
                IndexRow {
                    id: t2.last_index,
                    store_id: p[0]->Integer_0,
                    name: p[1]->Text_0,
                    key_path: p[2]->Text_0,
                },
            )
        }
    }
    &&& sql == DELETE_ENTRIES@ && p.len() == 1 && p[0] is Integer ==> t2 == tables::without_entries(
        t,
        p[0]->Integer_0,
    )
    &&& sql == ADD_ENTRY@ && p.len() == 3 && p[0] is Integer && p[1] is Text && p[2] is Integer
        ==> {
        &&& tables::has_index(t, p[0]->Integer_0)
        &&& tables::has_row(t, p[2]->Integer_0)
        &&& t2 == tables::with_entry(t, p[0]->Integer_0, p[1]->Text_0, p[2]->Integer_0)
    }
    &&& sql == DELETE_INDEX@ && p.len() == 2 && p[0] is Integer && p[1] is Text ==> t2
        == tables::without_index(t, p[0]->Integer_0, p[1]->Text_0)
    &&& sql == SET_VERSION@ && p.len() == 2 && p[0] is Integer && p[1] is Text ==> t2
        == tables::with_version(t, p[1]->Text_0, p[0]->Integer_0)
    &&& sql == SET_KEY@ && p.len() == 2 && p[0] is Text && p[1] is Integer ==> t2
        == tables::with_key(t, p[1]->Integer_0, p[0]->Text_0)
    &&& sql == SET_INDEX_PATH@ && p.len() == 2 && p[0] is Text && p[1] is Integer ==> t2
        == tables::with_path(t, p[1]->Integer_0, p[0]->Text_0)
}

/// Whether a statement that changes the tables is given the values that it takes.
pub open spec fn well_given(sql: Seq<char>, p: Seq<Datum>) -> bool {
    ||| sql == ADD_DATABASE@ && p.len() == 1 && p[0] is Text
    ||| sql == ADD_STORE@ && p.len() == 4 && p[0] is Text && p[1] is Text && (p[2] is Null || p[2]
        is Text) && (p[3] == Datum::Integer(0) || p[3] == Datum::Integer(1))
    ||| sql == ADD_KEYED_ROW@ && p.len() == 3 && p[0] is Integer && p[1] is Text && p[2] is Text
    ||| sql == ADD_ROW@ && p.len() == 2 && p[0] is Integer && p[1] is Text
    ||| sql == DELETE_KEY@ && p.len() == 2 && p[0] is Integer && p[1] is Text
    ||| sql == DELETE_ROW@ && p.len() == 1 && p[0] is Integer
    ||| sql == DELETE_ROWS@ && p.len() == 1 && p[0] is Integer
    ||| sql == ADD_INDEX@ && p.len() == 3 && p[0] is Integer && p[1] is Text && p[2] is Text
    ||| sql == DELETE_ENTRIES@ && p.len() == 1 && p[0] is Integer
    ||| sql == ADD_ENTRY@ && p.len() == 3 && p[0] is Integer && p[1] is Text && p[2] is Integer
    ||| sql == DELETE_INDEX@ && p.len() == 2 && p[0] is Integer && p[1] is Text
    ||| sql == SET_VERSION@ && p.len() == 2 && p[0] is Integer && p[1] is Text
    ||| sql == SET_KEY@ && p.len() == 2 && p[0] is Text && p[1] is Integer
    ||| sql == SET_INDEX_PATH@ && p.len() == 2 && p[0] is Text && p[1] is Integer
}

/// Every statement keeps the tables well formed: ids stay unique and are never given
/// out twice, names stay unique, and what a row refers to exists.
pub proof fn law_statements_keep_tables(
    sql: Seq<char>,
    p: Seq<Datum>,
    t: Tables,
    t2: Tables,
    n: int,
    rowid: int,
)
    requires
        tables::well_formed(t),
        well_given(sql, p),
        page_changed(sql, p, t, t2, n, rowid),
    ensures
        tables::well_formed(t2),
{
    if sql == ADD_DATABASE@ && p.len() == 1 && p[0] is Text {
        tables::lemma_database_keeps(t, p[0]->Text_0, 1);
    }
    if sql == ADD_STORE@ && p.len() == 4 && p[0] is Text && p[1] is Text && (p[2] is Null || p[2]
        is Text) && (p[3] == Datum::Integer(0) || p[3] == Datum::Integer(1)) {
        if tables::stores_named(t, p[0]->Text_0, p[1]->Text_0).len() == 0 {
            tables::lemma_store_keeps(t, t2.stores.last());
        }
    }
    if sql == ADD_KEYED_ROW@ && p.len() == 3 && p[0] is Integer && p[1] is Text && p[2] is Text {
        tables::lemma_row_keeps(t, rowid, p[0]->Integer_0, Some(p[1]->Text_0), p[2]->Text_0);
    }
    if sql == ADD_ROW@ && p.len() == 2 && p[0] is Integer && p[1] is Text {
        tables::lemma_row_keeps(t, rowid, p[0]->Integer_0, None, p[1]->Text_0);
    }
    if sql == DELETE_KEY@ && p.len() == 2 && p[0] is Integer && p[1] is Text {
        let store_id = p[0]->Integer_0;
        let key = p[1]->Text_0;
        tables::lemma_removal_keeps(
            t,
            |r: DataRow| r.store_id == store_id && r.key == Some(key),
        );
    }
    if sql == DELETE_ROW@ && p.len() == 1 && p[0] is Integer {
        let id = p[0]->Integer_0;
        tables::lemma_removal_keeps(t, |r: DataRow| r.id == id);
    }
    if sql == DELETE_ROWS@ && p.len() == 1 && p[0] is Integer {
        let store_id = p[0]->Integer_0;
        tables::lemma_removal_keeps(t, |r: DataRow| r.store_id == store_id);
    }
    if sql == ADD_INDEX@ && p.len() == 3 && p[0] is Integer && p[1] is Text && p[2] is Text {
        if tables::indexes_named(t, p[0]->Integer_0, p[1]->Text_0).len() == 0 {
            tables::lemma_index_keeps(t, t2.indexes.last());
        }
    }
    if sql == DELETE_ENTRIES@ && p.len() == 1 && p[0] is Integer {
        tables::lemma_entries_keep(t, p[0]->Integer_0);
    }
    if sql == ADD_ENTRY@ && p.len() == 3 && p[0] is Integer && p[1] is Text && p[2] is Integer {
        tables::lemma_entry_keeps(t, p[0]->Integer_0, p[1]->Text_0, p[2]->Integer_0);
    }
    if sql == DELETE_INDEX@ && p.len() == 2 && p[0] is Integer && p[1] is Text {
        tables::lemma_index_removal_keeps(t, p[0]->Integer_0, p[1]->Text_0);
    }
    if sql == SET_VERSION@ && p.len() == 2 && p[0] is Integer && p[1] is Text {
        tables::lemma_database_keeps(t, p[1]->Text_0, p[0]->Integer_0);
    }
    if sql == SET_KEY@ && p.len() == 2 && p[0] is Text && p[1] is Integer {
        tables::lemma_key_keeps(t, p[1]->Integer_0, p[0]->Text_0);
    }
    if sql == SET_INDEX_PATH@ && p.len() == 2 && p[0] is Text && p[1] is Integer {
        tables::lemma_path_keeps(t, p[1]->Integer_0, p[0]->Text_0);
    }
}

/// What a query hands out on the tables `t`. Where a query asks for no order, its
/// rows may come in any.
pub open spec fn page_selected(
    sql: Seq<char>,
    p: Seq<Datum>,
    t: Tables,
    rows: Seq<Seq<Datum>>,
) -> bool {
    &&& sql == STORE_ID@ && p.len() == 2 && p[0] is Text && p[1] is Text ==> rows.to_multiset()
        == tables::stores_named(t, p[0]->Text_0, p[1]->Text_0).map_values(
        |s: StoreRow| seq![Datum::Integer(s.id)],
    ).to_multiset()
    &&& sql == VALUE_OF_KEY@ && p.len() == 2 && p[0] is Integer && p[1] is Text ==> {
        let found = tables::rows_with_key(t, p[0]->Integer_0, p[1]->Text_0);
        if found.len() == 0 {
            rows.len() == 0
        } else {
            rows.len() == 1 && exists|i: int|
                0 <= i < found.len() && rows[0] == seq![Datum::Text((#[trigger] found[i]).value)]
        }
    }
    &&& sql == COUNT_ROWS@ && p.len() == 1 && p[0] is Integer ==> rows == seq![
        seq![Datum::Integer(tables::rows_of(t, p[0]->Integer_0).len() as int)],
    ]
    &&& sql == ALL_KEYS@ && p.len() == 1 && p[0] is Integer ==> rows.to_multiset() == tables::rows_of(
        t,
        p[0]->Integer_0,
    ).filter(|r: DataRow| r.key is Some).map_values(
        |r: DataRow| seq![Datum::Text(r.key->0)],
    ).to_multiset()
    &&& sql == ALL_PAIRS@ && p.len() == 1 && p[0] is Integer ==> rows == tables::rows_of(
        t,
        p[0]->Integer_0,
    ).map_values(|r: DataRow| pair_row(r))
    &&& sql == ALL_VALUES@ && p.len() == 1 && p[0] is Integer ==> rows.to_multiset() == tables::rows_of(
        t,
        p[0]->Integer_0,
    ).map_values(|r: DataRow| seq![Datum::Integer(r.id), Datum::Text(r.value)]).to_multiset()
    &&& sql == STORE_INDEXES@ && p.len() == 1 && p[0] is Integer ==> rows.to_multiset()
        == tables::indexes_of(t, p[0]->Integer_0).map_values(
        |x: IndexRow| seq![Datum::Integer(x.id), Datum::Text(x.key_path)],
    ).to_multiset()
    &&& sql == INDEX_ID@ && p.len() == 2 && p[0] is Integer && p[1] is Text ==> rows.to_multiset()
        == tables::indexes_named(t, p[0]->Integer_0, p[1]->Text_0).map_values(
        |x: IndexRow| seq![Datum::Integer(x.id)],
    ).to_multiset()
    &&& sql == INDEXED_PAIRS@ && p.len() == 2 && p[0] is Integer && p[1] is Text ==> exists|
        es: Seq<EntryRow>,
    |
        #[trigger] es.to_multiset() == tables::entries_of(t, p[0]->Integer_0, p[1]->Text_0) && rows
            == es.map_values(|e: EntryRow| pair_row(tables::row_with(t, e.row_id)))
    &&& sql == VERSION_OF@ && p.len() == 1 && p[0] is Text ==> rows
        == if t.versions.contains_key(p[0]->Text_0) {
        seq![seq![Datum::Integer(t.versions[p[0]->Text_0])]]
    } else {
        Seq::empty()
    }
}

/// What a statement that succeeded on the local storage `m` left behind.
pub open spec fn local_changed(
    sql: Seq<char>,
    p: Seq<Datum>,
    m: Map<Seq<char>, Seq<char>>,
    m2: Map<Seq<char>, Seq<char>>,
) -> bool {
    &&& sql == LOCAL_SET@ && p.len() == 2 && p[0] is Text && p[1] is Text ==> m2 == m.insert(
        p[0]->Text_0,
        p[1]->Text_0,
    )
    &&& sql == LOCAL_REMOVE@ && p.len() == 1 && p[0] is Text ==> m2 == m.remove(p[0]->Text_0)
    &&& sql == LOCAL_CLEAR@ && p.len() == 0 ==> m2 == Map::<Seq<char>, Seq<char>>::empty()
}

/// What a query hands out on the local storage `m`.
pub open spec fn local_selected(
    sql: Seq<char>,
    p: Seq<Datum>,
    m: Map<Seq<char>, Seq<char>>,
    rows: Seq<Seq<Datum>>,
) -> bool {
    &&& sql == LOCAL_GET@ && p.len() == 1 && p[0] is Text ==> rows == if m.contains_key(
        p[0]->Text_0,
    ) {
        seq![seq![Datum::Text(m[p[0]->Text_0])]]
    } else {
        Seq::empty()
    }
    &&& sql == LOCAL_KEYS@ && p.len() == 0 ==> exists|keys: Seq<Seq<char>>|
        #[trigger] keys.no_duplicates() && keys.to_set() == m.dom() && rows == keys.map_values(
            |k: Seq<char>| seq![Datum::Text(k)],
        )
    &&& sql == LOCAL_LEN@ && p.len() == 0 ==> rows == seq![
        seq![Datum::Integer(m.dom().len() as int)],
    ]
    &&& sql == LOCAL_HAS@ && p.len() == 1 && p[0] is Text ==> rows == if m.contains_key(
        p[0]->Text_0,
    ) {
        seq![seq![Datum::Integer(1)]]
    } else {
        Seq::empty()
    }
}

/// Whether the connection leads to a private in-memory database that holds no
/// table yet.
pub uninterp spec fn is_new(conn: rusqlite::Connection) -> bool;

/// The tables of a page database in memory: those that are committed, above them
/// those that an open transaction sees, and then those that each savepoint in it has
/// above it. Empty for any other connection.
pub uninterp spec fn page_layers(conn: rusqlite::Connection) -> Seq<Tables>;

/// The table of a local storage in memory, outside of a transaction. Empty for any
/// other connection.
pub uninterp spec fn local_layers(conn: rusqlite::Connection) -> Seq<Map<Seq<char>, Seq<char>>>;

/// The id of the row that was inserted last.
pub uninterp spec fn inserted_id(conn: rusqlite::Connection) -> int;

/// The path that the connection was opened with. None for a private database in
/// memory.
pub uninterp spec fn opened_path(conn: rusqlite::Connection) -> Option<std::path::PathBuf>;

/// A text that was given to SQLite to run, and the values for its parameters.
pub struct Statement {
    pub sql: Seq<char>,
    pub values: Seq<Datum>,
}

/// What was run on the connection without an error, queries aside, in its order.
pub uninterp spec fn statements(conn: rusqlite::Connection) -> Seq<Statement>;

/// Whether the query with these values was answered with these rows or, where there
/// are none, with an error. The same query may be answered otherwise another time.
pub uninterp spec fn answered(
    conn: rusqlite::Connection,
    sql: Seq<char>,
    values: Seq<Datum>,
    answer: Option<Seq<Seq<Datum>>>,
) -> bool;

/// What a statement that failed leaves behind: what was there before, unless it
/// ended the open transaction.
pub open spec fn after_failure(before: Seq<Tables>, after: Seq<Tables>) -> bool {
    after == before || (before.len() >= 2 && after == seq![before[0]])
}

/// `rusqlite::Connection::open` connects to the database file at the path, which it
/// creates where there is none. What the file holds is not said.
#[verifier::external_body]
pub(crate) fn open_file(path: std::path::PathBuf) -> (r: Result<
    rusqlite::Connection,
    rusqlite::Error,
>)
    ensures
        r matches Ok(conn) ==> opened_path(conn) == Some(path) && statements(conn).len() == 0,
{
    rusqlite::Connection::open(path)
}

/// `rusqlite::Connection::open_in_memory` connects to a database of its own, in
/// memory, without a path and without any table.
#[verifier::external_body]
pub(crate) fn open_in_memory() -> (r: Result<rusqlite::Connection, rusqlite::Error>)
    ensures
        r matches Ok(conn) ==> is_new(conn) && opened_path(conn) is None && statements(conn).len()
            == 0,
{
    rusqlite::Connection::open_in_memory()
}

/// `rusqlite::Connection::execute_batch` runs the statements of `sql`, all of them
/// unless it fails, on the database that the connection was opened with. A schema on a
/// new database makes its tables, without rows. `BEGIN` opens a transaction on the
/// present tables, and fails where one is open; `COMMIT` and `ROLLBACK` end it with
/// the tables that it sees or with those from before it. Within a transaction
/// `SAVEPOINT` puts a savepoint on the present tables, `ROLLBACK TO` goes back to what
/// the last savepoint stands on, and `RELEASE` takes that savepoint away and leaves the
/// tables above it. One that fails may end the transaction without its changes.
#[verifier::external_body]
pub(crate) fn execute_batch(conn: &mut rusqlite::Connection, sql: &str) -> (r: Result<
    (),
    rusqlite::Error,
>)
    ensures
        opened_path(*final(conn)) == opened_path(*old(conn)),
        statements(*final(conn)) == if r is Ok {
            statements(*old(conn)).push(Statement { sql: sql@, values: Seq::empty() })
        } else {
            statements(*old(conn))
        },
        sql@ == PAGE_SCHEMA@ && is_new(*old(conn)) && r is Ok ==> page_layers(*final(conn))
            == seq![tables::no_rows()],
        sql@ == LOCAL_SCHEMA@ && is_new(*old(conn)) && r is Ok ==> local_layers(*final(conn))
            == seq![Map::<Seq<char>, Seq<char>>::empty()],
        sql@ == BEGIN@ && page_layers(*old(conn)).len() > 0 ==> if r is Ok {
            page_layers(*old(conn)).len() == 1 && page_layers(*final(conn)) == page_layers(
                *old(conn),
            ).push(page_layers(*old(conn))[0])
        } else {
            page_layers(*final(conn)) == page_layers(*old(conn))
        },
        sql@ == COMMIT@ && page_layers(*old(conn)).len() > 0 ==> if r is Ok {
            page_layers(*final(conn)) == seq![page_layers(*old(conn)).last()]
        } else {
            after_failure(page_layers(*old(conn)), page_layers(*final(conn)))
        },
        sql@ == ROLLBACK@ && page_layers(*old(conn)).len() > 0 ==> if r is Ok {
            page_layers(*final(conn)) == seq![page_layers(*old(conn))[0]]
        } else {
            after_failure(page_layers(*old(conn)), page_layers(*final(conn)))
        },
        sql@ == SAVEPOINT@ && page_layers(*old(conn)).len() >= 2 ==> if r is Ok {
            page_layers(*final(conn)) == page_layers(*old(conn)).push(
                page_layers(*old(conn)).last(),
            )
        } else {
            after_failure(page_layers(*old(conn)), page_layers(*final(conn)))
        },
        sql@ == RELEASE@ && page_layers(*old(conn)).len() >= 3 ==> if r is Ok {
            page_layers(*final(conn)) == page_layers(*old(conn)).drop_last().drop_last().push(
                page_layers(*old(conn)).last(),
            )
        } else {
            after_failure(page_layers(*old(conn)), page_layers(*final(conn)))
        },
        sql@ == ROLLBACK_TO@ && page_layers(*old(conn)).len() >= 3 ==> if r is Ok {
            page_layers(*final(conn)) == page_layers(*old(conn)).drop_last().push(
                page_layers(*old(conn)).drop_last().last(),
            )
        } else {
            after_failure(page_layers(*old(conn)), page_layers(*final(conn)))
        },
{
    conn.execute_batch(sql)
}

/// `rusqlite::Connection::execute` runs one statement with the given values and
/// returns the number of rows that it changed. A row that breaks a foreign key is
/// refused; an id is larger than any that the table gave out before. A statement
/// that fails changes nothing, though it may end an open transaction. It runs on the
/// database that the connection was opened with.
#[verifier::external_body]
pub(crate) fn execute(conn: &mut rusqlite::Connection, sql: &str, params: &Vec<Param>) -> (r: Result<
    usize,
    rusqlite::Error,
>)
    ensures
        opened_path(*final(conn)) == opened_path(*old(conn)),
        statements(*final(conn)) == if r is Ok {
            statements(*old(conn)).push(Statement { sql: sql@, values: given(params@) })
        } else {
            statements(*old(conn))
        },
        is_page_change(sql@) && page_layers(*old(conn)).len() > 0 ==> match r {
            Ok(n) => {
                &&& page_layers(*final(conn)).len() == page_layers(*old(conn)).len()
                &&& page_layers(*final(conn)).drop_last() == page_layers(*old(conn)).drop_last()
                &&& page_changed(
                    sql@,
                    given(params@),
                    page_layers(*old(conn)).last(),
                    page_layers(*final(conn)).last(),
                    n as int,
                    inserted_id(*final(conn)),
                )
            },
            Err(_) => after_failure(page_layers(*old(conn)), page_layers(*final(conn))),
        },
        is_local_change(sql@) && local_layers(*old(conn)).len() == 1 ==> match r {
            Ok(_) => {
                &&& local_layers(*final(conn)).len() == 1
                &&& local_changed(
                    sql@,
                    given(params@),
                    local_layers(*old(conn))[0],
                    local_layers(*final(conn))[0],
                )
            },
            Err(_) => local_layers(*final(conn)) == local_layers(*old(conn)),
        },
{
    let values = params.iter().map(|p| match p {
        Param::Null => Value::Null,
        Param::Integer(i) => Value::Integer(*i),
        Param::Text(s) => Value::Text(s.clone()),
    });
    conn.execute(sql, rusqlite::params_from_iter(values))
}

/// `rusqlite::Statement::query_map` runs one query with the given values and hands
/// out its rows, which are its answer.
#[verifier::external_body]
pub(crate) fn query(conn: &rusqlite::Connection, sql: &str, params: &Vec<Param>) -> (r: Result<
    Vec<Vec<Cell>>,
    rusqlite::Error,
>)
    requires
        is_query(sql@),
    ensures
        answered(
            *conn,
            sql@,
            given(params@),
            match r {
                Ok(rows) => Some(table(rows@)),
                Err(_) => None,
            },
        ),
        r matches Ok(rows) ==> page_layers(*conn).len() > 0 ==> page_selected(
            sql@,
            given(params@),
            page_layers(*conn).last(),
            table(rows@),
        ),
        r matches Ok(rows) ==> local_layers(*conn).len() == 1 ==> local_selected(
            sql@,
            given(params@),
            local_layers(*conn)[0],
            table(rows@),
        ),
{
    let values = params.iter().map(|p| match p {
        Param::Null => Value::Null,
        Param::Integer(i) => Value::Integer(*i),
        Param::Text(s) => Value::Text(s.clone()),
    });
    let mut stmt = conn.prepare(sql)?;
    let width = stmt.column_count();
    let rows = stmt.query_map(rusqlite::params_from_iter(values), |row| (0..width).map(|i| Ok(match row.get_ref(i)? {
        ValueRef::Null => Cell::Null,
        ValueRef::Integer(n) => Cell::Integer(n),
        ValueRef::Text(_) => Cell::Text(row.get(i)?),
        ValueRef::Real(_) => Cell::Real,
        ValueRef::Blob(_) => Cell::Blob,
    })).collect())?;
    rows.collect()
}

/// `rusqlite::Connection::last_insert_rowid` gives the id of the row that was
/// inserted last.
#[verifier::external_body]
pub(crate) fn last_insert_rowid(conn: &rusqlite::Connection) -> (r: i64)
    ensures
        r == inserted_id(*conn),
{
    conn.last_insert_rowid()
}

/// `rusqlite::Connection::is_autocommit` tells whether no transaction is open.
#[verifier::external_body]
pub(crate) fn is_autocommit(conn: &rusqlite::Connection) -> (r: bool)
    ensures
        page_layers(*conn).len() > 0 ==> r == (page_layers(*conn).len() == 1),
{
    conn.is_autocommit()
}

/// Values that go to SQLite and come from it say what they hold, in their order.
pub proof fn law_values_say_what_they_hold(
    params: Seq<Param>,
    rows: Seq<Vec<Cell>>,
    n: i64,
    s: String,
    i: int,
    k: int,
)
    ensures
        Param::Null@ == Datum::Null,
        Param::Integer(n)@ == Datum::Integer(n as int),
        Param::Text(s)@ == Datum::Text(s@),
        Cell::Null@ == Datum::Null,
        Cell::Integer(n)@ == Datum::Integer(n as int),
        Cell::Text(s)@ == Datum::Text(s@),
        Cell::Real@ == Datum::Real,
        Cell::Blob@ == Datum::Blob,
        given(params).len() == params.len(),
        0 <= i < params.len() ==> given(params)[i] == params[i]@,
        table(rows).len() == rows.len(),
        0 <= i < rows.len() ==> table(rows)[i].len() == rows[i]@.len(),
        0 <= i < rows.len() && 0 <= k < rows[i]@.len() ==> table(rows)[i][k] == rows[i]@[k]@,
        number_and_text(n as int, s@) == seq![Datum::Integer(n as int), Datum::Text(s@)],
        two_texts(s@, s@) == seq![Datum::Text(s@), Datum::Text(s@)],
{
}

/// A statement that failed leaves the committed tables, and every layer or only those.
pub proof fn law_failure_keeps_what_is_committed(before: Seq<Tables>, after: Seq<Tables>)
    requires
        before.len() > 0,
        after_failure(before, after),
    ensures
        after.len() > 0,
        after[0] == before[0],
        after == before || after.len() == 1,
{
}

/// The words of the statements of a page database, which say to SQLite what the tables
/// are to become and what is wanted of them.
pub proof fn law_words_of_page_statements()
    ensures
        ADD_DATABASE@ == "INSERT OR IGNORE INTO databases (name, version) VALUES (?1, 1)"@,
        ADD_STORE@ == "INSERT OR IGNORE INTO object_stores (db_name, store_name, key_path, auto_increment) VALUES (?1, ?2, ?3, ?4)"@,
        STORE_ID@ == "SELECT id FROM object_stores WHERE db_name = ?1 AND store_name = ?2"@,
        ADD_KEYED_ROW@ == "INSERT INTO store_data (store_id, key_val, value) VALUES (?1, ?2, ?3)"@,
        ADD_ROW@ == "INSERT INTO store_data (store_id, value) VALUES (?1, ?2)"@,
        SET_KEY@ == "UPDATE store_data SET key_val = ?1 WHERE id = ?2"@,
        VALUE_OF_KEY@ == "SELECT value FROM store_data WHERE store_id = ?1 AND key_val = ?2 LIMIT 1"@,
        DELETE_KEY@ == "DELETE FROM store_data WHERE store_id = ?1 AND key_val = ?2"@,
        DELETE_ROW@ == "DELETE FROM store_data WHERE id = ?1"@,
        DELETE_ROWS@ == "DELETE FROM store_data WHERE store_id = ?1"@,
        COUNT_ROWS@ == "SELECT COUNT(*) FROM store_data WHERE store_id = ?1"@,
        ALL_KEYS@ == "SELECT key_val FROM store_data WHERE store_id = ?1 AND key_val IS NOT NULL"@,
        ALL_PAIRS@ == "SELECT key_val, value FROM store_data WHERE store_id = ?1 ORDER BY id"@,
        ALL_VALUES@ == "SELECT id, value FROM store_data WHERE store_id = ?1"@,
        ADD_INDEX@ == "INSERT OR IGNORE INTO store_indexes (store_id, index_name, key_path) VALUES (?1, ?2, ?3)"@,
        SET_INDEX_PATH@ == "UPDATE store_indexes SET key_path = ?1 WHERE id = ?2"@,
        STORE_INDEXES@ == "SELECT id, key_path FROM store_indexes WHERE store_id = ?1"@,
        INDEX_ID@ == "SELECT id FROM store_indexes WHERE store_id = ?1 AND index_name = ?2"@,
        DELETE_ENTRIES@ == "DELETE FROM store_index_data WHERE index_id = ?1"@,
        ADD_ENTRY@ == "INSERT INTO store_index_data (index_id, index_key, store_row_id) VALUES (?1, ?2, ?3)"@,
        INDEXED_PAIRS@ == "SELECT sd.key_val, sd.value FROM store_index_data sid JOIN store_data sd ON sd.id = sid.store_row_id WHERE sid.index_id = ?1 AND sid.index_key = ?2"@,
        DELETE_INDEX@ == "DELETE FROM store_indexes WHERE store_id = ?1 AND index_name = ?2"@,
        VERSION_OF@ == "SELECT version FROM databases WHERE name = ?1"@,
        SET_VERSION@ == "UPDATE databases SET version = ?1 WHERE name = ?2"@,
{
}

/// The words that begin, end and undo a transaction or a savepoint in it.
pub proof fn law_words_of_transactions()
    ensures
        BEGIN@ == "BEGIN DEFERRED"@,
        COMMIT@ == "COMMIT"@,
        ROLLBACK@ == "ROLLBACK"@,
        SAVEPOINT@ == "SAVEPOINT change"@,
        RELEASE@ == "RELEASE change"@,
        ROLLBACK_TO@ == "ROLLBACK TO change"@,
{
}

/// The words of the statements of a local storage.
pub proof fn law_words_of_local_statements()
    ensures
        LOCAL_SET@ == "INSERT OR REPLACE INTO storage (key, value) VALUES (?1, ?2)"@,
        LOCAL_REMOVE@ == "DELETE FROM storage WHERE key = ?1"@,
        LOCAL_CLEAR@ == "DELETE FROM storage"@,
        LOCAL_GET@ == "SELECT value FROM storage WHERE key = ?1"@,
        LOCAL_KEYS@ == "SELECT key FROM storage"@,
        LOCAL_LEN@ == "SELECT COUNT(*) FROM storage"@,
        LOCAL_HAS@ == "SELECT 1 FROM storage WHERE key = ?1 LIMIT 1"@,
{
}

} // verus!
