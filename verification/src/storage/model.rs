//! What the operations of a page database do to its tables.

use crate::storage::error::StorageError;
use crate::storage::json;
use crate::storage::rows;
use crate::storage::sqlite;
use crate::storage::sqlite::{Datum, Statement};
use crate::storage::tables;
use crate::storage::tables::{DataRow, EntryRow, IndexRow, StoreRow, Tables};
use crate::text;
use vstd::multiset::Multiset;
use vstd::prelude::*;

verus! {

/// A staged change.
#[allow(inconsistent_fields)]
pub enum Change {
    Put { store_id: int, key: Option<Seq<char>>, value: Seq<char> },
    Delete { store_id: int, key: Seq<char> },
    Clear { store_id: int },
}

/// An open transaction: the stores that it may write to, and what it will write.
pub struct TransactionView {
    pub store_ids: Seq<i64>,
    pub changes: Seq<Change>,
}

/// What a row looks like to a cursor.
pub open spec fn row_pair(r: DataRow) -> (Seq<char>, Seq<char>) {
    (
        match r.key {
            Some(k) => k,
            None => Seq::empty(),
        },
        r.value,
    )
}

/// The pairs of a store, in the order in which they were put.
pub open spec fn store_pairs(t: Tables, store_id: int) -> Seq<(Seq<char>, Seq<char>)> {
    tables::rows_of(t, store_id).map_values(|r: DataRow| row_pair(r))
}

/// The keys of a store.
pub open spec fn store_keys(t: Tables, store_id: int) -> Multiset<Seq<char>> {
    tables::rows_of(t, store_id).filter(|r: DataRow| r.key is Some).map_values(
        |r: DataRow| r.key->0,
    ).to_multiset()
}

/// Whether `value` is stored under `key`.
pub open spec fn holds(t: Tables, store_id: int, key: Seq<char>, value: Seq<char>) -> bool {
    exists|i: int|
        0 <= i < tables::rows_with_key(t, store_id, key).len() && (#[trigger] tables::rows_with_key(
            t,
            store_id,
            key,
        )[i]).value == value
}

/// The key under which a put stores its row: the one that is given, else the id of
/// the row.
pub open spec fn put_key(key: Option<Seq<char>>, id: int) -> Seq<char> {
    match key {
        Some(k) => k,
        None => text::decimal(id),
    }
}

/// Which indexes have an entry for a row with this value.
pub open spec fn indexes_value(value: Seq<char>) -> spec_fn(IndexRow) -> bool {
    |x: IndexRow| json::field_key(json::json_field(value, x.key_path)) is Some
}

/// The entry that a row has in an index.
pub open spec fn entry_in(row_id: int, value: Seq<char>) -> spec_fn(IndexRow) -> EntryRow {
    |x: IndexRow|
        EntryRow {
            index_id: x.id,
            key: json::field_key(json::json_field(value, x.key_path))->0,
            row_id,
        }
}

/// The entries that a row has in the indexes of its store.
pub open spec fn row_entries(
    t: Tables,
    store_id: int,
    row_id: int,
    value: Seq<char>,
) -> Multiset<EntryRow> {
    tables::indexes_of(t, store_id).filter(indexes_value(value)).map_values(
        entry_in(row_id, value),
    ).to_multiset()
}

/// `t` with a row under a key that is given, in place of the one that was there, or
/// under its id, and with its entries in the indexes of the store.
pub open spec fn with_put(
    t: Tables,
    id: int,
    store_id: int,
    key: Option<Seq<char>>,
    value: Seq<char>,
) -> Tables {
    let base = match key {
        Some(k) => tables::without_key(t, store_id, k),
        None => t,
    };
    Tables {
        entries: base.entries.add(row_entries(t, store_id, id, value)),
        ..tables::with_row(base, id, store_id, Some(put_key(key, id)), value)
    }
}

/// `t2` is what a put makes of `t`. The row has a new id. Where that is its key, no
/// other row of the store has it.
pub open spec fn row_put(
    t: Tables,
    t2: Tables,
    store_id: int,
    key: Option<Seq<char>>,
    value: Seq<char>,
) -> bool {
    &&& tables::has_store(t, store_id)
    &&& t.last_row < t2.last_row <= i64::MAX
    &&& key is None ==> tables::rows_with_key(t, store_id, text::decimal(t2.last_row)).len() == 0
    &&& t2 == with_put(t, t2.last_row, store_id, key, value)
}

/// `t2` is what the change makes of `t`.
pub open spec fn applied(c: Change, t: Tables, t2: Tables) -> bool {
    match c {
        Change::Put { store_id, key, value } => row_put(t, t2, store_id, key, value),
        Change::Delete { store_id, key } => t2 == tables::without_key(t, store_id, key),
        Change::Clear { store_id } => t2 == tables::without_store_rows(t, store_id),
    }
}

/// `t2` is what the changes make of `t`, one after the other.
pub open spec fn all_applied(cs: Seq<Change>, t: Tables, t2: Tables) -> bool
    decreases cs.len(),
{
    if cs.len() == 0 {
        t2 == t
    } else {
        exists|m: Tables|
            all_applied(cs.drop_last(), t, m) && #[trigger] applied(cs.last(), m, t2)
    }
}

/// The store of this name: `t` itself where there is one, else `t` with one more.
pub open spec fn store_added(
    t: Tables,
    t2: Tables,
    db: Seq<char>,
    name: Seq<char>,
    key_path: Option<Seq<char>>,
    auto_increment: bool,
) -> bool {
    &&& t.versions.contains_key(db)
    &&& if tables::stores_named(t, db, name).len() > 0 {
        t2 == t
    } else {
        &&& t.last_store < t2.last_store <= i64::MAX
        &&& t2 == tables::with_store(
            t,
            StoreRow {
                id: t2.last_store,
                db_name: db,
                store_name: name,
                key_path,
                auto_increment,
            },
        )
    }
}

/// Whether every table that the layers see is well formed.
pub open spec fn layers_well_formed(layers: Seq<Tables>) -> bool {
    forall|i: int| 0 <= i < layers.len() ==> tables::well_formed(#[trigger] layers[i])
}

/// What changes that broke off left of the layers: the lower ones as they were, or the
/// lowest alone where the open transaction was ended.
pub open spec fn broken_off(before: Seq<Tables>, after: Seq<Tables>) -> bool {
    ||| after.len() == before.len() && after.drop_last() == before.drop_last()
    ||| before.len() >= 2 && after == seq![before[0]]
}

/// Changes that went on for a while before they broke off.
pub proof fn lemma_broken_off(before: Seq<Tables>, now: Seq<Tables>, after: Seq<Tables>)
    requires
        before.len() > 0,
        now.len() == before.len(),
        now.drop_last() == before.drop_last(),
        broken_off(now, after) || sqlite::after_failure(now, after),
    ensures
        broken_off(before, after),
{
    if before.len() >= 2 {
        assert(now[0] == now.drop_last()[0]);
        assert(before[0] == before.drop_last()[0]);
    }
}

/// The id after `id`: the next larger one, or the smallest after the largest.
pub open spec fn following_id(id: i64) -> i64 {
    if id == i64::MAX {
        i64::MIN
    } else {
        (id + 1) as i64
    }
}

/// Where a cursor at `position` stands after `count` more.
pub open spec fn moved_on(position: usize, count: u32) -> usize {
    if position + count > usize::MAX {
        usize::MAX
    } else {
        (position + count) as usize
    }
}

/// What staging a change does to the open transactions, and what it returns: the
/// transaction must be open and the store one of its own.
pub open spec fn staging(
    before: Map<i64, TransactionView>,
    tx_id: i64,
    store_id: i64,
    change: Change,
    after: Map<i64, TransactionView>,
    r: Result<(), StorageError>,
) -> bool {
    if !before.contains_key(tx_id) {
        r is Err && r->Err_0 is UnknownTransaction && after == before
    } else if !before[tx_id].store_ids.contains(store_id) {
        r is Err && r->Err_0 == StorageError::StoreNotInTransaction(store_id) && after == before
    } else {
        r is Ok && after == before.insert(
            tx_id,
            TransactionView {
                store_ids: before[tx_id].store_ids,
                changes: before[tx_id].changes.push(change),
            },
        )
    }
}

/// `es` are the entries of an index for a key, in some order.
pub open spec fn indexed_under(t: Tables, id: int, key: Seq<char>, es: Seq<EntryRow>) -> bool {
    es.to_multiset() == tables::entries_of(t, id, key)
}

/// The pairs of the rows that the entries lead to.
pub open spec fn entry_pairs(t: Tables, es: Seq<EntryRow>) -> Seq<(Seq<char>, Seq<char>)> {
    es.map_values(|e: EntryRow| row_pair(tables::row_with(t, e.row_id)))
}

/// `found` is the id of the one store of this name.
pub open spec fn is_store(t: Tables, db: Seq<char>, name: Seq<char>, found: int) -> bool {
    &&& tables::stores_named(t, db, name).len() == 1
    &&& tables::stores_named(t, db, name)[0].id == found
}

/// `found` is the id of the one index of this name.
pub open spec fn is_index(t: Tables, store_id: int, name: Seq<char>, found: int) -> bool {
    &&& tables::indexes_named(t, store_id, name).len() == 1
    &&& tables::indexes_named(t, store_id, name)[0].id == found
}

/// `t2` is `t` itself where there is an index of this name, else `t` with one more.
pub open spec fn index_added(
    t: Tables,
    t2: Tables,
    store_id: int,
    name: Seq<char>,
    key_path: Seq<char>,
) -> bool {
    &&& tables::has_store(t, store_id)
    &&& if tables::indexes_named(t, store_id, name).len() > 0 {
        t2 == t
    } else {
        &&& t.last_index < t2.last_index <= i64::MAX
        &&& t2 == tables::with_index(
            t,
            IndexRow { id: t2.last_index, store_id, name, key_path },
        )
    }
}

/// Which rows stand in an index on this field.
pub open spec fn in_index(key_path: Seq<char>) -> spec_fn(DataRow) -> bool {
    |r: DataRow| json::field_key(json::json_field(r.value, key_path)) is Some
}

/// How a row stands in an index.
pub open spec fn entry_of(index_id: int, key_path: Seq<char>) -> spec_fn(DataRow) -> EntryRow {
    |r: DataRow|
        EntryRow {
            index_id,
            key: json::field_key(json::json_field(r.value, key_path))->0,
            row_id: r.id,
        }
}

/// The entries that the rows of a store have in an index.
pub open spec fn index_entries(
    t: Tables,
    index_id: int,
    store_id: int,
    key_path: Seq<char>,
) -> Multiset<EntryRow> {
    tables::rows_of(t, store_id).filter(in_index(key_path)).map_values(
        entry_of(index_id, key_path),
    ).to_multiset()
}

/// `t` with an index filled anew.
pub open spec fn indexed(t: Tables, index_id: int, store_id: int, key_path: Seq<char>) -> Tables {
    Tables {
        entries: tables::without_entries(t, index_id).entries.add(
            index_entries(t, index_id, store_id, key_path),
        ),
        ..t
    }
}

/// `t2` is `t` with the index `id` of this name on the field `key_path`, filled anew.
/// An index of this name that is there already gets the field.
pub open spec fn index_created(
    t: Tables,
    t2: Tables,
    store_id: int,
    name: Seq<char>,
    key_path: Seq<char>,
    id: int,
) -> bool {
    &&& tables::has_store(t, store_id)
    &&& if tables::indexes_named(t, store_id, name).len() > 0 {
        &&& tables::indexes_named(t, store_id, name)[0].id == id
        &&& t2 == indexed(tables::with_path(t, id, key_path), id, store_id, key_path)
    } else {
        &&& t.last_index < id <= i64::MAX
        &&& t2 == indexed(
            tables::with_index(t, IndexRow { id, store_id, name, key_path }),
            id,
            store_id,
            key_path,
        )
    }
}

/// The entries of an index.
pub open spec fn entries_in(t: Tables, id: int) -> Multiset<EntryRow> {
    t.entries.filter(|e: EntryRow| e.index_id == id)
}

/// Every row has a key, and no two rows of a store have the same.
pub open spec fn keyed(t: Tables) -> bool {
    &&& forall|i: int| 0 <= i < t.rows.len() ==> (#[trigger] t.rows[i]).key is Some
    &&& forall|i: int, j: int|
        0 <= i < j < t.rows.len() ==> !((#[trigger] t.rows[i]).store_id == (
        #[trigger] t.rows[j]).store_id && t.rows[i].key == t.rows[j].key)
}

/// Every index holds the entries of the rows of its store, and no others.
pub open spec fn indexes_complete(t: Tables) -> bool {
    forall|i: int|
        0 <= i < t.indexes.len() ==> entries_in(t, (#[trigger] t.indexes[i]).id) == index_entries(
            t,
            t.indexes[i].id,
            t.indexes[i].store_id,
            t.indexes[i].key_path,
        )
}

/// What holds of the tables between two operations.
pub open spec fn consistent(t: Tables) -> bool {
    tables::well_formed(t) && keyed(t) && indexes_complete(t)
}

/// The rows of a store that hold `key` in the field `key_path`.
pub open spec fn rows_under(
    t: Tables,
    store_id: int,
    key_path: Seq<char>,
    key: Seq<char>,
) -> Seq<DataRow> {
    tables::rows_of(t, store_id).filter(
        |r: DataRow| json::field_key(json::json_field(r.value, key_path)) == Some(key),
    )
}

/// The pairs of the rows of a store that the index of this name holds under `key`.
pub open spec fn found_pairs(
    t: Tables,
    store_id: int,
    name: Seq<char>,
    key: Seq<char>,
) -> Multiset<(Seq<char>, Seq<char>)> {
    rows_under(
        t,
        store_id,
        tables::indexes_named(t, store_id, name)[0].key_path,
        key,
    ).map_values(|r: DataRow| row_pair(r)).to_multiset()
}

/// A statement with its values.
pub open spec fn statement(sql: Seq<char>, values: Seq<Datum>) -> Statement {
    Statement { sql, values }
}

/// The statement that makes an object store.
pub open spec fn store_statement(
    db: Seq<char>,
    name: Seq<char>,
    key_path: Option<Seq<char>>,
    auto_increment: bool,
) -> Statement {
    statement(
        sqlite::ADD_STORE@,
        seq![
            Datum::Text(db),
            Datum::Text(name),
            match key_path {
                Some(p) => Datum::Text(p),
                None => Datum::Null,
            },
            Datum::Integer(
                if auto_increment {
                    1
                } else {
                    0
                },
            ),
        ],
    )
}

/// Which indexes, by id and field, have an entry for a row with this value.
pub open spec fn field_of(value: Seq<char>) -> spec_fn((int, Seq<char>)) -> bool {
    |x: (int, Seq<char>)| json::field_key(json::json_field(value, x.1)) is Some
}

/// The statement that adds the entry of a row to an index.
pub open spec fn entry_statement(row_id: int, value: Seq<char>) -> spec_fn(
    (int, Seq<char>),
) -> Statement {
    |x: (int, Seq<char>)|
        statement(
            sqlite::ADD_ENTRY@,
            seq![
                Datum::Integer(x.0),
                Datum::Text(json::field_key(json::json_field(value, x.1))->0),
                Datum::Integer(row_id),
            ],
        )
}

/// What SQLite answered to a put: the ids of rows whose keys were in use, the id of the
/// row that stayed, and the indexes of the store, by id and field.
pub struct PutAnswers {
    pub tried: Seq<int>,
    pub id: int,
    pub indexes: Seq<(int, Seq<char>)>,
}

/// The statements for the rows whose keys were in use: each is added and deleted.
pub open spec fn tried_statements(store_id: int, value: Seq<char>, tried: Seq<int>) -> Seq<Statement>
    decreases tried.len(),
{
    if tried.len() == 0 {
        Seq::empty()
    } else {
        tried_statements(store_id, value, tried.drop_last()) + seq![
            statement(sqlite::ADD_ROW@, seq![Datum::Integer(store_id), Datum::Text(value)]),
            statement(sqlite::DELETE_ROW@, seq![Datum::Integer(tried.last())]),
        ]
    }
}

/// The statements of a put that was answered so.
pub open spec fn put_statements(
    store_id: int,
    key: Option<Seq<char>>,
    value: Seq<char>,
    a: PutAnswers,
) -> Seq<Statement> {
    let row = match key {
        Some(k) => seq![
            statement(sqlite::DELETE_KEY@, seq![Datum::Integer(store_id), Datum::Text(k)]),
            statement(
                sqlite::ADD_KEYED_ROW@,
                seq![Datum::Integer(store_id), Datum::Text(k), Datum::Text(value)],
            ),
        ],
        None => tried_statements(store_id, value, a.tried) + seq![
            statement(sqlite::ADD_ROW@, seq![Datum::Integer(store_id), Datum::Text(value)]),
            statement(
                sqlite::SET_KEY@,
                seq![Datum::Text(text::decimal(a.id)), Datum::Integer(a.id)],
            ),
        ],
    };
    row + a.indexes.filter(field_of(value)).map_values(entry_statement(a.id, value))
}

/// The statements of a change. Only a put has answers.
pub open spec fn change_statements(c: Change, a: PutAnswers) -> Seq<Statement> {
    match c {
        Change::Put { store_id, key, value } => put_statements(store_id, key, value, a),
        Change::Delete { store_id, key } => seq![
            statement(sqlite::DELETE_KEY@, seq![Datum::Integer(store_id), Datum::Text(key)]),
        ],
        Change::Clear { store_id } => seq![
            statement(sqlite::DELETE_ROWS@, seq![Datum::Integer(store_id)]),
        ],
    }
}

/// The answers of a change that asks nothing.
pub open spec fn no_answers() -> PutAnswers {
    PutAnswers { tried: Seq::empty(), id: 0, indexes: Seq::empty() }
}

/// `log` is `front` and the statements of a change.
pub open spec fn ran_next(
    c: Change,
    front: Seq<Statement>,
    log: Seq<Statement>,
    a: PutAnswers,
) -> bool {
    log == front + change_statements(c, a)
}

/// Whether the statements are those of the changes, one after the other.
pub open spec fn all_ran(cs: Seq<Change>, log: Seq<Statement>) -> bool
    decreases cs.len(),
{
    if cs.len() == 0 {
        log == Seq::<Statement>::empty()
    } else {
        exists|front: Seq<Statement>, a: PutAnswers|
            all_ran(cs.drop_last(), front) && #[trigger] ran_next(cs.last(), front, log, a)
    }
}

/// The statement that adds a row, given by id and value, to an index.
pub open spec fn indexing_statement(index_id: int, key_path: Seq<char>) -> spec_fn(
    (int, Seq<char>),
) -> Statement {
    |r: (int, Seq<char>)|
        statement(
            sqlite::ADD_ENTRY@,
            seq![
                Datum::Integer(index_id),
                Datum::Text(json::field_key(json::json_field(r.1, key_path))->0),
                Datum::Integer(r.0),
            ],
        )
}

/// Which rows, by id and value, stand in an index on this field.
pub open spec fn value_has(key_path: Seq<char>) -> spec_fn((int, Seq<char>)) -> bool {
    |r: (int, Seq<char>)| json::field_key(json::json_field(r.1, key_path)) is Some
}

/// The statements that fill an index anew from these rows.
pub open spec fn filling_statements(
    index_id: int,
    key_path: Seq<char>,
    found: Seq<(int, Seq<char>)>,
) -> Seq<Statement> {
    seq![statement(sqlite::DELETE_ENTRIES@, seq![Datum::Integer(index_id)])] + found.filter(
        value_has(key_path),
    ).map_values(indexing_statement(index_id, key_path))
}

/// The statements that make the index `id` and fill it from these rows.
pub open spec fn index_statements(
    store_id: int,
    name: Seq<char>,
    key_path: Seq<char>,
    id: int,
    found: Seq<(int, Seq<char>)>,
) -> Seq<Statement> {
    seq![
        statement(
            sqlite::ADD_INDEX@,
            seq![Datum::Integer(store_id), Datum::Text(name), Datum::Text(key_path)],
        ),
        statement(sqlite::SET_INDEX_PATH@, seq![Datum::Text(key_path), Datum::Integer(id)]),
    ] + filling_statements(id, key_path, found)
}

/// The statements of `log`, run as one transaction.
pub open spec fn as_transaction(log: Seq<Statement>) -> Seq<Statement> {
    seq![statement(sqlite::BEGIN@, Seq::empty())] + log + seq![
        statement(sqlite::COMMIT@, Seq::empty()),
    ]
}

/// The statements of `log`, run as one: as a transaction or, within one, behind a
/// savepoint.
pub open spec fn as_one(log: Seq<Statement>, nested: bool) -> Seq<Statement> {
    if nested {
        seq![statement(sqlite::SAVEPOINT@, Seq::empty())] + log + seq![
            statement(sqlite::RELEASE@, Seq::empty()),
        ]
    } else {
        as_transaction(log)
    }
}

/// The ids and texts of a list.
pub open spec fn numbered(v: Seq<(i64, String)>) -> Seq<(int, Seq<char>)> {
    v.map_values(|p: (i64, String)| (p.0 as int, p.1@))
}

/// What one element more adds to the elements that are picked.
pub proof fn lemma_next_picked<A, B>(y: Seq<A>, i: int, p: spec_fn(A) -> bool, h: spec_fn(A) -> B)
    requires
        0 <= i < y.len(),
    ensures
        y.take(i + 1).filter(p).map_values(h) == if p(y[i]) {
            y.take(i).filter(p).map_values(h).push(h(y[i]))
        } else {
            y.take(i).filter(p).map_values(h)
        },
{
    reveal(Seq::filter);
    assert(y.take(i + 1).drop_last() =~= y.take(i));
    if p(y[i]) {
        assert(y.take(i + 1).filter(p).map_values(h) =~= y.take(i).filter(p).map_values(h).push(
            h(y[i]),
        ));
    }
}

/// Whether an open transaction has the store.
pub open spec fn locked(transactions: Map<i64, TransactionView>, store_id: i64) -> bool {
    exists|tx: i64| #[trigger]
        transactions.contains_key(tx) && transactions[tx].store_ids.contains(store_id)
}

/// A well-formed database has at most one store of a name.
pub proof fn lemma_one_store(t: Tables, db: Seq<char>, name: Seq<char>)
    requires
        tables::well_formed(t),
    ensures
        tables::stores_named(t, db, name).len() <= 1,
{
    let p = |s: StoreRow| s.db_name == db && s.store_name == name;
    let key = |s: StoreRow| s.id;
    let found = t.stores.filter(p);
    tables::lemma_filter_keeps_order(t.stores, p, key);
    if found.len() > 1 {
        assert(key(found[0]) < key(found[1]));
        assert(t.stores.contains(found[0]) && t.stores.contains(found[1]));
        let i = choose|i: int| 0 <= i < t.stores.len() && t.stores[i] == found[0];
        let j = choose|j: int| 0 <= j < t.stores.len() && t.stores[j] == found[1];
        assert(i < j || j < i);
    }
}

/// A store has at most one index of a name.
pub proof fn lemma_one_index(t: Tables, store_id: int, name: Seq<char>)
    requires
        tables::well_formed(t),
    ensures
        tables::indexes_named(t, store_id, name).len() <= 1,
{
    let p = |x: IndexRow| x.store_id == store_id && x.name == name;
    let key = |x: IndexRow| x.id;
    let found = t.indexes.filter(p);
    tables::lemma_filter_keeps_order(t.indexes, p, key);
    if found.len() > 1 {
        assert(key(found[0]) < key(found[1]));
        assert(t.indexes.contains(found[0]) && t.indexes.contains(found[1]));
        let i = choose|i: int| 0 <= i < t.indexes.len() && t.indexes[i] == found[0];
        let j = choose|j: int| 0 <= j < t.indexes.len() && t.indexes[j] == found[1];
        assert(i < j || j < i);
    }
}

/// A store that was added is there.
pub proof fn lemma_store_there(
    t: Tables,
    t2: Tables,
    db: Seq<char>,
    name: Seq<char>,
    key_path: Option<Seq<char>>,
    auto_increment: bool,
)
    requires
        tables::well_formed(t2),
        store_added(t, t2, db, name, key_path, auto_increment),
    ensures
        tables::stores_named(t2, db, name).len() == 1,
{
    lemma_one_store(t2, db, name);
    if tables::stores_named(t, db, name).len() == 0 {
        reveal(Seq::filter);
        assert(t2.stores.drop_last() =~= t.stores);
    }
}

/// An index that was added is there.
pub proof fn lemma_index_there(
    t: Tables,
    t2: Tables,
    store_id: int,
    name: Seq<char>,
    key_path: Seq<char>,
)
    requires
        tables::well_formed(t2),
        index_added(t, t2, store_id, name, key_path),
    ensures
        tables::indexes_named(t2, store_id, name).len() == 1,
{
    lemma_one_index(t2, store_id, name);
    if tables::indexes_named(t, store_id, name).len() == 0 {
        reveal(Seq::filter);
        assert(t2.indexes.drop_last() =~= t.indexes);
    }
}

/// A put under a key that is given, one statement after the other.
pub proof fn lemma_put_with_key(
    t: Tables,
    base: Tables,
    grown: Tables,
    t2: Tables,
    store_id: int,
    key: Seq<char>,
    value: Seq<char>,
    id: int,
)
    requires
        base == tables::without_key(t, store_id, key),
        tables::has_store(base, store_id),
        base.last_row < id <= i64::MAX,
        grown == tables::with_row(base, id, store_id, Some(key), value),
        t2 == (Tables {
            entries: grown.entries.add(row_entries(grown, store_id, id, value)),
            ..grown
        }),
    ensures
        t2.last_row == id,
        row_put(t, t2, store_id, Some(key), value),
{
    let i = choose|i: int|
        0 <= i < base.stores.len() && (#[trigger] base.stores[i]).id == store_id;
    assert(t.stores[i].id == store_id);
}

/// A row whose key is in use is added and deleted: only its id is gone.
pub proof fn lemma_tried(
    t: Tables,
    base: Tables,
    added: Tables,
    store_id: int,
    value: Seq<char>,
    id: int,
)
    requires
        tables::well_formed(t),
        base == (Tables { last_row: base.last_row, ..t }),
        t.last_row <= base.last_row < id,
        added == tables::with_row(base, id, store_id, None, value),
    ensures
        tables::without_row(added, id) == (Tables { last_row: id, ..t }),
{
    let gone = |r: DataRow| r.id == id;
    let kept = |r: DataRow| !gone(r);
    let row = added.rows.last();
    let u = tables::without_row(added, id);
    rows::lemma_filter_push(t.rows, row, kept);
    rows::lemma_filter_all(t.rows, kept);
    assert forall|e: EntryRow| t.entries.count(e) > 0 implies !#[trigger] tables::picks_row(
        added,
        gone,
        e.row_id,
    ) by {
        let k = choose|k: int| 0 <= k < t.rows.len() && (#[trigger] t.rows[k]).id == e.row_id;
        assert(t.rows[k].id <= t.last_row);
    }
    assert(u.entries =~= t.entries);
}

/// A put without a key, one statement after the other: the row gets its key once its
/// id is known and nothing is under it.
pub proof fn lemma_put_without_key(
    t: Tables,
    base: Tables,
    added: Tables,
    grown: Tables,
    t2: Tables,
    store_id: int,
    value: Seq<char>,
    id: int,
)
    requires
        tables::well_formed(t),
        base == (Tables { last_row: base.last_row, ..t }),
        tables::has_store(base, store_id),
        t.last_row <= base.last_row < id <= i64::MAX,
        added == tables::with_row(base, id, store_id, None, value),
        tables::rows_with_key(added, store_id, text::decimal(id)).len() == 0,
        grown == tables::with_key(added, id, text::decimal(id)),
        t2 == (Tables {
            entries: grown.entries.add(row_entries(grown, store_id, id, value)),
            ..grown
        }),
    ensures
        t2.last_row == id,
        row_put(t, t2, store_id, None, value),
{
    let key = text::decimal(id);
    let bare = added.rows.last();
    let i = choose|i: int|
        0 <= i < base.stores.len() && (#[trigger] base.stores[i]).id == store_id;
    assert(t.stores[i].id == store_id);
    rows::lemma_filter_push(
        t.rows,
        bare,
        |r: DataRow| r.store_id == store_id && r.key == Some(key),
    );
    assert(grown.rows =~= t.rows.push(DataRow { key: Some(key), ..bare }));
    assert(grown == tables::with_row(t, id, store_id, Some(key), value));
}

/// Setting the field of an index that was just added.
pub proof fn lemma_index_path(
    t: Tables,
    added: Tables,
    store_id: int,
    name: Seq<char>,
    key_path: Seq<char>,
    id: int,
)
    requires
        tables::well_formed(t),
        index_added(t, added, store_id, name, key_path),
        is_index(added, store_id, name, id),
    ensures
        index_created(
            t,
            indexed(tables::with_path(added, id, key_path), id, store_id, key_path),
            store_id,
            name,
            key_path,
            id,
        ),
{
    if tables::indexes_named(t, store_id, name).len() == 0 {
        let p = |x: IndexRow| x.store_id == store_id && x.name == name;
        let row = added.indexes.last();
        rows::lemma_filter_push(t.indexes, row, p);
        assert(added.indexes.filter(p)[0] == row);
        assert forall|i: int| 0 <= i < t.indexes.len() implies (#[trigger] t.indexes[i]).id
            < id by {}
        assert(tables::with_path(added, id, key_path).indexes =~= added.indexes);
    }
}

/// What one element more adds.
pub proof fn lemma_next<A>(
    y: Seq<A>,
    i: int,
    p: spec_fn(A) -> bool,
    h: spec_fn(A) -> EntryRow,
)
    requires
        0 <= i < y.len(),
    ensures
        y.take(i + 1).filter(p).map_values(h).to_multiset() == if p(y[i]) {
            y.take(i).filter(p).map_values(h).to_multiset().insert(h(y[i]))
        } else {
            y.take(i).filter(p).map_values(h).to_multiset()
        },
{
    broadcast use vstd::seq_lib::group_to_multiset_ensures;

    reveal(Seq::filter);
    let next = y.take(i + 1);
    assert(next.drop_last() =~= y.take(i));
    if p(y[i]) {
        assert(next.filter(p).map_values(h) =~= y.take(i).filter(p).map_values(h).push(h(y[i])));
    }
}

} // verus!
