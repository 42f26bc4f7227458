//! A page database: object stores, transactions, cursors and indexes over SQLite.

use crate::scan;
use crate::storage::consistency;
use crate::storage::error;
use crate::storage::error::StorageError;
use crate::storage::json;
use crate::storage::laws;
use crate::storage::model;
use crate::storage::model::{Change, PutAnswers, TransactionView};
use crate::storage::rows;
use crate::storage::sqlite;
use crate::storage::sqlite::{Datum, Param, Statement};
use crate::storage::tables;
use crate::storage::tables::{DataRow, EntryRow, IndexRow, StoreRow, Tables};
use crate::storage::traits::StorageBackend;
use crate::text;
use std::collections::HashMap;
use vstd::multiset::Multiset;
use vstd::prelude::*;

verus! {

broadcast use vstd::std_specs::hash::group_hash_axioms;

/// A position in the pairs of a store.
#[derive(Debug)]
pub struct Cursor {
    pub store_id: i64,
    pub position: usize,
}

/// A page database. Each database has a name and holds object stores, which hold one
/// JSON value under each key.
pub struct IndexedDb {
    conn: rusqlite::Connection,
    /// The open transactions. What is written through one is staged in memory until
    /// it is committed.
    transactions: HashMap<i64, TransactionContext>,
    cursors: HashMap<i64, Cursor>,
    /// The id of the next transaction or cursor.
    next_id: i64,
}

struct TransactionContext {
    store_ids: Vec<i64>,
    staged_ops: Vec<StagedOp>,
}

#[allow(inconsistent_fields)]
enum StagedOp {
    Put { store_id: i64, key: Option<String>, value: String },
    Delete { store_id: i64, key: String },
    Clear { store_id: i64 },
}

spec fn op_view(op: StagedOp) -> Change {
    match op {
        StagedOp::Put { store_id, key, value } => Change::Put {
            store_id: store_id as int,
            key: text::optional(key),
            value: value@,
        },
        StagedOp::Delete { store_id, key } => Change::Delete {
            store_id: store_id as int,
            key: key@,
        },
        StagedOp::Clear { store_id } => Change::Clear { store_id: store_id as int },
    }
}

spec fn context_view(c: TransactionContext) -> TransactionView {
    TransactionView {
        store_ids: c.store_ids@,
        changes: c.staged_ops@.map_values(|op: StagedOp| op_view(op)),
    }
}

impl IndexedDb {
    /// The tables of a database in memory: the committed ones, and above them those
    /// of a transaction of SQLite that could not be ended, with its savepoints. Empty for
    /// a file.
    pub closed spec fn layers(&self) -> Seq<Tables> {
        sqlite::page_layers(self.conn)
    }

    /// Whether the database is one in memory, with well-formed tables.
    pub open spec fn sound(&self) -> bool {
        0 < self.layers().len() && model::layers_well_formed(self.layers())
    }

    /// Whether the database is one in memory whose committed tables are consistent:
    /// what the contracts say of the tables, they say of such a database.
    pub open spec fn in_memory(&self) -> bool {
        self.sound() && model::consistent(self.layers()[0])
    }

    /// The present tables.
    pub open spec fn tables(&self) -> Tables {
        self.layers().last()
    }

    /// The open transactions.
    pub closed spec fn transactions(&self) -> Map<i64, TransactionView> {
        self.transactions@.map_values(|c: TransactionContext| context_view(c))
    }

    /// The open cursors.
    pub closed spec fn cursors(&self) -> Map<i64, Cursor> {
        self.cursors@
    }

    /// The id of the next transaction or cursor.
    pub closed spec fn next_id(&self) -> i64 {
        self.next_id
    }

    /// The path of the file that the database was opened in.
    pub closed spec fn path(&self) -> Option<std::path::PathBuf> {
        sqlite::opened_path(self.conn)
    }

    /// What was run on the database without an error, queries aside.
    pub closed spec fn ran(&self) -> Seq<Statement> {
        sqlite::statements(self.conn)
    }

    /// Whether the query with these values was answered with these rows or, where there
    /// are none, with an error.
    pub closed spec fn answered(
        &self,
        sql: Seq<char>,
        values: Seq<Datum>,
        answer: Option<Seq<Seq<Datum>>>,
    ) -> bool {
        sqlite::answered(self.conn, sql, values, answer)
    }

    /// Whether the open transactions and cursors are the same, and the database is.
    pub open spec fn same_handles(&self, other: &IndexedDb) -> bool {
        &&& self.transactions() == other.transactions()
        &&& self.cursors() == other.cursors()
        &&& self.next_id() == other.next_id()
        &&& self.path() == other.path()
    }

    /// Whether the tables are the same, and the database is.
    pub open spec fn same_tables(&self, other: &IndexedDb) -> bool {
        &&& self.layers() == other.layers()
        &&& self.path() == other.path()
        &&& self.ran() == other.ran()
    }

    /// Whether this is `other` with the present tables `t`.
    pub open spec fn changed_to(&self, other: &IndexedDb, t: Tables) -> bool {
        self.layers() == other.layers().drop_last().push(t)
    }

    /// Whether this is what a statement that failed on `other` left behind.
    pub open spec fn failed_from(&self, other: &IndexedDb) -> bool {
        other.sound() ==> sqlite::after_failure(other.layers(), self.layers())
    }

    /// Whether this is what is left of `other` where changes that belong together
    /// failed: all as it was, or without a transaction of SQLite that was open and that
    /// it ended, unless the error tells that SQLite could not undo them. Then its
    /// transaction or savepoint is still open, above the tables from before.
    pub open spec fn gave_up(&self, other: &IndexedDb, e: StorageError) -> bool {
        other.in_memory() ==> if e is RollbackFailed {
            self.layers().len() > 0 && self.layers().drop_last() == other.layers()
        } else {
            e is Sqlite && sqlite::after_failure(other.layers(), self.layers())
        }
    }

    fn with_connection(conn: rusqlite::Connection) -> (r: IndexedDb)
        ensures
            r.path() == sqlite::opened_path(conn),
            r.ran() == sqlite::statements(conn),
            r.layers() == sqlite::page_layers(conn),
            r.transactions() == Map::<i64, TransactionView>::empty(),
            r.cursors() == Map::<i64, Cursor>::empty(),
            r.next_id() == 1,
    {
        let db = IndexedDb {
            conn,
            transactions: HashMap::new(),
            cursors: HashMap::new(),
            next_id: 1,
        };
        assert(db.transactions() =~= Map::<i64, TransactionView>::empty());
        db
    }

    /// Opens the database in a file, which is made where there is none, as are its
    /// tables.
    pub fn open(path: std::path::PathBuf) -> (r: Result<IndexedDb, StorageError>)
        ensures
            match r {
                Ok(db) => {
                    &&& db.path() == Some(path)
                    &&& db.ran() == seq![model::statement(sqlite::PAGE_SCHEMA@, Seq::empty())]
                    &&& db.transactions() == Map::<i64, TransactionView>::empty()
                    &&& db.cursors() == Map::<i64, Cursor>::empty()
                    &&& db.next_id() == 1
                },
                Err(e) => e is Sqlite,
            },
    {
        match sqlite::open_file(path) {
            Ok(mut conn) => match sqlite::execute_batch(&mut conn, sqlite::PAGE_SCHEMA) {
                Ok(_) => {
                    assert(sqlite::statements(conn) =~= seq![
                        model::statement(sqlite::PAGE_SCHEMA@, Seq::empty()),
                    ]);
                    Ok(IndexedDb::with_connection(conn))
                },
                Err(e) => Err(StorageError::Sqlite(e)),
            },
            Err(e) => Err(StorageError::Sqlite(e)),
        }
    }

    /// Opens a new database in memory.
    pub fn open_memory() -> (r: Result<IndexedDb, StorageError>)
        ensures
            match r {
                Ok(db) => {
                    &&& db.in_memory()
                    &&& db.path() is None
                    &&& db.layers() == seq![tables::no_rows()]
                    &&& db.transactions() == Map::<i64, TransactionView>::empty()
                    &&& db.cursors() == Map::<i64, Cursor>::empty()
                    &&& db.next_id() == 1
                },
                Err(e) => e is Sqlite,
            },
    {
        match sqlite::open_in_memory() {
            Ok(mut conn) => match sqlite::execute_batch(&mut conn, sqlite::PAGE_SCHEMA) {
                Ok(_) => {
                    proof {
                        tables::lemma_no_rows_well_formed();
                    }
                    Ok(IndexedDb::with_connection(conn))
                },
                Err(e) => Err(StorageError::Sqlite(e)),
            },
            Err(e) => Err(StorageError::Sqlite(e)),
        }
    }

    /// Runs one statement that changes the tables.
    fn change(&mut self, sql: &str, params: &Vec<Param>) -> (r: Result<usize, StorageError>)
        requires
            sqlite::is_page_change(sql@),
            sqlite::well_given(sql@, sqlite::given(params@)),
        ensures
            old(self).sound() ==> final(self).sound(),
            final(self).same_handles(old(self)),
            match r {
                Ok(n) => {
                    &&& final(self).ran() == old(self).ran().push(
                        model::statement(sql@, sqlite::given(params@)),
                    )
                    &&& old(self).sound() ==> {
                        &&& final(self).changed_to(old(self), final(self).tables())
                        &&& sqlite::page_changed(
                            sql@,
                            sqlite::given(params@),
                            old(self).tables(),
                            final(self).tables(),
                            n as int,
                            sqlite::inserted_id(final(self).conn),
                        )
                    }
                },
                Err(e) => {
                    &&& e is Sqlite
                    &&& final(self).ran() == old(self).ran()
                    &&& final(self).failed_from(old(self))
                },
            },
    {
        match sqlite::execute(&mut self.conn, sql, params) {
            Ok(n) => {
                proof {
                    if old(self).sound() {
                        let before = old(self).layers();
                        let after = self.layers();
                        sqlite::law_statements_keep_tables(
                            sql@,
                            sqlite::given(params@),
                            before.last(),
                            after.last(),
                            n as int,
                            sqlite::inserted_id(self.conn),
                        );
                        assert(after =~= before.drop_last().push(after.last()));
                        assert(after.drop_last() == before.drop_last());
                        assert forall|i: int| 0 <= i < after.len() implies tables::well_formed(
                            #[trigger] after[i],
                        ) by {
                            if i < after.len() - 1 {
                                assert(after[i] == after.drop_last()[i]);
                                assert(before[i] == before.drop_last()[i]);
                            }
                        }
                    }
                }
                Ok(n)
            },
            Err(e) => Err(StorageError::Sqlite(e)),
        }
    }

    /// Runs one statement that leaves consistent tables consistent.
    fn change_alone(&mut self, sql: &str, params: &Vec<Param>) -> (r: Result<usize, StorageError>)
        requires
            sqlite::is_page_change(sql@),
            sqlite::well_given(sql@, sqlite::given(params@)),
            forall|t: Tables, t2: Tables, n: int, id: int| #[trigger]
                sqlite::page_changed(sql@, sqlite::given(params@), t, t2, n, id)
                    && model::consistent(t) && tables::well_formed(t2) ==> model::consistent(t2),
        ensures
            old(self).in_memory() ==> final(self).in_memory(),
            final(self).same_handles(old(self)),
            match r {
                Ok(n) => {
                    &&& final(self).ran() == old(self).ran().push(
                        model::statement(sql@, sqlite::given(params@)),
                    )
                    &&& old(self).in_memory() ==> {
                        &&& final(self).changed_to(old(self), final(self).tables())
                        &&& sqlite::page_changed(
                            sql@,
                            sqlite::given(params@),
                            old(self).tables(),
                            final(self).tables(),
                            n as int,
                            sqlite::inserted_id(final(self).conn),
                        )
                    }
                },
                Err(e) => {
                    &&& e is Sqlite
                    &&& final(self).ran() == old(self).ran()
                    &&& old(self).in_memory() ==> final(self).failed_from(old(self))
                },
            },
    {
        let r = self.change(sql, params);
        proof {
            let before = old(self).layers();
            let after = self.layers();
            if old(self).in_memory() && r is Ok {
                assert(after == before.drop_last().push(after.last()));
                if before.len() == 1 {
                    assert(after[0] == after.last());
                } else {
                    assert(after[0] == before.drop_last()[0]);
                }
            }
        }
        r
    }

    /// Makes the database of this name, where there is none, with version 1.
    pub fn ensure_database(&mut self, name: &str) -> (r: Result<(), StorageError>)
        ensures
            old(self).in_memory() ==> final(self).in_memory(),
            final(self).same_handles(old(self)),
            final(self).ran() == if r is Ok {
                old(self).ran().push(
                    model::statement(sqlite::ADD_DATABASE@, seq![Datum::Text(name@)]),
                )
            } else {
                old(self).ran()
            },
            match r {
                Ok(_) => old(self).in_memory() ==> final(self).changed_to(
                    old(self),
                    tables::with_database(old(self).tables(), name@),
                ),
                Err(e) => e is Sqlite && (old(self).in_memory() ==> final(self).failed_from(
                    old(self),
                )),
            },
    {
        let params = vec![Param::Text(name.to_string())];
        proof {
            let p = sqlite::given(params@);
            assert(p =~= seq![Datum::Text(name@)]);
            assert forall|t: Tables, t2: Tables, n: int, id: int| #[trigger]
                sqlite::page_changed(sqlite::ADD_DATABASE@, p, t, t2, n, id) && model::consistent(t)
                    && tables::well_formed(t2) implies model::consistent(t2) by {
                consistency::lemma_same_rows_consistent(t, t2);
            }
        }
        match self.change_alone(sqlite::ADD_DATABASE, &params) {
            Ok(_) => Ok(()),
            Err(e) => Err(e),
        }
    }

    /// Opens a transaction of SQLite.
    fn begin(&mut self) -> (r: Result<(), StorageError>)
        ensures
            final(self).same_handles(old(self)),
            match r {
                Ok(_) => {
                    &&& final(self).ran() == old(self).ran().push(
                        model::statement(sqlite::BEGIN@, Seq::empty()),
                    )
                    &&& old(self).sound() ==> old(self).layers().len() == 1
                        && final(self).layers() == old(self).layers().push(old(self).layers()[0])
                },
                Err(e) => e is Sqlite && final(self).ran() == old(self).ran() && (
                old(self).sound() ==> final(self).layers() == old(self).layers()),
            },
    {
        match sqlite::execute_batch(&mut self.conn, sqlite::BEGIN) {
            Ok(_) => Ok(()),
            Err(e) => Err(StorageError::Sqlite(e)),
        }
    }

    /// Ends the transaction of SQLite without its changes, if one is open. Tells
    /// whether none is open any more: SQLite may fail to end it.
    fn roll_back(&mut self) -> (r: bool)
        ensures
            final(self).same_handles(old(self)),
            old(self).sound() ==> final(self).layers() == if r {
                seq![old(self).layers()[0]]
            } else {
                old(self).layers()
            },
            old(self).sound() && !r ==> old(self).layers().len() >= 2,
    {
        if !sqlite::is_autocommit(&self.conn) {
            let _ = sqlite::execute_batch(&mut self.conn, sqlite::ROLLBACK);
        }
        proof {
            let before = old(self).layers();
            if before.len() == 1 {
                assert(before =~= seq![before[0]]);
            }
        }
        sqlite::is_autocommit(&self.conn)
    }

    /// Prepares for changes that belong together: opens a transaction of SQLite or, where
    /// one is open, puts a savepoint into it. Tells whether it is a savepoint.
    fn open_change(&mut self) -> (r: Result<bool, StorageError>)
        ensures
            final(self).same_handles(old(self)),
            match r {
                Ok(nested) => {
                    &&& final(self).ran() == old(self).ran().push(
                        model::statement(
                            if nested {
                                sqlite::SAVEPOINT@
                            } else {
                                sqlite::BEGIN@
                            },
                            Seq::empty(),
                        ),
                    )
                    &&& old(self).sound() ==> {
                        &&& nested == (old(self).layers().len() >= 2)
                        &&& final(self).layers() == old(self).layers().push(old(self).tables())
                        &&& final(self).sound()
                    }
                },
                Err(e) => {
                    &&& e is Sqlite
                    &&& final(self).ran() == old(self).ran()
                    &&& final(self).failed_from(old(self))
                },
            },
    {
        if sqlite::is_autocommit(&self.conn) {
            return match self.begin() {
                Ok(_) => {
                    proof {
                        let l = old(self).layers();
                        if old(self).sound() {
                            assert(self.layers() == l.push(l[0]));
                            assert(l.last() == l[0]);
                        }
                    }
                    Ok(false)
                },
                Err(e) => Err(e),
            };
        }
        match sqlite::execute_batch(&mut self.conn, sqlite::SAVEPOINT) {
            Ok(_) => Ok(true),
            Err(e) => Err(StorageError::Sqlite(e)),
        }
    }

    /// Undoes the changes that failed with this error, behind a savepoint or in a
    /// transaction. Returns the error, or the one that tells that they could not be
    /// undone.
    fn undo(&mut self, nested: bool, e: StorageError) -> (r: StorageError)
        ensures
            final(self).same_handles(old(self)),
            r == e || (e is Sqlite && r == StorageError::RollbackFailed(e->Sqlite_0)),
            old(self).sound() && e is Sqlite && (nested ==> old(self).layers().len() != 2) ==> {
                let before = old(self).layers();
                let after = final(self).layers();
                &&& final(self).sound()
                &&& if r is RollbackFailed {
                    &&& before.len() >= 2
                    &&& after.len() == before.len()
                    &&& after.drop_last() == before.drop_last()
                } else if nested {
                    after == seq![before[0]] || (before.len() >= 3 && after == before.drop_last())
                } else {
                    after == seq![before[0]]
                }
            },
    {
        let undone = if nested {
            let ghost before = self.layers();
            let mut released = false;
            if !sqlite::is_autocommit(&self.conn) {
                if sqlite::execute_batch(&mut self.conn, sqlite::ROLLBACK_TO).is_ok() {
                    let ghost back = self.layers();
                    released = sqlite::execute_batch(&mut self.conn, sqlite::RELEASE).is_ok();
                    proof {
                        if old(self).sound() && before.len() >= 3 && released {
                            assert(back.drop_last() =~= before.drop_last());
                            assert(self.layers() =~= before.drop_last());
                        }
                        if old(self).sound() && before.len() >= 3 && !released {
                            assert(back.drop_last() =~= before.drop_last());
                        }
                    }
                }
            }
            proof {
                if before.len() == 1 {
                    assert(before =~= seq![before[0]]);
                }
            }
            released || sqlite::is_autocommit(&self.conn)
        } else {
            self.roll_back()
        };
        if undone {
            e
        } else {
            match e {
                StorageError::Sqlite(reason) => StorageError::RollbackFailed(reason),
                other => other,
            }
        }
    }

    /// Ends changes that belong together: commits the transaction or takes the savepoint
    /// away. Where that fails the changes are undone.
    fn close_change(&mut self, nested: bool) -> (r: Result<(), StorageError>)
        ensures
            final(self).same_handles(old(self)),
            r is Ok ==> final(self).ran() == old(self).ran().push(
                model::statement(
                    if nested {
                        sqlite::RELEASE@
                    } else {
                        sqlite::COMMIT@
                    },
                    Seq::empty(),
                ),
            ),
            r matches Err(e) ==> e is Sqlite || e is RollbackFailed,
            old(self).sound() && (if nested {
                old(self).layers().len() >= 3
            } else {
                old(self).layers().len() == 2
            }) ==> {
                let before = old(self).layers();
                let after = final(self).layers();
                &&& final(self).sound()
                &&& match r {
                    Ok(_) => after == before.drop_last().drop_last().push(before.last()),
                    Err(e) => if e is RollbackFailed {
                        after.len() == before.len() && after.drop_last() == before.drop_last()
                    } else {
                        after == seq![before[0]] || (nested && after == before.drop_last())
                    },
                }
            },
    {
        let done = if nested {
            sqlite::execute_batch(&mut self.conn, sqlite::RELEASE)
        } else {
            sqlite::execute_batch(&mut self.conn, sqlite::COMMIT)
        };
        match done {
            Ok(_) => {
                proof {
                    let before = old(self).layers();
                    if !nested && before.len() == 2 {
                        assert(before.drop_last().drop_last().push(before.last()) =~= seq![
                            before.last(),
                        ]);
                    }
                }
                Ok(())
            },
            Err(e) => Err(self.undo(nested, StorageError::Sqlite(e))),
        }
    }

    /// Adds the entries of a row to the indexes of its store.
    fn add_entries(&mut self, store_id: i64, row_id: i64, value: &str) -> (r: Result<
        (),
        StorageError,
    >)
        ensures
            old(self).sound() ==> final(self).sound(),
            final(self).same_handles(old(self)),
            r is Ok ==> {
                &&& exists|indexes: Seq<(int, Seq<char>)>|
                    final(self).ran() == old(self).ran() + #[trigger] indexes.filter(
                        model::field_of(value@),
                    ).map_values(model::entry_statement(row_id as int, value@))
                &&& old(self).sound() ==> final(self).changed_to(
                    old(self),
                    Tables {
                        entries: old(self).tables().entries.add(
                            model::row_entries(
                                old(self).tables(),
                                store_id as int,
                                row_id as int,
                                value@,
                            ),
                        ),
                        ..old(self).tables()
                    },
                )
            },
            r matches Err(e) ==> {
                &&& e is Sqlite || (error::is_misread(e) && !old(self).sound())
                &&& old(self).sound() ==> model::broken_off(old(self).layers(), final(self).layers())
            },
    {
        let ghost known = old(self).sound();
        let ghost t0 = old(self).tables();
        let ghost lower = old(self).layers().drop_last();
        let ghost x = tables::indexes_of(t0, store_id as int);
        let store = vec![Param::Integer(store_id)];
        let found = match sqlite::query(&self.conn, sqlite::STORE_INDEXES, &store) {
            Ok(found) => found,
            Err(e) => return Err(StorageError::Sqlite(e)),
        };
        let ghost f = |x: IndexRow| seq![Datum::Integer(x.id), Datum::Text(x.key_path)];
        let ghost mut y: Seq<IndexRow> = Seq::empty();
        proof {
            if known {
                y = rows::lemma_arranged(sqlite::table(found@), x, f);
                assert(y.map_values(f).len() == found@.len());
                assert forall|j: int| 0 <= j < found@.len() implies rows::numbered_of(
                    #[trigger] sqlite::table(found@)[j],
                ) == Some((y[j].id, y[j].key_path)) by {
                    assert(y.map_values(f)[j] == f(y[j]));
                }
            }
        }
        let list = match rows::numbered_texts(&found, "key_path") {
            Ok(list) => list,
            Err(e) => return Err(e),
        };
        let ghost all = model::numbered(list@);
        proof {
            if known {
                assert forall|j: int| 0 <= j < y.len() implies (#[trigger] y[j]).id == list@[j].0
                    && y[j].key_path == list@[j].1@ by {
                    assert(rows::numbered_of(sqlite::table(found@)[j]) == Some(
                        (y[j].id, y[j].key_path),
                    ));
                }
            }
        }
        let ghost p = model::indexes_value(value@);
        let ghost h = model::entry_in(row_id as int, value@);
        let ghost ps = model::field_of(value@);
        let ghost hs = model::entry_statement(row_id as int, value@);
        proof {
            reveal(Seq::filter);
            broadcast use vstd::seq_lib::group_to_multiset_ensures;

            assert(y.take(0).filter(p).map_values(h).to_multiset() =~= Multiset::empty());
            assert(t0.entries.add(Multiset::empty()) =~= t0.entries);
            assert(all.take(0).filter(ps).map_values(hs) =~= Seq::<Statement>::empty());
            assert(old(self).ran() + Seq::<Statement>::empty() =~= old(self).ran());
            if known {
                assert(old(self).layers() =~= lower.push(t0));
            }
        }
        let mut i: usize = 0;
        while i < list.len()
            invariant
                i <= list@.len(),
                all == model::numbered(list@),
                p == model::indexes_value(value@),
                h == model::entry_in(row_id as int, value@),
                ps == model::field_of(value@),
                hs == model::entry_statement(row_id as int, value@),
                known == old(self).sound(),
                lower == old(self).layers().drop_last(),
                t0 == old(self).tables(),
                self.same_handles(old(self)),
                self.ran() == old(self).ran() + all.take(i as int).filter(ps).map_values(hs),
                known ==> {
                    &&& y.len() == list@.len()
                    &&& forall|j: int|
                        0 <= j < y.len() ==> (#[trigger] y[j]).id == list@[j].0 && y[j].key_path
                            == list@[j].1@
                    &&& self.sound()
                    &&& self.layers() == lower.push(
                        Tables {
                            entries: t0.entries.add(
                                y.take(i as int).filter(p).map_values(h).to_multiset(),
                            ),
                            ..t0
                        },
                    )
                },
            decreases list@.len() - i,
        {
            let ghost now = *self;
            proof {
                model::lemma_next_picked(all, i as int, ps, hs);
                assert(all[i as int] == (list@[i as int].0 as int, list@[i as int].1@));
                if known {
                    assert(now.layers().drop_last() =~= lower);
                    model::lemma_next(y, i as int, p, h);
                }
            }
            match json::index_key(value, list[i].1.as_str()) {
                Some(key) => {
                    let ghost named = key@;
                    let entry = vec![
                        Param::Integer(list[i].0),
                        Param::Text(key),
                        Param::Integer(row_id),
                    ];
                    assert(sqlite::given(entry@) =~= seq![
                        Datum::Integer(list@[i as int].0 as int),
                        Datum::Text(named),
                        Datum::Integer(row_id as int),
                    ]);
                    match self.change(sqlite::ADD_ENTRY, &entry) {
                        Ok(_) => {
                            proof {
                                assert(self.ran() =~= old(self).ran() + all.take(
                                    i + 1,
                                ).filter(ps).map_values(hs));
                                if known {
                                    let kept = y.take(i as int).filter(p).map_values(
                                        h,
                                    ).to_multiset();
                                    assert(p(y[i as int]));
                                    assert(t0.entries.add(kept).insert(h(y[i as int]))
                                        =~= t0.entries.add(kept.insert(h(y[i as int]))));
                                }
                            }
                        },
                        Err(e) => {
                            proof {
                                if known {
                                    model::lemma_broken_off(
                                        old(self).layers(),
                                        now.layers(),
                                        self.layers(),
                                    );
                                }
                            }
                            return Err(e);
                        },
                    }
                },
                None => {},
            }
            i += 1;
        }
        proof {
            assert(all.take(i as int) =~= all);
            if known {
                assert(y.take(i as int) =~= y);
                rows::lemma_filtered(y, p);
                rows::lemma_filtered(x, p);
                rows::lemma_mapped(y.filter(p), x.filter(p), h);
            }
        }
        Ok(())
    }

    /// Puts a row into a store under a key, statement by statement.
    fn put_keyed_row(&mut self, store_id: i64, key: &str, value: &str) -> (r: Result<
        (),
        StorageError,
    >)
        ensures
            old(self).sound() ==> final(self).sound(),
            final(self).same_handles(old(self)),
            r is Ok ==> {
                &&& exists|a: PutAnswers|
                    final(self).ran() == old(self).ran() + #[trigger] model::put_statements(
                        store_id as int,
                        Some(key@),
                        value@,
                        a,
                    )
                &&& old(self).sound() ==> {
                    &&& final(self).changed_to(old(self), final(self).tables())
                    &&& model::row_put(
                        old(self).tables(),
                        final(self).tables(),
                        store_id as int,
                        Some(key@),
                        value@,
                    )
                }
            },
            r matches Err(e) ==> {
                &&& e is Sqlite || (error::is_misread(e) && !old(self).sound())
                &&& old(self).sound() ==> model::broken_off(old(self).layers(), final(self).layers())
            },
    {
        let ghost known = old(self).sound();
        let ghost lower = old(self).layers().drop_last();
        let free = vec![Param::Integer(store_id), Param::Text(key.to_string())];
        assert(sqlite::given(free@) =~= seq![Datum::Integer(store_id as int), Datum::Text(key@)]);
        match self.change(sqlite::DELETE_KEY, &free) {
            Ok(_) => {},
            Err(e) => return Err(e),
        }
        let ghost base = *self;
        assert(known ==> base.layers().drop_last() =~= lower);
        let params = vec![
            Param::Integer(store_id),
            Param::Text(key.to_string()),
            Param::Text(value.to_string()),
        ];
        assert(sqlite::given(params@) =~= seq![
            Datum::Integer(store_id as int),
            Datum::Text(key@),
            Datum::Text(value@),
        ]);
        match self.change(sqlite::ADD_KEYED_ROW, &params) {
            Ok(_) => {},
            Err(e) => {
                proof {
                    if known {
                        model::lemma_broken_off(old(self).layers(), base.layers(), self.layers());
                    }
                }
                return Err(e);
            },
        }
        let ghost grown = *self;
        assert(known ==> grown.layers().drop_last() =~= lower);
        let id = sqlite::last_insert_rowid(&self.conn);
        match self.add_entries(store_id, id, value) {
            Ok(_) => {
                proof {
                    let indexes = choose|indexes: Seq<(int, Seq<char>)>|
                        self.ran() == grown.ran() + #[trigger] indexes.filter(
                            model::field_of(value@),
                        ).map_values(model::entry_statement(id as int, value@));
                    let a = PutAnswers { tried: Seq::empty(), id: id as int, indexes };
                    assert(self.ran() =~= old(self).ran() + model::put_statements(
                        store_id as int,
                        Some(key@),
                        value@,
                        a,
                    ));
                    if known {
                        model::lemma_put_with_key(
                            old(self).tables(),
                            base.tables(),
                            grown.tables(),
                            self.tables(),
                            store_id as int,
                            key@,
                            value@,
                            id as int,
                        );
                    }
                }
                Ok(())
            },
            Err(e) => {
                proof {
                    if known {
                        model::lemma_broken_off(old(self).layers(), grown.layers(), self.layers());
                    }
                }
                Err(e)
            },
        }
    }

    /// Puts a row into a store under its id, statement by statement. A row whose id is a
    /// key that is in use is taken back, and another one is tried. Returns the key.
    fn put_numbered_row(&mut self, store_id: i64, value: &str) -> (r: Result<String, StorageError>)
        ensures
            old(self).sound() ==> final(self).sound(),
            final(self).same_handles(old(self)),
            r matches Ok(k) ==> {
                &&& exists|a: PutAnswers|
                    final(self).ran() == old(self).ran() + #[trigger] model::put_statements(
                        store_id as int,
                        None,
                        value@,
                        a,
                    ) && k@ == text::decimal(a.id)
                &&& old(self).sound() ==> {
                    &&& final(self).changed_to(old(self), final(self).tables())
                    &&& model::row_put(
                        old(self).tables(),
                        final(self).tables(),
                        store_id as int,
                        None,
                        value@,
                    )
                    &&& k@ == text::decimal(final(self).tables().last_row)
                }
            },
            r matches Err(e) ==> {
                &&& e is Sqlite || ((error::is_misread(e) || e is RepeatedId) && !old(self).sound())
                &&& old(self).sound() ==> model::broken_off(old(self).layers(), final(self).layers())
            },
    {
        let ghost known = old(self).sound();
        let ghost t = old(self).tables();
        let ghost lower = old(self).layers().drop_last();
        let ghost start = old(self).ran();
        let ghost mut tried: Seq<int> = Seq::empty();
        let params = vec![Param::Integer(store_id), Param::Text(value.to_string())];
        let ghost row = seq![Datum::Integer(store_id as int), Datum::Text(value@)];
        assert(sqlite::given(params@) =~= row);
        let mut last: i64 = 0;
        proof {
            assert(start + model::tried_statements(store_id as int, value@, tried) =~= start);
            if known {
                assert(old(self).layers() =~= lower.push(t));
            }
        }
        loop
            invariant
                known == old(self).sound(),
                t == old(self).tables(),
                lower == old(self).layers().drop_last(),
                start == old(self).ran(),
                row == seq![Datum::Integer(store_id as int), Datum::Text(value@)],
                sqlite::given(params@) == row,
                self.same_handles(old(self)),
                self.ran() == start + model::tried_statements(store_id as int, value@, tried),
                known ==> {
                    &&& self.sound()
                    &&& self.layers() == lower.push(
                        Tables { last_row: self.tables().last_row, ..t },
                    )
                    &&& t.last_row <= self.tables().last_row
                    &&& last <= self.tables().last_row
                },
            decreases i64::MAX - last,
        {
            let ghost base = *self;
            assert(known ==> base.layers().drop_last() =~= lower);
            match self.change(sqlite::ADD_ROW, &params) {
                Ok(_) => {},
                Err(e) => {
                    proof {
                        if known {
                            model::lemma_broken_off(
                                old(self).layers(),
                                base.layers(),
                                self.layers(),
                            );
                        }
                    }
                    return Err(e);
                },
            }
            let ghost added = *self;
            assert(known ==> added.layers().drop_last() =~= lower);
            let id = sqlite::last_insert_rowid(&self.conn);
            if id <= last {
                return Err(StorageError::RepeatedId(id));
            }
            let k = scan::decimal_of(id);
            let asked = vec![Param::Integer(store_id), Param::Text(k.clone())];
            assert(sqlite::given(asked@) =~= seq![
                Datum::Integer(store_id as int),
                Datum::Text(k@),
            ]);
            let found = match sqlite::query(&self.conn, sqlite::VALUE_OF_KEY, &asked) {
                Ok(found) => found,
                Err(e) => return Err(StorageError::Sqlite(e)),
            };
            assert(sqlite::table(found@).len() == found@.len());
            if found.len() == 0 {
                let named = vec![Param::Text(k.clone()), Param::Integer(id)];
                assert(sqlite::given(named@) =~= seq![
                    Datum::Text(k@),
                    Datum::Integer(id as int),
                ]);
                match self.change(sqlite::SET_KEY, &named) {
                    Ok(_) => {},
                    Err(e) => {
                        proof {
                            if known {
                                model::lemma_broken_off(
                                    old(self).layers(),
                                    added.layers(),
                                    self.layers(),
                                );
                            }
                        }
                        return Err(e);
                    },
                }
                let ghost grown = *self;
                assert(known ==> grown.layers().drop_last() =~= lower);
                return match self.add_entries(store_id, id, value) {
                    Ok(_) => {
                        proof {
                            let indexes = choose|indexes: Seq<(int, Seq<char>)>|
                                self.ran() == grown.ran() + #[trigger] indexes.filter(
                                    model::field_of(value@),
                                ).map_values(model::entry_statement(id as int, value@));
                            let a = PutAnswers { tried, id: id as int, indexes };
                            assert(self.ran() =~= start + model::put_statements(
                                store_id as int,
                                None,
                                value@,
                                a,
                            ));
                            if known {
                                model::lemma_put_without_key(
                                    t,
                                    base.tables(),
                                    added.tables(),
                                    grown.tables(),
                                    self.tables(),
                                    store_id as int,
                                    value@,
                                    id as int,
                                );
                            }
                        }
                        Ok(k)
                    },
                    Err(e) => {
                        proof {
                            if known {
                                model::lemma_broken_off(
                                    old(self).layers(),
                                    grown.layers(),
                                    self.layers(),
                                );
                            }
                        }
                        Err(e)
                    },
                };
            }
            let gone = vec![Param::Integer(id)];
            assert(sqlite::given(gone@) =~= seq![Datum::Integer(id as int)]);
            match self.change(sqlite::DELETE_ROW, &gone) {
                Ok(_) => {},
                Err(e) => {
                    proof {
                        if known {
                            model::lemma_broken_off(
                                old(self).layers(),
                                added.layers(),
                                self.layers(),
                            );
                        }
                    }
                    return Err(e);
                },
            }
            proof {
                let more = tried.push(id as int);
                assert(more.drop_last() =~= tried);
                assert(self.ran() =~= start + model::tried_statements(
                    store_id as int,
                    value@,
                    more,
                ));
                tried = more;
                if known {
                    model::lemma_tried(
                        t,
                        base.tables(),
                        added.tables(),
                        store_id as int,
                        value@,
                        id as int,
                    );
                }
            }
            last = id;
        }
    }

    /// Puts a row into a store, statement by statement. Returns the key.
    fn put_row(&mut self, store_id: i64, key: Option<&str>, value: &str) -> (r: Result<
        String,
        StorageError,
    >)
        ensures
            old(self).sound() ==> final(self).sound(),
            final(self).same_handles(old(self)),
            r matches Ok(k) ==> {
                &&& exists|a: PutAnswers|
                    final(self).ran() == old(self).ran() + #[trigger] model::put_statements(
                        store_id as int,
                        text::optional_str(key),
                        value@,
                        a,
                    ) && k@ == model::put_key(text::optional_str(key), a.id)
                &&& old(self).sound() ==> {
                    &&& final(self).changed_to(old(self), final(self).tables())
                    &&& model::row_put(
                        old(self).tables(),
                        final(self).tables(),
                        store_id as int,
                        text::optional_str(key),
                        value@,
                    )
                    &&& k@ == model::put_key(
                        text::optional_str(key),
                        final(self).tables().last_row,
                    )
                }
            },
            r matches Err(e) ==> {
                &&& e is Sqlite || ((error::is_misread(e) || e is RepeatedId) && !old(self).sound())
                &&& old(self).sound() ==> model::broken_off(old(self).layers(), final(self).layers())
            },
    {
        match key {
            Some(k) => match self.put_keyed_row(store_id, k, value) {
                Ok(_) => Ok(k.to_string()),
                Err(e) => Err(e),
            },
            None => self.put_numbered_row(store_id, value),
        }
    }

    /// Puts a value into a store under `key`, in place of what is there, or, without a
    /// key, under the id of its row, which no other row has as its key. Returns the key.
    pub fn put(&mut self, store_id: i64, key: Option<&str>, value: &str) -> (r: Result<
        String,
        StorageError,
    >)
        ensures
            old(self).in_memory() ==> final(self).in_memory(),
            final(self).same_handles(old(self)),
            match r {
                Ok(k) => {
                    &&& exists|a: PutAnswers, nested: bool|
                        final(self).ran() == old(self).ran() + #[trigger] model::as_one(
                            model::put_statements(
                                store_id as int,
                                text::optional_str(key),
                                value@,
                                a,
                            ),
                            nested,
                        ) && k@ == model::put_key(text::optional_str(key), a.id)
                    &&& old(self).in_memory() ==> {
                        &&& final(self).changed_to(old(self), final(self).tables())
                        &&& model::row_put(
                            old(self).tables(),
                            final(self).tables(),
                            store_id as int,
                            text::optional_str(key),
                            value@,
                        )
                        &&& k@ == model::put_key(
                            text::optional_str(key),
                            final(self).tables().last_row,
                        )
                    }
                },
                Err(e) => {
                    &&& e is Sqlite || e is RollbackFailed || ((error::is_misread(e)
                        || e is RepeatedId) && !old(self).in_memory())
                    &&& final(self).gave_up(old(self), e)
                },
            },
    {
        let ghost l = old(self).layers();
        let nested = match self.open_change() {
            Ok(nested) => nested,
            Err(e) => return Err(e),
        };
        let ghost begun = *self;
        let k = match self.put_row(store_id, key, value) {
            Ok(k) => k,
            Err(e) => {
                let ghost broken = *self;
                let r = self.undo(nested, e);
                proof {
                    if old(self).in_memory() {
                        assert(begun.layers().drop_last() =~= l);
                        lemma_undone(l, begun.layers(), broken.layers());
                    }
                }
                return Err(r);
            },
        };
        let ghost done = *self;
        let r = self.close_change(nested);
        proof {
            if old(self).in_memory() {
                lemma_closed(l, begun.layers(), done.layers());
            }
            if r is Ok {
                let a = choose|a: PutAnswers|
                    done.ran() == begun.ran() + #[trigger] model::put_statements(
                        store_id as int,
                        text::optional_str(key),
                        value@,
                        a,
                    ) && k@ == model::put_key(text::optional_str(key), a.id);
                let log = model::put_statements(
                    store_id as int,
                    text::optional_str(key),
                    value@,
                    a,
                );
                assert(self.ran() =~= old(self).ran() + model::as_one(log, nested));
                if old(self).in_memory() && l.len() == 1 {
                    consistency::lemma_put_consistent(
                        old(self).tables(),
                        done.tables(),
                        store_id as int,
                        text::optional_str(key),
                        value@,
                    );
                }
            }
        }
        match r {
            Ok(_) => Ok(k),
            Err(e) => Err(e),
        }
    }

    /// The value under a key.
    pub fn get(&self, store_id: i64, key: &str) -> (r: Result<Option<String>, StorageError>)
        ensures
            exists|a: Option<Seq<Seq<Datum>>>| #[trigger]
                self.answered(
                    sqlite::VALUE_OF_KEY@,
                    sqlite::number_and_text(store_id as int, key@),
                    a,
                ) && rows::text_answer(a, "value"@, r),
            match r {
                Ok(Some(v)) => self.in_memory() ==> model::holds(
                    self.tables(),
                    store_id as int,
                    key@,
                    v@,
                ),
                Ok(None) => self.in_memory() ==> tables::rows_with_key(
                    self.tables(),
                    store_id as int,
                    key@,
                ).len() == 0,
                Err(e) => e is Sqlite || (error::is_misread(e) && !self.in_memory()),
            },
    {
        let params = vec![Param::Integer(store_id), Param::Text(key.to_string())];
        let ghost values = sqlite::number_and_text(store_id as int, key@);
        assert(sqlite::given(params@) =~= values);
        match sqlite::query(&self.conn, sqlite::VALUE_OF_KEY, &params) {
            Ok(found) => {
                assert(self.answered(sqlite::VALUE_OF_KEY@, values, Some(sqlite::table(found@))));
                rows::first_text(&found, "value")
            },
            Err(e) => {
                assert(self.answered(sqlite::VALUE_OF_KEY@, values, None));
                Err(StorageError::Sqlite(e))
            },
        }
    }

    /// Removes what is under a key. Tells whether there was anything.
    pub fn delete(&mut self, store_id: i64, key: &str) -> (r: Result<bool, StorageError>)
        ensures
            old(self).in_memory() ==> final(self).in_memory(),
            final(self).same_handles(old(self)),
            final(self).ran() == if r is Ok {
                old(self).ran() + model::change_statements(
                    Change::Delete { store_id: store_id as int, key: key@ },
                    model::no_answers(),
                )
            } else {
                old(self).ran()
            },
            match r {
                Ok(b) => old(self).in_memory() ==> {
                    &&& final(self).changed_to(
                        old(self),
                        tables::without_key(old(self).tables(), store_id as int, key@),
                    )
                    &&& b == (tables::rows_with_key(
                        old(self).tables(),
                        store_id as int,
                        key@,
                    ).len() > 0)
                },
                Err(e) => e is Sqlite && (old(self).in_memory() ==> final(self).failed_from(
                    old(self),
                )),
            },
    {
        let params = vec![Param::Integer(store_id), Param::Text(key.to_string())];
        proof {
            let p = sqlite::given(params@);
            assert(p =~= seq![Datum::Integer(store_id as int), Datum::Text(key@)]);
            let gone = |r: DataRow| r.store_id == store_id as int && r.key == Some(key@);
            assert forall|t: Tables, t2: Tables, n: int, id: int| #[trigger]
                sqlite::page_changed(sqlite::DELETE_KEY@, p, t, t2, n, id) && model::consistent(t)
                    && tables::well_formed(t2) implies model::consistent(t2) by {
                assert(t2 == tables::without_rows(t, gone));
                consistency::lemma_removal_consistent(t, gone);
            }
        }
        let r = self.change_alone(sqlite::DELETE_KEY, &params);
        assert(r is Ok ==> self.ran() =~= old(self).ran() + model::change_statements(
            Change::Delete { store_id: store_id as int, key: key@ },
            model::no_answers(),
        ));
        match r {
            Ok(n) => Ok(n > 0),
            Err(e) => Err(e),
        }
    }

    /// Removes all rows of a store.
    pub fn clear_store(&mut self, store_id: i64) -> (r: Result<(), StorageError>)
        ensures
            old(self).in_memory() ==> final(self).in_memory(),
            final(self).same_handles(old(self)),
            final(self).ran() == if r is Ok {
                old(self).ran() + model::change_statements(
                    Change::Clear { store_id: store_id as int },
                    model::no_answers(),
                )
            } else {
                old(self).ran()
            },
            match r {
                Ok(_) => old(self).in_memory() ==> final(self).changed_to(
                    old(self),
                    tables::without_store_rows(old(self).tables(), store_id as int),
                ),
                Err(e) => e is Sqlite && (old(self).in_memory() ==> final(self).failed_from(
                    old(self),
                )),
            },
    {
        let params = vec![Param::Integer(store_id)];
        proof {
            let p = sqlite::given(params@);
            assert(p =~= seq![Datum::Integer(store_id as int)]);
            let gone = |r: DataRow| r.store_id == store_id as int;
            assert forall|t: Tables, t2: Tables, n: int, id: int| #[trigger]
                sqlite::page_changed(sqlite::DELETE_ROWS@, p, t, t2, n, id) && model::consistent(t)
                    && tables::well_formed(t2) implies model::consistent(t2) by {
                assert(t2 == tables::without_rows(t, gone));
                consistency::lemma_removal_consistent(t, gone);
            }
        }
        let r = self.change_alone(sqlite::DELETE_ROWS, &params);
        assert(r is Ok ==> self.ran() =~= old(self).ran() + model::change_statements(
            Change::Clear { store_id: store_id as int },
            model::no_answers(),
        ));
        match r {
            Ok(_) => Ok(()),
            Err(e) => Err(e),
        }
    }

    /// Carries out a staged operation.
    fn apply(&mut self, op: &StagedOp) -> (r: Result<(), StorageError>)
        ensures
            old(self).sound() ==> final(self).sound(),
            final(self).same_handles(old(self)),
            r is Ok ==> {
                &&& exists|a: PutAnswers| #[trigger]
                    model::ran_next(op_view(*op), old(self).ran(), final(self).ran(), a)
                &&& old(self).sound() ==> {
                    &&& final(self).changed_to(old(self), final(self).tables())
                    &&& model::applied(op_view(*op), old(self).tables(), final(self).tables())
                }
            },
            r matches Err(e) ==> {
                &&& e is Sqlite || ((error::is_misread(e) || e is RepeatedId) && !old(self).sound())
                &&& old(self).sound() ==> model::broken_off(old(self).layers(), final(self).layers())
            },
    {
        let ghost c = op_view(*op);
        match op {
            StagedOp::Put { store_id, key, value } => {
                let given: Option<&str> = match key {
                    Some(k) => Some(k.as_str()),
                    None => None,
                };
                match self.put_row(*store_id, given, value.as_str()) {
                    Ok(k) => {
                        proof {
                            assert(text::optional_str(given) == text::optional(*key));
                            let a = choose|a: PutAnswers|
                                self.ran() == old(self).ran() + #[trigger] model::put_statements(
                                    *store_id as int,
                                    text::optional_str(given),
                                    value@,
                                    a,
                                ) && k@ == model::put_key(text::optional_str(given), a.id);
                            assert(model::ran_next(c, old(self).ran(), self.ran(), a));
                        }
                        Ok(())
                    },
                    Err(e) => Err(e),
                }
            },
            StagedOp::Delete { store_id, key } => {
                let params = vec![Param::Integer(*store_id), Param::Text(key.clone())];
                assert(sqlite::given(params@) =~= seq![
                    Datum::Integer(*store_id as int),
                    Datum::Text(key@),
                ]);
                match self.change(sqlite::DELETE_KEY, &params) {
                    Ok(_) => {
                        assert(self.ran() =~= old(self).ran() + model::change_statements(
                            c,
                            model::no_answers(),
                        ));
                        assert(model::ran_next(
                            c,
                            old(self).ran(),
                            self.ran(),
                            model::no_answers(),
                        ));
                        Ok(())
                    },
                    Err(e) => Err(e),
                }
            },
            StagedOp::Clear { store_id } => {
                let params = vec![Param::Integer(*store_id)];
                assert(sqlite::given(params@) =~= seq![Datum::Integer(*store_id as int)]);
                match self.change(sqlite::DELETE_ROWS, &params) {
                    Ok(_) => {
                        assert(self.ran() =~= old(self).ran() + model::change_statements(
                            c,
                            model::no_answers(),
                        ));
                        assert(model::ran_next(
                            c,
                            old(self).ran(),
                            self.ran(),
                            model::no_answers(),
                        ));
                        Ok(())
                    },
                    Err(e) => Err(e),
                }
            },
        }
    }

    /// Commits the staged changes of a transaction, in their order: all of them or,
    /// with an error, none. Either way the transaction ends.
    pub fn commit_transaction(&mut self, tx_id: i64) -> (r: Result<(), StorageError>)
        ensures
            old(self).in_memory() ==> final(self).in_memory(),
            final(self).transactions() == old(self).transactions().remove(tx_id),
            final(self).cursors() == old(self).cursors(),
            final(self).next_id() == old(self).next_id(),
            final(self).path() == old(self).path(),
            !old(self).transactions().contains_key(tx_id) ==> r is Err && r->Err_0
                is UnknownTransaction && final(self).same_tables(old(self)),
            old(self).transactions().contains_key(tx_id) ==> match r {
                Ok(_) => {
                    &&& exists|log: Seq<Statement>|
                        final(self).ran() == old(self).ran() + #[trigger] model::as_transaction(log)
                            && model::all_ran(old(self).transactions()[tx_id].changes, log)
                    &&& old(self).in_memory() ==> {
                        &&& old(self).layers().len() == 1
                        &&& final(self).layers().len() == 1
                        &&& model::all_applied(
                            old(self).transactions()[tx_id].changes,
                            old(self).tables(),
                            final(self).tables(),
                        )
                    }
                },
                Err(e) => {
                    &&& e is Sqlite || e is RollbackFailed || ((error::is_misread(e)
                        || e is RepeatedId) && !old(self).in_memory())
                    &&& final(self).gave_up(old(self), e)
                    &&& old(self).in_memory() && !(e is RollbackFailed) ==> final(self).layers()
                        == old(self).layers()
                },
            },
    {
        let ctx = match self.transactions.remove(&tx_id) {
            Some(ctx) => ctx,
            None => {
                assert(self.transactions() =~= old(self).transactions().remove(tx_id));
                return Err(StorageError::UnknownTransaction);
            },
        };
        let ghost changes = context_view(ctx).changes;
        assert(self.transactions() =~= old(self).transactions().remove(tx_id));
        assert(changes == old(self).transactions()[tx_id].changes);
        let ghost before = *self;
        match self.begin() {
            Ok(_) => {},
            Err(e) => return Err(e),
        }
        let ghost begun = *self;
        let ghost known = before.in_memory();
        let ghost mut log: Seq<Statement> = Seq::empty();
        proof {
            if known {
                assert(before.layers() =~= seq![before.layers()[0]]);
                assert(begun.layers()[0] == before.layers()[0]);
                assert(begun.layers()[1] == before.layers()[0]);
                assert(begun.sound());
            }
            assert(begun.ran() + log =~= begun.ran());
        }
        let mut i: usize = 0;
        while i < ctx.staged_ops.len()
            invariant
                i <= ctx.staged_ops@.len(),
                changes == context_view(ctx).changes,
                self.same_handles(&before),
                old(self).transactions().contains_key(tx_id),
                before.transactions() == old(self).transactions().remove(tx_id),
                before.cursors() == old(self).cursors(),
                before.next_id() == old(self).next_id(),
                before.layers() == old(self).layers(),
                before.path() == old(self).path(),
                known == before.in_memory(),
                model::all_ran(changes.take(i as int), log),
                self.ran() == begun.ran() + log,
                known ==> {
                    &&& before.layers() == seq![before.layers()[0]]
                    &&& self.sound()
                    &&& self.layers().len() == 2
                    &&& self.layers()[0] == before.layers()[0]
                    &&& model::all_applied(changes.take(i as int), before.tables(), self.tables())
                },
            decreases ctx.staged_ops@.len() - i,
        {
            let ghost now = *self;
            match self.apply(&ctx.staged_ops[i]) {
                Ok(_) => {
                    proof {
                        let next = changes.take(i + 1);
                        let c = op_view(ctx.staged_ops@[i as int]);
                        assert(next.drop_last() =~= changes.take(i as int));
                        assert(next.last() == c);
                        let a = choose|a: PutAnswers| #[trigger]
                            model::ran_next(c, now.ran(), self.ran(), a);
                        let more = log + model::change_statements(c, a);
                        assert(model::ran_next(c, log, more, a));
                        assert(model::all_ran(next.drop_last(), log));
                        assert(model::all_ran(next, more));
                        assert(self.ran() =~= begun.ran() + more);
                        log = more;
                        if known {
                            assert(model::all_applied(
                                next.drop_last(),
                                before.tables(),
                                now.tables(),
                            ));
                            assert(model::applied(next.last(), now.tables(), self.tables()));
                            assert(model::all_applied(next, before.tables(), self.tables()));
                        }
                    }
                },
                Err(e) => {
                    let ghost broken = *self;
                    let r = self.undo(false, e);
                    proof {
                        if known {
                            assert(now.layers().drop_last() =~= before.layers());
                            lemma_undone(before.layers(), now.layers(), broken.layers());
                        }
                    }
                    return Err(r);
                },
            }
            i += 1;
        }
        assert(changes.take(i as int) =~= changes);
        let ghost done = *self;
        let r = self.close_change(false);
        proof {
            if known {
                assert(done.layers().drop_last() =~= before.layers());
            }
        }
        match r {
            Ok(_) => {
                proof {
                    assert(self.ran() =~= before.ran() + model::as_transaction(log));
                    if known {
                        assert(self.layers() =~= seq![done.tables()]);
                        laws::law_transactions_keep_tables(
                            changes,
                            before.tables(),
                            done.tables(),
                        );
                    }
                }
                Ok(())
            },
            Err(e) => Err(e),
        }
    }

    /// Makes the object store of this name, where there is none, and returns its id.
    pub fn create_object_store(
        &mut self,
        db_name: &str,
        store_name: &str,
        key_path: Option<&str>,
        auto_increment: bool,
    ) -> (r: Result<i64, StorageError>)
        ensures
            old(self).in_memory() ==> final(self).in_memory(),
            final(self).same_handles(old(self)),
            r is Ok ==> final(self).ran() != old(self).ran(),
            final(self).ran() != old(self).ran() ==> final(self).ran() == old(self).ran().push(
                model::store_statement(
                    db_name@,
                    store_name@,
                    text::optional_str(key_path),
                    auto_increment,
                ),
            ) && exists|a: Option<Seq<Seq<Datum>>>| #[trigger]
                final(self).answered(
                    sqlite::STORE_ID@,
                    sqlite::two_texts(db_name@, store_name@),
                    a,
                ) && rows::integer_answer(a, "id"@, r),
            match r {
                Ok(id) => old(self).in_memory() ==> {
                    &&& final(self).changed_to(old(self), final(self).tables())
                    &&& model::store_added(
                        old(self).tables(),
                        final(self).tables(),
                        db_name@,
                        store_name@,
                        text::optional_str(key_path),
                        auto_increment,
                    )
                    &&& model::is_store(final(self).tables(), db_name@, store_name@, id as int)
                },
                Err(e) => {
                    &&& e is Sqlite || ((e is NoRow || error::is_misread(e))
                        && !old(self).in_memory())
                    &&& old(self).in_memory() ==> {
                        ||| final(self).failed_from(old(self))
                        ||| {
                            &&& final(self).changed_to(old(self), final(self).tables())
                            &&& model::store_added(
                                old(self).tables(),
                                final(self).tables(),
                                db_name@,
                                store_name@,
                                text::optional_str(key_path),
                                auto_increment,
                            )
                        }
                    }
                },
            },
    {
        let path = match key_path {
            Some(p) => Param::Text(p.to_string()),
            None => Param::Null,
        };
        let flag: i64 = if auto_increment {
            1
        } else {
            0
        };
        let params = vec![
            Param::Text(db_name.to_string()),
            Param::Text(store_name.to_string()),
            path,
            Param::Integer(flag),
        ];
        proof {
            let p = sqlite::given(params@);
            assert(p =~= model::store_statement(
                db_name@,
                store_name@,
                text::optional_str(key_path),
                auto_increment,
            ).values);
            assert forall|t: Tables, t2: Tables, n: int, id: int| #[trigger]
                sqlite::page_changed(sqlite::ADD_STORE@, p, t, t2, n, id) && model::consistent(t)
                    && tables::well_formed(t2) implies model::consistent(t2) by {
                consistency::lemma_same_rows_consistent(t, t2);
            }
        }
        match self.change_alone(sqlite::ADD_STORE, &params) {
            Ok(_) => {
                assert(self.ran().len() == old(self).ran().len() + 1);
            },
            Err(e) => return Err(e),
        }
        let names = vec![Param::Text(db_name.to_string()), Param::Text(store_name.to_string())];
        let ghost values = sqlite::two_texts(db_name@, store_name@);
        assert(sqlite::given(names@) =~= values);
        match sqlite::query(&self.conn, sqlite::STORE_ID, &names) {
            Ok(found) => {
                proof {
                    assert(self.answered(sqlite::STORE_ID@, values, Some(sqlite::table(found@))));
                    if old(self).in_memory() {
                        let t = self.tables();
                        model::lemma_store_there(
                            old(self).tables(),
                            t,
                            db_name@,
                            store_name@,
                            text::optional_str(key_path),
                            auto_increment,
                        );
                        let x = tables::stores_named(t, db_name@, store_name@);
                        let f = |s: StoreRow| seq![Datum::Integer(s.id)];
                        rows::lemma_only(sqlite::table(found@), x.map_values(f));
                        assert(sqlite::table(found@).len() == found@.len());
                        assert(sqlite::table(found@)[0] == f(x[0]));
                        assert(rows::integer_of(f(x[0])) == Some(x[0].id));
                    }
                }
                rows::first_integer(&found, "id")
            },
            Err(e) => {
                assert(self.answered(sqlite::STORE_ID@, values, None));
                Err(StorageError::Sqlite(e))
            },
        }
    }

    /// Makes the index of this name on a field of the values of a store and fills it
    /// from the rows of the store. Where there is one of this name, it gets the field and
    /// is filled anew. Returns its id.
    pub fn create_index(&mut self, store_id: i64, index_name: &str, key_path: &str) -> (r: Result<
        i64,
        StorageError,
    >)
        ensures
            old(self).in_memory() ==> final(self).in_memory(),
            final(self).same_handles(old(self)),
            match r {
                Ok(id) => {
                    &&& exists|found: Seq<(int, Seq<char>)>, nested: bool|
                        final(self).ran() == old(self).ran() + #[trigger] model::as_one(
                            model::index_statements(
                                store_id as int,
                                index_name@,
                                key_path@,
                                id as int,
                                found,
                            ),
                            nested,
                        )
                    &&& old(self).in_memory() ==> {
                        &&& final(self).changed_to(old(self), final(self).tables())
                        &&& model::index_created(
                            old(self).tables(),
                            final(self).tables(),
                            store_id as int,
                            index_name@,
                            key_path@,
                            id as int,
                        )
                    }
                },
                Err(e) => {
                    &&& e is Sqlite || e is RollbackFailed || ((e is NoRow || error::is_misread(e))
                        && !old(self).in_memory())
                    &&& final(self).gave_up(old(self), e)
                },
            },
    {
        let ghost l = old(self).layers();
        let nested = match self.open_change() {
            Ok(nested) => nested,
            Err(e) => return Err(e),
        };
        let ghost begun = *self;
        let id: i64 = match self.make_index(store_id, index_name, key_path) {
            Ok(id) => id,
            Err(e) => {
                let ghost broken = *self;
                let r = self.undo(nested, e);
                proof {
                    if old(self).in_memory() {
                        assert(begun.layers().drop_last() =~= l);
                        lemma_undone(l, begun.layers(), broken.layers());
                    }
                }
                return Err(r);
            },
        };
        let ghost done = *self;
        let r = self.close_change(nested);
        proof {
            if old(self).in_memory() {
                lemma_closed(l, begun.layers(), done.layers());
            }
            if r is Ok {
                let found = choose|found: Seq<(int, Seq<char>)>|
                    done.ran() == begun.ran() + #[trigger] model::index_statements(
                        store_id as int,
                        index_name@,
                        key_path@,
                        id as int,
                        found,
                    );
                let log = model::index_statements(
                    store_id as int,
                    index_name@,
                    key_path@,
                    id as int,
                    found,
                );
                assert(self.ran() =~= old(self).ran() + model::as_one(log, nested));
                if old(self).in_memory() && l.len() == 1 {
                    consistency::lemma_index_created_consistent(
                        old(self).tables(),
                        done.tables(),
                        store_id as int,
                        index_name@,
                        key_path@,
                        id as int,
                    );
                }
            }
        }
        match r {
            Ok(_) => Ok(id),
            Err(e) => Err(e),
        }
    }

    /// Makes and fills an index, statement by statement.
    fn make_index(&mut self, store_id: i64, index_name: &str, key_path: &str) -> (r: Result<
        i64,
        StorageError,
    >)
        ensures
            old(self).sound() ==> final(self).sound(),
            final(self).same_handles(old(self)),
            r matches Ok(id) ==> {
                &&& exists|found: Seq<(int, Seq<char>)>|
                    final(self).ran() == old(self).ran() + #[trigger] model::index_statements(
                        store_id as int,
                        index_name@,
                        key_path@,
                        id as int,
                        found,
                    )
                &&& old(self).sound() ==> {
                    &&& final(self).changed_to(old(self), final(self).tables())
                    &&& model::index_created(
                        old(self).tables(),
                        final(self).tables(),
                        store_id as int,
                        index_name@,
                        key_path@,
                        id as int,
                    )
                }
            },
            r matches Err(e) ==> {
                &&& e is Sqlite || ((e is NoRow || error::is_misread(e)) && !old(self).sound())
                &&& old(self).sound() ==> model::broken_off(old(self).layers(), final(self).layers())
            },
    {
        let ghost t = old(self).tables();
        let ghost lower = old(self).layers().drop_last();
        let params = vec![
            Param::Integer(store_id),
            Param::Text(index_name.to_string()),
            Param::Text(key_path.to_string()),
        ];
        assert(sqlite::given(params@) =~= seq![
            Datum::Integer(store_id as int),
            Datum::Text(index_name@),
            Datum::Text(key_path@),
        ]);
        match self.change(sqlite::ADD_INDEX, &params) {
            Ok(_) => {},
            Err(e) => return Err(e),
        }
        let ghost added = *self;
        proof {
            if old(self).sound() {
                model::lemma_index_there(
                    t,
                    added.tables(),
                    store_id as int,
                    index_name@,
                    key_path@,
                );
                assert(added.layers().drop_last() =~= lower);
            }
        }
        let id: i64 = match self.index_id(store_id, index_name) {
            Ok(id) => id,
            Err(e) => return Err(e),
        };
        assert(old(self).sound() ==> added.layers() =~= lower.push(added.tables()));
        let path = vec![Param::Text(key_path.to_string()), Param::Integer(id)];
        assert(sqlite::given(path@) =~= seq![Datum::Text(key_path@), Datum::Integer(id as int)]);
        match self.change(sqlite::SET_INDEX_PATH, &path) {
            Ok(_) => {},
            Err(e) => {
                proof {
                    if old(self).sound() {
                        model::lemma_broken_off(old(self).layers(), added.layers(), self.layers());
                    }
                }
                return Err(e);
            },
        }
        let ghost named = *self;
        proof {
            if old(self).sound() {
                assert(named.layers().drop_last() =~= lower);
                model::lemma_index_path(
                    t,
                    added.tables(),
                    store_id as int,
                    index_name@,
                    key_path@,
                    id as int,
                );
            }
        }
        match self.rebuild_index(id, store_id, key_path) {
            Ok(_) => {
                proof {
                    let found = choose|found: Seq<(int, Seq<char>)>|
                        self.ran() == named.ran() + #[trigger] model::filling_statements(
                            id as int,
                            key_path@,
                            found,
                        );
                    assert(self.ran() =~= old(self).ran() + model::index_statements(
                        store_id as int,
                        index_name@,
                        key_path@,
                        id as int,
                        found,
                    ));
                }
                Ok(id)
            },
            Err(e) => {
                proof {
                    if old(self).sound() {
                        model::lemma_broken_off(old(self).layers(), named.layers(), self.layers());
                    }
                }
                Err(e)
            },
        }
    }

    /// The id of an index.
    fn index_id(&self, store_id: i64, index_name: &str) -> (r: Result<i64, StorageError>)
        ensures
            exists|a: Option<Seq<Seq<Datum>>>| #[trigger]
                self.answered(
                    sqlite::INDEX_ID@,
                    sqlite::number_and_text(store_id as int, index_name@),
                    a,
                ) && rows::integer_answer(a, "id"@, r),
            r matches Err(e) ==> e is Sqlite || e is NoRow || error::is_misread(e),
            self.sound() ==> match r {
                Ok(id) => model::is_index(self.tables(), store_id as int, index_name@, id as int),
                Err(StorageError::NoRow) => tables::indexes_named(
                    self.tables(),
                    store_id as int,
                    index_name@,
                ).len() == 0,
                Err(e) => e is Sqlite,
            },
    {
        let names = vec![Param::Integer(store_id), Param::Text(index_name.to_string())];
        let ghost values = sqlite::number_and_text(store_id as int, index_name@);
        assert(sqlite::given(names@) =~= values);
        match sqlite::query(&self.conn, sqlite::INDEX_ID, &names) {
            Ok(found) => {
                proof {
                    assert(self.answered(sqlite::INDEX_ID@, values, Some(sqlite::table(found@))));
                    if self.sound() {
                        let x = tables::indexes_named(
                            self.tables(),
                            store_id as int,
                            index_name@,
                        );
                        let f = |x: IndexRow| seq![Datum::Integer(x.id)];
                        model::lemma_one_index(self.tables(), store_id as int, index_name@);
                        rows::lemma_only(sqlite::table(found@), x.map_values(f));
                        assert(sqlite::table(found@).len() == found@.len());
                        assert(x.map_values(f).len() == x.len());
                        if x.len() == 1 {
                            assert(sqlite::table(found@)[0] == f(x[0]));
                            assert(rows::integer_of(f(x[0])) == Some(x[0].id));
                        }
                    }
                }
                rows::first_integer(&found, "id")
            },
            Err(e) => {
                assert(self.answered(sqlite::INDEX_ID@, values, None));
                Err(StorageError::Sqlite(e))
            },
        }
    }

    /// Fills an index anew from the rows of its store.
    fn rebuild_index(&mut self, index_id: i64, store_id: i64, key_path: &str) -> (r: Result<
        (),
        StorageError,
    >)
        ensures
            old(self).sound() ==> final(self).sound(),
            final(self).same_handles(old(self)),
            r is Ok ==> {
                &&& exists|found: Seq<(int, Seq<char>)>|
                    final(self).ran() == old(self).ran() + #[trigger] model::filling_statements(
                        index_id as int,
                        key_path@,
                        found,
                    )
                &&& old(self).sound() ==> final(self).changed_to(
                    old(self),
                    model::indexed(old(self).tables(), index_id as int, store_id as int, key_path@),
                )
            },
            r matches Err(e) ==> {
                &&& e is Sqlite || (error::is_misread(e) && !old(self).sound())
                &&& old(self).sound() ==> model::broken_off(old(self).layers(), final(self).layers())
            },
    {
        let params = vec![Param::Integer(index_id)];
        assert(sqlite::given(params@) =~= seq![Datum::Integer(index_id as int)]);
        let ghost known = old(self).sound();
        let ghost lower = old(self).layers().drop_last();
        match self.change(sqlite::DELETE_ENTRIES, &params) {
            Ok(_) => {},
            Err(e) => return Err(e),
        }
        let ghost emptied = *self;
        let ghost t0 = emptied.tables();
        assert(known ==> emptied.layers().drop_last() =~= lower);
        let ghost x = tables::rows_of(t0, store_id as int);
        let store = vec![Param::Integer(store_id)];
        let found = match sqlite::query(&self.conn, sqlite::ALL_VALUES, &store) {
            Ok(found) => found,
            Err(e) => return Err(StorageError::Sqlite(e)),
        };
        let ghost f = |r: DataRow| seq![Datum::Integer(r.id), Datum::Text(r.value)];
        let ghost mut y: Seq<DataRow> = Seq::empty();
        proof {
            if known {
                y = rows::lemma_arranged(sqlite::table(found@), x, f);
                assert(y.map_values(f).len() == found@.len());
                assert forall|j: int| 0 <= j < found@.len() implies rows::numbered_of(
                    #[trigger] sqlite::table(found@)[j],
                ) == Some((y[j].id, y[j].value)) by {
                    assert(y.map_values(f)[j] == f(y[j]));
                }
            }
        }
        let list = match rows::numbered_texts(&found, "value") {
            Ok(list) => list,
            Err(e) => return Err(e),
        };
        let ghost all = model::numbered(list@);
        proof {
            if known {
                assert forall|j: int| 0 <= j < y.len() implies (#[trigger] y[j]).id == list@[j].0
                    && y[j].value == list@[j].1@ by {
                    assert(rows::numbered_of(sqlite::table(found@)[j]) == Some(
                        (y[j].id, y[j].value),
                    ));
                }
            }
        }
        let ghost p = model::in_index(key_path@);
        let ghost h = model::entry_of(index_id as int, key_path@);
        let ghost ps = model::value_has(key_path@);
        let ghost hs = model::indexing_statement(index_id as int, key_path@);
        proof {
            reveal(Seq::filter);
            broadcast use vstd::seq_lib::group_to_multiset_ensures;

            assert(y.take(0).filter(p).map_values(h).to_multiset() =~= Multiset::empty());
            assert(t0.entries.add(Multiset::empty()) =~= t0.entries);
            assert(all.take(0).filter(ps).map_values(hs) =~= Seq::<Statement>::empty());
            assert(emptied.ran() + Seq::<Statement>::empty() =~= emptied.ran());
        }
        let mut i: usize = 0;
        while i < list.len()
            invariant
                i <= list@.len(),
                all == model::numbered(list@),
                p == model::in_index(key_path@),
                h == model::entry_of(index_id as int, key_path@),
                ps == model::value_has(key_path@),
                hs == model::indexing_statement(index_id as int, key_path@),
                known == old(self).sound(),
                lower == old(self).layers().drop_last(),
                self.same_handles(old(self)),
                self.ran() == emptied.ran() + all.take(i as int).filter(ps).map_values(hs),
                known ==> {
                    &&& y.len() == list@.len()
                    &&& forall|j: int|
                        0 <= j < y.len() ==> (#[trigger] y[j]).id == list@[j].0 && y[j].value
                            == list@[j].1@
                    &&& self.sound()
                    &&& self.layers() == lower.push(
                        Tables {
                            entries: t0.entries.add(
                                y.take(i as int).filter(p).map_values(h).to_multiset(),
                            ),
                            ..t0
                        },
                    )
                },
            decreases list@.len() - i,
        {
            let ghost now = *self;
            proof {
                model::lemma_next_picked(all, i as int, ps, hs);
                assert(all[i as int] == (list@[i as int].0 as int, list@[i as int].1@));
                if known {
                    assert(now.layers().drop_last() =~= lower);
                    model::lemma_next(y, i as int, p, h);
                }
            }
            match json::index_key(list[i].1.as_str(), key_path) {
                Some(key) => {
                    let ghost named = key@;
                    let entry = vec![
                        Param::Integer(index_id),
                        Param::Text(key),
                        Param::Integer(list[i].0),
                    ];
                    assert(sqlite::given(entry@) =~= seq![
                        Datum::Integer(index_id as int),
                        Datum::Text(named),
                        Datum::Integer(list@[i as int].0 as int),
                    ]);
                    match self.change(sqlite::ADD_ENTRY, &entry) {
                        Ok(_) => {
                            proof {
                                assert(self.ran() =~= emptied.ran() + all.take(
                                    i + 1,
                                ).filter(ps).map_values(hs));
                                if known {
                                    let kept = y.take(i as int).filter(p).map_values(
                                        h,
                                    ).to_multiset();
                                    assert(p(y[i as int]));
                                    assert(t0.entries.add(kept).insert(h(y[i as int]))
                                        =~= t0.entries.add(kept.insert(h(y[i as int]))));
                                }
                            }
                        },
                        Err(e) => {
                            proof {
                                if known {
                                    model::lemma_broken_off(
                                        old(self).layers(),
                                        now.layers(),
                                        self.layers(),
                                    );
                                }
                            }
                            return Err(e);
                        },
                    }
                },
                None => {},
            }
            i += 1;
        }
        proof {
            assert(all.take(i as int) =~= all);
            assert(self.ran() =~= old(self).ran() + model::filling_statements(
                index_id as int,
                key_path@,
                all,
            ));
            if known {
                assert(y.take(i as int) =~= y);
                rows::lemma_filtered(y, p);
                rows::lemma_filtered(x, p);
                rows::lemma_mapped(y.filter(p), x.filter(p), h);
                assert(x == tables::rows_of(old(self).tables(), store_id as int));
            }
        }
        Ok(())
    }

    /// The pairs of a store whose value has `key` in the field of the index, in no
    /// particular order.
    pub fn index_get_all(&self, store_id: i64, index_name: &str, key: &str) -> (r: Result<
        Vec<(String, String)>,
        StorageError,
    >)
        ensures
            exists|found: Result<i64, StorageError>, a: Option<Seq<Seq<Datum>>>|
                {
                    &&& self.answered(
                        sqlite::INDEX_ID@,
                        sqlite::number_and_text(store_id as int, index_name@),
                        a,
                    )
                    &&& #[trigger] rows::integer_answer(a, "id"@, found)
                    &&& match found {
                        Ok(id) => exists|b: Option<Seq<Seq<Datum>>>| #[trigger]
                            self.answered(
                                sqlite::INDEXED_PAIRS@,
                                sqlite::number_and_text(id as int, key@),
                                b,
                            ) && rows::pairs_answer(b, r),
                        Err(e) => r == Err::<Vec<(String, String)>, StorageError>(e),
                    }
                },
            r matches Err(e) ==> e is Sqlite || e is NoRow || error::is_misread(e),
            self.in_memory() && model::consistent(self.tables()) ==> match r {
                Ok(found) => {
                    &&& tables::indexes_named(
                        self.tables(),
                        store_id as int,
                        index_name@,
                    ).len() == 1
                    &&& rows::pairs(found@).to_multiset() == model::found_pairs(
                        self.tables(),
                        store_id as int,
                        index_name@,
                        key@,
                    )
                },
                Err(StorageError::NoRow) => tables::indexes_named(
                    self.tables(),
                    store_id as int,
                    index_name@,
                ).len() == 0,
                Err(e) => e is Sqlite,
            },
    {
        let ghost names = sqlite::number_and_text(store_id as int, index_name@);
        let id: i64 = match self.index_id(store_id, index_name) {
            Ok(id) => {
                proof {
                    let a = choose|a: Option<Seq<Seq<Datum>>>| #[trigger]
                        self.answered(sqlite::INDEX_ID@, names, a) && rows::integer_answer(
                            a,
                            "id"@,
                            Ok(id),
                        );
                    assert(rows::integer_answer(a, "id"@, Ok(id)));
                }
                id
            },
            Err(e) => {
                proof {
                    let a = choose|a: Option<Seq<Seq<Datum>>>| #[trigger]
                        self.answered(sqlite::INDEX_ID@, names, a) && rows::integer_answer(
                            a,
                            "id"@,
                            Err(e),
                        );
                    assert(rows::integer_answer(a, "id"@, Err(e)));
                }
                return Err(e);
            },
        };
        let params = vec![Param::Integer(id), Param::Text(key.to_string())];
        let ghost values = sqlite::number_and_text(id as int, key@);
        assert(sqlite::given(params@) =~= values);
        match sqlite::query(&self.conn, sqlite::INDEXED_PAIRS, &params) {
            Ok(found) => {
                let list = rows::key_values(&found);
                proof {
                    assert(self.answered(
                        sqlite::INDEXED_PAIRS@,
                        values,
                        Some(sqlite::table(found@)),
                    ));
                    if self.in_memory() {
                        let t = self.tables();
                        let f = |e: EntryRow| sqlite::pair_row(tables::row_with(t, e.row_id));
                        let es = choose|es: Seq<EntryRow>|
                            #[trigger] es.to_multiset() == tables::entries_of(t, id as int, key@)
                                && sqlite::table(found@) == es.map_values(f);
                        assert(model::indexed_under(t, id as int, key@, es));
                        assert(sqlite::table(found@).len() == found@.len());
                        assert forall|j: int| 0 <= j < found@.len() implies rows::pair_of(
                            #[trigger] sqlite::table(found@)[j],
                        ) == Some(model::row_pair(tables::row_with(t, es[j].row_id))) by {
                            assert(es.map_values(f)[j] == f(es[j]));
                        }
                        assert(list is Ok);
                        assert forall|j: int| 0 <= j < found@.len() implies rows::pairs(
                            list->Ok_0@,
                        )[j] == #[trigger] model::entry_pairs(t, es)[j] by {
                            assert(rows::pair_of(sqlite::table(found@)[j]) is Some);
                        }
                        assert(rows::pairs(list->Ok_0@) =~= model::entry_pairs(t, es));
                        if model::consistent(t) {
                            laws::law_index_finds_rows(
                                t,
                                store_id as int,
                                index_name@,
                                id as int,
                                key@,
                                es,
                            );
                        }
                    }
                }
                list
            },
            Err(e) => {
                assert(self.answered(sqlite::INDEXED_PAIRS@, values, None));
                Err(StorageError::Sqlite(e))
            },
        }
    }

    /// Removes an index and its entries.
    pub fn delete_index(&mut self, store_id: i64, index_name: &str) -> (r: Result<
        (),
        StorageError,
    >)
        ensures
            old(self).in_memory() ==> final(self).in_memory(),
            final(self).same_handles(old(self)),
            final(self).ran() == if r is Ok {
                old(self).ran().push(
                    model::statement(
                        sqlite::DELETE_INDEX@,
                        seq![Datum::Integer(store_id as int), Datum::Text(index_name@)],
                    ),
                )
            } else {
                old(self).ran()
            },
            match r {
                Ok(_) => old(self).in_memory() ==> final(self).changed_to(
                    old(self),
                    tables::without_index(old(self).tables(), store_id as int, index_name@),
                ),
                Err(e) => e is Sqlite && (old(self).in_memory() ==> final(self).failed_from(
                    old(self),
                )),
            },
    {
        let params = vec![Param::Integer(store_id), Param::Text(index_name.to_string())];
        proof {
            let p = sqlite::given(params@);
            assert(p =~= seq![Datum::Integer(store_id as int), Datum::Text(index_name@)]);
            assert forall|t: Tables, t2: Tables, n: int, id: int| #[trigger]
                sqlite::page_changed(sqlite::DELETE_INDEX@, p, t, t2, n, id) && model::consistent(t)
                    && tables::well_formed(t2) implies model::consistent(t2) by {
                consistency::lemma_index_removal_consistent(t, store_id as int, index_name@);
            }
        }
        match self.change_alone(sqlite::DELETE_INDEX, &params) {
            Ok(_) => Ok(()),
            Err(e) => Err(e),
        }
    }

    /// The number of rows of a store.
    pub fn count(&self, store_id: i64) -> (r: Result<usize, StorageError>)
        ensures
            exists|a: Option<Seq<Seq<Datum>>>| #[trigger]
                self.answered(
                    sqlite::COUNT_ROWS@,
                    seq![Datum::Integer(store_id as int)],
                    a,
                ) && rows::count_answer(a, "COUNT(*)"@, r),
            match r {
                Ok(n) => self.in_memory() ==> {
                    let len = tables::rows_of(self.tables(), store_id as int).len();
                    len <= i64::MAX && n == len as usize
                },
                Err(e) => e is Sqlite || ((e is NoRow || error::is_misread(e))
                    && !self.in_memory()),
            },
    {
        let params = vec![Param::Integer(store_id)];
        let ghost values = seq![Datum::Integer(store_id as int)];
        assert(sqlite::given(params@) =~= values);
        match sqlite::query(&self.conn, sqlite::COUNT_ROWS, &params) {
            Ok(found) => {
                let ghost a = Some(sqlite::table(found@));
                assert(self.answered(sqlite::COUNT_ROWS@, values, a));
                match rows::first_integer(&found, "COUNT(*)") {
                    Ok(n) => {
                        assert(rows::integer_answer(a, "COUNT(*)"@, Ok(n)));
                        Ok(n as usize)
                    },
                    Err(e) => Err(e),
                }
            },
            Err(e) => {
                assert(self.answered(sqlite::COUNT_ROWS@, values, None));
                Err(StorageError::Sqlite(e))
            },
        }
    }

    /// The keys of a store, in no particular order.
    pub fn get_all_keys(&self, store_id: i64) -> (r: Result<Vec<String>, StorageError>)
        ensures
            exists|a: Option<Seq<Seq<Datum>>>| #[trigger]
                self.answered(sqlite::ALL_KEYS@, seq![Datum::Integer(store_id as int)], a)
                    && rows::texts_answer(a, "key_val"@, r),
            match r {
                Ok(keys) => self.in_memory() ==> text::texts(keys@).to_multiset() == model::store_keys(
                    self.tables(),
                    store_id as int,
                ),
                Err(e) => e is Sqlite || (error::is_misread(e) && !self.in_memory()),
            },
    {
        let params = vec![Param::Integer(store_id)];
        let ghost values = seq![Datum::Integer(store_id as int)];
        assert(sqlite::given(params@) =~= values);
        match sqlite::query(&self.conn, sqlite::ALL_KEYS, &params) {
            Ok(found) => {
                let list = rows::first_texts(&found, "key_val");
                proof {
                    assert(self.answered(sqlite::ALL_KEYS@, values, Some(sqlite::table(found@))));
                    if self.in_memory() {
                        let x = tables::rows_of(self.tables(), store_id as int).filter(
                            |r: DataRow| r.key is Some,
                        );
                        let f = |r: DataRow| seq![Datum::Text(r.key->0)];
                        let g = |r: DataRow| r.key->0;
                        let y = rows::lemma_arranged(sqlite::table(found@), x, f);
                        rows::lemma_mapped(y, x, g);
                        assert(sqlite::table(found@).len() == found@.len());
                        assert(y.map_values(f).len() == y.len());
                        assert forall|j: int| 0 <= j < found@.len() implies rows::text_of(
                            #[trigger] sqlite::table(found@)[j],
                        ) == Some(y[j].key->0) by {
                            assert(y.map_values(f)[j] == f(y[j]));
                        }
                        assert(list is Ok);
                        assert forall|j: int| 0 <= j < found@.len() implies text::texts(
                            list->Ok_0@,
                        )[j] == #[trigger] y.map_values(g)[j] by {
                            assert(rows::text_of(sqlite::table(found@)[j]) is Some);
                        }
                        assert(text::texts(list->Ok_0@) =~= y.map_values(g));
                    }
                }
                list
            },
            Err(e) => {
                assert(self.answered(sqlite::ALL_KEYS@, values, None));
                Err(StorageError::Sqlite(e))
            },
        }
    }

    /// All pairs of a store, in the order in which they were put.
    fn get_all(&self, store_id: i64) -> (r: Result<Vec<(String, String)>, StorageError>)
        ensures
            exists|a: Option<Seq<Seq<Datum>>>| #[trigger]
                self.answered(sqlite::ALL_PAIRS@, seq![Datum::Integer(store_id as int)], a)
                    && rows::pairs_answer(a, r),
            match r {
                Ok(found) => self.in_memory() ==> rows::pairs(found@) == model::store_pairs(
                    self.tables(),
                    store_id as int,
                ),
                Err(e) => e is Sqlite || (error::is_misread(e) && !self.in_memory()),
            },
    {
        let params = vec![Param::Integer(store_id)];
        let ghost values = seq![Datum::Integer(store_id as int)];
        assert(sqlite::given(params@) =~= values);
        match sqlite::query(&self.conn, sqlite::ALL_PAIRS, &params) {
            Ok(found) => {
                let list = rows::key_values(&found);
                proof {
                    assert(self.answered(sqlite::ALL_PAIRS@, values, Some(sqlite::table(found@))));
                    if self.in_memory() {
                        let x = tables::rows_of(self.tables(), store_id as int);
                        let f = |r: DataRow| sqlite::pair_row(r);
                        assert(sqlite::table(found@) == x.map_values(f));
                        assert(sqlite::table(found@).len() == found@.len());
                        assert forall|j: int| 0 <= j < found@.len() implies rows::pair_of(
                            #[trigger] sqlite::table(found@)[j],
                        ) == Some(model::row_pair(x[j])) by {
                            assert(x.map_values(f)[j] == f(x[j]));
                        }
                        assert(list is Ok);
                        assert forall|j: int| 0 <= j < found@.len() implies rows::pairs(
                            list->Ok_0@,
                        )[j] == #[trigger] model::store_pairs(self.tables(), store_id as int)[j] by {
                            assert(rows::pair_of(sqlite::table(found@)[j]) is Some);
                        }
                        assert(rows::pairs(list->Ok_0@) =~= model::store_pairs(
                            self.tables(),
                            store_id as int,
                        ));
                    }
                }
                list
            },
            Err(e) => {
                assert(self.answered(sqlite::ALL_PAIRS@, values, None));
                Err(StorageError::Sqlite(e))
            },
        }
    }

    /// Opens a cursor at the first pair of a store. Returns its id and all pairs.
    pub fn open_cursor(&mut self, store_id: i64) -> (r: Result<
        (i64, Vec<(String, String)>),
        StorageError,
    >)
        ensures
            final(self).same_tables(old(self)),
            final(self).transactions() == old(self).transactions(),
            exists|a: Option<Seq<Seq<Datum>>>| #[trigger]
                old(self).answered(sqlite::ALL_PAIRS@, seq![Datum::Integer(store_id as int)], a)
                    && match r {
                    Ok((_, found)) => rows::pairs_answer(a, Ok(found)),
                    Err(e) => rows::pairs_answer(a, Err(e)),
                },
            match r {
                Ok((id, found)) => {
                    &&& id == old(self).next_id()
                    &&& final(self).next_id() == model::following_id(id)
                    &&& final(self).cursors() == old(self).cursors().insert(
                        id,
                        Cursor { store_id, position: 0 },
                    )
                    &&& old(self).in_memory() ==> rows::pairs(found@) == model::store_pairs(
                        old(self).tables(),
                        store_id as int,
                    )
                },
                Err(e) => {
                    &&& final(self).same_handles(old(self))
                    &&& e is Sqlite || (error::is_misread(e) && !old(self).in_memory())
                },
            },
    {
        let all = match self.get_all(store_id) {
            Ok(all) => all,
            Err(e) => return Err(e),
        };
        let id = self.next_object_id();
        self.cursors.insert(id, Cursor { store_id, position: 0 });
        Ok((id, all))
    }

    /// Hands out the next id, and goes back to the smallest after the largest.
    fn next_object_id(&mut self) -> (r: i64)
        ensures
            r == old(self).next_id(),
            final(self).next_id() == model::following_id(r),
            final(self).same_tables(old(self)),
            final(self).transactions() == old(self).transactions(),
            final(self).cursors() == old(self).cursors(),
    {
        let id = self.next_id;
        self.next_id = id.wrapping_add(1);
        id
    }

    /// Moves a cursor on by `count` pairs. Returns the pair at which it stands then,
    /// or `None` behind the last one.
    pub fn cursor_advance(&mut self, cursor_id: i64, count: u32) -> (r: Result<
        Option<(String, String)>,
        StorageError,
    >)
        ensures
            final(self).same_tables(old(self)),
            final(self).transactions() == old(self).transactions(),
            final(self).next_id() == old(self).next_id(),
            !old(self).cursors().contains_key(cursor_id) ==> r is Err && r->Err_0 is UnknownCursor
                && final(self).cursors() == old(self).cursors(),
            old(self).cursors().contains_key(cursor_id) ==> exists|a: Option<Seq<Seq<Datum>>>|
                #[trigger]
                old(self).answered(
                    sqlite::ALL_PAIRS@,
                    seq![Datum::Integer(old(self).cursors()[cursor_id].store_id as int)],
                    a,
                ) && match r {
                    Ok(found) => a is Some && rows::all_pairs(a->0) && rows::pair_texts(found)
                        == rows::found_at(
                        rows::pairs_of(a->0),
                        model::moved_on(old(self).cursors()[cursor_id].position, count) as int,
                    ),
                    Err(e) => rows::pairs_answer(a, Err(e)),
                },
            old(self).cursors().contains_key(cursor_id) ==> match r {
                Ok(found) => {
                    let cursor = old(self).cursors()[cursor_id];
                    let at = model::moved_on(cursor.position, count);
                    let all = model::store_pairs(old(self).tables(), cursor.store_id as int);
                    &&& final(self).cursors() == old(self).cursors().insert(
                        cursor_id,
                        Cursor { store_id: cursor.store_id, position: at },
                    )
                    &&& old(self).in_memory() ==> rows::pair_texts(found) == rows::found_at(
                        all,
                        at as int,
                    )
                },
                Err(e) => {
                    &&& final(self).cursors() == old(self).cursors()
                    &&& e is Sqlite || (error::is_misread(e) && !old(self).in_memory())
                },
            },
    {
        let (store_id, position): (i64, usize) = match self.cursors.get(&cursor_id) {
            Some(cursor) => (cursor.store_id, cursor.position),
            None => return Err(StorageError::UnknownCursor),
        };
        let all = match self.get_all(store_id) {
            Ok(all) => all,
            Err(e) => return Err(e),
        };
        let at: usize = position.saturating_add(count as usize);
        self.cursors.insert(cursor_id, Cursor { store_id, position: at });
        Ok(pair_at(&all, at))
    }

    /// Closes a cursor. One that is not open stays so.
    pub fn close_cursor(&mut self, cursor_id: i64) -> (r: Result<(), StorageError>)
        ensures
            r is Ok,
            final(self).cursors() == old(self).cursors().remove(cursor_id),
            final(self).same_tables(old(self)),
            final(self).transactions() == old(self).transactions(),
            final(self).next_id() == old(self).next_id(),
    {
        self.cursors.remove(&cursor_id);
        assert(self.cursors() =~= old(self).cursors().remove(cursor_id));
        Ok(())
    }

    /// Whether an open transaction has the store.
    fn is_locked(&self, store_id: i64) -> (r: bool)
        ensures
            r == model::locked(self.transactions(), store_id),
    {
        for k in it: self.transactions.keys()
            invariant
                it.seq().unref().to_set() == self.transactions@.dom(),
                forall|j: int|
                    0 <= j < it.index() ==> !self.transactions()[
                        #[trigger] it.seq().unref()[j]
                    ].store_ids.contains(store_id),
        {
            let ghost all = it.seq().unref();
            let ghost i = it.index();
            assert(all[i] == *k);
            assert(all.to_set().contains(*k));
            match self.transactions.get(k) {
                Some(ctx) => {
                    assert(self.transactions()[*k].store_ids == ctx.store_ids@);
                    if has_store(ctx, store_id) {
                        assert(self.transactions().contains_key(*k));
                        return true;
                    }
                },
                None => {},
            }
        }
        false
    }

    /// Opens a transaction that may write to the given stores, which no other open
    /// transaction may have. Returns its id.
    pub fn begin_transaction(&mut self, store_ids: &[i64]) -> (r: Result<i64, StorageError>)
        ensures
            final(self).same_tables(old(self)),
            match r {
                Ok(id) => {
                    &&& forall|i: int|
                        0 <= i < store_ids@.len() ==> !#[trigger] model::locked(
                            old(self).transactions(),
                            store_ids@[i],
                        )
                    &&& id == old(self).next_id()
                    &&& final(self).next_id() == model::following_id(old(self).next_id())
                    &&& final(self).transactions() == old(self).transactions().insert(
                        id,
                        TransactionView { store_ids: store_ids@, changes: Seq::empty() },
                    )
                    &&& final(self).cursors() == old(self).cursors()
                },
                Err(e) => {
                    &&& exists|i: int|
                        {
                            &&& 0 <= i < store_ids@.len()
                            &&& #[trigger] model::locked(old(self).transactions(), store_ids@[i])
                            &&& forall|j: int|
                                0 <= j < i ==> !#[trigger] model::locked(
                                    old(self).transactions(),
                                    store_ids@[j],
                                )
                            &&& e == StorageError::StoreLocked(store_ids@[i])
                        }
                    &&& final(self).same_handles(old(self))
                },
            },
    {
        let mut i: usize = 0;
        while i < store_ids.len()
            invariant
                i <= store_ids@.len(),
                *self == *old(self),
                forall|j: int|
                    0 <= j < i ==> !#[trigger] model::locked(
                        old(self).transactions(),
                        store_ids@[j],
                    ),
            decreases store_ids@.len() - i,
        {
            if self.is_locked(store_ids[i]) {
                return Err(StorageError::StoreLocked(store_ids[i]));
            }
            i += 1;
        }
        let tx_id = self.next_object_id();
        let ctx = TransactionContext { store_ids: vstd::slice::slice_to_vec(store_ids), staged_ops: Vec::new() };
        let ghost view = context_view(ctx);
        assert(view.store_ids =~= store_ids@);
        assert(view.changes =~= Seq::empty());
        self.transactions.insert(tx_id, ctx);
        assert(self.transactions() =~= old(self).transactions().insert(tx_id, view));
        Ok(tx_id)
    }

    /// Stages an operation on one of the stores of a transaction.
    fn stage(&mut self, tx_id: i64, store_id: i64, op: StagedOp) -> (r: Result<(), StorageError>)
        ensures
            final(self).cursors() == old(self).cursors(),
            final(self).next_id() == old(self).next_id(),
            final(self).same_tables(old(self)),
            model::staging(
                old(self).transactions(),
                tx_id,
                store_id,
                op_view(op),
                final(self).transactions(),
                r,
            ),
    {
        let mut ctx = match self.transactions.remove(&tx_id) {
            Some(ctx) => ctx,
            None => {
                assert(self.transactions() =~= old(self).transactions());
                return Err(StorageError::UnknownTransaction);
            },
        };
        let ghost before = context_view(ctx);
        assert(before == old(self).transactions()[tx_id]);
        if !has_store(&ctx, store_id) {
            self.transactions.insert(tx_id, ctx);
            assert(self.transactions() =~= old(self).transactions());
            return Err(StorageError::StoreNotInTransaction(store_id));
        }
        ctx.staged_ops.push(op);
        assert(context_view(ctx).changes =~= before.changes.push(op_view(op)));
        self.transactions.insert(tx_id, ctx);
        assert(self.transactions() =~= old(self).transactions().insert(tx_id, context_view(ctx)));
        Ok(())
    }

    /// Stages a put.
    pub fn transaction_put(&mut self, tx_id: i64, store_id: i64, key: Option<&str>, value: &str) -> (r:
        Result<(), StorageError>)
        ensures
            final(self).cursors() == old(self).cursors(),
            final(self).next_id() == old(self).next_id(),
            final(self).same_tables(old(self)),
            model::staging(
                old(self).transactions(),
                tx_id,
                store_id,
                Change::Put { store_id: store_id as int, key: text::optional_str(key), value: value@ },
                final(self).transactions(),
                r,
            ),
    {
        let given: Option<String> = match key {
            Some(k) => Some(k.to_string()),
            None => None,
        };
        self.stage(tx_id, store_id, StagedOp::Put { store_id, key: given, value: value.to_string() })
    }

    /// Stages a delete.
    pub fn transaction_delete(&mut self, tx_id: i64, store_id: i64, key: &str) -> (r: Result<
        (),
        StorageError,
    >)
        ensures
            final(self).cursors() == old(self).cursors(),
            final(self).next_id() == old(self).next_id(),
            final(self).same_tables(old(self)),
            model::staging(
                old(self).transactions(),
                tx_id,
                store_id,
                Change::Delete { store_id: store_id as int, key: key@ },
                final(self).transactions(),
                r,
            ),
    {
        self.stage(tx_id, store_id, StagedOp::Delete { store_id, key: key.to_string() })
    }

    /// Stages a clear.
    pub fn transaction_clear(&mut self, tx_id: i64, store_id: i64) -> (r: Result<(), StorageError>)
        ensures
            final(self).cursors() == old(self).cursors(),
            final(self).next_id() == old(self).next_id(),
            final(self).same_tables(old(self)),
            model::staging(
                old(self).transactions(),
                tx_id,
                store_id,
                Change::Clear { store_id: store_id as int },
                final(self).transactions(),
                r,
            ),
    {
        self.stage(tx_id, store_id, StagedOp::Clear { store_id })
    }

    /// Ends a transaction without its staged changes.
    pub fn abort_transaction(&mut self, tx_id: i64) -> (r: Result<(), StorageError>)
        ensures
            final(self).cursors() == old(self).cursors(),
            final(self).next_id() == old(self).next_id(),
            final(self).same_tables(old(self)),
            final(self).transactions() == old(self).transactions().remove(tx_id),
            match r {
                Ok(_) => old(self).transactions().contains_key(tx_id),
                Err(e) => e is UnknownTransaction && !old(self).transactions().contains_key(tx_id),
            },
    {
        let found = self.transactions.remove(&tx_id);
        assert(self.transactions() =~= old(self).transactions().remove(tx_id));
        match found {
            Some(_) => Ok(()),
            None => Err(StorageError::UnknownTransaction),
        }
    }

    /// The version of a database, if there is one of this name.
    pub fn find_version(&self, db_name: &str) -> (r: Result<Option<i64>, StorageError>)
        ensures
            exists|a: Option<Seq<Seq<Datum>>>| #[trigger]
                self.answered(sqlite::VERSION_OF@, seq![Datum::Text(db_name@)], a)
                    && rows::optional_integer_answer(a, "version"@, r),
            r matches Ok(v) ==> self.in_memory() ==> v == (
            if self.tables().versions.contains_key(db_name@) {
                Some(self.tables().versions[db_name@] as i64)
            } else {
                None
            }),
            r matches Err(e) ==> e is Sqlite || (error::is_misread(e) && !self.in_memory()),
    {
        let params = vec![Param::Text(db_name.to_string())];
        let ghost values = seq![Datum::Text(db_name@)];
        assert(sqlite::given(params@) =~= values);
        match sqlite::query(&self.conn, sqlite::VERSION_OF, &params) {
            Ok(found) => {
                let ghost a = Some(sqlite::table(found@));
                assert(self.answered(sqlite::VERSION_OF@, values, a));
                match rows::first_integer(&found, "version") {
                    Ok(n) => Ok(Some(n)),
                    Err(StorageError::NoRow) => Ok(None),
                    Err(e) => Err(e),
                }
            },
            Err(e) => {
                assert(self.answered(sqlite::VERSION_OF@, values, None));
                Err(StorageError::Sqlite(e))
            },
        }
    }

    /// The version of a database, cut to 32 bits, or 1 where there is none of this name
    /// or it cannot be read.
    pub fn get_version(&self, db_name: &str) -> (r: Result<u32, StorageError>)
        ensures
            r is Ok,
            exists|found: Result<Option<i64>, StorageError>, a: Option<Seq<Seq<Datum>>>|
                {
                    &&& self.answered(sqlite::VERSION_OF@, seq![Datum::Text(db_name@)], a)
                    &&& #[trigger] rows::optional_integer_answer(a, "version"@, found)
                    &&& r->Ok_0 == version_in(found)
                    &&& self.in_memory() && found is Ok ==> found->Ok_0 == (
                    if self.tables().versions.contains_key(db_name@) {
                        Some(self.tables().versions[db_name@] as i64)
                    } else {
                        None
                    })
                },
    {
        let found = self.find_version(db_name);
        proof {
            let a = choose|a: Option<Seq<Seq<Datum>>>| #[trigger]
                self.answered(sqlite::VERSION_OF@, seq![Datum::Text(db_name@)], a)
                    && rows::optional_integer_answer(a, "version"@, found);
            assert(rows::optional_integer_answer(a, "version"@, found));
        }
        Ok(version_from(found))
    }

    /// Sets the version of a database, where there is one of this name.
    pub fn set_version(&mut self, db_name: &str, version: u32) -> (r: Result<(), StorageError>)
        ensures
            old(self).in_memory() ==> final(self).in_memory(),
            final(self).same_handles(old(self)),
            final(self).ran() == if r is Ok {
                old(self).ran().push(
                    model::statement(
                        sqlite::SET_VERSION@,
                        seq![Datum::Integer(version as int), Datum::Text(db_name@)],
                    ),
                )
            } else {
                old(self).ran()
            },
            match r {
                Ok(_) => old(self).in_memory() ==> final(self).changed_to(
                    old(self),
                    tables::with_version(old(self).tables(), db_name@, version as int),
                ),
                Err(e) => e is Sqlite && (old(self).in_memory() ==> final(self).failed_from(
                    old(self),
                )),
            },
    {
        let params = vec![Param::Integer(version as i64), Param::Text(db_name.to_string())];
        proof {
            let p = sqlite::given(params@);
            assert(p =~= seq![Datum::Integer(version as int), Datum::Text(db_name@)]);
            assert forall|t: Tables, t2: Tables, n: int, id: int| #[trigger]
                sqlite::page_changed(sqlite::SET_VERSION@, p, t, t2, n, id) && model::consistent(t)
                    && tables::well_formed(t2) implies model::consistent(t2) by {
                consistency::lemma_same_rows_consistent(t, t2);
            }
        }
        match self.change_alone(sqlite::SET_VERSION, &params) {
            Ok(_) => Ok(()),
            Err(e) => Err(e),
        }
    }
}

/// The pair at a position, or `None` behind the last one.
pub fn pair_at(all: &Vec<(String, String)>, at: usize) -> (r: Option<(String, String)>)
    ensures
        rows::pair_texts(r) == rows::found_at(rows::pairs(all@), at as int),
{
    if at >= all.len() {
        None
    } else {
        Some((all[at].0.clone(), all[at].1.clone()))
    }
}

/// Whether the store is one of those of a transaction.
fn has_store(ctx: &TransactionContext, store_id: i64) -> (r: bool)
    ensures
        r == ctx.store_ids@.contains(store_id),
{
    let mut i: usize = 0;
    while i < ctx.store_ids.len()
        invariant
            i <= ctx.store_ids@.len(),
            forall|j: int| 0 <= j < i ==> #[trigger] ctx.store_ids@[j] != store_id,
        decreases ctx.store_ids@.len() - i,
    {
        if ctx.store_ids[i] == store_id {
            return true;
        }
        i += 1;
    }
    false
}

/// The version that a search of it gives: the one that was found, cut to 32 bits, or 1.
pub open spec fn version_in(found: Result<Option<i64>, StorageError>) -> u32 {
    match found {
        Ok(Some(n)) => n as u32,
        _ => 1,
    }
}

/// The version that a search of it gives.
pub fn version_from(found: Result<Option<i64>, StorageError>) -> (r: u32)
    ensures
        r == version_in(found),
{
    match found {
        Ok(Some(n)) => n as u32,
        _ => 1,
    }
}

/// What undoing leaves where changes upon `l` broke off.
proof fn lemma_undone(l: Seq<Tables>, begun: Seq<Tables>, broken: Seq<Tables>)
    requires
        l.len() > 0,
        begun.len() == l.len() + 1,
        begun.drop_last() == l,
        model::broken_off(begun, broken),
    ensures
        broken.len() > 0,
        broken[0] == l[0],
        broken.len() == 1 || (broken.len() == l.len() + 1 && broken.drop_last() == l),
        l.len() == 1 ==> seq![broken[0]] == l,
        l.len() >= 2 ==> sqlite::after_failure(l, seq![broken[0]]),
{
    assert(begun[0] == l[0]);
    if broken.len() == begun.len() {
        assert(broken.drop_last()[0] == l[0]);
    }
    if l.len() == 1 {
        assert(seq![broken[0]] =~= l);
    }
}

/// What changes upon `l` leave once they are closed.
proof fn lemma_closed(l: Seq<Tables>, begun: Seq<Tables>, done: Seq<Tables>)
    requires
        l.len() > 0,
        begun == l.push(l.last()),
        done == begun.drop_last().push(done.last()),
    ensures
        done.len() == l.len() + 1,
        done.drop_last() == l,
        done.drop_last().drop_last().push(done.last()) == l.drop_last().push(done.last()),
        done[0] == l[0],
        l.len() == 1 ==> seq![done[0]] == l,
{
    assert(begun.drop_last() =~= l);
    assert(done.drop_last() =~= l);
    if l.len() == 1 {
        assert(seq![done[0]] =~= l);
    }
}

/// One object store of a page database.
pub struct IndexedDbStore {
    db: IndexedDb,
    store_id: i64,
}

impl IndexedDbStore {
    /// The database.
    pub closed spec fn database(&self) -> IndexedDb {
        self.db
    }

    /// The id of the store.
    pub closed spec fn id(&self) -> int {
        self.store_id as int
    }

    pub fn new(db: IndexedDb, store_id: i64) -> (r: IndexedDbStore)
        ensures
            r.database() == db,
            r.id() == store_id,
    {
        IndexedDbStore { db, store_id }
    }

    pub fn db(&self) -> (r: &IndexedDb)
        ensures
            *r == self.database(),
    {
        &self.db
    }

    /// The database, to be changed.
    pub fn db_mut(&mut self) -> (r: &mut IndexedDb)
        ensures
            *r == old(self).database(),
            final(self).database() == *final(r),
            final(self).id() == old(self).id(),
    {
        &mut self.db
    }
}

impl StorageBackend for IndexedDbStore {
    open spec fn known(&self) -> bool {
        self.database().in_memory()
    }

    open spec fn found(&self, key: Seq<char>, value: Seq<char>) -> bool {
        model::holds(self.database().tables(), self.id(), key, value)
    }

    open spec fn size(&self) -> nat {
        tables::rows_of(self.database().tables(), self.id()).len()
    }

    fn get(&self, key: &str) -> (r: Result<Option<String>, StorageError>)
        ensures
            exists|a: Option<Seq<Seq<Datum>>>| #[trigger]
                self.database().answered(
                    sqlite::VALUE_OF_KEY@,
                    sqlite::number_and_text(self.id(), key@),
                    a,
                ) && rows::text_answer(a, "value"@, r),
            match r {
                Ok(Some(v)) => self.known() ==> self.found(key@, v@),
                Ok(None) => self.known() ==> tables::rows_with_key(
                    self.database().tables(),
                    self.id(),
                    key@,
                ).len() == 0,
                Err(e) => e is Sqlite || (error::is_misread(e) && !self.known()),
            },
    {
        assert(self.database() == self.db && self.id() == self.store_id as int);
        self.db.get(self.store_id, key)
    }

    fn set(&mut self, key: &str, value: &str) -> (r: Result<(), StorageError>)
        ensures
            final(self).id() == old(self).id(),
            final(self).database().same_handles(&old(self).database()),
            r is Ok ==> exists|a: PutAnswers, nested: bool|
                final(self).database().ran() == old(self).database().ran()
                    + #[trigger] model::as_one(
                    model::put_statements(old(self).id(), Some(key@), value@, a),
                    nested,
                ),
            r matches Err(e) ==> e is Sqlite || e is RollbackFailed || ((error::is_misread(e)
                || e is RepeatedId) && !old(self).known()),
            match r {
                Ok(_) => old(self).known() ==> {
                    &&& final(self).database().changed_to(
                        &old(self).database(),
                        final(self).database().tables(),
                    )
                    &&& model::row_put(
                        old(self).database().tables(),
                        final(self).database().tables(),
                        old(self).id(),
                        Some(key@),
                        value@,
                    )
                },
                Err(e) => final(self).database().gave_up(&old(self).database(), e),
            },
    {
        match self.db.put(self.store_id, Some(key), value) {
            Ok(_) => {
                proof {
                    let t = old(self).database().tables();
                    let t2 = self.database().tables();
                    let id = self.id();
                    if old(self).known() {
                        laws::law_get_gives_what_was_put(t, t2, id, Some(key@), value@);
                        assert forall|k: Seq<char>, v: Seq<char>|
                            k != key@ implies #[trigger] self.found(k, v) == old(self).found(
                            k,
                            v,
                        ) by {
                            laws::law_put_adds_one(t, t2, id, Some(key@), value@, id, k);
                        }
                    }
                }
                Ok(())
            },
            Err(e) => Err(e),
        }
    }

    fn remove(&mut self, key: &str) -> (r: Result<(), StorageError>)
        ensures
            final(self).id() == old(self).id(),
            final(self).database().same_handles(&old(self).database()),
            final(self).database().ran() == if r is Ok {
                old(self).database().ran() + model::change_statements(
                    Change::Delete { store_id: old(self).id(), key: key@ },
                    model::no_answers(),
                )
            } else {
                old(self).database().ran()
            },
            match r {
                Ok(_) => old(self).known() ==> final(self).database().changed_to(
                    &old(self).database(),
                    tables::without_key(old(self).database().tables(), old(self).id(), key@),
                ),
                Err(_) => old(self).known() ==> final(self).database().failed_from(
                    &old(self).database(),
                ),
            },
    {
        match self.db.delete(self.store_id, key) {
            Ok(_) => {
                proof {
                    let t = old(self).database().tables();
                    let id = self.id();
                    laws::law_delete_removes(t, id, key@, id, key@);
                    if old(self).known() {
                        assert forall|k: Seq<char>, v: Seq<char>|
                            k != key@ implies #[trigger] self.found(k, v) == old(self).found(
                            k,
                            v,
                        ) by {
                            laws::law_delete_removes(t, id, key@, id, k);
                        }
                    }
                }
                Ok(())
            },
            Err(e) => Err(e),
        }
    }

    fn clear(&mut self) -> (r: Result<(), StorageError>)
        ensures
            final(self).id() == old(self).id(),
            final(self).database().same_handles(&old(self).database()),
            final(self).database().ran() == if r is Ok {
                old(self).database().ran() + model::change_statements(
                    Change::Clear { store_id: old(self).id() },
                    model::no_answers(),
                )
            } else {
                old(self).database().ran()
            },
            match r {
                Ok(_) => old(self).known() ==> final(self).database().changed_to(
                    &old(self).database(),
                    tables::without_store_rows(old(self).database().tables(), old(self).id()),
                ),
                Err(_) => old(self).known() ==> final(self).database().failed_from(
                    &old(self).database(),
                ),
            },
    {
        match self.db.clear_store(self.store_id) {
            Ok(_) => {
                proof {
                    let t2 = self.database().tables();
                    let id = self.id();
                    laws::law_clear_empties(old(self).database().tables(), id, id);
                    if old(self).known() {
                        assert forall|k: Seq<char>, v: Seq<char>| !#[trigger] self.found(k, v) by {
                            laws::lemma_no_rows_no_keys(t2, id, k);
                        }
                    }
                }
                Ok(())
            },
            Err(e) => Err(e),
        }
    }

    fn keys(&self) -> (r: Result<Vec<String>, StorageError>)
        ensures
            exists|a: Option<Seq<Seq<Datum>>>| #[trigger]
                self.database().answered(sqlite::ALL_KEYS@, seq![Datum::Integer(self.id())], a)
                    && rows::texts_answer(a, "key_val"@, r),
            match r {
                Ok(keys) => self.known() ==> text::texts(keys@).to_multiset() == model::store_keys(
                    self.database().tables(),
                    self.id(),
                ),
                Err(e) => e is Sqlite || (error::is_misread(e) && !self.known()),
            },
    {
        assert(self.database() == self.db && self.id() == self.store_id as int);
        let list = self.db.get_all_keys(self.store_id);
        proof {
            if list is Ok && self.known() {
                assert forall|k: Seq<char>| #[trigger]
                    text::texts(list->Ok_0@).contains(k) <==> exists|v: Seq<char>|
                        self.found(k, v) by {
                    laws::lemma_keys_hold(
                        self.database().tables(),
                        self.id(),
                        text::texts(list->Ok_0@),
                        k,
                    );
                    if exists|v: Seq<char>|
                        model::holds(self.database().tables(), self.id(), k, v) {
                        let v = choose|v: Seq<char>|
                            model::holds(self.database().tables(), self.id(), k, v);
                        assert(self.found(k, v));
                    }
                }
            }
        }
        list
    }

    fn len(&self) -> (r: Result<usize, StorageError>)
        ensures
            exists|a: Option<Seq<Seq<Datum>>>| #[trigger]
                self.database().answered(sqlite::COUNT_ROWS@, seq![Datum::Integer(self.id())], a)
                    && rows::count_answer(a, "COUNT(*)"@, r),
    {
        assert(self.database() == self.db && self.id() == self.store_id as int);
        self.db.count(self.store_id)
    }

    fn contains_key(&self, key: &str) -> (r: Result<bool, StorageError>)
        ensures
            exists|a: Option<Seq<Seq<Datum>>>| #[trigger]
                self.database().answered(
                    sqlite::VALUE_OF_KEY@,
                    sqlite::number_and_text(self.id(), key@),
                    a,
                ) && match r {
                    Ok(b) => a is Some && b == (a->0.len() > 0) && (b ==> rows::text_of(a->0[0])
                        is Some),
                    Err(e) => rows::text_answer(a, "value"@, Err(e)),
                },
    {
        assert(self.database() == self.db && self.id() == self.store_id as int);
        match self.db.get(self.store_id, key) {
            Ok(found) => {
                proof {
                    if found is Some && self.known() {
                        assert(self.found(key@, found->0@));
                    }
                }
                Ok(found.is_some())
            },
            Err(e) => Err(e),
        }
    }
}

/// The version of a database is the one that was found, of which the lower 32 bits count,
/// and 1 where none was found.
pub proof fn law_version_that_was_found(n: i64, found: Result<Option<i64>, StorageError>)
    ensures
        0 <= n <= u32::MAX ==> version_in(Ok(Some(n))) == n,
        version_in(Ok(Some(n))) == n & 0xffff_ffff,
        found is Err || found->Ok_0 is None ==> version_in(found) == 1,
{
    assert(n as u32 == n & 0xffff_ffff) by (bit_vector);
    if 0 <= n <= u32::MAX {
        assert(n as u32 == n);
    }
}

/// Where the open transactions and cursors are the same, all of them are, and so are the
/// next id and the path.
pub proof fn law_handles_are_the_same(a: &IndexedDb, b: &IndexedDb)
    ensures
        a.same_handles(b) <==> a.transactions() == b.transactions() && a.cursors() == b.cursors()
            && a.next_id() == b.next_id() && a.path() == b.path(),
        a.same_tables(b) <==> a.layers() == b.layers() && a.path() == b.path() && a.ran()
            == b.ran(),
{
}

/// Changes replace the present tables and leave those below them.
pub proof fn law_changes_replace_the_present_tables(a: &IndexedDb, b: &IndexedDb, t: Tables, i: int)
    requires
        b.layers().len() > 0,
        a.changed_to(b, t),
    ensures
        a.tables() == t,
        b.tables() == b.layers()[b.layers().len() - 1],
        a.layers().len() == b.layers().len(),
        0 <= i < b.layers().len() - 1 ==> a.layers()[i] == b.layers()[i],
{
}

/// Changes that were given up leave the tables as they were, unless SQLite ended an open
/// transaction or could not undo them.
pub proof fn law_what_is_given_up_is_undone(a: &IndexedDb, b: &IndexedDb, e: StorageError)
    requires
        b.in_memory(),
        a.gave_up(b, e),
    ensures
        a.layers().len() > 0,
        a.layers()[0] == b.layers()[0],
        e is RollbackFailed || e is Sqlite,
        !(e is RollbackFailed) && b.layers().len() == 1 ==> a.layers() == b.layers(),
        e is RollbackFailed ==> a.layers().len() == b.layers().len() + 1 && a.layers().drop_last()
            == b.layers(),
{
    if e is RollbackFailed {
        assert(a.layers().drop_last()[0] == a.layers()[0]);
    }
}

/// A store finds a value under a key where its database holds it there, and its size is
/// the number of its rows.
pub proof fn law_store_finds_what_it_holds(s: &IndexedDbStore, key: Seq<char>, value: Seq<char>)
    ensures
        s.found(key, value) <==> model::holds(s.database().tables(), s.id(), key, value),
        s.size() == tables::rows_of(s.database().tables(), s.id()).len(),
        s.known() <==> s.database().in_memory(),
{
}

/// A statement that failed leaves the committed tables.
pub proof fn law_failure_leaves_the_tables(a: &IndexedDb, b: &IndexedDb)
    requires
        b.sound(),
        a.failed_from(b),
    ensures
        a.layers().len() > 0,
        a.layers()[0] == b.layers()[0],
        b.layers().len() == 1 ==> a.layers() == b.layers(),
{
}

} // verus!
