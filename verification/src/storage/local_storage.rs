//! The local storage of an origin: one value under each key.

use crate::storage::error;
use crate::storage::error::StorageError;
use crate::storage::rows;
use crate::storage::sqlite;
use crate::storage::sqlite::{Datum, Param, Statement};
use crate::storage::traits::StorageBackend;
use crate::text;
use vstd::prelude::*;

verus! {

/// Keys and values in a database of their own.
pub struct LocalStorage {
    conn: rusqlite::Connection,
}

impl LocalStorage {
    /// Whether the storage is one in memory, of which the contracts speak.
    pub closed spec fn in_memory(&self) -> bool {
        sqlite::local_layers(self.conn).len() == 1
    }

    /// What a storage in memory holds.
    pub closed spec fn contents(&self) -> Map<Seq<char>, Seq<char>> {
        sqlite::local_layers(self.conn)[0]
    }

    /// The path of the file that the storage was opened in.
    pub closed spec fn path(&self) -> Option<std::path::PathBuf> {
        sqlite::opened_path(self.conn)
    }

    /// What was run on the storage without an error, queries aside.
    pub closed spec fn ran(&self) -> Seq<Statement> {
        sqlite::statements(self.conn)
    }

    /// Whether the query with these values was answered with these rows or, where there
    /// are none, with an error.
    pub closed spec fn answered(
        &self,
        sql: Seq<char>,
        values: Seq<Datum>,
        answer: Option<Seq<Seq<Datum>>>,
    ) -> bool {
        sqlite::answered(self.conn, sql, values, answer)
    }

    /// Whether this is what `other` is after one statement, which ran without an error
    /// or, with one, did not.
    pub open spec fn ran_after(
        &self,
        other: &LocalStorage,
        sql: Seq<char>,
        values: Seq<Datum>,
        done: bool,
    ) -> bool {
        &&& self.path() == other.path()
        &&& self.ran() == if done {
            other.ran().push(Statement { sql, values })
        } else {
            other.ran()
        }
    }

    /// Opens the storage in a file, which is made where there is none, as is its table.
    pub fn open(path: std::path::PathBuf) -> (r: Result<LocalStorage, StorageError>)
        ensures
            match r {
                Ok(s) => s.path() == Some(path) && s.ran() == seq![
                    Statement { sql: sqlite::LOCAL_SCHEMA@, values: Seq::empty() },
                ],
                Err(e) => e is Sqlite,
            },
    {
        match sqlite::open_file(path) {
            Ok(mut conn) => match sqlite::execute_batch(&mut conn, sqlite::LOCAL_SCHEMA) {
                Ok(_) => {
                    let s = LocalStorage { conn };
                    assert(s.ran() =~= seq![
                        Statement { sql: sqlite::LOCAL_SCHEMA@, values: Seq::empty() },
                    ]);
                    Ok(s)
                },
                Err(e) => Err(StorageError::Sqlite(e)),
            },
            Err(e) => Err(StorageError::Sqlite(e)),
        }
    }

    /// Opens a new storage in memory.
    pub fn open_memory() -> (r: Result<LocalStorage, StorageError>)
        ensures
            match r {
                Ok(s) => s.in_memory() && s.contents() == Map::<Seq<char>, Seq<char>>::empty()
                    && s.path() is None,
                Err(e) => e is Sqlite,
            },
    {
        match sqlite::open_in_memory() {
            Ok(mut conn) => match sqlite::execute_batch(&mut conn, sqlite::LOCAL_SCHEMA) {
                Ok(_) => {
                    let s = LocalStorage { conn };
                    assert(s.ran() =~= seq![
                        Statement { sql: sqlite::LOCAL_SCHEMA@, values: Seq::empty() },
                    ]);
                    Ok(s)
                },
                Err(e) => Err(StorageError::Sqlite(e)),
            },
            Err(e) => Err(StorageError::Sqlite(e)),
        }
    }

    /// Runs one statement that changes the storage.
    fn change(&mut self, sql: &str, params: &Vec<Param>) -> (r: Result<(), StorageError>)
        requires
            sqlite::is_local_change(sql@),
        ensures
            old(self).in_memory() ==> final(self).in_memory(),
            final(self).ran_after(old(self), sql@, sqlite::given(params@), r is Ok),
            match r {
                Ok(_) => old(self).in_memory() ==> sqlite::local_changed(
                    sql@,
                    sqlite::given(params@),
                    old(self).contents(),
                    final(self).contents(),
                ),
                Err(e) => e is Sqlite && (old(self).in_memory() ==> final(self).contents()
                    == old(self).contents()),
            },
    {
        match sqlite::execute(&mut self.conn, sql, params) {
            Ok(_) => Ok(()),
            Err(e) => Err(StorageError::Sqlite(e)),
        }
    }
}

impl StorageBackend for LocalStorage {
    open spec fn known(&self) -> bool {
        self.in_memory()
    }

    open spec fn found(&self, key: Seq<char>, value: Seq<char>) -> bool {
        self.contents().contains_key(key) && self.contents()[key] == value
    }

    open spec fn size(&self) -> nat {
        self.contents().dom().len()
    }

    fn get(&self, key: &str) -> (r: Result<Option<String>, StorageError>)
        ensures
            exists|a: Option<Seq<Seq<Datum>>>| #[trigger]
                self.answered(sqlite::LOCAL_GET@, seq![Datum::Text(key@)], a) && rows::text_answer(
                    a,
                    "value"@,
                    r,
                ),
            match r {
                Ok(Some(v)) => self.in_memory() ==> self.contents().contains_key(key@)
                    && self.contents()[key@] == v@,
                Ok(None) => self.in_memory() ==> !self.contents().contains_key(key@),
                Err(e) => e is Sqlite || (error::is_misread(e) && !self.in_memory()),
            },
    {
        let params = vec![Param::Text(key.to_string())];
        let ghost values = seq![Datum::Text(key@)];
        assert(sqlite::given(params@) =~= values);
        match sqlite::query(&self.conn, sqlite::LOCAL_GET, &params) {
            Ok(found) => {
                assert(self.answered(sqlite::LOCAL_GET@, values, Some(sqlite::table(found@))));
                rows::first_text(&found, "value")
            },
            Err(e) => {
                assert(self.answered(sqlite::LOCAL_GET@, values, None));
                Err(StorageError::Sqlite(e))
            },
        }
    }

    fn set(&mut self, key: &str, value: &str) -> (r: Result<(), StorageError>)
        ensures
            old(self).in_memory() ==> final(self).contents() == if r is Ok {
                old(self).contents().insert(key@, value@)
            } else {
                old(self).contents()
            },
            final(self).ran_after(
                old(self),
                sqlite::LOCAL_SET@,
                seq![Datum::Text(key@), Datum::Text(value@)],
                r is Ok,
            ),
            r matches Err(e) ==> e is Sqlite,
    {
        let params = vec![Param::Text(key.to_string()), Param::Text(value.to_string())];
        assert(sqlite::given(params@) =~= seq![Datum::Text(key@), Datum::Text(value@)]);
        self.change(sqlite::LOCAL_SET, &params)
    }

    fn remove(&mut self, key: &str) -> (r: Result<(), StorageError>)
        ensures
            old(self).in_memory() ==> final(self).contents() == if r is Ok {
                old(self).contents().remove(key@)
            } else {
                old(self).contents()
            },
            final(self).ran_after(
                old(self),
                sqlite::LOCAL_REMOVE@,
                seq![Datum::Text(key@)],
                r is Ok,
            ),
    {
        let params = vec![Param::Text(key.to_string())];
        assert(sqlite::given(params@) =~= seq![Datum::Text(key@)]);
        self.change(sqlite::LOCAL_REMOVE, &params)
    }

    fn clear(&mut self) -> (r: Result<(), StorageError>)
        ensures
            old(self).in_memory() ==> final(self).contents() == if r is Ok {
                Map::<Seq<char>, Seq<char>>::empty()
            } else {
                old(self).contents()
            },
            final(self).ran_after(old(self), sqlite::LOCAL_CLEAR@, Seq::empty(), r is Ok),
    {
        let params: Vec<Param> = Vec::new();
        assert(sqlite::given(params@) =~= Seq::<Datum>::empty());
        self.change(sqlite::LOCAL_CLEAR, &params)
    }

    fn keys(&self) -> (r: Result<Vec<String>, StorageError>)
        ensures
            exists|a: Option<Seq<Seq<Datum>>>| #[trigger]
                self.answered(sqlite::LOCAL_KEYS@, Seq::empty(), a) && rows::texts_answer(
                    a,
                    "key"@,
                    r,
                ),
            match r {
                Ok(keys) => self.in_memory() ==> text::texts(keys@).no_duplicates() && text::texts(
                    keys@,
                ).to_set() == self.contents().dom(),
                Err(e) => e is Sqlite || (error::is_misread(e) && !self.in_memory()),
            },
    {
        let params: Vec<Param> = Vec::new();
        assert(sqlite::given(params@) =~= Seq::<Datum>::empty());
        match sqlite::query(&self.conn, sqlite::LOCAL_KEYS, &params) {
            Ok(found) => {
                let list = rows::first_texts(&found, "key");
                proof {
                    assert(self.answered(
                        sqlite::LOCAL_KEYS@,
                        Seq::empty(),
                        Some(sqlite::table(found@)),
                    ));
                    if self.in_memory() {
                        let m = self.contents();
                        let f = |k: Seq<char>| seq![Datum::Text(k)];
                        let keys = choose|keys: Seq<Seq<char>>|
                            #[trigger] keys.no_duplicates() && keys.to_set() == m.dom()
                                && sqlite::table(found@) == keys.map_values(f);
                        assert(sqlite::table(found@).len() == found@.len());
                        assert(keys.map_values(f).len() == keys.len());
                        assert forall|j: int| 0 <= j < found@.len() implies rows::text_of(
                            #[trigger] sqlite::table(found@)[j],
                        ) == Some(keys[j]) by {
                            assert(keys.map_values(f)[j] == f(keys[j]));
                        }
                        assert(list is Ok);
                        assert forall|j: int| 0 <= j < found@.len() implies text::texts(
                            list->Ok_0@,
                        )[j] == #[trigger] keys[j] by {
                            assert(rows::text_of(sqlite::table(found@)[j]) is Some);
                        }
                        assert(text::texts(list->Ok_0@) =~= keys);
                        assert forall|k: Seq<char>| #[trigger] keys.contains(k) <==> exists|
                            v: Seq<char>,
                        | self.found(k, v) by {
                            assert(keys.contains(k) <==> keys.to_set().contains(k));
                            if m.contains_key(k) {
                                assert(self.found(k, m[k]));
                            }
                        }
                    }
                }
                list
            },
            Err(e) => {
                assert(self.answered(sqlite::LOCAL_KEYS@, Seq::empty(), None));
                Err(StorageError::Sqlite(e))
            },
        }
    }

    fn len(&self) -> (r: Result<usize, StorageError>)
        ensures
            exists|a: Option<Seq<Seq<Datum>>>| #[trigger]
                self.answered(sqlite::LOCAL_LEN@, Seq::empty(), a) && rows::count_answer(
                    a,
                    "COUNT(*)"@,
                    r,
                ),
    {
        let params: Vec<Param> = Vec::new();
        assert(sqlite::given(params@) =~= Seq::<Datum>::empty());
        match sqlite::query(&self.conn, sqlite::LOCAL_LEN, &params) {
            Ok(found) => {
                let ghost a = Some(sqlite::table(found@));
                assert(self.answered(sqlite::LOCAL_LEN@, Seq::empty(), a));
                match rows::first_integer(&found, "COUNT(*)") {
                    Ok(n) => {
                        assert(rows::integer_answer(a, "COUNT(*)"@, Ok(n)));
                        Ok(n as usize)
                    },
                    Err(e) => Err(e),
                }
            },
            Err(e) => {
                assert(self.answered(sqlite::LOCAL_LEN@, Seq::empty(), None));
                Err(StorageError::Sqlite(e))
            },
        }
    }

    fn contains_key(&self, key: &str) -> (r: Result<bool, StorageError>)
        ensures
            exists|a: Option<Seq<Seq<Datum>>>| #[trigger]
                self.answered(sqlite::LOCAL_HAS@, seq![Datum::Text(key@)], a) && match r {
                    Ok(b) => a is Some && b == (a->0.len() > 0),
                    Err(_) => a is None,
                },
            match r {
                Ok(b) => self.in_memory() ==> b == self.contents().contains_key(key@),
                Err(e) => e is Sqlite,
            },
    {
        let params = vec![Param::Text(key.to_string())];
        let ghost values = seq![Datum::Text(key@)];
        assert(sqlite::given(params@) =~= values);
        match sqlite::query(&self.conn, sqlite::LOCAL_HAS, &params) {
            Ok(found) => {
                assert(sqlite::table(found@).len() == found@.len());
                proof {
                    assert(self.answered(
                        sqlite::LOCAL_HAS@,
                        values,
                        Some(sqlite::table(found@)),
                    ));
                    if self.contents().contains_key(key@) {
                        assert(self.found(key@, self.contents()[key@]));
                    }
                }
                Ok(found.len() > 0)
            },
            Err(e) => {
                assert(self.answered(sqlite::LOCAL_HAS@, values, None));
                Err(StorageError::Sqlite(e))
            },
        }
    }
}

/// A get gives what was set last under the key, nothing after a remove, and what it
/// gave before where another key was meant. Setting a key again adds no entry.
pub proof fn law_get_gives_what_was_set(
    m: Map<Seq<char>, Seq<char>>,
    key: Seq<char>,
    value: Seq<char>,
    other: Seq<char>,
)
    requires
        m.dom().finite(),
    ensures
        m.insert(key, value).contains_key(key) && m.insert(key, value)[key] == value,
        !m.remove(key).contains_key(key),
        other != key ==> m.insert(key, value).contains_key(other) == m.contains_key(other)
            && m.remove(key).contains_key(other) == m.contains_key(other),
        other != key && m.contains_key(other) ==> m.insert(key, value)[other] == m[other]
            && m.remove(key)[other] == m[other],
        m.insert(key, value).dom().len() == m.dom().len() + if m.contains_key(key) {
            0int
        } else {
            1
        },
{
    assert(m.insert(key, value).dom() =~= m.dom().insert(key));
}

/// A value is found under a key where the storage holds it there, and the size is the
/// number of keys.
pub proof fn law_storage_finds_what_it_holds(s: &LocalStorage, key: Seq<char>, value: Seq<char>)
    ensures
        s.found(key, value) <==> s.contents().contains_key(key) && s.contents()[key] == value,
        s.size() == s.contents().dom().len(),
        s.known() <==> s.in_memory(),
{
}

/// A statement that ran is added behind those that ran before, and one that did not run
/// is not.
pub proof fn law_statements_are_added(
    s: &LocalStorage,
    other: &LocalStorage,
    sql: Seq<char>,
    values: Seq<Datum>,
)
    ensures
        s.ran_after(other, sql, values, true) ==> s.ran() == other.ran().push(
            Statement { sql, values },
        ) && s.path() == other.path(),
        s.ran_after(other, sql, values, false) ==> s.ran() == other.ran() && s.path()
            == other.path(),
{
}

} // verus!
