//! The tables of a page database and what changes them.

use vstd::multiset::Multiset;
use vstd::prelude::*;

verus! {

/// A row of `object_stores`.
pub struct StoreRow {
    pub id: int,
    pub db_name: Seq<char>,
    pub store_name: Seq<char>,
    pub key_path: Option<Seq<char>>,
    pub auto_increment: bool,
}

/// A row of `store_data`.
pub struct DataRow {
    pub id: int,
    pub store_id: int,
    pub key: Option<Seq<char>>,
    pub value: Seq<char>,
}

/// A row of `store_indexes`.
pub struct IndexRow {
    pub id: int,
    pub store_id: int,
    pub name: Seq<char>,
    pub key_path: Seq<char>,
}

/// A row of `store_index_data`.
pub struct EntryRow {
    pub index_id: int,
    pub key: Seq<char>,
    pub row_id: int,
}

/// The tables of a page database. The rows with an id of their own stand in the
/// order of their ids; the largest id that a row of a table ever had is kept with it.
pub struct Tables {
    pub versions: Map<Seq<char>, int>,
    pub stores: Seq<StoreRow>,
    pub last_store: int,
    pub rows: Seq<DataRow>,
    pub last_row: int,
    pub indexes: Seq<IndexRow>,
    pub last_index: int,
    pub entries: Multiset<EntryRow>,
}

/// A page database without any row.
pub open spec fn no_rows() -> Tables {
    Tables {
        versions: Map::empty(),
        stores: Seq::empty(),
        last_store: 0,
        rows: Seq::empty(),
        last_row: 0,
        indexes: Seq::empty(),
        last_index: 0,
        entries: Multiset::empty(),
    }
}

/// Whether there is an object store with this id.
pub open spec fn has_store(t: Tables, id: int) -> bool {
    exists|i: int| 0 <= i < t.stores.len() && (#[trigger] t.stores[i]).id == id
}

/// Whether there is a data row with this id.
pub open spec fn has_row(t: Tables, id: int) -> bool {
    exists|i: int| 0 <= i < t.rows.len() && (#[trigger] t.rows[i]).id == id
}

/// Whether there is an index with this id.
pub open spec fn has_index(t: Tables, id: int) -> bool {
    exists|i: int| 0 <= i < t.indexes.len() && (#[trigger] t.indexes[i]).id == id
}

/// The data row with this id.
pub open spec fn row_with(t: Tables, id: int) -> DataRow {
    t.rows[choose|i: int| 0 <= i < t.rows.len() && (#[trigger] t.rows[i]).id == id]
}

/// The stores of this name.
pub open spec fn stores_named(t: Tables, db: Seq<char>, name: Seq<char>) -> Seq<StoreRow> {
    t.stores.filter(|s: StoreRow| s.db_name == db && s.store_name == name)
}

/// The indexes of this name.
pub open spec fn indexes_named(t: Tables, store_id: int, name: Seq<char>) -> Seq<IndexRow> {
    t.indexes.filter(|x: IndexRow| x.store_id == store_id && x.name == name)
}

/// The indexes of a store.
pub open spec fn indexes_of(t: Tables, store_id: int) -> Seq<IndexRow> {
    t.indexes.filter(|x: IndexRow| x.store_id == store_id)
}

/// The data rows of a store.
pub open spec fn rows_of(t: Tables, store_id: int) -> Seq<DataRow> {
    t.rows.filter(|r: DataRow| r.store_id == store_id)
}

/// The data rows of a store with this key.
pub open spec fn rows_with_key(t: Tables, store_id: int, key: Seq<char>) -> Seq<DataRow> {
    t.rows.filter(|r: DataRow| r.store_id == store_id && r.key == Some(key))
}

/// The entries of an index for this key that lead to a row.
pub open spec fn entries_of(t: Tables, index_id: int, key: Seq<char>) -> Multiset<EntryRow> {
    t.entries.filter(
        |e: EntryRow| e.index_id == index_id && e.key == key && has_row(t, e.row_id),
    )
}

/// `t` with one database more.
pub open spec fn with_database(t: Tables, name: Seq<char>) -> Tables {
    if t.versions.contains_key(name) {
        t
    } else {
        Tables { versions: t.versions.insert(name, 1), ..t }
    }
}

/// `t` with another version of a database, where it exists.
pub open spec fn with_version(t: Tables, name: Seq<char>, version: int) -> Tables {
    if t.versions.contains_key(name) {
        Tables { versions: t.versions.insert(name, version), ..t }
    } else {
        t
    }
}

/// `t` with one data row more.
pub open spec fn with_row(
    t: Tables,
    id: int,
    store_id: int,
    key: Option<Seq<char>>,
    value: Seq<char>,
) -> Tables {
    Tables { rows: t.rows.push(DataRow { id, store_id, key, value }), last_row: id, ..t }
}

/// Whether one of the rows that `gone` picks has this id.
pub open spec fn picks_row(t: Tables, gone: spec_fn(DataRow) -> bool, id: int) -> bool {
    exists|i: int| 0 <= i < t.rows.len() && (#[trigger] t.rows[i]).id == id && gone(t.rows[i])
}

/// `t` without the data rows that `gone` picks, and without the index entries that
/// lead to them.
pub open spec fn without_rows(t: Tables, gone: spec_fn(DataRow) -> bool) -> Tables {
    Tables {
        rows: t.rows.filter(|r: DataRow| !gone(r)),
        entries: t.entries.filter(|e: EntryRow| !picks_row(t, gone, e.row_id)),
        ..t
    }
}

/// `t` without the data rows of a store that have this key.
pub open spec fn without_key(t: Tables, store_id: int, key: Seq<char>) -> Tables {
    without_rows(t, |r: DataRow| r.store_id == store_id && r.key == Some(key))
}

/// `t` without the data rows of a store.
pub open spec fn without_store_rows(t: Tables, store_id: int) -> Tables {
    without_rows(t, |r: DataRow| r.store_id == store_id)
}

/// `t` without the data row with this id.
pub open spec fn without_row(t: Tables, id: int) -> Tables {
    without_rows(t, |r: DataRow| r.id == id)
}

/// `t` without the entries of an index.
pub open spec fn without_entries(t: Tables, index_id: int) -> Tables {
    Tables { entries: t.entries.filter(|e: EntryRow| e.index_id != index_id), ..t }
}

/// `t` with one index entry more.
pub open spec fn with_entry(t: Tables, index_id: int, key: Seq<char>, row_id: int) -> Tables {
    Tables { entries: t.entries.insert(EntryRow { index_id, key, row_id }), ..t }
}

/// Whether one of the indexes of this name has this id.
pub open spec fn names_index(t: Tables, store_id: int, name: Seq<char>, id: int) -> bool {
    exists|i: int|
        0 <= i < t.indexes.len() && (#[trigger] t.indexes[i]).id == id && t.indexes[i].store_id
            == store_id && t.indexes[i].name == name
}

/// `t` without the indexes of this name and without their entries.
pub open spec fn without_index(t: Tables, store_id: int, name: Seq<char>) -> Tables {
    Tables {
        indexes: t.indexes.filter(|x: IndexRow| !(x.store_id == store_id && x.name == name)),
        entries: t.entries.filter(|e: EntryRow| !names_index(t, store_id, name, e.index_id)),
        ..t
    }
}

/// `t` with one object store more.
pub open spec fn with_store(t: Tables, store: StoreRow) -> Tables {
    Tables { stores: t.stores.push(store), last_store: store.id, ..t }
}

/// `t` with another key on the data row with this id.
pub open spec fn with_key(t: Tables, id: int, key: Seq<char>) -> Tables {
    Tables {
        rows: t.rows.map_values(
            |r: DataRow|
                if r.id == id {
                    DataRow { key: Some(key), ..r }
                } else {
                    r
                },
        ),
        ..t
    }
}

/// `t` with another key path on the index with this id.
pub open spec fn with_path(t: Tables, id: int, key_path: Seq<char>) -> Tables {
    Tables {
        indexes: t.indexes.map_values(
            |x: IndexRow|
                if x.id == id {
                    IndexRow { key_path, ..x }
                } else {
                    x
                },
        ),
        ..t
    }
}

/// `t` with one index more.
pub open spec fn with_index(t: Tables, index: IndexRow) -> Tables {
    Tables { indexes: t.indexes.push(index), last_index: index.id, ..t }
}

/// The ids of the object stores are those that were given out, in order.
pub open spec fn stores_in_order(t: Tables) -> bool {
    &&& forall|i: int| 0 <= i < t.stores.len() ==> 0 < (#[trigger] t.stores[i]).id <= t.last_store
    &&& forall|i: int, j: int|
        0 <= i < j < t.stores.len() ==> (#[trigger] t.stores[i]).id < (#[trigger] t.stores[j]).id
}

/// The ids of the data rows are those that were given out, in order.
pub open spec fn rows_in_order(t: Tables) -> bool {
    &&& forall|i: int| 0 <= i < t.rows.len() ==> 0 < (#[trigger] t.rows[i]).id <= t.last_row
    &&& forall|i: int, j: int|
        0 <= i < j < t.rows.len() ==> (#[trigger] t.rows[i]).id < (#[trigger] t.rows[j]).id
}

/// The ids of the indexes are those that were given out, in order.
pub open spec fn indexes_in_order(t: Tables) -> bool {
    &&& forall|i: int|
        0 <= i < t.indexes.len() ==> 0 < (#[trigger] t.indexes[i]).id <= t.last_index
    &&& forall|i: int, j: int|
        0 <= i < j < t.indexes.len() ==> (#[trigger] t.indexes[i]).id < (
        #[trigger] t.indexes[j]).id
}

/// A database holds at most one store of a name, and a store at most one index.
pub open spec fn names_differ(t: Tables) -> bool {
    &&& forall|i: int, j: int|
        0 <= i < j < t.stores.len() ==> !((#[trigger] t.stores[i]).db_name == (
        #[trigger] t.stores[j]).db_name && t.stores[i].store_name == t.stores[j].store_name)
    &&& forall|i: int, j: int|
        0 <= i < j < t.indexes.len() ==> !((#[trigger] t.indexes[i]).store_id == (
        #[trigger] t.indexes[j]).store_id && t.indexes[i].name == t.indexes[j].name)
}

/// What a row refers to exists.
pub open spec fn references_hold(t: Tables) -> bool {
    &&& forall|i: int|
        0 <= i < t.stores.len() ==> t.versions.contains_key((#[trigger] t.stores[i]).db_name)
    &&& forall|i: int| 0 <= i < t.rows.len() ==> has_store(t, (#[trigger] t.rows[i]).store_id)
    &&& forall|i: int|
        0 <= i < t.indexes.len() ==> has_store(t, (#[trigger] t.indexes[i]).store_id)
    &&& forall|e: EntryRow| #[trigger]
        t.entries.count(e) > 0 ==> has_index(t, e.index_id) && has_row(t, e.row_id)
}

/// What holds of the tables at all times.
pub open spec fn well_formed(t: Tables) -> bool {
    &&& 0 <= t.last_store
    &&& 0 <= t.last_row
    &&& 0 <= t.last_index
    &&& stores_in_order(t)
    &&& rows_in_order(t)
    &&& indexes_in_order(t)
    &&& names_differ(t)
    &&& references_hold(t)
}

/// A filter keeps the order.
pub proof fn lemma_filter_keeps_order<A>(s: Seq<A>, p: spec_fn(A) -> bool, key: spec_fn(A) -> int)
    requires
        forall|i: int, j: int| 0 <= i < j < s.len() ==> #[trigger] key(s[i]) < #[trigger] key(s[j]),
    ensures
        forall|i: int, j: int|
            0 <= i < j < s.filter(p).len() ==> #[trigger] key(s.filter(p)[i]) < #[trigger] key(
                s.filter(p)[j],
            ),
        forall|i: int|
            0 <= i < s.filter(p).len() ==> s.contains(#[trigger] s.filter(p)[i]) && p(
                s.filter(p)[i],
            ),
    decreases s.len(),
{
    reveal(Seq::filter);
    if s.len() > 0 {
        let front = s.drop_last();
        assert forall|i: int, j: int| 0 <= i < j < front.len() implies #[trigger] key(front[i])
            < #[trigger] key(front[j]) by {
            assert(key(s[i]) < key(s[j]));
        }
        lemma_filter_keeps_order(front, p, key);
        assert forall|i: int| 0 <= i < s.filter(p).len() implies s.contains(
            #[trigger] s.filter(p)[i],
        ) && p(s.filter(p)[i]) by {
            if i < front.filter(p).len() {
                assert(front.contains(front.filter(p)[i]));
                let k = choose|k: int| 0 <= k < front.len() && front[k] == front.filter(p)[i];
                assert(s[k] == s.filter(p)[i]);
            } else {
                assert(s[s.len() - 1] == s.filter(p)[i]);
            }
        }
        if p(s.last()) {
            assert forall|i: int, j: int| 0 <= i < j < s.filter(p).len() implies #[trigger] key(
                s.filter(p)[i],
            ) < #[trigger] key(s.filter(p)[j]) by {
                if j == front.filter(p).len() {
                    assert(front.contains(front.filter(p)[i]));
                    let k = choose|k: int| 0 <= k < front.len() && front[k] == front.filter(p)[i];
                    assert(key(s[k]) < key(s[s.len() - 1]));
                } else {
                    assert(key(front.filter(p)[i]) < key(front.filter(p)[j]));
                }
            }
        }
    }
}

/// An element that passes is kept.
proof fn lemma_filter_keeps<A>(s: Seq<A>, p: spec_fn(A) -> bool, i: int)
    requires
        0 <= i < s.len(),
        p(s[i]),
    ensures
        s.filter(p).contains(s[i]),
{
    s.lemma_filter_contains(p, i);
}

pub proof fn lemma_no_rows_well_formed()
    ensures
        well_formed(no_rows()),
{
}

pub proof fn lemma_database_keeps(t: Tables, name: Seq<char>, version: int)
    requires
        well_formed(t),
    ensures
        well_formed(with_database(t, name)),
        well_formed(with_version(t, name, version)),
{
    lemma_same_references(t, with_database(t, name));
    lemma_same_references(t, with_version(t, name, version));
}

/// The references of rows, indexes and entries depend on the tables that they lead
/// to alone.
pub proof fn lemma_same_references(t: Tables, u: Tables)
    requires
        t.stores == u.stores,
        t.rows == u.rows,
        t.indexes == u.indexes,
    ensures
        forall|id: int| has_store(t, id) == has_store(u, id),
        forall|id: int| has_row(t, id) == has_row(u, id),
        forall|id: int| has_index(t, id) == has_index(u, id),
{
}

/// A larger table still holds what it held.
proof fn lemma_more_rows(t: Tables, u: Tables)
    requires
        t.stores == u.stores || (u.stores.len() > 0 && t.stores == u.stores.drop_last()),
        t.rows == u.rows || (u.rows.len() > 0 && t.rows == u.rows.drop_last()),
        t.indexes == u.indexes || (u.indexes.len() > 0 && t.indexes == u.indexes.drop_last()),
    ensures
        forall|id: int| has_store(t, id) ==> has_store(u, id),
        forall|id: int| has_row(t, id) ==> has_row(u, id),
        forall|id: int| has_index(t, id) ==> has_index(u, id),
{
    assert forall|id: int| has_store(t, id) implies has_store(u, id) by {
        let i = choose|i: int| 0 <= i < t.stores.len() && (#[trigger] t.stores[i]).id == id;
        assert(u.stores[i].id == id);
    }
    assert forall|id: int| has_row(t, id) implies has_row(u, id) by {
        let i = choose|i: int| 0 <= i < t.rows.len() && (#[trigger] t.rows[i]).id == id;
        assert(u.rows[i].id == id);
    }
    assert forall|id: int| has_index(t, id) implies has_index(u, id) by {
        let i = choose|i: int| 0 <= i < t.indexes.len() && (#[trigger] t.indexes[i]).id == id;
        assert(u.indexes[i].id == id);
    }
}

pub proof fn lemma_store_keeps(t: Tables, store: StoreRow)
    requires
        well_formed(t),
        t.last_store < store.id,
        t.versions.contains_key(store.db_name),
        stores_named(t, store.db_name, store.store_name).len() == 0,
    ensures
        well_formed(with_store(t, store)),
{
    let u = with_store(t, store);
    assert(u.stores.drop_last() =~= t.stores);
    lemma_more_rows(t, u);
    assert forall|i: int| 0 <= i < t.stores.len() implies !((#[trigger] t.stores[i]).db_name
        == store.db_name && t.stores[i].store_name == store.store_name) by {
        let p = |s: StoreRow| s.db_name == store.db_name && s.store_name == store.store_name;
        if p(t.stores[i]) {
            lemma_filter_keeps(t.stores, p, i);
        }
    }
}

pub proof fn lemma_index_keeps(t: Tables, index: IndexRow)
    requires
        well_formed(t),
        t.last_index < index.id,
        has_store(t, index.store_id),
        indexes_named(t, index.store_id, index.name).len() == 0,
    ensures
        well_formed(with_index(t, index)),
{
    let u = with_index(t, index);
    assert(u.indexes.drop_last() =~= t.indexes);
    lemma_more_rows(t, u);
    assert forall|i: int| 0 <= i < t.indexes.len() implies !((#[trigger] t.indexes[i]).store_id
        == index.store_id && t.indexes[i].name == index.name) by {
        let p = |x: IndexRow| x.store_id == index.store_id && x.name == index.name;
        if p(t.indexes[i]) {
            lemma_filter_keeps(t.indexes, p, i);
        }
    }
}

pub proof fn lemma_row_keeps(
    t: Tables,
    id: int,
    store_id: int,
    key: Option<Seq<char>>,
    value: Seq<char>,
)
    requires
        well_formed(t),
        t.last_row < id,
        has_store(t, store_id),
    ensures
        well_formed(with_row(t, id, store_id, key, value)),
{
    let u = with_row(t, id, store_id, key, value);
    assert(u.rows.drop_last() =~= t.rows);
    lemma_more_rows(t, u);
}

pub proof fn lemma_removal_keeps(t: Tables, gone: spec_fn(DataRow) -> bool)
    requires
        well_formed(t),
    ensures
        well_formed(without_rows(t, gone)),
{
    let u = without_rows(t, gone);
    let p = |r: DataRow| !gone(r);
    lemma_filter_keeps_order(t.rows, p, |r: DataRow| r.id);
    assert forall|i: int| 0 <= i < u.rows.len() implies t.rows.contains(#[trigger] u.rows[i]) by {}
    assert forall|i: int, j: int| 0 <= i < j < u.rows.len() implies (#[trigger] u.rows[i]).id < (
    #[trigger] u.rows[j]).id by {
        let key = |r: DataRow| r.id;
        assert(key(u.rows[i]) < key(u.rows[j]));
    }
    assert forall|id: int| has_store(t, id) implies has_store(u, id) by {
        let i = choose|i: int| 0 <= i < t.stores.len() && (#[trigger] t.stores[i]).id == id;
        assert(u.stores[i].id == id);
    }
    assert forall|e: EntryRow| #[trigger] u.entries.count(e) > 0 implies has_index(u, e.index_id)
        && has_row(u, e.row_id) by {
        assert(t.entries.count(e) > 0);
        let i = choose|i: int| 0 <= i < t.indexes.len() && (#[trigger] t.indexes[i]).id
            == e.index_id;
        assert(u.indexes[i].id == e.index_id);
        let k = choose|k: int| 0 <= k < t.rows.len() && (#[trigger] t.rows[k]).id == e.row_id;
        assert(!gone(t.rows[k]));
        lemma_filter_keeps(t.rows, p, k);
        let m = choose|m: int| 0 <= m < u.rows.len() && u.rows[m] == t.rows[k];
        assert(u.rows[m].id == e.row_id);
    }
}

pub proof fn lemma_entries_keep(t: Tables, index_id: int)
    requires
        well_formed(t),
    ensures
        well_formed(without_entries(t, index_id)),
{
    let u = without_entries(t, index_id);
    lemma_same_references(t, u);
    assert forall|e: EntryRow| #[trigger] u.entries.count(e) > 0 implies has_index(u, e.index_id)
        && has_row(u, e.row_id) by {
        assert(t.entries.count(e) > 0);
    }
}

pub proof fn lemma_entry_keeps(t: Tables, index_id: int, key: Seq<char>, row_id: int)
    requires
        well_formed(t),
        has_index(t, index_id),
        has_row(t, row_id),
    ensures
        well_formed(with_entry(t, index_id, key, row_id)),
{
    let u = with_entry(t, index_id, key, row_id);
    lemma_same_references(t, u);
    assert forall|e: EntryRow| #[trigger] u.entries.count(e) > 0 implies has_index(u, e.index_id)
        && has_row(u, e.row_id) by {
        if e != (EntryRow { index_id, key, row_id }) {
            assert(t.entries.count(e) > 0);
        }
    }
}

pub proof fn lemma_index_removal_keeps(t: Tables, store_id: int, name: Seq<char>)
    requires
        well_formed(t),
    ensures
        well_formed(without_index(t, store_id, name)),
{
    let u = without_index(t, store_id, name);
    let p = |x: IndexRow| !(x.store_id == store_id && x.name == name);
    let key = |x: IndexRow| x.id;
    lemma_filter_keeps_order(t.indexes, p, key);
    assert forall|i: int| 0 <= i < u.indexes.len() implies t.indexes.contains(
        #[trigger] u.indexes[i],
    ) by {}
    assert forall|i: int, j: int| 0 <= i < j < u.indexes.len() implies (#[trigger] u.indexes[i]).id
        < (#[trigger] u.indexes[j]).id by {
        assert(key(u.indexes[i]) < key(u.indexes[j]));
    }
    assert forall|i: int, j: int| 0 <= i < j < u.indexes.len() implies !((
    #[trigger] u.indexes[i]).store_id == (#[trigger] u.indexes[j]).store_id && u.indexes[i].name
        == u.indexes[j].name) by {
        let a = choose|a: int| 0 <= a < t.indexes.len() && t.indexes[a] == u.indexes[i];
        let b = choose|b: int| 0 <= b < t.indexes.len() && t.indexes[b] == u.indexes[j];
        assert(t.indexes[a].id < t.indexes[b].id);
        if b <= a {
            assert(b == a || t.indexes[b].id < t.indexes[a].id);
        }
    }
    assert forall|id: int| has_store(t, id) implies has_store(u, id) by {
        let i = choose|i: int| 0 <= i < t.stores.len() && (#[trigger] t.stores[i]).id == id;
        assert(u.stores[i].id == id);
    }
    assert forall|e: EntryRow| #[trigger] u.entries.count(e) > 0 implies has_index(u, e.index_id)
        && has_row(u, e.row_id) by {
        assert(t.entries.count(e) > 0);
        let k = choose|k: int| 0 <= k < t.rows.len() && (#[trigger] t.rows[k]).id == e.row_id;
        assert(u.rows[k].id == e.row_id);
        let i = choose|i: int| 0 <= i < t.indexes.len() && (#[trigger] t.indexes[i]).id
            == e.index_id;
        assert(p(t.indexes[i]));
        lemma_filter_keeps(t.indexes, p, i);
        let m = choose|m: int| 0 <= m < u.indexes.len() && u.indexes[m] == t.indexes[i];
        assert(u.indexes[m].id == e.index_id);
    }
}

pub proof fn lemma_key_keeps(t: Tables, id: int, key: Seq<char>)
    requires
        well_formed(t),
    ensures
        well_formed(with_key(t, id, key)),
{
    let u = with_key(t, id, key);
    assert(forall|i: int| 0 <= i < t.rows.len() ==> (#[trigger] u.rows[i]).id == t.rows[i].id);
    assert forall|n: int| has_row(t, n) implies has_row(u, n) by {
        let i = choose|i: int| 0 <= i < t.rows.len() && (#[trigger] t.rows[i]).id == n;
        assert(u.rows[i].id == n);
    }
    assert forall|n: int| has_store(t, n) implies has_store(u, n) by {
        let i = choose|i: int| 0 <= i < t.stores.len() && (#[trigger] t.stores[i]).id == n;
        assert(u.stores[i].id == n);
    }
    assert forall|n: int| has_index(t, n) implies has_index(u, n) by {
        let i = choose|i: int| 0 <= i < t.indexes.len() && (#[trigger] t.indexes[i]).id == n;
        assert(u.indexes[i].id == n);
    }
}

pub proof fn lemma_path_keeps(t: Tables, id: int, key_path: Seq<char>)
    requires
        well_formed(t),
    ensures
        well_formed(with_path(t, id, key_path)),
{
    let u = with_path(t, id, key_path);
    assert forall|n: int| has_index(t, n) implies has_index(u, n) by {
        let i = choose|i: int| 0 <= i < t.indexes.len() && (#[trigger] t.indexes[i]).id == n;
        assert(u.indexes[i].id == n);
    }
    assert forall|n: int| has_store(t, n) implies has_store(u, n) by {
        let i = choose|i: int| 0 <= i < t.stores.len() && (#[trigger] t.stores[i]).id == n;
        assert(u.stores[i].id == n);
    }
    assert forall|n: int| has_row(t, n) implies has_row(u, n) by {
        let i = choose|i: int| 0 <= i < t.rows.len() && (#[trigger] t.rows[i]).id == n;
        assert(u.rows[i].id == n);
    }
}

} // verus!
