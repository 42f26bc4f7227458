//! What the lists that are read from the tables hold, one row after the other.

use crate::storage::consistency;
use crate::storage::json;
use crate::storage::model;
use crate::storage::rows;
use crate::storage::tables;
use crate::storage::tables::{DataRow, EntryRow, IndexRow, StoreRow, Tables};
use vstd::multiset::Multiset;
use vstd::prelude::*;

verus! {

/// `t` with one data row more.
pub open spec fn and_row(t: Tables, r: DataRow) -> Tables {
    Tables { rows: t.rows.push(r), ..t }
}

/// `t` with one index more.
pub open spec fn and_index(t: Tables, x: IndexRow) -> Tables {
    Tables { indexes: t.indexes.push(x), ..t }
}

/// `t` with one store more.
pub open spec fn and_store(t: Tables, s: StoreRow) -> Tables {
    Tables { stores: t.stores.push(s), ..t }
}

/// The rows of a store, and those with a key, are listed in the order of the table: one
/// row more is listed last where it belongs to the store and has the key, and not at all
/// where it does not.
pub proof fn law_rows_are_listed(t: Tables, r: DataRow, store_id: int, key: Seq<char>)
    ensures
        t.rows.len() == 0 ==> tables::rows_of(t, store_id).len() == 0 && tables::rows_with_key(
            t,
            store_id,
            key,
        ).len() == 0,
        tables::rows_of(and_row(t, r), store_id) == if r.store_id == store_id {
            tables::rows_of(t, store_id).push(r)
        } else {
            tables::rows_of(t, store_id)
        },
        tables::rows_with_key(and_row(t, r), store_id, key) == if r.store_id == store_id && r.key
            == Some(key) {
            tables::rows_with_key(t, store_id, key).push(r)
        } else {
            tables::rows_with_key(t, store_id, key)
        },
{
    rows::lemma_filter_push(t.rows, r, |r: DataRow| r.store_id == store_id);
    rows::lemma_filter_push(
        t.rows,
        r,
        |r: DataRow| r.store_id == store_id && r.key == Some(key),
    );
    reveal(Seq::filter);
}

/// A cursor sees the rows of its store in the order of the table, each as its key and its
/// value, with an empty text for a key that is missing.
pub proof fn law_pairs_are_listed(t: Tables, r: DataRow, store_id: int)
    ensures
        t.rows.len() == 0 ==> model::store_pairs(t, store_id).len() == 0,
        r.store_id == store_id && r.key is Some ==> model::store_pairs(and_row(t, r), store_id)
            == model::store_pairs(t, store_id).push((r.key->0, r.value)),
        r.store_id == store_id && r.key is None ==> model::store_pairs(and_row(t, r), store_id)
            == model::store_pairs(t, store_id).push((Seq::empty(), r.value)),
        r.store_id != store_id ==> model::store_pairs(and_row(t, r), store_id)
            == model::store_pairs(t, store_id),
{
    law_rows_are_listed(t, r, store_id, Seq::empty());
    if r.store_id == store_id {
        assert(model::store_pairs(and_row(t, r), store_id) =~= model::store_pairs(t, store_id).push(
            model::row_pair(r),
        ));
    }
}

/// The keys of a store are those of its rows, as often as rows have them.
pub proof fn law_keys_are_listed(t: Tables, r: DataRow, store_id: int)
    ensures
        t.rows.len() == 0 ==> model::store_keys(t, store_id) == Multiset::<Seq<char>>::empty(),
        model::store_keys(and_row(t, r), store_id) == if r.store_id == store_id && r.key is Some {
            model::store_keys(t, store_id).insert(r.key->0)
        } else {
            model::store_keys(t, store_id)
        },
{
    broadcast use vstd::seq_lib::group_to_multiset_ensures;

    law_rows_are_listed(t, r, store_id, Seq::empty());
    let has_key = |r: DataRow| r.key is Some;
    let key_of = |r: DataRow| r.key->0;
    let mine = tables::rows_of(t, store_id);
    rows::lemma_filter_push(mine, r, has_key);
    if r.store_id == store_id && r.key is Some {
        assert(mine.filter(has_key).push(r).map_values(key_of) =~= mine.filter(has_key).map_values(
            key_of,
        ).push(r.key->0));
    }
    if t.rows.len() == 0 {
        reveal(Seq::filter);
        let none = mine.filter(has_key).map_values(key_of);
        assert(none =~= Seq::<Seq<char>>::empty());
        assert(none.to_multiset() =~= Multiset::<Seq<char>>::empty());
    }
}

/// The rows under a key of an index are those of its store whose value has the key in the
/// field, in the order of the table.
pub proof fn law_rows_under_are_listed(
    t: Tables,
    r: DataRow,
    store_id: int,
    key_path: Seq<char>,
    key: Seq<char>,
)
    ensures
        t.rows.len() == 0 ==> model::rows_under(t, store_id, key_path, key).len() == 0,
        model::rows_under(and_row(t, r), store_id, key_path, key) == if r.store_id == store_id
            && json::field_key(json::json_field(r.value, key_path)) == Some(key) {
            model::rows_under(t, store_id, key_path, key).push(r)
        } else {
            model::rows_under(t, store_id, key_path, key)
        },
{
    law_rows_are_listed(t, r, store_id, Seq::empty());
    rows::lemma_filter_push(
        tables::rows_of(t, store_id),
        r,
        |r: DataRow| json::field_key(json::json_field(r.value, key_path)) == Some(key),
    );
    reveal(Seq::filter);
}

/// What an index finds under a key: one row more is found where it belongs to the store
/// and its value has the key in the field of the index, as its key and its value.
pub proof fn law_found_pairs_are_listed(
    t: Tables,
    r: DataRow,
    x: IndexRow,
    key: Seq<char>,
)
    requires
        tables::indexes_named(t, x.store_id, x.name) == seq![x],
        r.key is Some,
    ensures
        t.rows.len() == 0 ==> model::found_pairs(t, x.store_id, x.name, key).len() == 0,
        model::found_pairs(and_row(t, r), x.store_id, x.name, key) == if r.store_id == x.store_id
            && json::field_key(json::json_field(r.value, x.key_path)) == Some(key) {
            model::found_pairs(t, x.store_id, x.name, key).insert((r.key->0, r.value))
        } else {
            model::found_pairs(t, x.store_id, x.name, key)
        },
{
    broadcast use vstd::seq_lib::group_to_multiset_ensures;

    law_rows_under_are_listed(t, r, x.store_id, x.key_path, key);
    let before = model::rows_under(t, x.store_id, x.key_path, key);
    let pair = |r: DataRow| model::row_pair(r);
    assert(before.push(r).map_values(pair) =~= before.map_values(pair).push((r.key->0, r.value)));
    assert(before.map_values(pair).to_multiset().len() == before.len());
}

/// The stores of a name are listed in the order of the table.
pub proof fn law_stores_are_listed(t: Tables, s: StoreRow, db: Seq<char>, name: Seq<char>)
    ensures
        t.stores.len() == 0 ==> tables::stores_named(t, db, name).len() == 0,
        tables::stores_named(and_store(t, s), db, name) == if s.db_name == db && s.store_name
            == name {
            tables::stores_named(t, db, name).push(s)
        } else {
            tables::stores_named(t, db, name)
        },
{
    rows::lemma_filter_push(
        t.stores,
        s,
        |s: StoreRow| s.db_name == db && s.store_name == name,
    );
    reveal(Seq::filter);
}

/// The indexes of a store, and those of a name, are listed in the order of the table.
pub proof fn law_indexes_are_listed(t: Tables, x: IndexRow, store_id: int, name: Seq<char>)
    ensures
        t.indexes.len() == 0 ==> tables::indexes_of(t, store_id).len() == 0
            && tables::indexes_named(t, store_id, name).len() == 0,
        tables::indexes_of(and_index(t, x), store_id) == if x.store_id == store_id {
            tables::indexes_of(t, store_id).push(x)
        } else {
            tables::indexes_of(t, store_id)
        },
        tables::indexes_named(and_index(t, x), store_id, name) == if x.store_id == store_id
            && x.name == name {
            tables::indexes_named(t, store_id, name).push(x)
        } else {
            tables::indexes_named(t, store_id, name)
        },
{
    rows::lemma_filter_push(t.indexes, x, |x: IndexRow| x.store_id == store_id);
    rows::lemma_filter_push(
        t.indexes,
        x,
        |x: IndexRow| x.store_id == store_id && x.name == name,
    );
    reveal(Seq::filter);
}

/// The entries of an index under a key are those with its id and the key that lead to a
/// row.
pub proof fn law_entries_lead_to_rows(t: Tables, index_id: int, key: Seq<char>, e: EntryRow)
    ensures
        e.index_id == index_id && e.key == key && (exists|i: int|
            0 <= i < t.rows.len() && (#[trigger] t.rows[i]).id == e.row_id) ==> tables::entries_of(
            t,
            index_id,
            key,
        ).count(e) == t.entries.count(e),
        !(e.index_id == index_id && e.key == key && (exists|i: int|
            0 <= i < t.rows.len() && (#[trigger] t.rows[i]).id == e.row_id)) ==> tables::entries_of(
            t,
            index_id,
            key,
        ).count(e) == 0,
{
}

/// An entry shows the row that it leads to, as its key and its value.
pub proof fn law_entries_show_their_rows(t: Tables, es: Seq<EntryRow>, i: int, k: int)
    requires
        tables::well_formed(t),
        0 <= i < es.len(),
        0 <= k < t.rows.len(),
        t.rows[k].id == es[i].row_id,
        t.rows[k].key is Some,
    ensures
        model::entry_pairs(t, es).len() == es.len(),
        model::entry_pairs(t, es)[i] == (t.rows[k].key->0, t.rows[k].value),
{
    let j = choose|j: int| 0 <= j < t.rows.len() && (#[trigger] t.rows[j]).id == es[i].row_id;
    assert(j == k) by {
        if j < k {
            assert(t.rows[j].id < t.rows[k].id);
        } else if k < j {
            assert(t.rows[k].id < t.rows[j].id);
        }
    }
}

/// A row has an entry in each index of its store whose field its value has, with the key
/// that it has there.
pub proof fn law_row_has_its_entries(
    t: Tables,
    x: IndexRow,
    store_id: int,
    row_id: int,
    value: Seq<char>,
)
    ensures
        t.indexes.len() == 0 ==> model::row_entries(t, store_id, row_id, value).len() == 0,
        model::row_entries(and_index(t, x), store_id, row_id, value) == match json::field_key(
            json::json_field(value, x.key_path),
        ) {
            Some(key) => if x.store_id == store_id {
                model::row_entries(t, store_id, row_id, value).insert(
                    EntryRow { index_id: x.id, key, row_id },
                )
            } else {
                model::row_entries(t, store_id, row_id, value)
            },
            None => model::row_entries(t, store_id, row_id, value),
        },
{
    broadcast use vstd::seq_lib::group_to_multiset_ensures;

    law_indexes_are_listed(t, x, store_id, Seq::empty());
    let mine = tables::indexes_of(t, store_id);
    let picked = model::indexes_value(value);
    let entry = model::entry_in(row_id, value);
    rows::lemma_filter_push(mine, x, picked);
    if x.store_id == store_id && picked(x) {
        assert(mine.filter(picked).push(x).map_values(entry) =~= mine.filter(picked).map_values(
            entry,
        ).push(entry(x)));
    }
    if t.indexes.len() == 0 {
        reveal(Seq::filter);
        assert(mine.filter(picked).map_values(entry).to_multiset().len() == 0);
    }
}

/// An index has an entry for each row of its store whose value has its field, with the key
/// that it has there.
pub proof fn law_index_has_its_entries(
    t: Tables,
    r: DataRow,
    index_id: int,
    store_id: int,
    key_path: Seq<char>,
)
    ensures
        t.rows.len() == 0 ==> model::index_entries(t, index_id, store_id, key_path).len() == 0,
        model::index_entries(and_row(t, r), index_id, store_id, key_path) == match json::field_key(
            json::json_field(r.value, key_path),
        ) {
            Some(key) => if r.store_id == store_id {
                model::index_entries(t, index_id, store_id, key_path).insert(
                    EntryRow { index_id, key, row_id: r.id },
                )
            } else {
                model::index_entries(t, index_id, store_id, key_path)
            },
            None => model::index_entries(t, index_id, store_id, key_path),
        },
{
    broadcast use vstd::seq_lib::group_to_multiset_ensures;

    law_rows_are_listed(t, r, store_id, Seq::empty());
    let mine = tables::rows_of(t, store_id);
    let picked = model::in_index(key_path);
    let entry = model::entry_of(index_id, key_path);
    rows::lemma_filter_push(mine, r, picked);
    if r.store_id == store_id && picked(r) {
        assert(mine.filter(picked).push(r).map_values(entry) =~= mine.filter(picked).map_values(
            entry,
        ).push(entry(r)));
    }
    if t.rows.len() == 0 {
        reveal(Seq::filter);
        assert(mine.filter(picked).map_values(entry).to_multiset().len() == 0);
    }
}

/// A put adds the entries of its row to the indexes of its store, and takes away those of
/// the rows that it replaces. Every other entry stays.
pub proof fn law_put_changes_entries(
    t: Tables,
    t2: Tables,
    store_id: int,
    key: Option<Seq<char>>,
    value: Seq<char>,
    e: EntryRow,
)
    requires
        model::row_put(t, t2, store_id, key, value),
    ensures
        t2.entries.count(e) == model::row_entries(t, store_id, t2.last_row, value).count(e) + if (
        exists|i: int|
            0 <= i < t.rows.len() && (#[trigger] t.rows[i]).id == e.row_id && t.rows[i].store_id
                == store_id && key is Some && t.rows[i].key == key) {
            0
        } else {
            t.entries.count(e)
        },
{
    if let Some(k) = key {
        let gone = |r: DataRow| r.store_id == store_id && r.key == Some(k);
        let stays = |e: EntryRow| !tables::picks_row(t, gone, e.row_id);
        assert(t2.entries.count(e) == t.entries.filter(stays).count(e) + model::row_entries(
            t,
            store_id,
            t2.last_row,
            value,
        ).count(e));
        if exists|i: int|
            0 <= i < t.rows.len() && (#[trigger] t.rows[i]).id == e.row_id && t.rows[i].store_id
                == store_id && t.rows[i].key == key {
            let i = choose|i: int|
                0 <= i < t.rows.len() && (#[trigger] t.rows[i]).id == e.row_id
                    && t.rows[i].store_id == store_id && t.rows[i].key == key;
            assert(t.rows[i].id == e.row_id && gone(t.rows[i]));
        }
        if tables::picks_row(t, gone, e.row_id) {
            let i = choose|i: int|
                0 <= i < t.rows.len() && (#[trigger] t.rows[i]).id == e.row_id && gone(t.rows[i]);
            assert(t.rows[i].store_id == store_id && t.rows[i].key == key);
        }
    }
}

/// Making an index leaves the rows, the stores and the databases. The index is there with
/// its name, its store and its field, once, and the other indexes are as they were.
pub proof fn law_made_index_is_there(
    t: Tables,
    t2: Tables,
    store_id: int,
    name: Seq<char>,
    key_path: Seq<char>,
    id: int,
    other: IndexRow,
)
    requires
        tables::well_formed(t),
        model::index_created(t, t2, store_id, name, key_path, id),
    ensures
        t2.rows == t.rows,
        t2.last_row == t.last_row,
        t2.stores == t.stores,
        t2.versions == t.versions,
        t2.indexes.contains(IndexRow { id, store_id, name, key_path }),
        !(other.store_id == store_id && other.name == name) ==> (t2.indexes.contains(other)
            <==> t.indexes.contains(other)),
        other.store_id == store_id && other.name == name && t2.indexes.contains(other) ==> other
            == (IndexRow { id, store_id, name, key_path }),
        tables::indexes_named(t, store_id, name).len() == 0 ==> t.last_index < id <= i64::MAX,
        tables::indexes_named(t, store_id, name).len() > 0 ==> tables::indexes_named(
            t,
            store_id,
            name,
        )[0].id == id,
{
    let named = |x: IndexRow| x.store_id == store_id && x.name == name;
    let found = tables::indexes_named(t, store_id, name);
    let mine = IndexRow { id, store_id, name, key_path };
    if found.len() > 0 {
        assert(named(found[0]));
        assert(found.contains(found[0]));
        t.indexes.lemma_filter_contains_rev(named, found[0]);
        let k = choose|k: int| 0 <= k < t.indexes.len() && t.indexes[k] == found[0];
        assert(t2.indexes.len() == t.indexes.len());
        assert(t2.indexes[k] == mine);
        assert forall|j: int| 0 <= j < t.indexes.len() && j != k implies t2.indexes[j]
            == t.indexes[j] && !named(#[trigger] t.indexes[j]) by {
            if j < k {
                assert(t.indexes[j].id < t.indexes[k].id);
            } else {
                assert(t.indexes[k].id < t.indexes[j].id);
            }
        }
        if t2.indexes.contains(other) {
            let j = choose|j: int| 0 <= j < t2.indexes.len() && t2.indexes[j] == other;
            if j != k {
                assert(t2.indexes[j] == t.indexes[j] && !named(t.indexes[j]));
                assert(t.indexes.contains(other));
            }
        }
        if t.indexes.contains(other) && !named(other) {
            let j = choose|j: int| 0 <= j < t.indexes.len() && t.indexes[j] == other;
            assert(t2.indexes[j] == other);
        }
    } else {
        assert(t2.indexes == t.indexes.push(mine));
        assert(t2.indexes[t.indexes.len() as int] == mine);
        if t2.indexes.contains(other) {
            let j = choose|j: int| 0 <= j < t2.indexes.len() && t2.indexes[j] == other;
            if j < t.indexes.len() {
                assert(t.indexes[j] == other);
                if named(other) {
                    t.indexes.lemma_filter_contains(named, j);
                }
            }
        }
        if t.indexes.contains(other) {
            let j = choose|j: int| 0 <= j < t.indexes.len() && t.indexes[j] == other;
            assert(t2.indexes[j] == other);
        }
    }
}

/// An index that was made finds, of every row that was there, those that have the key in
/// its field.
pub proof fn law_made_index_finds_rows(
    t: Tables,
    t2: Tables,
    store_id: int,
    name: Seq<char>,
    key_path: Seq<char>,
    id: int,
    key: Seq<char>,
    es: Seq<EntryRow>,
)
    requires
        model::consistent(t),
        model::index_created(t, t2, store_id, name, key_path, id),
        model::indexed_under(t2, id, key, es),
    ensures
        model::entry_pairs(t2, es).to_multiset() == model::rows_under(
            t,
            store_id,
            key_path,
            key,
        ).map_values(|r: DataRow| model::row_pair(r)).to_multiset(),
{
    consistency::lemma_index_created_consistent(t, t2, store_id, name, key_path, id);
    let mine = IndexRow { id, store_id, name, key_path };
    law_made_index_is_there(t, t2, store_id, name, key_path, id, mine);
    model::lemma_one_index(t2, store_id, name);
    let named = |x: IndexRow| x.store_id == store_id && x.name == name;
    let i = choose|i: int| 0 <= i < t2.indexes.len() && t2.indexes[i] == mine;
    t2.indexes.lemma_filter_contains(named, i);
    let found = tables::indexes_named(t2, store_id, name);
    assert(found.contains(mine));
    assert(found[0] == mine);
    consistency::lemma_index_finds(t2, store_id, name, id, key, es);
}

/// Deleting an index takes the index of that name and its entries, and nothing else.
pub proof fn law_delete_takes_its_index(
    t: Tables,
    store_id: int,
    name: Seq<char>,
    x: IndexRow,
    e: EntryRow,
)
    ensures
        tables::without_index(t, store_id, name).indexes.contains(x) <==> t.indexes.contains(x)
            && !(x.store_id == store_id && x.name == name),
        tables::without_index(t, store_id, name).entries.count(e) == if exists|i: int|
            0 <= i < t.indexes.len() && (#[trigger] t.indexes[i]).id == e.index_id
                && t.indexes[i].store_id == store_id && t.indexes[i].name == name {
            0
        } else {
            t.entries.count(e)
        },
        tables::without_index(t, store_id, name).rows == t.rows,
        tables::without_index(t, store_id, name).stores == t.stores,
        tables::without_index(t, store_id, name).versions == t.versions,
{
    let kept = |x: IndexRow| !(x.store_id == store_id && x.name == name);
    let left = t.indexes.filter(kept);
    if left.contains(x) {
        let i = choose|i: int| 0 <= i < left.len() && left[i] == x;
        assert(kept(left[i]));
        t.indexes.lemma_filter_contains_rev(kept, x);
    }
    if t.indexes.contains(x) && kept(x) {
        let i = choose|i: int| 0 <= i < t.indexes.len() && t.indexes[i] == x;
        t.indexes.lemma_filter_contains(kept, i);
    }
    if exists|i: int|
        0 <= i < t.indexes.len() && (#[trigger] t.indexes[i]).id == e.index_id
            && t.indexes[i].store_id == store_id && t.indexes[i].name == name {
        let i = choose|i: int|
            0 <= i < t.indexes.len() && (#[trigger] t.indexes[i]).id == e.index_id
                && t.indexes[i].store_id == store_id && t.indexes[i].name == name;
        assert(t.indexes[i].id == e.index_id);
    }
}

/// The tables of a new database hold nothing.
pub proof fn law_new_tables_are_empty()
    ensures
        tables::no_rows().versions == Map::<Seq<char>, int>::empty(),
        tables::no_rows().stores.len() == 0,
        tables::no_rows().rows.len() == 0,
        tables::no_rows().indexes.len() == 0,
        tables::no_rows().entries.len() == 0,
{
}

/// Only the version of the database that is named changes, and nothing else.
pub proof fn law_versions_change_alone(
    t: Tables,
    name: Seq<char>,
    version: int,
    other: Seq<char>,
)
    ensures
        other != name ==> tables::with_version(t, name, version).versions.contains_key(other)
            == t.versions.contains_key(other) && tables::with_database(
            t,
            name,
        ).versions.contains_key(other) == t.versions.contains_key(other),
        other != name && t.versions.contains_key(other) ==> tables::with_version(
            t,
            name,
            version,
        ).versions[other] == t.versions[other] && tables::with_database(t, name).versions[other]
            == t.versions[other],
        t.versions.contains_key(name) ==> tables::with_version(t, name, version).versions[name]
            == version,
        tables::with_database(t, name).versions.contains_key(name),
        tables::with_version(t, name, version).rows == t.rows,
        tables::with_version(t, name, version).stores == t.stores,
        tables::with_version(t, name, version).indexes == t.indexes,
        tables::with_version(t, name, version).entries == t.entries,
        tables::with_database(t, name).rows == t.rows,
        tables::with_database(t, name).stores == t.stores,
        tables::with_database(t, name).indexes == t.indexes,
        tables::with_database(t, name).entries == t.entries,
{
}

} // verus!
