//! What holds of a page database from one call to another.

use crate::storage::consistency;
use crate::storage::error::StorageError;
use crate::storage::json;
use crate::storage::model;
use crate::storage::model::TransactionView;
use crate::storage::rows;
use crate::storage::sqlite::Statement;
use crate::storage::tables;
use crate::storage::tables::{DataRow, EntryRow, IndexRow, Tables};
use crate::text;
use vstd::prelude::*;

verus! {

/// After a put a get finds the value, and nothing else, whatever was there before:
/// under the key that was given, or under the id of the row.
pub proof fn law_get_gives_what_was_put(
    t: Tables,
    t2: Tables,
    store_id: int,
    key: Option<Seq<char>>,
    value: Seq<char>,
)
    requires
        model::row_put(t, t2, store_id, key, value),
    ensures
        tables::rows_with_key(t2, store_id, model::put_key(key, t2.last_row)).len() == 1,
        forall|v: Seq<char>| #[trigger]
            model::holds(t2, store_id, model::put_key(key, t2.last_row), v) <==> v == value,
{
    let k = model::put_key(key, t2.last_row);
    let base = match key {
        Some(k) => tables::without_key(t, store_id, k),
        None => t,
    };
    let row = t2.rows.last();
    law_delete_removes(t, store_id, k, store_id, k);
    rows::lemma_filter_push(
        base.rows,
        row,
        |r: DataRow| r.store_id == store_id && r.key == Some(k),
    );
    let found = tables::rows_with_key(t2, store_id, k);
    assert(found == tables::rows_with_key(base, store_id, k).push(row));
    assert(found[0].value == value);
}

/// A put adds one row to its store, in place of what was under its key, and leaves
/// every other key and store as it was.
pub proof fn law_put_adds_one(
    t: Tables,
    t2: Tables,
    store_id: int,
    key: Option<Seq<char>>,
    value: Seq<char>,
    other_store: int,
    other_key: Seq<char>,
)
    requires
        model::row_put(t, t2, store_id, key, value),
    ensures
        tables::rows_of(t2, store_id).len() == tables::rows_of(t, store_id).len()
            - tables::rows_with_key(t, store_id, model::put_key(key, t2.last_row)).len() + 1,
        tables::rows_of(t2, store_id).last() == t2.rows.last(),
        other_store != store_id ==> tables::rows_of(t2, other_store) == tables::rows_of(
            t,
            other_store,
        ),
        other_store != store_id || other_key != model::put_key(key, t2.last_row)
            ==> tables::rows_with_key(t2, other_store, other_key) == tables::rows_with_key(
            t,
            other_store,
            other_key,
        ),
{
    let k = model::put_key(key, t2.last_row);
    let base = match key {
        Some(k) => tables::without_key(t, store_id, k),
        None => t,
    };
    let row = t2.rows.last();
    let mine = |r: DataRow| r.store_id == store_id;
    let gone = |r: DataRow| r.store_id == store_id && r.key == Some(k);
    let kept = |r: DataRow| !gone(r);
    law_delete_removes(t, store_id, k, other_store, other_key);
    rows::lemma_filter_push(base.rows, row, mine);
    rows::lemma_filter_push(base.rows, row, |r: DataRow| r.store_id == other_store);
    rows::lemma_filter_push(
        base.rows,
        row,
        |r: DataRow| r.store_id == other_store && r.key == Some(other_key),
    );
    let kept_mine = |r: DataRow| kept(r) && mine(r);
    rows::lemma_filter_twice(t.rows, kept, mine, kept_mine);
    rows::lemma_filter_twice(t.rows, mine, kept, kept_mine);
    rows::lemma_filter_twice(t.rows, mine, gone, gone);
    rows::lemma_filter_parts(t.rows.filter(mine), kept, gone);
}

/// A put without a key takes one that is not in use, adds one row under it, and leaves
/// every other row as it was.
pub proof fn law_generated_key_is_free(t: Tables, t2: Tables, store_id: int, value: Seq<char>)
    requires
        model::row_put(t, t2, store_id, None, value),
    ensures
        tables::rows_with_key(t, store_id, text::decimal(t2.last_row)).len() == 0,
        t2.rows == t.rows.push(
            DataRow {
                id: t2.last_row,
                store_id,
                key: Some(text::decimal(t2.last_row)),
                value,
            },
        ),
{
}

/// No two rows of a store have the same key, so a key has one value at most.
pub proof fn law_one_value_under_a_key(t: Tables, store_id: int, key: Seq<char>)
    requires
        model::consistent(t),
    ensures
        tables::rows_with_key(t, store_id, key).len() <= 1,
{
    let p = |r: DataRow| r.store_id == store_id && r.key == Some(key);
    let id = |r: DataRow| r.id;
    let found = t.rows.filter(p);
    tables::lemma_filter_keeps_order(t.rows, p, id);
    if found.len() > 1 {
        assert(id(found[0]) < id(found[1]));
        assert(t.rows.contains(found[0]) && t.rows.contains(found[1]));
        let a = choose|a: int| 0 <= a < t.rows.len() && t.rows[a] == found[0];
        let b = choose|b: int| 0 <= b < t.rows.len() && t.rows[b] == found[1];
        assert(p(found[0]) && p(found[1]));
        assert(a < b || b < a);
    }
}

/// After a delete nothing is left under the key, and every other key and store is as
/// it was.
pub proof fn law_delete_removes(
    t: Tables,
    store_id: int,
    key: Seq<char>,
    other_store: int,
    other_key: Seq<char>,
)
    ensures
        tables::rows_with_key(tables::without_key(t, store_id, key), store_id, key).len() == 0,
        other_store != store_id || other_key != key ==> tables::rows_with_key(
            tables::without_key(t, store_id, key),
            other_store,
            other_key,
        ) == tables::rows_with_key(t, other_store, other_key),
        other_store != store_id ==> tables::rows_of(
            tables::without_key(t, store_id, key),
            other_store,
        ) == tables::rows_of(t, other_store),
{
    let gone = |r: DataRow| r.store_id == store_id && r.key == Some(key);
    let kept = |r: DataRow| !gone(r);
    let other = |r: DataRow| r.store_id == other_store && r.key == Some(other_key);
    let theirs = |r: DataRow| r.store_id == other_store;
    let u = tables::without_key(t, store_id, key);
    assert(u.rows == t.rows.filter(kept));
    let never = |r: DataRow| false;
    rows::lemma_filter_twice(t.rows, kept, gone, never);
    rows::lemma_filter_none(t.rows, never);
    if other_store != store_id || other_key != key {
        rows::lemma_filter_twice(t.rows, kept, other, other);
    }
    if other_store != store_id {
        rows::lemma_filter_twice(t.rows, kept, theirs, theirs);
    }
}

/// After a clear the store is empty, and every other store is as it was.
pub proof fn law_clear_empties(t: Tables, store_id: int, other_store: int)
    ensures
        tables::rows_of(tables::without_store_rows(t, store_id), store_id).len() == 0,
        other_store != store_id ==> tables::rows_of(
            tables::without_store_rows(t, store_id),
            other_store,
        ) == tables::rows_of(t, other_store),
{
    let gone = |r: DataRow| r.store_id == store_id;
    let kept = |r: DataRow| !gone(r);
    let theirs = |r: DataRow| r.store_id == other_store;
    assert(tables::without_store_rows(t, store_id).rows == t.rows.filter(kept));
    let never = |r: DataRow| false;
    rows::lemma_filter_twice(t.rows, kept, gone, never);
    rows::lemma_filter_none(t.rows, never);
    if other_store != store_id {
        rows::lemma_filter_twice(t.rows, kept, theirs, theirs);
    }
}

/// Two puts without a key return different keys.
pub proof fn law_generated_keys_differ(
    t: Tables,
    t2: Tables,
    t3: Tables,
    first_store: int,
    first: Seq<char>,
    second_store: int,
    second: Seq<char>,
)
    requires
        model::row_put(t, t2, first_store, None, first),
        model::row_put(t2, t3, second_store, None, second),
    ensures
        text::decimal(t2.last_row) != text::decimal(t3.last_row),
{
    text::lemma_decimal_differs(t2.last_row, t3.last_row);
}

/// Making a store a second time changes nothing and returns the same id.
pub proof fn law_store_is_made_once(
    t: Tables,
    t2: Tables,
    t3: Tables,
    db: Seq<char>,
    name: Seq<char>,
    key_path: Option<Seq<char>>,
    auto_increment: bool,
    key_path2: Option<Seq<char>>,
    auto_increment2: bool,
    id: int,
    id2: int,
)
    requires
        model::store_added(t, t2, db, name, key_path, auto_increment),
        model::is_store(t2, db, name, id),
        model::store_added(t2, t3, db, name, key_path2, auto_increment2),
        model::is_store(t3, db, name, id2),
    ensures
        t3 == t2,
        id2 == id,
{
}

/// A database starts with version 1, keeps what it has when it is made again, and
/// has the version that was set last.
pub proof fn law_version_is_what_was_set(t: Tables, name: Seq<char>, version: int)
    ensures
        !t.versions.contains_key(name) ==> tables::with_database(t, name).versions[name] == 1,
        t.versions.contains_key(name) ==> tables::with_database(t, name) == t,
        tables::with_version(tables::with_database(t, name), name, version).versions[name]
            == version,
        !t.versions.contains_key(name) ==> tables::with_version(t, name, version) == t,
{
}

/// The changes of a transaction take effect one after the other, in the order in
/// which they were staged.
pub proof fn law_changes_in_order(
    cs: Seq<model::Change>,
    c: model::Change,
    t: Tables,
    t2: Tables,
)
    ensures
        model::all_applied(Seq::empty(), t, t2) <==> t2 == t,
        model::all_applied(cs.push(c), t, t2) <==> exists|m: Tables|
            model::all_applied(cs, t, m) && #[trigger] model::applied(c, m, t2),
{
    let all = cs.push(c);
    assert(all.drop_last() =~= cs);
    assert(all.last() == c);
    if model::all_applied(all, t, t2) {
        let m = choose|m: Tables|
            model::all_applied(all.drop_last(), t, m) && #[trigger] model::applied(
                all.last(),
                m,
                t2,
            );
        assert(model::applied(c, m, t2));
    }
    if exists|m: Tables|
        model::all_applied(cs, t, m) && #[trigger] model::applied(c, m, t2) {
        let m = choose|m: Tables|
            model::all_applied(cs, t, m) && #[trigger] model::applied(c, m, t2);
        assert(model::applied(all.last(), m, t2));
    }
}

/// A commit runs the statements of the staged changes, one change after the other.
pub proof fn law_statements_in_order(
    cs: Seq<model::Change>,
    c: model::Change,
    log: Seq<Statement>,
)
    ensures
        model::all_ran(Seq::empty(), log) <==> log == Seq::<Statement>::empty(),
        model::all_ran(cs.push(c), log) <==> exists|
            front: Seq<Statement>,
            a: model::PutAnswers,
        |
            model::all_ran(cs, front) && #[trigger] model::ran_next(c, front, log, a),
{
    let all = cs.push(c);
    assert(all.drop_last() =~= cs);
    assert(all.last() == c);
    if model::all_ran(all, log) {
        let (front, a) = choose|front: Seq<Statement>, a: model::PutAnswers|
            model::all_ran(all.drop_last(), front) && #[trigger] model::ran_next(
                all.last(),
                front,
                log,
                a,
            );
        assert(model::ran_next(c, front, log, a));
    }
    if exists|front: Seq<Statement>, a: model::PutAnswers|
        model::all_ran(cs, front) && #[trigger] model::ran_next(c, front, log, a) {
        let (front, a) = choose|front: Seq<Statement>, a: model::PutAnswers|
            model::all_ran(cs, front) && #[trigger] model::ran_next(c, front, log, a);
        assert(model::ran_next(all.last(), front, log, a));
    }
}

/// A transaction that has ended is unknown, and no longer has its stores.
pub proof fn law_ended_transactions_are_unknown(
    before: Map<i64, TransactionView>,
    tx_id: i64,
    store_id: i64,
    change: model::Change,
    after: Map<i64, TransactionView>,
    r: Result<(), StorageError>,
)
    requires
        model::staging(before.remove(tx_id), tx_id, store_id, change, after, r),
    ensures
        r is Err && r->Err_0 is UnknownTransaction,
        after == before.remove(tx_id),
{
}

/// Stores that no other open transaction has are free again once a transaction ends.
pub proof fn law_ended_transactions_free_their_stores(
    transactions: Map<i64, TransactionView>,
    tx_id: i64,
    store_id: i64,
)
    requires
        forall|other: i64| #[trigger]
            transactions.contains_key(other) && transactions[other].store_ids.contains(store_id)
                ==> other == tx_id,
    ensures
        !model::locked(transactions.remove(tx_id), store_id),
{
    let rest = transactions.remove(tx_id);
    assert forall|other: i64| #[trigger] rest.contains_key(other) implies !rest[other].store_ids.contains(
        store_id,
    ) by {
        assert(transactions.contains_key(other));
    }
}

/// A transaction leaves the tables consistent.
pub proof fn law_transactions_keep_tables(cs: Seq<model::Change>, t: Tables, t2: Tables)
    requires
        model::consistent(t),
        model::all_applied(cs, t, t2),
    ensures
        model::consistent(t2),
    decreases cs.len(),
{
    if cs.len() > 0 {
        let c = cs.last();
        let m = choose|m: Tables|
            model::all_applied(cs.drop_last(), t, m) && #[trigger] model::applied(c, m, t2);
        law_transactions_keep_tables(cs.drop_last(), t, m);
        law_changes_keep_tables(c, m, t2);
    }
}

/// Every change leaves the tables consistent.
pub proof fn law_changes_keep_tables(c: model::Change, t: Tables, t2: Tables)
    requires
        model::consistent(t),
        model::applied(c, t, t2),
    ensures
        model::consistent(t2),
{
    match c {
        model::Change::Put { store_id, key, value } => {
            consistency::lemma_put_consistent(t, t2, store_id, key, value);
        },
        model::Change::Delete { store_id, key } => {
            consistency::lemma_removal_consistent(
                t,
                |r: DataRow| r.store_id == store_id && r.key == Some(key),
            );
        },
        model::Change::Clear { store_id } => {
            consistency::lemma_removal_consistent(t, |r: DataRow| r.store_id == store_id);
        },
    }
}

/// Making and removing an index leaves the tables consistent.
pub proof fn law_indexes_keep_tables(
    t: Tables,
    t2: Tables,
    store_id: int,
    name: Seq<char>,
    key_path: Seq<char>,
    id: int,
)
    requires
        model::consistent(t),
    ensures
        model::index_created(t, t2, store_id, name, key_path, id) ==> model::consistent(t2),
        model::consistent(tables::without_index(t, store_id, name)),
{
    if model::index_created(t, t2, store_id, name, key_path, id) {
        consistency::lemma_index_created_consistent(t, t2, store_id, name, key_path, id);
    }
    consistency::lemma_index_removal_consistent(t, store_id, name);
}

/// Moving a cursor on twice is moving it on by the sum.
pub proof fn law_cursor_moves_add_up(position: usize, a: u32, b: u32)
    requires
        a + b <= u32::MAX,
    ensures
        model::moved_on(model::moved_on(position, a), b) == model::moved_on(
            position,
            (a + b) as u32,
        ),
{
}

/// Where a cursor stands after a list of moves.
pub open spec fn walked(position: usize, counts: Seq<u32>) -> usize
    decreases counts.len(),
{
    if counts.len() == 0 {
        position
    } else {
        model::moved_on(walked(position, counts.drop_last()), counts.last())
    }
}

/// The sum of a list of moves.
pub open spec fn total(counts: Seq<u32>) -> nat
    decreases counts.len(),
{
    if counts.len() == 0 {
        0
    } else {
        total(counts.drop_last()) + counts.last() as nat
    }
}

/// A cursor that was opened and moved on stands at the sum of its moves, so a move by
/// `k` more leads to the pair at the sum, or behind the last one. Behind the last one
/// it stays there.
pub proof fn law_cursor_stands_at_the_sum(counts: Seq<u32>, k: u32, len: nat)
    requires
        len <= usize::MAX,
    ensures
        walked(0, counts) == if total(counts) <= usize::MAX {
            total(counts) as usize
        } else {
            usize::MAX
        },
        model::moved_on(walked(0, counts), k) < len <==> total(counts) + k < len,
        total(counts) + k < len ==> model::moved_on(walked(0, counts), k) == total(counts) + k,
        walked(0, counts) >= len ==> model::moved_on(walked(0, counts), k) >= len,
    decreases counts.len(),
{
    if counts.len() > 0 {
        law_cursor_stands_at_the_sum(counts.drop_last(), counts.last(), len);
    }
}

/// A cursor walks the pairs: after moves whose sum is `n`, a move by `k` more finds the
/// pair at `n + k`, or nothing behind the last one.
pub proof fn law_cursor_walks_the_pairs(
    all: Seq<(Seq<char>, Seq<char>)>,
    counts: Seq<u32>,
    k: u32,
)
    requires
        all.len() <= usize::MAX,
    ensures
        rows::found_at(all, model::moved_on(walked(0, counts), k) as int) == if total(counts) + k
            < all.len() {
            Some(all[total(counts) + k])
        } else {
            None
        },
        rows::found_at(all, walked(0, counts) as int) is None ==> rows::found_at(
            all,
            model::moved_on(walked(0, counts), k) as int,
        ) is None,
{
    law_cursor_stands_at_the_sum(counts, k, all.len());
}

/// The ids of transactions and cursors go up, until the largest one.
pub proof fn law_ids_go_up(id: i64)
    ensures
        model::following_id(id) != id,
        id < i64::MAX ==> model::following_id(id) == id + 1,
{
}

/// A deleted index is no longer there, and every other is.
pub proof fn law_index_is_deleted(
    t: Tables,
    store_id: int,
    name: Seq<char>,
    other_store: int,
    other_name: Seq<char>,
)
    ensures
        tables::indexes_named(tables::without_index(t, store_id, name), store_id, name).len() == 0,
        other_store != store_id || other_name != name ==> tables::indexes_named(
            tables::without_index(t, store_id, name),
            other_store,
            other_name,
        ) == tables::indexes_named(t, other_store, other_name),
{
    let gone = |x: IndexRow| x.store_id == store_id && x.name == name;
    let kept = |x: IndexRow| !(x.store_id == store_id && x.name == name);
    let other = |x: IndexRow| x.store_id == other_store && x.name == other_name;
    let never = |x: IndexRow| false;
    rows::lemma_filter_twice(t.indexes, kept, gone, never);
    rows::lemma_filter_none(t.indexes, never);
    if other_store != store_id || other_name != name {
        rows::lemma_filter_twice(t.indexes, kept, other, other);
    }
}

/// A store without rows has none under any key.
pub proof fn lemma_no_rows_no_keys(t: Tables, store_id: int, key: Seq<char>)
    requires
        tables::rows_of(t, store_id).len() == 0,
    ensures
        tables::rows_with_key(t, store_id, key).len() == 0,
{
    let mine = |r: DataRow| r.store_id == store_id;
    let under = |r: DataRow| r.store_id == store_id && r.key == Some(key);
    let keyed = |r: DataRow| r.key == Some(key);
    rows::lemma_filter_twice(t.rows, mine, keyed, under);
    reveal(Seq::filter);
}

/// The keys of a store are those under which it holds something.
pub proof fn lemma_keys_hold(t: Tables, store_id: int, keys: Seq<Seq<char>>, key: Seq<char>)
    requires
        keys.to_multiset() == model::store_keys(t, store_id),
    ensures
        keys.contains(key) <==> exists|v: Seq<char>| model::holds(t, store_id, key, v),
{
    broadcast use vstd::seq_lib::group_to_multiset_ensures;

    let mine = |r: DataRow| r.store_id == store_id;
    let keyed = |r: DataRow| r.key is Some;
    let under = |r: DataRow| r.store_id == store_id && r.key == Some(key);
    let g = |r: DataRow| r.key->0;
    let all = t.rows.filter(mine);
    let named = all.filter(keyed);
    let found = t.rows.filter(under);
    assert(keys.contains(key) <==> keys.to_multiset().count(key) > 0);
    assert(named.map_values(g).contains(key) <==> named.map_values(g).to_multiset().count(key)
        > 0);
    if keys.contains(key) {
        let i = choose|i: int|
            0 <= i < named.map_values(g).len() && named.map_values(g)[i] == key;
        let row = named[i];
        assert(keyed(row) && row.key == Some(key));
        assert(named.contains(row));
        all.lemma_filter_contains_rev(keyed, row);
        let j = choose|j: int| 0 <= j < all.len() && all[j] == row;
        assert(mine(all[j]));
        t.rows.lemma_filter_contains_rev(mine, row);
        let k = choose|k: int| 0 <= k < t.rows.len() && t.rows[k] == row;
        t.rows.lemma_filter_contains(under, k);
        let m = choose|m: int| 0 <= m < found.len() && found[m] == row;
        assert(found[m].value == row.value);
        assert(model::holds(t, store_id, key, row.value));
    }
    if exists|v: Seq<char>| model::holds(t, store_id, key, v) {
        let v = choose|v: Seq<char>| model::holds(t, store_id, key, v);
        let i = choose|i: int| 0 <= i < found.len() && (#[trigger] found[i]).value == v;
        let row = found[i];
        assert(under(row));
        assert(found.contains(row));
        t.rows.lemma_filter_contains_rev(under, row);
        let k = choose|k: int| 0 <= k < t.rows.len() && t.rows[k] == row;
        t.rows.lemma_filter_contains(mine, k);
        let j = choose|j: int| 0 <= j < all.len() && all[j] == row;
        all.lemma_filter_contains(keyed, j);
        let m = choose|m: int| 0 <= m < named.len() && named[m] == row;
        assert(named.map_values(g)[m] == key);
    }
}

/// An index finds exactly the rows of its store that hold the key in its field.
pub proof fn law_index_finds_rows(
    t: Tables,
    store_id: int,
    name: Seq<char>,
    id: int,
    key: Seq<char>,
    es: Seq<EntryRow>,
)
    requires
        model::consistent(t),
        model::is_index(t, store_id, name, id),
        model::indexed_under(t, id, key, es),
    ensures
        model::entry_pairs(t, es).to_multiset() == model::found_pairs(t, store_id, name, key),
{
    consistency::lemma_index_finds(t, store_id, name, id, key, es);
}

/// A put into a store is found by an index on a field that its value has.
pub proof fn law_put_is_found_by_index(
    t: Tables,
    t2: Tables,
    store_id: int,
    key: Option<Seq<char>>,
    value: Seq<char>,
    key_path: Seq<char>,
    field: Seq<char>,
)
    requires
        model::row_put(t, t2, store_id, key, value),
        json::field_key(json::json_field(value, key_path)) == Some(field),
    ensures
        t2.indexes == t.indexes,
        model::rows_under(t2, store_id, key_path, field).last() == t2.rows.last(),
        model::rows_under(t2, store_id, key_path, field).len() > 0,
        model::row_pair(t2.rows.last()) == (model::put_key(key, t2.last_row), value),
{
    let base = match key {
        Some(k) => tables::without_key(t, store_id, k),
        None => t,
    };
    let row = t2.rows.last();
    let mine = |r: DataRow| r.store_id == store_id;
    let under = |r: DataRow| json::field_key(json::json_field(r.value, key_path)) == Some(field);
    rows::lemma_filter_push(base.rows, row, mine);
    rows::lemma_filter_push(base.rows.filter(mine), row, under);
}

/// Rows that are removed leave every index, and the other rows stay in it.
pub proof fn law_removed_rows_leave_indexes(
    t: Tables,
    gone: spec_fn(DataRow) -> bool,
    id: int,
    key: Seq<char>,
)
    requires
        tables::well_formed(t),
    ensures
        tables::entries_of(tables::without_rows(t, gone), id, key) == tables::entries_of(
            t,
            id,
            key,
        ).filter(|e: EntryRow| !tables::picks_row(t, gone, e.row_id)),
{
    let u = tables::without_rows(t, gone);
    let kept = |r: DataRow| !gone(r);
    let stays = |e: EntryRow| !tables::picks_row(t, gone, e.row_id);
    assert forall|e: EntryRow| #[trigger] u.entries.count(e) > 0 implies tables::has_row(
        u,
        e.row_id,
    ) by {
        assert(t.entries.count(e) > 0);
        let k = choose|k: int| 0 <= k < t.rows.len() && (#[trigger] t.rows[k]).id == e.row_id;
        assert(kept(t.rows[k]));
        t.rows.lemma_filter_contains(kept, k);
        let m = choose|m: int| 0 <= m < u.rows.len() && u.rows[m] == t.rows[k];
        assert(u.rows[m].id == e.row_id);
    }
    assert forall|e: EntryRow| #[trigger] tables::entries_of(u, id, key).count(e)
        == tables::entries_of(t, id, key).filter(stays).count(e) by {
        let there = t.entries.count(e);
        assert(u.entries.count(e) == if stays(e) {
            there
        } else {
            0
        });
        if there > 0 {
            assert(tables::has_row(t, e.row_id));
        }
        if stays(e) && there > 0 {
            assert(u.entries.count(e) > 0);
            assert(tables::has_row(u, e.row_id));
        }
    }
    assert(tables::entries_of(u, id, key) =~= tables::entries_of(t, id, key).filter(stays));
}

/// A value is stored under a key where a row of the store has that key and that value.
pub proof fn law_holds_what_a_row_has(
    t: Tables,
    store_id: int,
    key: Seq<char>,
    value: Seq<char>,
)
    ensures
        model::holds(t, store_id, key, value) <==> exists|i: int|
            0 <= i < t.rows.len() && (#[trigger] t.rows[i]).store_id == store_id && t.rows[i].key
                == Some(key) && t.rows[i].value == value,
{
    let under = |r: DataRow| r.store_id == store_id && r.key == Some(key);
    let found = t.rows.filter(under);
    if model::holds(t, store_id, key, value) {
        let i = choose|i: int| 0 <= i < found.len() && (#[trigger] found[i]).value == value;
        assert(under(found[i]));
        assert(found.contains(found[i]));
        t.rows.lemma_filter_contains_rev(under, found[i]);
        let k = choose|k: int| 0 <= k < t.rows.len() && t.rows[k] == found[i];
        assert(t.rows[k].store_id == store_id);
    }
    if exists|i: int|
        0 <= i < t.rows.len() && (#[trigger] t.rows[i]).store_id == store_id && t.rows[i].key
            == Some(key) && t.rows[i].value == value {
        let i = choose|i: int|
            0 <= i < t.rows.len() && (#[trigger] t.rows[i]).store_id == store_id && t.rows[i].key
                == Some(key) && t.rows[i].value == value;
        assert(under(t.rows[i]));
        t.rows.lemma_filter_contains(under, i);
        let k = choose|k: int| 0 <= k < found.len() && found[k] == t.rows[i];
        assert(found[k].value == value);
    }
}

/// The key of a put is the one that was given, else the id of its row in decimal.
pub proof fn law_key_of_put(key: Seq<char>, id: int)
    ensures
        model::put_key(Some(key), id) == key,
        model::put_key(None, id) == text::decimal(id),
{
}

/// A put adds one row behind the others, with a new id, the store, the key and the very
/// value that were given, and leaves the databases, the stores and the indexes.
pub proof fn law_put_adds_its_row(
    t: Tables,
    t2: Tables,
    store_id: int,
    key: Option<Seq<char>>,
    value: Seq<char>,
)
    requires
        model::row_put(t, t2, store_id, key, value),
    ensures
        t2.rows.len() > 0,
        t2.rows.last().id == t2.last_row,
        t2.rows.last().store_id == store_id,
        t2.rows.last().key == Some(
            match key {
                Some(k) => k,
                None => text::decimal(t2.last_row),
            },
        ),
        t2.rows.last().value == value,
        t.last_row < t2.last_row <= i64::MAX,
        tables::has_store(t, store_id),
        t2.versions == t.versions,
        t2.stores == t.stores,
        t2.indexes == t.indexes,
        t2.last_store == t.last_store,
        t2.last_index == t.last_index,
        forall|r: DataRow| #[trigger]
            t2.rows.drop_last().contains(r) <==> t.rows.contains(r) && !(r.store_id == store_id
                && key is Some && r.key == key),
{
    let base = match key {
        Some(k) => tables::without_key(t, store_id, k),
        None => t,
    };
    assert(t2.rows.drop_last() =~= base.rows);
    if let Some(k) = key {
        assert forall|r: DataRow| #[trigger]
            t2.rows.drop_last().contains(r) <==> t.rows.contains(r) && !(r.store_id == store_id
            && r.key == key) by {
            law_delete_takes_its_rows(t, store_id, k, r);
        }
    }
}

/// A delete takes the rows with its store and key, and leaves every other row.
pub proof fn law_delete_takes_its_rows(t: Tables, store_id: int, key: Seq<char>, r: DataRow)
    ensures
        tables::without_key(t, store_id, key).rows.contains(r) <==> t.rows.contains(r) && !(
        r.store_id == store_id && r.key == Some(key)),
        tables::without_key(t, store_id, key).versions == t.versions,
        tables::without_key(t, store_id, key).stores == t.stores,
        tables::without_key(t, store_id, key).indexes == t.indexes,
        tables::without_key(t, store_id, key).last_row == t.last_row,
{
    let gone = |r: DataRow| r.store_id == store_id && r.key == Some(key);
    lemma_rows_left(t, gone, r);
}

/// A clear takes the rows with its store, and leaves every other row.
pub proof fn law_clear_takes_its_rows(t: Tables, store_id: int, r: DataRow)
    ensures
        tables::without_store_rows(t, store_id).rows.contains(r) <==> t.rows.contains(r)
            && r.store_id != store_id,
        tables::without_store_rows(t, store_id).versions == t.versions,
        tables::without_store_rows(t, store_id).stores == t.stores,
        tables::without_store_rows(t, store_id).indexes == t.indexes,
        tables::without_store_rows(t, store_id).last_row == t.last_row,
{
    let gone = |r: DataRow| r.store_id == store_id;
    lemma_rows_left(t, gone, r);
}

/// What is left of the rows without those that are picked.
proof fn lemma_rows_left(t: Tables, gone: spec_fn(DataRow) -> bool, r: DataRow)
    ensures
        tables::without_rows(t, gone).rows.contains(r) <==> t.rows.contains(r) && !gone(r),
{
    let kept = |r: DataRow| !gone(r);
    let left = t.rows.filter(kept);
    assert(tables::without_rows(t, gone).rows == left);
    if left.contains(r) {
        let i = choose|i: int| 0 <= i < left.len() && left[i] == r;
        assert(kept(left[i]));
        t.rows.lemma_filter_contains_rev(kept, r);
    }
    if t.rows.contains(r) && !gone(r) {
        let i = choose|i: int| 0 <= i < t.rows.len() && t.rows[i] == r;
        t.rows.lemma_filter_contains(kept, i);
    }
}

/// A put that was staged has the effect of a direct one once it is committed: under its
/// key, given or generated, stands the value that was staged, and nothing else.
pub proof fn law_staged_put_is_a_put(
    t: Tables,
    t2: Tables,
    store_id: int,
    key: Option<Seq<char>>,
    value: Seq<char>,
)
    requires
        model::applied(model::Change::Put { store_id, key, value }, t, t2),
    ensures
        model::row_put(t, t2, store_id, key, value),
        tables::rows_with_key(t2, store_id, model::put_key(key, t2.last_row)).len() == 1,
        forall|v: Seq<char>| #[trigger]
            model::holds(t2, store_id, model::put_key(key, t2.last_row), v) <==> v == value,
        t2.rows.len() > 0,
        t2.rows.last().value == value,
        t2.rows.last().store_id == store_id,
        key matches Some(k) ==> t2.rows.last().key == Some(k),
        key is None ==> t2.rows.last().key == Some(text::decimal(t2.last_row)),
{
    law_get_gives_what_was_put(t, t2, store_id, key, value);
    law_put_adds_its_row(t, t2, store_id, key, value);
}

/// A delete that was staged leaves nothing under its key once it is committed, and every
/// other row.
pub proof fn law_staged_delete_is_a_delete(
    t: Tables,
    t2: Tables,
    store_id: int,
    key: Seq<char>,
    r: DataRow,
    v: Seq<char>,
)
    requires
        model::applied(model::Change::Delete { store_id, key }, t, t2),
    ensures
        t2 == tables::without_key(t, store_id, key),
        !model::holds(t2, store_id, key, v),
        t2.rows.contains(r) <==> t.rows.contains(r) && !(r.store_id == store_id && r.key == Some(
            key,
        )),
        t2.versions == t.versions,
        t2.stores == t.stores,
        t2.indexes == t.indexes,
{
    law_delete_takes_its_rows(t, store_id, key, r);
    law_delete_removes(t, store_id, key, store_id, key);
}

/// A clear that was staged leaves its store empty once it is committed, and the rows of
/// every other store.
pub proof fn law_staged_clear_is_a_clear(
    t: Tables,
    t2: Tables,
    store_id: int,
    key: Seq<char>,
    r: DataRow,
    v: Seq<char>,
)
    requires
        model::applied(model::Change::Clear { store_id }, t, t2),
    ensures
        t2 == tables::without_store_rows(t, store_id),
        tables::rows_of(t2, store_id).len() == 0,
        !model::holds(t2, store_id, key, v),
        t2.rows.contains(r) <==> t.rows.contains(r) && r.store_id != store_id,
        t2.versions == t.versions,
        t2.stores == t.stores,
        t2.indexes == t.indexes,
{
    law_clear_takes_its_rows(t, store_id, r);
    law_clear_empties(t, store_id, store_id);
    lemma_no_rows_no_keys(t2, store_id, key);
}

/// Every direct put, delete and clear is what the staged change comes to.
pub proof fn law_direct_changes_can_be_staged(
    t: Tables,
    t2: Tables,
    store_id: int,
    key: Option<Seq<char>>,
    value: Seq<char>,
    gone: Seq<char>,
)
    ensures
        model::row_put(t, t2, store_id, key, value) ==> model::applied(
            model::Change::Put { store_id, key, value },
            t,
            t2,
        ),
        model::applied(
            model::Change::Delete { store_id, key: gone },
            t,
            tables::without_key(t, store_id, gone),
        ),
        model::applied(
            model::Change::Clear { store_id },
            t,
            tables::without_store_rows(t, store_id),
        ),
{
}

/// A transaction of one put stores its value: what a commit leaves holds it under its
/// key, and the changes staged before it do not matter to that.
pub proof fn law_last_staged_put_stays(
    cs: Seq<model::Change>,
    t: Tables,
    t2: Tables,
    store_id: int,
    key: Seq<char>,
    value: Seq<char>,
    v: Seq<char>,
)
    requires
        model::all_applied(
            cs.push(model::Change::Put { store_id, key: Some(key), value }),
            t,
            t2,
        ),
    ensures
        model::holds(t2, store_id, key, v) <==> v == value,
{
    let c = model::Change::Put { store_id, key: Some(key), value };
    law_changes_in_order(cs, c, t, t2);
    let m = choose|m: Tables| model::all_applied(cs, t, m) && #[trigger] model::applied(c, m, t2);
    law_staged_put_is_a_put(m, t2, store_id, Some(key), value);
}

/// A change is staged behind those that were staged before, for an open transaction and a
/// store of its own. The other transactions, and the stores of this one, stay as they
/// were.
pub proof fn law_changes_are_staged_in_order(
    before: Map<i64, TransactionView>,
    tx_id: i64,
    store_id: i64,
    change: model::Change,
    after: Map<i64, TransactionView>,
    r: Result<(), StorageError>,
    other: i64,
)
    requires
        model::staging(before, tx_id, store_id, change, after, r),
    ensures
        r is Ok <==> before.contains_key(tx_id) && before[tx_id].store_ids.contains(store_id),
        r is Ok ==> after.contains_key(tx_id) && after[tx_id].changes == before[tx_id].changes.push(
            change,
        ) && after[tx_id].store_ids == before[tx_id].store_ids,
        r is Err ==> after == before,
        !before.contains_key(tx_id) ==> r is Err && r->Err_0 is UnknownTransaction,
        before.contains_key(tx_id) && !before[tx_id].store_ids.contains(store_id) ==> r is Err
            && r->Err_0 == StorageError::StoreNotInTransaction(store_id),
        after.contains_key(other) <==> before.contains_key(other),
        other != tx_id && before.contains_key(other) ==> after[other] == before[other],
{
}

/// A store is locked where an open transaction has it: one more transaction locks its own
/// stores, and without transactions nothing is locked.
pub proof fn law_transactions_lock_their_stores(
    transactions: Map<i64, TransactionView>,
    tx_id: i64,
    view: TransactionView,
    store_id: i64,
)
    requires
        !transactions.contains_key(tx_id),
    ensures
        !model::locked(Map::empty(), store_id),
        model::locked(transactions.insert(tx_id, view), store_id) <==> view.store_ids.contains(
            store_id,
        ) || model::locked(transactions, store_id),
{
    let more = transactions.insert(tx_id, view);
    if view.store_ids.contains(store_id) {
        assert(more.contains_key(tx_id) && more[tx_id].store_ids.contains(store_id));
    }
    if model::locked(transactions, store_id) {
        let tx = choose|tx: i64| #[trigger]
            transactions.contains_key(tx) && transactions[tx].store_ids.contains(store_id);
        assert(more.contains_key(tx) && more[tx].store_ids.contains(store_id));
    }
    if model::locked(more, store_id) {
        let tx = choose|tx: i64| #[trigger]
            more.contains_key(tx) && more[tx].store_ids.contains(store_id);
        if tx != tx_id {
            assert(transactions.contains_key(tx) && transactions[tx].store_ids.contains(store_id));
        }
    }
}

/// The id behind the largest one is the smallest.
pub proof fn law_ids_start_again()
    ensures
        model::following_id(i64::MAX) == i64::MIN,
{
}

/// A cursor goes on by the number that it is given, up to the largest position.
pub proof fn law_cursor_goes_on(position: usize, count: u32)
    ensures
        position + count <= usize::MAX ==> model::moved_on(position, count) == position + count,
        position + count > usize::MAX ==> model::moved_on(position, count) == usize::MAX,
{
}

/// A new store has the name, the key path and the setting that it was made with, and a new
/// id; a store that is there stays as it is. Rows and indexes stay in either case.
pub proof fn law_new_store_is_as_asked(
    t: Tables,
    t2: Tables,
    db: Seq<char>,
    name: Seq<char>,
    key_path: Option<Seq<char>>,
    auto_increment: bool,
)
    requires
        model::store_added(t, t2, db, name, key_path, auto_increment),
    ensures
        t.versions.contains_key(db),
        tables::stores_named(t, db, name).len() > 0 ==> t2 == t,
        tables::stores_named(t, db, name).len() == 0 ==> {
            &&& t2.stores.len() == t.stores.len() + 1
            &&& t2.stores.drop_last() == t.stores
            &&& t2.stores.last().db_name == db
            &&& t2.stores.last().store_name == name
            &&& t2.stores.last().key_path == key_path
            &&& t2.stores.last().auto_increment == auto_increment
            &&& t2.stores.last().id == t2.last_store
            &&& t2.last_store > t.last_store
        },
        t2.versions == t.versions,
        t2.rows == t.rows,
        t2.last_row == t.last_row,
        t2.indexes == t.indexes,
        t2.entries == t.entries,
{
    if tables::stores_named(t, db, name).len() == 0 {
        assert(t2.stores.drop_last() =~= t.stores);
    }
}

/// The one store of a name is a row with that name, in that database.
pub proof fn law_store_has_its_name(t: Tables, db: Seq<char>, name: Seq<char>, id: int)
    requires
        model::is_store(t, db, name, id),
    ensures
        exists|i: int|
            0 <= i < t.stores.len() && (#[trigger] t.stores[i]).id == id && t.stores[i].db_name
                == db && t.stores[i].store_name == name,
{
    let named = |s: tables::StoreRow| s.db_name == db && s.store_name == name;
    let found = t.stores.filter(named);
    assert(named(found[0]));
    assert(found.contains(found[0]));
    t.stores.lemma_filter_contains_rev(named, found[0]);
    let i = choose|i: int| 0 <= i < t.stores.len() && t.stores[i] == found[0];
    assert(t.stores[i].id == id);
}

/// The one index of a name is a row with that name, of that store.
pub proof fn law_index_has_its_name(t: Tables, store_id: int, name: Seq<char>, id: int)
    requires
        model::is_index(t, store_id, name, id),
    ensures
        exists|i: int|
            0 <= i < t.indexes.len() && (#[trigger] t.indexes[i]).id == id && t.indexes[i].store_id
                == store_id && t.indexes[i].name == name,
{
    let named = |x: IndexRow| x.store_id == store_id && x.name == name;
    let found = t.indexes.filter(named);
    assert(named(found[0]));
    assert(found.contains(found[0]));
    t.indexes.lemma_filter_contains_rev(named, found[0]);
    let i = choose|i: int| 0 <= i < t.indexes.len() && t.indexes[i] == found[0];
    assert(t.indexes[i].id == id);
}

} // verus!
