//! That every operation leaves the tables consistent.

use crate::storage::json;
use crate::storage::model;
use crate::storage::rows;
use crate::storage::tables;
use crate::storage::tables::{DataRow, EntryRow, IndexRow, Tables};
use vstd::multiset::Multiset;
use vstd::prelude::*;

verus! {

/// A row is found again by its id.
pub proof fn lemma_row_by_id(t: Tables, i: int)
    requires
        tables::well_formed(t),
        0 <= i < t.rows.len(),
    ensures
        tables::has_row(t, t.rows[i].id),
        tables::row_with(t, t.rows[i].id) == t.rows[i],
{
    let id = t.rows[i].id;
    let k = choose|k: int| 0 <= k < t.rows.len() && (#[trigger] t.rows[k]).id == id;
    assert(0 <= k < t.rows.len() && t.rows[k].id == id);
    if k < i {
        assert(t.rows[k].id < t.rows[i].id);
    }
    if i < k {
        assert(t.rows[i].id < t.rows[k].id);
    }
}

/// A row that was picked from those of a store is one of the table.
proof fn lemma_picked_row(t: Tables, store_id: int, p: spec_fn(DataRow) -> bool, i: int) -> (k: int)
    requires
        0 <= i < tables::rows_of(t, store_id).filter(p).len(),
    ensures
        p(tables::rows_of(t, store_id).filter(p)[i]),
        0 <= k < t.rows.len(),
        t.rows[k] == tables::rows_of(t, store_id).filter(p)[i],
{
    let mine = |r: DataRow| r.store_id == store_id;
    let all = t.rows.filter(mine);
    let row = all.filter(p)[i];
    assert(all.filter(p).contains(row));
    all.lemma_filter_contains_rev(p, row);
    t.rows.lemma_filter_contains_rev(mine, row);
    choose|k: int| 0 <= k < t.rows.len() && t.rows[k] == row
}

/// A row that was picked from those of a store is found again by its id.
pub proof fn lemma_row_found(t: Tables, store_id: int, p: spec_fn(DataRow) -> bool, i: int)
    requires
        tables::well_formed(t),
        0 <= i < tables::rows_of(t, store_id).filter(p).len(),
    ensures
        p(tables::rows_of(t, store_id).filter(p)[i]),
        tables::has_row(t, tables::rows_of(t, store_id).filter(p)[i].id),
        tables::row_with(t, tables::rows_of(t, store_id).filter(p)[i].id) == tables::rows_of(
            t,
            store_id,
        ).filter(p)[i],
{
    let k = lemma_picked_row(t, store_id, p, i);
    lemma_row_by_id(t, k);
}

/// Only one index has its id.
proof fn lemma_only_index(t: Tables, i: int, only: spec_fn(IndexRow) -> bool)
    requires
        tables::well_formed(t),
        0 <= i < t.indexes.len(),
        forall|x: IndexRow| #[trigger] only(x) == (x.id == t.indexes[i].id),
    ensures
        t.indexes.filter(only) == seq![t.indexes[i]],
{
    let key = |x: IndexRow| x.id;
    let found = t.indexes.filter(only);
    tables::lemma_filter_keeps_order(t.indexes, only, key);
    t.indexes.lemma_filter_contains(only, i);
    assert(found.contains(t.indexes[i]));
    if found.len() > 1 {
        assert(key(found[0]) < key(found[1]));
        assert(only(found[0]) && only(found[1]));
    }
    assert(found =~= seq![t.indexes[i]]);
}

/// Rows that are removed leave the tables consistent.
pub proof fn lemma_removal_consistent(t: Tables, gone: spec_fn(DataRow) -> bool)
    requires
        model::consistent(t),
    ensures
        model::consistent(tables::without_rows(t, gone)),
{
    let u = tables::without_rows(t, gone);
    let kept = |r: DataRow| !gone(r);
    let id = |r: DataRow| r.id;
    tables::lemma_removal_keeps(t, gone);
    tables::lemma_filter_keeps_order(t.rows, kept, id);
    assert forall|i: int| 0 <= i < u.rows.len() implies (#[trigger] u.rows[i]).key is Some by {
        assert(t.rows.contains(u.rows[i]));
    }
    assert forall|i: int, j: int| 0 <= i < j < u.rows.len() implies !((
    #[trigger] u.rows[i]).store_id == (#[trigger] u.rows[j]).store_id && u.rows[i].key
        == u.rows[j].key) by {
        assert(id(u.rows[i]) < id(u.rows[j]));
        assert(t.rows.contains(u.rows[i]) && t.rows.contains(u.rows[j]));
        let a = choose|a: int| 0 <= a < t.rows.len() && t.rows[a] == u.rows[i];
        let b = choose|b: int| 0 <= b < t.rows.len() && t.rows[b] == u.rows[j];
        assert(a < b || b < a);
    }
    assert forall|i: int| 0 <= i < u.indexes.len() implies model::entries_in(
        u,
        (#[trigger] u.indexes[i]).id,
    ) == model::index_entries(
        u,
        u.indexes[i].id,
        u.indexes[i].store_id,
        u.indexes[i].key_path,
    ) by {
        lemma_removal_complete(t, gone, i);
    }
}

proof fn lemma_removal_complete(t: Tables, gone: spec_fn(DataRow) -> bool, i: int)
    requires
        model::consistent(t),
        0 <= i < t.indexes.len(),
    ensures
        model::entries_in(tables::without_rows(t, gone), t.indexes[i].id) == model::index_entries(
            tables::without_rows(t, gone),
            t.indexes[i].id,
            t.indexes[i].store_id,
            t.indexes[i].key_path,
        ),
{
    let u = tables::without_rows(t, gone);
    let x = t.indexes[i];
    let kept = |r: DataRow| !gone(r);
    let stays = |e: EntryRow| !tables::picks_row(t, gone, e.row_id);
    let mine = |r: DataRow| r.store_id == x.store_id;
    let p = model::in_index(x.key_path);
    let h = model::entry_of(x.id, x.key_path);
    let all = |r: DataRow| mine(r) && p(r) && kept(r);
    let mine_in = |r: DataRow| mine(r) && p(r);
    let kept_mine = |r: DataRow| kept(r) && mine(r);
    rows::lemma_filter_twice(t.rows, mine, p, mine_in);
    rows::lemma_filter_twice(t.rows, mine_in, kept, all);
    rows::lemma_filter_twice(t.rows, kept, mine, kept_mine);
    rows::lemma_filter_twice(t.rows, kept_mine, p, all);
    let s = t.rows.filter(mine).filter(p);
    assert(tables::rows_of(t, x.store_id) == t.rows.filter(mine));
    assert(u.rows == t.rows.filter(kept));
    assert(tables::rows_of(u, x.store_id).filter(p) == s.filter(kept));
    assert forall|j: int| 0 <= j < s.len() implies kept(#[trigger] s[j]) == stays(h(s[j])) by {
        let k = lemma_picked_row(t, x.store_id, p, j);
        if gone(t.rows[k]) {
            assert(tables::picks_row(t, gone, s[j].id));
        }
        if tables::picks_row(t, gone, s[j].id) {
            let n = choose|n: int|
                0 <= n < t.rows.len() && (#[trigger] t.rows[n]).id == s[j].id && gone(t.rows[n]);
            assert(n == k || t.rows[n].id < t.rows[k].id || t.rows[k].id < t.rows[n].id);
        }
    }
    rows::lemma_filter_mapped(s, h, stays, kept);
    rows::lemma_filtered(s.map_values(h), stays);
    assert(model::entries_in(u, x.id) =~= model::entries_in(t, x.id).filter(stays));
}

/// Entries that lead to rows and indexes that are there keep the references.
pub proof fn lemma_more_entries(t: Tables, es: Multiset<EntryRow>)
    requires
        tables::well_formed(t),
        forall|e: EntryRow| #[trigger]
            es.count(e) > 0 ==> tables::has_index(t, e.index_id) && tables::has_row(t, e.row_id),
    ensures
        tables::well_formed(Tables { entries: t.entries.add(es), ..t }),
{
    let u = Tables { entries: t.entries.add(es), ..t };
    tables::lemma_same_references(t, u);
    assert forall|e: EntryRow| #[trigger] u.entries.count(e) > 0 implies tables::has_index(
        u,
        e.index_id,
    ) && tables::has_row(u, e.row_id) by {
        assert(t.entries.count(e) > 0 || es.count(e) > 0);
    }
}

/// What the mapped elements of a list hold comes from its elements.
proof fn lemma_mapped_from<A, B>(s: Seq<A>, h: spec_fn(A) -> B, e: B) -> (i: int)
    requires
        s.map_values(h).to_multiset().count(e) > 0,
    ensures
        0 <= i < s.len(),
        h(s[i]) == e,
{
    broadcast use vstd::seq_lib::group_to_multiset_ensures;

    assert(s.map_values(h).contains(e));
    let i = choose|i: int| 0 <= i < s.map_values(h).len() && s.map_values(h)[i] == e;
    i
}

/// A put leaves the tables consistent.
pub proof fn lemma_put_consistent(
    t: Tables,
    t2: Tables,
    store_id: int,
    key: Option<Seq<char>>,
    value: Seq<char>,
)
    requires
        model::consistent(t),
        model::row_put(t, t2, store_id, key, value),
    ensures
        model::consistent(t2),
{
    let id = t2.last_row;
    let k = model::put_key(key, id);
    let gone = |r: DataRow| r.store_id == store_id && r.key == Some(k);
    let base = match key {
        Some(k) => tables::without_key(t, store_id, k),
        None => t,
    };
    if key is Some {
        assert(base == tables::without_rows(t, gone));
        lemma_removal_consistent(t, gone);
    }
    assert(tables::has_store(base, store_id)) by {
        let i = choose|i: int| 0 <= i < t.stores.len() && (#[trigger] t.stores[i]).id == store_id;
        assert(base.stores[i].id == store_id);
    }
    let grown = tables::with_row(base, id, store_id, Some(k), value);
    let row = DataRow { id, store_id, key: Some(k), value };
    tables::lemma_row_keeps(base, id, store_id, Some(k), value);
    let new_entries = model::row_entries(t, store_id, id, value);
    let picked = tables::indexes_of(t, store_id).filter(model::indexes_value(value));
    let e_in = model::entry_in(id, value);
    let mine = |x: IndexRow| x.store_id == store_id;
    assert forall|e: EntryRow| #[trigger] new_entries.count(e) > 0 implies tables::has_index(
        grown,
        e.index_id,
    ) && tables::has_row(grown, e.row_id) by {
        let i = lemma_mapped_from(picked, e_in, e);
        assert(picked.contains(picked[i]));
        tables::indexes_of(t, store_id).lemma_filter_contains_rev(
            model::indexes_value(value),
            picked[i],
        );
        t.indexes.lemma_filter_contains_rev(mine, picked[i]);
        let n = choose|n: int| 0 <= n < t.indexes.len() && t.indexes[n] == picked[i];
        assert(grown.indexes[n].id == e.index_id);
        assert(grown.rows[base.rows.len() as int].id == id);
    }
    lemma_more_entries(grown, new_entries);
    let kept = |r: DataRow| !gone(r);
    assert forall|i: int| 0 <= i < base.rows.len() implies !gone(#[trigger] base.rows[i]) by {
        if key is Some {
            assert(kept(t.rows.filter(kept)[i]));
        } else if gone(t.rows[i]) {
            t.rows.lemma_filter_contains(gone, i);
        }
    }
    assert forall|i: int| 0 <= i < t2.indexes.len() implies model::entries_in(
        t2,
        (#[trigger] t2.indexes[i]).id,
    ) == model::index_entries(
        t2,
        t2.indexes[i].id,
        t2.indexes[i].store_id,
        t2.indexes[i].key_path,
    ) by {
        lemma_put_complete(t, base, t2, row, i);
    }
}

proof fn lemma_put_complete(t: Tables, base: Tables, t2: Tables, row: DataRow, i: int)
    requires
        tables::well_formed(t),
        model::consistent(base),
        base.indexes == t.indexes,
        t2.indexes == t.indexes,
        t2.rows == base.rows.push(row),
        t2.entries == base.entries.add(
            model::row_entries(t, row.store_id, row.id, row.value),
        ),
        0 <= i < t.indexes.len(),
    ensures
        model::entries_in(t2, t.indexes[i].id) == model::index_entries(
            t2,
            t.indexes[i].id,
            t.indexes[i].store_id,
            t.indexes[i].key_path,
        ),
{
    broadcast use vstd::seq_lib::group_to_multiset_ensures;

    let x = t.indexes[i];
    let q = |e: EntryRow| e.index_id == x.id;
    let only = |y: IndexRow| y.id == x.id;
    let mine = |y: IndexRow| y.store_id == row.store_id;
    let v = model::indexes_value(row.value);
    let e_in = model::entry_in(row.id, row.value);
    let mine_v = |y: IndexRow| mine(y) && v(y);
    let all = |y: IndexRow| mine_v(y) && only(y);
    let picked = t.indexes.filter(mine).filter(v);
    let new_entries = picked.map_values(e_in);
    // The new entries of this index are those of this index alone.
    rows::lemma_filter_mapped(picked, e_in, q, only);
    rows::lemma_filtered(new_entries, q);
    rows::lemma_filter_twice(t.indexes, mine, v, mine_v);
    rows::lemma_filter_twice(t.indexes, mine_v, only, all);
    rows::lemma_filter_twice(t.indexes, only, mine_v, all);
    lemma_only_index(t, i, only);
    let one = seq![x].filter(mine_v);
    assert(seq![x] =~= Seq::<IndexRow>::empty().push(x));
    rows::lemma_filter_push(Seq::<IndexRow>::empty(), x, mine_v);
    rows::lemma_filter_none(Seq::<IndexRow>::empty(), mine_v);
    assert(new_entries.to_multiset().filter(q) == one.map_values(e_in).to_multiset());
    assert(base.indexes[i] == x);
    assert(model::entries_in(t2, x.id) =~= model::entries_in(base, x.id).add(
        new_entries.to_multiset().filter(q),
    ));
    // The rows of the store of this index have grown by the row.
    let ours = |r: DataRow| r.store_id == x.store_id;
    let p = model::in_index(x.key_path);
    let h = model::entry_of(x.id, x.key_path);
    rows::lemma_filter_push(base.rows, row, ours);
    let before = base.rows.filter(ours);
    rows::lemma_filter_push(before, row, p);
    let held = before.filter(p).map_values(h);
    if mine_v(x) {
        assert(one =~= seq![x]);
        assert(one.map_values(e_in) =~= Seq::<EntryRow>::empty().push(e_in(x)));
        assert(h(row) == e_in(x));
        assert(before.push(row).filter(p).map_values(h) =~= held.push(h(row)));
        assert(held.push(h(row)).to_multiset() =~= held.to_multiset().insert(h(row)));
        assert(held.to_multiset().insert(h(row)) =~= held.to_multiset().add(
            one.map_values(e_in).to_multiset(),
        ));
    } else {
        assert(one =~= Seq::<IndexRow>::empty());
        assert(one.map_values(e_in) =~= Seq::<EntryRow>::empty());
        assert(held.to_multiset().add(Multiset::empty()) =~= held.to_multiset());
        if ours(row) {
            assert(!p(row));
        }
    }
}

/// An index that is removed leaves the tables consistent.
pub proof fn lemma_index_removal_consistent(t: Tables, store_id: int, name: Seq<char>)
    requires
        model::consistent(t),
    ensures
        model::consistent(tables::without_index(t, store_id, name)),
{
    let u = tables::without_index(t, store_id, name);
    let kept = |x: IndexRow| !(x.store_id == store_id && x.name == name);
    tables::lemma_index_removal_keeps(t, store_id, name);
    assert forall|i: int| 0 <= i < u.indexes.len() implies model::entries_in(
        u,
        (#[trigger] u.indexes[i]).id,
    ) == model::index_entries(
        u,
        u.indexes[i].id,
        u.indexes[i].store_id,
        u.indexes[i].key_path,
    ) by {
        let x = u.indexes[i];
        assert(kept(t.indexes.filter(kept)[i]));
        assert(u.indexes.contains(x));
        t.indexes.lemma_filter_contains_rev(kept, x);
        let k = choose|k: int| 0 <= k < t.indexes.len() && t.indexes[k] == x;
        if tables::names_index(t, store_id, name, x.id) {
            let n = choose|n: int|
                0 <= n < t.indexes.len() && (#[trigger] t.indexes[n]).id == x.id
                    && t.indexes[n].store_id == store_id && t.indexes[n].name == name;
            assert(n == k || t.indexes[n].id < t.indexes[k].id || t.indexes[k].id
                < t.indexes[n].id);
        }
        assert(model::entries_in(u, x.id) =~= model::entries_in(t, x.id));
        assert(model::entries_in(t, t.indexes[k].id) == model::index_entries(
            t,
            x.id,
            x.store_id,
            x.key_path,
        ));
    }
}

/// Tables whose rows, indexes and entries are those of consistent ones.
pub proof fn lemma_same_rows_consistent(t: Tables, u: Tables)
    requires
        model::consistent(t),
        tables::well_formed(u),
        u.rows == t.rows,
        u.indexes == t.indexes,
        u.entries == t.entries,
    ensures
        model::consistent(u),
{
    assert forall|i: int| 0 <= i < u.indexes.len() implies model::entries_in(
        u,
        (#[trigger] u.indexes[i]).id,
    ) == model::index_entries(
        u,
        u.indexes[i].id,
        u.indexes[i].store_id,
        u.indexes[i].key_path,
    ) by {
        assert(t.indexes[i] == u.indexes[i]);
    }
}

/// Filling one index anew leaves the tables consistent, where the other indexes are
/// complete.
proof fn lemma_indexed_consistent(t: Tables, m: Tables, id: int, store_id: int, key_path: Seq<char>)
    requires
        model::consistent(t),
        tables::well_formed(m),
        m.rows == t.rows,
        m.entries == t.entries,
        tables::has_index(m, id),
        forall|i: int|
            0 <= i < m.indexes.len() ==> ((#[trigger] m.indexes[i]).id == id
                && m.indexes[i].store_id == store_id && m.indexes[i].key_path == key_path) || (
            m.indexes[i].id != id && t.indexes.contains(m.indexes[i])),
    ensures
        model::consistent(model::indexed(m, id, store_id, key_path)),
{
    let u = model::indexed(m, id, store_id, key_path);
    let cleared = tables::without_entries(m, id);
    let new_entries = model::index_entries(m, id, store_id, key_path);
    let p = model::in_index(key_path);
    let h = model::entry_of(id, key_path);
    let picked = tables::rows_of(m, store_id).filter(p);
    tables::lemma_entries_keep(m, id);
    tables::lemma_same_references(m, cleared);
    assert forall|e: EntryRow| #[trigger] new_entries.count(e) > 0 implies e.index_id == id
        && tables::has_row(cleared, e.row_id) by {
        let i = lemma_mapped_from(picked, h, e);
        lemma_row_found(m, store_id, p, i);
    }
    lemma_more_entries(cleared, new_entries);
    assert(u == Tables { entries: cleared.entries.add(new_entries), ..cleared });
    assert forall|i: int| 0 <= i < u.indexes.len() implies model::entries_in(
        u,
        (#[trigger] u.indexes[i]).id,
    ) == model::index_entries(
        u,
        u.indexes[i].id,
        u.indexes[i].store_id,
        u.indexes[i].key_path,
    ) by {
        let x = m.indexes[i];
        if x.id == id {
            assert forall|e: EntryRow| #[trigger] model::entries_in(u, id).count(e)
                == new_entries.count(e) by {
                if new_entries.count(e) > 0 {
                    assert(e.index_id == id);
                }
            }
            assert(model::entries_in(u, id) =~= new_entries);
        } else {
            let k = choose|k: int| 0 <= k < t.indexes.len() && t.indexes[k] == x;
            assert forall|e: EntryRow| #[trigger] model::entries_in(u, x.id).count(e)
                == model::entries_in(t, x.id).count(e) by {
                if e.index_id == x.id && new_entries.count(e) > 0 {
                    assert(e.index_id == id);
                }
            }
            assert(model::entries_in(u, x.id) =~= model::entries_in(t, x.id));
            assert(model::entries_in(t, t.indexes[k].id) == model::index_entries(
                t,
                x.id,
                x.store_id,
                x.key_path,
            ));
        }
    }
}

/// Making an index leaves the tables consistent.
pub proof fn lemma_index_created_consistent(
    t: Tables,
    t2: Tables,
    store_id: int,
    name: Seq<char>,
    key_path: Seq<char>,
    id: int,
)
    requires
        model::consistent(t),
        model::index_created(t, t2, store_id, name, key_path, id),
    ensures
        model::consistent(t2),
{
    let named = tables::indexes_named(t, store_id, name);
    let p = |x: IndexRow| x.store_id == store_id && x.name == name;
    if named.len() > 0 {
        let m = tables::with_path(t, id, key_path);
        tables::lemma_path_keeps(t, id, key_path);
        assert(p(t.indexes.filter(p)[0]));
        assert(named.contains(named[0]));
        t.indexes.lemma_filter_contains_rev(p, named[0]);
        let k = choose|k: int| 0 <= k < t.indexes.len() && t.indexes[k] == named[0];
        assert(m.indexes[k].id == id);
        assert forall|i: int| 0 <= i < m.indexes.len() implies ((#[trigger] m.indexes[i]).id == id
            && m.indexes[i].store_id == store_id && m.indexes[i].key_path == key_path) || (
        m.indexes[i].id != id && t.indexes.contains(m.indexes[i])) by {
            if t.indexes[i].id == id {
                assert(i == k || t.indexes[i].id < t.indexes[k].id || t.indexes[k].id
                    < t.indexes[i].id);
            } else {
                assert(m.indexes[i] == t.indexes[i]);
            }
        }
        lemma_indexed_consistent(t, m, id, store_id, key_path);
    } else {
        let row = IndexRow { id, store_id, name, key_path };
        let m = tables::with_index(t, row);
        tables::lemma_index_keeps(t, row);
        assert(m.indexes[t.indexes.len() as int].id == id);
        assert forall|i: int| 0 <= i < m.indexes.len() implies ((#[trigger] m.indexes[i]).id == id
            && m.indexes[i].store_id == store_id && m.indexes[i].key_path == key_path) || (
        m.indexes[i].id != id && t.indexes.contains(m.indexes[i])) by {
            if i < t.indexes.len() {
                assert(t.indexes[i].id <= t.last_index);
            }
        }
        lemma_indexed_consistent(t, m, id, store_id, key_path);
    }
}

/// The entries of an index for a key are those of the rows under it.
pub proof fn lemma_entries_of_index(t: Tables, i: int, key: Seq<char>)
    requires
        model::consistent(t),
        0 <= i < t.indexes.len(),
    ensures
        tables::entries_of(t, t.indexes[i].id, key) == model::rows_under(
            t,
            t.indexes[i].store_id,
            t.indexes[i].key_path,
            key,
        ).map_values(model::entry_of(t.indexes[i].id, t.indexes[i].key_path)).to_multiset(),
{
    let x = t.indexes[i];
    let all = tables::rows_of(t, x.store_id);
    let p = model::in_index(x.key_path);
    let h = model::entry_of(x.id, x.key_path);
    let s = all.filter(p);
    let q = |e: EntryRow| e.index_id == x.id && e.key == key && tables::has_row(t, e.row_id);
    assert(t.entries.filter(q) =~= model::entries_in(t, x.id).filter(q));
    rows::lemma_filtered(s.map_values(h), q);
    let under = |r: DataRow| json::field_key(json::json_field(r.value, x.key_path)) == Some(key);
    assert forall|j: int| 0 <= j < s.len() implies under(#[trigger] s[j]) == q(h(s[j])) by {
        lemma_row_found(t, x.store_id, p, j);
    }
    rows::lemma_filter_mapped(s, h, q, under);
    rows::lemma_filter_twice(all, p, under, under);
}

/// What an index finds under a key.
pub proof fn lemma_index_finds(
    t: Tables,
    store_id: int,
    name: Seq<char>,
    id: int,
    key: Seq<char>,
    es: Seq<EntryRow>,
)
    requires
        model::consistent(t),
        model::is_index(t, store_id, name, id),
        model::indexed_under(t, id, key, es),
    ensures
        model::entry_pairs(t, es).to_multiset() == model::found_pairs(t, store_id, name, key),
{
    let named = |x: IndexRow| x.store_id == store_id && x.name == name;
    let x = tables::indexes_named(t, store_id, name)[0];
    assert(named(t.indexes.filter(named)[0]));
    assert(t.indexes.filter(named).contains(x));
    t.indexes.lemma_filter_contains_rev(named, x);
    let k = choose|k: int| 0 <= k < t.indexes.len() && t.indexes[k] == x;
    lemma_entries_of_index(t, k, key);
    let under = |r: DataRow| json::field_key(json::json_field(r.value, x.key_path)) == Some(key);
    let found = model::rows_under(t, store_id, x.key_path, key);
    let h = model::entry_of(x.id, x.key_path);
    let g = |e: EntryRow| model::row_pair(tables::row_with(t, e.row_id));
    let pair = |r: DataRow| model::row_pair(r);
    rows::lemma_mapped(es, found.map_values(h), g);
    assert forall|i: int| 0 <= i < found.len() implies found.map_values(h).map_values(g)[i]
        == #[trigger] found.map_values(pair)[i] by {
        lemma_row_found(t, store_id, under, i);
    }
    assert(found.map_values(h).map_values(g) =~= found.map_values(pair));
}

} // verus!
