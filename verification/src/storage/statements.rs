//! What is run on the database, one statement after the other.

use crate::storage::json;
use crate::storage::model;
use crate::storage::model::{Change, PutAnswers};
use crate::storage::rows;
use crate::storage::sqlite;
use crate::storage::sqlite::{Datum, Statement};
use crate::text;
use vstd::prelude::*;

verus! {

/// A staged change runs what the direct one does: a put its statements, a delete one
/// that takes the key out of the store, and a clear one that takes everything out.
pub proof fn law_staged_changes_run_as_direct_ones(
    store_id: int,
    key: Option<Seq<char>>,
    value: Seq<char>,
    gone: Seq<char>,
    a: PutAnswers,
)
    ensures
        model::change_statements(Change::Put { store_id, key, value }, a) == model::put_statements(
            store_id,
            key,
            value,
            a,
        ),
        model::change_statements(Change::Delete { store_id, key: gone }, a) == seq![
            Statement {
                sql: sqlite::DELETE_KEY@,
                values: seq![Datum::Integer(store_id), Datum::Text(gone)],
            },
        ],
        model::change_statements(Change::Clear { store_id }, a) == seq![
            Statement { sql: sqlite::DELETE_ROWS@, values: seq![Datum::Integer(store_id)] },
        ],
{
}

/// A put under a key takes out what is there and adds a row with the value, whole and
/// unchanged.
pub proof fn law_put_under_a_key_runs(
    store_id: int,
    key: Seq<char>,
    value: Seq<char>,
    tried: Seq<int>,
    id: int,
)
    ensures
        model::put_statements(
            store_id,
            Some(key),
            value,
            PutAnswers { tried, id, indexes: Seq::empty() },
        ) == seq![
            Statement {
                sql: sqlite::DELETE_KEY@,
                values: seq![Datum::Integer(store_id), Datum::Text(key)],
            },
            Statement {
                sql: sqlite::ADD_KEYED_ROW@,
                values: seq![Datum::Integer(store_id), Datum::Text(key), Datum::Text(value)],
            },
        ],
{
    lemma_no_entries(id, value);
    let ran = model::put_statements(
        store_id,
        Some(key),
        value,
        PutAnswers { tried, id, indexes: Seq::empty() },
    );
    assert(ran =~= seq![
        Statement {
            sql: sqlite::DELETE_KEY@,
            values: seq![Datum::Integer(store_id), Datum::Text(key)],
        },
        Statement {
            sql: sqlite::ADD_KEYED_ROW@,
            values: seq![Datum::Integer(store_id), Datum::Text(key), Datum::Text(value)],
        },
    ]);
}

/// A put without a key adds a row with the value, whole and unchanged, and sets its id as
/// its key.
pub proof fn law_put_without_a_key_runs(store_id: int, value: Seq<char>, id: int)
    ensures
        model::put_statements(
            store_id,
            None,
            value,
            PutAnswers { tried: Seq::empty(), id, indexes: Seq::empty() },
        ) == seq![
            Statement {
                sql: sqlite::ADD_ROW@,
                values: seq![Datum::Integer(store_id), Datum::Text(value)],
            },
            Statement {
                sql: sqlite::SET_KEY@,
                values: seq![Datum::Text(text::decimal(id)), Datum::Integer(id)],
            },
        ],
{
    lemma_no_entries(id, value);
    let ran = model::put_statements(
        store_id,
        None,
        value,
        PutAnswers { tried: Seq::empty(), id, indexes: Seq::empty() },
    );
    assert(model::tried_statements(store_id, value, Seq::empty()) == Seq::<Statement>::empty());
    assert(ran =~= seq![
        Statement {
            sql: sqlite::ADD_ROW@,
            values: seq![Datum::Integer(store_id), Datum::Text(value)],
        },
        Statement {
            sql: sqlite::SET_KEY@,
            values: seq![Datum::Text(text::decimal(id)), Datum::Integer(id)],
        },
    ]);
}

/// A row whose id is in use as a key is added and deleted again before the others are
/// tried.
pub proof fn law_rows_are_tried_in_order(
    store_id: int,
    value: Seq<char>,
    first: int,
    tried: Seq<int>,
    id: int,
    indexes: Seq<(int, Seq<char>)>,
)
    ensures
        model::put_statements(
            store_id,
            None,
            value,
            PutAnswers { tried: seq![first] + tried, id, indexes },
        ) == seq![
            Statement {
                sql: sqlite::ADD_ROW@,
                values: seq![Datum::Integer(store_id), Datum::Text(value)],
            },
            Statement { sql: sqlite::DELETE_ROW@, values: seq![Datum::Integer(first)] },
        ] + model::put_statements(store_id, None, value, PutAnswers { tried, id, indexes }),
{
    lemma_first_tried(store_id, value, first, tried);
    let whole = model::put_statements(
        store_id,
        None,
        value,
        PutAnswers { tried: seq![first] + tried, id, indexes },
    );
    let rest = model::put_statements(store_id, None, value, PutAnswers { tried, id, indexes });
    let front = seq![
        Statement {
            sql: sqlite::ADD_ROW@,
            values: seq![Datum::Integer(store_id), Datum::Text(value)],
        },
        Statement { sql: sqlite::DELETE_ROW@, values: seq![Datum::Integer(first)] },
    ];
    assert(whole =~= front + rest);
}

proof fn lemma_first_tried(store_id: int, value: Seq<char>, first: int, tried: Seq<int>)
    ensures
        model::tried_statements(store_id, value, seq![first] + tried) == seq![
            Statement {
                sql: sqlite::ADD_ROW@,
                values: seq![Datum::Integer(store_id), Datum::Text(value)],
            },
            Statement { sql: sqlite::DELETE_ROW@, values: seq![Datum::Integer(first)] },
        ] + model::tried_statements(store_id, value, tried),
    decreases tried.len(),
{
    let all = seq![first] + tried;
    let front = seq![
        Statement {
            sql: sqlite::ADD_ROW@,
            values: seq![Datum::Integer(store_id), Datum::Text(value)],
        },
        Statement { sql: sqlite::DELETE_ROW@, values: seq![Datum::Integer(first)] },
    ];
    if tried.len() == 0 {
        assert(all.drop_last() =~= Seq::<int>::empty());
        assert(model::tried_statements(store_id, value, Seq::empty()) == Seq::<Statement>::empty());
        assert(model::tried_statements(store_id, value, tried) == Seq::<Statement>::empty());
        assert(model::tried_statements(store_id, value, all) =~= front + model::tried_statements(
            store_id,
            value,
            tried,
        ));
    } else {
        assert(all.drop_last() =~= seq![first] + tried.drop_last());
        lemma_first_tried(store_id, value, first, tried.drop_last());
        assert(model::tried_statements(store_id, value, all) =~= front + model::tried_statements(
            store_id,
            value,
            tried,
        ));
    }
}

/// Without indexes there are no entries.
proof fn lemma_no_entries(id: int, value: Seq<char>)
    ensures
        Seq::<(int, Seq<char>)>::empty().filter(model::field_of(value)).map_values(
            model::entry_statement(id, value),
        ) == Seq::<Statement>::empty(),
{
    reveal(Seq::filter);
    assert(Seq::<(int, Seq<char>)>::empty().filter(model::field_of(value)).map_values(
        model::entry_statement(id, value),
    ) =~= Seq::<Statement>::empty());
}

/// A put adds its row to each index whose field the value has, with the key that it has
/// there, one index after the other.
pub proof fn law_put_runs_its_entries(
    store_id: int,
    key: Option<Seq<char>>,
    value: Seq<char>,
    a: PutAnswers,
    index: int,
    key_path: Seq<char>,
)
    ensures
        model::put_statements(
            store_id,
            key,
            value,
            PutAnswers { indexes: a.indexes.push((index, key_path)), ..a },
        ) == match json::field_key(json::json_field(value, key_path)) {
            Some(field) => model::put_statements(store_id, key, value, a).push(
                Statement {
                    sql: sqlite::ADD_ENTRY@,
                    values: seq![
                        Datum::Integer(index),
                        Datum::Text(field),
                        Datum::Integer(a.id),
                    ],
                },
            ),
            None => model::put_statements(store_id, key, value, a),
        },
{
    let x = (index, key_path);
    let picked = model::field_of(value);
    let entry = model::entry_statement(a.id, value);
    rows::lemma_filter_push(a.indexes, x, picked);
    let before = model::put_statements(store_id, key, value, a);
    let after = model::put_statements(
        store_id,
        key,
        value,
        PutAnswers { indexes: a.indexes.push(x), ..a },
    );
    if picked(x) {
        assert(a.indexes.filter(picked).push(x).map_values(entry) =~= a.indexes.filter(
            picked,
        ).map_values(entry).push(entry(x)));
        assert(after =~= before.push(entry(x)));
    }
}

/// An index is made, gets its field, is emptied, and is then filled from the rows that
/// were found.
pub proof fn law_index_is_made_and_filled(
    store_id: int,
    name: Seq<char>,
    key_path: Seq<char>,
    id: int,
)
    ensures
        model::index_statements(store_id, name, key_path, id, Seq::empty()) == seq![
            Statement {
                sql: sqlite::ADD_INDEX@,
                values: seq![Datum::Integer(store_id), Datum::Text(name), Datum::Text(key_path)],
            },
            Statement {
                sql: sqlite::SET_INDEX_PATH@,
                values: seq![Datum::Text(key_path), Datum::Integer(id)],
            },
            Statement { sql: sqlite::DELETE_ENTRIES@, values: seq![Datum::Integer(id)] },
        ],
{
    reveal(Seq::filter);
    let none = Seq::<(int, Seq<char>)>::empty();
    assert(none.filter(model::value_has(key_path)).map_values(
        model::indexing_statement(id, key_path),
    ) =~= Seq::<Statement>::empty());
    assert(model::index_statements(store_id, name, key_path, id, none) =~= seq![
        Statement {
            sql: sqlite::ADD_INDEX@,
            values: seq![Datum::Integer(store_id), Datum::Text(name), Datum::Text(key_path)],
        },
        Statement {
            sql: sqlite::SET_INDEX_PATH@,
            values: seq![Datum::Text(key_path), Datum::Integer(id)],
        },
        Statement { sql: sqlite::DELETE_ENTRIES@, values: seq![Datum::Integer(id)] },
    ]);
}

/// Each row that was found and has the field gets an entry, with the key that it has
/// there, one row after the other.
pub proof fn law_index_is_filled_in_order(
    store_id: int,
    name: Seq<char>,
    key_path: Seq<char>,
    id: int,
    found: Seq<(int, Seq<char>)>,
    row_id: int,
    value: Seq<char>,
)
    ensures
        model::index_statements(store_id, name, key_path, id, found.push((row_id, value)))
            == match json::field_key(json::json_field(value, key_path)) {
            Some(field) => model::index_statements(store_id, name, key_path, id, found).push(
                Statement {
                    sql: sqlite::ADD_ENTRY@,
                    values: seq![
                        Datum::Integer(id),
                        Datum::Text(field),
                        Datum::Integer(row_id),
                    ],
                },
            ),
            None => model::index_statements(store_id, name, key_path, id, found),
        },
{
    let r = (row_id, value);
    let picked = model::value_has(key_path);
    let entry = model::indexing_statement(id, key_path);
    rows::lemma_filter_push(found, r, picked);
    let before = model::index_statements(store_id, name, key_path, id, found);
    let after = model::index_statements(store_id, name, key_path, id, found.push(r));
    if picked(r) {
        assert(found.filter(picked).push(r).map_values(entry) =~= found.filter(picked).map_values(
            entry,
        ).push(entry(r)));
        assert(after =~= before.push(entry(r)));
    }
}

/// A store is made with the database, the name, the key path and the setting that were
/// given.
pub proof fn law_store_is_made_as_asked(
    db: Seq<char>,
    name: Seq<char>,
    key_path: Seq<char>,
    auto_increment: bool,
)
    ensures
        model::store_statement(db, name, Some(key_path), auto_increment).sql == sqlite::ADD_STORE@,
        model::store_statement(db, name, Some(key_path), auto_increment).values == seq![
            Datum::Text(db),
            Datum::Text(name),
            Datum::Text(key_path),
            Datum::Integer(
                if auto_increment {
                    1
                } else {
                    0
                },
            ),
        ],
        model::store_statement(db, name, None, auto_increment).sql == sqlite::ADD_STORE@,
        model::store_statement(db, name, None, auto_increment).values == seq![
            Datum::Text(db),
            Datum::Text(name),
            Datum::Null,
            Datum::Integer(
                if auto_increment {
                    1
                } else {
                    0
                },
            ),
        ],
{
}

/// Statements that belong together stand between the start and the commit of a
/// transaction or, within one, behind a savepoint that is released at the end.
pub proof fn law_statements_stand_together(log: Seq<Statement>, nested: bool)
    ensures
        model::as_one(log, nested).len() == log.len() + 2,
        model::as_one(log, nested).subrange(1, (log.len() + 1) as int) == log,
        model::as_one(log, nested)[0] == (Statement {
            sql: if nested {
                sqlite::SAVEPOINT@
            } else {
                sqlite::BEGIN@
            },
            values: Seq::empty(),
        }),
        model::as_one(log, nested)[(log.len() + 1) as int] == (Statement {
            sql: if nested {
                sqlite::RELEASE@
            } else {
                sqlite::COMMIT@
            },
            values: Seq::empty(),
        }),
        model::as_transaction(log) == model::as_one(log, false),
{
    assert(model::as_one(log, nested).subrange(1, (log.len() + 1) as int) =~= log);
}

/// The ids and texts of a list are those of its members, in their order.
pub proof fn law_numbered_texts_are_listed(v: Seq<(i64, String)>, i: int)
    requires
        0 <= i < v.len(),
    ensures
        model::numbered(v).len() == v.len(),
        model::numbered(v)[i].0 == v[i].0,
        model::numbered(v)[i].1 == v[i].1@,
{
}

} // verus!
