//! Reading the rows of a query, and lists of rows in another order.

use crate::storage::error::{Kind, StorageError};
use crate::storage::sqlite;
use crate::storage::sqlite::{Cell, Datum};
use vstd::prelude::*;

verus! {

/// The texts that a list of string pairs holds.
pub open spec fn pairs(s: Seq<(String, String)>) -> Seq<(Seq<char>, Seq<char>)> {
    s.map_values(|p: (String, String)| (p.0@, p.1@))
}

/// The number in the first column of a row.
pub open spec fn integer_of(row: Seq<Datum>) -> Option<int> {
    if row.len() > 0 && row[0] is Integer {
        Some(row[0]->Integer_0)
    } else {
        None
    }
}

/// The text in the first column of a row.
pub open spec fn text_of(row: Seq<Datum>) -> Option<Seq<char>> {
    if row.len() > 0 && row[0] is Text {
        Some(row[0]->Text_0)
    } else {
        None
    }
}

/// The key and the value of a row with these two columns. A missing key reads as
/// the empty text.
pub open spec fn pair_of(row: Seq<Datum>) -> Option<(Seq<char>, Seq<char>)> {
    if row.len() < 2 || !(row[1] is Text) {
        None
    } else if row[0] is Text {
        Some((row[0]->Text_0, row[1]->Text_0))
    } else if row[0] is Null {
        Some((Seq::empty(), row[1]->Text_0))
    } else {
        None
    }
}

/// The id and the text of a row with these two columns.
pub open spec fn numbered_of(row: Seq<Datum>) -> Option<(int, Seq<char>)> {
    if row.len() >= 2 && row[0] is Integer && row[1] is Text {
        Some((row[0]->Integer_0, row[1]->Text_0))
    } else {
        None
    }
}

/// The type of a value.
pub open spec fn kind_of(d: Datum) -> Kind {
    match d {
        Datum::Null => Kind::Null,
        Datum::Integer(_) => Kind::Integer,
        Datum::Text(_) => Kind::Text,
        Datum::Real => Kind::Real,
        Datum::Blob => Kind::Blob,
    }
}

/// Whether the error tells what stands in a column, which has this name, in place of
/// what was expected there.
pub open spec fn misread(e: StorageError, row: Seq<Datum>, i: int, name: Seq<char>) -> bool {
    if i < row.len() {
        &&& e is UnexpectedValue
        &&& e->found == kind_of(row[i])
        &&& e->index == i
        &&& e->name@ == name
    } else {
        e is MissingColumn && e->MissingColumn_0 == i
    }
}

/// The error for a column that holds something else.
fn misreading(row: &Vec<Cell>, i: usize, name: &str) -> (e: StorageError)
    ensures
        misread(e, sqlite::cells(row@), i as int, name@),
{
    if i < row.len() {
        let found = match &row[i] {
            Cell::Null => Kind::Null,
            Cell::Integer(_) => Kind::Integer,
            Cell::Text(_) => Kind::Text,
            Cell::Real => Kind::Real,
            Cell::Blob => Kind::Blob,
        };
        StorageError::UnexpectedValue { found, index: i, name: name.to_string() }
    } else {
        StorageError::MissingColumn(i)
    }
}

/// The number in a column.
fn integer_at(row: &Vec<Cell>, i: usize, name: &str) -> (r: Result<i64, StorageError>)
    ensures
        match r {
            Ok(n) => i < row@.len() && row@[i as int]@ == Datum::Integer(n as int),
            Err(e) => !(i < row@.len() && row@[i as int]@ is Integer) && misread(
                e,
                sqlite::cells(row@),
                i as int,
                name@,
            ),
        },
{
    if i < row.len() {
        match &row[i] {
            Cell::Integer(n) => return Ok(*n),
            _ => {},
        }
    }
    Err(misreading(row, i, name))
}

/// The text in a column.
fn text_at(row: &Vec<Cell>, i: usize, name: &str) -> (r: Result<String, StorageError>)
    ensures
        match r {
            Ok(s) => i < row@.len() && row@[i as int]@ == Datum::Text(s@),
            Err(e) => !(i < row@.len() && row@[i as int]@ is Text) && misread(
                e,
                sqlite::cells(row@),
                i as int,
                name@,
            ),
        },
{
    if i < row.len() {
        match &row[i] {
            Cell::Text(s) => return Ok(s.clone()),
            _ => {},
        }
    }
    Err(misreading(row, i, name))
}

/// What the first row gives where a number is looked for in its first column.
pub open spec fn reads_integer(
    t: Seq<Seq<Datum>>,
    name: Seq<char>,
    r: Result<i64, StorageError>,
) -> bool {
    match r {
        Ok(n) => t.len() > 0 && integer_of(t[0]) == Some(n as int),
        Err(StorageError::NoRow) => t.len() == 0,
        Err(e) => t.len() > 0 && integer_of(t[0]) is None && misread(e, t[0], 0, name),
    }
}

/// The number in the first column of the only row that counts, the first.
pub fn first_integer(rows: &Vec<Vec<Cell>>, name: &str) -> (r: Result<i64, StorageError>)
    ensures
        reads_integer(sqlite::table(rows@), name@, r),
{
    assert(sqlite::table(rows@).len() == rows@.len());
    if rows.len() == 0 {
        return Err(StorageError::NoRow);
    }
    integer_at(&rows[0], 0, name)
}

/// What the first row, if there is one, gives where a text is looked for in its first
/// column.
pub open spec fn reads_text(
    t: Seq<Seq<Datum>>,
    name: Seq<char>,
    r: Result<Option<String>, StorageError>,
) -> bool {
    match r {
        Ok(Some(s)) => t.len() > 0 && text_of(t[0]) == Some(s@),
        Ok(None) => t.len() == 0,
        Err(e) => t.len() > 0 && text_of(t[0]) is None && misread(e, t[0], 0, name),
    }
}

/// The text in the first column of the first row, if there is a row.
pub fn first_text(rows: &Vec<Vec<Cell>>, name: &str) -> (r: Result<Option<String>, StorageError>)
    ensures
        reads_text(sqlite::table(rows@), name@, r),
{
    assert(sqlite::table(rows@).len() == rows@.len());
    if rows.len() == 0 {
        return Ok(None);
    }
    match text_at(&rows[0], 0, name) {
        Ok(s) => Ok(Some(s)),
        Err(e) => Err(e),
    }
}

/// What the rows give where texts are looked for in the first column: the texts, or the
/// error of the first row without one.
pub open spec fn reads_texts(
    t: Seq<Seq<Datum>>,
    name: Seq<char>,
    r: Result<Vec<String>, StorageError>,
) -> bool {
    match r {
        Ok(v) => v@.len() == t.len() && forall|i: int|
            0 <= i < v@.len() ==> text_of(#[trigger] t[i]) == Some(v@[i]@),
        Err(e) => exists|i: int|
            {
                &&& 0 <= i < t.len()
                &&& text_of(#[trigger] t[i]) is None
                &&& misread(e, t[i], 0, name)
                &&& forall|j: int| 0 <= j < i ==> text_of(#[trigger] t[j]) is Some
            },
    }
}

/// The texts in the first column. The first row without one gives the error.
pub fn first_texts(rows: &Vec<Vec<Cell>>, name: &str) -> (r: Result<Vec<String>, StorageError>)
    ensures
        reads_texts(sqlite::table(rows@), name@, r),
{
    let ghost t = sqlite::table(rows@);
    assert(t.len() == rows@.len());
    let mut out: Vec<String> = Vec::new();
    let mut i: usize = 0;
    while i < rows.len()
        invariant
            i <= rows@.len(),
            t == sqlite::table(rows@),
            t.len() == rows@.len(),
            out@.len() == i,
            forall|j: int| 0 <= j < i ==> text_of(#[trigger] t[j]) == Some(out@[j]@),
        decreases rows@.len() - i,
    {
        let ghost now = t[i as int];
        match text_at(&rows[i], 0, name) {
            Ok(s) => out.push(s),
            Err(e) => {
                assert(text_of(now) is None);
                return Err(e);
            },
        }
        assert(text_of(now) == Some(out@[i as int]@));
        i += 1;
    }
    Ok(out)
}

/// Whether the error tells why a row has no key and value.
pub open spec fn pair_misread(e: StorageError, row: Seq<Datum>) -> bool {
    if row.len() > 0 && (row[0] is Text || row[0] is Null) {
        misread(e, row, 1, "value"@)
    } else {
        misread(e, row, 0, "key_val"@)
    }
}

/// Whether every row has a key and a value.
pub open spec fn all_pairs(t: Seq<Seq<Datum>>) -> bool {
    forall|i: int| 0 <= i < t.len() ==> pair_of(#[trigger] t[i]) is Some
}

/// The keys and values of the rows.
pub open spec fn pairs_of(t: Seq<Seq<Datum>>) -> Seq<(Seq<char>, Seq<char>)> {
    t.map_values(|row: Seq<Datum>| pair_of(row)->0)
}

/// What the rows give where keys and values are looked for: the pairs, or the error of
/// the first row that has not got them.
pub open spec fn reads_pairs(
    t: Seq<Seq<Datum>>,
    r: Result<Vec<(String, String)>, StorageError>,
) -> bool {
    match r {
        Ok(v) => all_pairs(t) && pairs(v@) == pairs_of(t),
        Err(e) => pairs_fail(t, e),
    }
}

/// Whether the error is that of the first row without a key and a value.
pub open spec fn pairs_fail(t: Seq<Seq<Datum>>, e: StorageError) -> bool {
    exists|i: int|
        {
            &&& 0 <= i < t.len()
            &&& pair_of(#[trigger] t[i]) is None
            &&& pair_misread(e, t[i])
            &&& forall|j: int| 0 <= j < i ==> pair_of(#[trigger] t[j]) is Some
        }
}

/// The keys and values of rows with these two columns. The first row that has not got
/// them gives the error.
pub fn key_values(rows: &Vec<Vec<Cell>>) -> (r: Result<Vec<(String, String)>, StorageError>)
    ensures
        reads_pairs(sqlite::table(rows@), r),
{
    let ghost t = sqlite::table(rows@);
    assert(t.len() == rows@.len());
    let mut out: Vec<(String, String)> = Vec::new();
    let mut i: usize = 0;
    while i < rows.len()
        invariant
            i <= rows@.len(),
            t == sqlite::table(rows@),
            t.len() == rows@.len(),
            out@.len() == i,
            forall|j: int|
                0 <= j < i ==> pair_of(#[trigger] t[j]) == Some((out@[j].0@, out@[j].1@)),
        decreases rows@.len() - i,
    {
        let row = &rows[i];
        let ghost now = t[i as int];
        let no_key = row.len() > 0 && matches!(&row[0], Cell::Null);
        let key = if no_key {
            String::new()
        } else {
            match text_at(row, 0, "key_val") {
                Ok(s) => s,
                Err(e) => {
                    assert(pair_of(now) is None);
                    return Err(e);
                },
            }
        };
        match text_at(row, 1, "value") {
            Ok(s) => out.push((key, s)),
            Err(e) => {
                assert(pair_of(now) is None);
                return Err(e);
            },
        }
        assert(pair_of(now) == Some((out@[i as int].0@, out@[i as int].1@)));
        i += 1;
    }
    assert(pairs(out@) =~= pairs_of(t));
    Ok(out)
}

/// Whether the error tells why a row has no id and text.
pub open spec fn numbered_misread(e: StorageError, row: Seq<Datum>, name: Seq<char>) -> bool {
    if row.len() > 0 && row[0] is Integer {
        misread(e, row, 1, name)
    } else {
        misread(e, row, 0, "id"@)
    }
}

/// The ids and texts of rows with these two columns, of which the second has the name
/// given. The first row that has not got them gives the error.
pub fn numbered_texts(rows: &Vec<Vec<Cell>>, name: &str) -> (r: Result<
    Vec<(i64, String)>,
    StorageError,
>)
    ensures
        match r {
            Ok(v) => v@.len() == rows@.len() && forall|i: int|
                0 <= i < v@.len() ==> numbered_of(#[trigger] sqlite::table(rows@)[i]) == Some(
                    (v@[i].0 as int, v@[i].1@),
                ),
            Err(e) => exists|i: int|
                {
                    &&& 0 <= i < rows@.len()
                    &&& numbered_of(#[trigger] sqlite::table(rows@)[i]) is None
                    &&& numbered_misread(e, sqlite::table(rows@)[i], name@)
                    &&& forall|j: int|
                        0 <= j < i ==> numbered_of(#[trigger] sqlite::table(rows@)[j]) is Some
                },
        },
{
    let mut out: Vec<(i64, String)> = Vec::new();
    let mut i: usize = 0;
    while i < rows.len()
        invariant
            i <= rows@.len(),
            out@.len() == i,
            forall|j: int|
                0 <= j < i ==> numbered_of(#[trigger] sqlite::table(rows@)[j]) == Some(
                    (out@[j].0 as int, out@[j].1@),
                ),
        decreases rows@.len() - i,
    {
        let row = &rows[i];
        let ghost now = sqlite::table(rows@)[i as int];
        let id: i64 = match integer_at(row, 0, "id") {
            Ok(n) => n,
            Err(e) => {
                assert(numbered_of(now) is None);
                return Err(e);
            },
        };
        match text_at(row, 1, name) {
            Ok(s) => out.push((id, s)),
            Err(e) => {
                assert(numbered_of(now) is None);
                return Err(e);
            },
        }
        assert(numbered_of(now) == Some((out@[i as int].0 as int, out@[i as int].1@)));
        i += 1;
    }
    Ok(out)
}

/// What a query for a number returns for its answer.
pub open spec fn integer_answer(
    answer: Option<Seq<Seq<Datum>>>,
    name: Seq<char>,
    r: Result<i64, StorageError>,
) -> bool {
    match answer {
        Some(t) => reads_integer(t, name, r),
        None => r is Err && r->Err_0 is Sqlite,
    }
}

/// What a query for a number that need not be there returns for its answer.
pub open spec fn optional_integer_answer(
    answer: Option<Seq<Seq<Datum>>>,
    name: Seq<char>,
    r: Result<Option<i64>, StorageError>,
) -> bool {
    match r {
        Ok(Some(n)) => integer_answer(answer, name, Ok(n)),
        Ok(None) => answer is Some && answer->0.len() == 0,
        Err(e) => !(e is NoRow) && integer_answer(answer, name, Err(e)),
    }
}

/// What a query for a number of rows returns for its answer.
pub open spec fn count_answer(
    answer: Option<Seq<Seq<Datum>>>,
    name: Seq<char>,
    r: Result<usize, StorageError>,
) -> bool {
    match r {
        Ok(n) => exists|i: i64| #[trigger]
            integer_answer(answer, name, Ok(i)) && n == i as usize,
        Err(e) => integer_answer(answer, name, Err(e)),
    }
}

/// What a query for a text that need not be there returns for its answer.
pub open spec fn text_answer(
    answer: Option<Seq<Seq<Datum>>>,
    name: Seq<char>,
    r: Result<Option<String>, StorageError>,
) -> bool {
    match answer {
        Some(t) => reads_text(t, name, r),
        None => r is Err && r->Err_0 is Sqlite,
    }
}

/// What a query for texts returns for its answer.
pub open spec fn texts_answer(
    answer: Option<Seq<Seq<Datum>>>,
    name: Seq<char>,
    r: Result<Vec<String>, StorageError>,
) -> bool {
    match answer {
        Some(t) => reads_texts(t, name, r),
        None => r is Err && r->Err_0 is Sqlite,
    }
}

/// What a query for keys and values returns for its answer.
pub open spec fn pairs_answer(
    answer: Option<Seq<Seq<Datum>>>,
    r: Result<Vec<(String, String)>, StorageError>,
) -> bool {
    match answer {
        Some(t) => reads_pairs(t, r),
        None => r is Err && r->Err_0 is Sqlite,
    }
}

/// The pair at a position, or `None` behind the last one.
pub open spec fn found_at(all: Seq<(Seq<char>, Seq<char>)>, at: int) -> Option<
    (Seq<char>, Seq<char>),
> {
    if 0 <= at < all.len() {
        Some(all[at])
    } else {
        None
    }
}

/// The texts of a pair.
pub open spec fn pair_texts(p: Option<(String, String)>) -> Option<(Seq<char>, Seq<char>)> {
    match p {
        Some(p) => Some((p.0@, p.1@)),
        None => None,
    }
}

/// Taking an element out of a list takes it out of what the list holds.
proof fn lemma_take_out<A>(s: Seq<A>, x: A) -> (j: int)
    requires
        s.to_multiset().count(x) > 0,
    ensures
        0 <= j < s.len(),
        s[j] == x,
        s.remove(j).to_multiset() == s.to_multiset().remove(x),
        s.remove(j).to_multiset().insert(x) == s.to_multiset(),
{
    broadcast use vstd::seq_lib::group_to_multiset_ensures;

    assert(s.contains(x));
    let j = choose|j: int| 0 <= j < s.len() && s[j] == x;
    assert(s.remove(j).to_multiset() =~= s.to_multiset().remove(x));
    assert(s.remove(j).to_multiset().insert(x) =~= s.to_multiset());
    j
}

/// Two lists that hold the same still do after each element is mapped.
pub proof fn lemma_mapped<A, B>(a: Seq<A>, b: Seq<A>, f: spec_fn(A) -> B)
    requires
        a.to_multiset() == b.to_multiset(),
    ensures
        a.map_values(f).to_multiset() == b.map_values(f).to_multiset(),
    decreases a.len(),
{
    broadcast use vstd::seq_lib::group_to_multiset_ensures;

    if a.len() == 0 {
        assert(a.to_multiset().len() == 0);
        assert(b.len() == 0);
        assert(a.map_values(f) =~= b.map_values(f));
    } else {
        let x = a.last();
        let front = a.drop_last();
        assert(a =~= front.push(x));
        assert(front.to_multiset().insert(x) =~= a.to_multiset());
        let j = lemma_take_out(b, x);
        let rest = b.remove(j);
        assert(front.to_multiset() =~= rest.to_multiset());
        lemma_mapped(front, rest, f);
        assert(a.map_values(f) =~= front.map_values(f).push(f(x)));
        assert(b.map_values(f).remove(j) =~= rest.map_values(f));
        assert(b.map_values(f)[j] == f(x));
        assert(b.map_values(f).to_multiset() =~= rest.map_values(f).to_multiset().insert(f(x)));
    }
}

/// What a filter keeps of a list is what it keeps of what the list holds.
pub proof fn lemma_filtered<A>(s: Seq<A>, p: spec_fn(A) -> bool)
    ensures
        s.filter(p).to_multiset() == s.to_multiset().filter(p),
    decreases s.len(),
{
    broadcast use vstd::seq_lib::group_to_multiset_ensures;

    reveal(Seq::filter);
    if s.len() == 0 {
        assert(s.filter(p).to_multiset() =~= s.to_multiset().filter(p));
    } else {
        let front = s.drop_last();
        lemma_filtered(front, p);
        assert(s =~= front.push(s.last()));
        assert(s.filter(p).to_multiset() =~= s.to_multiset().filter(p));
    }
}

/// A list that holds what the mapped elements of another hold comes from that other
/// list in some order.
pub proof fn lemma_arranged<A, B>(z: Seq<B>, x: Seq<A>, f: spec_fn(A) -> B) -> (y: Seq<A>)
    requires
        z.to_multiset() == x.map_values(f).to_multiset(),
    ensures
        y.to_multiset() == x.to_multiset(),
        y.map_values(f) == z,
    decreases z.len(),
{
    broadcast use vstd::seq_lib::group_to_multiset_ensures;

    if z.len() == 0 {
        assert(x.map_values(f).to_multiset().len() == 0);
        assert(x.map_values(f).len() == 0);
        assert(x.map_values(f) =~= z);
        x
    } else {
        let last = z.last();
        let front = z.drop_last();
        assert(z =~= front.push(last));
        assert(front.to_multiset().insert(last) =~= z.to_multiset());
        let j = lemma_take_out(x.map_values(f), last);
        let rest = x.remove(j);
        assert(x.map_values(f).remove(j) =~= rest.map_values(f));
        assert(front.to_multiset() =~= rest.map_values(f).to_multiset());
        let y = lemma_arranged(front, rest, f);
        let out = y.push(x[j]);
        assert(out.to_multiset() =~= x.to_multiset());
        assert(out.map_values(f) =~= z);
        out
    }
}

/// A list that holds what one with at most one element holds is that list.
pub proof fn lemma_only<A>(z: Seq<A>, x: Seq<A>)
    requires
        z.to_multiset() == x.to_multiset(),
        x.len() <= 1,
    ensures
        z == x,
{
    broadcast use vstd::seq_lib::group_to_multiset_ensures;

    assert(z.len() == z.to_multiset().len());
    assert(z.len() == x.len());
    if x.len() == 1 {
        assert(x.contains(x[0]));
        assert(z.to_multiset().count(x[0]) > 0);
        assert(z.contains(x[0]));
    }
    assert(z =~= x);
}

/// The filter of a longer list.
pub proof fn lemma_filter_push<A>(s: Seq<A>, x: A, p: spec_fn(A) -> bool)
    ensures
        s.push(x).filter(p) == if p(x) {
            s.filter(p).push(x)
        } else {
            s.filter(p)
        },
{
    reveal(Seq::filter);
    assert(s.push(x).drop_last() =~= s);
}

/// A filter that lets nothing through.
pub proof fn lemma_filter_none<A>(s: Seq<A>, p: spec_fn(A) -> bool)
    requires
        forall|i: int| 0 <= i < s.len() ==> !p(#[trigger] s[i]),
    ensures
        s.filter(p).len() == 0,
    decreases s.len(),
{
    reveal(Seq::filter);
    if s.len() > 0 {
        lemma_filter_none(s.drop_last(), p);
    }
}

/// A filter that lets everything through.
pub proof fn lemma_filter_all<A>(s: Seq<A>, p: spec_fn(A) -> bool)
    requires
        forall|i: int| 0 <= i < s.len() ==> p(#[trigger] s[i]),
    ensures
        s.filter(p) == s,
    decreases s.len(),
{
    reveal(Seq::filter);
    if s.len() > 0 {
        lemma_filter_all(s.drop_last(), p);
        assert(s.drop_last().push(s.last()) =~= s);
    } else {
        assert(s.filter(p) =~= s);
    }
}

/// Two filters, one after the other.
pub proof fn lemma_filter_twice<A>(
    s: Seq<A>,
    p: spec_fn(A) -> bool,
    q: spec_fn(A) -> bool,
    both: spec_fn(A) -> bool,
)
    requires
        forall|x: A| #[trigger] both(x) == (p(x) && q(x)),
    ensures
        s.filter(p).filter(q) == s.filter(both),
    decreases s.len(),
{
    reveal(Seq::filter);
    if s.len() > 0 {
        let front = s.drop_last();
        lemma_filter_twice(front, p, q, both);
        assert(both(s.last()) == (p(s.last()) && q(s.last())));
        if p(s.last()) {
            lemma_filter_push(front.filter(p), s.last(), q);
        }
    }
}

/// The filter of a mapped list.
pub proof fn lemma_filter_mapped<A, B>(
    s: Seq<A>,
    h: spec_fn(A) -> B,
    q: spec_fn(B) -> bool,
    qh: spec_fn(A) -> bool,
)
    requires
        forall|i: int| 0 <= i < s.len() ==> qh(#[trigger] s[i]) == q(h(s[i])),
    ensures
        s.map_values(h).filter(q) == s.filter(qh).map_values(h),
    decreases s.len(),
{
    reveal(Seq::filter);
    if s.len() == 0 {
        assert(s.map_values(h).filter(q) =~= s.filter(qh).map_values(h));
    } else {
        let front = s.drop_last();
        lemma_filter_mapped(front, h, q, qh);
        assert(s.map_values(h).drop_last() =~= front.map_values(h));
        assert(qh(s[s.len() - 1]) == q(h(s[s.len() - 1])));
        assert(s.map_values(h).filter(q) =~= s.filter(qh).map_values(h));
    }
}

/// Two filters of which each element passes one part a list.
pub proof fn lemma_filter_parts<A>(s: Seq<A>, p: spec_fn(A) -> bool, q: spec_fn(A) -> bool)
    requires
        forall|x: A| #[trigger] p(x) == !q(x),
    ensures
        s.filter(p).len() + s.filter(q).len() == s.len(),
    decreases s.len(),
{
    reveal(Seq::filter);
    if s.len() > 0 {
        lemma_filter_parts(s.drop_last(), p, q);
        assert(p(s.last()) == !q(s.last()));
    }
}

/// A number is read where the first column of the first row holds one, and it is that
/// number. Without a row there is none to read, and anything else in that column is told,
/// with its type and the name of the column.
pub proof fn law_number_is_read(
    row: Seq<Datum>,
    more: Seq<Seq<Datum>>,
    name: Seq<char>,
    r: Result<i64, StorageError>,
)
    ensures
        reads_integer(Seq::empty(), name, r) <==> r is Err && r->Err_0 is NoRow,
        reads_integer(seq![row] + more, name, r) && row.len() > 0 ==> match row[0] {
            Datum::Integer(n) => r is Ok && r->Ok_0 == n,
            Datum::Null => r is Err && is_wrong_type(r->Err_0, Kind::Null, 0, name),
            Datum::Text(_) => r is Err && is_wrong_type(r->Err_0, Kind::Text, 0, name),
            Datum::Real => r is Err && is_wrong_type(r->Err_0, Kind::Real, 0, name),
            Datum::Blob => r is Err && is_wrong_type(r->Err_0, Kind::Blob, 0, name),
        },
        reads_integer(seq![row] + more, name, r) && row.len() == 0 ==> r is Err && r->Err_0
            == StorageError::MissingColumn(0),
{
    assert((seq![row] + more)[0] == row);
}

/// Whether the error tells that a column holds a value of this type.
pub open spec fn is_wrong_type(e: StorageError, found: Kind, index: int, name: Seq<char>) -> bool {
    e is UnexpectedValue && e->found == found && e->index == index && e->name@ == name
}

/// A text is read where the first column of the first row holds one, and it is that text.
/// Without a row there is nothing, and anything else in that column is told.
pub proof fn law_text_is_read(
    row: Seq<Datum>,
    more: Seq<Seq<Datum>>,
    name: Seq<char>,
    r: Result<Option<String>, StorageError>,
)
    ensures
        reads_text(Seq::empty(), name, r) <==> r is Ok && r->Ok_0 is None,
        reads_text(seq![row] + more, name, r) && row.len() > 0 ==> match row[0] {
            Datum::Text(s) => r is Ok && r->Ok_0 is Some && (r->Ok_0->0)@ == s,
            Datum::Null => r is Err && is_wrong_type(r->Err_0, Kind::Null, 0, name),
            Datum::Integer(_) => r is Err && is_wrong_type(r->Err_0, Kind::Integer, 0, name),
            Datum::Real => r is Err && is_wrong_type(r->Err_0, Kind::Real, 0, name),
            Datum::Blob => r is Err && is_wrong_type(r->Err_0, Kind::Blob, 0, name),
        },
        reads_text(seq![row] + more, name, r) && row.len() == 0 ==> r is Err && r->Err_0
            == StorageError::MissingColumn(0),
{
    assert((seq![row] + more)[0] == row);
}

/// Texts are read in the order of the rows, one from each, where every row has one.
pub proof fn law_texts_are_read_in_order(
    t: Seq<Seq<Datum>>,
    name: Seq<char>,
    r: Result<Vec<String>, StorageError>,
    i: int,
)
    requires
        reads_texts(t, name, r),
    ensures
        r is Ok <==> forall|k: int|
            0 <= k < t.len() ==> (#[trigger] t[k]).len() > 0 && t[k][0] is Text,
        r is Ok ==> r->Ok_0@.len() == t.len(),
        r is Ok && 0 <= i < t.len() ==> t[i][0] == Datum::Text(r->Ok_0@[i]@),
        r is Err ==> exists|k: int|
            {
                &&& 0 <= k < t.len()
                &&& !((#[trigger] t[k]).len() > 0 && t[k][0] is Text)
                &&& (t[k].len() == 0 ==> r->Err_0 == StorageError::MissingColumn(0))
                &&& (t[k].len() > 0 ==> is_wrong_type(r->Err_0, kind_of(t[k][0]), 0, name))
            },
{
    match r {
        Ok(v) => {
            assert forall|k: int| 0 <= k < t.len() implies (#[trigger] t[k]).len() > 0 && t[k][0]
                is Text by {
                assert(text_of(t[k]) == Some(v@[k]@));
            }
            if 0 <= i < t.len() {
                assert(text_of(t[i]) == Some(v@[i]@));
            }
        },
        Err(e) => {
            let k = choose|k: int|
                {
                    &&& 0 <= k < t.len()
                    &&& text_of(#[trigger] t[k]) is None
                    &&& misread(e, t[k], 0, name)
                    &&& forall|j: int| 0 <= j < k ==> text_of(#[trigger] t[j]) is Some
                };
            assert(!(t[k].len() > 0 && t[k][0] is Text));
        },
    }
}

/// Keys and values are read in the order of the rows, one pair from each. A missing key
/// reads as the empty text.
pub proof fn law_pairs_are_read_in_order(
    t: Seq<Seq<Datum>>,
    r: Result<Vec<(String, String)>, StorageError>,
    i: int,
)
    requires
        reads_pairs(t, r),
    ensures
        r is Ok <==> forall|k: int|
            0 <= k < t.len() ==> (#[trigger] t[k]).len() >= 2 && (t[k][0] is Text || t[k][0]
                is Null) && t[k][1] is Text,
        r is Ok ==> r->Ok_0@.len() == t.len(),
        r is Ok && 0 <= i < t.len() ==> t[i][1] == Datum::Text(r->Ok_0@[i].1@),
        r is Ok && 0 <= i < t.len() && t[i][0] is Text ==> t[i][0] == Datum::Text(r->Ok_0@[i].0@),
        r is Ok && 0 <= i < t.len() && t[i][0] is Null ==> r->Ok_0@[i].0@ == Seq::<char>::empty(),
{
    match r {
        Ok(v) => {
            assert(pairs(v@).len() == v@.len());
            assert(pairs_of(t).len() == t.len());
            assert forall|k: int| 0 <= k < t.len() implies (#[trigger] t[k]).len() >= 2 && (t[k][0]
                is Text || t[k][0] is Null) && t[k][1] is Text by {
                assert(pair_of(t[k]) is Some);
            }
            if 0 <= i < t.len() {
                assert(pair_of(t[i]) is Some);
                assert(pairs(v@)[i] == pairs_of(t)[i]);
                assert(pairs(v@)[i] == (v@[i].0@, v@[i].1@));
            }
        },
        Err(e) => {
            let k = choose|k: int|
                {
                    &&& 0 <= k < t.len()
                    &&& pair_of(#[trigger] t[k]) is None
                    &&& pair_misread(e, t[k])
                    &&& forall|j: int| 0 <= j < k ==> pair_of(#[trigger] t[j]) is Some
                };
            assert(!(t[k].len() >= 2 && (t[k][0] is Text || t[k][0] is Null) && t[k][1] is Text));
        },
    }
}

/// The pairs of a list are the texts of its members, in their order.
pub proof fn law_pairs_are_the_texts(s: Seq<(String, String)>, i: int)
    requires
        0 <= i < s.len(),
    ensures
        pairs(s).len() == s.len(),
        pairs(s)[i].0 == s[i].0@,
        pairs(s)[i].1 == s[i].1@,
        pair_texts(Some(s[i])) == Some((s[i].0@, s[i].1@)),
        pair_texts(None) is None,
{
}

/// A pair is found at its position, and nothing behind the last one.
pub proof fn law_pair_is_found_at_its_position(all: Seq<(Seq<char>, Seq<char>)>, at: nat)
    ensures
        at < all.len() ==> found_at(all, at as int) == Some(all[at as int]),
        at >= all.len() ==> found_at(all, at as int) is None,
{
}

/// An id and a text are read from a row that holds them in this order, and from no other.
pub proof fn law_id_and_text_are_read(row: Seq<Datum>, n: int, s: Seq<char>)
    ensures
        numbered_of(row) == Some((n, s)) <==> row.len() >= 2 && row[0] == Datum::Integer(n)
            && row[1] == Datum::Text(s),
{
}

/// The type of a value is what it is named.
pub proof fn law_types_of_values(n: int, s: Seq<char>)
    ensures
        kind_of(Datum::Null) == Kind::Null,
        kind_of(Datum::Integer(n)) == Kind::Integer,
        kind_of(Datum::Text(s)) == Kind::Text,
        kind_of(Datum::Real) == Kind::Real,
        kind_of(Datum::Blob) == Kind::Blob,
{
}

/// A query that SQLite refuses returns its error; any other is read.
pub proof fn law_refused_queries_fail(
    t: Seq<Seq<Datum>>,
    name: Seq<char>,
    n: Result<i64, StorageError>,
    m: Result<Option<i64>, StorageError>,
    c: Result<usize, StorageError>,
    s: Result<Option<String>, StorageError>,
    v: Result<Vec<String>, StorageError>,
    p: Result<Vec<(String, String)>, StorageError>,
)
    ensures
        integer_answer(None, name, n) <==> n is Err && n->Err_0 is Sqlite,
        optional_integer_answer(None, name, m) <==> m is Err && m->Err_0 is Sqlite,
        count_answer(None, name, c) <==> c is Err && c->Err_0 is Sqlite,
        text_answer(None, name, s) <==> s is Err && s->Err_0 is Sqlite,
        texts_answer(None, name, v) <==> v is Err && v->Err_0 is Sqlite,
        pairs_answer(None, p) <==> p is Err && p->Err_0 is Sqlite,
        integer_answer(Some(t), name, n) <==> reads_integer(t, name, n),
        text_answer(Some(t), name, s) <==> reads_text(t, name, s),
        texts_answer(Some(t), name, v) <==> reads_texts(t, name, v),
        pairs_answer(Some(t), p) <==> reads_pairs(t, p),
{
}

/// A number that need not be there is that of the first row, or none without a row.
pub proof fn law_missing_number_is_none(
    row: Seq<Datum>,
    more: Seq<Seq<Datum>>,
    name: Seq<char>,
    r: Result<Option<i64>, StorageError>,
)
    ensures
        optional_integer_answer(Some(Seq::empty()), name, r) <==> r is Ok && r->Ok_0 is None,
        optional_integer_answer(Some(seq![row] + more), name, r) && row.len() > 0 ==> match row[0] {
            Datum::Integer(n) => r is Ok && r->Ok_0 is Some && r->Ok_0->0 == n,
            _ => r is Err && is_wrong_type(r->Err_0, kind_of(row[0]), 0, name),
        },
{
    assert((seq![row] + more)[0] == row);
}

/// A number of rows is the one that the first row counts.
pub proof fn law_count_is_read(
    n: i64,
    more: Seq<Seq<Datum>>,
    name: Seq<char>,
    r: Result<usize, StorageError>,
)
    requires
        count_answer(Some(seq![seq![Datum::Integer(n as int)]] + more), name, r),
    ensures
        r is Ok,
        r->Ok_0 == n as usize,
        0 <= n <= usize::MAX ==> r->Ok_0 == n,
{
    let t = seq![seq![Datum::Integer(n as int)]] + more;
    assert(t[0] == seq![Datum::Integer(n as int)]);
}

/// A row without a key and a value is told by its first column that is missing or holds
/// something else.
pub proof fn law_pair_that_is_missing(e: StorageError, row: Seq<Datum>)
    ensures
        row.len() == 0 ==> (pair_misread(e, row) <==> e == StorageError::MissingColumn(0)),
        row.len() > 0 && !(row[0] is Text || row[0] is Null) ==> (pair_misread(e, row)
            <==> is_wrong_type(e, kind_of(row[0]), 0, "key_val"@)),
        row.len() == 1 && (row[0] is Text || row[0] is Null) ==> (pair_misread(e, row) <==> e
            == StorageError::MissingColumn(1)),
        row.len() >= 2 && (row[0] is Text || row[0] is Null) ==> (pair_misread(e, row)
            <==> is_wrong_type(e, kind_of(row[1]), 1, "value"@)),
{
}

/// A row without an id and a text is told by its first column that is missing or holds
/// something else.
pub proof fn law_id_and_text_that_are_missing(e: StorageError, row: Seq<Datum>, name: Seq<char>)
    ensures
        row.len() == 0 ==> (numbered_misread(e, row, name) <==> e == StorageError::MissingColumn(0)),
        row.len() > 0 && !(row[0] is Integer) ==> (numbered_misread(e, row, name)
            <==> is_wrong_type(e, kind_of(row[0]), 0, "id"@)),
        row.len() == 1 && row[0] is Integer ==> (numbered_misread(e, row, name) <==> e
            == StorageError::MissingColumn(1)),
        row.len() >= 2 && row[0] is Integer ==> (numbered_misread(e, row, name) <==> is_wrong_type(
            e,
            kind_of(row[1]),
            1,
            name,
        )),
{
}

/// The first row that cannot be read gives the error, of texts and of pairs.
pub proof fn law_first_misreading_counts(
    t: Seq<Seq<Datum>>,
    k: int,
    name: Seq<char>,
    v: Result<Vec<String>, StorageError>,
    p: Result<Vec<(String, String)>, StorageError>,
)
    requires
        0 <= k < t.len(),
    ensures
        (forall|j: int| 0 <= j < k ==> (#[trigger] t[j]).len() > 0 && t[j][0] is Text)
            && t[k].len() > 0 && !(t[k][0] is Text) && reads_texts(t, name, v) ==> v is Err
            && is_wrong_type(v->Err_0, kind_of(t[k][0]), 0, name),
        (forall|j: int|
            0 <= j < k ==> (#[trigger] t[j]).len() >= 2 && (t[j][0] is Text || t[j][0] is Null)
                && t[j][1] is Text) && !(t[k].len() >= 2 && (t[k][0] is Text || t[k][0] is Null)
            && t[k][1] is Text) && reads_pairs(t, p) ==> p is Err && pair_misread(p->Err_0, t[k]),
{
    if (forall|j: int| 0 <= j < k ==> (#[trigger] t[j]).len() > 0 && t[j][0] is Text)
        && t[k].len() > 0 && !(t[k][0] is Text) && reads_texts(t, name, v) {
        if v is Ok {
            assert(text_of(t[k]) is Some);
        } else {
            let e = v->Err_0;
            let i = choose|i: int|
                {
                    &&& 0 <= i < t.len()
                    &&& text_of(#[trigger] t[i]) is None
                    &&& misread(e, t[i], 0, name)
                    &&& forall|j: int| 0 <= j < i ==> text_of(#[trigger] t[j]) is Some
                };
            assert(text_of(t[k]) is None);
            if i < k {
                assert(t[i].len() > 0 && t[i][0] is Text);
            }
            assert(i == k);
        }
    }
    if (forall|j: int|
        0 <= j < k ==> (#[trigger] t[j]).len() >= 2 && (t[j][0] is Text || t[j][0] is Null)
            && t[j][1] is Text) && !(t[k].len() >= 2 && (t[k][0] is Text || t[k][0] is Null)
        && t[k][1] is Text) && reads_pairs(t, p) {
        assert(pair_of(t[k]) is None);
        if p is Err {
            let e = p->Err_0;
            let i = choose|i: int|
                {
                    &&& 0 <= i < t.len()
                    &&& pair_of(#[trigger] t[i]) is None
                    &&& pair_misread(e, t[i])
                    &&& forall|j: int| 0 <= j < i ==> pair_of(#[trigger] t[j]) is Some
                };
            if i < k {
                assert(t[i].len() >= 2 && t[i][1] is Text);
            }
            assert(i == k);
        }
    }
}

} // verus!
