//! What can go wrong in a storage.

use crate::scan;
use crate::text;
use vstd::prelude::*;

verus! {

/// The type of a value in a column.
#[derive(Debug, PartialEq, Eq, Structural, Clone, Copy)]
pub enum Kind {
    Null,
    Integer,
    Real,
    Text,
    Blob,
}

#[derive(Debug)]
pub enum StorageError {
    /// SQLite failed.
    Sqlite(rusqlite::Error),
    /// A query that looks one row up found none.
    NoRow,
    /// A column holds a value of another type.
    UnexpectedValue { found: Kind, index: usize, name: String },
    /// A row has no such column.
    MissingColumn(usize),
    UnknownTransaction,
    /// The store is none of those of the transaction.
    StoreNotInTransaction(i64),
    /// The store is one of those of an open transaction.
    StoreLocked(i64),
    UnknownCursor,
    /// SQLite gave a new row an id that is not larger than one before.
    RepeatedId(i64),
    /// The changes failed with this error, and SQLite could not undo them: its
    /// transaction, or a savepoint in it, is still open.
    RollbackFailed(rusqlite::Error),
}

/// Whether the error tells that a row could not be read.
pub open spec fn is_misread(e: StorageError) -> bool {
    e is UnexpectedValue || e is MissingColumn
}

/// Whether `s` is what an error of SQLite shows.
pub open spec fn shows(e: rusqlite::Error, s: String) -> bool {
    vstd::string::to_string_from_display_ensures::<rusqlite::Error>(&e, s)
}

/// The name of a type.
pub open spec fn kind_name(kind: Kind) -> Seq<char> {
    match kind {
        Kind::Null => "Null"@,
        Kind::Integer => "Integer"@,
        Kind::Real => "Real"@,
        Kind::Text => "Text"@,
        Kind::Blob => "Blob"@,
    }
}

impl StorageError {
    /// What the error says. The words of SQLite are those that it shows.
    pub fn message(&self) -> (r: String)
        ensures
            match self {
                StorageError::Sqlite(e) => shows(*e, r),
                StorageError::NoRow => r@ == "Query returned no rows"@,
                StorageError::UnexpectedValue { found, index, name } => r@
                    == "Invalid column type "@ + kind_name(*found) + " at index: "@ + text::digits(
                    *index as nat,
                ) + ", name: "@ + name@,
                StorageError::MissingColumn(index) => r@ == "Invalid column index: "@
                    + text::digits(*index as nat),
                StorageError::UnknownTransaction => r@ == "unknown transaction"@,
                StorageError::StoreNotInTransaction(id) => r@ == "store "@ + text::decimal(
                    *id as int,
                ) + " not in transaction"@,
                StorageError::StoreLocked(id) => r@ == "store "@ + text::decimal(*id as int)
                    + " locked by another transaction"@,
                StorageError::UnknownCursor => r@ == "unknown cursor"@,
                StorageError::RepeatedId(id) => r@ == "row id "@ + text::decimal(*id as int)
                    + " given out before"@,
                StorageError::RollbackFailed(e) => shows(*e, r),
            },
    {
        match self {
            StorageError::Sqlite(e) => e.to_string(),
            StorageError::NoRow => "Query returned no rows".to_string(),
            StorageError::UnexpectedValue { found, index, name } => {
                let kind = match found {
                    Kind::Null => "Null",
                    Kind::Integer => "Integer",
                    Kind::Real => "Real",
                    Kind::Text => "Text",
                    Kind::Blob => "Blob",
                };
                let number = scan::number_of(*index as u64);
                "Invalid column type ".to_string().concat(kind).concat(" at index: ").concat(
                    number.as_str(),
                ).concat(", name: ").concat(name.as_str())
            },
            StorageError::MissingColumn(index) => {
                let number = scan::number_of(*index as u64);
                "Invalid column index: ".to_string().concat(number.as_str())
            },
            StorageError::UnknownTransaction => "unknown transaction".to_string(),
            StorageError::StoreNotInTransaction(id) => {
                let number = scan::decimal_of(*id);
                "store ".to_string().concat(number.as_str()).concat(" not in transaction")
            },
            StorageError::StoreLocked(id) => {
                let number = scan::decimal_of(*id);
                "store ".to_string().concat(number.as_str()).concat(
                    " locked by another transaction",
                )
            },
            StorageError::UnknownCursor => "unknown cursor".to_string(),
            StorageError::RepeatedId(id) => {
                let number = scan::decimal_of(*id);
                "row id ".to_string().concat(number.as_str()).concat(" given out before")
            },
            StorageError::RollbackFailed(e) => e.to_string(),
        }
    }
}

/// A type is named by its own word.
pub proof fn law_types_have_their_names()
    ensures
        kind_name(Kind::Null) == "Null"@,
        kind_name(Kind::Integer) == "Integer"@,
        kind_name(Kind::Real) == "Real"@,
        kind_name(Kind::Text) == "Text"@,
        kind_name(Kind::Blob) == "Blob"@,
{
}

/// A row that could not be read is told by the value or by the column that was not there,
/// and by nothing else.
pub proof fn law_misreadings(e: StorageError)
    ensures
        is_misread(e) <==> (e is UnexpectedValue || e is MissingColumn),
        e is Sqlite ==> !is_misread(e),
        e is NoRow ==> !is_misread(e),
{
}

} // verus!
