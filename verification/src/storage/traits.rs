//! What the local storage and an object store have in common.

use crate::storage::error::StorageError;
use crate::text;
use vstd::prelude::*;

verus! {

/// A store of texts under keys.
pub trait StorageBackend: Send {
    /// Whether what the store holds is known: that of a store in memory is.
    spec fn known(&self) -> bool;

    /// Whether `value` is stored under `key`.
    spec fn found(&self, key: Seq<char>, value: Seq<char>) -> bool;

    /// The number of values that are stored.
    spec fn size(&self) -> nat;

    /// A value under the key.
    fn get(&self, key: &str) -> (r: Result<Option<String>, StorageError>)
        ensures
            self.known() ==> match r {
                Ok(Some(v)) => self.found(key@, v@),
                Ok(None) => forall|v: Seq<char>| !#[trigger] self.found(key@, v),
                Err(e) => e is Sqlite,
            },
    ;

    /// Stores a value under the key, in place of what is there.
    fn set(&mut self, key: &str, value: &str) -> (r: Result<(), StorageError>)
        ensures
            old(self).known() ==> final(self).known(),
            old(self).known() && r is Ok ==> {
                &&& forall|v: Seq<char>| #[trigger] final(self).found(key@, v) <==> v == value@
                &&& forall|k: Seq<char>, v: Seq<char>|
                    k != key@ ==> #[trigger] final(self).found(k, v) == old(self).found(k, v)
            },
            old(self).known() ==> (r matches Err(e) ==> e is Sqlite || e is RollbackFailed),
    ;

    /// Removes what is stored under the key.
    fn remove(&mut self, key: &str) -> (r: Result<(), StorageError>)
        ensures
            old(self).known() ==> final(self).known(),
            old(self).known() && r is Ok ==> {
                &&& forall|v: Seq<char>| !#[trigger] final(self).found(key@, v)
                &&& forall|k: Seq<char>, v: Seq<char>|
                    k != key@ ==> #[trigger] final(self).found(k, v) == old(self).found(k, v)
            },
            r matches Err(e) ==> e is Sqlite,
    ;

    /// Removes everything.
    fn clear(&mut self) -> (r: Result<(), StorageError>)
        ensures
            old(self).known() ==> final(self).known(),
            old(self).known() && r is Ok ==> {
                &&& final(self).size() == 0
                &&& forall|k: Seq<char>, v: Seq<char>| !#[trigger] final(self).found(k, v)
            },
            r matches Err(e) ==> e is Sqlite,
    ;

    /// The keys under which something is stored.
    fn keys(&self) -> (r: Result<Vec<String>, StorageError>)
        ensures
            self.known() ==> match r {
                Ok(keys) => forall|k: Seq<char>| #[trigger]
                    text::texts(keys@).contains(k) <==> exists|v: Seq<char>| self.found(k, v),
                Err(e) => e is Sqlite,
            },
    ;

    /// The number of values that are stored.
    fn len(&self) -> (r: Result<usize, StorageError>)
        ensures
            self.known() ==> match r {
                Ok(n) => self.size() <= i64::MAX && n == self.size() as usize,
                Err(e) => e is Sqlite,
            },
    ;

    /// Whether anything is stored under the key.
    fn contains_key(&self, key: &str) -> (r: Result<bool, StorageError>)
        ensures
            self.known() ==> match r {
                Ok(b) => b <==> exists|v: Seq<char>| self.found(key@, v),
                Err(e) => e is Sqlite,
            },
    ;
}

} // verus!
