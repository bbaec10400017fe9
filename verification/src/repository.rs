//! The repository of records: one set of operations over a store in a file
//! and over a store that lives in memory only.

use crate::error::{Failure, StoreError};
use crate::file_db::KVFileDatabase;
use crate::format::pairs_view;
use crate::mapping::{distinct_keys, Mapping};
use crate::operations::{
    add_failure, after_add, after_clear, after_remove, failure_of, lookup, remove_failure,
};
use crate::record::{records_view, Record};
use vstd::prelude::*;

verus! {

/// A place where records are kept under their keys.
pub trait RecordRepository {
    /// The records of the repository, in the order in which `all` hands them
    /// out.
    spec fn entries(&self) -> Seq<(Seq<char>, Seq<char>)>;

    /// Adds a record, unless the repository holds one under its key.
    fn add(&mut self, record: Record) -> (r: Result<(), StoreError>)
        requires
            distinct_keys(old(self).entries()),
        ensures
            distinct_keys(final(self).entries()),
            final(self).entries() == after_add(old(self).entries(), record.key@, record.value@),
            failure_of(r) == add_failure(old(self).entries(), record.key@),
    ;

    /// The record stored under `key`.
    fn get(&self, key: String) -> (r: Result<Record, StoreError>)
        requires
            distinct_keys(self.entries()),
        ensures
            match r {
                Ok(record) => record.key@ == key@ && lookup(self.entries(), key@) == Ok::<
                    _,
                    Failure,
                >(record.value@),
                Err(error) => lookup(self.entries(), key@) == Err::<Seq<char>, _>(error@),
            },
    ;

    /// Removes the record stored under `key`.
    fn remove(&mut self, key: String) -> (r: Result<(), StoreError>)
        requires
            distinct_keys(old(self).entries()),
        ensures
            distinct_keys(final(self).entries()),
            final(self).entries() == after_remove(old(self).entries(), key@),
            failure_of(r) == remove_failure(old(self).entries(), key@),
    ;

    /// All records.
    fn all(&self) -> (r: Result<Vec<Record>, StoreError>)
        ensures
            r matches Ok(records) && records_view(records@) == self.entries(),
    ;

    /// Removes every record.
    fn clear(&mut self) -> (r: Result<(), StoreError>)
        ensures
            r is Ok,
            distinct_keys(final(self).entries()),
            final(self).entries() == after_clear(old(self).entries()),
    ;
}

/// A repository in a box is a repository: it works on what the box holds.
impl<T> RecordRepository for Box<T> where T: RecordRepository + ?Sized {
    open spec fn entries(&self) -> Seq<(Seq<char>, Seq<char>)> {
        (**self).entries()
    }

    fn add(&mut self, record: Record) -> (r: Result<(), StoreError>) {
        (**self).add(record)
    }

    fn get(&self, key: String) -> (r: Result<Record, StoreError>) {
        (**self).get(key)
    }

    fn remove(&mut self, key: String) -> (r: Result<(), StoreError>) {
        (**self).remove(key)
    }

    fn all(&self) -> (r: Result<Vec<Record>, StoreError>) {
        (**self).all()
    }

    fn clear(&mut self) -> (r: Result<(), StoreError>) {
        (**self).clear()
    }
}

/// A repository that lives in memory only: what it holds is lost when it is
/// dropped.
pub struct InMemoryRecordRepository {
    storage: Mapping,
}

impl InMemoryRecordRepository {
    /// An empty repository.
    pub fn new() -> (repository: InMemoryRecordRepository)
        ensures
            repository.entries() == Seq::<(Seq<char>, Seq<char>)>::empty(),
    {
        InMemoryRecordRepository { storage: Mapping::new() }
    }
}

impl RecordRepository for InMemoryRecordRepository {
    closed spec fn entries(&self) -> Seq<(Seq<char>, Seq<char>)> {
        self.storage.entries()
    }

    fn add(&mut self, record: Record) -> (r: Result<(), StoreError>) {
        if self.storage.contains_key(&record.key) {
            Err(StoreError::DuplicateKey { key: record.key })
        } else {
            self.storage.insert(record.key, record.value);
            Ok(())
        }
    }

    fn get(&self, key: String) -> (r: Result<Record, StoreError>) {
        match self.storage.get(&key) {
            Some(value) => {
                let value = value.clone();
                Ok(Record { key, value })
            },
            None => Err(StoreError::NotFound { key }),
        }
    }

    fn remove(&mut self, key: String) -> (r: Result<(), StoreError>) {
        match self.storage.remove(&key) {
            Some(_) => Ok(()),
            None => Err(StoreError::NotFound { key }),
        }
    }

    fn all(&self) -> (r: Result<Vec<Record>, StoreError>) {
        Ok(records_of(self.storage.to_vec()))
    }

    fn clear(&mut self) -> (r: Result<(), StoreError>) {
        self.storage.clear();
        Ok(())
    }
}

/// A repository over a store that is kept in a file.
pub struct KVFileDatabaseRepository {
    storage: KVFileDatabase,
}

impl KVFileDatabaseRepository {
    /// The repository over `storage`.
    pub fn new(storage: KVFileDatabase) -> (repository: Self)
        ensures
            repository.entries() == storage.entries(),
            repository.storage() == storage,
    {
        KVFileDatabaseRepository { storage }
    }

    /// The store that the repository works on.
    pub closed spec fn storage(&self) -> KVFileDatabase {
        self.storage
    }

    /// The store that the repository works on, to write it to its file.
    pub fn into_storage(self) -> (storage: KVFileDatabase)
        ensures
            storage == self.storage(),
            storage.entries() == self.entries(),
    {
        self.storage
    }
}

impl RecordRepository for KVFileDatabaseRepository {
    closed spec fn entries(&self) -> Seq<(Seq<char>, Seq<char>)> {
        self.storage.entries()
    }

    fn add(&mut self, record: Record) -> (r: Result<(), StoreError>) {
        self.storage.add(&record.key, &record.value)
    }

    fn get(&self, key: String) -> (r: Result<Record, StoreError>) {
        match self.storage.get(&key) {
            Ok(value) => Ok(Record { key, value }),
            Err(error) => Err(error),
        }
    }

    fn remove(&mut self, key: String) -> (r: Result<(), StoreError>) {
        self.storage.remove(&key)
    }

    fn all(&self) -> (r: Result<Vec<Record>, StoreError>) {
        match self.storage.items() {
            Ok(items) => Ok(records_of(items)),
            Err(error) => Err(error),
        }
    }

    fn clear(&mut self) -> (r: Result<(), StoreError>) {
        self.storage.clear();
        Ok(())
    }
}

/// The records of pairs of key and value, in their order.
fn records_of(pairs: Vec<(String, String)>) -> (records: Vec<Record>)
    ensures
        records_view(records@) == pairs_view(pairs@),
{
    let mut records: Vec<Record> = Vec::new();
    let mut i: usize = 0;
    while i < pairs.len()
        invariant
            i <= pairs.len(),
            records_view(records@) == pairs_view(pairs@).take(i as int),
        decreases pairs.len() - i,
    {
        let ghost done = records_view(records@);
        records.push(Record::new(&pairs[i].0, &pairs[i].1));
        assert(records_view(records@) =~= done.push((pairs[i as int].0@, pairs[i as int].1@)));
        assert(pairs_view(pairs@).take(i + 1) =~= pairs_view(
            pairs@,
        ).take(i as int).push((pairs[i as int].0@, pairs[i as int].1@)));
        i += 1;
    }
    assert(pairs_view(pairs@).take(pairs.len() as int)
        =~= pairs_view(pairs@));
    records
}

} // verus!
