//! The services: each runs one kind of query against a repository.
//!
//! A service borrows its repository. Those that change it borrow it mutably:
//! once such a service is dropped, the repository holds what the service
//! left in it.

use crate::error::{Failure, StoreError};
use crate::mapping::distinct_keys;
use crate::operations::{
    add_failure, after_add, after_clear, after_remove, failure_of, lookup, remove_failure,
};
use crate::queries::{AddNewRecordQuery, DeleteRecordQuery, GetRecordQuery, ListRecordsQuery};
use crate::record::{records_view, Record};
use crate::repository::RecordRepository;
use crate::text::texts;
use vstd::prelude::*;

verus! {

/// Adds records to a repository.
pub struct AddNewRecordService<'a, R: RecordRepository> {
    pub record_repository: &'a mut R,
}

impl<'a, R: RecordRepository> AddNewRecordService<'a, R> {
    /// The service on `record_repository`.
    pub fn new(record_repository: &'a mut R) -> (service: AddNewRecordService<'a, R>)
        ensures
            *service.record_repository == *old(record_repository),
            *final(service.record_repository) == *final(record_repository),
    {
        AddNewRecordService { record_repository }
    }

    /// Adds the record of the query, unless the repository holds one under
    /// its key.
    pub fn run(&mut self, query: &AddNewRecordQuery) -> (r: Result<(), StoreError>)
        requires
            distinct_keys(old(self).record_repository.entries()),
        ensures
            distinct_keys(final(self).record_repository.entries()),
            final(self).record_repository.entries() == after_add(
                old(self).record_repository.entries(),
                query.key@,
                query.value@,
            ),
            failure_of(r) == add_failure(old(self).record_repository.entries(), query.key@),
            *final(final(self).record_repository) == *final(old(self).record_repository),
    {
        let record = Record { key: query.key.clone(), value: query.value.clone() };
        self.record_repository.add(record)
    }
}

/// Gets records from a repository.
pub struct GetRecordService<'a, R: RecordRepository> {
    pub record_repository: &'a R,
}

impl<'a, R: RecordRepository> GetRecordService<'a, R> {
    /// The service on `record_repository`.
    pub fn new(record_repository: &'a R) -> (service: GetRecordService<'a, R>)
        ensures
            service.record_repository == record_repository,
    {
        GetRecordService { record_repository }
    }

    /// The record stored under the key of the query.
    pub fn run(&self, query: &GetRecordQuery) -> (r: Result<Record, StoreError>)
        requires
            distinct_keys(self.record_repository.entries()),
        ensures
            match r {
                Ok(record) => record.key@ == query.key@ && lookup(
                    self.record_repository.entries(),
                    query.key@,
                ) == Ok::<_, Failure>(record.value@),
                Err(error) => lookup(self.record_repository.entries(), query.key@) == Err::<
                    Seq<char>,
                    _,
                >(error@),
            },
    {
        self.record_repository.get(query.key.clone())
    }
}

/// What a listing holds.
pub enum ListResult {
    /// The keys of all records.
    KeyView(Vec<String>),
    /// All records.
    RecordView(Vec<Record>),
}

/// The keys of the entries, in their order.
pub open spec fn keys_of(entries: Seq<(Seq<char>, Seq<char>)>) -> Seq<Seq<char>> {
    Seq::new(entries.len(), |i: int| entries[i].0)
}

/// Lists the records of a repository.
pub struct ListRecordsService<'a, R: RecordRepository> {
    pub record_repository: &'a R,
}

impl<'a, R: RecordRepository> ListRecordsService<'a, R> {
    /// The service on `record_repository`.
    pub fn new(record_repository: &'a R) -> (service: ListRecordsService<'a, R>)
        ensures
            service.record_repository == record_repository,
    {
        ListRecordsService { record_repository }
    }

    /// All records of the repository, or the keys of all, as the query asks.
    pub fn run(&self, query: &ListRecordsQuery) -> (r: Result<ListResult, StoreError>)
        ensures
            r is Ok,
            match r {
                Ok(ListResult::KeyView(keys)) => query.keys_only && texts(keys@) == keys_of(
                    self.record_repository.entries(),
                ),
                Ok(ListResult::RecordView(records)) => !query.keys_only && records_view(records@)
                    == self.record_repository.entries(),
                Err(_) => false,
            },
    {
        match self.record_repository.all() {
            Ok(records) => {
                if query.keys_only {
                    let mut keys: Vec<String> = Vec::new();
                    let mut i: usize = 0;
                    while i < records.len()
                        invariant
                            i <= records.len(),
                            texts(keys@) == keys_of(records_view(records@)).take(i as int),
                        decreases records.len() - i,
                    {
                        let ghost done = texts(keys@);
                        keys.push(records[i].key.clone());
                        assert(texts(keys@) =~= done.push(records[i as int].key@));
                        assert(keys_of(records_view(records@)).take(i + 1) =~= keys_of(
                            records_view(records@),
                        ).take(i as int).push(records[i as int].key@));
                        i += 1;
                    }
                    assert(keys_of(records_view(records@)).take(records.len() as int) =~= keys_of(
                        records_view(records@),
                    ));
                    Ok(ListResult::KeyView(keys))
                } else {
                    Ok(ListResult::RecordView(records))
                }
            },
            Err(error) => Err(error),
        }
    }
}

/// A deletion names a key or all records, and not both. One that does
/// neither or both is refused before it reaches the repository.
pub open spec fn delete_is_valid(key: Option<Seq<char>>, all: bool) -> bool {
    all != (key is Some)
}

/// Why a deletion fails, if it does.
pub open spec fn delete_failure(
    entries: Seq<(Seq<char>, Seq<char>)>,
    key: Option<Seq<char>>,
    all: bool,
) -> Option<Failure> {
    if !delete_is_valid(key, all) {
        Some(Failure::InvalidQuery)
    } else if all {
        None
    } else {
        remove_failure(entries, key->0)
    }
}

/// The entries after a deletion; one that fails changes nothing.
pub open spec fn after_delete(
    entries: Seq<(Seq<char>, Seq<char>)>,
    key: Option<Seq<char>>,
    all: bool,
) -> Seq<(Seq<char>, Seq<char>)> {
    if !delete_is_valid(key, all) {
        entries
    } else if all {
        after_clear(entries)
    } else {
        after_remove(entries, key->0)
    }
}

/// What a user is told of a deletion that was made.
pub open spec fn delete_text(key: Option<Seq<char>>) -> Seq<char> {
    match key {
        None => "All records were removed!"@,
        Some(key) => "Removed record with key \""@ + key + "\""@,
    }
}

/// Deletes records from a repository.
pub struct ClearRecordsService<'a, R: RecordRepository> {
    pub record_repository: &'a mut R,
}

impl<'a, R: RecordRepository> ClearRecordsService<'a, R> {
    /// The service on `record_repository`.
    pub fn new(record_repository: &'a mut R) -> (service: ClearRecordsService<'a, R>)
        ensures
            *service.record_repository == *old(record_repository),
            *final(service.record_repository) == *final(record_repository),
    {
        ClearRecordsService { record_repository }
    }

    /// Deletes the record of the query's key, or all records, and returns
    /// what to tell the user.
    pub fn run(&mut self, query: &DeleteRecordQuery) -> (r: Result<String, StoreError>)
        requires
            distinct_keys(old(self).record_repository.entries()),
        ensures
            distinct_keys(final(self).record_repository.entries()),
            final(self).record_repository.entries() == after_delete(
                old(self).record_repository.entries(),
                query.key_text(),
                query.all,
            ),
            failure_of(r) == delete_failure(
                old(self).record_repository.entries(),
                query.key_text(),
                query.all,
            ),
            r matches Ok(text) ==> text@ == delete_text(query.key_text()),
            *final(final(self).record_repository) == *final(old(self).record_repository),
    {
        match &query.key {
            None => {
                if query.all {
                    match self.record_repository.clear() {
                        Ok(()) => Ok(String::from_str("All records were removed!")),
                        Err(error) => Err(error),
                    }
                } else {
                    Err(StoreError::InvalidQuery)
                }
            },
            Some(key) => {
                if query.all {
                    Err(StoreError::InvalidQuery)
                } else {
                    match self.record_repository.remove(key.clone()) {
                        Ok(()) => {
                            let mut text = String::from_str("Removed record with key \"");
                            text.append(key.as_str());
                            text.append("\"");
                            Ok(text)
                        },
                        Err(error) => Err(error),
                    }
                }
            },
        }
    }
}

} // verus!
