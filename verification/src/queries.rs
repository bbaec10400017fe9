//! What a caller asks of the repository.

use vstd::prelude::*;

verus! {

/// Add a record.
pub struct AddNewRecordQuery {
    pub key: String,
    pub value: String,
}

impl AddNewRecordQuery {
    /// The query to add `value` under `key`.
    pub fn new(key: String, value: String) -> (query: AddNewRecordQuery)
        ensures
            query.key == key,
            query.value == value,
    {
        AddNewRecordQuery { key, value }
    }
}

/// Get the record of a key.
pub struct GetRecordQuery {
    pub key: String,
}

impl GetRecordQuery {
    /// The query for the record of `key`.
    pub fn new(key: String) -> (query: GetRecordQuery)
        ensures
            query.key == key,
    {
        GetRecordQuery { key }
    }
}

/// List the records, or their keys only.
pub struct ListRecordsQuery {
    pub keys_only: bool,
}

impl ListRecordsQuery {
    /// The query for all records, or for their keys only.
    pub fn new(keys_only: bool) -> (query: ListRecordsQuery)
        ensures
            query.keys_only == keys_only,
    {
        ListRecordsQuery { keys_only }
    }
}

/// Delete the record of a key, or all records: one of the two.
#[derive(Debug)]
pub struct DeleteRecordQuery {
    pub key: Option<String>,
    pub all: bool,
}

impl DeleteRecordQuery {
    /// The query to delete the record of `key`, or all records.
    pub fn new(key: &Option<String>, all: bool) -> (query: DeleteRecordQuery)
        ensures
            query.all == all,
            query.key_text() == match key {
                Some(key) => Some(key@),
                None => None,
            },
    {
        let key = match key {
            Some(key) => Some(key.clone()),
            None => None,
        };
        DeleteRecordQuery { key, all }
    }

    /// The key of the query, if it has one.
    pub open spec fn key_text(&self) -> Option<Seq<char>> {
        match self.key {
            Some(key) => Some(key@),
            None => None,
        }
    }
}

} // verus!
