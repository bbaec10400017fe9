//! The store that lives in a file.
//!
//! The file is read once, when the store is opened, and written once, when
//! it is closed. In between the store works on the mapping in memory. This
//! module neither reads nor writes: it is handed what was found at the path
//! of the file, and hands out the text to write there.

use crate::error::{Failure, StoreError};
use crate::format::{decode, encode, encode_all, line_term, pairs_view, parse, split_fields};
use crate::mapping::{
    as_map, collected, distinct_keys, lemma_collected_of_distinct, lemma_inserted, Mapping,
};
use crate::operations::{
    add_failure, after_add, after_clear, after_remove, failure_of, lookup, remove_failure,
};
use crate::round_trip::{all_free_of_sentinels, lemma_bad_line_fails, lemma_round_trip};
use crate::text::occurs_in;
use vstd::prelude::*;

verus! {

/// The name of the file in the user's home directory in which a store is
/// kept unless another path is given.
pub const DEFAULT_FILE_NAME: &'static str = ".dumpb_store";

/// What stands at the path of the file when the store is opened.
pub enum FileState {
    /// Nothing.
    Absent,
    /// Something that is no regular file, such as a directory.
    NotRegular,
    /// A regular file that holds this text.
    Regular(String),
}

/// The text of the file, which is empty where there is no file yet, or the
/// failure to read it.
pub open spec fn file_text(found: FileState) -> Result<Seq<char>, Failure> {
    match found {
        FileState::Absent => Ok(Seq::empty()),
        FileState::NotRegular => Err(Failure::Io),
        FileState::Regular(content) => Ok(content@),
    }
}

/// The entries that a file's text gives to a store, or the failure of its
/// first line that is no record.
pub open spec fn loaded(content: Seq<char>) -> Result<Seq<(Seq<char>, Seq<char>)>, Failure> {
    match parse(content) {
        Ok(records) => Ok(collected(records)),
        Err(line) => Err(Failure::Parse(line)),
    }
}

/// The entries with which a store opens, or the failure to open it.
pub open spec fn opened(found: FileState) -> Result<Seq<(Seq<char>, Seq<char>)>, Failure> {
    match file_text(found) {
        Ok(content) => loaded(content),
        Err(failure) => Err(failure),
    }
}

/// A store that is closed and opened again holds the mapping that it held,
/// and hands its records out in the order in which it did, if every record
/// is free of sentinels.
pub proof fn lemma_reopen(entries: Seq<(Seq<char>, Seq<char>)>)
    requires
        distinct_keys(entries),
        all_free_of_sentinels(entries),
    ensures
        loaded(encode_all(entries)) == Ok::<_, Failure>(entries),
        loaded(encode_all(entries)) matches Ok(again) && as_map(again) == as_map(entries),
{
    lemma_round_trip(entries);
    lemma_collected_of_distinct(entries);
}

/// One line that is no record makes opening fail, whatever stands before and
/// behind it in the file: no part of the file is loaded.
pub proof fn lemma_load_is_all_or_nothing(
    before: Seq<(Seq<char>, Seq<char>)>,
    line: Seq<char>,
    after: Seq<char>,
)
    requires
        all_free_of_sentinels(before),
        !occurs_in(line, line_term()),
        split_fields(line) is None,
    ensures
        loaded(encode_all(before) + (line + line_term() + after)) == Err::<
            Seq<(Seq<char>, Seq<char>)>,
            _,
        >(Failure::Parse(line + line_term())),
{
    lemma_bad_line_fails(before, line, after);
}

/// A store of key-value records that is kept in a file.
pub struct KVFileDatabase {
    data: Mapping,
}

impl View for KVFileDatabase {
    type V = Map<Seq<char>, Seq<char>>;

    open spec fn view(&self) -> Map<Seq<char>, Seq<char>> {
        as_map(self.entries())
    }
}

impl KVFileDatabase {
    /// The records of the store, in the order in which they are handed out
    /// and written.
    pub closed spec fn entries(&self) -> Seq<(Seq<char>, Seq<char>)> {
        self.data.entries()
    }

    /// No key occurs twice.
    pub open spec fn wf(&self) -> bool {
        distinct_keys(self.entries())
    }

    /// Opens the store on what was found at the path of its file.
    pub fn new(found: &FileState) -> (r: Result<Self, StoreError>)
        ensures
            match r {
                Ok(db) => db.wf() && opened(*found) == Ok::<_, Failure>(db.entries()),
                Err(error) => opened(*found) == Err::<Seq<(Seq<char>, Seq<char>)>, _>(error@),
            },
    {
        let file_content = Self::read_file(found)?;
        let parsed_data = Self::parse_content(&file_content)?;
        Ok(KVFileDatabase { data: parsed_data })
    }

    /// Adds a record, unless the store holds one under `key`.
    pub fn add(&mut self, key: &String, value: &String) -> (r: Result<(), StoreError>)
        requires
            old(self).wf(),
        ensures
            final(self).wf(),
            final(self).entries() == after_add(old(self).entries(), key@, value@),
            failure_of(r) == add_failure(old(self).entries(), key@),
            r is Ok <==> !old(self)@.contains_key(key@),
            final(self)@ == if r is Ok {
                old(self)@.insert(key@, value@)
            } else {
                old(self)@
            },
    {
        proof {
            lemma_inserted(self.entries(), key@, value@);
        }
        if self.data.contains_key(key) {
            Err(StoreError::DuplicateKey { key: key.clone() })
        } else {
            self.data.insert(key.clone(), value.clone());
            Ok(())
        }
    }

    /// The value stored under `key`.
    pub fn get(&self, key: &String) -> (r: Result<String, StoreError>)
        requires
            self.wf(),
        ensures
            match r {
                Ok(value) => lookup(self.entries(), key@) == Ok::<_, Failure>(value@),
                Err(error) => lookup(self.entries(), key@) == Err::<Seq<char>, _>(error@),
            },
            match r {
                Ok(value) => self@.contains_key(key@) && self@[key@] == value@,
                Err(_) => !self@.contains_key(key@),
            },
    {
        match self.data.get(key) {
            Some(value) => Ok(value.clone()),
            None => Err(StoreError::NotFound { key: key.clone() }),
        }
    }

    /// Removes the record stored under `key`.
    pub fn remove(&mut self, key: &String) -> (r: Result<(), StoreError>)
        requires
            old(self).wf(),
        ensures
            final(self).wf(),
            final(self).entries() == after_remove(old(self).entries(), key@),
            failure_of(r) == remove_failure(old(self).entries(), key@),
            r is Ok <==> old(self)@.contains_key(key@),
            final(self)@ == old(self)@.remove(key@),
    {
        match self.data.remove(key) {
            Some(_) => Ok(()),
            None => Err(StoreError::NotFound { key: key.clone() }),
        }
    }

    /// Removes every record.
    pub fn clear(&mut self)
        ensures
            final(self).wf(),
            final(self).entries() == after_clear(old(self).entries()),
            final(self)@ == Map::<Seq<char>, Seq<char>>::empty(),
    {
        self.data.clear();
        assert(self@ =~= Map::<Seq<char>, Seq<char>>::empty());
    }

    /// All records, as pairs of key and value.
    pub fn items(&self) -> (r: Result<Vec<(String, String)>, StoreError>)
        ensures
            r matches Ok(pairs) && pairs_view(pairs@) == self.entries(),
    {
        Ok(self.data.to_vec())
    }

    /// The text to write to the file when the store is closed: every record
    /// of the store, whether it changed or not.
    pub fn construct_dump(&self) -> (dump: String)
        ensures
            dump@ == encode_all(self.entries()),
    {
        let pairs = self.data.to_vec();
        encode(&pairs)
    }

    /// Closes the store: it can be used no more, and the text that it hands
    /// out is to be written to its file in place of what the file holds.
    pub fn close(self) -> (dump: String)
        ensures
            dump@ == encode_all(self.entries()),
    {
        self.construct_dump()
    }

    /// The text of the file.
    pub fn read_file(found: &FileState) -> (r: Result<String, StoreError>)
        ensures
            match r {
                Ok(content) => file_text(*found) == Ok::<_, Failure>(content@),
                Err(error) => file_text(*found) == Err::<Seq<char>, _>(error@),
            },
    {
        match found {
            FileState::Regular(content) => Ok(content.clone()),
            FileState::NotRegular => Err(StoreError::Io),
            FileState::Absent => Ok(String::new()),
        }
    }

    /// The mapping that the text of a file holds. Where two records have one
    /// key, the later one counts.
    pub fn parse_content(content: &String) -> (r: Result<Mapping, StoreError>)
        ensures
            match r {
                Ok(mapping) => mapping.wf() && loaded(content@) == Ok::<_, Failure>(
                    mapping.entries(),
                ),
                Err(error) => loaded(content@) == Err::<Seq<(Seq<char>, Seq<char>)>, _>(error@),
            },
    {
        match decode(content.as_str()) {
            Err(line) => Err(StoreError::Parse { line }),
            Ok(pairs) => {
                let ghost records = pairs_view(pairs@);
                let mut mapping = Mapping::new();
                let mut i: usize = 0;
                assert(records.take(0) =~= Seq::<(Seq<char>, Seq<char>)>::empty());
                while i < pairs.len()
                    invariant
                        i <= pairs.len(),
                        records == pairs_view(pairs@),
                        mapping.wf(),
                        mapping.entries() == collected(records.take(i as int)),
                    decreases pairs.len() - i,
                {
                    mapping.insert(pairs[i].0.clone(), pairs[i].1.clone());
                    proof {
                        let next = records.take(i + 1);
                        assert(next.drop_last() =~= records.take(i as int));
                        assert(next.last() == (pairs[i as int].0@, pairs[i as int].1@));
                    }
                    i += 1;
                }
                assert(records.take(records.len() as int) =~= records);
                Ok(mapping)
            },
        }
    }
}

} // verus!
