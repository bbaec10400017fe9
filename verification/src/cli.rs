//! The commands of the command line, and what each does to a repository.
//!
//! Reading the command line, printing and running programs are left to the
//! caller: a command comes in as a value, and what goes out says what to
//! print or which program to run.

use crate::error::{Failure, StoreError};
use crate::mapping::distinct_keys;
use crate::operations::{add_failure, after_add, lookup};
use crate::queries::{AddNewRecordQuery, DeleteRecordQuery, GetRecordQuery, ListRecordsQuery};
use crate::record::{record_text, records_view, Record};
use crate::repository::RecordRepository;
use crate::services::{
    after_delete, delete_failure, delete_text, keys_of, AddNewRecordService,
    ClearRecordsService, GetRecordService, ListRecordsService, ListResult,
};
use crate::text::{join, join_strings, lemma_join_split, split_on, split_text, texts};
use vstd::prelude::*;

verus! {

/// A command of the command line.
#[derive(Debug, PartialEq)]
#[allow(inconsistent_fields)]
pub enum DumpBufferCLI {
    /// Add a record: the words of the value are joined with single spaces.
    Add { key: String, value: Vec<String> },
    /// Get the value of a key.
    Get { key: String },
    /// Run the value of a key as a command line.
    Exec { key: String },
    /// List all records, or their keys only.
    List { keys_only: bool },
    /// Delete the record of a key, or all records.
    Delete { key: Option<String>, all: bool },
}

/// A `DumpBufferCLI` with its texts as sequences of characters.
#[allow(inconsistent_fields)]
pub enum Command {
    Add { key: Seq<char>, value: Seq<Seq<char>> },
    Get { key: Seq<char> },
    Exec { key: Seq<char> },
    List { keys_only: bool },
    Delete { key: Option<Seq<char>>, all: bool },
}

impl View for DumpBufferCLI {
    type V = Command;

    open spec fn view(&self) -> Command {
        match self {
            DumpBufferCLI::Add { key, value } => Command::Add { key: key@, value: texts(value@) },
            DumpBufferCLI::Get { key } => Command::Get { key: key@ },
            DumpBufferCLI::Exec { key } => Command::Exec { key: key@ },
            DumpBufferCLI::List { keys_only } => Command::List { keys_only: *keys_only },
            DumpBufferCLI::Delete { key, all } => Command::Delete {
                key: match key {
                    Some(key) => Some(key@),
                    None => None,
                },
                all: *all,
            },
        }
    }
}

impl DumpBufferCLI {
    /// The value of an `Add` command: its words with `separator` between
    /// each two. Other commands have none.
    pub fn joined_value(&self, separator: &str) -> (joined: Option<String>)
        ensures
            match self@ {
                Command::Add { key, value } => joined matches Some(text) && text@ == join(
                    value,
                    separator@,
                ),
                _ => joined is None,
            },
    {
        match self {
            DumpBufferCLI::Add { key: _, value } => Some(join_strings(value, separator)),
            _ => None,
        }
    }
}

/// What the caller is to do after a command.
pub enum Response {
    /// Print the text.
    Output(String),
    /// Run the program with the arguments.
    Execute { program: String, arguments: Vec<String> },
}

/// A `Response` with its texts as sequences of characters.
pub enum Reply {
    Output(Seq<char>),
    Execute { program: Seq<char>, arguments: Seq<Seq<char>> },
}

impl View for Response {
    type V = Reply;

    open spec fn view(&self) -> Reply {
        match self {
            Response::Output(text) => Reply::Output(text@),
            Response::Execute { program, arguments } => Reply::Execute {
                program: program@,
                arguments: texts(arguments@),
            },
        }
    }
}

/// The text that is printed once a program has run.
pub const COMMAND_COMPLETED: &'static str = "Command completed";

/// The texts of the records, each as it is shown to a user.
pub open spec fn record_texts(entries: Seq<(Seq<char>, Seq<char>)>) -> Seq<Seq<char>> {
    Seq::new(entries.len(), |i: int| record_text(entries[i].0, entries[i].1))
}

/// The listing of the records, or of their keys only.
pub open spec fn listing_text(entries: Seq<(Seq<char>, Seq<char>)>, keys_only: bool) -> Seq<char> {
    if keys_only {
        "[\n  "@ + join(keys_of(entries), ",\n  "@) + "\n]"@
    } else {
        "[\n"@ + join(record_texts(entries), ",\n"@) + "\n]"@
    }
}

/// The program and the arguments of a command line: its words, cut at each
/// single space.
pub open spec fn command_line(text: Seq<char>) -> Reply {
    Reply::Execute { program: split_on(text, ' ')[0], arguments: split_on(text, ' ').skip(1) }
}

/// What a command answers on a repository that holds `entries`.
pub open spec fn answer(entries: Seq<(Seq<char>, Seq<char>)>, command: Command) -> Result<
    Reply,
    Failure,
> {
    match command {
        Command::Add { key, value } => match add_failure(entries, key) {
            Some(failure) => Err(failure),
            None => Ok(
                Reply::Output("Successfully added new value with key \""@ + key + "\""@),
            ),
        },
        Command::Get { key } => match lookup(entries, key) {
            Ok(value) => Ok(Reply::Output(value)),
            Err(failure) => Err(failure),
        },
        Command::Exec { key } => match lookup(entries, key) {
            Ok(value) => Ok(command_line(value)),
            Err(failure) => Err(failure),
        },
        Command::List { keys_only } => Ok(Reply::Output(listing_text(entries, keys_only))),
        Command::Delete { key, all } => match delete_failure(entries, key, all) {
            Some(failure) => Err(failure),
            None => Ok(Reply::Output(delete_text(key))),
        },
    }
}

/// What a command leaves of the entries of a repository.
pub open spec fn after_command(entries: Seq<(Seq<char>, Seq<char>)>, command: Command) -> Seq<
    (Seq<char>, Seq<char>),
> {
    match command {
        Command::Add { key, value } => after_add(entries, key, join(value, " "@)),
        Command::Delete { key, all } => after_delete(entries, key, all),
        _ => entries,
    }
}

/// The program and the arguments of a command line.
pub fn split_command(command: &String) -> (response: Response)
    ensures
        response@ == command_line(command@),
{
    proof {
        lemma_join_split(command@, ' ');
    }
    let mut words = split_text(command.as_str(), ' ');
    let ghost all = texts(words@);
    let program = words.remove(0);
    assert(texts(words@) =~= all.skip(1));
    Response::Execute { program, arguments: words }
}

/// The listing of records.
fn records_listing(records: &Vec<Record>) -> (text: String)
    ensures
        text@ == listing_text(records_view(records@), false),
{
    let mut shown: Vec<String> = Vec::new();
    let mut i: usize = 0;
    while i < records.len()
        invariant
            i <= records.len(),
            texts(shown@) == record_texts(records_view(records@)).take(i as int),
        decreases records.len() - i,
    {
        let ghost done = texts(shown@);
        shown.push(records[i].to_text());
        assert(texts(shown@) =~= done.push(record_text(records[i as int].key@, records[i as int].value@)));
        assert(record_texts(records_view(records@)).take(i + 1) =~= record_texts(
            records_view(records@),
        ).take(i as int).push(record_text(records[i as int].key@, records[i as int].value@)));
        i += 1;
    }
    assert(record_texts(records_view(records@)).take(records.len() as int) =~= record_texts(
        records_view(records@),
    ));
    let mut text = String::from_str("[\n");
    text.append(join_strings(&shown, ",\n").as_str());
    text.append("\n]");
    text
}

/// The listing of keys.
fn keys_listing(keys: &Vec<String>) -> (text: String)
    ensures
        text@ == "[\n  "@ + join(texts(keys@), ",\n  "@) + "\n]"@,
{
    let mut text = String::from_str("[\n  ");
    text.append(join_strings(keys, ",\n  ").as_str());
    text.append("\n]");
    text
}

/// Runs a command on a repository and says what the caller is to do: print
/// a text, or run a program.
pub fn handle<R: RecordRepository>(args: &DumpBufferCLI, repo: &mut R) -> (r: Result<
    Response,
    StoreError,
>)
    requires
        distinct_keys(old(repo).entries()),
    ensures
        distinct_keys(final(repo).entries()),
        final(repo).entries() == after_command(old(repo).entries(), args@),
        match r {
            Ok(response) => answer(old(repo).entries(), args@) == Ok::<_, Failure>(response@),
            Err(error) => answer(old(repo).entries(), args@) == Err::<Reply, _>(error@),
        },
{
    match args {
        DumpBufferCLI::Add { key, value: _ } => {
            let joined_value = args.joined_value(" ").unwrap();
            let query = AddNewRecordQuery::new(key.clone(), joined_value);
            let mut service = AddNewRecordService::new(repo);
            match service.run(&query) {
                Ok(()) => {
                    let mut text = String::from_str("Successfully added new value with key \"");
                    text.append(key.as_str());
                    text.append("\"");
                    Ok(Response::Output(text))
                },
                Err(error) => Err(error),
            }
        },
        DumpBufferCLI::Get { key } => {
            let query = GetRecordQuery::new(key.clone());
            let service = GetRecordService::new(&*repo);
            match service.run(&query) {
                Ok(record) => Ok(Response::Output(record.value)),
                Err(error) => Err(error),
            }
        },
        DumpBufferCLI::List { keys_only } => {
            let query = ListRecordsQuery::new(*keys_only);
            let service = ListRecordsService::new(&*repo);
            match service.run(&query) {
                Ok(ListResult::KeyView(keys)) => Ok(Response::Output(keys_listing(&keys))),
                Ok(ListResult::RecordView(records)) => Ok(
                    Response::Output(records_listing(&records)),
                ),
                Err(error) => Err(error),
            }
        },
        DumpBufferCLI::Delete { key, all } => {
            let query = DeleteRecordQuery::new(key, *all);
            let mut service = ClearRecordsService::new(repo);
            match service.run(&query) {
                Ok(text) => Ok(Response::Output(text)),
                Err(error) => Err(error),
            }
        },
        DumpBufferCLI::Exec { key } => {
            let query = GetRecordQuery::new(key.clone());
            let service = GetRecordService::new(&*repo);
            match service.run(&query) {
                Ok(record) => Ok(split_command(&record.value)),
                Err(error) => Err(error),
            }
        },
    }
}

/// The line that tells a user of a failure.
pub fn failure_line(error: &StoreError) -> (line: String)
    ensures
        line@ == "[ERROR]: "@ + crate::error::message_text(error@),
{
    let mut line = String::from_str("[ERROR]: ");
    line.append(error.message().as_str());
    line
}

} // verus!
