//! The ways in which an operation of the store fails.

use vstd::prelude::*;

verus! {

/// Why an operation failed.
#[derive(Debug, PartialEq, Eq)]
pub enum StoreError {
    /// The file holds a line that is no record; `line` is that line.
    Parse { line: String },
    /// A record was to be added under a key that the store already holds.
    DuplicateKey { key: String },
    /// The store holds no record under the key.
    NotFound { key: String },
    /// What stands at the path of the file is no regular file.
    Io,
    /// A deletion named neither a key nor all records, or both.
    InvalidQuery,
}

/// A `StoreError` with its texts as sequences of characters.
pub enum Failure {
    Parse(Seq<char>),
    DuplicateKey(Seq<char>),
    NotFound(Seq<char>),
    Io,
    InvalidQuery,
}

impl View for StoreError {
    type V = Failure;

    open spec fn view(&self) -> Failure {
        match self {
            StoreError::Parse { line } => Failure::Parse(line@),
            StoreError::DuplicateKey { key } => Failure::DuplicateKey(key@),
            StoreError::NotFound { key } => Failure::NotFound(key@),
            StoreError::Io => Failure::Io,
            StoreError::InvalidQuery => Failure::InvalidQuery,
        }
    }
}

/// The text that tells a user of the failure.
pub open spec fn message_text(failure: Failure) -> Seq<char> {
    match failure {
        Failure::Parse(line) => "Line \""@ + line + "\" has incompatible format"@,
        Failure::DuplicateKey(key) => "Key \""@ + key + "\" already exists"@,
        Failure::NotFound(key) => "Key \""@ + key + "\" does not exist"@,
        Failure::Io => "Object specified by path exists, but it is not a valid file"@,
        Failure::InvalidQuery => "Query should have exactly one argument specified"@,
    }
}

impl StoreError {
    /// The text that tells a user of the failure.
    pub fn message(&self) -> (text: String)
        ensures
            text@ == message_text(self@),
    {
        match self {
            StoreError::Parse { line } => {
                let mut text = String::from_str("Line \"");
                text.append(line.as_str());
                text.append("\" has incompatible format");
                text
            },
            StoreError::DuplicateKey { key } => {
                let mut text = String::from_str("Key \"");
                text.append(key.as_str());
                text.append("\" already exists");
                text
            },
            StoreError::NotFound { key } => {
                let mut text = String::from_str("Key \"");
                text.append(key.as_str());
                text.append("\" does not exist");
                text
            },
            StoreError::Io => String::from_str(
                "Object specified by path exists, but it is not a valid file",
            ),
            StoreError::InvalidQuery => String::from_str(
                "Query should have exactly one argument specified",
            ),
        }
    }
}

} // verus!
