//! The record: a key and the value stored under it.

use vstd::prelude::*;

verus! {

/// A key and its value.
#[derive(Debug, PartialEq)]
pub struct Record {
    pub key: String,
    pub value: String,
}

impl View for Record {
    type V = (Seq<char>, Seq<char>);

    open spec fn view(&self) -> (Seq<char>, Seq<char>) {
        (self.key@, self.value@)
    }
}

/// The views of a list of records.
pub open spec fn records_view(records: Seq<Record>) -> Seq<(Seq<char>, Seq<char>)> {
    Seq::new(records.len(), |i: int| records[i]@)
}

/// A record as it is shown to a user.
pub open spec fn record_text(key: Seq<char>, value: Seq<char>) -> Seq<char> {
    "{\n  key: "@ + key + ",\n  value: "@ + value + "\n}"@
}

impl Record {
    /// The record of `key` and `value`.
    pub fn new(key: &String, value: &String) -> (record: Record)
        ensures
            record@ == (key@, value@),
    {
        Record { key: key.clone(), value: value.clone() }
    }

    /// The record as it is shown to a user.
    pub fn to_text(&self) -> (text: String)
        ensures
            text@ == record_text(self.key@, self.value@),
    {
        let mut text = String::from_str("{\n  key: ");
        text.append(self.key.as_str());
        text.append(",\n  value: ");
        text.append(self.value.as_str());
        text.append("\n}");
        text
    }
}

} // verus!
