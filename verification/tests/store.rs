use std::collections::HashMap;

use dumpb::error::StoreError;
use dumpb::file_db::{FileState, KVFileDatabase, DEFAULT_FILE_NAME};
use dumpb::format::{decode, encode, KV_SPLIT, LINE_TERM};

fn parsed(content: &str) -> Result<HashMap<String, String>, StoreError> {
    KVFileDatabase::parse_content(&content.to_string())
        .map(|mapping| mapping.to_vec().into_iter().collect())
}

fn opened(content: &str) -> KVFileDatabase {
    KVFileDatabase::new(&FileState::Regular(content.to_string())).unwrap()
}

fn pair(key: &str, value: &str) -> (String, String) {
    (key.to_string(), value.to_string())
}

#[test]
fn content_parsed_correctly_for_empty() {
    assert_eq!(parsed(""), Ok(HashMap::new()));
}

#[test]
fn correctly_parses_one_line() {
    let line = format!("hello{}this -is test -value{}", KV_SPLIT, LINE_TERM);
    let mut expected = HashMap::new();
    expected.insert("hello".to_string(), "this -is test -value".to_string());
    assert_eq!(parsed(&line), Ok(expected));
}

#[test]
fn fails_for_incorrect_line() {
    let bad_kv_sep = format!("hello{}this -is test -value{}", "<haha>", LINE_TERM);
    let bad_line_sep = format!("key{}test-value -here{}", KV_SPLIT, "!line_split!");
    let bad_seps = format!("world{}test-value here<>{}", "|kek|", "!line_split!");

    println!("{:?}", parsed(&bad_kv_sep));
    println!("{:?}", parsed(&bad_line_sep));
    println!("{:?}", parsed(&bad_seps));

    assert!(parsed(&bad_kv_sep).is_err());
    assert!(parsed(&bad_line_sep).is_err());
    assert!(parsed(&bad_seps).is_err());
}

#[test]
fn sentinels_are_the_documented_texts() {
    assert_eq!(KV_SPLIT, "|>!<|");
    assert_eq!(LINE_TERM, "|<!>|\n");
}

#[test]
fn the_store_is_kept_in_a_dot_file() {
    assert_eq!(DEFAULT_FILE_NAME, ".dumpb_store");
}

#[test]
fn encode_writes_each_record_with_both_sentinels() {
    assert_eq!(encode(&vec![]), "");
    assert_eq!(encode(&vec![pair("shell", "echo hi")]), "shell|>!<|echo hi|<!>|\n");
    assert_eq!(
        encode(&vec![pair("a", "1"), pair("b", "2 3")]),
        "a|>!<|1|<!>|\nb|>!<|2 3|<!>|\n"
    );
}

#[test]
fn decode_reads_records_in_file_order() {
    assert_eq!(decode(""), Ok(vec![]));
    assert_eq!(
        decode("b|>!<|2|<!>|\na|>!<|1|<!>|\n"),
        Ok(vec![pair("b", "2"), pair("a", "1")])
    );
}

#[test]
fn decode_accepts_empty_fields_and_newlines() {
    assert_eq!(decode("|>!<||<!>|\n"), Ok(vec![pair("", "")]));
    assert_eq!(decode("k|>!<||<!>|\n"), Ok(vec![pair("k", "")]));
    assert_eq!(decode("|>!<|v|<!>|\n"), Ok(vec![pair("", "v")]));
    assert_eq!(decode("k|>!<|a\nb|<!>|\n"), Ok(vec![pair("k", "a\nb")]));
}

#[test]
fn decode_reads_text_beyond_ascii() {
    assert_eq!(
        decode("gr\u{fc}\u{df}|>!<|\u{3053}\u{3093}|<!>|\ncaf\u{e9}|>!<|\u{1f980}|<!>|\n"),
        Ok(vec![
            pair("gr\u{fc}\u{df}", "\u{3053}\u{3093}"),
            pair("caf\u{e9}", "\u{1f980}")
        ])
    );
}

#[test]
fn decode_names_the_first_bad_line() {
    // no separator
    assert_eq!(
        decode("a|>!<|1|<!>|\nbroken|<!>|\nc|>!<|3|<!>|\n"),
        Err("broken|<!>|\n".to_string())
    );
    // the separator twice
    assert_eq!(
        decode("k|>!<|a|>!<|b|<!>|\n"),
        Err("k|>!<|a|>!<|b|<!>|\n".to_string())
    );
    // the separator twice, the two sharing a bar
    assert_eq!(decode("|>!<|>!<|x|<!>|\n"), Err("|>!<|>!<|x|<!>|\n".to_string()));
    // text behind the last terminator
    assert_eq!(decode("a|>!<|1|<!>|\ntail"), Err("tail".to_string()));
    assert_eq!(decode("a|>!<|1|<!>|"), Err("a|>!<|1|<!>|".to_string()));
    // a terminator alone
    assert_eq!(decode("|<!>|\n"), Err("|<!>|\n".to_string()));
}

#[test]
fn round_trip_of_no_one_and_many_records() {
    let none: Vec<(String, String)> = vec![];
    assert_eq!(decode(&encode(&none)), Ok(none));

    let one = vec![pair("shell", "echo hi")];
    assert_eq!(decode(&encode(&one)), Ok(one));

    let many = vec![
        pair("ls", "ls -la /tmp"),
        pair("grep", "grep -rn \"fn main\" src"),
        pair("pipe", "cat a | sort > b"),
        pair("empty", ""),
        pair("sym", "<!> >!< |"),
    ];
    assert_eq!(decode(&encode(&many)), Ok(many));
}

#[test]
fn round_trip_through_a_store() {
    let mut db = opened("");
    db.add(&"ls".to_string(), &"ls -la".to_string()).unwrap();
    db.add(&"top".to_string(), &"top -b -n 1".to_string()).unwrap();
    db.add(&"say".to_string(), &"echo hi".to_string()).unwrap();
    let dump = db.construct_dump();
    let again = opened(&dump);
    assert_eq!(again.items(), db.items());
    assert_eq!(again.construct_dump(), dump);
}

#[test]
fn a_key_that_ends_in_part_of_the_separator_is_not_read_back() {
    let mut db = opened("");
    db.add(&"|>!<".to_string(), &"x".to_string()).unwrap();
    let dump = db.construct_dump();
    assert_eq!(dump, "|>!<|>!<|x|<!>|\n");
    assert_eq!(
        KVFileDatabase::new(&FileState::Regular(dump.clone())).err(),
        Some(StoreError::Parse { line: dump })
    );
}

#[test]
fn a_value_that_begins_with_part_of_a_sentinel_is_not_read_back() {
    let mut db = opened("");
    db.add(&"k".to_string(), &">!<|x".to_string()).unwrap();
    let dump = db.construct_dump();
    assert_eq!(dump, "k|>!<|>!<|x|<!>|\n");
    assert_eq!(decode(&dump), Err(dump));

    let mut db = opened("");
    db.add(&"k".to_string(), &"<!>|\nrest".to_string()).unwrap();
    let dump = db.construct_dump();
    assert_eq!(dump, "k|>!<|<!>|\nrest|<!>|\n");
    assert_eq!(decode(&dump), Err("k|>!<|<!>|\n".to_string()));
}

#[test]
fn a_value_that_holds_a_sentinel_is_not_read_back() {
    let mut db = opened("");
    db.add(&"k".to_string(), &"a|>!<|b".to_string()).unwrap();
    assert!(KVFileDatabase::new(&FileState::Regular(db.construct_dump())).is_err());

    let mut db = opened("");
    db.add(&"k".to_string(), &"a|<!>|\nb".to_string()).unwrap();
    assert!(KVFileDatabase::new(&FileState::Regular(db.construct_dump())).is_err());
}

#[test]
fn opening_without_a_file_gives_an_empty_store() {
    let db = KVFileDatabase::new(&FileState::Absent).unwrap();
    assert_eq!(db.items(), Ok(vec![]));
    assert_eq!(db.construct_dump(), "");
}

#[test]
fn opening_on_an_empty_file_gives_an_empty_store() {
    let db = opened("");
    assert_eq!(db.items(), Ok(vec![]));
}

#[test]
fn opening_on_what_is_no_file_fails() {
    assert_eq!(KVFileDatabase::new(&FileState::NotRegular).err(), Some(StoreError::Io));
}

#[test]
fn read_file_gives_the_text_or_fails() {
    assert_eq!(KVFileDatabase::read_file(&FileState::Absent), Ok(String::new()));
    assert_eq!(
        KVFileDatabase::read_file(&FileState::Regular("a|>!<|1|<!>|\n".to_string())),
        Ok("a|>!<|1|<!>|\n".to_string())
    );
    assert_eq!(KVFileDatabase::read_file(&FileState::NotRegular), Err(StoreError::Io));
}

#[test]
fn malformed_load_is_all_or_nothing() {
    let content = format!("good{}value{}bad line without separator{}", KV_SPLIT, LINE_TERM, LINE_TERM);
    let opened = KVFileDatabase::new(&FileState::Regular(content));
    assert_eq!(
        opened.err(),
        Some(StoreError::Parse { line: "bad line without separator|<!>|\n".to_string() })
    );
    let content = format!("bad line without separator{}good{}value{}", LINE_TERM, KV_SPLIT, LINE_TERM);
    assert!(KVFileDatabase::new(&FileState::Regular(content)).is_err());
}

#[test]
fn of_two_records_with_one_key_the_later_counts() {
    let db = opened("a|>!<|1|<!>|\nb|>!<|2|<!>|\na|>!<|3|<!>|\n");
    assert_eq!(db.items(), Ok(vec![pair("a", "3"), pair("b", "2")]));
    assert_eq!(db.get(&"a".to_string()), Ok("3".to_string()));
}

#[test]
fn no_silent_overwrite() {
    let mut db = opened("");
    let key = "k".to_string();
    assert_eq!(db.add(&key, &"v1".to_string()), Ok(()));
    assert_eq!(
        db.add(&key, &"v2".to_string()),
        Err(StoreError::DuplicateKey { key: "k".to_string() })
    );
    assert_eq!(db.get(&key), Ok("v1".to_string()));
    assert_eq!(db.items(), Ok(vec![pair("k", "v1")]));
}

#[test]
fn missing_key_operations_change_nothing() {
    let mut db = opened("a|>!<|1|<!>|\nb|>!<|2|<!>|\n");
    let before = db.items();
    let absent = "c".to_string();
    assert_eq!(db.get(&absent), Err(StoreError::NotFound { key: "c".to_string() }));
    assert_eq!(db.items(), before);
    assert_eq!(db.remove(&absent), Err(StoreError::NotFound { key: "c".to_string() }));
    assert_eq!(db.items(), before);
}

#[test]
fn remove_takes_one_record_out() {
    let mut db = opened("a|>!<|1|<!>|\nb|>!<|2|<!>|\nc|>!<|3|<!>|\n");
    assert_eq!(db.remove(&"b".to_string()), Ok(()));
    assert_eq!(db.items(), Ok(vec![pair("a", "1"), pair("c", "3")]));
    assert_eq!(db.get(&"b".to_string()), Err(StoreError::NotFound { key: "b".to_string() }));
    assert_eq!(db.construct_dump(), "a|>!<|1|<!>|\nc|>!<|3|<!>|\n");
}

#[test]
fn clear_is_total() {
    let mut db = opened("a|>!<|1|<!>|\nb|>!<|2|<!>|\n");
    db.clear();
    assert_eq!(db.items(), Ok(vec![]));
    db.clear();
    assert_eq!(db.items(), Ok(vec![]));
    assert_eq!(db.construct_dump(), "");
}

#[test]
fn dump_holds_every_record_changed_or_not() {
    let mut db = opened("a|>!<|1|<!>|\n");
    assert_eq!(db.construct_dump(), "a|>!<|1|<!>|\n");
    db.add(&"b".to_string(), &"2".to_string()).unwrap();
    assert_eq!(db.construct_dump(), "a|>!<|1|<!>|\nb|>!<|2|<!>|\n");
}

#[test]
fn error_messages() {
    assert_eq!(
        StoreError::Parse { line: "x\n".to_string() }.message(),
        "Line \"x\n\" has incompatible format"
    );
    assert_eq!(
        StoreError::DuplicateKey { key: "k".to_string() }.message(),
        "Key \"k\" already exists"
    );
    assert_eq!(
        StoreError::NotFound { key: "k".to_string() }.message(),
        "Key \"k\" does not exist"
    );
    assert_eq!(
        StoreError::Io.message(),
        "Object specified by path exists, but it is not a valid file"
    );
    assert_eq!(
        StoreError::InvalidQuery.message(),
        "Query should have exactly one argument specified"
    );
}
