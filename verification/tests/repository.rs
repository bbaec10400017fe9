use dumpb::error::StoreError;
use dumpb::file_db::{FileState, KVFileDatabase};
use dumpb::mapping::Mapping;
use dumpb::queries::{AddNewRecordQuery, DeleteRecordQuery, GetRecordQuery, ListRecordsQuery};
use dumpb::record::Record;
use dumpb::repository::{InMemoryRecordRepository, KVFileDatabaseRepository, RecordRepository};
use dumpb::services::{
    AddNewRecordService, ClearRecordsService, GetRecordService, ListRecordsService, ListResult,
};

fn text(s: &str) -> String {
    s.to_string()
}

fn record(key: &str, value: &str) -> Record {
    Record::new(&text(key), &text(value))
}

fn file_repository(content: &str) -> KVFileDatabaseRepository {
    KVFileDatabaseRepository::new(KVFileDatabase::new(&FileState::Regular(text(content))).unwrap())
}

#[test]
fn add_new_record_adds_record() {
    let mut record_repository: InMemoryRecordRepository = InMemoryRecordRepository::new();
    let query = AddNewRecordQuery::new("test_key".to_string(), "test_val".to_string());
    let mut service = AddNewRecordService::new(&mut record_repository);
    service.run(&query).unwrap();

    let expected_record = Record::new(&query.key, &query.value);
    match record_repository.get(query.key) {
        Ok(record) => assert_eq!(record, expected_record),
        Err(_) => assert!(false),
    }
}

#[test]
fn record_keeps_key_and_value() {
    let r = record("shell", "echo hi");
    assert_eq!(r.key, "shell");
    assert_eq!(r.value, "echo hi");
    assert_eq!(r, Record { key: text("shell"), value: text("echo hi") });
}

#[test]
fn record_is_shown_with_key_and_value() {
    assert_eq!(record("shell", "echo hi").to_text(), "{\n  key: shell,\n  value: echo hi\n}");
    assert_eq!(record("", "").to_text(), "{\n  key: ,\n  value: \n}");
}

#[test]
fn mapping_inserts_like_a_hash_map() {
    let mut m = Mapping::new();
    assert_eq!(m.to_vec(), vec![]);
    assert_eq!(m.insert(text("a"), text("1")), None);
    assert_eq!(m.insert(text("b"), text("2")), None);
    assert_eq!(m.insert(text("a"), text("3")), Some(text("1")));
    assert_eq!(m.to_vec(), vec![(text("a"), text("3")), (text("b"), text("2"))]);
    assert!(m.contains_key(&text("a")));
    assert!(!m.contains_key(&text("c")));
    assert_eq!(m.get(&text("b")), Some(&text("2")));
    assert_eq!(m.get(&text("c")), None);
}

#[test]
fn mapping_removes_and_clears() {
    let mut m = Mapping::new();
    m.insert(text("a"), text("1"));
    m.insert(text("b"), text("2"));
    m.insert(text("c"), text("3"));
    assert_eq!(m.remove(&text("b")), Some(text("2")));
    assert_eq!(m.remove(&text("b")), None);
    assert_eq!(m.to_vec(), vec![(text("a"), text("1")), (text("c"), text("3"))]);
    m.clear();
    assert_eq!(m.to_vec(), vec![]);
}

fn exercise<R: RecordRepository>(repository: &mut R) {
    assert_eq!(repository.all().unwrap(), vec![]);
    assert_eq!(repository.add(record("shell", "echo hi")), Ok(()));
    assert_eq!(repository.get(text("shell")), Ok(record("shell", "echo hi")));
    assert_eq!(
        repository.add(record("shell", "echo ho")),
        Err(StoreError::DuplicateKey { key: text("shell") })
    );
    assert_eq!(repository.get(text("shell")), Ok(record("shell", "echo hi")));
    assert_eq!(repository.add(record("ls", "ls -la")), Ok(()));
    assert_eq!(
        repository.all().unwrap(),
        vec![record("shell", "echo hi"), record("ls", "ls -la")]
    );
    assert_eq!(repository.get(text("top")), Err(StoreError::NotFound { key: text("top") }));
    assert_eq!(repository.remove(text("top")), Err(StoreError::NotFound { key: text("top") }));
    assert_eq!(
        repository.all().unwrap(),
        vec![record("shell", "echo hi"), record("ls", "ls -la")]
    );
    assert_eq!(repository.remove(text("shell")), Ok(()));
    assert_eq!(repository.get(text("shell")), Err(StoreError::NotFound { key: text("shell") }));
    assert_eq!(repository.all().unwrap(), vec![record("ls", "ls -la")]);
    assert_eq!(repository.clear(), Ok(()));
    assert_eq!(repository.all().unwrap(), vec![]);
    assert_eq!(repository.clear(), Ok(()));
    assert_eq!(repository.all().unwrap(), vec![]);
}

#[test]
fn repository_in_memory_follows_the_contract() {
    let mut repository = InMemoryRecordRepository::new();
    exercise(&mut repository);
}

#[test]
fn repository_in_a_file_follows_the_contract() {
    let mut repository = file_repository("");
    exercise(&mut repository);
}

#[test]
fn repository_in_a_box_follows_the_contract() {
    let mut repository: Box<dyn RecordRepository> = Box::new(InMemoryRecordRepository::new());
    exercise(&mut repository);
    let mut repository: Box<dyn RecordRepository> = Box::new(file_repository(""));
    exercise(&mut repository);
}

#[test]
fn repository_in_a_file_hands_its_store_back() {
    let mut repository = file_repository("a|>!<|1|<!>|\n");
    repository.add(record("b", "2")).unwrap();
    let storage = repository.into_storage();
    assert_eq!(storage.construct_dump(), "a|>!<|1|<!>|\nb|>!<|2|<!>|\n");
    assert_eq!(storage.close(), "a|>!<|1|<!>|\nb|>!<|2|<!>|\n");
}

#[test]
fn scenario_add_get_list_remove() {
    let mut repository = file_repository("");

    let add = AddNewRecordQuery::new(text("shell"), text("echo hi"));
    assert_eq!(AddNewRecordService::new(&mut repository).run(&add), Ok(()));

    let get = GetRecordQuery::new(text("shell"));
    assert_eq!(
        GetRecordService::new(&repository).run(&get).map(|record| record.value),
        Ok(text("echo hi"))
    );

    let list = ListRecordsQuery::new(true);
    match ListRecordsService::new(&repository).run(&list) {
        Ok(ListResult::KeyView(keys)) => assert_eq!(keys, vec![text("shell")]),
        _ => panic!("a listing of keys was asked for"),
    }

    let rm = DeleteRecordQuery::new(&Some(text("shell")), false);
    assert_eq!(
        ClearRecordsService::new(&mut repository).run(&rm),
        Ok(text("Removed record with key \"shell\""))
    );

    assert_eq!(
        GetRecordService::new(&repository).run(&get),
        Err(StoreError::NotFound { key: text("shell") })
    );
}

#[test]
fn queries_keep_what_they_are_given() {
    let add = AddNewRecordQuery::new(text("k"), text("v"));
    assert_eq!((add.key, add.value), (text("k"), text("v")));
    assert_eq!(GetRecordQuery::new(text("k")).key, "k");
    assert!(ListRecordsQuery::new(true).keys_only);
    assert!(!ListRecordsQuery::new(false).keys_only);
    let rm = DeleteRecordQuery::new(&Some(text("k")), false);
    assert_eq!((rm.key, rm.all), (Some(text("k")), false));
    let rm = DeleteRecordQuery::new(&None, true);
    assert_eq!((rm.key, rm.all), (None, true));
}

#[test]
fn list_service_gives_records_or_keys() {
    let repository = file_repository("a|>!<|1|<!>|\nb|>!<|2|<!>|\n");
    let service = ListRecordsService::new(&repository);
    match service.run(&ListRecordsQuery::new(false)) {
        Ok(ListResult::RecordView(records)) => {
            assert_eq!(records, vec![record("a", "1"), record("b", "2")])
        }
        _ => panic!("a listing of records was asked for"),
    }
    match service.run(&ListRecordsQuery::new(true)) {
        Ok(ListResult::KeyView(keys)) => assert_eq!(keys, vec![text("a"), text("b")]),
        _ => panic!("a listing of keys was asked for"),
    }
}

#[test]
fn clear_service_deletes_one_or_all() {
    let mut repository = file_repository("a|>!<|1|<!>|\nb|>!<|2|<!>|\nc|>!<|3|<!>|\n");
    let mut service = ClearRecordsService::new(&mut repository);
    assert_eq!(
        service.run(&DeleteRecordQuery::new(&Some(text("b")), false)),
        Ok(text("Removed record with key \"b\""))
    );
    assert_eq!(
        service.run(&DeleteRecordQuery::new(&Some(text("b")), false)),
        Err(StoreError::NotFound { key: text("b") })
    );
    assert_eq!(repository.all().unwrap(), vec![record("a", "1"), record("c", "3")]);
    let mut service = ClearRecordsService::new(&mut repository);
    assert_eq!(
        service.run(&DeleteRecordQuery::new(&None, true)),
        Ok(text("All records were removed!"))
    );
    assert_eq!(repository.all().unwrap(), vec![]);
}

#[test]
fn clear_service_refuses_neither_and_both() {
    let mut repository = file_repository("a|>!<|1|<!>|\n");
    let mut service = ClearRecordsService::new(&mut repository);
    assert_eq!(
        service.run(&DeleteRecordQuery::new(&None, false)),
        Err(StoreError::InvalidQuery)
    );
    assert_eq!(
        service.run(&DeleteRecordQuery::new(&Some(text("a")), true)),
        Err(StoreError::InvalidQuery)
    );
    assert_eq!(repository.all().unwrap(), vec![record("a", "1")]);
}
