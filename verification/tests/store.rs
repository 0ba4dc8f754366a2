use kvs::error::KvsErrors;
use kvs::store::log_file_name;
use kvs::KvStore;
use std::io::{Error, ErrorKind};

fn text(s: &str) -> String {
    s.to_string()
}

/// Appends to `log` as a file would, and commits.
fn append(store: &mut KvStore, log: &mut String, line: String) {
    log.push_str(&line);
    store.commit(Ok(())).unwrap();
}

fn set(store: &mut KvStore, log: &mut String, key: &str, value: &str) {
    let line = store.set(text(key), text(value)).unwrap();
    append(store, log, line);
}

fn remove(store: &mut KvStore, log: &mut String, key: &str) {
    let line = store.remove(text(key)).unwrap();
    append(store, log, line);
}

fn get(store: &mut KvStore, key: &str) -> Option<String> {
    store.get(text(key)).unwrap()
}

#[test]
fn new_store_is_empty() {
    let mut store = KvStore::new();
    assert_eq!(get(&mut store, "a"), None);
    assert_eq!(get(&mut store, ""), None);
}

#[test]
fn set_then_get_returns_the_value() {
    let mut store = KvStore::new();
    let mut log = String::new();
    set(&mut store, &mut log, "a", "1");
    assert_eq!(get(&mut store, "a"), Some(text("1")));
    assert_eq!(get(&mut store, "b"), None);
}

#[test]
fn set_returns_the_line_to_append() {
    let mut store = KvStore::new();
    let line = store.set(text("a"), text("1")).unwrap();
    assert_eq!(line, "{\"Set\":{\"key\":\"a\",\"value\":\"1\"}}\n");
}

#[test]
fn remove_returns_the_line_to_append() {
    let mut store = KvStore::open("{\"Set\":{\"key\":\"a\",\"value\":\"1\"}}\n").unwrap();
    let line = store.remove(text("a")).unwrap();
    assert_eq!(line, "{\"Remove\":{\"key\":\"a\"}}\n");
}

#[test]
fn set_twice_overwrites() {
    let mut store = KvStore::new();
    let mut log = String::new();
    set(&mut store, &mut log, "a", "1");
    set(&mut store, &mut log, "a", "2");
    assert_eq!(get(&mut store, "a"), Some(text("2")));
}

#[test]
fn remove_of_a_missing_key_is_key_not_found() {
    let mut store = KvStore::new();
    assert!(matches!(store.remove(text("missing")), Err(KvsErrors::KeyNotFound())));
}

#[test]
fn remove_takes_the_key_out_and_fails_the_second_time() {
    let mut store = KvStore::new();
    let mut log = String::new();
    set(&mut store, &mut log, "a", "1");
    remove(&mut store, &mut log, "a");
    assert_eq!(get(&mut store, "a"), None);
    assert!(matches!(store.remove(text("a")), Err(KvsErrors::KeyNotFound())));
    assert_eq!(
        log,
        "{\"Set\":{\"key\":\"a\",\"value\":\"1\"}}\n{\"Remove\":{\"key\":\"a\"}}\n"
    );
}

#[test]
fn remove_right_after_set_succeeds() {
    let mut store = KvStore::new();
    let mut log = String::new();
    set(&mut store, &mut log, "k", "v");
    assert!(store.remove(text("k")).is_ok());
}

#[test]
fn state_survives_reopening_on_the_log() {
    let mut store = KvStore::new();
    let mut log = String::new();
    set(&mut store, &mut log, "a", "1");
    drop(store);
    let mut again = KvStore::open(&log).unwrap();
    assert_eq!(get(&mut again, "a"), Some(text("1")));
}

#[test]
fn reopening_gives_the_same_mapping_after_many_operations() {
    let mut store = KvStore::new();
    let mut log = String::new();
    set(&mut store, &mut log, "a", "1");
    set(&mut store, &mut log, "b", "two\nlines");
    set(&mut store, &mut log, "", "empty key");
    set(&mut store, &mut log, "c", "");
    set(&mut store, &mut log, "a", "3");
    remove(&mut store, &mut log, "b");
    set(&mut store, &mut log, " d ", " \"quoted\" \\ ");
    let mut again = KvStore::open(&log).unwrap();
    for key in ["a", "b", "", "c", " d ", "e"] {
        assert_eq!(get(&mut again, key), get(&mut store, key), "{:?}", key);
    }
    assert_eq!(get(&mut again, "a"), Some(text("3")));
    assert_eq!(get(&mut again, "b"), None);
    assert_eq!(get(&mut again, ""), Some(text("empty key")));
    assert_eq!(get(&mut again, "c"), Some(text("")));
    assert_eq!(get(&mut again, " d "), Some(text(" \"quoted\" \\ ")));
}

#[test]
fn replaying_twice_gives_the_same_mapping() {
    let log = "{\"Set\":{\"key\":\"a\",\"value\":\"1\"}}\n\
               {\"Set\":{\"key\":\"b\",\"value\":\"2\"}}\n\
               {\"Remove\":{\"key\":\"a\"}}\n";
    let first = KvStore::populate_store(log).unwrap();
    let second = KvStore::populate_store(log).unwrap();
    assert_eq!(first.len(), 1);
    assert_eq!(second.len(), 1);
    for key in ["a", "b", "c"] {
        assert_eq!(first.get(key), second.get(key));
    }
    assert_eq!(first.get("b"), Some(&text("2")));
    assert_eq!(first.get("a"), None);
}

#[test]
fn a_corrupt_line_fails_the_whole_replay() {
    let good = "{\"Set\":{\"key\":\"a\",\"value\":\"1\"}}\n";
    for bad in ["garbage", "{\"Set\":{\"key\":\"a\"}}", "{\"Set\":{\"key\":\"a\",\"value\":\"1\"}", "{"] {
        for log in [
            format!("{bad}\n"),
            format!("{bad}\n{good}"),
            format!("{good}{bad}\n"),
            format!("{good}{bad}"),
            format!("{good}{bad}\n{good}"),
        ] {
            assert!(matches!(KvStore::open(&log), Err(KvsErrors::Serde(_))), "{:?}", log);
            assert!(matches!(KvStore::populate_store(&log), Err(KvsErrors::Serde(_))));
        }
    }
}

#[test]
fn two_records_on_one_line_are_corrupt() {
    let log = "{\"Set\":{\"key\":\"a\",\"value\":\"1\"}}{\"Remove\":{\"key\":\"a\"}}\n";
    assert!(matches!(KvStore::open(log), Err(KvsErrors::Serde(_))));
}

#[test]
fn blank_lines_are_skipped() {
    let log = "\n  \n{\"Set\":{\"key\":\"a\",\"value\":\"1\"}}\n\n\t \r\n\
               {\"Set\":{\"key\":\"b\",\"value\":\"2\"}}\n\n";
    let mut store = KvStore::open(log).unwrap();
    assert_eq!(get(&mut store, "a"), Some(text("1")));
    assert_eq!(get(&mut store, "b"), Some(text("2")));
}

#[test]
fn white_space_around_a_record_does_not_count() {
    let log = "  {\"Set\":{\"key\":\" a \",\"value\":\" 1 \"}}\t\r\n";
    let mut store = KvStore::open(log).unwrap();
    assert_eq!(get(&mut store, " a "), Some(text(" 1 ")));
    assert_eq!(get(&mut store, "a"), None);
}

#[test]
fn an_empty_log_opens_to_an_empty_store() {
    let mut store = KvStore::open("").unwrap();
    assert_eq!(get(&mut store, "a"), None);
    let line = store.set(text("a"), text("1")).unwrap();
    assert_eq!(line, "{\"Set\":{\"key\":\"a\",\"value\":\"1\"}}\n");
}

#[test]
fn a_stale_remove_in_the_log_is_no_error() {
    let log = "{\"Remove\":{\"key\":\"never set\"}}\n\
               {\"Set\":{\"key\":\"a\",\"value\":\"1\"}}\n\
               {\"Remove\":{\"key\":\"a\"}}\n\
               {\"Remove\":{\"key\":\"a\"}}\n";
    let mut store = KvStore::open(log).unwrap();
    assert_eq!(get(&mut store, "a"), None);
    assert_eq!(get(&mut store, "never set"), None);
}

#[test]
fn a_last_line_without_line_feed_is_read_and_closed_before_the_next_record() {
    let mut log = text("{\"Set\":{\"key\":\"a\",\"value\":\"1\"}}");
    let mut store = KvStore::open(&log).unwrap();
    assert_eq!(get(&mut store, "a"), Some(text("1")));
    let line = store.set(text("b"), text("2")).unwrap();
    assert_eq!(line, "\n{\"Set\":{\"key\":\"b\",\"value\":\"2\"}}\n");
    append(&mut store, &mut log, line);
    let line = store.set(text("c"), text("3")).unwrap();
    assert_eq!(line, "{\"Set\":{\"key\":\"c\",\"value\":\"3\"}}\n");
    append(&mut store, &mut log, line);
    let mut again = KvStore::open(&log).unwrap();
    assert_eq!(get(&mut again, "a"), Some(text("1")));
    assert_eq!(get(&mut again, "b"), Some(text("2")));
    assert_eq!(get(&mut again, "c"), Some(text("3")));
}

#[test]
fn the_mapping_changes_only_at_commit() {
    let mut store = KvStore::new();
    store.set(text("a"), text("1")).unwrap();
    assert_eq!(get(&mut store, "a"), None);
    store.commit(Ok(())).unwrap();
    assert_eq!(get(&mut store, "a"), Some(text("1")));
    store.remove(text("a")).unwrap();
    assert_eq!(get(&mut store, "a"), Some(text("1")));
    store.commit(Ok(())).unwrap();
    assert_eq!(get(&mut store, "a"), None);
}

#[test]
fn a_failed_append_leaves_the_mapping_untouched() {
    let mut store = KvStore::open("{\"Set\":{\"key\":\"a\",\"value\":\"1\"}}\n").unwrap();
    store.set(text("a"), text("2")).unwrap();
    let outcome = store.commit(Err(Error::new(ErrorKind::PermissionDenied, "read-only")));
    match outcome {
        Err(KvsErrors::IO(e)) => assert_eq!(e.kind(), ErrorKind::PermissionDenied),
        other => panic!("{:?}", other),
    }
    assert_eq!(get(&mut store, "a"), Some(text("1")));
    store.remove(text("a")).unwrap();
    assert!(matches!(
        store.commit(Err(Error::new(ErrorKind::Other, "disk full"))),
        Err(KvsErrors::IO(_))
    ));
    assert_eq!(get(&mut store, "a"), Some(text("1")));
    assert!(matches!(store.commit(Ok(())), Err(KvsErrors::GeneralError)));
    assert_eq!(get(&mut store, "a"), Some(text("1")));
}

#[test]
fn commit_with_nothing_staged_is_a_general_error() {
    let mut store = KvStore::new();
    assert!(matches!(store.commit(Ok(())), Err(KvsErrors::GeneralError)));
    store.set(text("a"), text("1")).unwrap();
    store.commit(Ok(())).unwrap();
    assert!(matches!(store.commit(Ok(())), Err(KvsErrors::GeneralError)));
    assert_eq!(get(&mut store, "a"), Some(text("1")));
}

#[test]
fn a_failed_remove_keeps_what_was_staged() {
    let mut store = KvStore::new();
    store.set(text("a"), text("1")).unwrap();
    assert!(matches!(store.remove(text("b")), Err(KvsErrors::KeyNotFound())));
    store.commit(Ok(())).unwrap();
    assert_eq!(get(&mut store, "a"), Some(text("1")));
}

#[test]
fn staging_again_drops_what_was_staged() {
    let mut store = KvStore::new();
    store.set(text("a"), text("1")).unwrap();
    store.set(text("b"), text("2")).unwrap();
    store.commit(Ok(())).unwrap();
    assert_eq!(get(&mut store, "a"), None);
    assert_eq!(get(&mut store, "b"), Some(text("2")));
}

#[test]
fn errors_convert_from_the_outside_errors() {
    let io = KvsErrors::from(Error::new(ErrorKind::NotFound, "gone"));
    assert!(matches!(io, KvsErrors::IO(_)));
    let json = serde_json::from_str::<String>("not json").unwrap_err();
    assert!(matches!(KvsErrors::from(json), KvsErrors::Serde(_)));
}

#[test]
fn the_log_file_is_called_log_txt() {
    assert_eq!(log_file_name(), "log.txt");
}
