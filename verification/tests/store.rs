use kvs::{KvError, KvStore, LogChange};

fn s(text: &str) -> String {
    text.to_string()
}

fn fresh() -> KvStore {
    KvStore::open(Vec::new())
}

#[test]
fn set_then_get_finds_the_value() {
    let mut store = fresh();
    store.set(s("a"), s("1")).unwrap();
    assert_eq!(store.get(s("a")), Ok(Some(s("1"))));
}

#[test]
fn get_of_a_missing_key_is_none() {
    let store = fresh();
    assert_eq!(store.get(s("missing")), Ok(None));
}

#[test]
fn second_set_overwrites_the_first() {
    let mut store = fresh();
    store.set(s("a"), s("1")).unwrap();
    store.set(s("a"), s("2")).unwrap();
    assert_eq!(store.get(s("a")), Ok(Some(s("2"))));
}

#[test]
fn remove_unbinds_and_second_remove_fails() {
    let mut store = fresh();
    store.set(s("a"), s("1")).unwrap();
    assert_eq!(store.remove(s("a")), Ok(LogChange::Replaced));
    assert_eq!(store.get(s("a")), Ok(None));
    assert_eq!(store.remove(s("a")), Err(KvError::KeyNotFound));
}

#[test]
fn remove_of_a_key_never_set_writes_nothing() {
    let mut store = fresh();
    store.set(s("kept"), s("v")).unwrap();
    let before = store.log().to_vec();
    assert_eq!(store.remove(s("other")), Err(KvError::KeyNotFound));
    assert_eq!(store.log(), &before[..]);
    assert_eq!(store.total(), 1);
    assert_eq!(store.actual(), 1);
}

#[test]
fn contents_survive_close_and_open() {
    let log = {
        let mut store = fresh();
        store.set(s("k"), s("v")).unwrap();
        store.log().to_vec()
    };
    let store = KvStore::open(log);
    assert_eq!(store.get(s("k")), Ok(Some(s("v"))));
}

#[test]
fn reopening_gives_the_same_answer_for_every_key() {
    let mut store = fresh();
    let keys = ["a", "b", "c", "d", "e"];
    store.write_set(s("a"), s("1")).unwrap();
    store.write_set(s("b"), s("2")).unwrap();
    store.write_set(s("a"), s("3")).unwrap();
    store.write_remove(s("b")).unwrap();
    store.write_set(s("c"), s("")).unwrap();
    store.write_set(s("d"), s("4")).unwrap();
    store.write_remove(s("d")).unwrap();
    store.write_set(s("d"), s("5")).unwrap();
    let again = KvStore::open(store.log().to_vec());
    for key in keys {
        assert_eq!(again.get(s(key)), store.get(s(key)));
    }
    assert_eq!(again.get(s("a")), Ok(Some(s("3"))));
    assert_eq!(again.get(s("b")), Ok(None));
    assert_eq!(again.get(s("c")), Ok(Some(s(""))));
    assert_eq!(again.get(s("d")), Ok(Some(s("5"))));
    assert_eq!(again.get(s("e")), Ok(None));
    assert_eq!(again.actual(), 3);
    assert_eq!(again.total(), 8);
}

#[test]
fn a_thousand_sets_of_one_key_keep_the_log_short() {
    let mut store = fresh();
    store.set(s("k"), s("0")).unwrap();
    let one_record = store.log().len();
    for i in 0..1000 {
        let value = format!("{}", i);
        store.set(s("k"), value.clone()).unwrap();
        assert_eq!(store.get(s("k")), Ok(Some(value)));
    }
    assert_eq!(store.get(s("k")), Ok(Some(s("999"))));
    assert!(store.log().len() <= 6 * (one_record + 2));
    let again = KvStore::open(store.log().to_vec());
    assert_eq!(again.get(s("k")), Ok(Some(s("999"))));
}

#[test]
fn empty_value_is_a_value() {
    let mut store = fresh();
    store.set(s("k"), s("")).unwrap();
    assert_eq!(store.get(s("k")), Ok(Some(s(""))));
    assert_ne!(store.get(s("k")), Ok(None));
}

#[test]
fn empty_key_is_a_key() {
    let mut store = fresh();
    store.set(s(""), s("nothing")).unwrap();
    assert_eq!(store.get(s("")), Ok(Some(s("nothing"))));
    let again = KvStore::open(store.log().to_vec());
    assert_eq!(again.get(s("")), Ok(Some(s("nothing"))));
    store.remove(s("")).unwrap();
    assert_eq!(store.get(s("")), Ok(None));
}

#[test]
fn strings_of_any_characters_come_back_as_they_went_in() {
    let mut store = fresh();
    let key = s("sch\u{00fc}ssel \u{1f511}\0end");
    let value = s("line one\nline two\t\u{4e16}\u{754c}\0\u{10ffff}");
    store.set(key.clone(), value.clone()).unwrap();
    assert_eq!(store.get(key.clone()), Ok(Some(value.clone())));
    let again = KvStore::open(store.log().to_vec());
    assert_eq!(again.get(key), Ok(Some(value)));
}

#[test]
fn last_writer_wins_among_other_keys() {
    let mut store = fresh();
    store.set(s("k"), s("v1")).unwrap();
    store.set(s("other"), s("x")).unwrap();
    store.set(s("k"), s("v2")).unwrap();
    store.remove(s("other")).unwrap();
    store.set(s("k"), s("v3")).unwrap();
    store.set(s("third"), s("y")).unwrap();
    assert_eq!(store.get(s("k")), Ok(Some(s("v3"))));
}

#[test]
fn set_after_remove_binds_again() {
    let mut store = fresh();
    store.set(s("k"), s("old")).unwrap();
    store.remove(s("k")).unwrap();
    store.set(s("k"), s("new")).unwrap();
    assert_eq!(store.get(s("k")), Ok(Some(s("new"))));
    assert_eq!(store.actual(), 1);
}

#[test]
fn counters_follow_the_writes() {
    let mut store = fresh();
    assert_eq!((store.total(), store.actual()), (0, 0));
    store.write_set(s("a"), s("1")).unwrap();
    assert_eq!((store.total(), store.actual()), (1, 1));
    store.write_set(s("a"), s("2")).unwrap();
    assert_eq!((store.total(), store.actual()), (2, 1));
    store.write_set(s("b"), s("3")).unwrap();
    assert_eq!((store.total(), store.actual()), (3, 2));
    store.write_remove(s("a")).unwrap();
    assert_eq!((store.total(), store.actual()), (5, 1));
    assert_eq!(store.write_remove(s("a")), Err(KvError::KeyNotFound));
    assert_eq!((store.total(), store.actual()), (5, 1));
}

#[test]
fn compaction_is_due_above_two_records_per_live_key_and_one() {
    let mut store = fresh();
    assert!(!store.compaction_due());
    for i in 0..5 {
        store.write_set(s("k"), format!("{}", i)).unwrap();
        assert_eq!(store.total(), i + 1);
        assert!(!store.compaction_due());
    }
    store.write_set(s("k"), s("5")).unwrap();
    assert_eq!((store.total(), store.actual()), (6, 1));
    assert!(store.compaction_due());
    store.write_set(s("other"), s("x")).unwrap();
    assert_eq!((store.total(), store.actual()), (7, 2));
    assert!(!store.compaction_due());
    store.write_set(s("k"), s("6")).unwrap();
    assert!(!store.compaction_due());
    store.write_set(s("k"), s("7")).unwrap();
    assert_eq!((store.total(), store.actual()), (9, 2));
    assert!(store.compaction_due());
}

#[test]
fn sixth_set_of_one_key_compacts() {
    let mut store = fresh();
    store.set(s("k"), s("0")).unwrap();
    let one_record = store.log().len();
    for i in 1..5 {
        store.set(s("k"), format!("{}", i)).unwrap();
    }
    assert_eq!(store.total(), 5);
    assert_eq!(store.log().len(), 5 * one_record);
    store.set(s("k"), s("5")).unwrap();
    assert_eq!((store.total(), store.actual()), (1, 1));
    assert_eq!(store.log().len(), one_record);
    assert_eq!(store.get(s("k")), Ok(Some(s("5"))));
}

#[test]
fn removing_the_only_key_compacts_to_an_empty_log() {
    let mut store = fresh();
    store.set(s("a"), s("1")).unwrap();
    store.remove(s("a")).unwrap();
    assert_eq!((store.total(), store.actual()), (0, 0));
    assert!(store.log().is_empty());
    assert_eq!(store.get(s("a")), Ok(None));
}

#[test]
fn compaction_keeps_every_answer() {
    let mut store = fresh();
    for i in 0..20 {
        store.write_set(format!("key{}", i % 7), format!("value{}", i)).unwrap();
    }
    store.write_remove(s("key3")).unwrap();
    let mut before = Vec::new();
    for i in 0..8 {
        before.push(store.get(format!("key{}", i)));
    }
    let long = store.log().len();
    assert_eq!(store.compaction(), Ok(()));
    assert!(store.log().len() < long);
    for i in 0..8 {
        assert_eq!(store.get(format!("key{}", i)), before[i]);
    }
    assert_eq!(before[3], Ok(None));
    assert_eq!(before[6], Ok(Some(s("value13"))));
    assert_eq!(before[5], Ok(Some(s("value19"))));
    assert_eq!((store.total(), store.actual()), (6, 6));
}

#[test]
fn compacted_log_holds_one_put_for_each_key_and_no_rm() {
    let mut store = fresh();
    for i in 0..30 {
        store.write_set(format!("key{}", i % 4), format!("value{}", i)).unwrap();
    }
    store.write_remove(s("key1")).unwrap();
    store.compaction().unwrap();
    let log = store.log();
    let mut at = 0;
    let mut keys = Vec::new();
    while let Some((cmd, n)) = kvs::record::read_record(log, at) {
        match cmd {
            kvs::Command::Put { key, value } => {
                assert_eq!(store.get(key.clone()), Ok(Some(value)));
                keys.push(key);
            }
            kvs::Command::Rm { .. } => panic!("a removal in a compacted log"),
        }
        at += n;
    }
    assert_eq!(at, log.len());
    keys.sort();
    assert_eq!(keys, vec![s("key0"), s("key2"), s("key3")]);
    assert_eq!(store.actual(), 3);
}

#[test]
fn compaction_of_an_empty_store_leaves_an_empty_log() {
    let mut store = fresh();
    assert_eq!(store.compaction(), Ok(()));
    assert!(store.log().is_empty());
    assert_eq!((store.total(), store.actual()), (0, 0));
}

#[test]
fn set_appends_exactly_one_record_at_the_old_end() {
    let mut store = fresh();
    store.write_set(s("a"), s("1")).unwrap();
    let before = store.log().to_vec();
    store.write_set(s("b"), s("2")).unwrap();
    let after = store.log();
    assert_eq!(&after[..before.len()], &before[..]);
    let (cmd, n) = kvs::record::read_record(after, before.len()).unwrap();
    assert_eq!(cmd, kvs::Command::Put { key: s("b"), value: s("2") });
    assert_eq!(before.len() + n, after.len());
}

#[test]
fn remove_appends_a_rm_record() {
    let mut store = fresh();
    store.write_set(s("a"), s("1")).unwrap();
    store.write_set(s("b"), s("2")).unwrap();
    let before = store.log().len();
    store.write_remove(s("a")).unwrap();
    let (cmd, n) = kvs::record::read_record(store.log(), before).unwrap();
    assert_eq!(cmd, kvs::Command::Rm { key: s("a") });
    assert_eq!(before + n, store.log().len());
}

#[test]
fn a_value_too_long_for_a_record_is_refused() {
    let too_long = kvs::document::MAX_TEXT_BYTES + 1;
    let mut value = String::new();
    if value.try_reserve_exact(too_long).is_err() {
        return;
    }
    let chunk = "a".repeat(1 << 20);
    while value.len() + chunk.len() <= too_long {
        value.push_str(&chunk);
    }
    value.push_str(&chunk[..too_long - value.len()]);
    assert_eq!(value.len(), 0x7fff_ffff);
    let mut store = fresh();
    store.set(s("kept"), s("v")).unwrap();
    let before = store.log().to_vec();
    assert_eq!(store.set(s("k"), value), Err(KvError::Codec));
    assert_eq!(store.log(), &before[..]);
    assert_eq!(store.get(s("k")), Ok(None));
    assert_eq!(store.get(s("kept")), Ok(Some(s("v"))));
    assert_eq!((store.total(), store.actual()), (1, 1));
}

#[test]
fn set_reports_the_record_appended() {
    let mut store = fresh();
    assert_eq!(store.set(s("a"), s("1")), Ok(LogChange::Appended { from: 0 }));
    let one = store.log().len();
    assert_eq!(store.set(s("b"), s("2")), Ok(LogChange::Appended { from: one }));
    let two = store.log().len();
    assert_eq!(store.set(s("a"), s("3")), Ok(LogChange::Appended { from: two }));
    let (cmd, n) = kvs::record::read_record(store.log(), two).unwrap();
    assert_eq!(cmd, kvs::Command::Put { key: s("a"), value: s("3") });
    assert_eq!(two + n, store.log().len());
}

#[test]
fn set_reports_the_log_replaced_when_it_compacts() {
    let mut store = fresh();
    let mut from = 0;
    for i in 0..5 {
        assert_eq!(store.set(s("k"), format!("{}", i)), Ok(LogChange::Appended { from }));
        from = store.log().len();
    }
    assert_eq!(store.set(s("k"), s("5")), Ok(LogChange::Replaced));
    assert_eq!(store.log().len(), from / 5);
    assert_eq!(store.set(s("k"), s("6")), Ok(LogChange::Appended { from: from / 5 }));
}

#[test]
fn remove_reports_the_record_appended_or_the_log_replaced() {
    let mut store = fresh();
    for key in ["a", "b", "c", "d"] {
        store.set(s(key), s("v")).unwrap();
    }
    let from = store.log().len();
    assert_eq!(store.remove(s("a")), Ok(LogChange::Appended { from }));
    assert_eq!((store.total(), store.actual()), (6, 3));
    let from = store.log().len();
    assert_eq!(store.remove(s("b")), Ok(LogChange::Appended { from }));
    assert_eq!((store.total(), store.actual()), (8, 2));
    assert_eq!(store.remove(s("c")), Ok(LogChange::Replaced));
    assert_eq!((store.total(), store.actual()), (1, 1));
    assert_eq!(store.get(s("d")), Ok(Some(s("v"))));
    assert_eq!(store.remove(s("a")), Err(KvError::KeyNotFound));
}

#[test]
fn a_second_compaction_keeps_the_log_as_long() {
    let mut store = fresh();
    for i in 0..40 {
        store.write_set(format!("key{}", i % 9), format!("value{}", i)).unwrap();
    }
    store.write_remove(s("key4")).unwrap();
    store.compaction().unwrap();
    let first = store.log().len();
    let counters = (store.total(), store.actual());
    assert!(first > 0);
    store.compaction().unwrap();
    assert_eq!(store.log().len(), first);
    assert_eq!((store.total(), store.actual()), counters);
    assert_eq!(counters, (8, 8));
}

#[test]
fn compaction_writes_each_record_afresh() {
    let mut store = fresh();
    for i in 0..12 {
        store.write_set(format!("key{}", i % 3), format!("value{}", i)).unwrap();
    }
    store.compaction().unwrap();
    let log = store.log();
    let mut at = 0;
    let mut seen = 0;
    while let Some((cmd, n)) = kvs::record::read_record(log, at) {
        let bytes = kvs::record::encode_record(&cmd).unwrap();
        assert_eq!(&log[at..at + n], &bytes[..]);
        at += n;
        seen += 1;
    }
    assert_eq!(at, log.len());
    assert_eq!(seen, 3);
}

#[test]
fn compaction_never_makes_a_log_of_the_store_longer() {
    let mut store = fresh();
    for i in 0..25 {
        let before = store.log().len();
        store.write_set(format!("key{}", i % 6), format!("{}", i * i)).unwrap();
        if i % 4 == 3 {
            store.write_remove(format!("key{}", i % 6)).unwrap();
        }
        assert!(store.log().len() > before);
        let mut copy = KvStore::open(store.log().to_vec());
        copy.compaction().unwrap();
        assert!(copy.log().len() <= store.log().len());
    }
}

#[test]
fn closing_hands_out_the_log() {
    let mut store = fresh();
    store.set(s("a"), s("1")).unwrap();
    store.set(s("b"), s("2")).unwrap();
    let seen = store.log().to_vec();
    let log = store.into_log();
    assert_eq!(log, seen);
    let again = KvStore::open(log);
    assert_eq!(again.get(s("a")), Ok(Some(s("1"))));
    assert_eq!(again.get(s("b")), Ok(Some(s("2"))));
}

#[test]
fn error_messages() {
    assert_eq!(KvError::KeyNotFound.message(), "Key not found");
    assert_eq!(KvError::Codec.message(), "Record cannot be encoded");
}
