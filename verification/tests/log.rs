use kvs::codec::encode;
use kvs::command::same_command;
use kvs::frame::{is_one_frame, read_frame_len};
use kvs::record::{encode_record, read_record};
use kvs::state::is_compaction_due;
use kvs::{Command, KvStore};

fn s(text: &str) -> String {
    text.to_string()
}

fn put(key: &str, value: &str) -> Vec<u8> {
    encode_record(&Command::Put { key: s(key), value: s(value) }).unwrap()
}

fn rm(key: &str) -> Vec<u8> {
    encode_record(&Command::Rm { key: s(key) }).unwrap()
}

#[test]
fn frame_length_is_little_endian() {
    assert_eq!(read_frame_len(&[5, 0, 0, 0, 0], 0), Some(5));
    let mut bytes = vec![0u8; 0x0102];
    bytes[0] = 0x02;
    bytes[1] = 0x01;
    assert_eq!(read_frame_len(&bytes, 0), Some(0x0102));
    let mut long = vec![0u8; 0x01_0000];
    long[2] = 0x01;
    assert_eq!(read_frame_len(&long, 0), Some(0x01_0000));
}

#[test]
fn frame_length_below_five_is_no_frame() {
    assert_eq!(read_frame_len(&[4, 0, 0, 0, 0, 0, 0, 0], 0), None);
    assert_eq!(read_frame_len(&[0, 0, 0, 0, 0, 0, 0, 0], 0), None);
}

#[test]
fn frame_longer_than_the_log_is_no_frame() {
    assert_eq!(read_frame_len(&[6, 0, 0, 0, 0], 0), None);
    assert_eq!(read_frame_len(&[6, 0, 0, 0, 0, 0], 0), Some(6));
    assert_eq!(read_frame_len(&[9, 9, 6, 0, 0, 0, 0, 0], 2), Some(6));
    assert_eq!(read_frame_len(&[9, 9, 6, 0, 0, 0, 0, 0], 3), None);
}

#[test]
fn negative_declared_length_is_no_frame() {
    assert_eq!(read_frame_len(&[0xff, 0xff, 0xff, 0xff, 0], 0), None);
    assert_eq!(read_frame_len(&[0, 0, 0, 0x80, 0], 0), None);
}

#[test]
fn fewer_than_four_bytes_are_no_frame() {
    assert_eq!(read_frame_len(&[], 0), None);
    assert_eq!(read_frame_len(&[5, 0, 0], 0), None);
    assert_eq!(read_frame_len(&[5, 0, 0, 0, 0], 2), None);
    assert_eq!(read_frame_len(&[5, 0, 0, 0, 0], 5), None);
    assert_eq!(read_frame_len(&[5, 0, 0, 0, 0], 6), None);
    assert_eq!(read_frame_len(&[5, 0, 0, 0, 0], usize::MAX), None);
}

#[test]
fn one_frame_is_the_whole_slice() {
    assert!(is_one_frame(&[5, 0, 0, 0, 0]));
    assert!(!is_one_frame(&[5, 0, 0, 0, 0, 0]));
    assert!(!is_one_frame(&[6, 0, 0, 0, 0]));
    assert!(!is_one_frame(&[]));
    assert!(is_one_frame(&put("a", "1")));
}

#[test]
fn compaction_trigger_by_numbers() {
    assert!(!is_compaction_due(0, 0));
    assert!(!is_compaction_due(2, 0));
    assert!(is_compaction_due(3, 0));
    assert!(!is_compaction_due(5, 1));
    assert!(is_compaction_due(6, 1));
    assert!(!is_compaction_due(8, 2));
    assert!(is_compaction_due(9, 2));
    assert!(!is_compaction_due(299, 99));
    assert!(is_compaction_due(300, 99));
    assert!(!is_compaction_due(usize::MAX, usize::MAX));
    assert!(!is_compaction_due(usize::MAX, usize::MAX - 1));
    assert!(is_compaction_due(usize::MAX, 0));
}

#[test]
fn an_empty_document_is_a_frame_and_no_record() {
    assert_eq!(read_frame_len(&[5, 0, 0, 0, 0], 0), Some(5));
    assert_eq!(read_record(&[5, 0, 0, 0, 0], 0), None);
}

#[test]
fn record_bytes_are_the_encoding() {
    let cmd = Command::Put { key: s("key"), value: s("value") };
    assert_eq!(encode_record(&cmd), encode(&cmd));
    let cmd = Command::Rm { key: s("key") };
    assert_eq!(encode_record(&cmd), encode(&cmd));
}

#[test]
fn records_are_read_one_after_another() {
    let mut log = put("a", "1");
    let first = log.len();
    log.extend(rm("a"));
    let second = log.len();
    log.extend(put("b", "22"));
    assert_eq!(read_record(&log, 0), Some((Command::Put { key: s("a"), value: s("1") }, first)));
    assert_eq!(read_record(&log, first), Some((Command::Rm { key: s("a") }, second - first)));
    assert_eq!(
        read_record(&log, second),
        Some((Command::Put { key: s("b"), value: s("22") }, log.len() - second))
    );
    assert_eq!(read_record(&log, log.len()), None);
    assert_eq!(read_record(&log, 1), None);
}

#[test]
fn same_command_compares_kind_and_strings() {
    let a = Command::Put { key: s("k"), value: s("v") };
    assert!(same_command(&a, &Command::Put { key: s("k"), value: s("v") }));
    assert!(!same_command(&a, &Command::Put { key: s("k"), value: s("w") }));
    assert!(!same_command(&a, &Command::Put { key: s("j"), value: s("v") }));
    assert!(!same_command(&a, &Command::Rm { key: s("k") }));
    assert!(same_command(&Command::Rm { key: s("k") }, &Command::Rm { key: s("k") }));
    assert!(!same_command(&Command::Rm { key: s("k") }, &Command::Rm { key: s("") }));
}

#[test]
fn open_replays_sets_and_removes() {
    let mut log = put("a", "1");
    log.extend(put("b", "2"));
    log.extend(put("a", "3"));
    log.extend(rm("b"));
    log.extend(rm("never"));
    let store = KvStore::open(log.clone());
    assert_eq!(store.get(s("a")), Ok(Some(s("3"))));
    assert_eq!(store.get(s("b")), Ok(None));
    assert_eq!(store.get(s("never")), Ok(None));
    assert_eq!(store.total(), 5);
    assert_eq!(store.actual(), 1);
    assert_eq!(store.log(), &log[..]);
}

#[test]
fn open_of_an_empty_log_is_an_empty_store() {
    let store = KvStore::open(Vec::new());
    assert_eq!((store.total(), store.actual()), (0, 0));
    assert!(store.log().is_empty());
}

#[test]
fn a_torn_tail_replays_like_the_log_without_it() {
    let mut whole = put("a", "1");
    whole.extend(put("b", "2"));
    whole.extend(rm("a"));
    let torn_record = put("c", "3");
    let clean = KvStore::open(whole.clone());
    for keep in 0..torn_record.len() {
        let mut log = whole.clone();
        log.extend(&torn_record[..keep]);
        let store = KvStore::open(log);
        assert_eq!(store.total(), clean.total());
        assert_eq!(store.actual(), clean.actual());
        for key in ["a", "b", "c"] {
            assert_eq!(store.get(s(key)), clean.get(s(key)));
        }
        assert_eq!(store.get(s("b")), Ok(Some(s("2"))));
        assert_eq!(store.get(s("c")), Ok(None));
    }
}

#[test]
fn replay_stops_at_the_first_undecodable_record() {
    let mut log = put("a", "1");
    log.extend([5, 0, 0, 0, 0]);
    log.extend(put("b", "2"));
    let store = KvStore::open(log);
    assert_eq!(store.get(s("a")), Ok(Some(s("1"))));
    assert_eq!(store.get(s("b")), Ok(None));
    assert_eq!(store.total(), 1);
}

#[test]
fn a_log_of_foreign_bytes_opens_empty() {
    let store = KvStore::open(vec![0xde, 0xad, 0xbe, 0xef, 0x00, 0x01]);
    assert_eq!((store.total(), store.actual()), (0, 0));
    assert_eq!(store.get(s("a")), Ok(None));
    assert_eq!(store.log().len(), 6);
}

#[test]
fn writes_behind_a_torn_tail_are_found_until_the_store_is_closed() {
    let mut log = put("a", "1");
    let record = put("b", "2");
    log.extend(&record[..record.len() - 1]);
    let mut store = KvStore::open(log);
    store.write_set(s("c"), s("3")).unwrap();
    assert_eq!(store.get(s("c")), Ok(Some(s("3"))));
    let again = KvStore::open(store.log().to_vec());
    assert_eq!(again.get(s("a")), Ok(Some(s("1"))));
    assert_eq!(again.get(s("c")), Ok(None));
}

#[test]
fn compaction_heals_a_torn_tail() {
    let mut log = put("a", "1");
    let record = put("b", "2");
    log.extend(&record[..3]);
    let mut store = KvStore::open(log);
    store.write_set(s("c"), s("3")).unwrap();
    store.compaction().unwrap();
    let again = KvStore::open(store.log().to_vec());
    assert_eq!(again.get(s("a")), Ok(Some(s("1"))));
    assert_eq!(again.get(s("c")), Ok(Some(s("3"))));
    assert_eq!((again.total(), again.actual()), (2, 2));
}

fn noise(seed: &mut u64) -> u8 {
    *seed = seed.wrapping_mul(6364136223846793005).wrapping_add(1442695040888963407);
    (*seed >> 33) as u8
}

#[test]
fn any_bytes_can_be_opened() {
    let mut seed = 7;
    for len in 0..200 {
        let bytes: Vec<u8> = (0..len).map(|_| noise(&mut seed)).collect();
        let store = KvStore::open(bytes.clone());
        assert_eq!(store.log(), &bytes[..]);
        assert!(store.actual() <= store.total());
    }
}

#[test]
fn frames_of_noise_are_no_records() {
    let mut seed = 11;
    for len in 5usize..120 {
        let mut bytes: Vec<u8> = (0..len).map(|_| noise(&mut seed)).collect();
        bytes[..4].copy_from_slice(&(len as u32).to_le_bytes());
        assert_eq!(read_frame_len(&bytes, 0), Some(len));
        let last = bytes.len() - 1;
        bytes[last] = 0;
        let store = KvStore::open(bytes);
        assert_eq!((store.total(), store.actual()), (0, 0));
    }
}

#[test]
fn a_record_with_one_byte_changed_is_read_or_refused() {
    let record = put("key", "value");
    for at in 0..record.len() {
        for bit in 0..8 {
            let mut changed = record.clone();
            changed[at] ^= 1 << bit;
            let mut log = put("a", "1");
            log.extend(&changed);
            let store = KvStore::open(log);
            assert_eq!(store.get(s("a")), Ok(Some(s("1"))));
            assert!(store.total() == 1 || store.total() == 2);
            if let Some((cmd, n)) = read_record(&changed, 0) {
                assert_eq!(n, changed.len());
                assert_eq!(encode(&cmd).map(|bytes| bytes.len()), Some(n));
            }
        }
    }
}
