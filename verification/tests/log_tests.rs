use filedrop::error::Error;
use filedrop::hash_storage::HashStorage;
use filedrop::hashing::ContentHash;
use filedrop::log_format::{encode_entry, parse_log};
use filedrop::upload::{process_upload, UploadOutcome};

const EMPTY_HASH_HEX: &str = "af1349b9f5f9a1a6a0404dea36dcc9499bcb25c9adc112b7cc9a93cae41f3262";

#[test]
fn content_hash_matches_known_digest() {
    let hash = ContentHash::of_bytes(&Vec::new());
    assert_eq!(hash.to_hex(), EMPTY_HASH_HEX.as_bytes().to_vec());
    assert_eq!(hash.as_bytes().len(), 32);
}

#[test]
fn hex_round_trip_on_digest() {
    let hash = ContentHash::of_bytes(&b"some bytes".to_vec());
    let hex = hash.to_hex();
    let back = ContentHash::from_hex(&hex).expect("the digest's own hex must decode");
    assert_eq!(back.as_bytes(), hash.as_bytes());
}

#[test]
fn encode_entry_exact_bytes() {
    let hash = ContentHash::of_bytes(&Vec::new());
    let record = encode_entry(&hash, &"abc123".to_string());
    let mut expected = EMPTY_HASH_HEX.as_bytes().to_vec();
    expected.push(b':');
    expected.extend_from_slice(b"abc123");
    expected.push(b'\n');
    assert_eq!(record, expected);
}

fn sample_log(count: usize) -> (Vec<u8>, Vec<(ContentHash, String)>) {
    let mut log = Vec::new();
    let mut entries = Vec::new();
    for i in 0..count {
        let data = vec![i as u8; i + 1];
        let hash = ContentHash::of_bytes(&data);
        let name = format!("name{:02}", i);
        log.extend_from_slice(&encode_entry(&hash, &name));
        entries.push((hash, name));
    }
    (log, entries)
}

#[test]
fn replay_reconstructs_every_record() {
    let (log, entries) = sample_log(3);
    let storage = HashStorage::load_from_file(&log).expect("a well-formed log must replay");
    assert_eq!(storage.len(), 3);
    for (hash, name) in &entries {
        assert_eq!(storage.lookup(hash), Some(name.clone()));
    }
}

#[test]
fn replayed_hash_is_reused_without_store() {
    let (log, entries) = sample_log(2);
    let mut storage = HashStorage::load_from_file(&log).expect("a well-formed log must replay");
    let data = vec![0u8; 1];
    match process_upload(&mut storage, "h", &data, "fresh0".to_string()) {
        UploadOutcome::Reuse(resp) => assert_eq!(resp.file_name, entries[0].1),
        UploadOutcome::Store(_, _) => panic!("a replayed hash must be reused"),
    }
    assert_eq!(storage.len(), 2);
}

#[test]
fn empty_log_replays_empty() {
    let storage = HashStorage::load_from_file(&Vec::new()).expect("an empty log is well formed");
    assert_eq!(storage.len(), 0);
}

#[test]
fn malformed_hash_is_fatal() {
    // 64 characters, but not hex digits throughout.
    let mut log = b"zz".to_vec();
    log.extend_from_slice(&[b'0'; 62]);
    log.extend_from_slice(b":name01\n");
    match HashStorage::load_from_file(&log) {
        Err(Error::IndexCorruption) => {}
        Ok(_) => panic!("a malformed hash must abort the replay"),
        Err(_) => panic!("the failure must be reported as index corruption"),
    }
}

#[test]
fn truncated_record_is_fatal() {
    let (mut log, _) = sample_log(2);
    // Cut the final record short of its terminator.
    log.pop();
    match HashStorage::load_from_file(&log) {
        Err(Error::IndexCorruption) => {}
        Ok(_) => panic!("a truncated record must abort the replay"),
        Err(_) => panic!("the failure must be reported as index corruption"),
    }
}

#[test]
fn missing_separator_is_fatal() {
    let mut log = EMPTY_HASH_HEX.as_bytes().to_vec();
    log.extend_from_slice(b"_name01\n");
    match HashStorage::load_from_file(&log) {
        Err(Error::IndexCorruption) => {}
        _ => panic!("a record without its separator must abort the replay"),
    }
}

#[test]
fn short_log_is_fatal() {
    let log = b"0123abcd\n".to_vec();
    match parse_log(&log) {
        Err(Error::IndexCorruption) => {}
        _ => panic!("a log shorter than one record must abort the replay"),
    }
}

#[test]
fn valid_records_parse_in_order() {
    let (log, entries) = sample_log(4);
    let parsed = parse_log(&log).expect("a well-formed log parses");
    assert_eq!(parsed.len(), 4);
    for (i, entry) in parsed.iter().enumerate() {
        assert_eq!(entry.hash.as_bytes(), entries[i].0.as_bytes());
        assert_eq!(entry.name, entries[i].1);
    }
}

#[test]
fn stored_record_replays_to_same_mapping() {
    let mut storage = HashStorage::new();
    let data = b"replayable content".to_vec();
    let record = match process_upload(&mut storage, "h", &data, "abc999".to_string()) {
        UploadOutcome::Store(_, record) => record,
        UploadOutcome::Reuse(_) => panic!("fresh content must store"),
    };
    let replayed = HashStorage::load_from_file(&record).expect("a written record must replay");
    let hash = ContentHash::of_bytes(&data);
    assert_eq!(replayed.lookup(&hash), Some("abc999".to_string()));
    assert_eq!(replayed.len(), 1);
}
