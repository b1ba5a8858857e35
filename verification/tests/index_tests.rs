use filedrop::hash_storage::{HashStorage, InsertOutcome};
use filedrop::hashing::ContentHash;
use filedrop::upload::{process_upload, UploadOutcome};

#[test]
fn dedup_idempotent_sequential_uploads() {
    let mut storage = HashStorage::new();
    let data: Vec<u8> = b"identical payload".to_vec();

    let first = process_upload(&mut storage, "example.org", &data, "aaaaaa".to_string());
    let first_name = match first {
        UploadOutcome::Store(resp, _) => {
            assert_eq!(resp.file_name, "aaaaaa");
            resp.file_name
        }
        UploadOutcome::Reuse(_) => panic!("first upload must store"),
    };

    let second = process_upload(&mut storage, "example.org", &data, "bbbbbb".to_string());
    match second {
        UploadOutcome::Reuse(resp) => {
            assert_eq!(resp.file_name, first_name);
            assert_eq!(resp.full_url, "example.org/aaaaaa");
        }
        UploadOutcome::Store(_, _) => panic!("second upload of identical bytes must reuse"),
    }
    assert_eq!(storage.len(), 1);
}

#[test]
fn race_serialization_single_winner() {
    // N uploads of identical bytes, serialized as the index's atomic
    // entry operation serializes them: one store, the rest reuse the
    // winner's name.
    let mut storage = HashStorage::new();
    let data: Vec<u8> = b"raced bytes".to_vec();
    let candidates = ["cand01", "cand02", "cand03", "cand04", "cand05"];
    let mut stores = 0;
    let mut names = Vec::new();
    for candidate in candidates {
        match process_upload(&mut storage, "h", &data, candidate.to_string()) {
            UploadOutcome::Store(resp, _) => {
                stores += 1;
                names.push(resp.file_name);
            }
            UploadOutcome::Reuse(resp) => names.push(resp.file_name),
        }
    }
    assert_eq!(stores, 1);
    assert!(names.iter().all(|n| n == "cand01"));
    assert_eq!(storage.len(), 1);
}

#[test]
fn distinct_contents_distinct_names() {
    let mut storage = HashStorage::new();
    let one: Vec<u8> = b"first content".to_vec();
    let two: Vec<u8> = b"second content".to_vec();

    let n1 = match process_upload(&mut storage, "h", &one, "name01".to_string()) {
        UploadOutcome::Store(resp, _) => resp.file_name,
        UploadOutcome::Reuse(_) => panic!("fresh content must store"),
    };
    let n2 = match process_upload(&mut storage, "h", &two, "name02".to_string()) {
        UploadOutcome::Store(resp, _) => resp.file_name,
        UploadOutcome::Reuse(_) => panic!("fresh content must store"),
    };
    assert_ne!(n1, n2);
    assert_eq!(storage.len(), 2);

    let h1 = ContentHash::of_bytes(&one);
    let h2 = ContentHash::of_bytes(&two);
    assert_eq!(storage.lookup(&h1), Some(n1));
    assert_eq!(storage.lookup(&h2), Some(n2));
}

#[test]
fn lookup_absent_hash_is_none() {
    let storage = HashStorage::new();
    let hash = ContentHash::of_bytes(&b"never uploaded".to_vec());
    assert_eq!(storage.lookup(&hash), None);
    assert_eq!(storage.len(), 0);
}

#[test]
fn insert_if_absent_reports_existing_name() {
    let mut storage = HashStorage::new();
    let hash = ContentHash::of_bytes(&b"payload".to_vec());
    match storage.insert_if_absent(&hash, "zzzzz1".to_string()) {
        InsertOutcome::Inserted(n) => assert_eq!(n, "zzzzz1"),
        InsertOutcome::AlreadyExists(_) => panic!("empty index cannot hold the hash"),
    }
    let outcome = storage.insert_if_absent(&hash, "zzzzz2".to_string());
    assert_eq!(outcome.name(), "zzzzz1");
    match outcome {
        InsertOutcome::AlreadyExists(n) => assert_eq!(n, "zzzzz1"),
        InsertOutcome::Inserted(_) => panic!("second insert must observe the first"),
    }
}
