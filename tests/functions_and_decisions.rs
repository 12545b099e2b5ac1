use mongo_file_center::{
    check_file_size_threshold, check_stored_file_size_threshold, check_stored_version, dedup_next,
    dedup_start, file_id_from_raw, get_hash_by_buffer, get_mime_by_path, ids_missing_from,
    is_exhausted, join_chunks, retrieval_of, separate_hash, split_into_chunks, DedupAction,
    DedupEvent, FileCenterError, FileId, Retrieval, MAX_FILE_SIZE_THRESHOLD, VERSION,
};

#[test]
fn separate_hash_reads_little_endian_words() {
    let mut digest = [0u8; 32];
    for (i, b) in digest.iter_mut().enumerate() {
        *b = (i + 1) as u8;
    }
    for b in digest[8..16].iter_mut() {
        *b = 0xff;
    }
    let (a, b, _, _) = separate_hash(&digest);
    assert_eq!(a, 578437695752307201);
    assert_eq!(b, -1);
}

#[test]
fn hash_of_buffers() {
    assert_eq!(
        get_hash_by_buffer(b""),
        (1449310910991872227, 2646268962349054874, 5517924826087534119, 6176777564751238564)
    );
    assert_eq!(
        get_hash_by_buffer(b"abc"),
        (-1527000031757436742, 2531777658719584577, -7171393520880516176, -5974868289610903372)
    );
}

#[test]
fn mime_by_path() {
    assert_eq!(get_mime_by_path("/tmp/image-small.png"), "image/png");
    assert_eq!(get_mime_by_path("photo.jpg"), "image/jpeg");
    assert_eq!(get_mime_by_path("/tmp/no_extension"), "application/octet-stream");
    assert_eq!(get_mime_by_path("archive.unknownext"), "application/octet-stream");
}

#[test]
fn chunk_split_and_join() {
    let data: Vec<u8> = (0..10).collect();
    let parts = split_into_chunks(&data, 4);
    assert_eq!(parts, vec![vec![0, 1, 2, 3], vec![4, 5, 6, 7], vec![8, 9]]);
    assert_eq!(join_chunks(&parts), data);
    assert_eq!(split_into_chunks(&data, 5), vec![vec![0, 1, 2, 3, 4], vec![5, 6, 7, 8, 9]]);
    assert_eq!(split_into_chunks(&[], 5), vec![Vec::<u8>::new()]);
    assert_eq!(split_into_chunks(&data, 100), vec![data.clone()]);
}

#[test]
fn file_id_from_raw_needs_twelve_bytes() {
    let id = file_id_from_raw(&[9u8; 12]).unwrap();
    assert_eq!(id, FileId::from_bytes([9u8; 12]));
    assert_eq!(id.bytes(), [9u8; 12]);
    assert!(matches!(file_id_from_raw(&[1u8; 11]), Err(FileCenterError::IDTokenError(_))));
    assert!(matches!(file_id_from_raw(&[1u8; 13]), Err(FileCenterError::IDTokenError(_))));
    assert!(matches!(file_id_from_raw(&[]), Err(FileCenterError::IDTokenError(_))));
}

#[test]
fn file_ids_are_distinct_and_compare_by_bytes() {
    let a = FileId::from_bytes(bson::oid::ObjectId::new().bytes());
    let b = FileId::from_bytes(bson::oid::ObjectId::new().bytes());
    assert_ne!(a, b);
    assert!(a.equals(&a));
    assert!(!a.equals(&b));
}

#[test]
fn settings_checks() {
    assert_eq!(check_file_size_threshold(1).unwrap(), 1);
    assert_eq!(check_file_size_threshold(MAX_FILE_SIZE_THRESHOLD).unwrap(), MAX_FILE_SIZE_THRESHOLD);
    assert!(matches!(check_file_size_threshold(0), Err(FileCenterError::FileSizeThresholdError)));
    assert!(matches!(
        check_file_size_threshold(MAX_FILE_SIZE_THRESHOLD + 1),
        Err(FileCenterError::FileSizeThresholdError)
    ));
    assert_eq!(check_stored_file_size_threshold(262144).unwrap(), 262144);
    assert!(matches!(check_stored_file_size_threshold(-5), Err(FileCenterError::FileSizeThresholdError)));
    assert!(matches!(check_stored_file_size_threshold(0), Err(FileCenterError::FileSizeThresholdError)));
    assert!(matches!(
        check_stored_file_size_threshold(16_770_001),
        Err(FileCenterError::FileSizeThresholdError)
    ));
    assert_eq!(check_stored_version(1).unwrap(), 1);
    assert_eq!(check_stored_version(VERSION).unwrap(), VERSION);
    assert!(matches!(check_stored_version(0), Err(FileCenterError::VersionError)));
    assert!(matches!(
        check_stored_version(3),
        Err(FileCenterError::DatabaseTooNewError { supported_latest: 2, current: 3 })
    ));
}

#[test]
fn retrieval_rule() {
    assert_eq!(retrieval_of(None, 100), Retrieval::Return);
    assert_eq!(retrieval_of(Some(100), 100), Retrieval::ConsumeAndReturn);
    assert_eq!(retrieval_of(Some(100), 101), Retrieval::ConsumeExpired);
    assert!(is_exhausted(0));
    assert!(is_exhausted(-1));
    assert!(!is_exhausted(1));
}

#[test]
fn set_difference_of_ids() {
    let a = FileId::from_bytes([1; 12]);
    let b = FileId::from_bytes([2; 12]);
    let c = FileId::from_bytes([3; 12]);
    let missing = ids_missing_from(&vec![a, b, a, c, b], &vec![b]);
    assert_eq!(missing, vec![a, c]);
    assert!(ids_missing_from(&vec![a], &vec![a, b]).is_empty());
    assert!(ids_missing_from(&vec![], &vec![a]).is_empty());
}

#[test]
fn concurrent_put_race_protocol() {
    // two puts of the same new content: both miss, the first inserts, the
    // second's insert conflicts and is retried as a join
    let first = FileId::from_bytes([1; 12]);
    let second = FileId::from_bytes([2; 12]);
    assert!(matches!(dedup_start(), DedupAction::FindAndIncrement));
    assert!(matches!(dedup_next(first, DedupEvent::NoMatch), DedupAction::Insert));
    assert!(matches!(dedup_next(second, DedupEvent::NoMatch), DedupAction::Insert));
    assert!(matches!(dedup_next(first, DedupEvent::Inserted), DedupAction::Done(id) if id == first));
    assert!(matches!(dedup_next(second, DedupEvent::DuplicateKey), DedupAction::FindAndIncrement));
    assert!(matches!(
        dedup_next(second, DedupEvent::Incremented(first)),
        DedupAction::Done(id) if id == first
    ));
}
