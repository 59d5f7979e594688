use lazarus::agent::{
    check_download, check_source, child_is_directory, cut_file, estimate_restore_metrics,
    open_download, read_job, record_chunk, reported_bytes, retry_delay, root_is_directory, select_reclaimable,
    select_uploads, verify_result, JobRequest, JobType, RestoreProgress,
};
use lazarus::catalog::index::{CatalogIndex, ObjectType};
use lazarus::chunking::cdc::CdcChunker;
use lazarus::encryption::key_manager::KeyManager;
use lazarus::security::ransomware::DetectionVerdict;
use lazarus::snapshot::dedup::DedupTable;
use lazarus::storage::chunks::seal_chunk;

fn params(list: &[(&str, &str)]) -> Vec<(String, String)> {
    list.iter().map(|p| (p.0.to_string(), p.1.to_string())).collect()
}

#[test]
fn files_are_cut_with_the_hashes_of_their_chunks() {
    assert!(cut_file(b"").is_empty());
    let short = cut_file(b"abc");
    assert_eq!(short.len(), 1);
    assert_eq!(short[0].0, b"abc");
    assert_eq!(
        short[0].1,
        "6437b3ac38465133ffb63b75273a8db548c558465d79db03fd359c6cd5bd9d85"
    );
    let data: Vec<u8> = (0..60_000u32).map(|i| (i * i % 251) as u8).collect();
    let cut = cut_file(&data);
    let plain = CdcChunker::new(&data).collect();
    assert!(cut.len() > 3);
    assert_eq!(cut.len(), plain.len());
    let keys = KeyManager::from_keys([1u8; 32], [2u8; 32]);
    for (i, (chunk, hash)) in cut.iter().enumerate() {
        assert_eq!(chunk, &plain[i]);
        assert_eq!(hash, &seal_chunk(&keys, chunk).unwrap().hash_hex);
    }
}

#[test]
fn jobs_need_their_parameters() {
    let unknown = read_job(None, -7, &params(&[])).unwrap_err();
    assert_eq!(unknown, "Unknown job type: -7");
    let e = read_job(Some(JobType::Backup), 0, &params(&[])).unwrap_err();
    assert_eq!(e, "Missing 'source' parameter");
    let e = read_job(Some(JobType::Restore), 1, &params(&[("destination", "/x")])).unwrap_err();
    assert_eq!(e, "Missing 'snapshot_id' parameter");
    let e = read_job(Some(JobType::Restore), 1, &params(&[("snapshot_id", "s")])).unwrap_err();
    assert_eq!(e, "Missing 'destination' parameter");
    match read_job(Some(JobType::Backup), 0, &params(&[("source", "/home")])).unwrap() {
        JobRequest::Backup { source } => assert_eq!(source, "/home"),
        other => panic!("{:?}", other),
    }
    assert!(matches!(
        read_job(Some(JobType::Verify), 3, &params(&[])).unwrap(),
        JobRequest::Verify
    ));
}

#[test]
fn prune_jobs_have_defaults() {
    match read_job(Some(JobType::Prune), 2, &params(&[])).unwrap() {
        JobRequest::Prune { keep_last, keep_days, dry_run } => {
            assert_eq!((keep_last, keep_days, dry_run), (5, 30, false));
        }
        other => panic!("{:?}", other),
    }
    let p = params(&[("keep_last", "2"), ("keep_days", "soon"), ("dry_run", "1")]);
    match read_job(Some(JobType::Prune), 2, &p).unwrap() {
        JobRequest::Prune { keep_last, keep_days, dry_run } => {
            assert_eq!((keep_last, keep_days, dry_run), (2, 30, true));
        }
        other => panic!("{:?}", other),
    }
}

#[test]
fn transfers_are_tried_three_times() {
    assert_eq!(retry_delay(1), Some(500));
    assert_eq!(retry_delay(2), Some(1000));
    assert_eq!(retry_delay(3), None);
}

#[test]
fn empty_downloads_are_missing_chunks() {
    assert_eq!(check_download("ab", vec![1]).unwrap(), vec![1]);
    assert_eq!(check_download("ab", Vec::new()).unwrap_err(), "Chunk ab not found on server");
    assert_eq!(reported_bytes(7), 7);
    assert_eq!(reported_bytes(u64::MAX), i64::MAX);
}

#[test]
fn suspicious_sources_are_not_read() {
    assert!(check_source(DetectionVerdict::Clean, "/home", true).is_ok());
    assert_eq!(
        check_source(DetectionVerdict::Suspicious, "/home", true).unwrap_err(),
        "Security Alert: Ransomware detected"
    );
    assert_eq!(
        check_source(DetectionVerdict::Clean, "/gone", false).unwrap_err(),
        "Source path does not exist: /gone"
    );
}

#[test]
fn only_missing_chunks_are_uploaded() {
    let hashes = vec!["a".to_string(), "b".to_string(), "a".to_string(), "c".to_string()];
    let replies = vec![
        ("a".to_string(), false),
        ("b".to_string(), true),
        ("c".to_string(), true),
    ];
    assert_eq!(select_uploads(&hashes, &replies), vec![true, false, true, false]);
    assert_eq!(select_uploads(&hashes, &Vec::new()), vec![false; 4]);
}

#[test]
fn uploaded_chunks_enter_the_catalog() {
    let mut catalog = CatalogIndex::new();
    let file = catalog.create_object(ObjectType::File, b"m").unwrap();
    record_chunk(&mut catalog, file, 0, "aa", Some((16, 20))).unwrap();
    record_chunk(&mut catalog, file, 1, "aa", None).unwrap();
    assert_eq!(catalog.get_file_chunks(file), vec!["aa", "aa"]);
    let unknown = record_chunk(&mut catalog, file, 2, "bb", None).unwrap_err();
    assert_eq!(unknown.describe(), "Database error: FOREIGN KEY constraint failed");
}

#[test]
fn fingerprints_are_not_restored_by_the_agent() {
    assert!(!root_is_directory(ObjectType::BlockDevice).unwrap());
    assert!(root_is_directory(ObjectType::Directory).unwrap());
    assert!(root_is_directory(ObjectType::SystemFingerprint)
        .unwrap_err()
        .starts_with("this snapshot's root object is a SystemFingerprint"));
    assert!(!child_is_directory(ObjectType::File).unwrap());
    assert!(child_is_directory(ObjectType::SystemFingerprint)
        .unwrap_err()
        .starts_with("nested SystemFingerprint"));
}

#[test]
fn downloads_open_to_the_chunk() {
    let keys = KeyManager::from_keys([1u8; 32], [2u8; 32]);
    let sealed = seal_chunk(&keys, b"hello").unwrap();
    assert_eq!(open_download(&keys, &sealed.stored_data).unwrap(), b"hello");
    let e = open_download(&keys, &[0u8; 4]).unwrap_err();
    assert_eq!(e.describe(), "Encryption error: Stored chunk too small");
    let e = open_download(&keys, &[0u8; 40]).unwrap_err();
    assert_eq!(e.describe(), "Encryption error: Failed to decrypt data");
}

#[test]
fn metrics_count_files_and_devices() {
    let objects = vec![
        (ObjectType::Directory, 4096),
        (ObjectType::File, 10),
        (ObjectType::BlockDevice, 100),
        (ObjectType::SystemFingerprint, 7),
    ];
    assert_eq!(estimate_restore_metrics(&objects), (2, 110));
}

#[test]
fn progress_goes_by_bytes_then_by_files() {
    let mut p = RestoreProgress::new(3, 200);
    assert_eq!(p.percent_complete(), 0);
    assert_eq!(p.record_file(67), (33, 67, 200));
    assert_eq!(p.record_file(500), (100, 567, 200));
    let mut q = RestoreProgress::new(4, 0);
    assert_eq!(q.record_file(0), (25, 0, 0));
    assert_eq!(q.finalize(), (100, 0, 0));
    assert_eq!(RestoreProgress::new(0, 0).percent_complete(), 100);
}

#[test]
fn verification_names_both_counts() {
    assert!(verify_result(0, 0).is_ok());
    assert_eq!(
        verify_result(2, 13).unwrap_err().describe(),
        "Verification failed: 2 missing, 13 corrupted"
    );
}

#[test]
fn prune_spares_referenced_chunks() {
    let hex = |b: u8| -> String { [b; 32].iter().map(|x| format!("{:02x}", x)).collect() };
    let mut catalog = CatalogIndex::new();
    for b in 1..=3u8 {
        catalog.upsert_chunk(&hex(b), 1, 1);
    }
    let mut dedup = DedupTable::new();
    assert!(select_reclaimable(&catalog, &dedup, 5, 30, 1000).is_empty());
    let file = catalog.create_object(ObjectType::File, b"m").unwrap();
    catalog.add_file_chunk(file, &hex(1), 0).unwrap();
    catalog.create_snapshot("s", 1000, file, b"m").unwrap();
    assert_eq!(select_reclaimable(&catalog, &dedup, 5, 30, 1000), vec![hex(2), hex(3)]);
    dedup.add_reference(&[2u8; 32], "s");
    assert_eq!(select_reclaimable(&catalog, &dedup, 5, 30, 1000), vec![hex(3)]);
}
