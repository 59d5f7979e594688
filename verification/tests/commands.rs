use lazarus::catalog::history::{History, Operation};
use lazarus::catalog::index::{
    BlockExtent, BlockExtentChunk, BlockLayout, CatalogIndex, ObjectType,
};
use lazarus::catalog::metadata::MetadataStore;
use lazarus::commands::config::{config_action, ClientConfig, ConfigAction, ConfigArgs};
use lazarus::commands::journal::{log_end, log_end_at, CommandEnd};
use lazarus::commands::list::{date_text, snapshot_label, snapshot_row};
use lazarus::commands::prune::{
    forget_chunk, plan_prune, preview_references, release_references, select_snapshots_to_keep,
};
use lazarus::commands::prune_run::PruneRun;
use lazarus::commands::recover::{ensure_dependency, iso_command, iso_result};
use lazarus::commands::restore::{
    block_restore_target, check_block_target, check_manifest_version, check_restored_chunk,
    check_target_size, ensure_block_manifest_v2, entry_is_directory, file_or_device_size, file_time,
    open_entry, restore_kind, restore_root, RestoreArgs, RestoreKind,
};
use lazarus::commands::retention::{apply_retention, policy_lines, RetentionArgs, RetentionModeArg};
use lazarus::commands::snapshot_utils::{
    calculate_snapshot_size, decrypt_snapshot_metadata, encrypt_snapshot_metadata,
};
use lazarus::commands::verify::{
    block_objects, check_chunk, lengths_add_up, verify_block_manifest, ChunkCheck, VerifyTally,
};
use lazarus::config::RetentionPolicy;
use lazarus::encryption::key_manager::KeyManager;
use lazarus::error::LazarusError;
use lazarus::security::ransomware::{
    byte_counts, canary_intact, canary_path, canary_signature, check_verdict, is_canary,
    manifest_name, quarantine_name, sample_len, verdict, DetectionVerdict, FileCollector,
};
use lazarus::snapshot::block_image::{
    block_verify_offset, block_write_offset, cut_extent, validate_block_layout, Piece,
};
use lazarus::snapshot::dedup::DedupTable;
use lazarus::storage::chunks::{seal_chunk, seal_text};

fn keys() -> KeyManager {
    KeyManager::from_keys([1u8; 32], [2u8; 32])
}

fn hex(b: u8) -> String {
    [b; 32].iter().map(|x| format!("{:02x}", x)).collect()
}

// --- Restore ---------------------------------------------------------------------------------

fn restore_args() -> RestoreArgs {
    RestoreArgs {
        snapshot: Some("s".to_string()),
        destination: None,
        device: None,
        allow_overwrite: false,
        verify: false,
        repository: "/repo".to_string(),
        password: "pw".to_string(),
    }
}

#[test]
fn restores_start_at_the_root_of_the_snapshot() {
    let mut catalog = CatalogIndex::new();
    let root = catalog.create_object(ObjectType::Directory, b"meta").unwrap();
    catalog.create_snapshot("s", 7, root, b"snapshot").unwrap();
    let found = restore_root(&catalog, "s").ok().unwrap();
    assert_eq!(found.object_id, root);
    assert_eq!(found.object_type, ObjectType::Directory);
    assert_eq!(found.object_metadata, b"meta");
    assert_eq!(found.snapshot_metadata, b"snapshot");
    assert!(restore_root(&catalog, "other").is_err());
}

#[test]
fn restores_go_by_the_kind_of_the_root() {
    assert_eq!(restore_kind(ObjectType::File, false).unwrap(), RestoreKind::File);
    assert_eq!(restore_kind(ObjectType::Directory, false).unwrap(), RestoreKind::Directory);
    assert_eq!(restore_kind(ObjectType::BlockDevice, true).unwrap(), RestoreKind::Block);
    assert!(restore_kind(ObjectType::SystemFingerprint, false).is_err());
    assert!(entry_is_directory(ObjectType::Directory).unwrap());
    assert!(!entry_is_directory(ObjectType::File).unwrap());
    assert!(entry_is_directory(ObjectType::SystemFingerprint).is_err());
}

#[test]
fn block_restores_need_a_target() {
    let mut args = restore_args();
    assert!(block_restore_target(&args).is_err());
    args.destination = Some("/img".to_string());
    assert_eq!(block_restore_target(&args).unwrap(), "/img");
    args.destination = None;
    args.device = Some("/dev/sdb".to_string());
    assert_eq!(block_restore_target(&args).unwrap(), "/dev/sdb");
}

#[test]
fn targets_are_not_overwritten_unasked() {
    assert!(check_block_target("/img", false, false, false).is_ok());
    assert!(check_block_target("/img", false, true, false).is_err());
    assert!(check_block_target("/img", false, true, true).is_ok());
    assert!(check_block_target("/dev/sdb", true, true, false).is_ok());
    assert!(check_block_target("/dev/sdb", true, false, false).is_err());
    assert!(check_target_size("/dev/sdb", 100, 100).is_ok());
    assert!(check_target_size("/dev/sdb", 99, 100).is_err());
    assert_eq!(file_or_device_size("/img", true, 5).unwrap(), 5);
    assert_eq!(file_time(u64::MAX), i64::MAX);
    assert_eq!(file_time(12), 12);
}

#[test]
fn old_block_manifests_are_refused() {
    assert!(check_manifest_version(Some(Some(2))).is_ok());
    assert!(check_manifest_version(Some(Some(1))).is_err());
    assert!(check_manifest_version(Some(None)).is_err());
    assert_eq!(
        check_manifest_version(None).unwrap_err().describe(),
        "Storage backend error: block snapshot metadata is missing or unreadable"
    );
    let with = |version: &str| {
        let json = format!("{{\"capture\":{{\"extras\":{{{}}}}}}}", version);
        let blob = encrypt_snapshot_metadata(&keys(), &json).unwrap();
        ensure_block_manifest_v2(&keys(), &blob)
    };
    assert!(with("\"manifest_version\":2").is_ok());
    assert!(with("\"manifest_version\":1").is_err());
    assert!(with("").is_err());
    assert!(ensure_block_manifest_v2(&keys(), b"no json").is_err());
}

#[test]
fn entries_are_decrypted() {
    let mut catalog = CatalogIndex::new();
    let file = catalog.create_object(ObjectType::File, b"meta").unwrap();
    let name = seal_text(&keys(), "a.txt").unwrap();
    let entry = open_entry(&keys(), &catalog, file, &name).ok().unwrap().unwrap();
    assert_eq!(entry.name, "a.txt");
    assert_eq!(entry.object_type, ObjectType::File);
    assert!(open_entry(&keys(), &catalog, file, b"short").ok().unwrap().is_none());
    assert!(open_entry(&keys(), &catalog, 99, &name).is_err());
}

#[test]
fn restored_chunks_are_compared() {
    assert!(check_restored_chunk(true, "h", b"abc", b"abc").is_ok());
    assert!(matches!(
        check_restored_chunk(true, "h", b"abd", b"abc"),
        Err(LazarusError::VerificationFailed(_))
    ));
}

// --- Block images ----------------------------------------------------------------------------

fn piece(chunk_idx: u64, rel_offset: u64, length: u64) -> BlockExtentChunk {
    BlockExtentChunk { chunk_idx, hash: "h".to_string(), rel_offset, length }
}

fn layout(chunks: Vec<BlockExtentChunk>) -> BlockLayout {
    BlockLayout {
        object_id: 1,
        extents: vec![BlockExtent { extent_idx: 0, offset: 4096, length: 300, chunks }],
    }
}

#[test]
fn layouts_must_be_filled_without_gaps() {
    let good = layout(vec![piece(0, 0, 200), piece(1, 200, 100)]);
    assert!(validate_block_layout(&good, 8192).is_ok());
    assert!(lengths_add_up(&good));
    assert!(verify_block_manifest("s", 1, &good, 8192).is_empty());
    assert!(validate_block_layout(&good, 4100).is_err());
    let gap = layout(vec![piece(0, 0, 200), piece(1, 210, 90)]);
    assert!(validate_block_layout(&gap, 8192).is_err());
    let short = layout(vec![piece(0, 0, 200)]);
    assert!(validate_block_layout(&short, 8192).is_err());
    assert!(!verify_block_manifest("s", 1, &short, 8192).is_empty());
}

#[test]
fn chunks_are_written_at_their_offset() {
    assert_eq!(block_write_offset(4096, "h", 200, 100, 100).unwrap(), 4296);
    assert!(block_write_offset(4096, "h", 200, 100, 99).is_err());
    assert!(block_write_offset(u64::MAX, "h", 1, 100, 100).is_err());
    assert_eq!(block_verify_offset(4096, 200).unwrap(), 4296);
    assert!(block_verify_offset(u64::MAX, 1).is_err());
}

#[test]
fn extents_are_cut_into_pieces() {
    assert_eq!(
        cut_extent(10, 4),
        vec![
            Piece { chunk_idx: 0, rel_offset: 0, length: 4 },
            Piece { chunk_idx: 1, rel_offset: 4, length: 4 },
            Piece { chunk_idx: 2, rel_offset: 8, length: 2 },
        ]
    );
    assert!(cut_extent(0, 4).is_empty());
}

// --- Verify ----------------------------------------------------------------------------------

#[test]
fn checks_tell_what_is_wrong() {
    let sealed = seal_chunk(&keys(), b"hello").unwrap();
    let hash = sealed.hash_hex.as_str();
    let mut tally = VerifyTally::new();
    let good = check_chunk(&keys(), hash, Some(&sealed.stored_data));
    assert!(matches!(good, ChunkCheck::Verified));
    assert!(good.message(hash).is_none());
    let missing = check_chunk(&keys(), hash, None);
    assert_eq!(missing.message("ab").unwrap(), "Missing chunk: ab");
    let small = check_chunk(&keys(), hash, Some(&[0; 3]));
    assert_eq!(small.message("ab").unwrap(), "Corrupted chunk (too small): ab");
    let broken = check_chunk(&keys(), hash, Some(&[0; 60]));
    assert!(matches!(broken, ChunkCheck::NotDecrypted(_)));
    let other = check_chunk(&keys(), "00", Some(&sealed.stored_data));
    assert!(matches!(&other, ChunkCheck::WrongHash(h) if h == hash));
    for check in [&good, &missing, &small, &broken, &other] {
        tally.count(check);
    }
    assert_eq!((tally.verified, tally.missing, tally.corrupted), (1, 1, 3));
    assert!(tally.finish().is_err());
    let mut clean = VerifyTally::new();
    clean.count(&good);
    assert!(clean.finish().is_ok());
}

#[test]
fn block_devices_are_found_below_a_root() {
    let mut catalog = CatalogIndex::new();
    let root = catalog.create_object(ObjectType::Directory, b"").unwrap();
    let device = catalog.create_object(ObjectType::BlockDevice, b"").unwrap();
    let file = catalog.create_object(ObjectType::File, b"").unwrap();
    catalog.add_tree_entry(root, device, b"d").unwrap();
    catalog.add_tree_entry(root, file, b"f").unwrap();
    assert_eq!(block_objects(&catalog, root), vec![device]);
}

// --- Prune -----------------------------------------------------------------------------------

#[test]
fn retention_keeps_the_newest_and_the_recent() {
    let day = 86_400;
    let now = 100 * day;
    let list = vec![
        ("a".to_string(), 99 * day),
        ("b".to_string(), 98 * day),
        ("c".to_string(), 60 * day),
        ("d".to_string(), 10 * day),
    ];
    assert_eq!(select_snapshots_to_keep(&list, 1, 0, now), vec!["a"]);
    assert_eq!(select_snapshots_to_keep(&list, 1, 45, now), vec!["a", "b", "c"]);
    assert_eq!(select_snapshots_to_keep(&list, 9, 0, now).len(), 4);
    assert!(select_snapshots_to_keep(&list, 0, 0, now).is_empty());
}

#[test]
fn prunes_spare_what_kept_snapshots_need() {
    let mut catalog = CatalogIndex::new();
    for b in 1..=3u8 {
        catalog.upsert_chunk(&hex(b), 1, 1);
    }
    let old = catalog.create_object(ObjectType::File, b"").unwrap();
    catalog.add_file_chunk(old, &hex(1), 0).unwrap();
    catalog.add_file_chunk(old, &hex(2), 1).unwrap();
    catalog.create_snapshot("old", 100, old, b"").unwrap();
    let new = catalog.create_object(ObjectType::File, b"").unwrap();
    catalog.add_file_chunk(new, &hex(2), 0).unwrap();
    catalog.create_snapshot("new", 200, new, b"").unwrap();
    let plan = plan_prune(&catalog, 1, 0, 300);
    assert_eq!(plan.keep, vec!["new"]);
    assert_eq!(plan.dropped, vec!["old"]);
    assert_eq!(plan.reclaimable, vec![hex(1), hex(3)]);
    let mut dedup = DedupTable::new();
    dedup.add_references_batch("old", &[[1u8; 32], [9u8; 32]]);
    dedup.add_references_batch("new", &[[2u8; 32]]);
    assert_eq!(preview_references(&dedup, &plan), vec![hex(9)]);
    assert_eq!(release_references(&mut dedup, &plan), vec![hex(9)]);
    forget_chunk(&mut catalog, &hex(1));
    assert!(!catalog.chunk_exists(&hex(1)));
    assert_eq!(catalog.get_file_chunks(old), vec![hex(2)]);
}

#[test]
fn prunes_free_no_chunk_of_a_kept_snapshot() {
    let mut catalog = CatalogIndex::new();
    catalog.upsert_chunk(&hex(1), 1, 1);
    let root = catalog.create_object(ObjectType::File, b"").unwrap();
    catalog.add_file_chunk(root, &hex(1), 0).unwrap();
    catalog.create_snapshot("old", 100, root, b"").unwrap();
    catalog.create_snapshot("new", 200, root, b"").unwrap();
    let mut dedup = DedupTable::new();
    dedup.add_references_batch("old", &[[1u8; 32], [8u8; 32], [9u8; 32]]);
    dedup.add_references_batch("new", &[[1u8; 32], [8u8; 32]]);
    let plan = plan_prune(&catalog, 1, 0, 300);
    assert!(plan.reclaimable.is_empty());
    assert_eq!(release_references(&mut dedup, &plan), vec![hex(9)]);
    assert_eq!(dedup.refcount(&[8u8; 32]), 1);
}

#[test]
fn prunes_forget_only_what_storage_deleted() {
    let mut catalog = CatalogIndex::new();
    for b in 1..=3u8 {
        catalog.upsert_chunk(&hex(b), 1, 1);
    }
    let root = catalog.create_object(ObjectType::File, b"").unwrap();
    catalog.add_file_chunk(root, &hex(3), 0).unwrap();
    catalog.create_snapshot("old", 100, root, b"").unwrap();
    catalog.create_snapshot("new", 200, root, b"").unwrap();
    let mut summaries = MetadataStore::open("/repo", [4u8; 32]);
    summaries.put("old", b"{}").unwrap();
    summaries.put("new", b"{}").unwrap();
    let plan = plan_prune(&catalog, 1, 0, 300);
    let mut run = PruneRun::new(plan, vec![hex(9)]);
    let mut asked: Vec<(String, bool)> = Vec::new();
    while let Some(target) = run.request() {
        assert_eq!(target.key, format!("{}/{}", &target.hash[..2], target.hash));
        let deleted = target.hash != hex(1);
        asked.push((target.hash, target.in_catalog));
        run.answer(&mut catalog, deleted);
    }
    run.finish(&mut catalog, &mut summaries);
    assert_eq!(asked, vec![(hex(1), true), (hex(2), true), (hex(9), false)]);
    assert_eq!(run.removed, 2);
    assert!(catalog.chunk_exists(&hex(1)));
    assert!(!catalog.chunk_exists(&hex(2)));
    assert_eq!(catalog.get_file_chunks(root), vec![hex(3)]);
    assert!(catalog.get_snapshot("old").is_none());
    assert!(catalog.get_snapshot("new").is_some());
    assert_eq!(summaries.ids(), vec!["new"]);
}

#[test]
fn finished_prunes_take_objects_along() {
    let mut catalog = CatalogIndex::new();
    catalog.upsert_chunk(&hex(1), 1, 1);
    catalog.upsert_chunk(&hex(2), 1, 1);
    let old = catalog.create_object(ObjectType::File, b"a").unwrap();
    catalog.add_file_chunk(old, &hex(1), 0).unwrap();
    catalog.create_snapshot("old", 100, old, b"").unwrap();
    let new = catalog.create_object(ObjectType::File, b"b").unwrap();
    catalog.add_file_chunk(new, &hex(2), 0).unwrap();
    catalog.create_snapshot("new", 200, new, b"").unwrap();
    let mut summaries = MetadataStore::open("/repo", [4u8; 32]);
    let mut run = PruneRun::new(plan_prune(&catalog, 1, 0, 300), Vec::new());
    while let Some(_) = run.request() {
        run.answer(&mut catalog, true);
    }
    run.finish(&mut catalog, &mut summaries);
    assert!(catalog.get_object(old).is_none());
    assert!(catalog.get_file_chunks(old).is_empty());
    assert!(catalog.get_object(new).is_some());
    assert_eq!(catalog.get_file_chunks(new), vec![hex(2)]);
}

// --- The rest --------------------------------------------------------------------------------

#[test]
fn snapshot_metadata_is_encrypted() {
    let blob = encrypt_snapshot_metadata(&keys(), "{\"source\":\"/home\"}").unwrap();
    assert_eq!(
        decrypt_snapshot_metadata(&keys(), &blob).unwrap(),
        b"{\"source\":\"/home\"}"
    );
    assert_eq!(decrypt_snapshot_metadata(&keys(), b"{}").unwrap(), b"{}");
    assert!(decrypt_snapshot_metadata(&keys(), b"").is_none());
    assert!(decrypt_snapshot_metadata(&keys(), &[0; 40]).is_none());
    let objects = vec![(ObjectType::File, 5), (ObjectType::Directory, 9), (ObjectType::BlockDevice, 2)];
    assert_eq!(calculate_snapshot_size(&objects), 7);
}

#[test]
fn snapshots_are_shown_with_their_date() {
    assert_eq!(date_text(1234567890), "2009-02-13 23:31:30");
    assert_eq!(date_text(u64::MAX / 4), "Unknown");
    assert_eq!(
        snapshot_row("s", 0, 1536, None),
        vec!["s", "1970-01-01 00:00:00", "1.50 KiB", "Unknown"]
    );
    assert_eq!(snapshot_label("s", 0, Some("db-1")), "s  |  1970-01-01 00:00:00  |  db-1");
}

#[test]
fn retention_changes_only_what_is_asked() {
    let mut policy = RetentionPolicy::default();
    let mut args = RetentionArgs {
        repository: "/repo".to_string(),
        enable: false,
        disable: false,
        mode: None,
        min_retention_days: None,
        legal_hold: None,
        local_immutability: None,
    };
    let before = policy;
    assert!(!apply_retention(&mut policy, &args).unwrap());
    assert_eq!(policy, before);
    args.enable = true;
    args.mode = Some(RetentionModeArg::Compliance);
    args.min_retention_days = Some(90);
    assert!(apply_retention(&mut policy, &args).unwrap());
    assert!(policy.enabled);
    assert_eq!(policy.min_retention_days, 90);
    assert!(policy_lines(&policy).iter().any(|l| l.contains("90")));
    args.disable = true;
    assert!(apply_retention(&mut policy, &args).is_err());
}

#[test]
fn settings_are_kept_once_per_key() {
    let mut config = ClientConfig::new();
    config.set("editor", "vi");
    config.set("editor", "ed");
    assert_eq!(config.get("editor"), Some("ed"));
    assert_eq!(config.list().len(), 1);
    assert!(config.get("pager").is_none());
    let args = ConfigArgs { key: None, value: None, list: false };
    assert_eq!(config_action(&args), ConfigAction::KeyRequired);
    let args = ConfigArgs { key: Some("k".to_string()), value: None, list: false };
    assert_eq!(config_action(&args), ConfigAction::Show);
    let args = ConfigArgs { key: Some("k".to_string()), value: Some("v".to_string()), list: false };
    assert_eq!(config_action(&args), ConfigAction::Change);
    let args = ConfigArgs { key: None, value: None, list: true };
    assert_eq!(config_action(&args), ConfigAction::List);
}

#[test]
fn recovery_media_need_their_tools() {
    assert!(ensure_dependency("xorriso", true).is_ok());
    assert!(ensure_dependency("xorriso", false).is_err());
    assert!(iso_command("build.sh", false, "out.iso", None).is_err());
    assert!(iso_command("build.sh", true, "out.iso", Some("/bin/lazarus")).is_ok());
    assert!(iso_result("build.sh", Ok(true), "exit status: 0").is_ok());
    assert!(iso_result("build.sh", Ok(false), "exit status: 1").is_err());
    assert!(iso_result("build.sh", Err("gone".to_string()), "").is_err());
}

#[test]
fn canaries_show_tampering() {
    let signature = canary_signature();
    assert!(canary_intact(&signature));
    assert!(!canary_intact(b"tampered"));
    assert!(is_canary(".lazarus_canary"));
    assert_eq!(canary_path("/home", true, None).unwrap(), "/home/.lazarus_canary");
    assert_eq!(canary_path("/home/a", false, Some("/home")).unwrap(), "/home/.lazarus_canary");
    assert_eq!(verdict(0, true), DetectionVerdict::Clean);
    assert_eq!(verdict(1, true), DetectionVerdict::Suspicious);
    assert!(check_verdict(DetectionVerdict::Suspicious, false).is_err());
    assert!(check_verdict(DetectionVerdict::Suspicious, true).is_ok());
    assert!(quarantine_name(5, "a.bin").contains("a.bin"));
    assert!(manifest_name(5).contains("5"));
}

#[test]
fn samples_are_counted() {
    assert_eq!(sample_len(10), 10);
    assert_eq!(sample_len(1 << 40), 262144);
    let counts = byte_counts(&[1, 1, 255]);
    assert_eq!(counts.len(), 256);
    assert_eq!((counts[0], counts[1], counts[255]), (0, 2, 1));
}

#[test]
fn file_collections_are_bounded() {
    let mut c = FileCollector::new("/src", false, true, 2);
    assert_eq!(c.next_dir().as_deref(), Some("/src"));
    assert!(!c.note("/src/sub", true, false));
    assert!(!c.note("/src/a", false, true));
    assert!(c.note("/src/b", false, true));
    assert_eq!(c.files, vec!["/src/a", "/src/b"]);
    assert_eq!(c.next_dir().as_deref(), Some("/src/sub"));
    assert!(c.next_dir().is_none());
}

#[test]
fn every_command_leaves_an_entry_in_the_log() {
    let mut history = History::open("/repo", [9u8; 32]);
    let id = || "2026-01-02T03:04:05".to_string();
    let ends = [
        (CommandEnd::Init, Operation::Init, "{}"),
        (
            CommandEnd::Backup { snapshot_id: Some(id()), chunks: 3 },
            Operation::Backup,
            "{\"chunk_count\":3,\"snapshot_id\":\"2026-01-02T03:04:05\"}",
        ),
        (
            CommandEnd::Backup { snapshot_id: None, chunks: 0 },
            Operation::Backup,
            "{\"chunk_count\":0,\"snapshot_id\":null}",
        ),
        (
            CommandEnd::Prune { snapshots: 2, chunks: 5 },
            Operation::Prune,
            "{\"dropped_snapshots\":2,\"removed_chunks\":5}",
        ),
        (CommandEnd::KeyRotate, Operation::KeyRotate, "{}"),
        (
            CommandEnd::Restore { snapshot_id: id() },
            Operation::Restore,
            "{\"snapshot_id\":\"2026-01-02T03:04:05\"}",
        ),
        (
            CommandEnd::of_verify(&VerifyTally {
                verified: 4,
                missing: 3,
                corrupted: 2,
                manifest_errors: 1,
            }),
            Operation::Verify,
            "{\"corrupted\":2,\"manifest_errors\":1,\"missing\":3,\"verified\":4}",
        ),
    ];
    for (i, (end, operation, details)) in ends.iter().enumerate() {
        log_end_at(&mut history, "host", end, i as u64);
        let entry = history.entries().last().unwrap();
        assert_eq!((entry.operation, entry.details.as_str()), (*operation, *details));
        assert_eq!((entry.timestamp, entry.actor.as_str()), (i as u64, "host"));
    }
    let last = log_end(&mut history, "host", &CommandEnd::KeyRotate);
    assert_eq!(last.signature, history.entries().last().unwrap().signature);
    assert_eq!(history.entries().len(), ends.len() + 1);
    assert!(history.verify().is_clean());
}
