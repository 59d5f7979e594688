use lazarus::catalog::index::{CatalogIndex, ObjectType};
use lazarus::chunking::block_device::Extent;
use lazarus::commands::backup::{
    begin_block_object, build_hook_runner, build_object_metadata, capture_platform_metadata, check_block_snapshotter,
    device_metadata, missing_chunk_key, mode_label, note_chunk, pick_snapshotter, record_block_chunk,
    record_file_chunk, snapshotter_label, source_is_file, validate_args, BackupArgs, BackupRun,
    CaptureMode, Phase, SnapshotterChoice, SnapshotterKind, MANIFEST_VERSION,
};
use lazarus::commands::restore::check_manifest_version;
use lazarus::error::LazarusError;
use lazarus::snapshot::block_image::Piece;
use lazarus::snapshot::snapshotter::{HostProbe, ToolResult};
use lazarus::storage::chunks::SealedChunk;

fn base_args() -> BackupArgs {
    BackupArgs {
        source: Some("/tmp/source".to_string()),
        repository: "/tmp/repo".to_string(),
        password: "pw".to_string(),
        force: false,
        consistent: false,
        snapshotter: SnapshotterChoice::Auto,
        block_mode: false,
        device: None,
        no_hooks: false,
        hook_templates: Vec::new(),
    }
}

fn plain_host() -> HostProbe {
    HostProbe {
        linux: true,
        freebsd: false,
        fs_type: Some(0xEF53),
        zfs_list: ToolResult::NotRunnable("No such file or directory (os error 2)".to_string()),
    }
}

fn sealed(hash: &str) -> SealedChunk {
    SealedChunk { hash_hex: hash.to_string(), chunk_len: 100, stored_data: vec![0u8; 140] }
}

#[test]
fn validate_ok_for_default_file_backup() {
    let cfg = validate_args(&base_args()).unwrap();
    assert!(matches!(cfg.mode, CaptureMode::File));
    assert_eq!(cfg.target, "/tmp/source");
}

#[test]
fn validate_rejects_block_mode_without_device() {
    let mut a = base_args();
    a.source = None;
    a.block_mode = true;
    let err = validate_args(&a).unwrap_err();
    assert!(matches!(err, LazarusError::Storage(msg) if msg.contains("requires --device")));
}

#[test]
fn validate_rejects_block_mode_with_source() {
    let mut a = base_args();
    a.block_mode = true;
    a.device = Some("/dev/sda1".to_string());
    let err = validate_args(&a).unwrap_err();
    assert!(
        matches!(err, LazarusError::Storage(msg) if msg.contains("cannot be combined with --source"))
    );
}

#[test]
fn validate_rejects_device_without_block_mode() {
    let mut a = base_args();
    a.device = Some("/dev/sda1".to_string());
    let err = validate_args(&a).unwrap_err();
    assert!(
        matches!(err, LazarusError::Storage(msg) if msg.contains("only be used with --block-mode"))
    );
}

#[test]
fn validate_accepts_block_mode_with_device_no_source() {
    let mut a = base_args();
    a.source = None;
    a.block_mode = true;
    a.device = Some("/dev/sda1".to_string());
    let cfg = validate_args(&a).unwrap();
    assert!(matches!(cfg.mode, CaptureMode::Block));
    assert_eq!(cfg.target, "/dev/sda1");
}

#[test]
fn validate_rejects_file_mode_without_source() {
    let mut a = base_args();
    a.source = None;
    let err = validate_args(&a).unwrap_err();
    assert!(matches!(err, LazarusError::Storage(msg) if msg.contains("--source is required")));
}

#[test]
fn consistent_with_snapshotter_none_is_valid() {
    let mut a = base_args();
    a.consistent = true;
    a.snapshotter = SnapshotterChoice::NoSnapshot;
    let cfg = validate_args(&a).unwrap();
    assert!(cfg.consistent);
    assert_eq!(cfg.snapshotter, SnapshotterChoice::NoSnapshot);
}

#[test]
fn pick_snapshotter_none_returns_none() {
    let res = pick_snapshotter(SnapshotterChoice::NoSnapshot, "/tmp", &plain_host()).unwrap();
    assert!(res.is_none());
}

#[test]
fn pick_snapshotter_auto_errors_when_nothing_supports() {
    let err = pick_snapshotter(SnapshotterChoice::Auto, "/tmp", &plain_host()).unwrap_err();
    assert!(matches!(err, LazarusError::Storage(msg) if msg.contains("no snapshotter supports")));
}

#[test]
fn pick_snapshotter_auto_takes_the_first_that_fits() {
    let lvm = pick_snapshotter(SnapshotterChoice::Auto, "/dev/vg0/data", &plain_host()).unwrap();
    assert_eq!(lvm, Some(SnapshotterKind::Lvm));
    let mut host = plain_host();
    host.fs_type = Some(0x9123683E);
    let btrfs = pick_snapshotter(SnapshotterChoice::Auto, "/home", &host).unwrap();
    assert_eq!(btrfs, Some(SnapshotterKind::Btrfs));
    let mut host = plain_host();
    host.zfs_list = ToolResult::Done {
        success: true,
        stdout: "tank/home\n".to_string(),
        stderr: String::new(),
    };
    let zfs = pick_snapshotter(SnapshotterChoice::Auto, "/home", &host).unwrap();
    assert_eq!(zfs, Some(SnapshotterKind::Zfs));
}

#[test]
fn pick_snapshotter_takes_the_one_asked_for() {
    let host = plain_host();
    let picked = pick_snapshotter(SnapshotterChoice::Zfs, "/tmp", &host).unwrap();
    assert_eq!(picked, Some(SnapshotterKind::Zfs));
    assert_eq!(SnapshotterKind::Zfs.label(), "zfs");
    assert_eq!(snapshotter_label(SnapshotterChoice::NoSnapshot), "none");
    assert_eq!(mode_label(CaptureMode::Block), "block");
}

#[test]
fn build_hook_runner_default_returns_all_builtins() {
    let r = build_hook_runner(&Vec::new()).unwrap();
    let names: Vec<String> = r.hooks().iter().map(|h| h.name.clone()).collect();
    for expected in &["postgres", "mysql", "mongodb", "redis", "docker"] {
        assert!(names.iter().any(|n| n == expected), "missing {expected}");
    }
}

#[test]
fn build_hook_runner_specific_template() {
    let r = build_hook_runner(&vec!["postgres".to_string()]).unwrap();
    assert_eq!(r.hooks().len(), 1);
    assert_eq!(r.hooks()[0].name, "postgres");
}

#[test]
fn build_hook_runner_rejects_unknown_template() {
    let err = build_hook_runner(&vec!["not-a-real-hook".to_string()]).unwrap_err();
    assert!(matches!(err, LazarusError::Storage(msg) if msg.contains("unknown hook template")));
}

#[test]
fn block_mode_consistent_rejects_filesystem_snapshotters() {
    let mut a = base_args();
    a.source = None;
    a.block_mode = true;
    a.device = Some("/dev/sda1".to_string());
    a.consistent = true;
    a.snapshotter = SnapshotterChoice::Btrfs;
    let cfg = validate_args(&a).unwrap();
    assert!(matches!(cfg.mode, CaptureMode::Block));
    assert_eq!(cfg.snapshotter, SnapshotterChoice::Btrfs);
    assert!(matches!(check_block_snapshotter(&cfg), Err(LazarusError::Storage(_))));
}

fn phases(consistent: bool, choice: SnapshotterChoice, no_hooks: bool) -> Vec<Phase> {
    let mut a = base_args();
    a.consistent = consistent;
    a.snapshotter = choice;
    a.no_hooks = no_hooks;
    let mut run = BackupRun::new(&validate_args(&a).unwrap());
    let mut seen = Vec::new();
    while run.phase != Phase::Finished {
        seen.push(run.phase);
        run.advance(true);
    }
    assert!(!run.failed);
    seen
}

#[test]
fn hooks_are_done_before_the_snapshot_is_read() {
    assert_eq!(
        phases(true, SnapshotterChoice::Auto, false),
        vec![
            Phase::PreHooks,
            Phase::TakeSnapshot,
            Phase::PostHooks,
            Phase::Capture,
            Phase::ReleaseSnapshot
        ]
    );
}

#[test]
fn hooks_bracket_the_capture_without_a_snapshot() {
    assert_eq!(
        phases(true, SnapshotterChoice::NoSnapshot, false),
        vec![Phase::PreHooks, Phase::Capture, Phase::PostHooks]
    );
    assert_eq!(phases(false, SnapshotterChoice::Auto, false), vec![Phase::Capture]);
}

#[test]
fn a_failed_snapshot_still_runs_the_post_hooks() {
    let mut a = base_args();
    a.consistent = true;
    let mut run = BackupRun::new(&validate_args(&a).unwrap());
    run.advance(true);
    assert_eq!(run.phase, Phase::TakeSnapshot);
    run.advance(false);
    assert_eq!(run.phase, Phase::PostHooks);
    run.advance(true);
    assert_eq!(run.phase, Phase::Finished);
    assert!(run.failed);
}

#[test]
fn a_source_is_a_file_or_a_directory() {
    assert!(source_is_file(true, false).unwrap());
    assert!(!source_is_file(false, true).unwrap());
    assert!(source_is_file(false, false).is_err());
}

#[test]
fn object_metadata_keeps_sizes_of_files_only() {
    let ids = capture_platform_metadata(Some((7, 8, 0o100644)), false);
    let file = build_object_metadata("a.txt", false, 12, 99, ids);
    assert_eq!((file.size, file.mtime, file.uid, file.gid, file.mode), (12, 99, 7, 8, 0o100644));
    let dir = build_object_metadata("d", true, 4096, 99, capture_platform_metadata(None, true));
    assert_eq!((dir.size, dir.mode), (0, 0o755));
    assert_eq!(capture_platform_metadata(None, false), (0, 0, 0o644));
}

#[test]
fn device_metadata_names_the_device() {
    let m = device_metadata(Some("sda1"), 4096, 5);
    assert_eq!((m.name.as_str(), m.size, m.mtime), ("sda1", 4096, 5));
}

#[test]
fn recorded_chunks_come_back_in_order() {
    let mut catalog = CatalogIndex::new();
    let file = catalog.create_object(ObjectType::File, b"m").unwrap();
    record_file_chunk(&mut catalog, file, 1, &sealed("bb")).unwrap();
    record_file_chunk(&mut catalog, file, 0, &sealed("aa")).unwrap();
    assert_eq!(catalog.get_file_chunks(file), vec!["aa", "bb"]);
    assert!(catalog.chunk_exists("aa"));
    let again = record_file_chunk(&mut catalog, file, 0, &sealed("cc")).unwrap_err();
    assert!(matches!(again, LazarusError::DatabaseError(m) if m.contains("UNIQUE")));
    let nowhere = record_file_chunk(&mut catalog, 77, 0, &sealed("cc")).unwrap_err();
    assert!(matches!(nowhere, LazarusError::DatabaseError(m) if m.contains("FOREIGN KEY")));
}

#[test]
fn recorded_block_chunks_fill_the_layout() {
    let mut catalog = CatalogIndex::new();
    let device = catalog.create_object(ObjectType::BlockDevice, b"m").unwrap();
    catalog.add_block_extent(device, 0, 4096, 100).unwrap();
    let piece = Piece { chunk_idx: 0, rel_offset: 0, length: 100 };
    record_block_chunk(&mut catalog, device, 0, &piece, &sealed("aa")).unwrap();
    let layout = catalog.get_block_layout(device);
    assert_eq!(layout.extents[0].chunks[0].hash, "aa");
    assert_eq!(layout.extents[0].chunks[0].length, 100);
    assert!(record_block_chunk(&mut catalog, device, 9, &piece, &sealed("aa")).is_err());
}

#[test]
fn noted_chunks_are_there_once() {
    let mut chunks = Vec::new();
    let hex = "ab".repeat(32);
    note_chunk(&mut chunks, &hex);
    note_chunk(&mut chunks, &hex);
    note_chunk(&mut chunks, "not a hash");
    assert_eq!(chunks, vec![[0xabu8; 32]]);
}

#[test]
fn equal_chunks_are_stored_once() {
    let mut catalog = CatalogIndex::new();
    let file = catalog.create_object(ObjectType::File, b"m").unwrap();
    let chunk = sealed("abcd");
    assert_eq!(missing_chunk_key(&catalog, &chunk).as_deref(), Some("ab/abcd"));
    record_file_chunk(&mut catalog, file, 0, &chunk).unwrap();
    assert!(missing_chunk_key(&catalog, &chunk).is_none());
}

#[test]
fn a_block_backup_begins_with_its_extents() {
    let mut catalog = CatalogIndex::new();
    let file = catalog.create_object(ObjectType::File, b"f").unwrap();
    let extents =
        vec![Extent { offset: 0, length: 4096 }, Extent { offset: 65536, length: 100 }];
    let device = begin_block_object(&mut catalog, b"meta", &extents).unwrap();
    assert_eq!(device, file + 1);
    let (kind, metadata) = catalog.get_object(device).unwrap();
    assert_eq!((kind, metadata.as_slice()), (ObjectType::BlockDevice, b"meta".as_slice()));
    assert_eq!(catalog.get_block_extents(device), vec![(0, 0, 4096), (1, 65536, 100)]);
    assert!(catalog.get_block_extents(file).is_empty());
    let piece = Piece { chunk_idx: 0, rel_offset: 0, length: 100 };
    record_block_chunk(&mut catalog, device, 1, &piece, &sealed("aa")).unwrap();
    assert_eq!(catalog.get_block_layout(device).extents[1].chunks[0].hash, "aa");
}

#[test]
fn a_device_without_data_has_no_extents() {
    let mut catalog = CatalogIndex::new();
    let device = begin_block_object(&mut catalog, b"m", &Vec::new()).unwrap();
    assert!(catalog.get_block_layout(device).extents.is_empty());
}

#[test]
fn a_restore_accepts_the_version_that_a_backup_writes() {
    assert_eq!(MANIFEST_VERSION, 2);
    assert!(check_manifest_version(Some(Some(MANIFEST_VERSION))).is_ok());
    assert!(check_manifest_version(Some(Some(MANIFEST_VERSION - 1))).is_err());
}
