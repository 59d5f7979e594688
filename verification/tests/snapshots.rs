use lazarus::catalog::history::Operation;
use lazarus::catalog::index::{CatalogIndex, ObjectType};
use lazarus::error::LazarusError;
use lazarus::snapshot::block_tracker::{stored_chunks, BlockTracker, ChunkRef};
use lazarus::snapshot::btrfs::{delete_result, BtrfsSnapshot, BtrfsSnapshotter};
use lazarus::snapshot::dedup::DedupTable;
use lazarus::snapshot::hooks::builtins;
use lazarus::snapshot::hooks::{
    running_processes, ApplicationHook, CommandResult, HookMatch, HookOutcome, HookPhase,
    HookReport, HookRunner, HostFacts,
};
use lazarus::snapshot::lvm::{
    is_safe_lv_name, parse_lv_path, LvmProgress, LvmReply, LvmSnapshot, LvmSnapshotter, LvmStep,
};
use lazarus::snapshot::manager::{SnapshotId, SnapshotManager};
use lazarus::snapshot::snapshotter::{
    default_snap_name, BlockSnapshotter, ConsistentMount, HostProbe, ToolResult,
};
use lazarus::snapshot::zfs::{
    default_snap_tag, ZfsProgress, ZfsReply, ZfsSnapshot, ZfsSnapshotter, ZfsStep,
};

fn h(byte: u8) -> [u8; 32] {
    [byte; 32]
}

fn hex(byte: u8) -> String {
    h(byte).iter().map(|b| format!("{:02x}", b)).collect()
}

// --- References ------------------------------------------------------------------------------

#[test]
fn add_reference_is_idempotent() {
    let mut table = DedupTable::new();
    assert_eq!(table.add_reference(&h(1), "snap-a"), 1);
    assert_eq!(table.add_reference(&h(1), "snap-a"), 1);
    assert_eq!(table.add_reference(&h(1), "snap-b"), 2);
}

#[test]
fn remove_reference_decrements() {
    let mut table = DedupTable::new();
    table.add_reference(&h(2), "s1");
    table.add_reference(&h(2), "s2");
    assert_eq!(table.refcount(&h(2)), 2);
    assert_eq!(table.remove_reference(&h(2), "s1"), 1);
    assert_eq!(table.remove_reference(&h(2), "s1"), 1);
    assert_eq!(table.remove_reference(&h(2), "s2"), 0);
}

#[test]
fn drop_snapshot_removes_all_refs() {
    let mut table = DedupTable::new();
    table.add_reference(&h(1), "snap");
    table.add_reference(&h(2), "snap");
    table.add_reference(&h(3), "snap");
    assert_eq!(table.drop_snapshot("snap"), 3);
    assert_eq!(table.refcount(&h(1)), 0);
}

#[test]
fn unreferenced_chunks_lists_orphans() {
    let mut catalog = CatalogIndex::new();
    catalog.upsert_chunk(&hex(1), 0, 0);
    catalog.upsert_chunk(&hex(2), 0, 0);
    catalog.upsert_chunk(&hex(3), 0, 0);
    let mut table = DedupTable::new();
    table.add_reference(&h(1), "snap-x");
    let orphans = table.unreferenced_chunks_hex(&catalog);
    assert_eq!(orphans.len(), 2);
    assert!(orphans.contains(&hex(2)));
    assert!(orphans.contains(&hex(3)));
    assert!(!orphans.contains(&hex(1)));
    assert_eq!(table.unreferenced_chunks(&catalog).len(), 2);
}

#[test]
fn stats_reflect_state() {
    let mut table = DedupTable::new();
    table.add_reference(&h(1), "s1");
    table.add_reference(&h(1), "s2");
    table.add_reference(&h(2), "s1");
    let s = table.stats();
    assert_eq!(s.referenced_chunks, 2);
    assert_eq!(s.total_references, 3);
    assert_eq!(s.referencing_snapshots, 2);
}

#[test]
fn batch_insert_works() {
    let mut table = DedupTable::new();
    let chunks = vec![h(1), h(2), h(3), h(1)];
    table.add_references_batch("snap-batch", &chunks);
    assert_eq!(table.refcount(&h(1)), 1);
    assert_eq!(table.refcount(&h(2)), 1);
    assert_eq!(table.refcount(&h(3)), 1);
}

#[test]
fn dedup_round_trip_two_snapshots() {
    let mut catalog = CatalogIndex::new();
    for i in 1..=4u8 {
        catalog.upsert_chunk(&hex(i), 0, 0);
    }
    let mut dedup = DedupTable::new();
    dedup.add_references_batch("snap-a", &[h(1), h(2), h(3)]);
    dedup.add_references_batch("snap-b", &[h(2), h(3), h(4)]);
    assert_eq!(dedup.refcount(&h(1)), 1);
    assert_eq!(dedup.refcount(&h(2)), 2);
    assert_eq!(dedup.refcount(&h(3)), 2);
    assert_eq!(dedup.refcount(&h(4)), 1);
    let stats = dedup.stats();
    assert_eq!(stats.referenced_chunks, 4);
    assert_eq!(stats.referencing_snapshots, 2);
    assert_eq!(stats.total_references, 6);
    assert!(dedup.unreferenced_chunks_hex(&catalog).is_empty());
    let dropped = dedup.drop_snapshot("snap-a");
    assert_eq!(dropped, 3);
    assert_eq!(dedup.refcount(&h(1)), 0);
    assert_eq!(dedup.refcount(&h(2)), 1);
    assert_eq!(dedup.refcount(&h(3)), 1);
    assert_eq!(dedup.refcount(&h(4)), 1);
    let orphans = dedup.unreferenced_chunks_hex(&catalog);
    assert_eq!(orphans, vec![hex(1)]);
    dedup.drop_snapshot("snap-b");
    let mut orphans = dedup.unreferenced_chunks_hex(&catalog);
    orphans.sort();
    assert_eq!(orphans, vec![hex(1), hex(2), hex(3), hex(4)]);
}

#[test]
fn freed_chunks_are_those_of_no_other_snapshot() {
    let mut dedup = DedupTable::new();
    dedup.add_references_batch("a", &[h(1), h(2)]);
    dedup.add_references_batch("b", &[h(2), h(3)]);
    dedup.add_references_batch("c", &[h(3)]);
    let gone = vec!["a".to_string(), "b".to_string()];
    let mut preview = dedup.would_be_freed(&gone);
    preview.sort();
    assert_eq!(preview, vec![h(1), h(2)]);
    let mut freed = dedup.remove_snapshots_references(&gone);
    freed.sort();
    assert_eq!(freed, preview);
    assert_eq!(dedup.chunks_for_snapshot("c"), vec![hex(3)]);
    assert!(dedup.chunks_for_snapshot("a").is_empty());
}

// --- Tracking --------------------------------------------------------------------------------

fn make_chunk(order: u64, byte: u8, len: u64) -> ChunkRef {
    ChunkRef { hash: [byte; 32], order, length: len }
}

#[test]
fn record_and_lookup_match() {
    let mut tracker = BlockTracker::new();
    let chunks = vec![make_chunk(0, 1, 5)];
    tracker.record_file("/a.bin", 1234, 5, &chunks).unwrap();
    let hit = tracker.lookup_unchanged("/a.bin", 1234, 5);
    assert_eq!(hit, Some(chunks));
}

#[test]
fn mtime_change_invalidates() {
    let mut tracker = BlockTracker::new();
    tracker.record_file("/a.bin", 1, 5, &[make_chunk(0, 1, 5)]).unwrap();
    assert!(tracker.lookup_unchanged("/a.bin", 2, 5).is_none());
    assert!(tracker.lookup_unchanged("/a.bin", 1, 99).is_none());
}

#[test]
fn record_replaces_previous_chunks() {
    let mut tracker = BlockTracker::new();
    tracker.record_file("/a.bin", 10, 11, &[make_chunk(0, 1, 11)]).unwrap();
    let new = vec![make_chunk(0, 2, 5), make_chunk(1, 3, 6)];
    tracker.record_file("/a.bin", 11, 11, &new).unwrap();
    let hit = tracker.lookup_unchanged("/a.bin", 11, 11).unwrap();
    assert_eq!(hit.len(), 2);
    assert_eq!(hit[0].hash, [2u8; 32]);
    assert_eq!(hit[1].hash, [3u8; 32]);
}

#[test]
fn forget_removes_state() {
    let mut tracker = BlockTracker::new();
    tracker.record_file("/a.bin", 1, 1, &[make_chunk(0, 1, 1)]).unwrap();
    tracker.forget("/a.bin");
    assert!(tracker.lookup_unchanged("/a.bin", 1, 1).is_none());
}

#[test]
fn unknown_file_misses() {
    let tracker = BlockTracker::new();
    assert!(tracker.lookup_unchanged("/nope.bin", 0, 0).is_none());
}

#[test]
fn trackers_can_be_cleared() {
    let mut tracker = BlockTracker::new();
    tracker.record_file("/a", 1, 1, &[make_chunk(0, 1, 1)]).unwrap();
    tracker.record_file("/b", 1, 1, &[make_chunk(0, 2, 1)]).unwrap();
    assert_eq!(tracker.len(), 2);
    tracker.clear();
    assert_eq!(tracker.len(), 0);
}

// --- Hooks -----------------------------------------------------------------------------------

fn quiet_host() -> HostFacts {
    HostFacts { services: Vec::new(), processes: Vec::new(), paths: Vec::new() }
}

fn hook(name: &str, pre: &str) -> ApplicationHook {
    ApplicationHook {
        name: name.to_string(),
        match_rule: None,
        pre_snapshot: pre.to_string(),
        post_snapshot: "true".to_string(),
        timeout_secs: None,
        env: Vec::new(),
    }
}

/// What the shell makes of `true` and `false`.
fn shell(command: &str) -> CommandResult {
    CommandResult::Finished {
        success: command == "true",
        stdout: String::new(),
        stderr: String::new(),
        exit_code: Some(if command == "true" { 0 } else { 1 }),
    }
}

#[test]
fn report_separates_pre_and_post_failures() {
    let report = HookReport {
        outcomes: vec![
            HookOutcome {
                hook: "a".into(),
                phase: HookPhase::Pre,
                success: false,
                stdout: String::new(),
                stderr: "boom".into(),
                exit_code: Some(1),
            },
            HookOutcome {
                hook: "b".into(),
                phase: HookPhase::Post,
                success: true,
                stdout: String::new(),
                stderr: String::new(),
                exit_code: Some(0),
            },
        ],
    };
    assert_eq!(report.pre_failures().len(), 1);
    assert!(report.post_failures().is_empty());
}

#[test]
fn applicable_with_no_match_rule_runs_always() {
    let runner = HookRunner::with_hooks(vec![hook("x", "true")]);
    assert_eq!(runner.applicable(&quiet_host()).len(), 1);
}

#[test]
fn applicable_with_unsatisfiable_path_filters_out() {
    let mut needy = hook("needs_missing_path", "true");
    needy.match_rule = Some(HookMatch {
        path: Some("/very/unlikely/path/lazarus_test_should_be_absent".to_string()),
        ..Default::default()
    });
    let runner = HookRunner::with_hooks(vec![needy]);
    assert!(runner.applicable(&quiet_host()).is_empty());
}

#[test]
fn pre_failure_aborts_run_pre() {
    let runner = HookRunner::with_hooks(vec![hook("fail", "false"), hook("later", "true")]);
    let mut report = HookReport::default();
    let mut run = runner.run_pre(&quiet_host());
    let mut res = Ok(());
    while let Some(next) = run.next_command() {
        let result = shell(&next.command);
        res = run.record(result, &mut report);
        if res.is_err() {
            break;
        }
    }
    assert!(res.is_err());
    assert_eq!(report.outcomes.len(), 1);
    assert_eq!(report.outcomes[0].phase, HookPhase::Pre);
    assert!(!report.outcomes[0].success);
    assert!(run.next_command().is_none());
}

#[test]
fn pre_success_then_post_records_both() {
    let runner = HookRunner::with_hooks(vec![hook("ok", "true")]);
    let mut report = HookReport::default();
    for mut run in [runner.run_pre(&quiet_host()), runner.run_post(&quiet_host())] {
        while let Some(next) = run.next_command() {
            let result = shell(&next.command);
            run.record(result, &mut report).unwrap();
        }
    }
    assert_eq!(report.outcomes.len(), 2);
    assert!(report.outcomes.iter().all(|o| o.success));
}

#[test]
fn post_hooks_go_on_after_a_failure() {
    let mut bad = hook("bad", "true");
    bad.post_snapshot = "false".to_string();
    let runner = HookRunner::with_hooks(vec![bad, hook("good", "true")]);
    let mut report = HookReport::default();
    let mut run = runner.run_post(&quiet_host());
    while let Some(next) = run.next_command() {
        let result = shell(&next.command);
        let _ = run.record(result, &mut report);
    }
    assert_eq!(report.outcomes.len(), 2);
    assert_eq!(report.post_failures().len(), 1);
}

#[test]
fn builtin_set_includes_expected_apps() {
    let names: Vec<String> = builtins::all().iter().map(|h| h.name.clone()).collect();
    for expected in &["postgres", "mysql", "mongodb", "redis", "docker"] {
        assert!(names.iter().any(|n| n == expected), "missing {expected}");
    }
}

#[test]
fn builtin_libvirt_takes_domain() {
    let h = builtins::libvirt("vm-prod");
    assert!(h.pre_snapshot.contains("vm-prod"));
    assert!(h.post_snapshot.contains("vm-prod"));
}

#[test]
fn guests_without_an_agent_are_suspended() {
    let h = builtins::libvirt("vm1");
    assert_eq!(h.name, "libvirt:vm1");
    assert_eq!(h.pre_snapshot, "virsh domfsfreeze vm1 || virsh suspend vm1");
    assert_eq!(h.post_snapshot, "virsh domfsthaw vm1 || virsh resume vm1");
    assert_eq!(h.timeout_secs, Some(120));
}

#[test]
fn rules_match_services_processes_and_paths() {
    let host = HostFacts {
        services: vec!["postgresql".to_string()],
        processes: running_processes(&vec![
            ("12".to_string(), "redis-server\n".to_string()),
            ("self".to_string(), "ignored\n".to_string()),
        ]),
        paths: vec!["/srv".to_string()],
    };
    assert_eq!(host.processes, vec!["redis-server"]);
    let mut by_service = hook("a", "true");
    by_service.match_rule =
        Some(HookMatch { service: Some("postgresql".to_string()), ..Default::default() });
    let mut by_process = hook("b", "true");
    by_process.match_rule =
        Some(HookMatch { process: Some("redis-server".to_string()), ..Default::default() });
    let mut by_path = hook("c", "true");
    by_path.match_rule = Some(HookMatch { path: Some("/srv".to_string()), ..Default::default() });
    let mut none = hook("d", "true");
    none.match_rule = Some(HookMatch { service: Some("mysql".to_string()), ..Default::default() });
    let runner = HookRunner::with_hooks(vec![by_service, by_process, by_path, none]);
    let names: Vec<&str> = runner.applicable(&host).iter().map(|h| h.name.as_str()).collect();
    assert_eq!(names, vec!["a", "b", "c"]);
}

#[test]
fn hooks_have_a_timeout() {
    let mut slow = hook("slow", "true");
    slow.timeout_secs = Some(60);
    assert_eq!(slow.timeout(), 60);
    assert_eq!(hook("x", "true").timeout(), 300);
}

// --- Snapshotters ----------------------------------------------------------------------------

fn host(linux: bool) -> HostProbe {
    HostProbe {
        linux,
        freebsd: false,
        fs_type: None,
        zfs_list: ToolResult::NotRunnable("not found".to_string()),
    }
}

fn done(stdout: &str) -> ToolResult {
    ToolResult::Done { success: true, stdout: stdout.to_string(), stderr: String::new() }
}

fn failed(stderr: &str) -> ToolResult {
    ToolResult::Done { success: false, stdout: String::new(), stderr: stderr.to_string() }
}

#[test]
fn parses_standard_lv_path() {
    let (vg, lv) = parse_lv_path("/dev/vg0/data").unwrap();
    assert_eq!(vg, "vg0");
    assert_eq!(lv, "data");
}

#[test]
fn parses_simple_dm_mapper_path() {
    let (vg, lv) = parse_lv_path("/dev/mapper/vg0-data").unwrap();
    assert_eq!(vg, "vg0");
    assert_eq!(lv, "data");
}

#[test]
fn rejects_ambiguous_dm_mapper_path() {
    assert!(parse_lv_path("/dev/mapper/my--vg-data").is_err());
}

#[test]
fn rejects_non_lvm_path() {
    assert!(parse_lv_path("/home/user/data").is_err());
    assert!(parse_lv_path("/dev/sda1").is_err());
}

#[test]
fn safe_lv_name_rules() {
    assert!(is_safe_lv_name("lazarus_snap_1700000000"));
    assert!(is_safe_lv_name("snap-2024.01"));
    assert!(!is_safe_lv_name(""));
    assert!(!is_safe_lv_name("snap;rm -rf /"));
    assert!(!is_safe_lv_name("snap with space"));
}

#[test]
fn supports_only_on_linux_lvm_paths() {
    let linux = host(true);
    let _ = LvmSnapshotter::supports("", &linux);
    let _ = LvmSnapshotter::supports("/nonexistent", &linux);
    assert!(LvmSnapshotter::supports("/dev/vg0/data", &linux));
    assert!(LvmSnapshotter::supports("/dev/mapper/vg0-data", &linux));
    assert!(!LvmSnapshotter::supports("/home", &linux));
    assert!(!LvmSnapshotter::supports("/dev/a/b/c", &linux));
    assert!(!LvmSnapshotter::supports("/dev/sda1", &linux));
    assert!(!LvmSnapshotter::supports("/dev/vg0/data", &host(false)));
}

#[test]
fn create_returns_error_when_no_lvm_tools() {
    assert!(LvmSnapshot::create(false, "/dev/vg0/data", "lazarus_snap_test").is_err());
    let creation = LvmSnapshot::create(true, "/dev/vg0/data", "lazarus_snap_test");
    let missing = ToolResult::NotRunnable("not found".to_string());
    assert!(matches!(
        creation.ok().unwrap().answer(LvmReply::Ran(missing)),
        LvmProgress::Failed(LazarusError::Storage(_))
    ));
}

#[test]
fn lvm_snapshots_are_made_and_released() {
    let mut progress = LvmProgress::More(
        LvmSnapshot::create(true, "/dev/vg0/data", "lazarus_snap_test").ok().unwrap(),
    );
    let mut programs: Vec<String> = Vec::new();
    let mut snapshot = loop {
        match progress {
            LvmProgress::More(creation) => {
                let reply = match creation.request() {
                    LvmStep::Run(call) => {
                        programs.push(call.program);
                        LvmReply::Ran(done(""))
                    }
                    LvmStep::MakeDir(_) => LvmReply::Made(Ok(())),
                };
                progress = creation.answer(reply);
            }
            LvmProgress::Ready(s) => break s,
            LvmProgress::Failed(e) => panic!("{}", e.describe()),
        }
    };
    assert_eq!(programs, vec!["lvcreate", "mount"]);
    assert_eq!(snapshot.origin(), "/dev/vg0/data");
    assert_eq!(snapshot.block_device(), "/dev/vg0/lazarus_snap_test");
    assert!(snapshot.path().ends_with("lazarus_snap_test"));
    let teardown = snapshot.release().unwrap();
    assert_eq!(teardown.umount.program, "umount");
    assert_eq!(teardown.lvremove.program, "lvremove");
    assert!(snapshot.release().is_none());
}

#[test]
fn a_failed_mount_removes_the_volume() {
    let mut progress = LvmProgress::More(
        LvmSnapshot::create(true, "/dev/vg0/data", "lazarus_snap_test").ok().unwrap(),
    );
    let mut programs: Vec<String> = Vec::new();
    loop {
        match progress {
            LvmProgress::More(creation) => {
                let reply = match creation.request() {
                    LvmStep::Run(call) => {
                        let ok = call.program != "mount";
                        programs.push(call.program);
                        LvmReply::Ran(if ok { done("") } else { failed("bad superblock") })
                    }
                    LvmStep::MakeDir(_) => LvmReply::Made(Ok(())),
                };
                progress = creation.answer(reply);
            }
            LvmProgress::Ready(_) => panic!("no snapshot expected"),
            LvmProgress::Failed(e) => {
                assert!(e.describe().contains("bad superblock"));
                break;
            }
        }
    }
    assert_eq!(programs, vec!["lvcreate", "mount", "lvremove"]);
}

#[test]
fn supports_does_not_panic() {
    let h = host(true);
    assert!(!BtrfsSnapshotter::supports("", &h));
    assert!(!BtrfsSnapshotter::supports("/nonexistent", &h));
    let mut on_btrfs = host(true);
    on_btrfs.fs_type = Some(0x9123683E);
    assert!(BtrfsSnapshotter::supports("/tmp", &on_btrfs));
}

#[test]
fn create_errors_cleanly_when_btrfs_unavailable() {
    assert!(BtrfsSnapshot::create_in(false, "/tmp/x", "/tmp/x", 7).is_err());
    let creation = BtrfsSnapshot::create_in(true, "/tmp/x", "/tmp/x", 7).ok().unwrap();
    assert_eq!(creation.command().program, "btrfs");
    assert!(creation.finish(ToolResult::NotRunnable("not found".to_string())).is_err());
    assert!(delete_result(done("")).is_ok());
}

#[test]
fn btrfs_snapshots_are_released_once() {
    let creation = BtrfsSnapshot::create(true, "/home", 1700000000).ok().unwrap();
    let mut snapshot = creation.finish(done("")).ok().unwrap();
    assert_eq!(snapshot.origin(), "/home");
    assert_eq!(
        snapshot.snapshot_path(),
        "/var/lib/lazarus/btrfs-snaps/lazarus_snap_1700000000"
    );
    assert_eq!(default_snap_name(1700000000), "lazarus_snap_1700000000");
    assert!(snapshot.release().is_some());
    assert!(snapshot.release().is_none());
}

#[test]
fn supports_does_not_panic_without_zfs() {
    assert!(!ZfsSnapshotter::supports("", &host(true)));
    assert!(!ZfsSnapshotter::supports("/tmp", &host(true)));
}

#[test]
fn create_errors_cleanly_without_zfs() {
    let creation = ZfsSnapshot::create(true, false, "/tmp/x", 7).ok().unwrap();
    let missing = ToolResult::NotRunnable("not found".to_string());
    assert!(matches!(
        creation.answer(ZfsReply::Ran(missing)),
        ZfsProgress::Failed(LazarusError::Storage(_))
    ));
    assert!(ZfsSnapshot::create(false, false, "/tmp/x", 7).is_err());
}

#[test]
fn zfs_snapshots_show_under_the_mountpoint() {
    let mut progress =
        ZfsProgress::More(ZfsSnapshot::create(true, false, "/home", 7).ok().unwrap());
    let mut answers = vec![done(""), done("/home\n"), done("tank/home\n")];
    let mut snapshot = loop {
        match progress {
            ZfsProgress::More(creation) => {
                let reply = match creation.request() {
                    ZfsStep::Run(call) => {
                        assert_eq!(call.program, "zfs");
                        ZfsReply::Ran(answers.pop().unwrap())
                    }
                    ZfsStep::Look(_) => ZfsReply::Present(true),
                };
                progress = creation.answer(reply);
            }
            ZfsProgress::Ready(s) => break s,
            ZfsProgress::Failed(e) => panic!("{}", e.describe()),
        }
    };
    let tag = default_snap_tag(7);
    assert_eq!(snapshot.snapshot_name(), format!("tank/home@{}", tag));
    assert!(snapshot.visible_path().starts_with("/home/.zfs/snapshot/"));
    let teardown = snapshot.release().unwrap();
    assert!(teardown.destroy_clone.is_none());
    assert!(snapshot.release().is_none());
}

// --- Manager ---------------------------------------------------------------------------------

fn make_manager(catalog: CatalogIndex) -> SnapshotManager {
    SnapshotManager::new("/repo", catalog, [1u8; 32], [2u8; 32], Some("host".to_string()))
}

#[test]
fn finalize_records_refs_metadata_and_history() {
    let mut mgr = make_manager(CatalogIndex::new());
    let id = SnapshotId::from_str("snap-test");
    let chunks = vec![[1u8; 32], [2u8; 32], [3u8; 32]];
    let meta = b"{\"description\":\"smoke test\"}";
    mgr.finalize_snapshot(&id, &chunks, meta, Some(SnapshotManager::merkle_root(&chunks)))
        .unwrap();
    let stats = mgr.dedup().stats();
    assert_eq!(stats.referenced_chunks, 3);
    let stored = mgr.metadata_store().get("snap-test").unwrap().unwrap();
    assert_eq!(stored, meta);
    let history = mgr.history().entries();
    assert_eq!(history.len(), 1);
    assert_eq!(history[0].operation, Operation::Backup);
    assert_eq!(history[0].actor, "host");
}

#[test]
fn the_tracker_of_a_manager_can_be_changed() {
    let mut mgr = make_manager(CatalogIndex::new());
    let chunks = vec![ChunkRef { hash: [4u8; 32], order: 0, length: 7 }];
    mgr.block_tracker_mut().record_file("/a", 10, 7, &chunks).unwrap();
    assert_eq!(mgr.block_tracker().lookup_unchanged("/a", 10, 7), Some(chunks));
    assert_eq!(mgr.block_tracker().lookup_unchanged("/a", 11, 7), None);
    assert_eq!(mgr.dedup().stats().total_references, 0);
}

#[test]
fn remove_snapshot_returns_orphans() {
    let mut catalog = CatalogIndex::new();
    for i in 0..3u8 {
        catalog.upsert_chunk(&hex(i), 0, 0);
    }
    let mut mgr = make_manager(catalog);
    let id = SnapshotId::from_str("only-snap");
    let chunks = vec![[0u8; 32], [1u8; 32], [2u8; 32]];
    mgr.finalize_snapshot(&id, &chunks, b"{}", None).unwrap();
    let orphans = mgr.remove_snapshot(&id);
    assert_eq!(orphans.len(), 3);
}

#[test]
fn merkle_root_is_stable() {
    let chunks = vec![[1u8; 32], [2u8; 32], [3u8; 32]];
    let r1 = SnapshotManager::merkle_root(&chunks);
    let r2 = SnapshotManager::merkle_root(&chunks);
    assert_eq!(r1, r2);
}

#[test]
fn managers_sign_as_their_actor() {
    let mut mgr = make_manager(CatalogIndex::new()).with_actor("cron").with_key_epoch(3);
    mgr.record_history(Operation::Verify, "{}");
    assert_eq!(mgr.history().entries()[0].actor, "cron");
    assert_eq!(mgr.encryptor().epoch(), 3);
    assert!(mgr.history().verify().is_clean());
}

#[test]
fn removed_snapshots_take_their_objects_along() {
    let mut catalog = CatalogIndex::new();
    let root = catalog.create_object(ObjectType::File, b"f").unwrap();
    catalog.create_snapshot("s", 1, root, b"m").unwrap();
    let mut mgr = make_manager(catalog);
    let _ = mgr.remove_snapshot(&SnapshotId::from_str("s"));
    assert!(mgr.catalog().get_snapshot("s").is_none());
    assert!(mgr.catalog().get_object(root).is_none());
}

#[test]
fn damaged_references_are_left_out() {
    let mut dedup = DedupTable::new();
    dedup.load_reference(&[5u8; 32], "s");
    dedup.load_reference(&[5u8; 31], "s");
    dedup.load_reference(&[], "s");
    assert_eq!(dedup.chunks_for_snapshot("s"), vec![hex(5)]);
}

#[test]
fn damaged_chunks_make_a_file_unknown() {
    let good = vec![(0, vec![1u8; 32], 5), (1, vec![2u8; 32], 6)];
    assert_eq!(stored_chunks(&good), Some(vec![make_chunk(0, 1, 5), make_chunk(1, 2, 6)]));
    assert_eq!(stored_chunks(&vec![(0, vec![1u8; 32], 5), (1, vec![2u8; 33], 6)]), None);
    assert_eq!(stored_chunks(&Vec::new()), Some(Vec::new()));
}

#[test]
fn commands_that_take_too_long_have_failed() {
    let mut slow = builtins::redis();
    slow.match_rule = None;
    slow.timeout_secs = None;
    let mut quick = builtins::docker();
    quick.match_rule = None;
    quick.timeout_secs = Some(7);
    let runner = HookRunner::with_hooks(vec![quick, slow]);
    let mut report = HookReport::default();
    let mut post = runner.run_post(&quiet_host());
    assert_eq!(post.next_command().unwrap().timeout_secs, 7);
    post.record(CommandResult::TimedOut, &mut report).unwrap();
    assert_eq!(post.next_command().unwrap().timeout_secs, 300);
    assert_eq!(report.post_failures().len(), 1);
    assert_eq!(report.outcomes[0].stderr, "hook command took longer than 7 second(s)");
    assert_eq!(report.outcomes[0].exit_code, None);
    let mut pre = runner.run_pre(&quiet_host());
    assert!(pre.record(CommandResult::TimedOut, &mut report).is_err());
    assert!(pre.next_command().is_none());
}
