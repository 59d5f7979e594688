use lazarus::catalog::history::{History, HistoryEntry, Operation};
use lazarus::catalog::index::{CatalogIndex, ObjectType};
use lazarus::catalog::metadata::{MetadataStore, SnapshotMetadata, METADATA_VERSION};
use lazarus::catalog::sealed::SealedEntry;
use lazarus::catalog::walk::{mark_object_chunks, reachable_objects};
use lazarus::error::LazarusError;
use serde_json::Value;

// --- Index -----------------------------------------------------------------------------------

#[test]
fn test_chunk_operations() {
    let mut catalog = CatalogIndex::new();
    let hash = "abc123";
    catalog.upsert_chunk(hash, 100, 200);
    assert!(catalog.chunk_exists(hash));
    assert!(!catalog.chunk_exists("nonexistent"));
    catalog.upsert_chunk(hash, 100, 200);
    assert_eq!(catalog.list_all_chunk_hashes().len(), 1);
}

#[test]
fn test_object_operations() {
    let mut catalog = CatalogIndex::new();
    let metadata = b"encrypted metadata";
    let file_id = catalog.create_object(ObjectType::File, metadata).unwrap();
    assert!(file_id > 0);
    let dir_id = catalog.create_object(ObjectType::Directory, metadata).unwrap();
    assert!(dir_id > 0);
    assert_ne!(file_id, dir_id);
    let (obj_type, obj_metadata) = catalog.get_object(file_id).unwrap();
    assert_eq!(obj_type, ObjectType::File);
    assert_eq!(obj_metadata, metadata);
    let (obj_type, _) = catalog.get_object(dir_id).unwrap();
    assert_eq!(obj_type, ObjectType::Directory);
    assert!(catalog.get_object(9999).is_none());
}

#[test]
fn test_tree_operations() {
    let mut catalog = CatalogIndex::new();
    let parent_id = catalog.create_object(ObjectType::Directory, b"parent").unwrap();
    let child_id = catalog.create_object(ObjectType::File, b"child").unwrap();
    let encrypted_name = b"encrypted_filename";
    catalog.add_tree_entry(parent_id, child_id, encrypted_name).unwrap();
    let children = catalog.get_tree_children(parent_id);
    assert_eq!(children.len(), 1);
    assert_eq!(children[0].0, child_id);
    assert_eq!(children[0].1, encrypted_name);
}

#[test]
fn test_file_chunks() {
    let mut catalog = CatalogIndex::new();
    catalog.upsert_chunk("chunk1", 100, 200);
    catalog.upsert_chunk("chunk2", 150, 250);
    catalog.upsert_chunk("chunk3", 120, 220);
    let file_id = catalog.create_object(ObjectType::File, b"file").unwrap();
    catalog.add_file_chunk(file_id, "chunk1", 0).unwrap();
    catalog.add_file_chunk(file_id, "chunk2", 1).unwrap();
    catalog.add_file_chunk(file_id, "chunk3", 2).unwrap();
    let chunks = catalog.get_file_chunks(file_id);
    assert_eq!(chunks.len(), 3);
    assert_eq!(chunks[0], "chunk1");
    assert_eq!(chunks[1], "chunk2");
    assert_eq!(chunks[2], "chunk3");
}

#[test]
fn test_block_extent_manifest_round_trip() {
    let mut catalog = CatalogIndex::new();
    catalog.upsert_chunk("chunk1", 100, 200);
    catalog.upsert_chunk("chunk2", 150, 250);
    let object_id = catalog.create_object(ObjectType::BlockDevice, b"block").unwrap();
    catalog.add_block_extent(object_id, 0, 4096, 450).unwrap();
    catalog.add_block_extent_chunk(object_id, 0, 0, "chunk1", 0, 200).unwrap();
    catalog.add_block_extent_chunk(object_id, 0, 1, "chunk2", 200, 250).unwrap();
    let extents = catalog.get_block_extents(object_id);
    assert_eq!(extents, vec![(0, 4096, 450)]);
    let chunks = catalog.get_block_extent_chunks(object_id, 0);
    assert_eq!(
        chunks,
        vec![(0, "chunk1".to_string(), 0, 200), (1, "chunk2".to_string(), 200, 250)]
    );
    let layout = catalog.get_block_layout(object_id);
    assert_eq!(layout.extents.len(), 1);
    assert_eq!(layout.extents[0].offset, 4096);
    assert_eq!(layout.extents[0].chunks.len(), 2);
}

#[test]
fn test_snapshot_operations() {
    let mut catalog = CatalogIndex::new();
    let root_id = catalog.create_object(ObjectType::Directory, b"root").unwrap();
    let snapshot_id = "snapshot-123";
    let timestamp = 1234567890u64;
    let metadata = b"snapshot metadata";
    catalog.create_snapshot(snapshot_id, timestamp, root_id, metadata).unwrap();
    let snapshots = catalog.list_snapshots();
    assert_eq!(snapshots.len(), 1);
    assert_eq!(snapshots[0].0, snapshot_id);
    assert_eq!(snapshots[0].1, timestamp);
    let (retrieved_root_id, retrieved_metadata) = catalog.get_snapshot(snapshot_id).unwrap();
    assert_eq!(retrieved_root_id, root_id);
    assert_eq!(retrieved_metadata, metadata);
    assert!(catalog.get_snapshot("nonexistent").is_none());
}

#[test]
fn test_stats() {
    let mut catalog = CatalogIndex::new();
    let (chunks, objects, snapshots) = catalog.get_stats();
    assert_eq!(chunks, 0);
    assert_eq!(objects, 0);
    assert_eq!(snapshots, 0);
    catalog.upsert_chunk("chunk1", 100, 200);
    catalog.upsert_chunk("chunk2", 150, 250);
    let obj_id = catalog.create_object(ObjectType::File, b"file").unwrap();
    catalog.create_snapshot("snap1", 123, obj_id, b"meta").unwrap();
    let (chunks, objects, snapshots) = catalog.get_stats();
    assert_eq!(chunks, 2);
    assert_eq!(objects, 1);
    assert_eq!(snapshots, 1);
}

#[test]
fn test_list_all_chunk_hashes() {
    let mut catalog = CatalogIndex::new();
    catalog.upsert_chunk("hash1", 100, 200);
    catalog.upsert_chunk("hash2", 150, 250);
    catalog.upsert_chunk("hash3", 120, 220);
    let hashes = catalog.list_all_chunk_hashes();
    assert_eq!(hashes.len(), 3);
    assert!(hashes.contains(&"hash1".to_string()));
    assert!(hashes.contains(&"hash2".to_string()));
    assert!(hashes.contains(&"hash3".to_string()));
}

#[test]
fn test_multiple_snapshots_ordering() {
    let mut catalog = CatalogIndex::new();
    let root_id = catalog.create_object(ObjectType::Directory, b"root").unwrap();
    catalog.create_snapshot("snap1", 1000, root_id, b"meta1").unwrap();
    catalog.create_snapshot("snap2", 3000, root_id, b"meta2").unwrap();
    catalog.create_snapshot("snap3", 2000, root_id, b"meta3").unwrap();
    let snapshots = catalog.list_snapshots();
    assert_eq!(snapshots.len(), 3);
    assert_eq!(snapshots[0].0, "snap2");
    assert_eq!(snapshots[1].0, "snap3");
    assert_eq!(snapshots[2].0, "snap1");
}

#[test]
fn rows_need_what_they_refer_to() {
    let mut catalog = CatalogIndex::new();
    let file_id = catalog.create_object(ObjectType::File, b"file").unwrap();
    let missing = catalog.add_file_chunk(file_id, "nope", 0).unwrap_err();
    assert_eq!(missing.describe(), "Database error: FOREIGN KEY constraint failed");
    catalog.upsert_chunk("a", 1, 1);
    catalog.add_file_chunk(file_id, "a", 0).unwrap();
    let twice = catalog.add_file_chunk(file_id, "a", 0).unwrap_err();
    assert!(matches!(twice, LazarusError::DatabaseError(m) if m.starts_with("UNIQUE")));
    let used = catalog.delete_chunk("a").unwrap_err();
    assert!(matches!(used, LazarusError::DatabaseError(m) if m.starts_with("FOREIGN KEY")));
    catalog.delete_file_chunks_by_hash("a");
    catalog.delete_chunk("a").unwrap();
    assert!(!catalog.chunk_exists("a"));
    assert!(catalog.create_snapshot("s", 1, 99, b"m").is_err());
}

#[test]
fn deleted_snapshots_are_gone() {
    let mut catalog = CatalogIndex::new();
    let root_id = catalog.create_object(ObjectType::Directory, b"root").unwrap();
    catalog.create_snapshot("snap1", 1000, root_id, b"meta1").unwrap();
    assert!(catalog.create_snapshot("snap1", 1000, root_id, b"meta1").is_err());
    catalog.delete_snapshot("snap1");
    assert!(catalog.get_snapshot("snap1").is_none());
    assert!(catalog.list_snapshots().is_empty());
}

#[test]
fn the_objects_of_a_snapshot_go_with_it() {
    let mut catalog = CatalogIndex::new();
    catalog.upsert_chunk("aa", 1, 1);
    let shared = catalog.create_object(ObjectType::File, b"shared").unwrap();
    catalog.add_file_chunk(shared, "aa", 0).unwrap();
    let mut roots = Vec::new();
    for name in ["one", "two"] {
        let root = catalog.create_object(ObjectType::Directory, name.as_bytes()).unwrap();
        let own = catalog.create_object(ObjectType::File, b"own").unwrap();
        let disk = catalog.create_object(ObjectType::BlockDevice, b"disk").unwrap();
        catalog.add_file_chunk(own, "aa", 0).unwrap();
        catalog.add_block_extent(disk, 0, 0, 1).unwrap();
        catalog.add_block_extent_chunk(disk, 0, 0, "aa", 0, 1).unwrap();
        catalog.add_tree_entry(root, shared, b"shared").unwrap();
        catalog.add_tree_entry(root, own, b"own").unwrap();
        catalog.add_tree_entry(root, disk, b"disk").unwrap();
        catalog.create_snapshot(name, 1, root, b"").unwrap();
        roots.push((root, own, disk));
    }
    let loose = catalog.create_object(ObjectType::File, b"loose").unwrap();
    catalog.add_file_chunk(loose, "aa", 0).unwrap();
    let stays = catalog.get_tree_children(roots[1].0);

    catalog.delete_snapshot("none");
    assert_eq!(catalog.get_stats(), (1, 8, 2));
    catalog.delete_snapshot("one");
    let (root, own, disk) = roots[0];
    for gone in [root, own, disk] {
        assert!(catalog.get_object(gone).is_none());
        assert!(catalog.get_tree_children(gone).is_empty());
        assert!(catalog.get_file_chunks(gone).is_empty());
        assert!(catalog.get_block_extents(gone).is_empty());
        assert!(catalog.get_block_extent_chunks(gone, 0).is_empty());
    }
    assert_eq!(catalog.get_file_chunks(shared), vec!["aa"]);
    assert_eq!(catalog.get_file_chunks(loose), vec!["aa"]);
    assert_eq!(catalog.get_tree_children(roots[1].0), stays);
    assert_eq!(catalog.get_block_layout(roots[1].2).extents[0].chunks[0].hash, "aa");
    assert_eq!(catalog.get_stats(), (1, 5, 1));
    let next = catalog.create_object(ObjectType::File, b"next").unwrap();
    assert_eq!(next, loose + 1);

    catalog.delete_snapshot("two");
    assert!(catalog.get_object(shared).is_none());
    assert_eq!(catalog.get_stats(), (1, 2, 0));
    assert!(catalog.chunk_exists("aa"));
}

#[test]
fn snapshots_of_one_root_share_its_objects() {
    let mut catalog = CatalogIndex::new();
    let root = catalog.create_object(ObjectType::File, b"f").unwrap();
    catalog.create_snapshot("a", 1, root, b"").unwrap();
    catalog.create_snapshot("b", 2, root, b"").unwrap();
    catalog.delete_snapshot("a");
    assert!(catalog.get_object(root).is_some());
    catalog.delete_snapshot("b");
    assert!(catalog.get_object(root).is_none());
}

#[test]
fn object_types_have_codes() {
    for kind in [
        ObjectType::File,
        ObjectType::Directory,
        ObjectType::BlockDevice,
        ObjectType::SystemFingerprint,
    ] {
        assert_eq!(ObjectType::from_code(kind.code()), kind);
    }
}

#[test]
fn walks_reach_each_object_once() {
    let mut catalog = CatalogIndex::new();
    let root = catalog.create_object(ObjectType::Directory, b"r").unwrap();
    let sub = catalog.create_object(ObjectType::Directory, b"s").unwrap();
    let file = catalog.create_object(ObjectType::File, b"f").unwrap();
    let other = catalog.create_object(ObjectType::File, b"o").unwrap();
    catalog.add_tree_entry(root, sub, b"sub").unwrap();
    catalog.add_tree_entry(root, file, b"file").unwrap();
    catalog.add_tree_entry(sub, file, b"again").unwrap();
    catalog.upsert_chunk("aa", 1, 1);
    catalog.upsert_chunk("bb", 1, 1);
    catalog.add_file_chunk(file, "aa", 0).unwrap();
    catalog.add_file_chunk(other, "bb", 0).unwrap();
    let seen = reachable_objects(&catalog, &vec![root]);
    assert_eq!(seen.len(), 3);
    assert!(!seen.contains(&other));
    assert_eq!(mark_object_chunks(&catalog, &seen), vec!["aa"]);
}

// --- Metadata --------------------------------------------------------------------------------

fn k() -> [u8; 32] {
    [3u8; 32]
}

fn text(o: &Option<String>) -> Value {
    match o {
        Some(s) => Value::from(s.as_str()),
        None => Value::Null,
    }
}

fn encode(meta: &SnapshotMetadata) -> Vec<u8> {
    let mut map = serde_json::Map::new();
    map.insert("tags".to_string(), Value::from(meta.tags.clone()));
    map.insert("description".to_string(), text(&meta.description));
    map.insert("retention_days".to_string(), Value::from(meta.retention_days));
    map.insert("source".to_string(), text(&meta.source));
    map.insert("hostname".to_string(), text(&meta.hostname));
    serde_json::to_vec(&Value::Object(map)).unwrap()
}

fn decode(bytes: &[u8]) -> SnapshotMetadata {
    let v: Value = serde_json::from_slice(bytes).unwrap();
    let get = |name: &str| v.get(name).and_then(|x| x.as_str()).map(|s| s.to_string());
    SnapshotMetadata {
        tags: v["tags"]
            .as_array()
            .unwrap()
            .iter()
            .map(|t| t.as_str().unwrap().to_string())
            .collect(),
        description: get("description"),
        retention_days: v["retention_days"].as_u64().map(|n| n as u32),
        source: get("source"),
        hostname: get("hostname"),
        system_fingerprint_chunk: None,
        system_fingerprint_format_version: None,
    }
}

fn copies(entries: &[SealedEntry]) -> Vec<SealedEntry> {
    entries
        .iter()
        .map(|e| SealedEntry {
            name: e.name.clone(),
            nonce: e.nonce.clone(),
            ciphertext: e.ciphertext.clone(),
        })
        .collect()
}

#[test]
fn put_get_roundtrip() {
    let mut store = MetadataStore::open("/repo", k());
    let meta = SnapshotMetadata {
        tags: vec!["nightly".into(), "db".into()],
        description: Some("Tuesday backup".into()),
        retention_days: Some(60),
        source: Some("/var/lib/postgresql".into()),
        hostname: Some("db-1".into()),
        ..Default::default()
    };
    store.put("snap-1", &encode(&meta)).unwrap();
    let got = store.get("snap-1").unwrap().unwrap();
    assert_eq!(decode(&got), meta);
}

#[test]
fn missing_returns_none() {
    let store = MetadataStore::open("/repo", k());
    assert!(store.get("nope").unwrap().is_none());
}

#[test]
fn delete_removes_entry() {
    let mut store = MetadataStore::open("/repo", k());
    store.put("s", &encode(&SnapshotMetadata::default())).unwrap();
    store.delete("s");
    assert!(store.get("s").unwrap().is_none());
}

#[test]
fn wrong_key_fails() {
    let mut store = MetadataStore::open("/repo", k());
    store.put("s", &encode(&SnapshotMetadata::default())).unwrap();
    let attacker =
        MetadataStore::load("/repo", [0u8; 32], METADATA_VERSION, copies(store.entries()));
    assert!(attacker.unwrap().get("s").is_err());
}

#[test]
fn load_all_returns_every_entry() {
    let mut store = MetadataStore::open("/repo", k());
    for i in 0..3 {
        let mut m = SnapshotMetadata::default();
        m.tags.push(format!("t{}", i));
        store.put(&format!("snap-{}", i), &encode(&m)).unwrap();
    }
    let all = store.load_all().unwrap();
    assert_eq!(all.len(), 3);
    let ids: Vec<&str> = all.iter().map(|e| e.0.as_str()).collect();
    assert_eq!(ids, vec!["snap-0", "snap-1", "snap-2"]);
    assert_eq!(decode(&all[2].1).tags, vec!["t2"]);
}

#[test]
fn newer_metadata_stores_are_refused() {
    assert!(MetadataStore::load("/repo", k(), METADATA_VERSION + 1, Vec::new()).is_err());
    assert!(MetadataStore::open("/repo", k()).path().starts_with("/repo/"));
}

// --- History ---------------------------------------------------------------------------------

fn log_key() -> [u8; 32] {
    [9u8; 32]
}

#[test]
fn append_and_read_back() {
    let mut h = History::open("/repo", log_key());
    h.record(Operation::Init, "host-a", "{\"version\":1}");
    h.record(Operation::Backup, "host-a", "{\"bytes\":1024,\"snapshot\":\"snap-1\"}");
    let entries = h.entries();
    assert_eq!(entries.len(), 2);
    assert_eq!(entries[0].operation, Operation::Init);
    assert_eq!(entries[1].operation, Operation::Backup);
    assert!(h.verify().is_clean());
}

#[test]
fn chain_links_to_previous_signature() {
    let mut h = History::open("/repo", log_key());
    h.record(Operation::Init, "host", "{}");
    h.record(Operation::Backup, "host", "{}");
    let entries = h.entries();
    assert_eq!(entries[1].prev_signature, entries[0].signature);
    assert!(h.verify().is_clean());
}

#[test]
fn tampering_with_an_entry_is_detected() {
    let mut h = History::open("/repo", log_key());
    h.record(Operation::Init, "host", "{}");
    h.record(Operation::Backup, "host", "{\"snapshot\":\"snap-1\"}");
    let mut entries: Vec<HistoryEntry> = h.entries().iter().map(|e| e.clone()).collect();
    assert_eq!(entries.len(), 2);
    entries[1].actor = "evil".to_string();
    let report = History::load("/repo", log_key(), entries).verify();
    assert!(!report.is_clean());
    assert!(report.tampered_indices.contains(&1));
}

#[test]
fn deleting_an_entry_breaks_chain() {
    let mut h = History::open("/repo", log_key());
    h.record(Operation::Init, "host", "{}");
    h.record(Operation::Backup, "host", "{}");
    h.record(Operation::Verify, "host", "{}");
    let mut entries: Vec<HistoryEntry> = h.entries().iter().map(|e| e.clone()).collect();
    entries.remove(1);
    let report = History::load("/repo", log_key(), entries).verify();
    assert!(report.broken_chain_indices.contains(&1));
}

#[test]
fn history_is_signed_under_its_key() {
    let mut a = History::open("/repo", log_key());
    a.record_at(Operation::Init, "host", "{}", 100);
    let mut b = History::open("/repo", [1u8; 32]);
    b.record_at(Operation::Init, "host", "{}", 100);
    assert_eq!(a.entries()[0].timestamp, 100);
    assert_ne!(a.entries()[0].signature, b.entries()[0].signature);
    let entries: Vec<HistoryEntry> = a.entries().iter().map(|e| e.clone()).collect();
    assert_eq!(History::load("/repo", [1u8; 32], entries).verify().tampered_indices, vec![0]);
}
