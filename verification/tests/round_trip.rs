use lazarus::agent::{cut_file, open_download, record_chunk, select_uploads};
use lazarus::catalog::index::{CatalogIndex, ObjectType};
use lazarus::chunking::block_device::Extent;
use lazarus::chunking::streaming::StreamingChunker;
use lazarus::commands::backup::{begin_block_object, record_block_chunk, record_file_chunk};
use lazarus::commands::block_restore::{BlockRestore, BlockStep};
use lazarus::commands::restore::{entry_is_directory, open_entry};
use lazarus::encryption::key_manager::KeyManager;
use lazarus::error::LazarusError;
use lazarus::snapshot::block_image::cut_extent;
use lazarus::storage::chunks::{open_chunk, open_object_text, seal_chunk, seal_text};
use std::collections::HashMap;

#[derive(Debug, Clone, PartialEq)]
enum Node {
    File { metadata: String, data: Vec<u8> },
    Directory { metadata: String, entries: Vec<(String, Node)> },
}

type Store = HashMap<String, Vec<u8>>;

fn keys() -> KeyManager {
    KeyManager::from_keys([3u8; 32], [4u8; 32])
}

fn file(metadata: &str, data: &[u8]) -> Node {
    Node::File { metadata: metadata.to_string(), data: data.to_vec() }
}

fn directory(metadata: &str, entries: Vec<(&str, Node)>) -> Node {
    Node::Directory {
        metadata: metadata.to_string(),
        entries: entries.into_iter().map(|(n, e)| (n.to_string(), e)).collect(),
    }
}

fn back_up(keys: &KeyManager, catalog: &mut CatalogIndex, store: &mut Store, node: &Node) -> i64 {
    match node {
        Node::File { metadata, data } => {
            let blob = seal_text(keys, metadata).unwrap();
            let id = catalog.create_object(ObjectType::File, &blob).unwrap();
            for (order, piece) in data.chunks(4).enumerate() {
                let chunk = seal_chunk(keys, piece).unwrap();
                record_file_chunk(catalog, id, order, &chunk).unwrap();
                store.insert(chunk.hash_hex, chunk.stored_data);
            }
            id
        }
        Node::Directory { metadata, entries } => {
            let blob = seal_text(keys, metadata).unwrap();
            let id = catalog.create_object(ObjectType::Directory, &blob).unwrap();
            for (name, entry) in entries {
                let child = back_up(keys, catalog, store, entry);
                let name = seal_text(keys, name).unwrap();
                catalog.add_tree_entry(id, child, &name).unwrap();
            }
            id
        }
    }
}

fn restore(
    keys: &KeyManager,
    catalog: &CatalogIndex,
    store: &Store,
    id: i64,
) -> Result<Node, LazarusError> {
    let (kind, blob) = catalog.get_object(id).unwrap();
    let metadata = open_object_text(keys, &blob)?;
    if !entry_is_directory(kind)? {
        let mut data = Vec::new();
        for hash in catalog.get_file_chunks(id) {
            let stored = store.get(&hash).cloned().unwrap_or_default();
            data.extend(open_chunk(keys, &hash, &stored)?);
        }
        return Ok(Node::File { metadata, data });
    }
    let mut entries = Vec::new();
    for (child, blob) in catalog.get_tree_children(id) {
        if let Some(entry) = open_entry(keys, catalog, child, &blob)? {
            entries.push((entry.name, restore(keys, catalog, store, child)?));
        }
    }
    Ok(Node::Directory { metadata, entries })
}

fn home() -> Node {
    directory(
        "{\"name\":\"home\"}",
        vec![
            ("notes.txt", file("{\"mode\":420}", b"hello, world")),
            ("empty", file("{}", b"")),
            (
                "photos",
                directory(
                    "{\"mode\":493}",
                    vec![("a.raw", file("m", &[7u8; 9])), ("nothing", directory("n", vec![]))],
                ),
            ),
            ("again", file("{\"mode\":384}", b"hello, world")),
        ],
    )
}

#[test]
fn a_tree_comes_back_as_it_was() {
    let (keys, mut catalog, mut store) = (keys(), CatalogIndex::new(), Store::new());
    let root = back_up(&keys, &mut catalog, &mut store, &home());
    assert_eq!(restore(&keys, &catalog, &store, root).unwrap(), home());
    assert_eq!(store.len(), 5);
}

#[test]
fn a_later_backup_leaves_a_tree_as_it_was() {
    let (keys, mut catalog, mut store) = (keys(), CatalogIndex::new(), Store::new());
    let first = back_up(&keys, &mut catalog, &mut store, &home());
    let other = directory("d", vec![("notes.txt", file("x", b"goodbye, world"))]);
    let second = back_up(&keys, &mut catalog, &mut store, &other);
    assert_eq!(restore(&keys, &catalog, &store, first).unwrap(), home());
    assert_eq!(restore(&keys, &catalog, &store, second).unwrap(), other);
}

#[test]
fn an_added_entry_comes_last() {
    let (keys, mut catalog, mut store) = (keys(), CatalogIndex::new(), Store::new());
    let root = back_up(&keys, &mut catalog, &mut store, &directory("r", vec![("a", file("f", b"1"))]));
    let late = back_up(&keys, &mut catalog, &mut store, &file("g", b"22222"));
    catalog.add_tree_entry(root, late, &seal_text(&keys, "b").unwrap()).unwrap();
    let expected = directory("r", vec![("a", file("f", b"1")), ("b", file("g", b"22222"))]);
    assert_eq!(restore(&keys, &catalog, &store, root).unwrap(), expected);
}

#[test]
fn entries_without_a_readable_name_are_passed_over_or_refused() {
    let (keys, mut catalog, mut store) = (keys(), CatalogIndex::new(), Store::new());
    let root = back_up(&keys, &mut catalog, &mut store, &directory("r", vec![]));
    let child = back_up(&keys, &mut catalog, &mut store, &file("f", b"1"));
    catalog.add_tree_entry(root, child, b"short").unwrap();
    assert_eq!(restore(&keys, &catalog, &store, root).unwrap(), directory("r", vec![]));
    catalog.add_tree_entry(root, child, &[0u8; 40]).unwrap();
    let refused = restore(&keys, &catalog, &store, root).unwrap_err();
    assert!(matches!(refused, LazarusError::EncryptionError(_)));
}

#[test]
fn a_tree_without_its_chunks_does_not_come_back() {
    let (keys, mut catalog, mut store) = (keys(), CatalogIndex::new(), Store::new());
    let root = back_up(&keys, &mut catalog, &mut store, &home());
    store.clear();
    assert!(restore(&keys, &catalog, &store, root).is_err());
}

/// A reader that delivers no more than a few bytes at a time.
struct Trickle {
    data: Vec<u8>,
    at: usize,
    steps: Vec<usize>,
}

impl Trickle {
    fn read(&mut self, buffer: &mut [u8]) -> usize {
        let step = self.steps.pop().unwrap_or(buffer.len());
        let n = step.min(buffer.len()).min(self.data.len() - self.at);
        buffer[..n].copy_from_slice(&self.data[self.at..self.at + n]);
        self.at += n;
        n
    }
}

#[test]
fn a_file_with_short_reads_comes_back() {
    let (keys, mut catalog, mut store) = (keys(), CatalogIndex::new(), Store::new());
    let data: Vec<u8> = (0..200u8).collect();
    let id = catalog.create_object(ObjectType::File, &seal_text(&keys, "m").unwrap()).unwrap();
    let source = Trickle { data: data.clone(), at: 0, steps: vec![64, 1, 64, 17, 3] };
    let mut chunker = StreamingChunker::new(source, 64);
    let mut lengths = Vec::new();
    loop {
        let mut buffer = chunker.buffer();
        let read = chunker.reader_mut().read(&mut buffer);
        let Some(piece) = chunker.chunk_of(buffer, read) else {
            break;
        };
        let chunk = seal_chunk(&keys, &piece).unwrap();
        record_file_chunk(&mut catalog, id, lengths.len(), &chunk).unwrap();
        store.insert(chunk.hash_hex, chunk.stored_data);
        lengths.push(piece.len());
    }
    assert_eq!(lengths, vec![3, 17, 64, 1, 64, 51]);
    let expected = Node::File { metadata: "m".to_string(), data };
    assert_eq!(restore(&keys, &catalog, &store, id).unwrap(), expected);
}

#[test]
fn a_file_of_the_agent_comes_back() {
    let (keys, mut catalog, mut server) = (keys(), CatalogIndex::new(), Store::new());
    let data: Vec<u8> = (0..50_000u32).map(|i| (i * 7 % 249) as u8).collect();
    for round in 0..2 {
        let id = catalog.create_object(ObjectType::File, &seal_text(&keys, "m").unwrap()).unwrap();
        let (chunks, hashes): (Vec<Vec<u8>>, Vec<String>) = cut_file(&data).into_iter().unzip();
        let replies = hashes.iter().map(|h| (h.clone(), server.contains_key(h))).collect();
        let uploads = select_uploads(&hashes, &replies);
        assert_eq!(uploads.iter().any(|u| *u), round == 0);
        for (order, chunk) in chunks.iter().enumerate() {
            let mut upload = None;
            if uploads[order] {
                let sealed = seal_chunk(&keys, chunk).unwrap();
                upload = Some((sealed.stored_data.len() - 12, sealed.chunk_len));
                server.insert(sealed.hash_hex, sealed.stored_data);
            }
            record_chunk(&mut catalog, id, order, &hashes[order], upload).unwrap();
        }
        let mut back = Vec::new();
        for hash in catalog.get_file_chunks(id) {
            back.extend(open_download(&keys, &server[&hash]).unwrap());
        }
        assert_eq!(back, data);
    }
}

fn back_up_device(
    keys: &KeyManager,
    catalog: &mut CatalogIndex,
    store: &mut Store,
    device: &[u8],
    extents: &Vec<Extent>,
) -> i64 {
    let blob = seal_text(keys, "device").unwrap();
    let id = begin_block_object(catalog, &blob, extents).unwrap();
    for (i, extent) in extents.iter().enumerate() {
        for piece in cut_extent(extent.length, 8) {
            let from = (extent.offset + piece.rel_offset) as usize;
            let chunk = seal_chunk(keys, &device[from..from + piece.length as usize]).unwrap();
            record_block_chunk(catalog, id, i as u64, &piece, &chunk).unwrap();
            store.insert(chunk.hash_hex, chunk.stored_data);
        }
    }
    id
}

fn sparse_device() -> (Vec<u8>, Vec<Extent>) {
    let mut device = vec![0u8; 64];
    for i in 10..31 {
        device[i] = i as u8;
    }
    device[60..64].copy_from_slice(b"tail");
    (device, vec![Extent { offset: 10, length: 21 }, Extent { offset: 60, length: 4 }])
}

#[test]
fn a_device_comes_back_and_its_holes_stay() {
    let (keys, mut catalog, mut store) = (keys(), CatalogIndex::new(), Store::new());
    let (device, extents) = sparse_device();
    let id = back_up_device(&keys, &mut catalog, &mut store, &device, &extents);
    let layout = catalog.get_block_layout(id);
    let mut run = BlockRestore::start(&layout, 64, "/img", false, false, false).unwrap();
    let mut image = Vec::new();
    let mut writes = 0;
    loop {
        match run.request() {
            BlockStep::CreateFile { size } => {
                image = vec![0u8; size as usize];
                run.created();
            }
            BlockStep::Write { hash } => {
                let chunk = open_chunk(&keys, hash, &store[hash]).unwrap();
                let at = run.place(chunk.len()).unwrap() as usize;
                image[at..at + chunk.len()].copy_from_slice(&chunk);
                writes += 1;
            }
            BlockStep::Finished => break,
            BlockStep::OpenDevice => panic!("a file is no device"),
        }
    }
    assert_eq!(image, device);
    assert_eq!(writes, 4);
}

#[test]
fn a_smaller_device_is_refused_before_anything_is_written() {
    let (keys, mut catalog, mut store) = (keys(), CatalogIndex::new(), Store::new());
    let (device, extents) = sparse_device();
    let id = back_up_device(&keys, &mut catalog, &mut store, &device, &extents);
    let layout = catalog.get_block_layout(id);
    let mut run = BlockRestore::start(&layout, 64, "/dev/sdz", true, true, false).unwrap();
    assert!(matches!(run.request(), BlockStep::OpenDevice));
    match run.opened(63).unwrap_err() {
        LazarusError::Storage(m) => assert_eq!(
            m,
            "target device /dev/sdz is 63 byte(s), smaller than backup size 64"
        ),
        other => panic!("{:?}", other),
    }
    assert!(matches!(run.request(), BlockStep::OpenDevice));
    run.opened(65).unwrap();
    assert!(matches!(run.request(), BlockStep::Write { .. }));
    match run.place(7).unwrap_err() {
        LazarusError::VerificationFailed(m) => {
            assert!(m.ends_with("length mismatch: manifest 8, decoded 7"));
        }
        other => panic!("{:?}", other),
    }
    assert_eq!(run.place(8).unwrap(), 10);
}

#[test]
fn a_block_restore_does_not_start_on_a_bad_layout_or_target() {
    let (keys, mut catalog, mut store) = (keys(), CatalogIndex::new(), Store::new());
    let (device, extents) = sparse_device();
    let id = back_up_device(&keys, &mut catalog, &mut store, &device, &extents);
    let layout = catalog.get_block_layout(id);
    let past = BlockRestore::start(&layout, 63, "/img", false, true, false).err().unwrap();
    assert!(matches!(past, LazarusError::VerificationFailed(_)));
    let taken = BlockRestore::start(&layout, 64, "/img", false, true, false).err().unwrap();
    assert!(matches!(taken, LazarusError::Storage(m) if m.contains("already exists")));
    assert!(BlockRestore::start(&layout, 64, "/img", false, true, true).is_ok());
    let gone = BlockRestore::start(&layout, 64, "/dev/x", true, false, true).err().unwrap();
    assert!(matches!(gone, LazarusError::Storage(m) if m.contains("does not exist")));
}
