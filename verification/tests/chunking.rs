use lazarus::chunking::block_device::{
    split_extents, BlockDeviceReader, Extent, ExtentScan, SeekReply, SeekRequest,
};
use lazarus::chunking::cdc::{CdcChunker, MAX_CHUNK_SIZE, MIN_CHUNK_SIZE};
use lazarus::chunking::fixed_size::FixedSizeChunker;
use lazarus::chunking::streaming::StreamingChunker;
use lazarus::compression::adaptive::{
    decode_chunk, encode_chunk, should_compress, FLAG_RAW, FLAG_ZSTD,
};
use lazarus::integrity::merkle::{
    hash_branch, hash_leaf, root_of, verify, MerkleTree, Node,
};

#[test]
fn test_cdc_chunking() {
    let data = vec![0u8; 100_000];
    let chunker = CdcChunker::new(&data);
    let chunks = chunker.collect();
    assert!(chunks.len() > 1);
    for chunk in &chunks {
        assert!(chunk.len() >= MIN_CHUNK_SIZE || chunk.len() == data.len());
        assert!(chunk.len() <= MAX_CHUNK_SIZE || chunk.len() == data.len());
    }
    let total_len: usize = chunks.iter().map(|c| c.len()).sum();
    assert_eq!(total_len, data.len());
}

#[test]
fn test_cdc_deterministic() {
    let data = vec![42u8; 50_000];
    let chunks1 = CdcChunker::new(&data).collect();
    let chunks2 = CdcChunker::new(&data).collect();
    assert_eq!(chunks1.len(), chunks2.len());
    for (c1, c2) in chunks1.iter().zip(chunks2.iter()) {
        assert_eq!(c1.len(), c2.len());
    }
}

#[test]
fn cdc_chunks_join_to_the_data() {
    let mut x: u32 = 12345;
    let data: Vec<u8> = (0..120_000)
        .map(|_| {
            x = x.wrapping_mul(1664525).wrapping_add(1013904223);
            ((x >> 16) % 251) as u8
        })
        .collect();
    let mut chunker = CdcChunker::new(&data);
    let mut joined: Vec<u8> = Vec::new();
    let mut count = 0;
    while let Some(chunk) = chunker.next() {
        assert!(chunk.len() >= MIN_CHUNK_SIZE && chunk.len() <= MAX_CHUNK_SIZE);
        joined.extend_from_slice(chunk);
        count += 1;
    }
    assert!(count > 5);
    assert_eq!(joined, data);
    assert!(CdcChunker::new(&[]).next().is_none());
}

#[test]
fn fixed_chunks_join_to_the_data() {
    let data: Vec<u8> = (0..10u8).collect();
    let chunks = FixedSizeChunker::new(&data, 4).collect();
    assert_eq!(chunks, vec![vec![0, 1, 2, 3], vec![4, 5, 6, 7], vec![8, 9]]);
}

#[test]
fn streamed_chunks_end_with_the_input() {
    let mut chunker = StreamingChunker::new(7u8, 4);
    let buffer = chunker.buffer();
    assert_eq!(buffer.len(), 4);
    assert_eq!(chunker.chunk_of(vec![1, 2, 3, 4], 3), Some(vec![1, 2, 3]));
    assert_eq!(chunker.chunk_of(vec![1, 2, 3, 4], 0), None);
    *chunker.reader_mut() = 8;
    assert_eq!(chunker.into_inner(), 8);
}

// --- Block devices ---------------------------------------------------------------------------

#[test]
fn extent_end_is_offset_plus_length() {
    let e = Extent { offset: 100, length: 50 };
    assert_eq!(e.end(), 150);
}

#[test]
fn split_extents_caps_length() {
    let big = vec![Extent { offset: 0, length: 10 }];
    let split = split_extents(big, 3);
    assert_eq!(split.len(), 4);
    assert_eq!(split[0], Extent { offset: 0, length: 3 });
    assert_eq!(split[1], Extent { offset: 3, length: 3 });
    assert_eq!(split[2], Extent { offset: 6, length: 3 });
    assert_eq!(split[3], Extent { offset: 9, length: 1 });
}

#[test]
fn split_extents_passes_through_small() {
    let small = vec![Extent { offset: 0, length: 5 }];
    assert_eq!(split_extents(small.clone(), 16), small);
}

/// Answers a scan as a file with the given data regions does.
fn scan(size: u64, regions: &[(i64, i64)]) -> Option<Vec<Extent>> {
    let mut s = ExtentScan::new(size);
    while let Some(request) = s.request() {
        let reply = match request {
            SeekRequest::Data(from) => match regions.iter().find(|r| r.1 > from) {
                Some(r) => SeekReply::At(r.0.max(from)),
                None => SeekReply::NoData,
            },
            SeekRequest::Hole(from) => match regions.iter().find(|r| r.0 <= from && from < r.1) {
                Some(r) => SeekReply::At(r.1),
                None => SeekReply::At(from),
            },
        };
        if !s.answer(reply) {
            return None;
        }
    }
    Some(s.extents)
}

#[test]
fn reader_reports_correct_size() {
    let r = BlockDeviceReader::open("/img.bin", 4096);
    assert_eq!(r.size(), 4096);
    assert_eq!(r.path(), "/img.bin");
}

#[test]
fn read_extent_returns_exact_bytes() {
    let mut data = vec![0u8; 1024];
    for i in 0..1024 {
        data[i] = (i % 251) as u8;
    }
    let r = BlockDeviceReader::open("/img.bin", 1024);
    let e = Extent { offset: 100, length: 200 };
    let n = r.read_extent(&e).unwrap();
    assert_eq!(data[e.offset as usize..e.offset as usize + n], data[100..300]);
}

#[test]
fn read_extent_rejects_out_of_bounds() {
    let r = BlockDeviceReader::open("/img.bin", 64);
    assert!(r.read_extent(&Extent { offset: 0, length: 128 }).is_err());
}

#[test]
fn empty_file_yields_no_extents() {
    let r = BlockDeviceReader::open("/empty.bin", 0);
    assert!(r.used_extents(scan(0, &[])).is_empty());
    assert!(r.used_extents(None).is_empty());
}

#[test]
fn dense_file_extents_cover_whole_size() {
    let r = BlockDeviceReader::open("/dense.bin", 1024);
    for scanned in [scan(1024, &[(0, 1024)]), None] {
        let exts = r.used_extents(scanned);
        let total: u64 = exts.iter().map(|e| e.length).sum();
        assert_eq!(total, 1024);
        for w in exts.windows(2) {
            assert!(w[0].end() <= w[1].offset);
        }
    }
}

#[test]
fn sparse_file_skips_holes() {
    let size = 1024 + 4096 + 1024;
    let r = BlockDeviceReader::open("/sparse.bin", size);
    let exts = r.used_extents(scan(size, &[(0, 1024), (5120, 6144)]));
    assert_eq!(
        exts,
        vec![Extent { offset: 0, length: 1024 }, Extent { offset: 5120, length: 1024 }]
    );
}

#[test]
fn readers_need_room_for_an_extent() {
    assert!(BlockDeviceReader::open_with_max_extent("/d", 10, 0).is_err());
    let r = BlockDeviceReader::open_with_max_extent("/d", 10, 4).unwrap();
    assert_eq!(r.used_extents(None).len(), 3);
}

// --- Compression -----------------------------------------------------------------------------

#[test]
fn chunks_are_compressed() {
    let dull = vec![7u8; 20_000];
    assert!(should_compress(&dull));
    let coded = encode_chunk(&dull).unwrap();
    assert_eq!(&coded[..4], b"LZC1");
    assert_eq!(coded[4], FLAG_ZSTD);
    assert!(coded.len() < 1000);
    assert_eq!(decode_chunk(&coded).unwrap(), dull);
}

#[test]
fn compressed_formats_are_kept_raw() {
    for head in [&b"\x89PNG\r\n\x1a\n"[..], &b"\xff\xd8\xff"[..], &b"PK\x03\x04"[..]] {
        let mut data = head.to_vec();
        data.extend_from_slice(&[1, 2, 3]);
        assert!(!should_compress(&data));
        let coded = encode_chunk(&data).unwrap();
        assert_eq!(coded[4], FLAG_RAW);
        assert_eq!(&coded[5..], &data[..]);
        assert_eq!(decode_chunk(&coded).unwrap(), data);
    }
}

#[test]
fn chunks_of_older_repositories_are_decoded() {
    let plain_frame = encode_chunk(b"old data").unwrap()[5..].to_vec();
    assert_eq!(decode_chunk(&plain_frame).unwrap(), b"old data");
}

#[test]
fn broken_payloads_are_refused() {
    assert_eq!(
        decode_chunk(b"LZC1").unwrap_err().describe(),
        "Storage backend error: Chunk header missing encoding flag"
    );
    assert!(decode_chunk(b"LZC1\x09rest").is_err());
    assert!(decode_chunk(b"LZC1\x01rest").is_err());
    assert!(decode_chunk(b"no frame").is_err());
}

// --- Integrity -------------------------------------------------------------------------------

fn leaf(byte: u8) -> Node {
    [byte; 32]
}

#[test]
fn empty_tree_has_zero_root() {
    let t = MerkleTree::from_leaves(&[]);
    assert_eq!(t.root(), [0u8; 32]);
}

#[test]
fn single_leaf_root_is_hash_of_leaf() {
    let l = leaf(7);
    let t = MerkleTree::from_leaves(&[l]);
    assert_eq!(t.root(), hash_leaf(&l));
}

#[test]
fn two_leaves_root_is_branch() {
    let leaves = [leaf(1), leaf(2)];
    let t = MerkleTree::from_leaves(&leaves);
    let expected = hash_branch(&hash_leaf(&leaves[0]), &hash_leaf(&leaves[1]));
    assert_eq!(t.root(), expected);
}

#[test]
fn odd_count_promotes_lone_node() {
    let leaves = [leaf(1), leaf(2), leaf(3)];
    let t = MerkleTree::from_leaves(&leaves);
    let l01 = hash_branch(&hash_leaf(&leaves[0]), &hash_leaf(&leaves[1]));
    let expected = hash_branch(&l01, &hash_leaf(&leaves[2]));
    assert_eq!(t.root(), expected);
}

#[test]
fn root_changes_if_any_leaf_changes() {
    let leaves = [leaf(1), leaf(2), leaf(3), leaf(4)];
    let t1 = MerkleTree::from_leaves(&leaves);
    let mut leaves2 = leaves.clone();
    leaves2[2] = leaf(99);
    let t2 = MerkleTree::from_leaves(&leaves2);
    assert_ne!(t1.root(), t2.root());
}

#[test]
fn verify_reports_corrupted_indices() {
    let expected = vec![leaf(1), leaf(2), leaf(3), leaf(4)];
    let mut actual = expected.clone();
    actual[1] = leaf(99);
    actual[3] = leaf(0);
    let root = root_of(&expected);
    let report = verify(&root, &expected, &actual).unwrap();
    assert!(!report.ok);
    assert_eq!(report.corrupted_leaves, vec![1, 3]);
}

#[test]
fn verify_returns_ok_when_clean() {
    let leaves = vec![leaf(1), leaf(2)];
    let root = root_of(&leaves);
    let report = verify(&root, &leaves, &leaves).unwrap();
    assert!(report.ok);
    assert!(report.corrupted_leaves.is_empty());
    assert_eq!(report.expected_root, report.actual_root);
}

#[test]
fn verify_rejects_mismatched_lengths() {
    let a = vec![leaf(1)];
    let b = vec![leaf(1), leaf(2)];
    assert!(verify(&[0u8; 32], &a, &b).is_err());
}

#[test]
fn leaves_and_branches_hash_with_their_prefix() {
    let mut with_prefix = vec![0u8];
    with_prefix.extend_from_slice(&leaf(5));
    assert_eq!(hash_leaf(&leaf(5)), *blake3::hash(&with_prefix).as_bytes());
    let mut pair = vec![1u8];
    pair.extend_from_slice(&leaf(5));
    pair.extend_from_slice(&leaf(6));
    assert_eq!(hash_branch(&leaf(5), &leaf(6)), *blake3::hash(&pair).as_bytes());
}

#[test]
fn trees_tell_which_leaves_differ() {
    let a = MerkleTree::from_leaves(&[leaf(1), leaf(2), leaf(3)]);
    let b = MerkleTree::from_leaves(&[leaf(1), leaf(9), leaf(3)]);
    assert_eq!(a.diff_leaves(&b), vec![1]);
    assert_eq!(a.leaf_count(), 3);
}

#[test]
fn bytes_outside_the_table_cannot_be_cut_where_the_search_reads_them() {
    assert!(CdcChunker::new(&[]).can_cut());
    assert!(CdcChunker::new(&[255u8; MIN_CHUNK_SIZE]).can_cut());
    assert!(!CdcChunker::new(&[255u8; MIN_CHUNK_SIZE + 1]).can_cut());
    let mut data = vec![7u8; 3 * MAX_CHUNK_SIZE];
    assert!(CdcChunker::new(&data).can_cut());
    data[10] = 252;
    assert!(CdcChunker::new(&data).can_cut());
    data[MIN_CHUNK_SIZE] = 252;
    assert!(!CdcChunker::new(&data).can_cut());
}
