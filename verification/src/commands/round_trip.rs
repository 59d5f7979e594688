//! What a restore gives back of a backup.
use crate::agent::downloaded_chunk;
use crate::agent::good_chunks_are_read;
use crate::bytes::hex_text;
use crate::bytes::hex_text_injective;
use crate::catalog::index::children;
use crate::catalog::index::file_chunk_list;
use crate::catalog::index::layout_list;
use crate::catalog::index::CatalogState;
use crate::catalog::index::ObjectType;
use crate::catalog::order::file_recorded;
use crate::catalog::order::files_come_back_in_order;
use crate::catalog::order::layout_recorded;
use crate::catalog::order::layouts_come_back;
use crate::catalog::order::numbered;
use crate::catalog::rows::kept;
use crate::catalog::rows::kept_all;
use crate::chunking::block_device::covered;
use crate::chunking::block_device::tidy;
use crate::chunking::block_device::Extent;
use crate::chunking::cdc::cdc_chunks;
use crate::chunking::cdc::cdc_chunks_cover;
use crate::chunking::cdc::MASK_L;
use crate::chunking::fixed_size::joined;
use crate::chunking::streaming::read_chunks;
use crate::chunking::streaming::read_chunks_cover;
use crate::chunking::streaming::reads_through;
use crate::primitives::blake3_hash;
use crate::snapshot::block_image::captured_devices_come_back;
use crate::snapshot::block_image::captured_layout;
use crate::snapshot::block_image::captures_are_sound;
use crate::snapshot::block_image::holds_device;
use crate::snapshot::block_image::piece_bytes;
use crate::snapshot::block_image::pieces_fill;
use crate::snapshot::block_image::pieces_from;
use crate::snapshot::block_image::restored;
use crate::snapshot::block_image::sound_layout;
use crate::storage::chunks::blob_text;
use crate::storage::chunks::object_text;
use crate::storage::chunks::stored_chunk;
use crate::storage::chunks::NONCE_LEN;
use vstd::prelude::*;

verus! {

/// What storage holds under the hash of each chunk.
pub type Store = Map<Seq<char>, Seq<u8>>;

/// The chunk that a restore reads for a hash, where storage holds it intact.
pub open spec fn read_chunk(key: Seq<u8>, store: Store, hash: Seq<char>) -> Option<Seq<u8>> {
    if store.dom().contains(hash) {
        stored_chunk(key, hash, store[hash])
    } else {
        None
    }
}

/// Whether storage holds an intact chunk under the hash of a piece, and that chunk is not other
/// data with the same hash.
pub open spec fn keeps(key: Seq<u8>, store: Store, piece: Seq<u8>) -> bool {
    let hash = hex_text(blake3_hash(piece)@);
    &&& read_chunk(key, store, hash) is Some
    &&& blake3_hash(read_chunk(key, store, hash)->0) == blake3_hash(piece) ==> read_chunk(
        key,
        store,
        hash,
    )->0 == piece
}

/// How a restore gets at a chunk: from its hash, or not at all.
pub type Reader = spec_fn(Seq<char>) -> Option<Seq<u8>>;

/// A restore from storage, which checks the hash of what it reads.
pub open spec fn from_storage(key: Seq<u8>, store: Store) -> Reader {
    |hash: Seq<char>| read_chunk(key, store, hash)
}

/// A restore of the agent, which opens what the server holds under the hash.
pub open spec fn from_server(key: Seq<u8>, store: Store) -> Reader {
    |hash: Seq<char>|
        if store.dom().contains(hash) {
            downloaded_chunk(key, store[hash])
        } else {
            None
        }
}

/// What is read for the hash of a piece that storage keeps is the piece, by a restore from
/// storage and by one of the agent.
pub proof fn kept_chunks_are_read(key: Seq<u8>, store: Store, piece: Seq<u8>)
    requires
        keeps(key, store, piece),
    ensures
        from_storage(key, store)(hex_text(blake3_hash(piece)@)) == Some(piece),
        from_server(key, store)(hex_text(blake3_hash(piece)@)) == Some(piece),
{
    let hash = hex_text(blake3_hash(piece)@);
    let read = read_chunk(key, store, hash)->0;
    assert(hex_text(blake3_hash(read)@) == hash);
    hex_text_injective(blake3_hash(read)@, blake3_hash(piece)@);
    assert(blake3_hash(read) =~= blake3_hash(piece));
    good_chunks_are_read(key, hash, store[hash]);
}

// --- Files ---------------------------------------------------------------------------------

/// The hashes under which the pieces of a file are stored.
pub open spec fn piece_hashes(pieces: Seq<Seq<u8>>) -> Seq<Seq<char>> {
    Seq::new(pieces.len(), |k: int| hex_text(blake3_hash(pieces[k])@))
}

/// Whether storage keeps every piece of a file.
pub open spec fn keeps_all(key: Seq<u8>, store: Store, pieces: Seq<Seq<u8>>) -> bool {
    forall|k: int| 0 <= k < pieces.len() ==> keeps(key, store, #[trigger] pieces[k])
}

/// What a restore writes to a file: the chunks that the catalog lists, one behind the other; none
/// where one of them cannot be read.
pub open spec fn restored_file(state: CatalogState, file: i64, reader: Reader) -> Option<Seq<u8>> {
    let hashes = file_chunk_list(state, file);
    if forall|k: int| 0 <= k < hashes.len() ==> reader(#[trigger] hashes[k]) is Some {
        Some(joined(Seq::new(hashes.len(), |k: int| reader(hashes[k])->0)))
    } else {
        None
    }
}

proof fn read_files_come_back(
    state: CatalogState,
    file: i64,
    reader: Reader,
    pieces: Seq<Seq<u8>>,
)
    requires
        state.wf(),
        pieces.len() <= i64::MAX,
        file_recorded(state, file, piece_hashes(pieces)),
        forall|k: int|
            0 <= k < pieces.len() ==> reader(hex_text(blake3_hash(#[trigger] pieces[k])@)) == Some(
                pieces[k],
            ),
    ensures
        restored_file(state, file, reader) == Some(joined(pieces)),
{
    let hashes = piece_hashes(pieces);
    files_come_back_in_order(state, file, hashes);
    assert forall|k: int| 0 <= k < hashes.len() implies reader(#[trigger] hashes[k]) == Some(
        pieces[k],
    ) by {}
    assert(Seq::new(hashes.len(), |k: int| reader(hashes[k])->0) =~= pieces);
}

/// A file comes back byte for byte, however it was cut and in whatever order its chunks were
/// recorded: from storage, and through the agent.
pub proof fn files_come_back(
    state: CatalogState,
    file: i64,
    key: Seq<u8>,
    store: Store,
    data: Seq<u8>,
    pieces: Seq<Seq<u8>>,
)
    requires
        state.wf(),
        joined(pieces) == data,
        pieces.len() <= i64::MAX,
        file_recorded(state, file, piece_hashes(pieces)),
        keeps_all(key, store, pieces),
    ensures
        restored_file(state, file, from_storage(key, store)) == Some(data),
        restored_file(state, file, from_server(key, store)) == Some(data),
{
    assert forall|k: int| 0 <= k < pieces.len() implies {
        let hash = hex_text(blake3_hash(#[trigger] pieces[k])@);
        &&& from_storage(key, store)(hash) == Some(pieces[k])
        &&& from_server(key, store)(hash) == Some(pieces[k])
    } by {
        kept_chunks_are_read(key, store, pieces[k]);
    }
    read_files_come_back(state, file, from_storage(key, store), pieces);
    read_files_come_back(state, file, from_server(key, store), pieces);
}

/// A file comes back byte for byte from the chunks of the reads that went through it, however
/// short some of them were.
pub proof fn streamed_files_come_back(
    state: CatalogState,
    file: i64,
    key: Seq<u8>,
    store: Store,
    data: Seq<u8>,
    chunk_size: int,
    reads: Seq<(Seq<u8>, int)>,
)
    requires
        state.wf(),
        data.len() <= i64::MAX,
        reads_through(data, 0, chunk_size, reads),
        file_recorded(state, file, piece_hashes(read_chunks(reads))),
        keeps_all(key, store, read_chunks(reads)),
    ensures
        restored_file(state, file, from_storage(key, store)) == Some(data),
        restored_file(state, file, from_server(key, store)) == Some(data),
{
    read_chunks_cover(data, 0, chunk_size, reads);
    assert(data.subrange(0, data.len() as int) =~= data);
    files_come_back(state, file, key, store, data, read_chunks(reads));
}

/// A file that the agent backed up comes back byte for byte: the agent cuts by content.
pub proof fn agent_files_come_back(
    state: CatalogState,
    file: i64,
    key: Seq<u8>,
    store: Store,
    data: Seq<u8>,
)
    requires
        state.wf(),
        data.len() <= i64::MAX,
        file_recorded(state, file, piece_hashes(cdc_chunks(data, MASK_L, 0))),
        keeps_all(key, store, cdc_chunks(data, MASK_L, 0)),
    ensures
        restored_file(state, file, from_server(key, store)) == Some(data),
        restored_file(state, file, from_storage(key, store)) == Some(data),
{
    cdc_chunks_cover(data, MASK_L, 0);
    assert(data.subrange(0, data.len() as int) =~= data);
    files_come_back(state, file, key, store, data, cdc_chunks(data, MASK_L, 0));
}

// --- Directory trees -----------------------------------------------------------------------

/// A file or a directory with the text of its metadata.
pub enum FileTree {
    File { metadata: Seq<char>, data: Seq<u8> },
    Directory { metadata: Seq<char>, entries: Seq<(Seq<char>, FileTree)> },
}

/// How each file object was cut into pieces.
pub type Cuts = Map<i64, Seq<Seq<u8>>>;

/// The entries of a directory that a restore looks at: those whose name has room for a nonce.
pub open spec fn named_children(state: CatalogState, object: i64) -> Seq<(i64, Seq<u8>)> {
    kept(children(state.tree, object), has_nonce())
}

pub open spec fn has_nonce() -> spec_fn((i64, Seq<u8>)) -> bool {
    |entry: (i64, Seq<u8>)| entry.1.len() >= NONCE_LEN
}

/// Whether the catalog holds a tree as a backup writes it down: the metadata and the names
/// encrypted, the entries of each directory in their order, and the chunks of each file, which may
/// be cut anyhow.
pub open spec fn tree_recorded(
    state: CatalogState,
    metadata_key: Seq<u8>,
    object: i64,
    tree: FileTree,
    cuts: Cuts,
) -> bool
    decreases tree,
{
    &&& state.has_object(object)
    &&& match tree {
        FileTree::File { metadata, data } => {
            &&& state.object(object).kind == ObjectType::File
            &&& object_text(metadata_key, state.object(object).metadata) == Ok::<_, Seq<char>>(
                metadata,
            )
            &&& joined(cuts[object]) == data
            &&& cuts[object].len() <= i64::MAX
            &&& file_recorded(state, object, piece_hashes(cuts[object]))
        },
        FileTree::Directory { metadata, entries } => {
            let found = children(state.tree, object);
            &&& state.object(object).kind == ObjectType::Directory
            &&& object_text(metadata_key, state.object(object).metadata) == Ok::<_, Seq<char>>(
                metadata,
            )
            &&& found.len() == entries.len()
            &&& forall|i: int|
                #![trigger entries[i]]
                #![trigger found[i]]
                0 <= i < entries.len() ==> {
                    &&& found[i].1.len() >= NONCE_LEN
                    &&& blob_text(metadata_key, found[i].1) == Ok::<_, Seq<char>>(entries[i].0)
                    &&& tree_recorded(state, metadata_key, found[i].0, entries[i].1, cuts)
                }
        },
    }
}

/// Whether storage keeps the chunks of all files of a tree.
pub open spec fn tree_stored(
    state: CatalogState,
    key: Seq<u8>,
    store: Store,
    object: i64,
    tree: FileTree,
    cuts: Cuts,
) -> bool
    decreases tree,
{
    match tree {
        FileTree::File { .. } => keeps_all(key, store, cuts[object]),
        FileTree::Directory { entries, .. } => forall|i: int|
            0 <= i < entries.len() ==> tree_stored(
                state,
                key,
                store,
                children(state.tree, object)[i].0,
                (#[trigger] entries[i]).1,
                cuts,
            ),
    }
}

/// Whether a restore of an object writes a tree.
pub open spec fn writes_tree(
    state: CatalogState,
    reader: Reader,
    metadata_key: Seq<u8>,
    object: i64,
    tree: FileTree,
) -> bool
    decreases tree,
{
    &&& state.has_object(object)
    &&& match tree {
        FileTree::File { metadata, data } => {
            &&& state.object(object).kind == ObjectType::File
            &&& object_text(metadata_key, state.object(object).metadata) == Ok::<_, Seq<char>>(
                metadata,
            )
            &&& restored_file(state, object, reader) == Some(data)
        },
        FileTree::Directory { metadata, entries } => {
            let found = named_children(state, object);
            &&& state.object(object).kind == ObjectType::Directory
            &&& object_text(metadata_key, state.object(object).metadata) == Ok::<_, Seq<char>>(
                metadata,
            )
            &&& found.len() == entries.len()
            &&& forall|i: int|
                0 <= i < entries.len() ==> {
                    &&& blob_text(metadata_key, found[i].1) == Ok::<_, Seq<char>>(
                        (#[trigger] entries[i]).0,
                    )
                    &&& writes_tree(state, reader, metadata_key, found[i].0, entries[i].1)
                }
        },
    }
}

/// A directory tree comes back as it was: every name, the metadata of every file and directory,
/// and every file byte for byte; from storage, and through the agent.
pub proof fn trees_come_back(
    state: CatalogState,
    repo_key: Seq<u8>,
    metadata_key: Seq<u8>,
    store: Store,
    object: i64,
    tree: FileTree,
    cuts: Cuts,
)
    requires
        state.wf(),
        tree_recorded(state, metadata_key, object, tree, cuts),
        tree_stored(state, repo_key, store, object, tree, cuts),
    ensures
        writes_tree(state, from_storage(repo_key, store), metadata_key, object, tree),
        writes_tree(state, from_server(repo_key, store), metadata_key, object, tree),
    decreases tree,
{
    match tree {
        FileTree::File { data, .. } => {
            files_come_back(state, object, repo_key, store, data, cuts[object]);
        },
        FileTree::Directory { entries, .. } => {
            let found = children(state.tree, object);
            kept_all(found, has_nonce());
            assert forall|i: int| 0 <= i < entries.len() implies {
                &&& writes_tree(
                    state,
                    from_storage(repo_key, store),
                    metadata_key,
                    found[i].0,
                    (#[trigger] entries[i]).1,
                )
                &&& writes_tree(
                    state,
                    from_server(repo_key, store),
                    metadata_key,
                    found[i].0,
                    entries[i].1,
                )
            } by {
                trees_come_back(
                    state,
                    repo_key,
                    metadata_key,
                    store,
                    found[i].0,
                    entries[i].1,
                    cuts,
                );
            }
        },
    }
}

/// A restore of an object writes one tree and no other.
pub proof fn restores_are_determined(
    state: CatalogState,
    reader: Reader,
    metadata_key: Seq<u8>,
    object: i64,
    a: FileTree,
    b: FileTree,
)
    requires
        writes_tree(state, reader, metadata_key, object, a),
        writes_tree(state, reader, metadata_key, object, b),
    ensures
        a == b,
    decreases a,
{
    if let FileTree::Directory { entries: p, .. } = a {
        if let FileTree::Directory { entries: q, .. } = b {
            let found = named_children(state, object);
            assert forall|i: int| 0 <= i < p.len() implies p[i] == q[i] by {
                restores_are_determined(
                    state,
                    reader,
                    metadata_key,
                    found[i].0,
                    p[i].1,
                    q[i].1,
                );
            }
            assert(p =~= q);
        }
    }
}

// --- Block devices -------------------------------------------------------------------------

/// What a restore reads for each hash.
pub open spec fn content_of(key: Seq<u8>, store: Store) -> spec_fn(Seq<char>) -> Seq<u8> {
    |hash: Seq<char>| read_chunk(key, store, hash)->0
}

proof fn piece_count(length: int, chunk_size: int, idx: int, rel: int)
    requires
        chunk_size > 0,
        rel <= length,
    ensures
        pieces_from(length, chunk_size, idx, rel).len() <= length - rel,
    decreases length - rel,
{
    if rel < length {
        let n = if length - rel < chunk_size {
            length - rel
        } else {
            chunk_size
        };
        piece_count(length, chunk_size, idx + 1, rel + n);
    }
}

proof fn captures_are_numbered(device: Seq<u8>, extents: Seq<Extent>, chunk_size: int)
    requires
        tidy(extents, device.len() as int),
        device.len() <= i64::MAX,
        extents.len() <= i64::MAX,
        chunk_size > 0,
    ensures
        numbered(captured_layout(device, extents, chunk_size)),
{
    let layout = captured_layout(device, extents, chunk_size);
    assert forall|i: int| 0 <= i < layout.len() implies (#[trigger] layout[i]).extent_idx == i
        && layout[i].chunks.len() <= i64::MAX by {
        assert(extents[i].stop() <= device.len());
        piece_count(extents[i].length as int, chunk_size, 0, 0);
    }
    assert forall|i: int, k: int|
        0 <= i < layout.len() && 0 <= k < layout[i].chunks.len() implies (
    #[trigger] layout[i].chunks[k]).0 == k by {
        pieces_fill(extents[i].length as int, chunk_size, 0, 0);
        assert(pieces_from(extents[i].length as int, chunk_size, 0, 0)[k].chunk_idx == k);
    }
}

/// A block device that holds zeros outside its extents comes back byte for byte from a sparse
/// file of its size, in whatever order its chunks were recorded; and the restore accepts its
/// layout.
pub proof fn devices_come_back(
    state: CatalogState,
    object: i64,
    key: Seq<u8>,
    store: Store,
    device: Seq<u8>,
    extents: Seq<Extent>,
    chunk_size: int,
)
    requires
        state.wf(),
        tidy(extents, device.len() as int),
        device.len() <= i64::MAX,
        extents.len() <= i64::MAX,
        chunk_size > 0,
        forall|x: int| 0 <= x < device.len() && !covered(extents, x) ==> #[trigger] device[x] == 0,
        layout_recorded(state, object, captured_layout(device, extents, chunk_size)),
        forall|i: int, k: int|
            0 <= i < extents.len() && 0 <= k < pieces_from(
                extents[i].length as int,
                chunk_size,
                0,
                0,
            ).len() ==> keeps(
                key,
                store,
                piece_bytes(
                    device,
                    extents[i],
                    #[trigger] pieces_from(extents[i].length as int, chunk_size, 0, 0)[k],
                ),
            ),
    ensures
        sound_layout(layout_list(state, object), device.len() as int),
        restored(
            Seq::new(device.len(), |x: int| 0u8),
            layout_list(state, object),
            content_of(key, store),
        ) == device,
{
    let layout = captured_layout(device, extents, chunk_size);
    let content = content_of(key, store);
    captures_are_numbered(device, extents, chunk_size);
    layouts_come_back(state, object, layout);
    captures_are_sound(device, extents, chunk_size);
    assert(holds_device(layout, device, content)) by {
        assert forall|i: int, k: int|
            0 <= i < layout.len() && 0 <= k < layout[i].chunks.len() implies content(
            (#[trigger] layout[i].chunks[k]).1,
        ) == device.subrange(
            layout[i].offset + layout[i].chunks[k].2,
            layout[i].offset + layout[i].chunks[k].2 + layout[i].chunks[k].3,
        ) by {
            let p = pieces_from(extents[i].length as int, chunk_size, 0, 0)[k];
            kept_chunks_are_read(key, store, piece_bytes(device, extents[i], p));
            assert(layout[i].chunks[k] == (
                p.chunk_idx,
                hex_text(blake3_hash(piece_bytes(device, extents[i], p))@),
                p.rel_offset,
                p.length,
            ));
        }
    }
    captured_devices_come_back(device, extents, chunk_size, content);
}

} // verus!
