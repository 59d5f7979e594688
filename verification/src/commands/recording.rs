//! How the rows of a backup build up the tree that a restore writes.
use crate::bytes::hex_text;
use crate::catalog::index::children;
use crate::catalog::index::extent_key;
use crate::catalog::index::object_key;
use crate::catalog::index::CatalogState;
use crate::catalog::index::ExtentChunkFact;
use crate::catalog::index::ExtentLayout;
use crate::catalog::index::FileChunkFact;
use crate::catalog::index::ObjectFact;
use crate::catalog::index::ObjectType;
use crate::catalog::index::TreeFact;
use crate::catalog::order::chunk_recorded;
use crate::catalog::order::extent_recorded;
use crate::catalog::order::file_recorded;
use crate::catalog::order::layout_begun;
use crate::catalog::order::layout_recorded;
use crate::catalog::order::numbered;
use crate::catalog::order::position_recorded;
use crate::catalog::rows::keyed;
use crate::catalog::rows::keyed_push;
use crate::catalog::rows::row_of_unique;
use crate::chunking::block_device::Extent;
use crate::chunking::fixed_size::joined_append;
use crate::commands::backup::extent_rows;
use crate::commands::backup::with_device;
use crate::commands::round_trip::piece_hashes;
use crate::commands::round_trip::tree_recorded;
use crate::commands::round_trip::Cuts;
use crate::commands::round_trip::FileTree;
use crate::primitives::blake3_hash;
use crate::snapshot::block_image::captured_layout;
use crate::storage::chunks::blob_text;
use crate::storage::chunks::object_text;
use crate::storage::chunks::NONCE_LEN;
use vstd::prelude::*;

verus! {

/// The catalog with one more object.
pub open spec fn with_object(state: CatalogState, fact: ObjectFact) -> CatalogState {
    CatalogState { objects: state.objects.push(fact), last_object_id: fact.id, ..state }
}

/// The catalog with one more entry of a directory.
pub open spec fn with_entry(state: CatalogState, fact: TreeFact) -> CatalogState {
    CatalogState { tree: state.tree.push(fact), ..state }
}

/// The catalog with one more chunk of a file.
pub open spec fn with_file_chunk(state: CatalogState, fact: FileChunkFact) -> CatalogState {
    CatalogState { file_chunks: state.file_chunks.push(fact), ..state }
}

/// Whether a catalog holds the objects, entries and file chunks of an earlier one, before its own.
pub open spec fn grows(old_state: CatalogState, new_state: CatalogState) -> bool {
    &&& old_state.objects.is_prefix_of(new_state.objects)
    &&& old_state.tree.is_prefix_of(new_state.tree)
    &&& old_state.file_chunks.is_prefix_of(new_state.file_chunks)
}

/// Whether an object is the root of a tree or stands somewhere below it.
pub open spec fn stands_in(state: CatalogState, object: i64, tree: FileTree, id: i64) -> bool
    decreases tree,
{
    ||| object == id
    ||| match tree {
        FileTree::File { .. } => false,
        FileTree::Directory { entries, .. } => exists|i: int|
            0 <= i < entries.len() && stands_in(
                state,
                children(state.tree, object)[i].0,
                (#[trigger] entries[i]).1,
                id,
            ),
    }
}

/// Whether what a catalog holds beyond an earlier one belongs to no object of a tree.
pub open spec fn leaves_alone(
    old_state: CatalogState,
    new_state: CatalogState,
    object: i64,
    tree: FileTree,
) -> bool {
    &&& forall|j: int|
        old_state.tree.len() <= j < new_state.tree.len() ==> !stands_in(
            old_state,
            object,
            tree,
            (#[trigger] new_state.tree[j]).parent,
        )
    &&& forall|j: int|
        old_state.file_chunks.len() <= j < new_state.file_chunks.len() ==> !stands_in(
            old_state,
            object,
            tree,
            (#[trigger] new_state.file_chunks[j]).file,
        )
}

proof fn children_stay(old_tree: Seq<TreeFact>, new_tree: Seq<TreeFact>, parent: i64)
    requires
        old_tree.is_prefix_of(new_tree),
        forall|j: int|
            old_tree.len() <= j < new_tree.len() ==> (#[trigger] new_tree[j]).parent != parent,
    ensures
        children(new_tree, parent) == children(old_tree, parent),
    decreases new_tree.len(),
{
    if old_tree.len() < new_tree.len() {
        let front = new_tree.drop_last();
        assert(old_tree =~= front.subrange(0, old_tree.len() as int)) by {
            assert(old_tree =~= new_tree.subrange(0, old_tree.len() as int));
        }
        children_stay(old_tree, front, parent);
        assert(new_tree.last().parent != parent);
    } else {
        assert(old_tree =~= new_tree);
    }
}

proof fn objects_stay(old_state: CatalogState, new_state: CatalogState, id: i64)
    requires
        grows(old_state, new_state),
        keyed(new_state.objects, object_key()),
        old_state.has_object(id),
    ensures
        new_state.has_object(id),
        new_state.object(id) == old_state.object(id),
{
    let i = choose|i: int|
        0 <= i < old_state.objects.len() && object_key()(#[trigger] old_state.objects[i]) == id;
    let prefix = new_state.objects.subrange(0, old_state.objects.len() as int);
    assert(old_state.objects =~= prefix);
    assert forall|a: int, b: int| 0 <= a < b < old_state.objects.len() implies object_key()(
        #[trigger] old_state.objects[a],
    ) != object_key()(#[trigger] old_state.objects[b]) by {
        assert(old_state.objects[a] == new_state.objects[a]);
        assert(old_state.objects[b] == new_state.objects[b]);
    }
    assert(old_state.objects[i] == new_state.objects[i]);
    row_of_unique(old_state.objects, object_key(), i);
    row_of_unique(new_state.objects, object_key(), i);
}

proof fn file_stays(
    old_state: CatalogState,
    new_state: CatalogState,
    file: i64,
    hashes: Seq<Seq<char>>,
)
    requires
        old_state.file_chunks.is_prefix_of(new_state.file_chunks),
        file_recorded(old_state, file, hashes),
        forall|j: int|
            old_state.file_chunks.len() <= j < new_state.file_chunks.len() ==> (
            #[trigger] new_state.file_chunks[j]).file != file,
    ensures
        file_recorded(new_state, file, hashes),
{
    let n = old_state.file_chunks.len() as int;
    assert(old_state.file_chunks =~= new_state.file_chunks.subrange(0, n));
    assert forall|j: int|
        0 <= j < new_state.file_chunks.len() && (#[trigger] new_state.file_chunks[j]).file
            == file implies new_state.file_chunks[j].order < hashes.len()
        && new_state.file_chunks[j].hash == hashes[new_state.file_chunks[j].order as int] by {
        assert(new_state.file_chunks[j] == old_state.file_chunks[j]);
    }
    assert forall|k: int| 0 <= k < hashes.len() implies #[trigger] position_recorded(
        new_state,
        file,
        k,
    ) by {
        assert(position_recorded(old_state, file, k));
        let j = choose|j: int|
            0 <= j < old_state.file_chunks.len() && (#[trigger] old_state.file_chunks[j]).file
                == file && old_state.file_chunks[j].order == k;
        assert(new_state.file_chunks[j] == old_state.file_chunks[j]);
    }
}

/// Rows that belong to no object of a recorded tree leave the tree recorded, and so do other
/// files however they are cut.
pub proof fn untouched_trees_stay(
    old_state: CatalogState,
    new_state: CatalogState,
    metadata_key: Seq<u8>,
    object: i64,
    tree: FileTree,
    old_cuts: Cuts,
    new_cuts: Cuts,
)
    requires
        grows(old_state, new_state),
        keyed(new_state.objects, object_key()),
        tree_recorded(old_state, metadata_key, object, tree, old_cuts),
        leaves_alone(old_state, new_state, object, tree),
        forall|id: i64| #[trigger]
            stands_in(old_state, object, tree, id) ==> new_cuts[id] == old_cuts[id],
    ensures
        tree_recorded(new_state, metadata_key, object, tree, new_cuts),
    decreases tree,
{
    assert(stands_in(old_state, object, tree, object));
    objects_stay(old_state, new_state, object);
    match tree {
        FileTree::File { .. } => {
            file_stays(old_state, new_state, object, piece_hashes(old_cuts[object]));
        },
        FileTree::Directory { entries, .. } => {
            children_stay(old_state.tree, new_state.tree, object);
            let found = children(old_state.tree, object);
            assert forall|i: int| 0 <= i < entries.len() implies tree_recorded(
                new_state,
                metadata_key,
                found[i].0,
                (#[trigger] entries[i]).1,
                new_cuts,
            ) by {
                assert forall|id: i64| #[trigger]
                    stands_in(old_state, found[i].0, entries[i].1, id) implies new_cuts[id]
                    == old_cuts[id] by {
                    assert(stands_in(old_state, object, tree, id));
                }
                untouched_trees_stay(
                    old_state,
                    new_state,
                    metadata_key,
                    found[i].0,
                    entries[i].1,
                    old_cuts,
                    new_cuts,
                );
            }
        },
    }
}

/// A directory that was just added is recorded without entries.
pub proof fn new_directories_are_empty(
    state: CatalogState,
    metadata_key: Seq<u8>,
    fact: ObjectFact,
    metadata: Seq<char>,
    cuts: Cuts,
)
    requires
        state.wf(),
        !state.has_object(fact.id),
        fact.kind == ObjectType::Directory,
        object_text(metadata_key, fact.metadata) == Ok::<_, Seq<char>>(metadata),
    ensures
        tree_recorded(
            with_object(state, fact),
            metadata_key,
            fact.id,
            FileTree::Directory { metadata, entries: Seq::empty() },
            cuts,
        ),
{
    let new_state = with_object(state, fact);
    keyed_push(state.objects, object_key(), fact);
    assert(new_state.objects[state.objects.len() as int] == fact);
    row_of_unique(new_state.objects, object_key(), state.objects.len() as int);
    assert forall|j: int| 0 <= j < state.tree.len() implies (#[trigger] state.tree[j]).parent
        != fact.id by {
        assert(state.has_object(state.tree[j].parent));
    }
    children_stay(Seq::empty(), state.tree, fact.id);
}

/// A file that was just added is recorded without data.
pub proof fn new_files_are_empty(
    state: CatalogState,
    metadata_key: Seq<u8>,
    fact: ObjectFact,
    metadata: Seq<char>,
    cuts: Cuts,
)
    requires
        state.wf(),
        !state.has_object(fact.id),
        fact.kind == ObjectType::File,
        object_text(metadata_key, fact.metadata) == Ok::<_, Seq<char>>(metadata),
    ensures
        tree_recorded(
            with_object(state, fact),
            metadata_key,
            fact.id,
            FileTree::File { metadata, data: Seq::empty() },
            cuts.insert(fact.id, Seq::empty()),
        ),
{
    let new_state = with_object(state, fact);
    keyed_push(state.objects, object_key(), fact);
    assert(new_state.objects[state.objects.len() as int] == fact);
    row_of_unique(new_state.objects, object_key(), state.objects.len() as int);
    assert forall|j: int| 0 <= j < state.file_chunks.len() implies (
    #[trigger] state.file_chunks[j]).file != fact.id by {
        assert(state.has_object(state.file_chunks[j].file));
    }
}

/// A chunk that is added at the end of a recorded file is recorded behind the others.
pub proof fn added_chunks_are_recorded(
    state: CatalogState,
    file: i64,
    hashes: Seq<Seq<char>>,
    hash: Seq<char>,
)
    requires
        hashes.len() <= u64::MAX,
        file_recorded(state, file, hashes),
    ensures
        file_recorded(
            with_file_chunk(state, FileChunkFact { file, hash, order: hashes.len() as u64 }),
            file,
            hashes.push(hash),
        ),
{
    let fact = FileChunkFact { file, hash, order: hashes.len() as u64 };
    let new_state = with_file_chunk(state, fact);
    let n = state.file_chunks.len() as int;
    assert(new_state.file_chunks[n] == fact);
    assert forall|j: int|
        0 <= j < new_state.file_chunks.len() && (#[trigger] new_state.file_chunks[j]).file
            == file implies new_state.file_chunks[j].order < hashes.push(hash).len()
        && new_state.file_chunks[j].hash == hashes.push(hash)[new_state.file_chunks[j].order as int] by {
        if j < n {
            assert(new_state.file_chunks[j] == state.file_chunks[j]);
        }
    }
    assert forall|k: int| 0 <= k < hashes.push(hash).len() implies #[trigger] position_recorded(
        new_state,
        file,
        k,
    ) by {
        if k < hashes.len() {
            assert(position_recorded(state, file, k));
            let j = choose|j: int|
                0 <= j < state.file_chunks.len() && (#[trigger] state.file_chunks[j]).file == file
                    && state.file_chunks[j].order == k;
            assert(new_state.file_chunks[j] == state.file_chunks[j]);
        }
    }
}

/// A piece that is added at the end of a recorded file makes its data longer by the piece.
pub proof fn added_pieces_extend_files(
    state: CatalogState,
    metadata_key: Seq<u8>,
    file: i64,
    metadata: Seq<char>,
    data: Seq<u8>,
    piece: Seq<u8>,
    cuts: Cuts,
)
    requires
        cuts[file].len() < i64::MAX,
        tree_recorded(state, metadata_key, file, FileTree::File { metadata, data }, cuts),
    ensures
        tree_recorded(
            with_file_chunk(
                state,
                FileChunkFact {
                    file,
                    hash: hex_text(blake3_hash(piece)@),
                    order: cuts[file].len() as u64,
                },
            ),
            metadata_key,
            file,
            FileTree::File { metadata, data: data + piece },
            cuts.insert(file, cuts[file].push(piece)),
        ),
{
    let pieces = cuts[file];
    let hash = hex_text(blake3_hash(piece)@);
    added_chunks_are_recorded(state, file, piece_hashes(pieces), hash);
    joined_append(pieces, piece);
    assert(piece_hashes(pieces.push(piece)) =~= piece_hashes(pieces).push(hash));
}

/// An entry that is added to a recorded directory comes behind its others, and all of them stay
/// as they were.
pub proof fn added_entries_are_recorded(
    state: CatalogState,
    metadata_key: Seq<u8>,
    fact: TreeFact,
    metadata: Seq<char>,
    entries: Seq<(Seq<char>, FileTree)>,
    name: Seq<char>,
    tree: FileTree,
    cuts: Cuts,
)
    requires
        state.wf(),
        fact.name.len() >= NONCE_LEN,
        blob_text(metadata_key, fact.name) == Ok::<_, Seq<char>>(name),
        tree_recorded(
            state,
            metadata_key,
            fact.parent,
            FileTree::Directory { metadata, entries },
            cuts,
        ),
        tree_recorded(state, metadata_key, fact.child, tree, cuts),
        !stands_in(state, fact.child, tree, fact.parent),
        forall|i: int|
            0 <= i < entries.len() ==> !stands_in(
                state,
                children(state.tree, fact.parent)[i].0,
                (#[trigger] entries[i]).1,
                fact.parent,
            ),
    ensures
        tree_recorded(
            with_entry(state, fact),
            metadata_key,
            fact.parent,
            FileTree::Directory { metadata, entries: entries.push((name, tree)) },
            cuts,
        ),
{
    let new_state = with_entry(state, fact);
    let found = children(state.tree, fact.parent);
    let all = entries.push((name, tree));
    assert(state.objects.is_prefix_of(new_state.objects));
    assert(state.file_chunks.is_prefix_of(new_state.file_chunks));
    assert(state.tree.is_prefix_of(new_state.tree));
    assert(new_state.tree[state.tree.len() as int] == fact);
    assert(new_state.tree.drop_last() =~= state.tree);
    assert(children(new_state.tree, fact.parent) == found.push((fact.child, fact.name)));
    assert forall|i: int| 0 <= i < all.len() implies {
        &&& children(new_state.tree, fact.parent)[i].1.len() >= NONCE_LEN
        &&& blob_text(metadata_key, children(new_state.tree, fact.parent)[i].1) == Ok::<
            _,
            Seq<char>,
        >((#[trigger] all[i]).0)
        &&& tree_recorded(
            new_state,
            metadata_key,
            children(new_state.tree, fact.parent)[i].0,
            all[i].1,
            cuts,
        )
    } by {
        if i < entries.len() {
            assert(all[i] == entries[i]);
            untouched_trees_stay(
                state,
                new_state,
                metadata_key,
                found[i].0,
                entries[i].1,
                cuts,
                cuts,
            );
        } else {
            untouched_trees_stay(state, new_state, metadata_key, fact.child, tree, cuts, cuts);
        }
    }
}

// --- Block devices -------------------------------------------------------------------------

/// The catalog with one more chunk of an extent.
pub open spec fn with_extent_chunk(state: CatalogState, fact: ExtentChunkFact) -> CatalogState {
    CatalogState { extent_chunks: state.extent_chunks.push(fact), ..state }
}

/// The object of a block device that was just added is a block device with the given metadata, and
/// all its extents are recorded.
pub proof fn begun_devices_hold_their_extents(
    state: CatalogState,
    id: i64,
    metadata: Seq<u8>,
    device: Seq<u8>,
    extents: Seq<Extent>,
    chunk_size: int,
)
    requires
        state.wf(),
        !state.has_object(id),
        extents.len() <= u64::MAX,
    ensures
        with_device(state, id, metadata, extents).object(id).kind == ObjectType::BlockDevice,
        with_device(state, id, metadata, extents).object(id).metadata == metadata,
        layout_begun(
            with_device(state, id, metadata, extents),
            id,
            captured_layout(device, extents, chunk_size),
        ),
{
    let new_state = with_device(state, id, metadata, extents);
    let layout = captured_layout(device, extents, chunk_size);
    let fact = ObjectFact { id, kind: ObjectType::BlockDevice, metadata };
    let n = state.extents.len() as int;
    keyed_push(state.objects, object_key(), fact);
    assert(new_state.objects[state.objects.len() as int] == fact);
    row_of_unique(new_state.objects, object_key(), state.objects.len() as int);
    assert forall|j: int| 0 <= j < state.extents.len() implies (#[trigger] state.extents[j]).object
        != id by {
        assert(state.has_object(state.extents[j].object));
    }
    assert forall|j: int|
        0 <= j < new_state.extents.len() && (#[trigger] new_state.extents[j]).object == id implies {
        let r = new_state.extents[j];
        r.idx < layout.len() && r.offset == layout[r.idx as int].offset && r.length
            == layout[r.idx as int].length
    } by {
        if j < n {
            assert(new_state.extents[j] == state.extents[j]);
        } else {
            assert(new_state.extents[j] == extent_rows(id, extents)[j - n]);
        }
    }
    assert forall|i: int| 0 <= i < layout.len() implies #[trigger] extent_recorded(
        new_state,
        id,
        i,
    ) by {
        assert(new_state.extents[n + i] == extent_rows(id, extents)[i]);
    }
    assert forall|j: int| 0 <= j < state.extent_chunks.len() implies (
    #[trigger] state.extent_chunks[j]).object != id by {
        let r = state.extent_chunks[j];
        assert(state.has_extent(r.object, r.extent_idx));
        let e = choose|e: int|
            0 <= e < state.extents.len() && extent_key()(#[trigger] state.extents[e]) == (
                r.object,
                r.extent_idx,
            );
        assert(state.extents[e].object == r.object);
    }
}

/// A chunk of a block device that is added at its place is recorded, and what was recorded of the
/// device before stays so. Once every chunk is there, the layout is recorded whole.
pub proof fn added_block_chunks_are_recorded(
    state: CatalogState,
    object: i64,
    layout: Seq<ExtentLayout>,
    i: int,
    k: int,
)
    requires
        layout_begun(state, object, layout),
        numbered(layout),
        0 <= i < layout.len(),
        0 <= k < layout[i].chunks.len(),
    ensures
        ({
            let place = layout[i].chunks[k];
            let new_state = with_extent_chunk(
                state,
                ExtentChunkFact {
                    object,
                    extent_idx: i as u64,
                    chunk_idx: place.0,
                    hash: place.1,
                    rel_offset: place.2,
                    length: place.3,
                },
            );
            &&& layout_begun(new_state, object, layout)
            &&& chunk_recorded(new_state, object, i, k)
            &&& forall|a: int, b: int|
                chunk_recorded(state, object, a, b) ==> #[trigger] chunk_recorded(
                    new_state,
                    object,
                    a,
                    b,
                )
            &&& (forall|a: int, b: int|
                0 <= a < layout.len() && 0 <= b < layout[a].chunks.len()
                    ==> #[trigger] chunk_recorded(new_state, object, a, b)) ==> layout_recorded(
                new_state,
                object,
                layout,
            )
        }),
{
    let place = layout[i].chunks[k];
    let fact = ExtentChunkFact {
        object,
        extent_idx: i as u64,
        chunk_idx: place.0,
        hash: place.1,
        rel_offset: place.2,
        length: place.3,
    };
    let new_state = with_extent_chunk(state, fact);
    let n = state.extent_chunks.len() as int;
    assert(new_state.extent_chunks[n] == fact);
    assert(layout[i].chunks[k].0 == k);
    assert forall|e: int| 0 <= e < layout.len() implies #[trigger] extent_recorded(
        new_state,
        object,
        e,
    ) by {
        assert(extent_recorded(state, object, e));
        let j = choose|j: int|
            0 <= j < state.extents.len() && (#[trigger] state.extents[j]).object == object
                && state.extents[j].idx == e;
        assert(new_state.extents[j] == state.extents[j]);
    }
    assert forall|j: int|
        0 <= j < new_state.extent_chunks.len() && (#[trigger] new_state.extent_chunks[j]).object
            == object implies {
        let r = new_state.extent_chunks[j];
        r.extent_idx < layout.len() && r.chunk_idx < layout[r.extent_idx as int].chunks.len()
            && layout[r.extent_idx as int].chunks[r.chunk_idx as int] == (
            r.chunk_idx,
            r.hash,
            r.rel_offset,
            r.length,
        )
    } by {
        if j < n {
            assert(new_state.extent_chunks[j] == state.extent_chunks[j]);
        }
    }
    assert forall|a: int, b: int|
        chunk_recorded(state, object, a, b) implies #[trigger] chunk_recorded(
        new_state,
        object,
        a,
        b,
    ) by {
        let j = choose|j: int|
            0 <= j < n && (#[trigger] state.extent_chunks[j]).object == object
                && state.extent_chunks[j].extent_idx == a && state.extent_chunks[j].chunk_idx == b;
        assert(new_state.extent_chunks[j] == state.extent_chunks[j]);
    }
    if forall|a: int, b: int|
        0 <= a < layout.len() && 0 <= b < layout[a].chunks.len() ==> #[trigger] chunk_recorded(
            new_state,
            object,
            a,
            b,
        ) {
        assert forall|a: int, b: int|
            0 <= a < layout.len() && 0 <= b < layout[a].chunks.len() implies chunk_recorded(
            new_state,
            object,
            a,
            #[trigger] layout[a].chunks[b].0 as int,
        ) by {
            assert(layout[a].chunks[b].0 == b);
            assert(chunk_recorded(new_state, object, a, b));
        }
    }
}

} // verus!
