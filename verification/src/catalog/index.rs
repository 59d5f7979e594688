//! The catalog: chunks, objects, the directory tree, block layouts and snapshots.
//!
//! The catalog keeps the rules of its tables: keys are unique, and what a row refers to exists.
use crate::catalog::removal::goes_with;
use crate::catalog::removal::held_by;
use crate::catalog::removal::held_by_others;
use crate::catalog::removal::removal_keeps_the_rules;
use crate::catalog::removal::staying_entry;
use crate::catalog::removal::staying_extent;
use crate::catalog::removal::staying_extent_chunk;
use crate::catalog::removal::staying_file_chunk;
use crate::catalog::removal::staying_object;
use crate::catalog::removal::without_snapshot;
use crate::catalog::rows::as_signed;
use crate::catalog::rows::facts;
use crate::catalog::rows::facts_push;
use crate::catalog::rows::has_key;
use crate::catalog::rows::has_key_push;
use crate::catalog::rows::insert_by_key;
use crate::catalog::rows::items;
use crate::catalog::rows::kept;
use crate::catalog::rows::kept_agree;
use crate::catalog::rows::kept_contains;
use crate::catalog::rows::kept_keyed;
use crate::catalog::rows::kept_step;
use crate::catalog::rows::keyed;
use crate::catalog::rows::keyed_facts;
use crate::catalog::rows::keyed_push;
use crate::catalog::rows::row_of;
use crate::catalog::rows::row_of_unique;
use crate::catalog::rows::signed;
use crate::catalog::rows::sorted;
use crate::catalog::rows::sorted_is_sorted;
use crate::catalog::rows::sorted_push;
use crate::catalog::rows::strip_keys;
use crate::catalog::rows::strip_keys_reversed;
use crate::catalog::walk::holds_id;
use crate::catalog::walk::reachable;
use crate::catalog::walk::reachable_from;
use crate::catalog::walk::reachable_objects;
use crate::bytes::same_bytes;
use crate::error::LazarusError;
use crate::text::copy_text;
use crate::text::same_text;
use crate::text::texts;
use vstd::prelude::*;

verus! {

/// What an object is.
#[derive(Debug, Clone, Copy, PartialEq, Eq, Structural)]
pub enum ObjectType {
    File,
    Directory,
    BlockDevice,
    SystemFingerprint,
}

impl ObjectType {
    /// The number that the database stores.
    pub open spec fn number(self) -> int {
        match self {
            ObjectType::File => 0,
            ObjectType::Directory => 1,
            ObjectType::BlockDevice => 2,
            ObjectType::SystemFingerprint => 3,
        }
    }

    pub fn code(self) -> (out: i32)
        ensures
            out == self.number(),
    {
        match self {
            ObjectType::File => 0,
            ObjectType::Directory => 1,
            ObjectType::BlockDevice => 2,
            ObjectType::SystemFingerprint => 3,
        }
    }

    /// The type for a stored number; an unknown number stands for a file.
    pub fn from_code(code: i32) -> (out: ObjectType)
        ensures
            0 <= code <= 3 ==> out.number() == code,
            !(0 <= code <= 3) ==> out == ObjectType::File,
    {
        match code {
            1 => ObjectType::Directory,
            2 => ObjectType::BlockDevice,
            3 => ObjectType::SystemFingerprint,
            _ => ObjectType::File,
        }
    }
}

/// What is known of a file or directory.
#[derive(Debug)]
pub struct ObjectMetadata {
    pub name: String,
    pub mode: u32,
    pub size: u64,
    pub mtime: u64,
    pub uid: u32,
    pub gid: u32,
}

// --- Rows ----------------------------------------------------------------------------------

/// A chunk in storage.
#[verifier::ext_equal]
pub struct ChunkFact {
    pub hash: Seq<char>,
    pub stored_size: u64,
    pub uncompressed_size: u64,
}

#[derive(Debug)]
struct ChunkRow {
    hash: String,
    stored_size: u64,
    uncompressed_size: u64,
}

impl View for ChunkRow {
    type V = ChunkFact;

    closed spec fn view(&self) -> ChunkFact {
        ChunkFact {
            hash: self.hash@,
            stored_size: self.stored_size,
            uncompressed_size: self.uncompressed_size,
        }
    }
}

/// An object with its encrypted metadata.
#[verifier::ext_equal]
pub struct ObjectFact {
    pub id: i64,
    pub kind: ObjectType,
    pub metadata: Seq<u8>,
}

#[derive(Debug)]
struct ObjectRow {
    id: i64,
    kind: ObjectType,
    metadata: Vec<u8>,
}

impl View for ObjectRow {
    type V = ObjectFact;

    closed spec fn view(&self) -> ObjectFact {
        ObjectFact {
            id: self.id,
            kind: self.kind,
            metadata: self.metadata@,
        }
    }
}

/// An entry of a directory under an encrypted name.
#[verifier::ext_equal]
pub struct TreeFact {
    pub parent: i64,
    pub child: i64,
    pub name: Seq<u8>,
}

#[derive(Debug)]
struct TreeRow {
    parent: i64,
    child: i64,
    name: Vec<u8>,
}

impl View for TreeRow {
    type V = TreeFact;

    closed spec fn view(&self) -> TreeFact {
        TreeFact {
            parent: self.parent,
            child: self.child,
            name: self.name@,
        }
    }
}

/// A chunk of a file.
#[verifier::ext_equal]
pub struct FileChunkFact {
    pub file: i64,
    pub hash: Seq<char>,
    pub order: u64,
}

#[derive(Debug)]
struct FileChunkRow {
    file: i64,
    hash: String,
    order: u64,
}

impl View for FileChunkRow {
    type V = FileChunkFact;

    closed spec fn view(&self) -> FileChunkFact {
        FileChunkFact {
            file: self.file,
            hash: self.hash@,
            order: self.order,
        }
    }
}

/// An extent of a block device.
#[verifier::ext_equal]
pub struct ExtentFact {
    pub object: i64,
    pub idx: u64,
    pub offset: u64,
    pub length: u64,
}

#[derive(Debug)]
struct ExtentRow {
    object: i64,
    idx: u64,
    offset: u64,
    length: u64,
}

impl View for ExtentRow {
    type V = ExtentFact;

    closed spec fn view(&self) -> ExtentFact {
        ExtentFact {
            object: self.object,
            idx: self.idx,
            offset: self.offset,
            length: self.length,
        }
    }
}

/// A chunk of an extent.
#[verifier::ext_equal]
pub struct ExtentChunkFact {
    pub object: i64,
    pub extent_idx: u64,
    pub chunk_idx: u64,
    pub hash: Seq<char>,
    pub rel_offset: u64,
    pub length: u64,
}

#[derive(Debug)]
struct ExtentChunkRow {
    object: i64,
    extent_idx: u64,
    chunk_idx: u64,
    hash: String,
    rel_offset: u64,
    length: u64,
}

impl View for ExtentChunkRow {
    type V = ExtentChunkFact;

    closed spec fn view(&self) -> ExtentChunkFact {
        ExtentChunkFact {
            object: self.object,
            extent_idx: self.extent_idx,
            chunk_idx: self.chunk_idx,
            hash: self.hash@,
            rel_offset: self.rel_offset,
            length: self.length,
        }
    }
}

/// A snapshot.
#[verifier::ext_equal]
pub struct SnapshotFact {
    pub id: Seq<char>,
    pub timestamp: u64,
    pub root: i64,
    pub metadata: Seq<u8>,
}

#[derive(Debug)]
struct SnapshotRow {
    id: String,
    timestamp: u64,
    root: i64,
    metadata: Vec<u8>,
}

impl View for SnapshotRow {
    type V = SnapshotFact;

    closed spec fn view(&self) -> SnapshotFact {
        SnapshotFact {
            id: self.id@,
            timestamp: self.timestamp,
            root: self.root,
            metadata: self.metadata@,
        }
    }
}

/// Where a chunk of an extent lies.
#[verifier::ext_equal]
pub struct ExtentLayout {
    pub extent_idx: u64,
    pub offset: u64,
    pub length: u64,
    /// Index, hash, offset in the extent and length of each chunk.
    pub chunks: Seq<(u64, Seq<char>, u64, u64)>,
}

/// A chunk of an extent of a block device.
#[derive(Debug)]
pub struct BlockExtentChunk {
    pub chunk_idx: u64,
    pub hash: String,
    pub rel_offset: u64,
    pub length: u64,
}

impl View for BlockExtentChunk {
    type V = (u64, Seq<char>, u64, u64);

    open spec fn view(&self) -> (u64, Seq<char>, u64, u64) {
        (self.chunk_idx, self.hash@, self.rel_offset, self.length)
    }
}

/// An extent of a block device with its chunks.
#[derive(Debug)]
pub struct BlockExtent {
    pub extent_idx: u64,
    pub offset: u64,
    pub length: u64,
    pub chunks: Vec<BlockExtentChunk>,
}

impl View for BlockExtent {
    type V = ExtentLayout;

    open spec fn view(&self) -> ExtentLayout {
        ExtentLayout {
            extent_idx: self.extent_idx,
            offset: self.offset,
            length: self.length,
            chunks: facts(self.chunks@),
        }
    }
}

/// All extents of a block device.
#[derive(Debug)]
pub struct BlockLayout {
    pub object_id: i64,
    pub extents: Vec<BlockExtent>,
}

/// The snapshots under their times.
pub open spec fn snapshot_times(s: Seq<SnapshotFact>) -> Seq<(i64, (Seq<char>, u64))> {
    Seq::new(s.len(), |i: int| (signed(s[i].timestamp) as i64, (s[i].id, s[i].timestamp)))
}

/// The snapshots with their times, the newest first.
pub open spec fn snapshot_list(state: CatalogState) -> Seq<(Seq<char>, u64)> {
    items(sorted(snapshot_times(state.snapshots))).reverse()
}

/// The list of snapshots goes from the newest to the oldest and names every snapshot of the
/// catalog, and no other.
pub proof fn snapshots_listed_newest_first(state: CatalogState)
    ensures
        snapshot_list(state).len() == state.snapshots.len(),
        forall|i: int, j: int|
            0 <= i < j < snapshot_list(state).len() ==> signed((#[trigger] snapshot_list(state)[i]).1)
                >= signed((#[trigger] snapshot_list(state)[j]).1),
        forall|id: Seq<char>, time: u64|
            snapshot_list(state).contains((id, time)) <==> exists|k: int|
                0 <= k < state.snapshots.len() && (#[trigger] state.snapshots[k]).id == id
                    && state.snapshots[k].timestamp == time,
{
    broadcast use vstd::seq_lib::group_to_multiset_ensures;

    let times = snapshot_times(state.snapshots);
    let up = sorted(times);
    let list = snapshot_list(state);
    sorted_is_sorted(times);
    assert forall|k: int| 0 <= k < up.len() implies (#[trigger] up[k]).0 == signed(up[k].1.1) by {
        assert(up.contains(up[k]));
        assert(up.to_multiset().count(up[k]) > 0);
        assert(times.to_multiset().count(up[k]) > 0);
        assert(times.contains(up[k]));
        let m = choose|m: int| 0 <= m < times.len() && times[m] == up[k];
    }
    assert forall|i: int, j: int| 0 <= i < j < list.len() implies signed((#[trigger] list[i]).1)
        >= signed((#[trigger] list[j]).1) by {
        let n = up.len();
        assert(list[i] == up[n - 1 - i].1);
        assert(list[j] == up[n - 1 - j].1);
        assert(up[n - 1 - j].0 <= up[n - 1 - i].0);
    }
    assert forall|id: Seq<char>, time: u64|
        list.contains((id, time)) <==> exists|k: int|
            0 <= k < state.snapshots.len() && (#[trigger] state.snapshots[k]).id == id
                && state.snapshots[k].timestamp == time by {
        let pair = (signed(time) as i64, (id, time));
        if list.contains((id, time)) {
            let i = choose|i: int| 0 <= i < list.len() && list[i] == (id, time);
            let k = up.len() - 1 - i;
            assert(up[k].1 == (id, time));
            assert(up.contains(up[k]));
            assert(up.to_multiset().count(up[k]) > 0);
            assert(times.to_multiset().count(up[k]) > 0);
            assert(times.contains(up[k]));
            let m = choose|m: int| 0 <= m < times.len() && times[m] == up[k];
            assert(state.snapshots[m].id == id);
        }
        if exists|k: int|
            0 <= k < state.snapshots.len() && (#[trigger] state.snapshots[k]).id == id
                && state.snapshots[k].timestamp == time {
            let k = choose|k: int|
                0 <= k < state.snapshots.len() && (#[trigger] state.snapshots[k]).id == id
                    && state.snapshots[k].timestamp == time;
            assert(times[k] == pair);
            assert(times.contains(pair));
            assert(times.to_multiset().count(pair) > 0);
            assert(up.to_multiset().count(pair) > 0);
            assert(up.contains(pair));
            let m = choose|m: int| 0 <= m < up.len() && up[m] == pair;
            assert(list[up.len() - 1 - m] == (id, time));
        }
    }
}

/// The entries of a directory in the order in which they were added.
pub open spec fn children(tree: Seq<TreeFact>, parent: i64) -> Seq<(i64, Seq<u8>)>
    decreases tree.len(),
{
    if tree.len() == 0 {
        Seq::empty()
    } else if tree.last().parent == parent {
        children(tree.drop_last(), parent).push((tree.last().child, tree.last().name))
    } else {
        children(tree.drop_last(), parent)
    }
}

/// The chunks of a file under their positions.
pub open spec fn file_list(rows: Seq<FileChunkFact>, file: i64) -> Seq<(i64, Seq<char>)>
    decreases rows.len(),
{
    if rows.len() == 0 {
        Seq::empty()
    } else if rows.last().file == file {
        file_list(rows.drop_last(), file).push((signed(rows.last().order) as i64, rows.last().hash))
    } else {
        file_list(rows.drop_last(), file)
    }
}

/// The chunks of a file in order.
pub open spec fn file_chunk_list(state: CatalogState, file: i64) -> Seq<Seq<char>> {
    items(sorted(file_list(state.file_chunks, file)))
}

/// The extents of an object under their indexes.
pub open spec fn extents_of(rows: Seq<ExtentFact>, object: i64) -> Seq<(i64, (u64, u64, u64))>
    decreases rows.len(),
{
    if rows.len() == 0 {
        Seq::empty()
    } else if rows.last().object == object {
        extents_of(rows.drop_last(), object).push(
            (
                signed(rows.last().idx) as i64,
                (rows.last().idx, rows.last().offset, rows.last().length),
            ),
        )
    } else {
        extents_of(rows.drop_last(), object)
    }
}

/// The extents of an object in order.
pub open spec fn extent_list(state: CatalogState, object: i64) -> Seq<(u64, u64, u64)> {
    items(sorted(extents_of(state.extents, object)))
}

/// The chunks of an extent under their indexes.
pub open spec fn extent_chunks_of(
    rows: Seq<ExtentChunkFact>,
    object: i64,
    extent_idx: u64,
) -> Seq<(i64, (u64, Seq<char>, u64, u64))>
    decreases rows.len(),
{
    if rows.len() == 0 {
        Seq::empty()
    } else if rows.last().object == object && rows.last().extent_idx == extent_idx {
        extent_chunks_of(rows.drop_last(), object, extent_idx).push(
            (
                signed(rows.last().chunk_idx) as i64,
                (
                    rows.last().chunk_idx,
                    rows.last().hash,
                    rows.last().rel_offset,
                    rows.last().length,
                ),
            ),
        )
    } else {
        extent_chunks_of(rows.drop_last(), object, extent_idx)
    }
}

/// The chunks of an extent in order.
pub open spec fn extent_chunk_list(
    state: CatalogState,
    object: i64,
    extent_idx: u64,
) -> Seq<(u64, Seq<char>, u64, u64)> {
    items(sorted(extent_chunks_of(state.extent_chunks, object, extent_idx)))
}

/// The extents of an object in order, with their chunks in order.
pub open spec fn layout_list(state: CatalogState, object: i64) -> Seq<ExtentLayout> {
    Seq::new(
        extent_list(state, object).len(),
        |i: int|
            ExtentLayout {
                extent_idx: extent_list(state, object)[i].0,
                offset: extent_list(state, object)[i].1,
                length: extent_list(state, object)[i].2,
                chunks: extent_chunk_list(state, object, extent_list(state, object)[i].0),
            },
    )
}

/// The hashes of all chunks.
pub open spec fn chunk_hashes(state: CatalogState) -> Seq<Seq<char>> {
    Seq::new(state.chunks.len(), |i: int| state.chunks[i].hash)
}

pub open spec fn other_chunk(hash: Seq<char>) -> spec_fn(ChunkFact) -> bool {
    |r: ChunkFact| r.hash != hash
}

pub open spec fn other_file_chunk(hash: Seq<char>) -> spec_fn(FileChunkFact) -> bool {
    |r: FileChunkFact| r.hash != hash
}

pub open spec fn other_extent_chunk(hash: Seq<char>) -> spec_fn(ExtentChunkFact) -> bool {
    |r: ExtentChunkFact| r.hash != hash
}

pub open spec fn other_snapshot(id: Seq<char>) -> spec_fn(SnapshotFact) -> bool {
    |r: SnapshotFact| r.id != id
}

/// All tables of the catalog.
#[verifier::ext_equal]
pub struct CatalogState {
    pub chunks: Seq<ChunkFact>,
    pub objects: Seq<ObjectFact>,
    pub tree: Seq<TreeFact>,
    pub file_chunks: Seq<FileChunkFact>,
    pub extents: Seq<ExtentFact>,
    pub extent_chunks: Seq<ExtentChunkFact>,
    pub snapshots: Seq<SnapshotFact>,
    /// The greatest object id given out so far.
    pub last_object_id: i64,
}

pub open spec fn chunk_key() -> spec_fn(ChunkFact) -> Seq<char> {
    |r: ChunkFact| r.hash
}

pub open spec fn object_key() -> spec_fn(ObjectFact) -> i64 {
    |r: ObjectFact| r.id
}

pub open spec fn tree_key() -> spec_fn(TreeFact) -> (i64, Seq<u8>) {
    |r: TreeFact| (r.parent, r.name)
}

pub open spec fn file_chunk_key() -> spec_fn(FileChunkFact) -> (i64, u64) {
    |r: FileChunkFact| (r.file, r.order)
}

pub open spec fn extent_key() -> spec_fn(ExtentFact) -> (i64, u64) {
    |r: ExtentFact| (r.object, r.idx)
}

pub open spec fn extent_chunk_key() -> spec_fn(ExtentChunkFact) -> (i64, u64, u64) {
    |r: ExtentChunkFact| (r.object, r.extent_idx, r.chunk_idx)
}

pub open spec fn snapshot_key() -> spec_fn(SnapshotFact) -> Seq<char> {
    |r: SnapshotFact| r.id
}

impl CatalogState {
    pub open spec fn has_chunk(self, hash: Seq<char>) -> bool {
        has_key(self.chunks, chunk_key(), hash)
    }

    pub open spec fn has_object(self, id: i64) -> bool {
        has_key(self.objects, object_key(), id)
    }

    pub open spec fn has_extent(self, object: i64, idx: u64) -> bool {
        has_key(self.extents, extent_key(), (object, idx))
    }

    pub open spec fn has_snapshot(self, id: Seq<char>) -> bool {
        has_key(self.snapshots, snapshot_key(), id)
    }

    /// The object of an id.
    pub open spec fn object(self, id: i64) -> ObjectFact {
        row_of(self.objects, object_key(), id)
    }

    /// Whether a file or an extent uses the chunk.
    pub open spec fn uses_chunk(self, hash: Seq<char>) -> bool {
        ||| exists|i: int| 0 <= i < self.file_chunks.len() && (#[trigger] self.file_chunks[i]).hash
            == hash
        ||| exists|i: int|
            0 <= i < self.extent_chunks.len() && (#[trigger] self.extent_chunks[i]).hash == hash
    }

    /// No key occurs twice in a table.
    pub open spec fn keys_unique(self) -> bool {
        &&& keyed(self.chunks, chunk_key())
        &&& keyed(self.objects, object_key())
        &&& keyed(self.tree, tree_key())
        &&& keyed(self.file_chunks, file_chunk_key())
        &&& keyed(self.extents, extent_key())
        &&& keyed(self.extent_chunks, extent_chunk_key())
        &&& keyed(self.snapshots, snapshot_key())
    }

    /// What a row refers to exists.
    pub open spec fn references_hold(self) -> bool {
        &&& forall|i: int|
            0 <= i < self.tree.len() ==> self.has_object((#[trigger] self.tree[i]).parent)
                && self.has_object(self.tree[i].child)
        &&& forall|i: int|
            0 <= i < self.file_chunks.len() ==> self.has_object(
                (#[trigger] self.file_chunks[i]).file,
            ) && self.has_chunk(self.file_chunks[i].hash)
        &&& forall|i: int|
            0 <= i < self.extents.len() ==> self.has_object((#[trigger] self.extents[i]).object)
        &&& forall|i: int|
            0 <= i < self.extent_chunks.len() ==> self.has_extent(
                (#[trigger] self.extent_chunks[i]).object,
                self.extent_chunks[i].extent_idx,
            ) && self.has_chunk(self.extent_chunks[i].hash)
        &&& forall|i: int|
            0 <= i < self.snapshots.len() ==> self.has_object((#[trigger] self.snapshots[i]).root)
    }

    /// No object has an id above the last one given out.
    pub open spec fn ids_bounded(self) -> bool {
        forall|i: int|
            0 <= i < self.objects.len() ==> (#[trigger] self.objects[i]).id <= self.last_object_id
    }

    pub open spec fn wf(self) -> bool {
        &&& self.keys_unique()
        &&& self.references_hold()
        &&& self.ids_bounded()
    }

    /// A catalog without rows.
    pub open spec fn blank() -> CatalogState {
        CatalogState {
            chunks: Seq::empty(),
            objects: Seq::empty(),
            tree: Seq::empty(),
            file_chunks: Seq::empty(),
            extents: Seq::empty(),
            extent_chunks: Seq::empty(),
            snapshots: Seq::empty(),
            last_object_id: 0,
        }
    }
}

/// The catalog of a repository.
pub struct CatalogIndex {
    chunks: Vec<ChunkRow>,
    objects: Vec<ObjectRow>,
    tree: Vec<TreeRow>,
    file_chunks: Vec<FileChunkRow>,
    extents: Vec<ExtentRow>,
    extent_chunks: Vec<ExtentChunkRow>,
    snapshots: Vec<SnapshotRow>,
    last_object_id: i64,
}

impl View for CatalogIndex {
    type V = CatalogState;

    closed spec fn view(&self) -> CatalogState {
        CatalogState {
            chunks: facts(self.chunks@),
            objects: facts(self.objects@),
            tree: facts(self.tree@),
            file_chunks: facts(self.file_chunks@),
            extents: facts(self.extents@),
            extent_chunks: facts(self.extent_chunks@),
            snapshots: facts(self.snapshots@),
            last_object_id: self.last_object_id,
        }
    }
}

// --- Rows that belong to objects -----------------------------------------------------------

/// A row that belongs to one or two objects.
trait Owned: View {
    /// The objects that a row belongs to; one of them twice where there is only one.
    spec fn owners_of(fact: Self::V) -> (i64, i64);

    fn owners(&self) -> (out: (i64, i64))
        ensures
            out == Self::owners_of(self@),
    ;
}

impl Owned for ObjectRow {
    closed spec fn owners_of(fact: ObjectFact) -> (i64, i64) {
        (fact.id, fact.id)
    }

    fn owners(&self) -> (out: (i64, i64)) {
        (self.id, self.id)
    }
}

impl Owned for TreeRow {
    closed spec fn owners_of(fact: TreeFact) -> (i64, i64) {
        (fact.parent, fact.child)
    }

    fn owners(&self) -> (out: (i64, i64)) {
        (self.parent, self.child)
    }
}

impl Owned for FileChunkRow {
    closed spec fn owners_of(fact: FileChunkFact) -> (i64, i64) {
        (fact.file, fact.file)
    }

    fn owners(&self) -> (out: (i64, i64)) {
        (self.file, self.file)
    }
}

impl Owned for ExtentRow {
    closed spec fn owners_of(fact: ExtentFact) -> (i64, i64) {
        (fact.object, fact.object)
    }

    fn owners(&self) -> (out: (i64, i64)) {
        (self.object, self.object)
    }
}

impl Owned for ExtentChunkRow {
    closed spec fn owners_of(fact: ExtentChunkFact) -> (i64, i64) {
        (fact.object, fact.object)
    }

    fn owners(&self) -> (out: (i64, i64)) {
        (self.object, self.object)
    }
}

/// The rows that belong to none of the objects.
spec fn unowned<T: Owned>(gone: Seq<i64>) -> spec_fn(T::V) -> bool {
    |fact: T::V| !gone.contains(T::owners_of(fact).0) && !gone.contains(T::owners_of(fact).1)
}

/// Takes the rows out that belong to one of the objects.
fn drop_owned<T: Owned>(rows: &mut Vec<T>, gone: &Vec<i64>)
    ensures
        facts(final(rows)@) == kept(facts(old(rows)@), unowned::<T>(gone@)),
{
    let mut rest: Vec<T> = Vec::new();
    let ghost all = rows@;
    let ghost cond = unowned::<T>(gone@);
    let ghost mut i: int = 0;
    std::mem::swap(&mut rest, rows);
    assert(facts(rows@) =~= kept(facts(all).take(0), cond));
    while rest.len() > 0
        invariant
            rest@ == all.skip(i as int),
            0 <= i <= all.len(),
            cond == unowned::<T>(gone@),
            facts(rows@) == kept(facts(all).take(i as int), cond),
        decreases rest@.len(),
    {
        let row = rest.remove(0);
        proof {
            assert(row == all[i as int]);
            assert(rest@ =~= all.skip(i as int + 1));
            kept_step(facts(all), cond, i as int);
            facts_push(rows@, row);
        }
        let (a, b) = row.owners();
        if !holds_id(gone, a) && !holds_id(gone, b) {
            rows.push(row);
        }
        proof {
            i = i + 1;
        }
    }
    assert(facts(all).take(i as int) =~= facts(all));
}

proof fn pushed_contains(list: Seq<i64>, x: i64)
    ensures
        forall|y: i64| #[trigger] list.push(x).contains(y) <==> list.contains(y) || y == x,
{
    assert forall|y: i64| #[trigger] list.push(x).contains(y) <==> list.contains(y) || y == x by {
        assert(list.push(x)[list.len() as int] == x);
        if list.contains(y) {
            let k = choose|k: int| 0 <= k < list.len() && list[k] == y;
            assert(list.push(x)[k] == y);
        }
        if list.push(x).contains(y) {
            let k = choose|k: int| 0 <= k < list.push(x).len() && list.push(x)[k] == y;
            if k < list.len() {
                assert(list[k] == y);
            }
        }
    }
}

fn database_error(m: &str) -> (out: LazarusError)
    ensures
        out is DatabaseError,
        out.detail() == m@,
{
    LazarusError::DatabaseError(copy_text(m))
}

impl CatalogIndex {
    pub open spec fn wf(&self) -> bool {
        self@.wf()
    }

    /// An empty catalog.
    pub fn new() -> (out: Self)
        ensures
            out.wf(),
            out@ == CatalogState::blank(),
    {
        let out = CatalogIndex {
            chunks: Vec::new(),
            objects: Vec::new(),
            tree: Vec::new(),
            file_chunks: Vec::new(),
            extents: Vec::new(),
            extent_chunks: Vec::new(),
            snapshots: Vec::new(),
            last_object_id: 0,
        };
        assert(out@ =~~= CatalogState::blank());
        out
    }

    fn find_chunk(&self, hash: &str) -> (out: Option<usize>)
        ensures
            out is Some <==> has_key(self@.chunks, chunk_key(), hash@),
            out matches Some(i) ==> i < self.chunks@.len() && chunk_key()(self@.chunks[i as int])
                == hash@,
    {
        let ghost k = hash@;
        let mut i: usize = 0;
        while i < self.chunks.len()
            invariant
                i <= self.chunks@.len(),
                k == hash@,
                forall|j: int| 0 <= j < i ==> chunk_key()(#[trigger] self@.chunks[j]) != k,
            decreases self.chunks@.len() - i,
        {
            let row = &self.chunks[i];
            assert(self@.chunks[i as int] == row@);
            if same_text(row.hash.as_str(), hash) {
                return Some(i);
            }
            i += 1;
        }
        assert(!has_key(self@.chunks, chunk_key(), k)) by {
            if has_key(self@.chunks, chunk_key(), k) {
                let j = choose|j: int|
                    0 <= j < self@.chunks.len() && chunk_key()(#[trigger] self@.chunks[j]) == k;
                assert(chunk_key()(self@.chunks[j]) != k);
            }
        }
        None
    }

    fn find_object(&self, id: i64) -> (out: Option<usize>)
        ensures
            out is Some <==> has_key(self@.objects, object_key(), id),
            out matches Some(i) ==> i < self.objects@.len() && object_key()(self@.objects[i as int])
                == id,
    {
        let ghost k = id;
        let mut i: usize = 0;
        while i < self.objects.len()
            invariant
                i <= self.objects@.len(),
                k == id,
                forall|j: int| 0 <= j < i ==> object_key()(#[trigger] self@.objects[j]) != k,
            decreases self.objects@.len() - i,
        {
            let row = &self.objects[i];
            assert(self@.objects[i as int] == row@);
            if row.id == id {
                return Some(i);
            }
            i += 1;
        }
        assert(!has_key(self@.objects, object_key(), k)) by {
            if has_key(self@.objects, object_key(), k) {
                let j = choose|j: int|
                    0 <= j < self@.objects.len() && object_key()(#[trigger] self@.objects[j]) == k;
                assert(object_key()(self@.objects[j]) != k);
            }
        }
        None
    }

    fn find_tree(&self, parent: i64, name: &[u8]) -> (out: Option<usize>)
        ensures
            out is Some <==> has_key(self@.tree, tree_key(), (parent, name@)),
            out matches Some(i) ==> i < self.tree@.len() && tree_key()(self@.tree[i as int])
                == (parent, name@),
    {
        let ghost k = (parent, name@);
        let mut i: usize = 0;
        while i < self.tree.len()
            invariant
                i <= self.tree@.len(),
                k == (parent, name@),
                forall|j: int| 0 <= j < i ==> tree_key()(#[trigger] self@.tree[j]) != k,
            decreases self.tree@.len() - i,
        {
            let row = &self.tree[i];
            assert(self@.tree[i as int] == row@);
            if row.parent == parent && same_bytes(row.name.as_slice(), name) {
                return Some(i);
            }
            i += 1;
        }
        assert(!has_key(self@.tree, tree_key(), k)) by {
            if has_key(self@.tree, tree_key(), k) {
                let j = choose|j: int|
                    0 <= j < self@.tree.len() && tree_key()(#[trigger] self@.tree[j]) == k;
                assert(tree_key()(self@.tree[j]) != k);
            }
        }
        None
    }

    fn find_file_chunk(&self, file: i64, order: u64) -> (out: Option<usize>)
        ensures
            out is Some <==> has_key(self@.file_chunks, file_chunk_key(), (file, order)),
            out matches Some(i) ==> i < self.file_chunks@.len() && file_chunk_key()(self@.file_chunks[i as int])
                == (file, order),
    {
        let ghost k = (file, order);
        let mut i: usize = 0;
        while i < self.file_chunks.len()
            invariant
                i <= self.file_chunks@.len(),
                k == (file, order),
                forall|j: int| 0 <= j < i ==> file_chunk_key()(#[trigger] self@.file_chunks[j]) != k,
            decreases self.file_chunks@.len() - i,
        {
            let row = &self.file_chunks[i];
            assert(self@.file_chunks[i as int] == row@);
            if row.file == file && row.order == order {
                return Some(i);
            }
            i += 1;
        }
        assert(!has_key(self@.file_chunks, file_chunk_key(), k)) by {
            if has_key(self@.file_chunks, file_chunk_key(), k) {
                let j = choose|j: int|
                    0 <= j < self@.file_chunks.len() && file_chunk_key()(#[trigger] self@.file_chunks[j]) == k;
                assert(file_chunk_key()(self@.file_chunks[j]) != k);
            }
        }
        None
    }

    fn find_extent(&self, object: i64, idx: u64) -> (out: Option<usize>)
        ensures
            out is Some <==> has_key(self@.extents, extent_key(), (object, idx)),
            out matches Some(i) ==> i < self.extents@.len() && extent_key()(self@.extents[i as int])
                == (object, idx),
    {
        let ghost k = (object, idx);
        let mut i: usize = 0;
        while i < self.extents.len()
            invariant
                i <= self.extents@.len(),
                k == (object, idx),
                forall|j: int| 0 <= j < i ==> extent_key()(#[trigger] self@.extents[j]) != k,
            decreases self.extents@.len() - i,
        {
            let row = &self.extents[i];
            assert(self@.extents[i as int] == row@);
            if row.object == object && row.idx == idx {
                return Some(i);
            }
            i += 1;
        }
        assert(!has_key(self@.extents, extent_key(), k)) by {
            if has_key(self@.extents, extent_key(), k) {
                let j = choose|j: int|
                    0 <= j < self@.extents.len() && extent_key()(#[trigger] self@.extents[j]) == k;
                assert(extent_key()(self@.extents[j]) != k);
            }
        }
        None
    }

    fn find_extent_chunk(&self, object: i64, extent_idx: u64, chunk_idx: u64) -> (out: Option<usize>)
        ensures
            out is Some <==> has_key(self@.extent_chunks, extent_chunk_key(), (object, extent_idx, chunk_idx)),
            out matches Some(i) ==> i < self.extent_chunks@.len() && extent_chunk_key()(self@.extent_chunks[i as int])
                == (object, extent_idx, chunk_idx),
    {
        let ghost k = (object, extent_idx, chunk_idx);
        let mut i: usize = 0;
        while i < self.extent_chunks.len()
            invariant
                i <= self.extent_chunks@.len(),
                k == (object, extent_idx, chunk_idx),
                forall|j: int| 0 <= j < i ==> extent_chunk_key()(#[trigger] self@.extent_chunks[j]) != k,
            decreases self.extent_chunks@.len() - i,
        {
            let row = &self.extent_chunks[i];
            assert(self@.extent_chunks[i as int] == row@);
            if row.object == object && row.extent_idx == extent_idx && row.chunk_idx == chunk_idx {
                return Some(i);
            }
            i += 1;
        }
        assert(!has_key(self@.extent_chunks, extent_chunk_key(), k)) by {
            if has_key(self@.extent_chunks, extent_chunk_key(), k) {
                let j = choose|j: int|
                    0 <= j < self@.extent_chunks.len() && extent_chunk_key()(#[trigger] self@.extent_chunks[j]) == k;
                assert(extent_chunk_key()(self@.extent_chunks[j]) != k);
            }
        }
        None
    }

    fn find_snapshot(&self, id: &str) -> (out: Option<usize>)
        ensures
            out is Some <==> has_key(self@.snapshots, snapshot_key(), id@),
            out matches Some(i) ==> i < self.snapshots@.len() && snapshot_key()(self@.snapshots[i as int])
                == id@,
    {
        let ghost k = id@;
        let mut i: usize = 0;
        while i < self.snapshots.len()
            invariant
                i <= self.snapshots@.len(),
                k == id@,
                forall|j: int| 0 <= j < i ==> snapshot_key()(#[trigger] self@.snapshots[j]) != k,
            decreases self.snapshots@.len() - i,
        {
            let row = &self.snapshots[i];
            assert(self@.snapshots[i as int] == row@);
            if same_text(row.id.as_str(), id) {
                return Some(i);
            }
            i += 1;
        }
        assert(!has_key(self@.snapshots, snapshot_key(), k)) by {
            if has_key(self@.snapshots, snapshot_key(), k) {
                let j = choose|j: int|
                    0 <= j < self@.snapshots.len() && snapshot_key()(#[trigger] self@.snapshots[j]) == k;
                assert(snapshot_key()(self@.snapshots[j]) != k);
            }
        }
        None
    }

    /// Adds a chunk; nothing changes where it is known already.
    pub fn upsert_chunk(&mut self, hash: &str, stored_size: usize, uncompressed_size: usize)
        requires
            old(self).wf(),
        ensures
            final(self).wf(),
            final(self)@ == (if old(self)@.has_chunk(hash@) {
                old(self)@
            } else {
                CatalogState {
                    chunks: old(self)@.chunks.push(
                        ChunkFact {
                            hash: hash@,
                            stored_size: stored_size as u64,
                            uncompressed_size: uncompressed_size as u64,
                        },
                    ),
                    ..old(self)@
                }
            }),
    {
        if self.find_chunk(hash).is_none() {
            let ghost before = self@;
            let row = ChunkRow {
                hash: copy_text(hash),
                stored_size: stored_size as u64,
                uncompressed_size: uncompressed_size as u64,
            };
            proof {
                facts_push(self.chunks@, row);
                keyed_push(before.chunks, chunk_key(), row@);
            }
            self.chunks.push(row);
            proof {
                assert forall|h: Seq<char>| before.has_chunk(h) implies self@.has_chunk(h) by {
                    has_key_push(before.chunks, chunk_key(), row@, h);
                }
                assert(self@.references_hold());
            }
        }
    }

    pub fn chunk_exists(&self, hash: &str) -> (out: bool)
        ensures
            out == self@.has_chunk(hash@),
    {
        self.find_chunk(hash).is_some()
    }

    /// Adds an object under the next free id.
    pub fn create_object(&mut self, obj_type: ObjectType, encrypted_metadata: &[u8]) -> (out: Result<
        i64,
        LazarusError,
    >)
        requires
            old(self).wf(),
        ensures
            final(self).wf(),
            out is Ok <==> old(self)@.last_object_id < i64::MAX,
            match out {
                Ok(id) => {
                    &&& id == old(self)@.last_object_id + 1
                    &&& !old(self)@.has_object(id)
                    &&& final(self)@ == (CatalogState {
                        objects: old(self)@.objects.push(
                            ObjectFact { id, kind: obj_type, metadata: encrypted_metadata@ },
                        ),
                        last_object_id: id,
                        ..old(self)@
                    })
                },
                Err(e) => {
                    &&& e is DatabaseError
                    &&& e.detail() == "database or disk is full"@
                    &&& final(self)@ == old(self)@
                },
            },
    {
        if self.last_object_id == i64::MAX {
            return Err(database_error("database or disk is full"));
        }
        let id: i64 = self.last_object_id + 1;
        proof {
            if self@.has_object(id) {
                let j = choose|j: int|
                    0 <= j < self@.objects.len() && object_key()(#[trigger] self@.objects[j]) == id;
                assert(self@.objects[j].id <= self@.last_object_id);
            }
        }
        self.add_object(id, obj_type, encrypted_metadata);
        Ok(id)
    }

    fn add_object(&mut self, id: i64, obj_type: ObjectType, encrypted_metadata: &[u8])
        requires
            old(self).wf(),
            !old(self)@.has_object(id),
        ensures
            final(self).wf(),
            final(self)@ == (CatalogState {
                objects: old(self)@.objects.push(
                    ObjectFact { id, kind: obj_type, metadata: encrypted_metadata@ },
                ),
                last_object_id: if id > old(self)@.last_object_id {
                    id
                } else {
                    old(self)@.last_object_id
                },
                ..old(self)@
            }),
    {
        let ghost before = self@;
        let row = ObjectRow {
            id,
            kind: obj_type,
            metadata: vstd::slice::slice_to_vec(encrypted_metadata),
        };
        proof {
            facts_push(self.objects@, row);
            keyed_push(before.objects, object_key(), row@);
        }
        self.objects.push(row);
        if id > self.last_object_id {
            self.last_object_id = id;
        }
        proof {
            assert forall|x: i64| before.has_object(x) implies self@.has_object(x) by {
                has_key_push(before.objects, object_key(), row@, x);
            }
            assert(self@.references_hold());
            assert(self@.ids_bounded()) by {
                assert forall|i: int| 0 <= i < self@.objects.len() implies (
                #[trigger] self@.objects[i]).id <= self@.last_object_id by {
                    if i < before.objects.len() {
                        assert(self@.objects[i] == before.objects[i]);
                    }
                }
            }
        }
    }

    /// Adds an object under a given id, as it was stored before.
    pub fn restore_object(
        &mut self,
        id: i64,
        obj_type: ObjectType,
        encrypted_metadata: &[u8],
    ) -> (out: Result<(), LazarusError>)
        requires
            old(self).wf(),
        ensures
            final(self).wf(),
            out is Err <==> old(self)@.has_object(id),
            match out {
                Ok(_) => final(self)@ == (CatalogState {
                    objects: old(self)@.objects.push(
                        ObjectFact { id, kind: obj_type, metadata: encrypted_metadata@ },
                    ),
                    last_object_id: if id > old(self)@.last_object_id {
                        id
                    } else {
                        old(self)@.last_object_id
                    },
                    ..old(self)@
                }),
                Err(e) => {
                    &&& e is DatabaseError
                    &&& e.detail() == "UNIQUE constraint failed: Objects.object_id"@
                    &&& final(self)@ == old(self)@
                },
            },
    {
        if self.find_object(id).is_some() {
            return Err(database_error("UNIQUE constraint failed: Objects.object_id"));
        }
        self.add_object(id, obj_type, encrypted_metadata);
        Ok(())
    }

    /// Puts an object into a directory under an encrypted name.
    pub fn add_tree_entry(
        &mut self,
        parent_id: i64,
        child_id: i64,
        encrypted_name: &[u8],
    ) -> (out: Result<(), LazarusError>)
        requires
            old(self).wf(),
        ensures
            final(self).wf(),
            out is Ok <==> !has_key(old(self)@.tree, tree_key(), (parent_id, encrypted_name@)) && old(self)@.has_object(parent_id) && old(
                self,
            )@.has_object(child_id),
            match out {
                Ok(_) => final(self)@ == (CatalogState {
                    tree: old(self)@.tree.push(
                        TreeFact { parent: parent_id, child: child_id, name: encrypted_name@ },
                    ),
                    ..old(self)@
                }),
                Err(e) => {
                    &&& e is DatabaseError
                    &&& e.detail() == if has_key(old(self)@.tree, tree_key(), (parent_id, encrypted_name@)) {
                        "UNIQUE constraint failed: Tree.parent_object_id, Tree.encrypted_name"@
                    } else {
                        "FOREIGN KEY constraint failed"@
                    }
                    &&& final(self)@ == old(self)@
                },
            },
    {
        if self.find_tree(parent_id, encrypted_name).is_some() {
            return Err(
                database_error("UNIQUE constraint failed: Tree.parent_object_id, Tree.encrypted_name"),
            );
        }
        if self.find_object(parent_id).is_none() || self.find_object(child_id).is_none() {
            return Err(database_error("FOREIGN KEY constraint failed"));
        }
        let ghost before = self@;
        let row = TreeRow {
            parent: parent_id,
            child: child_id,
            name: vstd::slice::slice_to_vec(encrypted_name),
        };
        proof {
            facts_push(self.tree@, row);
            keyed_push(before.tree, tree_key(), row@);
        }
        self.tree.push(row);
        proof {
            assert(self@.references_hold()) by {
                assert forall|i: int| 0 <= i < self@.tree.len() implies self@.has_object((#[trigger] self@.tree[i]).parent) && self@.has_object(
                    self@.tree[i].child,
                ) by {
                    if i < before.tree.len() {
                        assert(self@.tree[i] == before.tree[i]);
                    }
                }
            }
        }
        Ok(())
    }

    /// Adds a chunk to a file at a position.
    pub fn add_file_chunk(
        &mut self,
        file_id: i64,
        chunk_hash: &str,
        order: usize,
    ) -> (out: Result<(), LazarusError>)
        requires
            old(self).wf(),
        ensures
            final(self).wf(),
            out is Ok <==> !has_key(old(self)@.file_chunks, file_chunk_key(), (file_id, order as u64)) && old(self)@.has_object(file_id) && old(
                self,
            )@.has_chunk(chunk_hash@),
            match out {
                Ok(_) => final(self)@ == (CatalogState {
                    file_chunks: old(self)@.file_chunks.push(
                        FileChunkFact { file: file_id, hash: chunk_hash@, order: order as u64 },
                    ),
                    ..old(self)@
                }),
                Err(e) => {
                    &&& e is DatabaseError
                    &&& e.detail() == if has_key(old(self)@.file_chunks, file_chunk_key(), (file_id, order as u64)) {
                        "UNIQUE constraint failed: FileChunks.file_object_id, FileChunks.chunk_order"@
                    } else {
                        "FOREIGN KEY constraint failed"@
                    }
                    &&& final(self)@ == old(self)@
                },
            },
    {
        if self.find_file_chunk(file_id, order as u64).is_some() {
            return Err(
                database_error("UNIQUE constraint failed: FileChunks.file_object_id, FileChunks.chunk_order"),
            );
        }
        if self.find_object(file_id).is_none() || self.find_chunk(chunk_hash).is_none() {
            return Err(database_error("FOREIGN KEY constraint failed"));
        }
        let ghost before = self@;
        let row = FileChunkRow { file: file_id, hash: copy_text(chunk_hash), order: order as u64 };
        proof {
            facts_push(self.file_chunks@, row);
            keyed_push(before.file_chunks, file_chunk_key(), row@);
        }
        self.file_chunks.push(row);
        proof {
            assert(self@.references_hold()) by {
                assert forall|i: int| 0 <= i < self@.file_chunks.len() implies self@.has_object((#[trigger] self@.file_chunks[i]).file) && self@.has_chunk(
                    self@.file_chunks[i].hash,
                ) by {
                    if i < before.file_chunks.len() {
                        assert(self@.file_chunks[i] == before.file_chunks[i]);
                    }
                }
            }
        }
        Ok(())
    }

    /// Adds an extent to a block device.
    pub fn add_block_extent(
        &mut self,
        object_id: i64,
        extent_idx: u64,
        offset: u64,
        length: u64,
    ) -> (out: Result<(), LazarusError>)
        requires
            old(self).wf(),
        ensures
            final(self).wf(),
            out is Ok <==> !has_key(old(self)@.extents, extent_key(), (object_id, extent_idx)) && old(self)@.has_object(object_id),
            match out {
                Ok(_) => final(self)@ == (CatalogState {
                    extents: old(self)@.extents.push(
                        ExtentFact { object: object_id, idx: extent_idx, offset, length },
                    ),
                    ..old(self)@
                }),
                Err(e) => {
                    &&& e is DatabaseError
                    &&& e.detail() == if has_key(old(self)@.extents, extent_key(), (object_id, extent_idx)) {
                        "UNIQUE constraint failed: BlockExtents.object_id, BlockExtents.extent_idx"@
                    } else {
                        "FOREIGN KEY constraint failed"@
                    }
                    &&& final(self)@ == old(self)@
                },
            },
    {
        if self.find_extent(object_id, extent_idx).is_some() {
            return Err(
                database_error("UNIQUE constraint failed: BlockExtents.object_id, BlockExtents.extent_idx"),
            );
        }
        if self.find_object(object_id).is_none() {
            return Err(database_error("FOREIGN KEY constraint failed"));
        }
        let ghost before = self@;
        let row = ExtentRow { object: object_id, idx: extent_idx, offset, length };
        proof {
            facts_push(self.extents@, row);
            keyed_push(before.extents, extent_key(), row@);
        }
        self.extents.push(row);
        proof {
            assert forall|o: i64, x: u64| before.has_extent(o, x) implies self@.has_extent(
                o,
                x,
            ) by {
                has_key_push(before.extents, extent_key(), row@, (o, x));
            }
            assert(self@.references_hold()) by {
                assert forall|i: int| 0 <= i < self@.extents.len() implies self@.has_object((#[trigger] self@.extents[i]).object) by {
                    if i < before.extents.len() {
                        assert(self@.extents[i] == before.extents[i]);
                    }
                }
            }
        }
        Ok(())
    }

    /// Adds a chunk to an extent of a block device.
    pub fn add_block_extent_chunk(
        &mut self,
        object_id: i64,
        extent_idx: u64,
        chunk_idx: u64,
        chunk_hash: &str,
        rel_offset: u64,
        length: u64,
    ) -> (out: Result<(), LazarusError>)
        requires
            old(self).wf(),
        ensures
            final(self).wf(),
            out is Ok <==> !has_key(old(self)@.extent_chunks, extent_chunk_key(), (object_id, extent_idx, chunk_idx)) && old(self)@.has_extent(object_id, extent_idx) && old(
                self,
            )@.has_chunk(chunk_hash@),
            match out {
                Ok(_) => final(self)@ == (CatalogState {
                    extent_chunks: old(self)@.extent_chunks.push(
                        ExtentChunkFact {
                            object: object_id,
                            extent_idx,
                            chunk_idx,
                            hash: chunk_hash@,
                            rel_offset,
                            length,
                        },
                    ),
                    ..old(self)@
                }),
                Err(e) => {
                    &&& e is DatabaseError
                    &&& e.detail() == if has_key(old(self)@.extent_chunks, extent_chunk_key(), (object_id, extent_idx, chunk_idx)) {
                        "UNIQUE constraint failed: BlockExtentChunks.object_id, BlockExtentChunks.extent_idx, BlockExtentChunks.chunk_idx"@
                    } else {
                        "FOREIGN KEY constraint failed"@
                    }
                    &&& final(self)@ == old(self)@
                },
            },
    {
        if self.find_extent_chunk(object_id, extent_idx, chunk_idx).is_some() {
            return Err(
                database_error("UNIQUE constraint failed: BlockExtentChunks.object_id, BlockExtentChunks.extent_idx, BlockExtentChunks.chunk_idx"),
            );
        }
        if self.find_extent(object_id, extent_idx).is_none() || self.find_chunk(chunk_hash).is_none() {
            return Err(database_error("FOREIGN KEY constraint failed"));
        }
        let ghost before = self@;
        let row = ExtentChunkRow {
            object: object_id,
            extent_idx,
            chunk_idx,
            hash: copy_text(chunk_hash),
            rel_offset,
            length,
        };
        proof {
            facts_push(self.extent_chunks@, row);
            keyed_push(before.extent_chunks, extent_chunk_key(), row@);
        }
        self.extent_chunks.push(row);
        proof {
            assert(self@.references_hold()) by {
                assert forall|i: int| 0 <= i < self@.extent_chunks.len() implies self@.has_extent(
                    (#[trigger] self@.extent_chunks[i]).object,
                    self@.extent_chunks[i].extent_idx,
                ) && self@.has_chunk(self@.extent_chunks[i].hash) by {
                    if i < before.extent_chunks.len() {
                        assert(self@.extent_chunks[i] == before.extent_chunks[i]);
                    }
                }
            }
        }
        Ok(())
    }

    /// Adds a snapshot.
    pub fn create_snapshot(
        &mut self,
        snapshot_id: &str,
        timestamp: u64,
        root_object_id: i64,
        encrypted_metadata: &[u8],
    ) -> (out: Result<(), LazarusError>)
        requires
            old(self).wf(),
        ensures
            final(self).wf(),
            out is Ok <==> !has_key(old(self)@.snapshots, snapshot_key(), snapshot_id@) && old(self)@.has_object(root_object_id),
            match out {
                Ok(_) => final(self)@ == (CatalogState {
                    snapshots: old(self)@.snapshots.push(
                        SnapshotFact {
                            id: snapshot_id@,
                            timestamp,
                            root: root_object_id,
                            metadata: encrypted_metadata@,
                        },
                    ),
                    ..old(self)@
                }),
                Err(e) => {
                    &&& e is DatabaseError
                    &&& e.detail() == if has_key(old(self)@.snapshots, snapshot_key(), snapshot_id@) {
                        "UNIQUE constraint failed: Snapshots.snapshot_id"@
                    } else {
                        "FOREIGN KEY constraint failed"@
                    }
                    &&& final(self)@ == old(self)@
                },
            },
    {
        if self.find_snapshot(snapshot_id).is_some() {
            return Err(
                database_error("UNIQUE constraint failed: Snapshots.snapshot_id"),
            );
        }
        if self.find_object(root_object_id).is_none() {
            return Err(database_error("FOREIGN KEY constraint failed"));
        }
        let ghost before = self@;
        let row = SnapshotRow {
            id: copy_text(snapshot_id),
            timestamp,
            root: root_object_id,
            metadata: vstd::slice::slice_to_vec(encrypted_metadata),
        };
        proof {
            facts_push(self.snapshots@, row);
            keyed_push(before.snapshots, snapshot_key(), row@);
        }
        self.snapshots.push(row);
        proof {
            assert(self@.references_hold()) by {
                assert forall|i: int| 0 <= i < self@.snapshots.len() implies self@.has_object((#[trigger] self@.snapshots[i]).root) by {
                    if i < before.snapshots.len() {
                        assert(self@.snapshots[i] == before.snapshots[i]);
                    }
                }
            }
        }
        Ok(())
    }

    /// All snapshots with their times, the newest first.
    pub fn list_snapshots(&self) -> (out: Vec<(String, u64)>)
        ensures
            facts(out@) == snapshot_list(self@),
    {
        let mut list: Vec<(i64, (String, u64))> = Vec::new();
        let mut i: usize = 0;
        assert(keyed_facts(list@) =~= Seq::<(i64, (Seq<char>, u64))>::empty());
        while i < self.snapshots.len()
            invariant
                i <= self.snapshots@.len(),
                keyed_facts(list@) == sorted(snapshot_times(self@.snapshots.take(i as int))),
            decreases self.snapshots@.len() - i,
        {
            let row = &self.snapshots[i];
            let item = (copy_text(row.id.as_str()), row.timestamp);
            let key = as_signed(row.timestamp);
            proof {
                let front = self@.snapshots.take(i as int);
                let next = self@.snapshots.take(i as int + 1);
                assert(next.last() == row@);
                assert(snapshot_times(next) =~= snapshot_times(front).push((key, item@)));
                sorted_push(snapshot_times(front), key, item@);
            }
            insert_by_key(&mut list, key, item);
            i += 1;
        }
        assert(self@.snapshots.take(i as int) =~= self@.snapshots);
        strip_keys_reversed(list)
    }

    /// The root object and the encrypted metadata of a snapshot.
    pub fn get_snapshot(&self, snapshot_id: &str) -> (out: Option<(i64, Vec<u8>)>)
        requires
            self.wf(),
        ensures
            out is Some <==> self@.has_snapshot(snapshot_id@),
            out matches Some((root, metadata)) ==> {
                let row = row_of(self@.snapshots, snapshot_key(), snapshot_id@);
                root == row.root && metadata@ == row.metadata
            },
    {
        match self.find_snapshot(snapshot_id) {
            None => None,
            Some(i) => {
                proof {
                    row_of_unique(self@.snapshots, snapshot_key(), i as int);
                }
                let row = &self.snapshots[i];
                Some((row.root, vstd::slice::slice_to_vec(row.metadata.as_slice())))
            },
        }
    }

    /// The type and the encrypted metadata of an object.
    pub fn get_object(&self, object_id: i64) -> (out: Option<(ObjectType, Vec<u8>)>)
        requires
            self.wf(),
        ensures
            out is Some <==> self@.has_object(object_id),
            out matches Some((kind, metadata)) ==> {
                let row = self@.object(object_id);
                kind == row.kind && metadata@ == row.metadata
            },
    {
        match self.find_object(object_id) {
            None => None,
            Some(i) => {
                proof {
                    row_of_unique(self@.objects, object_key(), i as int);
                }
                let row = &self.objects[i];
                Some((row.kind, vstd::slice::slice_to_vec(row.metadata.as_slice())))
            },
        }
    }

    /// The entries of a directory with their encrypted names.
    pub fn get_tree_children(&self, parent_id: i64) -> (out: Vec<(i64, Vec<u8>)>)
        ensures
            facts(out@) == children(self@.tree, parent_id),
    {
        let mut out: Vec<(i64, Vec<u8>)> = Vec::new();
        let mut i: usize = 0;
        assert(facts(out@) =~= children(self@.tree.take(0), parent_id));
        while i < self.tree.len()
            invariant
                i <= self.tree@.len(),
                facts(out@) == children(self@.tree.take(i as int), parent_id),
            decreases self.tree@.len() - i,
        {
            let row = &self.tree[i];
            proof {
                let next = self@.tree.take(i as int + 1);
                assert(next.drop_last() =~= self@.tree.take(i as int));
                assert(next.last() == row@);
            }
            if row.parent == parent_id {
                let item = (row.child, vstd::slice::slice_to_vec(row.name.as_slice()));
                proof {
                    facts_push(out@, item);
                }
                out.push(item);
            }
            i += 1;
        }
        assert(self@.tree.take(i as int) =~= self@.tree);
        out
    }

    /// The chunks of a file, in order.
    pub fn get_file_chunks(&self, file_id: i64) -> (out: Vec<String>)
        ensures
            texts(out@) == file_chunk_list(self@, file_id),
    {
        let mut list: Vec<(i64, String)> = Vec::new();
        let mut i: usize = 0;
        assert(keyed_facts(list@) =~= sorted(file_list(self@.file_chunks.take(0), file_id)));
        while i < self.file_chunks.len()
            invariant
                i <= self.file_chunks@.len(),
                keyed_facts(list@) == sorted(
                    file_list(self@.file_chunks.take(i as int), file_id),
                ),
            decreases self.file_chunks@.len() - i,
        {
            let row = &self.file_chunks[i];
            proof {
                let next = self@.file_chunks.take(i as int + 1);
                assert(next.drop_last() =~= self@.file_chunks.take(i as int));
                assert(next.last() == row@);
            }
            if row.file == file_id {
                let key = as_signed(row.order);
                proof {
                    sorted_push(
                        file_list(self@.file_chunks.take(i as int), file_id),
                        key,
                        row.hash@,
                    );
                }
                insert_by_key(&mut list, key, copy_text(row.hash.as_str()));
            }
            i += 1;
        }
        assert(self@.file_chunks.take(i as int) =~= self@.file_chunks);
        let out = strip_keys(list);
        assert(texts(out@) =~= facts(out@));
        out
    }

    /// The extents of a block device as index, offset and length, in the order of the indexes.
    pub fn get_block_extents(&self, object_id: i64) -> (out: Vec<(u64, u64, u64)>)
        ensures
            out@ == extent_list(self@, object_id),
    {
        let mut list: Vec<(i64, (u64, u64, u64))> = Vec::new();
        let mut i: usize = 0;
        assert(keyed_facts(list@) =~= sorted(extents_of(self@.extents.take(0), object_id)));
        while i < self.extents.len()
            invariant
                i <= self.extents@.len(),
                keyed_facts(list@) == sorted(extents_of(self@.extents.take(i as int), object_id)),
            decreases self.extents@.len() - i,
        {
            let row = &self.extents[i];
            proof {
                let next = self@.extents.take(i as int + 1);
                assert(next.drop_last() =~= self@.extents.take(i as int));
                assert(next.last() == row@);
            }
            if row.object == object_id {
                let key = as_signed(row.idx);
                let item = (row.idx, row.offset, row.length);
                proof {
                    sorted_push(extents_of(self@.extents.take(i as int), object_id), key, item@);
                }
                insert_by_key(&mut list, key, item);
            }
            i += 1;
        }
        assert(self@.extents.take(i as int) =~= self@.extents);
        let out = strip_keys(list);
        assert(out@ =~= facts(out@));
        out
    }

    /// The chunks of an extent as index, hash, offset in the extent and length, in the order of
    /// the indexes.
    pub fn get_block_extent_chunks(&self, object_id: i64, extent_idx: u64) -> (out: Vec<
        (u64, String, u64, u64),
    >)
        ensures
            facts(out@) == extent_chunk_list(self@, object_id, extent_idx),
    {
        let mut list: Vec<(i64, (u64, String, u64, u64))> = Vec::new();
        let mut i: usize = 0;
        assert(keyed_facts(list@) =~= sorted(
            extent_chunks_of(self@.extent_chunks.take(0), object_id, extent_idx),
        ));
        while i < self.extent_chunks.len()
            invariant
                i <= self.extent_chunks@.len(),
                keyed_facts(list@) == sorted(
                    extent_chunks_of(self@.extent_chunks.take(i as int), object_id, extent_idx),
                ),
            decreases self.extent_chunks@.len() - i,
        {
            let row = &self.extent_chunks[i];
            proof {
                let next = self@.extent_chunks.take(i as int + 1);
                assert(next.drop_last() =~= self@.extent_chunks.take(i as int));
                assert(next.last() == row@);
            }
            if row.object == object_id && row.extent_idx == extent_idx {
                let key = as_signed(row.chunk_idx);
                let item = (row.chunk_idx, copy_text(row.hash.as_str()), row.rel_offset, row.length);
                proof {
                    sorted_push(
                        extent_chunks_of(
                            self@.extent_chunks.take(i as int),
                            object_id,
                            extent_idx,
                        ),
                        key,
                        item@,
                    );
                }
                insert_by_key(&mut list, key, item);
            }
            i += 1;
        }
        assert(self@.extent_chunks.take(i as int) =~= self@.extent_chunks);
        strip_keys(list)
    }

    /// The extents of a block device with their chunks.
    pub fn get_block_layout(&self, object_id: i64) -> (out: BlockLayout)
        ensures
            out.object_id == object_id,
            facts(out.extents@) == layout_list(self@, object_id),
    {
        let listed = self.get_block_extents(object_id);
        let mut extents: Vec<BlockExtent> = Vec::new();
        let mut i: usize = 0;
        while i < listed.len()
            invariant
                i <= listed@.len(),
                listed@ == extent_list(self@, object_id),
                extents@.len() == i,
                forall|k: int|
                    0 <= k < i ==> (#[trigger] extents@[k])@ == layout_list(self@, object_id)[k],
            decreases listed@.len() - i,
        {
            let (extent_idx, offset, length) = listed[i];
            let rows = self.get_block_extent_chunks(object_id, extent_idx);
            let mut chunks: Vec<BlockExtentChunk> = Vec::new();
            let mut j: usize = 0;
            while j < rows.len()
                invariant
                    j <= rows@.len(),
                    chunks@.len() == j,
                    forall|k: int| 0 <= k < j ==> (#[trigger] chunks@[k])@ == rows@[k]@,
                decreases rows@.len() - j,
            {
                let row = &rows[j];
                chunks.push(
                    BlockExtentChunk {
                        chunk_idx: row.0,
                        hash: copy_text(row.1.as_str()),
                        rel_offset: row.2,
                        length: row.3,
                    },
                );
                j += 1;
            }
            assert(facts(chunks@) =~= facts(rows@));
            extents.push(BlockExtent { extent_idx, offset, length, chunks });
            i += 1;
        }
        assert(facts(extents@) =~= layout_list(self@, object_id));
        BlockLayout { object_id, extents }
    }

    /// The numbers of chunks, objects and snapshots.
    pub fn get_stats(&self) -> (out: (usize, usize, usize))
        ensures
            out.0 == self@.chunks.len(),
            out.1 == self@.objects.len(),
            out.2 == self@.snapshots.len(),
    {
        (self.chunks.len(), self.objects.len(), self.snapshots.len())
    }

    /// The hashes of all chunks.
    pub fn list_all_chunk_hashes(&self) -> (out: Vec<String>)
        ensures
            texts(out@) == chunk_hashes(self@),
    {
        let mut out: Vec<String> = Vec::new();
        let mut i: usize = 0;
        while i < self.chunks.len()
            invariant
                i <= self.chunks@.len(),
                out@.len() == i,
                forall|k: int| 0 <= k < i ==> (#[trigger] out@[k])@ == chunk_hashes(self@)[k],
            decreases self.chunks@.len() - i,
        {
            out.push(copy_text(self.chunks[i].hash.as_str()));
            i += 1;
        }
        assert(texts(out@) =~= chunk_hashes(self@));
        out
    }

    /// Takes a chunk out of all files and extents.
    pub fn delete_file_chunks_by_hash(&mut self, hash: &str)
        requires
            old(self).wf(),
        ensures
            final(self).wf(),
            final(self)@ == (CatalogState {
                file_chunks: kept(old(self)@.file_chunks, other_file_chunk(hash@)),
                extent_chunks: kept(old(self)@.extent_chunks, other_extent_chunk(hash@)),
                ..old(self)@
            }),
            !final(self)@.uses_chunk(hash@),
    {
        let ghost before = self@;
        let mut rest: Vec<FileChunkRow> = Vec::new();
        let ghost mut i: int = 0;
        let ghost all = self.file_chunks@;
        std::mem::swap(&mut rest, &mut self.file_chunks);
        assert(facts(self.file_chunks@) =~= kept(facts(all).take(0), other_file_chunk(hash@)));
        while rest.len() > 0
            invariant
                rest@ == all.skip(i as int),
                0 <= i <= all.len(),
                facts(self.file_chunks@) == kept(facts(all).take(i as int), other_file_chunk(hash@)),
                facts(self.chunks@) == before.chunks,
                facts(self.objects@) == before.objects,
                facts(self.tree@) == before.tree,
                facts(self.extents@) == before.extents,
                facts(self.extent_chunks@) == before.extent_chunks,
                facts(self.snapshots@) == before.snapshots,
                self.last_object_id == before.last_object_id,
            decreases rest@.len(),
        {
            let row = rest.remove(0);
            proof {
                assert(row == all[i as int]);
                assert(rest@ =~= all.skip(i as int + 1));
                kept_step(facts(all), other_file_chunk(hash@), i as int);
                facts_push(self.file_chunks@, row);
            }
            if !same_text(row.hash.as_str(), hash) {
                self.file_chunks.push(row);
            }
            proof {
                i = i + 1;
            }
        }
        assert(facts(all).take(i as int) =~= facts(all));
        let mut rest2: Vec<ExtentChunkRow> = Vec::new();
        let ghost mut k: int = 0;
        let ghost all2 = self.extent_chunks@;
        std::mem::swap(&mut rest2, &mut self.extent_chunks);
        assert(facts(self.extent_chunks@) =~= kept(facts(all2).take(0), other_extent_chunk(hash@)));
        while rest2.len() > 0
            invariant
                rest2@ == all2.skip(k as int),
                0 <= k <= all2.len(),
                facts(self.extent_chunks@) == kept(facts(all2).take(k as int), other_extent_chunk(hash@)),
                facts(self.chunks@) == before.chunks,
                facts(self.objects@) == before.objects,
                facts(self.tree@) == before.tree,
                facts(self.extents@) == before.extents,
                facts(self.snapshots@) == before.snapshots,
                self.last_object_id == before.last_object_id,
                facts(self.file_chunks@) == kept(before.file_chunks, other_file_chunk(hash@)),
            decreases rest2@.len(),
        {
            let row = rest2.remove(0);
            proof {
                assert(row == all2[k as int]);
                assert(rest2@ =~= all2.skip(k as int + 1));
                kept_step(facts(all2), other_extent_chunk(hash@), k as int);
                facts_push(self.extent_chunks@, row);
            }
            if !same_text(row.hash.as_str(), hash) {
                self.extent_chunks.push(row);
            }
            proof {
                k = k + 1;
            }
        }
        assert(facts(all2).take(k as int) =~= facts(all2));
        proof {
            kept_keyed(before.file_chunks, other_file_chunk(hash@), file_chunk_key());
            kept_keyed(before.extent_chunks, other_extent_chunk(hash@), extent_chunk_key());
            assert(self@.references_hold()) by {
                assert forall|k: int| 0 <= k < self@.file_chunks.len() implies self@.has_object(
                    (#[trigger] self@.file_chunks[k]).file,
                ) && self@.has_chunk(self@.file_chunks[k].hash) by {
                    let row = self@.file_chunks[k];
                    kept_contains(before.file_chunks, other_file_chunk(hash@), row);
                    assert(self@.file_chunks.contains(row));
                    let m = choose|m: int|
                        0 <= m < before.file_chunks.len() && before.file_chunks[m] == row;
                    assert(before.has_object(before.file_chunks[m].file));
                }
                assert forall|k: int| 0 <= k < self@.extent_chunks.len() implies self@.has_extent(
                    (#[trigger] self@.extent_chunks[k]).object,
                    self@.extent_chunks[k].extent_idx,
                ) && self@.has_chunk(self@.extent_chunks[k].hash) by {
                    let row = self@.extent_chunks[k];
                    kept_contains(before.extent_chunks, other_extent_chunk(hash@), row);
                    assert(self@.extent_chunks.contains(row));
                    let m = choose|m: int|
                        0 <= m < before.extent_chunks.len() && before.extent_chunks[m] == row;
                    assert(before.has_extent(
                        before.extent_chunks[m].object,
                        before.extent_chunks[m].extent_idx,
                    ));
                }
            }
            if self@.uses_chunk(hash@) {
                if exists|k: int|
                    0 <= k < self@.file_chunks.len() && (#[trigger] self@.file_chunks[k]).hash
                        == hash@ {
                    let k = choose|k: int|
                        0 <= k < self@.file_chunks.len() && (#[trigger] self@.file_chunks[k]).hash
                            == hash@;
                    kept_contains(
                        before.file_chunks,
                        other_file_chunk(hash@),
                        self@.file_chunks[k],
                    );
                    assert(self@.file_chunks.contains(self@.file_chunks[k]));
                } else {
                    let k = choose|k: int|
                        0 <= k < self@.extent_chunks.len() && (
                        #[trigger] self@.extent_chunks[k]).hash == hash@;
                    kept_contains(
                        before.extent_chunks,
                        other_extent_chunk(hash@),
                        self@.extent_chunks[k],
                    );
                    assert(self@.extent_chunks.contains(self@.extent_chunks[k]));
                }
            }
        }
    }

    fn in_use(&self, hash: &str) -> (out: bool)
        ensures
            out == self@.uses_chunk(hash@),
    {
        let mut i: usize = 0;
        while i < self.file_chunks.len()
            invariant
                i <= self.file_chunks@.len(),
                forall|k: int| 0 <= k < i ==> (#[trigger] self@.file_chunks[k]).hash != hash@,
            decreases self.file_chunks@.len() - i,
        {
            assert(self@.file_chunks[i as int] == self.file_chunks@[i as int]@);
            if same_text(self.file_chunks[i].hash.as_str(), hash) {
                return true;
            }
            i += 1;
        }
        let mut j: usize = 0;
        while j < self.extent_chunks.len()
            invariant
                j <= self.extent_chunks@.len(),
                forall|k: int| 0 <= k < j ==> (#[trigger] self@.extent_chunks[k]).hash != hash@,
            decreases self.extent_chunks@.len() - j,
        {
            assert(self@.extent_chunks[j as int] == self.extent_chunks@[j as int]@);
            if same_text(self.extent_chunks[j].hash.as_str(), hash) {
                return true;
            }
            j += 1;
        }
        false
    }

    /// Takes a chunk out of the catalog. It fails while a file or an extent uses the chunk.
    pub fn delete_chunk(&mut self, hash: &str) -> (out: Result<(), LazarusError>)
        requires
            old(self).wf(),
        ensures
            final(self).wf(),
            out is Err <==> old(self)@.has_chunk(hash@) && old(self)@.uses_chunk(hash@),
            match out {
                Ok(_) => {
                    &&& final(self)@ == (CatalogState {
                        chunks: kept(old(self)@.chunks, other_chunk(hash@)),
                        ..old(self)@
                    })
                    &&& !final(self)@.has_chunk(hash@)
                },
                Err(e) => {
                    &&& e is DatabaseError
                    &&& e.detail() == "FOREIGN KEY constraint failed"@
                    &&& final(self)@ == old(self)@
                },
            },
    {
        if self.find_chunk(hash).is_some() && self.in_use(hash) {
            return Err(database_error("FOREIGN KEY constraint failed"));
        }
        let ghost before = self@;
        let mut rest: Vec<ChunkRow> = Vec::new();
        let ghost mut i: int = 0;
        let ghost all = self.chunks@;
        std::mem::swap(&mut rest, &mut self.chunks);
        assert(facts(self.chunks@) =~= kept(facts(all).take(0), other_chunk(hash@)));
        while rest.len() > 0
            invariant
                rest@ == all.skip(i as int),
                0 <= i <= all.len(),
                facts(self.chunks@) == kept(facts(all).take(i as int), other_chunk(hash@)),
                facts(self.objects@) == before.objects,
                facts(self.tree@) == before.tree,
                facts(self.file_chunks@) == before.file_chunks,
                facts(self.extents@) == before.extents,
                facts(self.extent_chunks@) == before.extent_chunks,
                facts(self.snapshots@) == before.snapshots,
                self.last_object_id == before.last_object_id,
            decreases rest@.len(),
        {
            let row = rest.remove(0);
            proof {
                assert(row == all[i as int]);
                assert(rest@ =~= all.skip(i as int + 1));
                kept_step(facts(all), other_chunk(hash@), i as int);
                facts_push(self.chunks@, row);
            }
            if !same_text(row.hash.as_str(), hash) {
                self.chunks.push(row);
            }
            proof {
                i = i + 1;
            }
        }
        assert(facts(all).take(i as int) =~= facts(all));
        proof {
            kept_keyed(before.chunks, other_chunk(hash@), chunk_key());
            if self@.has_chunk(hash@) {
                let k = choose|k: int|
                    0 <= k < self@.chunks.len() && chunk_key()(#[trigger] self@.chunks[k]) == hash@;
                kept_contains(before.chunks, other_chunk(hash@), self@.chunks[k]);
                assert(self@.chunks.contains(self@.chunks[k]));
            }
            assert forall|h: Seq<char>| before.has_chunk(h) && h != hash@ implies self@.has_chunk(
                h,
            ) by {
                let k = choose|k: int|
                    0 <= k < before.chunks.len() && chunk_key()(#[trigger] before.chunks[k]) == h;
                kept_contains(before.chunks, other_chunk(hash@), before.chunks[k]);
                assert(before.chunks.contains(before.chunks[k]));
                let m = choose|m: int|
                    0 <= m < self@.chunks.len() && self@.chunks[m] == before.chunks[k];
                assert(chunk_key()(self@.chunks[m]) == h);
            }
            assert(self@.references_hold()) by {
                assert forall|k: int| 0 <= k < self@.file_chunks.len() implies self@.has_object(
                    (#[trigger] self@.file_chunks[k]).file,
                ) && self@.has_chunk(self@.file_chunks[k].hash) by {
                    assert(before.has_chunk(before.file_chunks[k].hash));
                }
                assert forall|k: int| 0 <= k < self@.extent_chunks.len() implies self@.has_extent(
                    (#[trigger] self@.extent_chunks[k]).object,
                    self@.extent_chunks[k].extent_idx,
                ) && self@.has_chunk(self@.extent_chunks[k].hash) by {
                    assert(before.has_chunk(before.extent_chunks[k].hash));
                }
            }
        }
        Ok(())
    }

    /// The objects that go with a snapshot.
    fn objects_alone(&self, snapshot_id: &str) -> (gone: Vec<i64>)
        requires
            self.wf(),
        ensures
            forall|x: i64| #[trigger] gone@.contains(x) <==> goes_with(self@, snapshot_id@, x),
    {
        let mut own: Vec<i64> = Vec::new();
        let mut others: Vec<i64> = Vec::new();
        let ghost id = snapshot_id@;
        let mut i: usize = 0;
        while i < self.snapshots.len()
            invariant
                i <= self.snapshots@.len(),
                id == snapshot_id@,
                forall|x: i64| #[trigger]
                    own@.contains(x) <==> exists|k: int|
                        0 <= k < i && (#[trigger] self@.snapshots[k]).id == id
                            && self@.snapshots[k].root == x,
                forall|x: i64| #[trigger]
                    others@.contains(x) <==> exists|k: int|
                        0 <= k < i && (#[trigger] self@.snapshots[k]).id != id
                            && self@.snapshots[k].root == x,
            decreases self.snapshots@.len() - i,
        {
            let row = &self.snapshots[i];
            let ghost before_own = own@;
            let ghost before_others = others@;
            assert(self@.snapshots[i as int] == row@);
            if same_text(row.id.as_str(), snapshot_id) {
                own.push(row.root);
                proof {
                    pushed_contains(before_own, row.root);
                }
            } else {
                others.push(row.root);
                proof {
                    pushed_contains(before_others, row.root);
                }
            }
            i += 1;
        }
        let mine = reachable_objects(self, &own);
        let shared = reachable_objects(self, &others);
        let mut gone: Vec<i64> = Vec::new();
        let mut j: usize = 0;
        assert(mine@.take(0) =~= Seq::<i64>::empty());
        while j < mine.len()
            invariant
                j <= mine@.len(),
                forall|x: i64| #[trigger]
                    gone@.contains(x) <==> mine@.take(j as int).contains(x) && !shared@.contains(x),
            decreases mine@.len() - j,
        {
            let x = mine[j];
            let ghost before_gone = gone@;
            proof {
                assert(mine@.take(j as int + 1) =~= mine@.take(j as int).push(x));
                pushed_contains(mine@.take(j as int), x);
                pushed_contains(before_gone, x);
            }
            if !holds_id(&shared, x) {
                gone.push(x);
            }
            j += 1;
        }
        proof {
            assert(mine@.take(j as int) =~= mine@);
            assert forall|x: i64| #[trigger] gone@.contains(x) <==> goes_with(self@, id, x) by {
                assert(reachable_from(self@, own@, x) <==> held_by(self@, id, x)) by {
                    if reachable_from(self@, own@, x) {
                        let k = choose|k: int|
                            0 <= k < own@.len() && reachable(self@, #[trigger] own@[k], x);
                        assert(own@.contains(own@[k]));
                    }
                    if held_by(self@, id, x) {
                        let k = choose|k: int|
                            0 <= k < self@.snapshots.len() && (#[trigger] self@.snapshots[k]).id
                                == id && reachable(self@, self@.snapshots[k].root, x);
                        assert(own@.contains(self@.snapshots[k].root));
                        let m = choose|m: int|
                            0 <= m < own@.len() && own@[m] == self@.snapshots[k].root;
                        assert(reachable(self@, own@[m], x));
                    }
                }
                assert(reachable_from(self@, others@, x) <==> held_by_others(self@, id, x)) by {
                    if reachable_from(self@, others@, x) {
                        let k = choose|k: int|
                            0 <= k < others@.len() && reachable(self@, #[trigger] others@[k], x);
                        assert(others@.contains(others@[k]));
                    }
                    if held_by_others(self@, id, x) {
                        let k = choose|k: int|
                            0 <= k < self@.snapshots.len() && (#[trigger] self@.snapshots[k]).id
                                != id && reachable(self@, self@.snapshots[k].root, x);
                        assert(others@.contains(self@.snapshots[k].root));
                        let m = choose|m: int|
                            0 <= m < others@.len() && others@[m] == self@.snapshots[k].root;
                        assert(reachable(self@, others@[m], x));
                    }
                }
            }
        }
        gone
    }

    /// Takes a snapshot out of the catalog, and with it the objects that no other snapshot leads
    /// to.
    pub fn delete_snapshot(&mut self, snapshot_id: &str)
        requires
            old(self).wf(),
        ensures
            final(self).wf(),
            final(self)@ == without_snapshot(old(self)@, snapshot_id@),
            !final(self)@.has_snapshot(snapshot_id@),
    {
        let gone = self.objects_alone(snapshot_id);
        let ghost before = self@;
        let ghost id = snapshot_id@;
        proof {
            removal_keeps_the_rules(before, id);
            kept_agree(before.objects, unowned::<ObjectRow>(gone@), staying_object(before, id));
            kept_agree(before.tree, unowned::<TreeRow>(gone@), staying_entry(before, id));
            kept_agree(
                before.file_chunks,
                unowned::<FileChunkRow>(gone@),
                staying_file_chunk(before, id),
            );
            kept_agree(before.extents, unowned::<ExtentRow>(gone@), staying_extent(before, id));
            kept_agree(
                before.extent_chunks,
                unowned::<ExtentChunkRow>(gone@),
                staying_extent_chunk(before, id),
            );
        }
        drop_owned(&mut self.objects, &gone);
        drop_owned(&mut self.tree, &gone);
        drop_owned(&mut self.file_chunks, &gone);
        drop_owned(&mut self.extents, &gone);
        drop_owned(&mut self.extent_chunks, &gone);
        let mut rest: Vec<SnapshotRow> = Vec::new();
        let ghost mut i: int = 0;
        let ghost all = self.snapshots@;
        let ghost after = without_snapshot(before, id);
        std::mem::swap(&mut rest, &mut self.snapshots);
        assert(facts(self.snapshots@) =~= kept(facts(all).take(0), other_snapshot(snapshot_id@)));
        while rest.len() > 0
            invariant
                rest@ == all.skip(i as int),
                0 <= i <= all.len(),
                facts(self.snapshots@) == kept(facts(all).take(i as int), other_snapshot(snapshot_id@)),
                facts(self.chunks@) == after.chunks,
                facts(self.objects@) == after.objects,
                facts(self.tree@) == after.tree,
                facts(self.file_chunks@) == after.file_chunks,
                facts(self.extents@) == after.extents,
                facts(self.extent_chunks@) == after.extent_chunks,
                self.last_object_id == after.last_object_id,
            decreases rest@.len(),
        {
            let row = rest.remove(0);
            proof {
                assert(row == all[i as int]);
                assert(rest@ =~= all.skip(i as int + 1));
                kept_step(facts(all), other_snapshot(snapshot_id@), i as int);
                facts_push(self.snapshots@, row);
            }
            if !same_text(row.id.as_str(), snapshot_id) {
                self.snapshots.push(row);
            }
            proof {
                i = i + 1;
            }
        }
        assert(facts(all).take(i as int) =~= facts(all));
        assert(self@ =~= after);
    }
}

/// The numbers that stand for the types in a database.
pub proof fn types_have_numbers(kind: ObjectType)
    ensures
        kind.number() == 0 <==> kind == ObjectType::File,
        kind.number() == 1 <==> kind == ObjectType::Directory,
        kind.number() == 2 <==> kind == ObjectType::BlockDevice,
        kind.number() == 3 <==> kind == ObjectType::SystemFingerprint,
{
}

/// A directory has the entries that were added to it, in that order.
pub proof fn entries_are_listed_as_added(tree: Seq<TreeFact>, row: TreeFact, parent: i64)
    ensures
        children(Seq::empty(), parent) == Seq::<(i64, Seq<u8>)>::empty(),
        row.parent == parent ==> children(tree.push(row), parent) == children(tree, parent).push(
            (row.child, row.name),
        ),
        row.parent != parent ==> children(tree.push(row), parent) == children(tree, parent),
{
    assert(tree.push(row).drop_last() =~= tree);
}

/// What the catalog has is a row with that key.
pub proof fn rows_have_keys(state: CatalogState, hash: Seq<char>, id: i64, name: Seq<char>)
    ensures
        state.has_chunk(hash) <==> exists|i: int|
            0 <= i < state.chunks.len() && (#[trigger] state.chunks[i]).hash == hash,
        state.has_object(id) <==> exists|i: int|
            0 <= i < state.objects.len() && (#[trigger] state.objects[i]).id == id,
        state.has_snapshot(name) <==> exists|i: int|
            0 <= i < state.snapshots.len() && (#[trigger] state.snapshots[i]).id == name,
        state.has_object(id) ==> state.object(id).id == id && state.objects.contains(
            state.object(id),
        ),
{
    if exists|i: int| 0 <= i < state.chunks.len() && (#[trigger] state.chunks[i]).hash == hash {
        let i = choose|i: int|
            0 <= i < state.chunks.len() && (#[trigger] state.chunks[i]).hash == hash;
        assert(chunk_key()(state.chunks[i]) == hash);
    }
    if exists|i: int| 0 <= i < state.objects.len() && (#[trigger] state.objects[i]).id == id {
        let i = choose|i: int|
            0 <= i < state.objects.len() && (#[trigger] state.objects[i]).id == id;
        assert(object_key()(state.objects[i]) == id);
    }
    if exists|i: int| 0 <= i < state.snapshots.len() && (#[trigger] state.snapshots[i]).id == name {
        let i = choose|i: int|
            0 <= i < state.snapshots.len() && (#[trigger] state.snapshots[i]).id == name;
        assert(snapshot_key()(state.snapshots[i]) == name);
    }
    if state.has_object(id) {
        let i = choose|i: int|
            0 <= i < state.objects.len() && object_key()(#[trigger] state.objects[i]) == id;
        assert(object_key()(state.objects[i]) == id);
    }
}

/// The tables of a well-formed catalog hold together: no two rows of a table have the same key,
/// and what a row refers to is there.
pub proof fn catalogs_hold_together(state: CatalogState)
    requires
        state.wf(),
    ensures
        forall|i: int, j: int|
            0 <= i < j < state.chunks.len() ==> (#[trigger] state.chunks[i]).hash != (
            #[trigger] state.chunks[j]).hash,
        forall|i: int, j: int|
            0 <= i < j < state.objects.len() ==> (#[trigger] state.objects[i]).id != (
            #[trigger] state.objects[j]).id,
        forall|i: int, j: int|
            0 <= i < j < state.snapshots.len() ==> (#[trigger] state.snapshots[i]).id != (
            #[trigger] state.snapshots[j]).id,
        forall|i: int, j: int|
            0 <= i < j < state.tree.len() ==> (#[trigger] state.tree[i]).parent != (
            #[trigger] state.tree[j]).parent || state.tree[i].name != state.tree[j].name,
        forall|i: int, j: int|
            0 <= i < j < state.file_chunks.len() ==> (#[trigger] state.file_chunks[i]).file != (
            #[trigger] state.file_chunks[j]).file || state.file_chunks[i].order
                != state.file_chunks[j].order,
        forall|i: int|
            0 <= i < state.file_chunks.len() ==> state.has_chunk(
                (#[trigger] state.file_chunks[i]).hash,
            ) && state.has_object(state.file_chunks[i].file),
        forall|i: int|
            0 <= i < state.extent_chunks.len() ==> state.has_chunk(
                (#[trigger] state.extent_chunks[i]).hash,
            ),
        forall|i: int|
            0 <= i < state.tree.len() ==> state.has_object((#[trigger] state.tree[i]).parent)
                && state.has_object(state.tree[i].child),
        forall|i: int|
            0 <= i < state.snapshots.len() ==> state.has_object((#[trigger] state.snapshots[i]).root),
{
    assert forall|i: int, j: int| 0 <= i < j < state.chunks.len() implies (
    #[trigger] state.chunks[i]).hash != (#[trigger] state.chunks[j]).hash by {
        assert(chunk_key()(state.chunks[i]) != chunk_key()(state.chunks[j]));
    }
    assert forall|i: int, j: int| 0 <= i < j < state.objects.len() implies (
    #[trigger] state.objects[i]).id != (#[trigger] state.objects[j]).id by {
        assert(object_key()(state.objects[i]) != object_key()(state.objects[j]));
    }
    assert forall|i: int, j: int| 0 <= i < j < state.snapshots.len() implies (
    #[trigger] state.snapshots[i]).id != (#[trigger] state.snapshots[j]).id by {
        assert(snapshot_key()(state.snapshots[i]) != snapshot_key()(state.snapshots[j]));
    }
    assert forall|i: int, j: int| 0 <= i < j < state.tree.len() implies (
    #[trigger] state.tree[i]).parent != (#[trigger] state.tree[j]).parent || state.tree[i].name
        != state.tree[j].name by {
        assert(tree_key()(state.tree[i]) != tree_key()(state.tree[j]));
    }
    assert forall|i: int, j: int| 0 <= i < j < state.file_chunks.len() implies (
    #[trigger] state.file_chunks[i]).file != (#[trigger] state.file_chunks[j]).file
        || state.file_chunks[i].order != state.file_chunks[j].order by {
        assert(file_chunk_key()(state.file_chunks[i]) != file_chunk_key()(state.file_chunks[j]));
    }
}

/// A chunk is in use where a file or an extent has it.
pub proof fn chunks_are_used_by_files_and_extents(state: CatalogState, i: int)
    ensures
        0 <= i < state.file_chunks.len() ==> state.uses_chunk(state.file_chunks[i].hash),
        0 <= i < state.extent_chunks.len() ==> state.uses_chunk(state.extent_chunks[i].hash),
        forall|hash: Seq<char>| #[trigger]
            state.uses_chunk(hash) ==> (exists|j: int|
                0 <= j < state.file_chunks.len() && (#[trigger] state.file_chunks[j]).hash == hash)
                || (exists|j: int|
                0 <= j < state.extent_chunks.len() && (#[trigger] state.extent_chunks[j]).hash
                    == hash),
{
}

/// The chunks of an extent belong to an extent that is there, and no object has a number above the
/// last that was given.
pub proof fn extents_and_numbers_hold(state: CatalogState, i: int)
    requires
        state.wf(),
    ensures
        0 <= i < state.extent_chunks.len() ==> exists|j: int|
            0 <= j < state.extents.len() && (#[trigger] state.extents[j]).object
                == state.extent_chunks[i].object && state.extents[j].idx
                == state.extent_chunks[i].extent_idx,
        0 <= i < state.objects.len() ==> state.objects[i].id <= state.last_object_id,
{
    if 0 <= i < state.extent_chunks.len() {
        let c = state.extent_chunks[i];
        assert(state.has_extent(c.object, c.extent_idx));
        let j = choose|j: int|
            0 <= j < state.extents.len() && extent_key()(#[trigger] state.extents[j]) == (
                c.object,
                c.extent_idx,
            );
        assert(state.extents[j].object == c.object);
    }
}

} // verus!
