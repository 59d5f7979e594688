//! What leaves the catalog with a snapshot, and what stays.
use crate::catalog::index::children;
use crate::catalog::index::extent_chunk_key;
use crate::catalog::index::extent_chunk_list;
use crate::catalog::index::extent_chunks_of;
use crate::catalog::index::extent_key;
use crate::catalog::index::extent_list;
use crate::catalog::index::extents_of;
use crate::catalog::index::file_chunk_key;
use crate::catalog::index::file_chunk_list;
use crate::catalog::index::file_list;
use crate::catalog::index::layout_list;
use crate::catalog::index::object_key;
use crate::catalog::index::other_snapshot;
use crate::catalog::index::snapshot_key;
use crate::catalog::index::tree_key;
use crate::catalog::index::CatalogState;
use crate::catalog::index::ExtentChunkFact;
use crate::catalog::index::ExtentFact;
use crate::catalog::index::FileChunkFact;
use crate::catalog::index::ObjectFact;
use crate::catalog::index::ObjectType;
use crate::catalog::index::SnapshotFact;
use crate::catalog::index::TreeFact;
use crate::catalog::rows::kept;
use crate::catalog::rows::kept_contains;
use crate::catalog::rows::kept_has_key;
use crate::catalog::rows::kept_keyed;
use crate::catalog::rows::row_of_unique;
use crate::catalog::walk::edge;
use crate::catalog::walk::is_path;
use crate::catalog::walk::reachable;
use crate::catalog::walk::root_reachable;
use crate::catalog::walk::step_reachable;
use vstd::prelude::*;

verus! {

/// Whether the snapshot with the given id leads to an object.
pub open spec fn held_by(state: CatalogState, id: Seq<char>, x: i64) -> bool {
    exists|i: int|
        0 <= i < state.snapshots.len() && (#[trigger] state.snapshots[i]).id == id && reachable(
            state,
            state.snapshots[i].root,
            x,
        )
}

/// Whether a snapshot with another id leads to an object.
pub open spec fn held_by_others(state: CatalogState, id: Seq<char>, x: i64) -> bool {
    exists|i: int|
        0 <= i < state.snapshots.len() && (#[trigger] state.snapshots[i]).id != id && reachable(
            state,
            state.snapshots[i].root,
            x,
        )
}

/// Whether an object leaves the catalog with a snapshot: that snapshot leads to it, and no other
/// one does.
pub open spec fn goes_with(state: CatalogState, id: Seq<char>, x: i64) -> bool {
    held_by(state, id, x) && !held_by_others(state, id, x)
}

pub open spec fn staying_object(state: CatalogState, id: Seq<char>) -> spec_fn(ObjectFact) -> bool {
    |r: ObjectFact| !goes_with(state, id, r.id)
}

pub open spec fn staying_entry(state: CatalogState, id: Seq<char>) -> spec_fn(TreeFact) -> bool {
    |r: TreeFact| !goes_with(state, id, r.parent) && !goes_with(state, id, r.child)
}

pub open spec fn staying_file_chunk(state: CatalogState, id: Seq<char>) -> spec_fn(
    FileChunkFact,
) -> bool {
    |r: FileChunkFact| !goes_with(state, id, r.file)
}

pub open spec fn staying_extent(state: CatalogState, id: Seq<char>) -> spec_fn(ExtentFact) -> bool {
    |r: ExtentFact| !goes_with(state, id, r.object)
}

pub open spec fn staying_extent_chunk(state: CatalogState, id: Seq<char>) -> spec_fn(
    ExtentChunkFact,
) -> bool {
    |r: ExtentChunkFact| !goes_with(state, id, r.object)
}

/// The catalog without a snapshot and without the objects that go with it: their entries, the
/// chunks of their files and their extents go too. The chunks themselves stay.
pub open spec fn without_snapshot(state: CatalogState, id: Seq<char>) -> CatalogState {
    CatalogState {
        chunks: state.chunks,
        objects: kept(state.objects, staying_object(state, id)),
        tree: kept(state.tree, staying_entry(state, id)),
        file_chunks: kept(state.file_chunks, staying_file_chunk(state, id)),
        extents: kept(state.extents, staying_extent(state, id)),
        extent_chunks: kept(state.extent_chunks, staying_extent_chunk(state, id)),
        snapshots: kept(state.snapshots, other_snapshot(id)),
        last_object_id: state.last_object_id,
    }
}

/// The catalog without several snapshots, taken out one after the other.
pub open spec fn without_snapshots(state: CatalogState, ids: Seq<Seq<char>>) -> CatalogState
    decreases ids.len(),
{
    if ids.len() == 0 {
        state
    } else {
        without_snapshot(without_snapshots(state, ids.drop_last()), ids.last())
    }
}

proof fn object_stays(state: CatalogState, id: Seq<char>, x: i64)
    requires
        state.wf(),
        state.has_object(x),
        !goes_with(state, id, x),
    ensures
        without_snapshot(state, id).has_object(x),
        without_snapshot(state, id).object(x) == state.object(x),
{
    let i = choose|i: int|
        0 <= i < state.objects.len() && object_key()(#[trigger] state.objects[i]) == x;
    row_of_unique(state.objects, object_key(), i);
    kept_has_key(state.objects, staying_object(state, id), object_key(), i);
}

/// An object that went is in no table any more.
pub proof fn what_goes_is_gone(state: CatalogState, id: Seq<char>, x: i64)
    requires
        goes_with(state, id, x),
    ensures
        ({
            let after = without_snapshot(state, id);
            &&& !after.has_object(x)
            &&& forall|i: int|
                0 <= i < after.tree.len() ==> (#[trigger] after.tree[i]).parent != x
                    && after.tree[i].child != x
            &&& forall|i: int|
                0 <= i < after.file_chunks.len() ==> (#[trigger] after.file_chunks[i]).file != x
            &&& forall|i: int|
                0 <= i < after.extents.len() ==> (#[trigger] after.extents[i]).object != x
            &&& forall|i: int|
                0 <= i < after.extent_chunks.len() ==> (#[trigger] after.extent_chunks[i]).object
                    != x
        }),
{
    let after = without_snapshot(state, id);
    if after.has_object(x) {
        let i = choose|i: int|
            0 <= i < after.objects.len() && object_key()(#[trigger] after.objects[i]) == x;
        assert(after.objects.contains(after.objects[i]));
        kept_contains(state.objects, staying_object(state, id), after.objects[i]);
    }
    assert forall|i: int| 0 <= i < after.tree.len() implies (#[trigger] after.tree[i]).parent != x
        && after.tree[i].child != x by {
        assert(after.tree.contains(after.tree[i]));
        kept_contains(state.tree, staying_entry(state, id), after.tree[i]);
    }
    assert forall|i: int| 0 <= i < after.file_chunks.len() implies (
    #[trigger] after.file_chunks[i]).file != x by {
        assert(after.file_chunks.contains(after.file_chunks[i]));
        kept_contains(state.file_chunks, staying_file_chunk(state, id), after.file_chunks[i]);
    }
    assert forall|i: int| 0 <= i < after.extents.len() implies (#[trigger] after.extents[i]).object
        != x by {
        assert(after.extents.contains(after.extents[i]));
        kept_contains(state.extents, staying_extent(state, id), after.extents[i]);
    }
    assert forall|i: int| 0 <= i < after.extent_chunks.len() implies (
    #[trigger] after.extent_chunks[i]).object != x by {
        assert(after.extent_chunks.contains(after.extent_chunks[i]));
        kept_contains(state.extent_chunks, staying_extent_chunk(state, id), after.extent_chunks[i]);
    }
}

/// A catalog without a snapshot still keeps the rules of its tables.
pub proof fn removal_keeps_the_rules(state: CatalogState, id: Seq<char>)
    requires
        state.wf(),
    ensures
        without_snapshot(state, id).wf(),
        !without_snapshot(state, id).has_snapshot(id),
{
    let after = without_snapshot(state, id);
    kept_keyed(state.objects, staying_object(state, id), object_key());
    kept_keyed(state.tree, staying_entry(state, id), tree_key());
    kept_keyed(state.file_chunks, staying_file_chunk(state, id), file_chunk_key());
    kept_keyed(state.extents, staying_extent(state, id), extent_key());
    kept_keyed(state.extent_chunks, staying_extent_chunk(state, id), extent_chunk_key());
    kept_keyed(state.snapshots, other_snapshot(id), snapshot_key());
    assert forall|i: int| 0 <= i < after.tree.len() implies after.has_object(
        (#[trigger] after.tree[i]).parent,
    ) && after.has_object(after.tree[i].child) by {
        let row = after.tree[i];
        assert(after.tree.contains(row));
        kept_contains(state.tree, staying_entry(state, id), row);
        let j = choose|j: int| 0 <= j < state.tree.len() && state.tree[j] == row;
        assert(state.has_object(state.tree[j].parent) && state.has_object(state.tree[j].child));
        object_stays(state, id, row.parent);
        object_stays(state, id, row.child);
    }
    assert forall|i: int| 0 <= i < after.file_chunks.len() implies after.has_object(
        (#[trigger] after.file_chunks[i]).file,
    ) && after.has_chunk(after.file_chunks[i].hash) by {
        let row = after.file_chunks[i];
        assert(after.file_chunks.contains(row));
        kept_contains(state.file_chunks, staying_file_chunk(state, id), row);
        let j = choose|j: int| 0 <= j < state.file_chunks.len() && state.file_chunks[j] == row;
        assert(state.has_object(state.file_chunks[j].file));
        object_stays(state, id, row.file);
    }
    assert forall|i: int| 0 <= i < after.extents.len() implies after.has_object(
        (#[trigger] after.extents[i]).object,
    ) by {
        let row = after.extents[i];
        assert(after.extents.contains(row));
        kept_contains(state.extents, staying_extent(state, id), row);
        let j = choose|j: int| 0 <= j < state.extents.len() && state.extents[j] == row;
        assert(state.has_object(state.extents[j].object));
        object_stays(state, id, row.object);
    }
    assert forall|i: int| 0 <= i < after.extent_chunks.len() implies after.has_extent(
        (#[trigger] after.extent_chunks[i]).object,
        after.extent_chunks[i].extent_idx,
    ) && after.has_chunk(after.extent_chunks[i].hash) by {
        let row = after.extent_chunks[i];
        assert(after.extent_chunks.contains(row));
        kept_contains(state.extent_chunks, staying_extent_chunk(state, id), row);
        let j = choose|j: int| 0 <= j < state.extent_chunks.len() && state.extent_chunks[j] == row;
        assert(state.has_extent(
            state.extent_chunks[j].object,
            state.extent_chunks[j].extent_idx,
        ));
        let e = choose|e: int|
            0 <= e < state.extents.len() && extent_key()(#[trigger] state.extents[e]) == (
                row.object,
                row.extent_idx,
            );
        kept_has_key(state.extents, staying_extent(state, id), extent_key(), e);
    }
    assert forall|i: int| 0 <= i < after.snapshots.len() implies after.has_object(
        (#[trigger] after.snapshots[i]).root,
    ) by {
        let row = after.snapshots[i];
        assert(after.snapshots.contains(row));
        kept_contains(state.snapshots, other_snapshot(id), row);
        let j = choose|j: int| 0 <= j < state.snapshots.len() && state.snapshots[j] == row;
        assert(state.has_object(state.snapshots[j].root));
        root_reachable(state, row.root);
        object_stays(state, id, row.root);
    }
    assert forall|i: int| 0 <= i < after.objects.len() implies (#[trigger] after.objects[i]).id
        <= after.last_object_id by {
        let row = after.objects[i];
        assert(after.objects.contains(row));
        kept_contains(state.objects, staying_object(state, id), row);
        let j = choose|j: int| 0 <= j < state.objects.len() && state.objects[j] == row;
        assert(state.objects[j].id <= state.last_object_id);
    }
    if after.has_snapshot(id) {
        let k = choose|k: int|
            0 <= k < after.snapshots.len() && snapshot_key()(#[trigger] after.snapshots[k]) == id;
        assert(after.snapshots.contains(after.snapshots[k]));
        kept_contains(state.snapshots, other_snapshot(id), after.snapshots[k]);
    }
}

// --- What stays ----------------------------------------------------------------------------

proof fn children_of_kept(tree: Seq<TreeFact>, cond: spec_fn(TreeFact) -> bool, parent: i64)
    requires
        forall|i: int|
            0 <= i < tree.len() && (#[trigger] tree[i]).parent == parent ==> cond(tree[i]),
    ensures
        children(kept(tree, cond), parent) == children(tree, parent),
    decreases tree.len(),
{
    if tree.len() > 0 {
        let front = tree.drop_last();
        assert forall|i: int| 0 <= i < front.len() && (#[trigger] front[i]).parent
            == parent implies cond(front[i]) by {
            assert(front[i] == tree[i]);
        }
        children_of_kept(front, cond, parent);
        let last = tree.last();
        assert(tree[tree.len() - 1] == last);
        if cond(last) {
            assert(kept(front, cond).push(last).drop_last() =~= kept(front, cond));
        }
    }
}

proof fn file_list_of_kept(
    rows: Seq<FileChunkFact>,
    cond: spec_fn(FileChunkFact) -> bool,
    file: i64,
)
    requires
        forall|i: int| 0 <= i < rows.len() && (#[trigger] rows[i]).file == file ==> cond(rows[i]),
    ensures
        file_list(kept(rows, cond), file) == file_list(rows, file),
    decreases rows.len(),
{
    if rows.len() > 0 {
        let front = rows.drop_last();
        assert forall|i: int| 0 <= i < front.len() && (#[trigger] front[i]).file
            == file implies cond(front[i]) by {
            assert(front[i] == rows[i]);
        }
        file_list_of_kept(front, cond, file);
        let last = rows.last();
        assert(rows[rows.len() - 1] == last);
        if cond(last) {
            assert(kept(front, cond).push(last).drop_last() =~= kept(front, cond));
        }
    }
}

proof fn extents_of_kept(rows: Seq<ExtentFact>, cond: spec_fn(ExtentFact) -> bool, object: i64)
    requires
        forall|i: int|
            0 <= i < rows.len() && (#[trigger] rows[i]).object == object ==> cond(rows[i]),
    ensures
        extents_of(kept(rows, cond), object) == extents_of(rows, object),
    decreases rows.len(),
{
    if rows.len() > 0 {
        let front = rows.drop_last();
        assert forall|i: int| 0 <= i < front.len() && (#[trigger] front[i]).object
            == object implies cond(front[i]) by {
            assert(front[i] == rows[i]);
        }
        extents_of_kept(front, cond, object);
        let last = rows.last();
        assert(rows[rows.len() - 1] == last);
        if cond(last) {
            assert(kept(front, cond).push(last).drop_last() =~= kept(front, cond));
        }
    }
}

proof fn extent_chunks_of_kept(
    rows: Seq<ExtentChunkFact>,
    cond: spec_fn(ExtentChunkFact) -> bool,
    object: i64,
    extent_idx: u64,
)
    requires
        forall|i: int|
            0 <= i < rows.len() && (#[trigger] rows[i]).object == object ==> cond(rows[i]),
    ensures
        extent_chunks_of(kept(rows, cond), object, extent_idx) == extent_chunks_of(
            rows,
            object,
            extent_idx,
        ),
    decreases rows.len(),
{
    if rows.len() > 0 {
        let front = rows.drop_last();
        assert forall|i: int| 0 <= i < front.len() && (#[trigger] front[i]).object
            == object implies cond(front[i]) by {
            assert(front[i] == rows[i]);
        }
        extent_chunks_of_kept(front, cond, object, extent_idx);
        let last = rows.last();
        assert(rows[rows.len() - 1] == last);
        if cond(last) {
            assert(kept(front, cond).push(last).drop_last() =~= kept(front, cond));
        }
    }
}

proof fn edge_stays(state: CatalogState, id: Seq<char>, a: i64, b: i64)
    requires
        state.wf(),
        edge(state, a, b),
        !goes_with(state, id, a),
        !goes_with(state, id, b),
    ensures
        edge(without_snapshot(state, id), a, b),
{
    let after = without_snapshot(state, id);
    object_stays(state, id, a);
    let i = choose|i: int|
        0 <= i < state.tree.len() && (#[trigger] state.tree[i]).parent == a && state.tree[i].child
            == b;
    assert(state.tree.contains(state.tree[i]));
    kept_contains(state.tree, staying_entry(state, id), state.tree[i]);
    let j = choose|j: int| 0 <= j < after.tree.len() && after.tree[j] == state.tree[i];
    assert(after.tree[j].parent == a && after.tree[j].child == b);
}

proof fn edge_was_there(state: CatalogState, id: Seq<char>, a: i64, b: i64)
    requires
        state.wf(),
        edge(without_snapshot(state, id), a, b),
    ensures
        edge(state, a, b),
{
    let after = without_snapshot(state, id);
    let k = choose|k: int|
        0 <= k < after.objects.len() && object_key()(#[trigger] after.objects[k]) == a;
    let row = after.objects[k];
    assert(after.objects.contains(row));
    kept_contains(state.objects, staying_object(state, id), row);
    kept_keyed(state.objects, staying_object(state, id), object_key());
    row_of_unique(after.objects, object_key(), k);
    let m = choose|m: int| 0 <= m < state.objects.len() && state.objects[m] == row;
    row_of_unique(state.objects, object_key(), m);
    let i = choose|i: int|
        0 <= i < after.tree.len() && (#[trigger] after.tree[i]).parent == a && after.tree[i].child
            == b;
    assert(after.tree.contains(after.tree[i]));
    kept_contains(state.tree, staying_entry(state, id), after.tree[i]);
    let j = choose|j: int| 0 <= j < state.tree.len() && state.tree[j] == after.tree[i];
    assert(state.tree[j].parent == a && state.tree[j].child == b);
}

proof fn path_reaches(state: CatalogState, p: Seq<i64>, n: int)
    requires
        is_path(state, p),
        0 <= n < p.len(),
    ensures
        reachable(state, p[0], p[n]),
    decreases n,
{
    if n == 0 {
        root_reachable(state, p[0]);
    } else {
        path_reaches(state, p, n - 1);
        assert(edge(state, p[n - 1], p[n - 1 + 1]));
        step_reachable(state, p[0], p[n - 1], p[n]);
    }
}

/// The other snapshots lead to the same objects as before.
pub proof fn other_snapshots_reach_the_same(state: CatalogState, id: Seq<char>, s: int, x: i64)
    requires
        state.wf(),
        0 <= s < state.snapshots.len(),
        state.snapshots[s].id != id,
    ensures
        without_snapshot(state, id).snapshots.contains(state.snapshots[s]),
        reachable(without_snapshot(state, id), state.snapshots[s].root, x) <==> reachable(
            state,
            state.snapshots[s].root,
            x,
        ),
{
    let after = without_snapshot(state, id);
    let root = state.snapshots[s].root;
    assert(state.snapshots.contains(state.snapshots[s]));
    kept_contains(state.snapshots, other_snapshot(id), state.snapshots[s]);
    if reachable(state, root, x) {
        let p = choose|p: Seq<i64>| #[trigger] is_path(state, p) && p[0] == root && p.last() == x;
        assert forall|i: int| 0 <= i < p.len() - 1 implies edge(after, #[trigger] p[i], p[i + 1]) by {
            path_reaches(state, p, i);
            path_reaches(state, p, i + 1);
            assert(held_by_others(state, id, p[i]));
            assert(held_by_others(state, id, p[i + 1]));
            edge_stays(state, id, p[i], p[i + 1]);
        }
        assert(is_path(after, p));
    }
    if reachable(after, root, x) {
        let p = choose|p: Seq<i64>| #[trigger] is_path(after, p) && p[0] == root && p.last() == x;
        assert forall|i: int| 0 <= i < p.len() - 1 implies edge(state, #[trigger] p[i], p[i + 1]) by {
            edge_was_there(state, id, p[i], p[i + 1]);
        }
        assert(is_path(state, p));
    }
}

/// What another snapshot leads to stays as it was: the object, the entries of a directory, the
/// chunks of a file and the layout of a device.
pub proof fn other_snapshots_stay(state: CatalogState, id: Seq<char>, s: int, x: i64)
    requires
        state.wf(),
        0 <= s < state.snapshots.len(),
        state.snapshots[s].id != id,
        reachable(state, state.snapshots[s].root, x),
        state.has_object(x),
    ensures
        ({
            let after = without_snapshot(state, id);
            &&& after.has_object(x)
            &&& after.object(x) == state.object(x)
            &&& state.object(x).kind == ObjectType::Directory ==> children(after.tree, x)
                == children(state.tree, x)
            &&& file_chunk_list(after, x) == file_chunk_list(state, x)
            &&& layout_list(after, x) == layout_list(state, x)
        }),
{
    let after = without_snapshot(state, id);
    assert(held_by_others(state, id, x));
    object_stays(state, id, x);
    if state.object(x).kind == ObjectType::Directory {
        assert forall|i: int| 0 <= i < state.tree.len() && (#[trigger] state.tree[i]).parent
            == x implies staying_entry(state, id)(state.tree[i]) by {
            let b = state.tree[i].child;
            assert(edge(state, x, b));
            step_reachable(state, state.snapshots[s].root, x, b);
            assert(held_by_others(state, id, b));
        }
        children_of_kept(state.tree, staying_entry(state, id), x);
    }
    file_list_of_kept(state.file_chunks, staying_file_chunk(state, id), x);
    extents_of_kept(state.extents, staying_extent(state, id), x);
    assert(extent_list(after, x) == extent_list(state, x));
    assert forall|e: u64| extent_chunk_list(after, x, e) == extent_chunk_list(state, x, e) by {
        extent_chunks_of_kept(state.extent_chunks, staying_extent_chunk(state, id), x, e);
    }
    assert(layout_list(after, x) =~= layout_list(state, x));
}

// --- Several snapshots ---------------------------------------------------------------------

/// Whether one of the given snapshots leads to an object.
pub open spec fn held_by_any(state: CatalogState, ids: Seq<Seq<char>>, x: i64) -> bool {
    exists|i: int|
        0 <= i < state.snapshots.len() && ids.contains((#[trigger] state.snapshots[i]).id)
            && reachable(state, state.snapshots[i].root, x)
}

/// Whether a snapshot that is not among the given ones leads to an object.
pub open spec fn held_by_rest(state: CatalogState, ids: Seq<Seq<char>>, x: i64) -> bool {
    exists|i: int|
        0 <= i < state.snapshots.len() && !ids.contains((#[trigger] state.snapshots[i]).id)
            && reachable(state, state.snapshots[i].root, x)
}

proof fn rest_stays(state: CatalogState, ids: Seq<Seq<char>>, s: int, x: i64)
    requires
        state.wf(),
        0 <= s < state.snapshots.len(),
        !ids.contains(state.snapshots[s].id),
    ensures
        without_snapshots(state, ids).wf(),
        without_snapshots(state, ids).chunks == state.chunks,
        without_snapshots(state, ids).snapshots.contains(state.snapshots[s]),
        reachable(without_snapshots(state, ids), state.snapshots[s].root, x) <==> reachable(
            state,
            state.snapshots[s].root,
            x,
        ),
        reachable(state, state.snapshots[s].root, x) && state.has_object(x) ==> {
            let after = without_snapshots(state, ids);
            &&& after.has_object(x)
            &&& after.object(x) == state.object(x)
            &&& state.object(x).kind == ObjectType::Directory ==> children(after.tree, x)
                == children(state.tree, x)
            &&& file_chunk_list(after, x) == file_chunk_list(state, x)
            &&& layout_list(after, x) == layout_list(state, x)
        },
    decreases ids.len(),
{
    if ids.len() > 0 {
        let front = ids.drop_last();
        if front.contains(state.snapshots[s].id) {
            let i = choose|i: int| 0 <= i < front.len() && front[i] == state.snapshots[s].id;
            assert(ids[i] == state.snapshots[s].id);
        }
        assert(ids[ids.len() - 1] == ids.last());
        rest_stays(state, front, s, x);
        let before = without_snapshots(state, front);
        let t = choose|t: int|
            0 <= t < before.snapshots.len() && before.snapshots[t] == state.snapshots[s];
        removal_keeps_the_rules(before, ids.last());
        other_snapshots_reach_the_same(before, ids.last(), t, x);
        if reachable(state, state.snapshots[s].root, x) && state.has_object(x) {
            other_snapshots_stay(before, ids.last(), t, x);
        }
    } else {
        assert(state.snapshots.contains(state.snapshots[s]));
    }
}

/// Taking several snapshots out keeps the rules of the tables, leaves the other snapshots and all
/// that they lead to as they were, and takes out their rows.
pub proof fn other_snapshots_stay_whole(state: CatalogState, ids: Seq<Seq<char>>, s: int, x: i64)
    requires
        state.wf(),
        0 <= s < state.snapshots.len(),
        !ids.contains(state.snapshots[s].id),
        reachable(state, state.snapshots[s].root, x),
        state.has_object(x),
    ensures
        ({
            let after = without_snapshots(state, ids);
            &&& after.wf()
            &&& after.chunks == state.chunks
            &&& after.snapshots.contains(state.snapshots[s])
            &&& reachable(after, state.snapshots[s].root, x)
            &&& after.has_object(x)
            &&& after.object(x) == state.object(x)
            &&& state.object(x).kind == ObjectType::Directory ==> children(after.tree, x)
                == children(state.tree, x)
            &&& file_chunk_list(after, x) == file_chunk_list(state, x)
            &&& layout_list(after, x) == layout_list(state, x)
        }),
{
    rest_stays(state, ids, s, x);
}

/// Taking several snapshots out takes out the rows of exactly these.
pub proof fn only_the_named_snapshots_go(
    state: CatalogState,
    ids: Seq<Seq<char>>,
    row: SnapshotFact,
)
    ensures
        without_snapshots(state, ids).snapshots.contains(row) <==> state.snapshots.contains(row)
            && !ids.contains(row.id),
    decreases ids.len(),
{
    if ids.len() > 0 {
        let front = ids.drop_last();
        only_the_named_snapshots_go(state, front, row);
        kept_contains(
            without_snapshots(state, front).snapshots,
            other_snapshot(ids.last()),
            row,
        );
        assert(ids.contains(row.id) <==> front.contains(row.id) || row.id == ids.last()) by {
            assert(ids[ids.len() - 1] == ids.last());
            if front.contains(row.id) {
                let i = choose|i: int| 0 <= i < front.len() && front[i] == row.id;
                assert(ids[i] == row.id);
            }
            if ids.contains(row.id) {
                let i = choose|i: int| 0 <= i < ids.len() && ids[i] == row.id;
                if i < front.len() {
                    assert(front[i] == row.id);
                }
            }
        }
    }
}

proof fn removals_keep_the_rules(state: CatalogState, ids: Seq<Seq<char>>)
    requires
        state.wf(),
    ensures
        without_snapshots(state, ids).wf(),
    decreases ids.len(),
{
    if ids.len() > 0 {
        removals_keep_the_rules(state, ids.drop_last());
        removal_keeps_the_rules(without_snapshots(state, ids.drop_last()), ids.last());
    }
}

/// An object is left after several snapshots were taken out exactly where none of them led to it,
/// or a snapshot that stays does.
pub proof fn what_is_left(state: CatalogState, ids: Seq<Seq<char>>, x: i64)
    requires
        state.wf(),
    ensures
        without_snapshots(state, ids).has_object(x) <==> state.has_object(x) && (!held_by_any(
            state,
            ids,
            x,
        ) || held_by_rest(state, ids, x)),
    decreases ids.len(),
{
    if ids.len() > 0 {
        let front = ids.drop_last();
        let last = ids.last();
        let before = without_snapshots(state, front);
        let after = without_snapshots(state, ids);
        what_is_left(state, front, x);
        removals_keep_the_rules(state, front);
        assert forall|id: Seq<char>| ids.contains(id) <==> front.contains(id) || id == last by {
            assert(ids[ids.len() - 1] == last);
            if front.contains(id) {
                let i = choose|i: int| 0 <= i < front.len() && front[i] == id;
                assert(ids[i] == id);
            }
            if ids.contains(id) {
                let i = choose|i: int| 0 <= i < ids.len() && ids[i] == id;
                if i < front.len() {
                    assert(front[i] == id);
                }
            }
        }
        assert forall|s: int| 0 <= s < state.snapshots.len() && !front.contains(
            (#[trigger] state.snapshots[s]).id,
        ) implies before.snapshots.contains(state.snapshots[s]) && (reachable(
            before,
            state.snapshots[s].root,
            x,
        ) <==> reachable(state, state.snapshots[s].root, x)) by {
            rest_stays(state, front, s, x);
        }
        assert forall|t: int| 0 <= t < before.snapshots.len() implies state.snapshots.contains(
            #[trigger] before.snapshots[t],
        ) && !front.contains(before.snapshots[t].id) by {
            assert(before.snapshots.contains(before.snapshots[t]));
            only_the_named_snapshots_go(state, front, before.snapshots[t]);
        }
        assert(held_by_others(before, last, x) <==> held_by_rest(state, ids, x)) by {
            if held_by_others(before, last, x) {
                let t = choose|t: int|
                    0 <= t < before.snapshots.len() && (#[trigger] before.snapshots[t]).id != last
                        && reachable(before, before.snapshots[t].root, x);
                let s = choose|s: int|
                    0 <= s < state.snapshots.len() && state.snapshots[s] == before.snapshots[t];
                assert(!ids.contains(state.snapshots[s].id));
            }
            if held_by_rest(state, ids, x) {
                let s = choose|s: int|
                    0 <= s < state.snapshots.len() && !ids.contains(
                        (#[trigger] state.snapshots[s]).id,
                    ) && reachable(state, state.snapshots[s].root, x);
                assert(before.snapshots.contains(state.snapshots[s]));
                let t = choose|t: int|
                    0 <= t < before.snapshots.len() && before.snapshots[t] == state.snapshots[s];
                assert(before.snapshots[t].id != last);
            }
        }
        assert(held_by(before, last, x) ==> held_by_any(state, ids, x)) by {
            if held_by(before, last, x) {
                let t = choose|t: int|
                    0 <= t < before.snapshots.len() && (#[trigger] before.snapshots[t]).id == last
                        && reachable(before, before.snapshots[t].root, x);
                let s = choose|s: int|
                    0 <= s < state.snapshots.len() && state.snapshots[s] == before.snapshots[t];
                assert(ids.contains(state.snapshots[s].id));
            }
        }
        assert(held_by_any(state, ids, x) && !held_by_any(state, front, x) ==> held_by(
            before,
            last,
            x,
        )) by {
            if held_by_any(state, ids, x) && !held_by_any(state, front, x) {
                let s = choose|s: int|
                    0 <= s < state.snapshots.len() && ids.contains(
                        (#[trigger] state.snapshots[s]).id,
                    ) && reachable(state, state.snapshots[s].root, x);
                assert(!front.contains(state.snapshots[s].id));
                assert(before.snapshots.contains(state.snapshots[s]));
                let t = choose|t: int|
                    0 <= t < before.snapshots.len() && before.snapshots[t] == state.snapshots[s];
                assert(before.snapshots[t].id == last);
            }
        }
        assert(held_by_rest(state, front, x) ==> held_by_rest(state, ids, x) || held_by(
            before,
            last,
            x,
        )) by {
            if held_by_rest(state, front, x) {
                let s = choose|s: int|
                    0 <= s < state.snapshots.len() && !front.contains(
                        (#[trigger] state.snapshots[s]).id,
                    ) && reachable(state, state.snapshots[s].root, x);
                assert(before.snapshots.contains(state.snapshots[s]));
                let t = choose|t: int|
                    0 <= t < before.snapshots.len() && before.snapshots[t] == state.snapshots[s];
                assert(before.snapshots[t].id == state.snapshots[s].id);
                if state.snapshots[s].id != last {
                    assert(!ids.contains(state.snapshots[s].id));
                }
            }
        }
        assert(held_by_any(state, front, x) ==> held_by_any(state, ids, x)) by {
            if held_by_any(state, front, x) {
                let s = choose|s: int|
                    0 <= s < state.snapshots.len() && front.contains(
                        (#[trigger] state.snapshots[s]).id,
                    ) && reachable(state, state.snapshots[s].root, x);
                assert(ids.contains(state.snapshots[s].id));
            }
        }
        assert(held_by_rest(state, ids, x) ==> held_by_rest(state, front, x)) by {
            if held_by_rest(state, ids, x) {
                let s = choose|s: int|
                    0 <= s < state.snapshots.len() && !ids.contains(
                        (#[trigger] state.snapshots[s]).id,
                    ) && reachable(state, state.snapshots[s].root, x);
                assert(!front.contains(state.snapshots[s].id));
            }
        }
        if goes_with(before, last, x) {
            what_goes_is_gone(before, last, x);
        } else if before.has_object(x) {
            object_stays(before, last, x);
        }
        if after.has_object(x) {
            let k = choose|k: int|
                0 <= k < after.objects.len() && object_key()(#[trigger] after.objects[k]) == x;
            assert(after.objects.contains(after.objects[k]));
            kept_contains(before.objects, staying_object(before, last), after.objects[k]);
            let m = choose|m: int|
                0 <= m < before.objects.len() && before.objects[m] == after.objects[k];
            assert(object_key()(before.objects[m]) == x);
        }
    } else {
        assert(!held_by_any(state, ids, x));
    }
}

} // verus!
