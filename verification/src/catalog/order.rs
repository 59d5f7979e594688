//! What was written down piece by piece, in whatever order the pieces were ready, is read back in
//! the order of its positions.
use crate::catalog::index::extent_chunk_key;
use crate::catalog::index::extent_chunk_list;
use crate::catalog::index::extent_chunks_of;
use crate::catalog::index::extent_key;
use crate::catalog::index::extent_list;
use crate::catalog::index::extents_of;
use crate::catalog::index::file_chunk_key;
use crate::catalog::index::file_chunk_list;
use crate::catalog::index::file_list;
use crate::catalog::index::layout_list;
use crate::catalog::index::CatalogState;
use crate::catalog::index::ExtentChunkFact;
use crate::catalog::index::ExtentFact;
use crate::catalog::index::ExtentLayout;
use crate::catalog::index::FileChunkFact;
use crate::catalog::rows::items;
use crate::catalog::rows::signed;
use crate::catalog::rows::sorted;
use crate::catalog::rows::sorted_is_sorted;
use vstd::prelude::*;

verus! {

/// What a function picks out of rows, in their order.
pub open spec fn listed<F, G>(rows: Seq<F>, pick: spec_fn(F) -> Option<(i64, G)>) -> Seq<(i64, G)>
    decreases rows.len(),
{
    if rows.len() == 0 {
        Seq::empty()
    } else {
        match pick(rows.last()) {
            Some(x) => listed(rows.drop_last(), pick).push(x),
            None => listed(rows.drop_last(), pick),
        }
    }
}

/// Whether the picked rows hold each position of a list once, with what belongs there.
pub open spec fn fills<F, G>(
    rows: Seq<F>,
    pick: spec_fn(F) -> Option<(i64, G)>,
    want: Seq<G>,
) -> bool {
    &&& forall|j: int|
        0 <= j < rows.len() ==> (pick(#[trigger] rows[j]) matches Some(x) ==> 0 <= x.0 < want.len()
            && x.1 == want[x.0 as int])
    &&& forall|k: int|
        0 <= k < want.len() ==> #[trigger] picked_at(rows, pick, k)
    &&& forall|i: int, j: int|
        0 <= i < j < rows.len() && pick(rows[i]) is Some && pick(rows[j]) is Some ==> (pick(
            #[trigger] rows[i],
        )->0).0 != (pick(#[trigger] rows[j])->0).0
}

/// Whether a row is picked for a position.
pub open spec fn picked_at<F, G>(
    rows: Seq<F>,
    pick: spec_fn(F) -> Option<(i64, G)>,
    k: int,
) -> bool {
    exists|j: int|
        0 <= j < rows.len() && pick(#[trigger] rows[j]) is Some && (pick(rows[j])->0).0 == k
}

proof fn listed_from<F, G>(rows: Seq<F>, pick: spec_fn(F) -> Option<(i64, G)>, i: int) -> (j: int)
    requires
        0 <= i < listed(rows, pick).len(),
    ensures
        0 <= j < rows.len(),
        pick(rows[j]) == Some(listed(rows, pick)[i]),
    decreases rows.len(),
{
    let front = rows.drop_last();
    if i < listed(front, pick).len() {
        let j = listed_from(front, pick, i);
        assert(front[j] == rows[j]);
        j
    } else {
        rows.len() - 1
    }
}

proof fn listed_has<F, G>(rows: Seq<F>, pick: spec_fn(F) -> Option<(i64, G)>, j: int) -> (i: int)
    requires
        0 <= j < rows.len(),
        pick(rows[j]) is Some,
    ensures
        0 <= i < listed(rows, pick).len(),
        listed(rows, pick)[i] == pick(rows[j])->0,
    decreases rows.len(),
{
    let front = rows.drop_last();
    if j < front.len() {
        assert(front[j] == rows[j]);
        listed_has(front, pick, j)
    } else {
        listed(front, pick).len() as int
    }
}

proof fn listed_distinct<F, G>(rows: Seq<F>, pick: spec_fn(F) -> Option<(i64, G)>)
    requires
        forall|i: int, j: int|
            0 <= i < j < rows.len() && pick(rows[i]) is Some && pick(rows[j]) is Some ==> (pick(
                #[trigger] rows[i],
            )->0).0 != (pick(#[trigger] rows[j])->0).0,
    ensures
        listed(rows, pick).no_duplicates(),
    decreases rows.len(),
{
    if rows.len() > 0 {
        let front = rows.drop_last();
        assert forall|i: int, j: int|
            0 <= i < j < front.len() && pick(front[i]) is Some && pick(
                front[j],
            ) is Some implies (pick(#[trigger] front[i])->0).0 != (pick(#[trigger] front[j])->0).0 by {
            assert(front[i] == rows[i] && front[j] == rows[j]);
        }
        listed_distinct(front, pick);
        let all = listed(rows, pick);
        assert forall|i: int, j: int| 0 <= i < all.len() && 0 <= j < all.len() && i != j implies all[i]
            != all[j] by {
            let lo = if i < j {
                i
            } else {
                j
            };
            let hi = if i < j {
                j
            } else {
                i
            };
            let short = listed(front, pick);
            if hi < short.len() {
                assert(short[lo] != short[hi]);
            } else {
                let a = listed_from(front, pick, lo);
                assert(front[a] == rows[a]);
                assert(rows.last() == rows[rows.len() - 1]);
                assert((pick(rows[a])->0).0 != (pick(rows[rows.len() - 1])->0).0);
            }
        }
    }
}

proof fn positions_ascend<G>(t: Seq<(i64, G)>, want: Seq<G>, i: int)
    requires
        forall|a: int| 0 <= a < t.len() ==> 0 <= (#[trigger] t[a]).0 < want.len(),
        forall|a: int, b: int| 0 <= a < b < t.len() ==> (#[trigger] t[a]).0 < (#[trigger] t[b]).0,
        0 <= i < t.len(),
    ensures
        t[i].0 >= i,
    decreases i,
{
    if i > 0 {
        positions_ascend(t, want, i - 1);
        assert(t[i - 1].0 < t[i].0);
    }
}

proof fn positions_exact<G>(t: Seq<(i64, G)>, want: Seq<G>, i: int)
    requires
        forall|a: int| 0 <= a < t.len() ==> 0 <= (#[trigger] t[a]).0 < want.len(),
        forall|a: int, b: int| 0 <= a < b < t.len() ==> (#[trigger] t[a]).0 < (#[trigger] t[b]).0,
        forall|k: int| 0 <= k < want.len() ==> #[trigger] holds_position(t, k),
        0 <= i < want.len(),
    ensures
        i < t.len(),
        t[i].0 == i,
    decreases i,
{
    assert(holds_position(t, i));
    let j = choose|j: int| 0 <= j < t.len() && (#[trigger] t[j]).0 == i;
    if j < i {
        positions_exact(t, want, j);
    } else {
        positions_ascend(t, want, i);
        if i < j {
            assert(t[i].0 < t[j].0);
        }
    }
}

spec fn holds_position<G>(t: Seq<(i64, G)>, k: int) -> bool {
    exists|j: int| 0 <= j < t.len() && (#[trigger] t[j]).0 == k
}

/// Rows that hold each position of a list once give the list when they are sorted by position.
pub proof fn filled_lists_come_back<F, G>(
    rows: Seq<F>,
    pick: spec_fn(F) -> Option<(i64, G)>,
    want: Seq<G>,
)
    requires
        fills(rows, pick, want),
    ensures
        items(sorted(listed(rows, pick))) == want,
{
    broadcast use vstd::seq_lib::group_to_multiset_ensures;

    let s = listed(rows, pick);
    let t = sorted(s);
    sorted_is_sorted(s);
    listed_distinct(rows, pick);
    s.lemma_multiset_has_no_duplicates();
    t.lemma_multiset_has_no_duplicates_conv();
    assert forall|a: int| 0 <= a < t.len() implies 0 <= (#[trigger] t[a]).0 < want.len() && t[a].1
        == want[t[a].0 as int] by {
        assert(t.to_multiset().count(t[a]) > 0);
        assert(s.contains(t[a]));
        let i = choose|i: int| 0 <= i < s.len() && s[i] == t[a];
        let j = listed_from(rows, pick, i);
        assert(pick(rows[j]) == Some(t[a]));
    }
    assert forall|a: int, b: int| 0 <= a < b < t.len() implies (#[trigger] t[a]).0 < (
    #[trigger] t[b]).0 by {
        if t[a].0 == t[b].0 {
            assert(t[a] == t[b]);
        }
    }
    assert forall|k: int| 0 <= k < want.len() implies #[trigger] holds_position(t, k) by {
        assert(picked_at(rows, pick, k));
        let j = choose|j: int|
            0 <= j < rows.len() && pick(#[trigger] rows[j]) is Some && (pick(rows[j])->0).0 == k;
        let i = listed_has(rows, pick, j);
        assert(s.to_multiset().count(s[i]) > 0);
        assert(t.contains(s[i]));
        let b = choose|b: int| 0 <= b < t.len() && t[b] == s[i];
        assert(t[b].0 == k);
    }
    assert(t.len() == want.len()) by {
        if t.len() > want.len() {
            positions_ascend(t, want, want.len() as int);
        }
        if want.len() > 0 {
            positions_exact(t, want, want.len() - 1);
        }
    }
    assert forall|i: int| 0 <= i < want.len() implies items(t)[i] == want[i] by {
        positions_exact(t, want, i);
    }
    assert(items(t) =~= want);
}

// --- Files ---------------------------------------------------------------------------------

/// The chunk of a file that a row holds.
pub open spec fn file_pick(file: i64) -> spec_fn(FileChunkFact) -> Option<(i64, Seq<char>)> {
    |r: FileChunkFact|
        if r.file == file {
            Some((signed(r.order) as i64, r.hash))
        } else {
            None
        }
}

proof fn file_list_listed(rows: Seq<FileChunkFact>, file: i64)
    ensures
        file_list(rows, file) == listed(rows, file_pick(file)),
    decreases rows.len(),
{
    if rows.len() > 0 {
        file_list_listed(rows.drop_last(), file);
    }
}

/// Whether the catalog holds the chunks of a file, each once and at its position.
pub open spec fn file_recorded(state: CatalogState, file: i64, hashes: Seq<Seq<char>>) -> bool {
    &&& forall|j: int|
        0 <= j < state.file_chunks.len() && (#[trigger] state.file_chunks[j]).file == file
            ==> state.file_chunks[j].order < hashes.len() && state.file_chunks[j].hash
            == hashes[state.file_chunks[j].order as int]
    &&& forall|k: int| 0 <= k < hashes.len() ==> #[trigger] position_recorded(state, file, k)
}

/// Whether the catalog holds a chunk of a file at a position.
pub open spec fn position_recorded(state: CatalogState, file: i64, k: int) -> bool {
    exists|j: int|
        0 <= j < state.file_chunks.len() && (#[trigger] state.file_chunks[j]).file == file
            && state.file_chunks[j].order == k
}

/// The chunks of a file come back in the order of their positions, in whatever order they were
/// recorded.
pub proof fn files_come_back_in_order(state: CatalogState, file: i64, hashes: Seq<Seq<char>>)
    requires
        state.wf(),
        hashes.len() <= i64::MAX,
        file_recorded(state, file, hashes),
    ensures
        file_chunk_list(state, file) == hashes,
{
    let rows = state.file_chunks;
    let pick = file_pick(file);
    file_list_listed(rows, file);
    assert forall|k: int| 0 <= k < hashes.len() implies #[trigger] picked_at(rows, pick, k) by {
        assert(position_recorded(state, file, k));
        let j = choose|j: int|
            0 <= j < rows.len() && (#[trigger] rows[j]).file == file && rows[j].order == k;
        assert(pick(rows[j]) is Some && (pick(rows[j])->0).0 == k);
    }
    assert forall|i: int, j: int|
        0 <= i < j < rows.len() && pick(rows[i]) is Some && pick(rows[j]) is Some implies (pick(
        #[trigger] rows[i],
    )->0).0 != (pick(#[trigger] rows[j])->0).0 by {
        assert(file_chunk_key()(rows[i]) != file_chunk_key()(rows[j]));
    }
    filled_lists_come_back(rows, pick, hashes);
}

// --- Block devices -------------------------------------------------------------------------

/// The extent of an object that a row holds.
pub open spec fn extent_pick(object: i64) -> spec_fn(ExtentFact) -> Option<(i64, (u64, u64, u64))> {
    |r: ExtentFact|
        if r.object == object {
            Some((signed(r.idx) as i64, (r.idx, r.offset, r.length)))
        } else {
            None
        }
}

/// The chunk of an extent that a row holds.
pub open spec fn extent_chunk_pick(object: i64, extent_idx: u64) -> spec_fn(
    ExtentChunkFact,
) -> Option<(i64, (u64, Seq<char>, u64, u64))> {
    |r: ExtentChunkFact|
        if r.object == object && r.extent_idx == extent_idx {
            Some((signed(r.chunk_idx) as i64, (r.chunk_idx, r.hash, r.rel_offset, r.length)))
        } else {
            None
        }
}

proof fn extents_listed(rows: Seq<ExtentFact>, object: i64)
    ensures
        extents_of(rows, object) == listed(rows, extent_pick(object)),
    decreases rows.len(),
{
    if rows.len() > 0 {
        extents_listed(rows.drop_last(), object);
    }
}

proof fn extent_chunks_listed(rows: Seq<ExtentChunkFact>, object: i64, extent_idx: u64)
    ensures
        extent_chunks_of(rows, object, extent_idx) == listed(
            rows,
            extent_chunk_pick(object, extent_idx),
        ),
    decreases rows.len(),
{
    if rows.len() > 0 {
        extent_chunks_listed(rows.drop_last(), object, extent_idx);
    }
}

/// Whether a layout numbers its extents and their chunks from 0 on.
pub open spec fn numbered(layout: Seq<ExtentLayout>) -> bool {
    &&& layout.len() <= i64::MAX
    &&& forall|i: int|
        0 <= i < layout.len() ==> (#[trigger] layout[i]).extent_idx == i && layout[i].chunks.len()
            <= i64::MAX
    &&& forall|i: int, k: int|
        0 <= i < layout.len() && 0 <= k < layout[i].chunks.len() ==> (
        #[trigger] layout[i].chunks[k]).0 == k
}

/// Whether the catalog holds the extents of a layout, and no chunk of it that is not in the layout.
pub open spec fn layout_begun(
    state: CatalogState,
    object: i64,
    layout: Seq<ExtentLayout>,
) -> bool {
    &&& forall|j: int|
        0 <= j < state.extents.len() && (#[trigger] state.extents[j]).object == object ==> {
            let r = state.extents[j];
            r.idx < layout.len() && r.offset == layout[r.idx as int].offset && r.length
                == layout[r.idx as int].length
        }
    &&& forall|i: int| 0 <= i < layout.len() ==> #[trigger] extent_recorded(state, object, i)
    &&& forall|j: int|
        0 <= j < state.extent_chunks.len() && (#[trigger] state.extent_chunks[j]).object == object
            ==> {
            let r = state.extent_chunks[j];
            r.extent_idx < layout.len() && r.chunk_idx < layout[r.extent_idx as int].chunks.len()
                && layout[r.extent_idx as int].chunks[r.chunk_idx as int] == (
                r.chunk_idx,
                r.hash,
                r.rel_offset,
                r.length,
            )
        }
}

/// Whether the catalog holds the extents of a layout and their chunks, each once.
pub open spec fn layout_recorded(
    state: CatalogState,
    object: i64,
    layout: Seq<ExtentLayout>,
) -> bool {
    &&& layout_begun(state, object, layout)
    &&& forall|i: int, k: int|
        0 <= i < layout.len() && 0 <= k < layout[i].chunks.len() ==> chunk_recorded(
            state,
            object,
            i,
            #[trigger] layout[i].chunks[k].0 as int,
        )
}

/// Whether the catalog holds an extent of a block device.
pub open spec fn extent_recorded(state: CatalogState, object: i64, i: int) -> bool {
    exists|j: int|
        0 <= j < state.extents.len() && (#[trigger] state.extents[j]).object == object
            && state.extents[j].idx == i
}

/// Whether the catalog holds a chunk of an extent.
pub open spec fn chunk_recorded(state: CatalogState, object: i64, i: int, k: int) -> bool {
    exists|j: int|
        0 <= j < state.extent_chunks.len() && (#[trigger] state.extent_chunks[j]).object == object
            && state.extent_chunks[j].extent_idx == i && state.extent_chunks[j].chunk_idx == k
}

proof fn extent_chunks_come_back(
    state: CatalogState,
    object: i64,
    layout: Seq<ExtentLayout>,
    i: int,
)
    requires
        state.wf(),
        numbered(layout),
        layout_recorded(state, object, layout),
        0 <= i < layout.len(),
    ensures
        extent_chunk_list(state, object, i as u64) == layout[i].chunks,
{
    let rows = state.extent_chunks;
    let pick = extent_chunk_pick(object, i as u64);
    let want = layout[i].chunks;
    extent_chunks_listed(rows, object, i as u64);
    assert(layout[i].chunks.len() <= i64::MAX);
    assert forall|k: int| 0 <= k < want.len() implies #[trigger] picked_at(rows, pick, k) by {
        assert(layout[i].chunks[k].0 == k);
        assert(chunk_recorded(state, object, i, k));
        let j = choose|j: int|
            0 <= j < rows.len() && (#[trigger] rows[j]).object == object && rows[j].extent_idx == i
                && rows[j].chunk_idx == k;
        assert(pick(rows[j]) is Some && (pick(rows[j])->0).0 == k);
    }
    assert forall|a: int, b: int|
        0 <= a < b < rows.len() && pick(rows[a]) is Some && pick(rows[b]) is Some implies (pick(
        #[trigger] rows[a],
    )->0).0 != (pick(#[trigger] rows[b])->0).0 by {
        assert(extent_chunk_key()(rows[a]) != extent_chunk_key()(rows[b]));
    }
    filled_lists_come_back(rows, pick, want);
}

/// The layout of a block device comes back as it was recorded, in whatever order its chunks were
/// ready.
pub proof fn layouts_come_back(state: CatalogState, object: i64, layout: Seq<ExtentLayout>)
    requires
        state.wf(),
        numbered(layout),
        layout_recorded(state, object, layout),
    ensures
        layout_list(state, object) == layout,
{
    let rows = state.extents;
    let pick = extent_pick(object);
    let want = Seq::new(
        layout.len(),
        |i: int| (layout[i].extent_idx, layout[i].offset, layout[i].length),
    );
    extents_listed(rows, object);
    assert forall|j: int| 0 <= j < rows.len() implies (pick(#[trigger] rows[j]) matches Some(x)
        ==> 0 <= x.0 < want.len() && x.1 == want[x.0 as int]) by {
        if rows[j].object == object {
            assert(layout[rows[j].idx as int].extent_idx == rows[j].idx);
        }
    }
    assert forall|k: int| 0 <= k < want.len() implies #[trigger] picked_at(rows, pick, k) by {
        assert(extent_recorded(state, object, k));
        let j = choose|j: int|
            0 <= j < rows.len() && (#[trigger] rows[j]).object == object && rows[j].idx == k;
        assert(pick(rows[j]) is Some && (pick(rows[j])->0).0 == k);
    }
    assert forall|a: int, b: int|
        0 <= a < b < rows.len() && pick(rows[a]) is Some && pick(rows[b]) is Some implies (pick(
        #[trigger] rows[a],
    )->0).0 != (pick(#[trigger] rows[b])->0).0 by {
        assert(extent_key()(rows[a]) != extent_key()(rows[b]));
    }
    filled_lists_come_back(rows, pick, want);
    assert(extent_list(state, object) == want);
    assert forall|i: int| 0 <= i < layout.len() implies layout_list(state, object)[i]
        == layout[i] by {
        assert(layout[i].extent_idx == i);
        extent_chunks_come_back(state, object, layout, i);
        assert(want[i].0 == i);
    }
    assert(layout_list(state, object) =~= layout);
}

} // verus!
