//! Carrying a prune out. Storage deletes the chunks one by one; the catalog forgets each one that
//! is gone, and in the end the snapshots that were dropped.
use crate::catalog::index::children;
use crate::catalog::index::file_chunk_list;
use crate::catalog::index::layout_list;
use crate::catalog::index::other_chunk;
use crate::catalog::index::snapshot_key;
use crate::catalog::index::CatalogIndex;
use crate::catalog::index::CatalogState;
use crate::catalog::index::ObjectType;
use crate::catalog::metadata::MetadataStore;
use crate::catalog::removal::other_snapshots_stay_whole;
use crate::catalog::removal::without_snapshots;
use crate::catalog::rows::kept_contains;
use crate::catalog::rows::row_of;
use crate::catalog::rows::row_of_unique;
use crate::catalog::walk::edge;
use crate::catalog::walk::holds_chunk;
use crate::catalog::walk::is_path;
use crate::catalog::walk::reachable;
use crate::commands::prune::forget_chunk;
use crate::commands::prune::live;
use crate::commands::prune::only_dead_chunks_are_reclaimed;
use crate::commands::prune::pruning_keeps_other_content;
use crate::commands::prune::reclaimable;
use crate::commands::prune::without_chunk;
use crate::commands::prune::PrunePlan;
use crate::storage::chunks::chunk_key;
use crate::storage::chunks::chunk_location;
use crate::storage::chunks::has_shard;
use crate::text::copy_text;
use crate::text::texts;
use vstd::prelude::*;

verus! {

/// A chunk that storage has to delete.
#[derive(Debug)]
pub struct PruneTarget {
    pub hash: String,
    pub key: String,
    /// Whether the catalog knows the chunk; the others are parts of fingerprints.
    pub in_catalog: bool,
}

/// A prune on its way.
#[derive(Debug)]
pub struct PruneRun {
    /// The chunks to delete that the catalog knows.
    pub reclaimable: Vec<String>,
    /// The other chunks to delete.
    pub freed: Vec<String>,
    /// The snapshots to drop.
    pub dropped: Vec<String>,
    /// How many chunks have had their turn.
    pub next: usize,
    /// How many of them are gone.
    pub removed: usize,
}

impl PruneRun {
    /// The chunks to delete, in their order.
    pub open spec fn queue(self) -> Seq<Seq<char>> {
        texts(self.reclaimable@) + texts(self.freed@)
    }

    pub open spec fn wf(self) -> bool {
        &&& self.removed <= self.next <= self.queue().len()
        &&& self.queue().len() <= usize::MAX
    }

    /// Starts to carry out a plan.
    pub fn new(plan: PrunePlan, freed: Vec<String>) -> (out: Self)
        requires
            plan.reclaimable@.len() + freed@.len() <= usize::MAX,
        ensures
            out.wf(),
            out.reclaimable == plan.reclaimable,
            out.freed == freed,
            out.dropped == plan.dropped,
            out.next == 0,
            out.removed == 0,
    {
        PruneRun {
            reclaimable: plan.reclaimable,
            freed,
            dropped: plan.dropped,
            next: 0,
            removed: 0,
        }
    }

    /// The chunk whose turn it is.
    pub fn request(&self) -> (out: Option<PruneTarget>)
        requires
            self.wf(),
            self.next < self.queue().len() ==> has_shard(self.queue()[self.next as int]),
        ensures
            out is None <==> self.next == self.queue().len(),
            out matches Some(t) ==> {
                &&& t.hash@ == self.queue()[self.next as int]
                &&& t.key@ == chunk_location(t.hash@)
                &&& t.in_catalog <==> self.next < self.reclaimable@.len()
            },
    {
        let known: usize = self.reclaimable.len();
        let hash = if self.next < known {
            self.reclaimable[self.next].as_str()
        } else if self.next - known < self.freed.len() {
            self.freed[self.next - known].as_str()
        } else {
            return None;
        };
        Some(
            PruneTarget {
                hash: copy_text(hash),
                key: chunk_key(hash),
                in_catalog: self.next < known,
            },
        )
    }

    /// Takes the answer of storage. What storage could not delete stays in the catalog.
    pub fn answer(&mut self, catalog: &mut CatalogIndex, deleted: bool)
        requires
            old(self).wf(),
            old(self).next < old(self).queue().len(),
            old(catalog).wf(),
        ensures
            final(self).wf(),
            final(self).reclaimable == old(self).reclaimable,
            final(self).freed == old(self).freed,
            final(self).dropped == old(self).dropped,
            final(self).next == old(self).next + 1,
            final(self).removed == old(self).removed + if deleted {
                1int
            } else {
                0
            },
            final(catalog).wf(),
            final(catalog)@ == if deleted && old(self).next < old(self).reclaimable@.len() {
                without_chunk(old(catalog)@, old(self).queue()[old(self).next as int])
            } else {
                old(catalog)@
            },
    {
        if deleted {
            if self.next < self.reclaimable.len() {
                forget_chunk(catalog, self.reclaimable[self.next].as_str());
            }
            self.removed = self.removed + 1;
        }
        self.next = self.next + 1;
    }

    /// Drops the snapshots from the catalog with the objects that no other snapshot leads to, and
    /// their summaries.
    pub fn finish(&self, catalog: &mut CatalogIndex, summaries: &mut MetadataStore)
        requires
            old(catalog).wf(),
            old(summaries).wf(),
        ensures
            final(catalog).wf(),
            final(catalog)@ == without_snapshots(old(catalog)@, texts(self.dropped@)),
            final(summaries).wf(),
            final(summaries).key() == old(summaries).key(),
            final(summaries).file() == old(summaries).file(),
            final(summaries)@ == old(summaries)@.remove_keys(texts(self.dropped@).to_set()),
    {
        let ghost ids = texts(self.dropped@);
        let ghost before = catalog@;
        let mut i: usize = 0;
        proof {
            assert(ids.take(0) =~= Seq::empty());
            assert(summaries@ =~= old(summaries)@.remove_keys(ids.take(0).to_set()));
        }
        while i < self.dropped.len()
            invariant
                i <= self.dropped@.len(),
                ids == texts(self.dropped@),
                catalog.wf(),
                catalog@ == without_snapshots(before, ids.take(i as int)),
                summaries.wf(),
                summaries.key() == old(summaries).key(),
                summaries.file() == old(summaries).file(),
                summaries@ == old(summaries)@.remove_keys(ids.take(i as int).to_set()),
            decreases self.dropped@.len() - i,
        {
            let id = self.dropped[i].as_str();
            let ghost so_far = ids.take(i as int);
            catalog.delete_snapshot(id);
            summaries.delete(id);
            proof {
                assert(ids.take(i + 1) =~= so_far.push(id@));
                assert(so_far.push(id@).drop_last() =~= so_far);
                assert(so_far.push(id@).to_set() =~= so_far.to_set().insert(id@)) by {
                    assert(so_far.push(id@)[so_far.len() as int] == id@);
                    assert forall|x: Seq<char>|
                        so_far.contains(x) implies so_far.push(id@).contains(x) by {
                        let k = choose|k: int| 0 <= k < so_far.len() && so_far[k] == x;
                        assert(so_far.push(id@)[k] == x);
                    }
                }
                assert(summaries@ =~= old(summaries)@.remove_keys(so_far.push(id@).to_set()));
            }
            i += 1;
        }
        assert(ids.take(i as int) =~= ids);
    }
}

/// The catalog once the given chunks are out of it.
pub open spec fn without_chunks(state: CatalogState, gone: Seq<Seq<char>>) -> CatalogState
    decreases gone.len(),
{
    if gone.len() == 0 {
        state
    } else {
        without_chunk(without_chunks(state, gone.drop_last()), gone.last())
    }
}

/// Whatever of the planned chunks a prune gets to delete, the objects of the kept snapshots stay
/// as they were: the trees are the same, files and devices hold the same chunks, and the catalog
/// still knows those.
pub proof fn a_prune_keeps_kept_snapshots(
    state: CatalogState,
    keep: Seq<Seq<char>>,
    gone: Seq<Seq<char>>,
    k: int,
    x: i64,
)
    requires
        forall|i: int| 0 <= i < gone.len() ==> reclaimable(state, keep).contains(#[trigger] gone[i]),
        0 <= k < keep.len(),
        state.has_snapshot(keep[k]),
        reachable(state, row_of(state.snapshots, snapshot_key(), keep[k]).root, x),
        state.has_object(x),
    ensures
        without_chunks(state, gone).objects == state.objects,
        without_chunks(state, gone).tree == state.tree,
        without_chunks(state, gone).snapshots == state.snapshots,
        state.object(x).kind == ObjectType::File ==> file_chunk_list(without_chunks(state, gone), x)
            == file_chunk_list(state, x),
        state.object(x).kind == ObjectType::BlockDevice ==> layout_list(
            without_chunks(state, gone),
            x,
        ) == layout_list(state, x),
        forall|hash: Seq<char>| #[trigger]
            holds_chunk(state, x, hash) && state.has_chunk(hash) ==> without_chunks(
                state,
                gone,
            ).has_chunk(hash),
    decreases gone.len(),
{
    if gone.len() > 0 {
        let front = gone.drop_last();
        let last = gone.last();
        let before = without_chunks(state, front);
        assert forall|i: int| 0 <= i < front.len() implies reclaimable(state, keep).contains(
            #[trigger] front[i],
        ) by {
            assert(front[i] == gone[i]);
        }
        a_prune_keeps_kept_snapshots(state, keep, front, k, x);
        assert(gone[gone.len() - 1] == last);
        only_dead_chunks_are_reclaimed(state, keep, last);
        assert(!live(state, keep, last));
        assert(!holds_chunk(state, x, last));
        assert(before.object(x) == state.object(x));
        assert(!holds_chunk(before, x, last));
        pruning_keeps_other_content(before, last, x);
        let after = without_chunks(state, gone);
        assert forall|hash: Seq<char>| #[trigger]
            holds_chunk(state, x, hash) && state.has_chunk(hash) implies after.has_chunk(hash) by {
            assert(hash != last);
            let i = choose|i: int| 0 <= i < before.chunks.len() && before.chunks[i].hash == hash;
            let row = before.chunks[i];
            assert(before.chunks.contains(row));
            kept_contains(before.chunks, other_chunk(last), row);
            let j = choose|j: int| 0 <= j < after.chunks.len() && after.chunks[j] == row;
            assert(after.chunks[j].hash == hash);
        }
    }
}

/// A prune that has run to its end leaves the kept snapshots whole: their objects, the entries of
/// their directories, and the chunks of their files and devices, which the catalog still knows.
pub proof fn a_finished_prune_keeps_kept_snapshots(
    state: CatalogState,
    keep: Seq<Seq<char>>,
    dropped: Seq<Seq<char>>,
    gone: Seq<Seq<char>>,
    k: int,
    x: i64,
)
    requires
        state.wf(),
        without_chunks(state, gone).wf(),
        forall|i: int| 0 <= i < gone.len() ==> reclaimable(state, keep).contains(#[trigger] gone[i]),
        0 <= k < keep.len(),
        state.has_snapshot(keep[k]),
        !dropped.contains(keep[k]),
        reachable(state, row_of(state.snapshots, snapshot_key(), keep[k]).root, x),
        state.has_object(x),
    ensures
        ({
            let root = row_of(state.snapshots, snapshot_key(), keep[k]).root;
            let after = without_snapshots(without_chunks(state, gone), dropped);
            &&& after.wf()
            &&& after.has_snapshot(keep[k])
            &&& reachable(after, root, x)
            &&& after.has_object(x)
            &&& after.object(x) == state.object(x)
            &&& state.object(x).kind == ObjectType::Directory ==> children(after.tree, x)
                == children(state.tree, x)
            &&& state.object(x).kind == ObjectType::File ==> file_chunk_list(after, x)
                == file_chunk_list(state, x)
            &&& state.object(x).kind == ObjectType::BlockDevice ==> layout_list(after, x)
                == layout_list(state, x)
            &&& forall|hash: Seq<char>| #[trigger]
                holds_chunk(state, x, hash) && state.has_chunk(hash) ==> after.has_chunk(hash)
        }),
{
    let pruned = without_chunks(state, gone);
    a_prune_keeps_kept_snapshots(state, keep, gone, k, x);
    let s = choose|s: int|
        0 <= s < state.snapshots.len() && snapshot_key()(#[trigger] state.snapshots[s]) == keep[k];
    row_of_unique(state.snapshots, snapshot_key(), s);
    let root = state.snapshots[s].root;
    let p = choose|p: Seq<i64>| #[trigger] is_path(state, p) && p[0] == root && p.last() == x;
    assert forall|i: int| 0 <= i < p.len() - 1 implies edge(pruned, #[trigger] p[i], p[i + 1]) by {
        assert(edge(state, p[i], p[i + 1]));
    }
    assert(is_path(pruned, p));
    other_snapshots_stay_whole(pruned, dropped, s, x);
    let after = without_snapshots(pruned, dropped);
    let t = choose|t: int| 0 <= t < after.snapshots.len() && after.snapshots[t] == state.snapshots[s];
    assert(snapshot_key()(after.snapshots[t]) == keep[k]);
}

} // verus!
