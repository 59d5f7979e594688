//! Removing old snapshots and the chunks that only they needed.
use crate::bytes::hex_text;
use crate::bytes::hex_text_injective;
use crate::bytes::to_hex;
use crate::catalog::index::chunk_hashes;
use crate::catalog::index::extent_chunk_list;
use crate::catalog::index::extent_chunks_of;
use crate::catalog::index::extent_list;
use crate::catalog::index::file_chunk_list;
use crate::catalog::index::file_list;
use crate::catalog::index::layout_list;
use crate::catalog::index::other_chunk;
use crate::catalog::index::other_extent_chunk;
use crate::catalog::index::other_file_chunk;
use crate::catalog::index::snapshot_key;
use crate::catalog::index::snapshot_list;
use crate::catalog::index::CatalogIndex;
use crate::catalog::index::CatalogState;
use crate::catalog::index::ExtentChunkFact;
use crate::catalog::index::FileChunkFact;
use crate::catalog::index::ObjectType;
use crate::catalog::rows::facts;
use crate::catalog::rows::kept;
use crate::catalog::rows::kept_contains;
use crate::catalog::rows::kept_step;
use crate::catalog::rows::row_of;
use crate::catalog::rows::sorted;
use crate::catalog::rows::sorted_is_sorted;
use crate::catalog::walk::any_holds_chunk;
use crate::catalog::walk::holds_chunk;
use crate::catalog::walk::layout_holds;
use crate::catalog::walk::mark_object_chunks;
use crate::catalog::walk::reachable;
use crate::catalog::walk::reachable_from;
use crate::catalog::walk::reachable_objects;
use crate::primitives::clock_shows;
use crate::primitives::read_clock;
use crate::snapshot::dedup::orphaned;
use crate::snapshot::dedup::refers;
use crate::snapshot::dedup::without_snapshots;
use crate::snapshot::dedup::DedupTable;
use crate::snapshot::dedup::RefFact;
use crate::text::holds_text;
use crate::text::push_text;
use crate::text::texts;
use crate::catalog::index::ChunkFact;
use vstd::prelude::*;

verus! {

/// The time before which snapshots are too old to be kept for their age.
pub open spec fn cutoff(now: u64, keep_days: u64) -> int {
    if keep_days == 0 || now < keep_days * 86_400 {
        0
    } else {
        now - keep_days * 86_400
    }
}

/// Whether the snapshot at position `i` of the list is kept: as one of the newest, or because it
/// is young enough.
pub open spec fn is_kept(
    list: Seq<(Seq<char>, u64)>,
    i: int,
    keep_last: usize,
    keep_days: u64,
    now: u64,
) -> bool {
    i < keep_last || (keep_days > 0 && list[i].1 >= cutoff(now, keep_days))
}

/// The kept ones among the first `n` snapshots of the list.
pub open spec fn kept_ids(
    list: Seq<(Seq<char>, u64)>,
    n: nat,
    keep_last: usize,
    keep_days: u64,
    now: u64,
) -> Seq<Seq<char>>
    decreases n,
{
    if n == 0 {
        Seq::empty()
    } else if is_kept(list, n - 1, keep_last, keep_days, now) {
        kept_ids(list, (n - 1) as nat, keep_last, keep_days, now).push(list[n - 1].0)
    } else {
        kept_ids(list, (n - 1) as nat, keep_last, keep_days, now)
    }
}

proof fn kept_among(
    list: Seq<(Seq<char>, u64)>,
    n: nat,
    keep_last: usize,
    keep_days: u64,
    now: u64,
    id: Seq<char>,
)
    requires
        n <= list.len(),
    ensures
        kept_ids(list, n, keep_last, keep_days, now).contains(id) <==> exists|i: int|
            0 <= i < n && (#[trigger] list[i]).0 == id && (i < keep_last || (keep_days > 0
                && list[i].1 + keep_days * 86_400 >= now)),
    decreases n,
{
    if n > 0 {
        let some = kept_ids(list, (n - 1) as nat, keep_last, keep_days, now);
        let all = kept_ids(list, n, keep_last, keep_days, now);
        kept_among(list, (n - 1) as nat, keep_last, keep_days, now, id);
        let last = n - 1;
        let stays = last < keep_last || (keep_days > 0 && list[last].1 + keep_days * 86_400 >= now);
        assert(stays <==> is_kept(list, last, keep_last, keep_days, now));
        if stays {
            assert(all[some.len() as int] == list[last].0);
            if some.contains(id) {
                let k = choose|k: int| 0 <= k < some.len() && some[k] == id;
                assert(all[k] == id);
            }
            if all.contains(id) {
                let k = choose|k: int| 0 <= k < all.len() && all[k] == id;
                if k < some.len() {
                    assert(some[k] == id);
                }
            }
        }
    }
}

/// What a prune keeps, for a list with the newest snapshot first: the newest `keep_last` snapshots
/// whatever their age, those of the last `keep_days` days where that many days are asked for, and
/// no other.
pub proof fn the_newest_and_the_recent_stay(
    list: Seq<(Seq<char>, u64)>,
    keep_last: usize,
    keep_days: u64,
    now: u64,
    id: Seq<char>,
)
    ensures
        kept_ids(list, list.len(), keep_last, keep_days, now).contains(id) <==> exists|i: int|
            0 <= i < list.len() && (#[trigger] list[i]).0 == id && (i < keep_last || (keep_days > 0
                && list[i].1 + keep_days * 86_400 >= now)),
{
    kept_among(list, list.len(), keep_last, keep_days, now, id);
}

/// The ids of the list that do not occur among the kept ones.
pub open spec fn dropped_ids(list: Seq<(Seq<char>, u64)>, keep: Seq<Seq<char>>) -> Seq<Seq<char>>
    decreases list.len(),
{
    if list.len() == 0 {
        Seq::empty()
    } else if keep.contains(list.last().0) {
        dropped_ids(list.drop_last(), keep)
    } else {
        dropped_ids(list.drop_last(), keep).push(list.last().0)
    }
}

/// A snapshot is kept or dropped, never both.
pub proof fn kept_or_dropped(list: Seq<(Seq<char>, u64)>, keep: Seq<Seq<char>>, i: int)
    requires
        0 <= i < list.len(),
    ensures
        keep.contains(list[i].0) <==> !dropped_ids(list, keep).contains(list[i].0),
{
    dropped_contains(list, keep, list[i].0);
}

proof fn dropped_contains(list: Seq<(Seq<char>, u64)>, keep: Seq<Seq<char>>, id: Seq<char>)
    ensures
        dropped_ids(list, keep).contains(id) <==> (!keep.contains(id) && exists|k: int|
            0 <= k < list.len() && (#[trigger] list[k]).0 == id),
    decreases list.len(),
{
    if list.len() > 0 {
        let front = list.drop_last();
        let d = dropped_ids(front, keep);
        let all = dropped_ids(list, keep);
        dropped_contains(front, keep, id);
        if exists|k: int| 0 <= k < list.len() && (#[trigger] list[k]).0 == id {
            let k = choose|k: int| 0 <= k < list.len() && (#[trigger] list[k]).0 == id;
            if k < front.len() {
                assert(front[k].0 == id);
            }
        }
        if exists|k: int| 0 <= k < front.len() && (#[trigger] front[k]).0 == id {
            let k = choose|k: int| 0 <= k < front.len() && (#[trigger] front[k]).0 == id;
            assert(list[k].0 == id);
        }
        assert(list[list.len() - 1] == list.last());
        if !keep.contains(list.last().0) {
            assert(all[d.len() as int] == list.last().0);
            if d.contains(id) {
                let k = choose|k: int| 0 <= k < d.len() && d[k] == id;
                assert(all[k] == id);
            }
            if all.contains(id) {
                let k = choose|k: int| 0 <= k < all.len() && all[k] == id;
                if k < d.len() {
                    assert(d[k] == id);
                }
            }
        }
    }
}

/// Whether the tree of one of the snapshots has the chunk.
pub open spec fn live(state: CatalogState, keep: Seq<Seq<char>>, hash: Seq<char>) -> bool {
    exists|k: int, x: i64|
        0 <= k < keep.len() && state.has_snapshot(#[trigger] keep[k]) && reachable(
            state,
            row_of(state.snapshots, snapshot_key(), keep[k]).root,
            x,
        ) && #[trigger] holds_chunk(state, x, hash)
}

pub open spec fn not_live(state: CatalogState, keep: Seq<Seq<char>>) -> spec_fn(Seq<char>) -> bool {
    |hash: Seq<char>| !live(state, keep, hash)
}

/// The chunks of the catalog that no kept snapshot needs.
pub open spec fn reclaimable(state: CatalogState, keep: Seq<Seq<char>>) -> Seq<Seq<char>> {
    kept(chunk_hashes(state), not_live(state, keep))
}

/// No chunk that a kept snapshot needs is reclaimed, and every other chunk of the catalog is.
pub proof fn only_dead_chunks_are_reclaimed(
    state: CatalogState,
    keep: Seq<Seq<char>>,
    hash: Seq<char>,
)
    ensures
        reclaimable(state, keep).contains(hash) <==> (chunk_hashes(state).contains(hash) && !live(
            state,
            keep,
            hash,
        )),
{
    kept_contains(chunk_hashes(state), not_live(state, keep), hash);
}

/// The snapshots that a prune keeps.
pub fn select_snapshots_to_keep(
    snapshots: &Vec<(String, u64)>,
    keep_last: usize,
    keep_days: u64,
    now: u64,
) -> (keep: Vec<String>)
    requires
        keep_days * 86_400 <= u64::MAX,
    ensures
        texts(keep@) == kept_ids(facts(snapshots@), snapshots@.len(), keep_last, keep_days, now),
        forall|i: int|
            0 <= i < snapshots@.len() && i < keep_last ==> texts(keep@).contains(
                (#[trigger] snapshots@[i]).0@,
            ),
        forall|i: int|
            0 <= i < snapshots@.len() && keep_days > 0 && snapshots@[i].1 + keep_days * 86_400
                >= now ==> texts(keep@).contains((#[trigger] snapshots@[i]).0@),
        forall|id: Seq<char>| #[trigger]
            texts(keep@).contains(id) ==> exists|i: int|
                0 <= i < snapshots@.len() && (#[trigger] snapshots@[i]).0@ == id && (i < keep_last
                    || (keep_days > 0 && snapshots@[i].1 + keep_days * 86_400 >= now)),
{
    let ghost list = facts(snapshots@);
    let cutoff_time: u64 = if keep_days == 0 {
        0
    } else {
        let window: u64 = keep_days * 86_400;
        if now < window {
            0
        } else {
            now - window
        }
    };
    let mut keep: Vec<String> = Vec::new();
    let mut i: usize = 0;
    assert(texts(keep@) =~= Seq::<Seq<char>>::empty());
    while i < snapshots.len()
        invariant
            i <= snapshots@.len(),
            list == facts(snapshots@),
            cutoff_time == cutoff(now, keep_days),
            texts(keep@) == kept_ids(list, i as nat, keep_last, keep_days, now),
        decreases snapshots@.len() - i,
    {
        assert(list[i as int] == snapshots@[i as int]@);
        if i < keep_last || (keep_days > 0 && snapshots[i].1 >= cutoff_time) {
            push_text(&mut keep, snapshots[i].0.as_str());
        }
        i += 1;
    }
    proof {
        assert forall|i: int|
            0 <= i < snapshots@.len() && (i < keep_last || (keep_days > 0 && snapshots@[i].1
                + keep_days * 86_400 >= now)) implies texts(keep@).contains(
            (#[trigger] snapshots@[i]).0@,
        ) by {
            assert(list[i] == snapshots@[i]@);
            the_newest_and_the_recent_stay(list, keep_last, keep_days, now, list[i].0);
        }
        assert forall|id: Seq<char>| #[trigger] texts(keep@).contains(id) implies exists|i: int|
            0 <= i < snapshots@.len() && (#[trigger] snapshots@[i]).0@ == id && (i < keep_last || (
            keep_days > 0 && snapshots@[i].1 + keep_days * 86_400 >= now)) by {
            the_newest_and_the_recent_stay(list, keep_last, keep_days, now, id);
            let i = choose|i: int|
                0 <= i < list.len() && (#[trigger] list[i]).0 == id && (i < keep_last || (keep_days
                    > 0 && list[i].1 + keep_days * 86_400 >= now));
            assert(list[i] == snapshots@[i]@);
        }
    }
    keep
}

fn select_snapshots_to_drop(snapshots: &Vec<(String, u64)>, keep: &Vec<String>) -> (dropped: Vec<
    String,
>)
    ensures
        texts(dropped@) == dropped_ids(facts(snapshots@), texts(keep@)),
{
    let ghost list = facts(snapshots@);
    let mut dropped: Vec<String> = Vec::new();
    let mut i: usize = 0;
    assert(texts(dropped@) =~= dropped_ids(list.take(0), texts(keep@)));
    while i < snapshots.len()
        invariant
            i <= snapshots@.len(),
            list == facts(snapshots@),
            texts(dropped@) == dropped_ids(list.take(i as int), texts(keep@)),
        decreases snapshots@.len() - i,
    {
        proof {
            assert(list[i as int] == snapshots@[i as int]@);
            assert(list.take(i as int + 1).drop_last() =~= list.take(i as int));
            assert(list.take(i as int + 1).last() == list[i as int]);
        }
        if !holds_text(keep, snapshots[i].0.as_str()) {
            push_text(&mut dropped, snapshots[i].0.as_str());
        }
        i += 1;
    }
    assert(list.take(i as int) =~= list);
    dropped
}

/// What a prune is going to do to the catalog.
#[derive(Debug)]
pub struct PrunePlan {
    pub keep: Vec<String>,
    pub dropped: Vec<String>,
    /// The chunks that no kept snapshot needs.
    pub reclaimable: Vec<String>,
}

fn roots_of(catalog: &CatalogIndex, ids: &Vec<String>) -> (roots: Vec<i64>)
    requires
        catalog.wf(),
    ensures
        forall|x: i64|
            roots@.contains(x) <==> exists|k: int|
                0 <= k < ids@.len() && catalog@.has_snapshot(#[trigger] texts(ids@)[k]) && row_of(
                    catalog@.snapshots,
                    snapshot_key(),
                    texts(ids@)[k],
                ).root == x,
{
    let mut roots: Vec<i64> = Vec::new();
    let mut i: usize = 0;
    while i < ids.len()
        invariant
            catalog.wf(),
            i <= ids@.len(),
            forall|x: i64| #[trigger]
                roots@.contains(x) <==> exists|k: int|
                    0 <= k < i && catalog@.has_snapshot(#[trigger] texts(ids@)[k]) && row_of(
                        catalog@.snapshots,
                        snapshot_key(),
                        texts(ids@)[k],
                    ).root == x,
        decreases ids@.len() - i,
    {
        let ghost was = roots@;
        let ghost id = texts(ids@)[i as int];
        match catalog.get_snapshot(ids[i].as_str()) {
            Some((root, _)) => {
                roots.push(root);
                assert(roots@[was.len() as int] == root);
                assert forall|x: i64| #[trigger] roots@.contains(x) <==> (was.contains(x) || x
                    == root) by {
                    if was.contains(x) {
                        let k = choose|k: int| 0 <= k < was.len() && was[k] == x;
                        assert(roots@[k] == x);
                    }
                    if roots@.contains(x) {
                        let k = choose|k: int| 0 <= k < roots@.len() && roots@[k] == x;
                        if k < was.len() {
                            assert(was[k] == x);
                        }
                    }
                }
            },
            None => {},
        }
        proof {
            assert forall|x: i64| #[trigger]
                roots@.contains(x) <==> exists|k: int|
                    0 <= k < i + 1 && catalog@.has_snapshot(#[trigger] texts(ids@)[k]) && row_of(
                        catalog@.snapshots,
                        snapshot_key(),
                        texts(ids@)[k],
                    ).root == x by {
                if was.contains(x) {
                    let k = choose|k: int|
                        0 <= k < i && catalog@.has_snapshot(#[trigger] texts(ids@)[k]) && row_of(
                            catalog@.snapshots,
                            snapshot_key(),
                            texts(ids@)[k],
                        ).root == x;
                    assert(catalog@.has_snapshot(texts(ids@)[k]));
                }
                if catalog@.has_snapshot(id) && row_of(catalog@.snapshots, snapshot_key(), id).root
                    == x {
                    assert(texts(ids@)[i as int] == id);
                }
            }
        }
        i += 1;
    }
    roots
}

/// The chunks that the trees of the given snapshots need.
pub fn live_chunks(catalog: &CatalogIndex, keep: &Vec<String>) -> (active: Vec<String>)
    requires
        catalog.wf(),
    ensures
        forall|h: Seq<char>| #[trigger]
            texts(active@).contains(h) <==> live(catalog@, texts(keep@), h),
{
    let ghost state = catalog@;
    let roots = roots_of(catalog, keep);
    let objects = reachable_objects(catalog, &roots);
    let active = mark_object_chunks(catalog, &objects);
    proof {
        let ids = texts(keep@);
        assert forall|h: Seq<char>| #[trigger] texts(active@).contains(h) <==> live(
            state,
            ids,
            h,
        ) by {
            if any_holds_chunk(state, objects@, h) {
                let j = choose|j: int|
                    0 <= j < objects@.len() && holds_chunk(state, #[trigger] objects@[j], h);
                let x = objects@[j];
                assert(objects@.contains(x));
                let r = choose|r: int|
                    0 <= r < roots@.len() && reachable(state, #[trigger] roots@[r], x);
                assert(roots@.contains(roots@[r]));
                let k = choose|k: int|
                    0 <= k < ids.len() && state.has_snapshot(#[trigger] ids[k]) && row_of(
                        state.snapshots,
                        snapshot_key(),
                        ids[k],
                    ).root == roots@[r];
                assert(holds_chunk(state, x, h));
            }
            if live(state, ids, h) {
                let (k, x) = choose|k: int, x: i64|
                    0 <= k < ids.len() && state.has_snapshot(#[trigger] ids[k]) && reachable(
                        state,
                        row_of(state.snapshots, snapshot_key(), ids[k]).root,
                        x,
                    ) && #[trigger] holds_chunk(state, x, h);
                let root = row_of(state.snapshots, snapshot_key(), ids[k]).root;
                assert(roots@.contains(root));
                let r = choose|r: int| 0 <= r < roots@.len() && roots@[r] == root;
                assert(reachable_from(state, roots@, x));
                assert(objects@.contains(x));
                let j = choose|j: int| 0 <= j < objects@.len() && objects@[j] == x;
                assert(any_holds_chunk(state, objects@, h));
            }
        }
    }
    active
}

/// The chunks of a list that do not occur in another list.
pub open spec fn not_in(list: Seq<Seq<char>>) -> spec_fn(Seq<char>) -> bool {
    |h: Seq<char>| !list.contains(h)
}

/// The texts of `all` that do not occur in `without`.
pub fn texts_without(all: &Vec<String>, without: &Vec<String>) -> (out: Vec<String>)
    ensures
        texts(out@) == kept(texts(all@), not_in(texts(without@))),
{
    let ghost list = texts(all@);
    let mut out: Vec<String> = Vec::new();
    let mut i: usize = 0;
    assert(texts(out@) =~= kept(list.take(0), not_in(texts(without@))));
    while i < all.len()
        invariant
            i <= all@.len(),
            list == texts(all@),
            texts(out@) == kept(list.take(i as int), not_in(texts(without@))),
        decreases all@.len() - i,
    {
        proof {
            kept_step(list, not_in(texts(without@)), i as int);
        }
        if !holds_text(without, all[i].as_str()) {
            push_text(&mut out, all[i].as_str());
        }
        i += 1;
    }
    assert(list.take(i as int) =~= list);
    out
}

proof fn kept_same<F>(rows: Seq<F>, a: spec_fn(F) -> bool, b: spec_fn(F) -> bool)
    requires
        forall|x: F| #[trigger] a(x) == b(x),
    ensures
        kept(rows, a) == kept(rows, b),
    decreases rows.len(),
{
    if rows.len() > 0 {
        kept_same(rows.drop_last(), a, b);
        assert(a(rows.last()) == b(rows.last()));
    }
}

/// Plans a prune at a given time.
pub fn plan_prune(
    catalog: &CatalogIndex,
    keep_last: usize,
    keep_days: u64,
    now: u64,
) -> (plan: PrunePlan)
    requires
        catalog.wf(),
        keep_days * 86_400 <= u64::MAX,
    ensures
        texts(plan.keep@) == kept_ids(
            snapshot_list(catalog@),
            snapshot_list(catalog@).len(),
            keep_last,
            keep_days,
            now,
        ),
        texts(plan.dropped@) == dropped_ids(snapshot_list(catalog@), texts(plan.keep@)),
        texts(plan.reclaimable@) == reclaimable(catalog@, texts(plan.keep@)),
{
    let snapshots = catalog.list_snapshots();
    let keep = select_snapshots_to_keep(&snapshots, keep_last, keep_days, now);
    let dropped = select_snapshots_to_drop(&snapshots, &keep);
    let active = live_chunks(catalog, &keep);
    let all = catalog.list_all_chunk_hashes();
    let reclaimable_list = texts_without(&all, &active);
    proof {
        let a = not_in(texts(active@));
        let b = not_live(catalog@, texts(keep@));
        assert forall|h: Seq<char>| #[trigger] a(h) == b(h) by {
            assert(texts(active@).contains(h) <==> live(catalog@, texts(keep@), h));
        }
        kept_same(texts(all@), a, b);
    }
    PrunePlan { keep, dropped, reclaimable: reclaimable_list }
}

/// Plans a prune at the current time.
pub fn plan_prune_now(catalog: &CatalogIndex, keep_last: usize, keep_days: u64) -> (plan: PrunePlan)
    requires
        catalog.wf(),
        keep_days * 86_400 <= u64::MAX,
    ensures
        exists|now: u64|
            #[trigger] clock_shows(now) && texts(plan.keep@) == kept_ids(
                snapshot_list(catalog@),
                snapshot_list(catalog@).len(),
                keep_last,
                keep_days,
                now,
            ),
        texts(plan.dropped@) == dropped_ids(snapshot_list(catalog@), texts(plan.keep@)),
        texts(plan.reclaimable@) == reclaimable(catalog@, texts(plan.keep@)),
{
    plan_prune(catalog, keep_last, keep_days, read_clock())
}

/// The hexadecimal forms of hashes.
pub open spec fn hex_list(list: Seq<[u8; 32]>) -> Seq<Seq<char>> {
    Seq::new(list.len(), |i: int| hex_text(list[i]@))
}

fn hex_without(freed: &Vec<[u8; 32]>, reclaimable_list: &Vec<String>) -> (out: Vec<String>)
    ensures
        texts(out@) == kept(hex_list(freed@), not_in(texts(reclaimable_list@))),
{
    let mut all: Vec<String> = Vec::new();
    let mut i: usize = 0;
    while i < freed.len()
        invariant
            i <= freed@.len(),
            all@.len() == i,
            forall|j: int| 0 <= j < i ==> (#[trigger] all@[j])@ == hex_text(freed@[j]@),
        decreases freed@.len() - i,
    {
        all.push(to_hex(freed[i].as_slice()));
        i += 1;
    }
    assert(texts(all@) =~= hex_list(freed@));
    texts_without(&all, reclaimable_list)
}

/// Whether a chunk is freed by dropping snapshots beside those reclaimed from the catalog.
pub open spec fn freed_beside(
    refs: Seq<RefFact>,
    dropped: Seq<Seq<char>>,
    reclaimed: Seq<Seq<char>>,
    hex: Seq<char>,
) -> bool {
    !reclaimed.contains(hex) && exists|h: [u8; 32]| #[trigger]
        orphaned(refs, dropped, h) && hex_text(h@) == hex
}

proof fn hex_without_exact(
    refs: Seq<RefFact>,
    dropped: Seq<Seq<char>>,
    reclaimed: Seq<Seq<char>>,
    freed: Seq<[u8; 32]>,
    hex: Seq<char>,
)
    requires
        forall|h: [u8; 32]| #[trigger] freed.contains(h) <==> orphaned(refs, dropped, h),
    ensures
        kept(hex_list(freed), not_in(reclaimed)).contains(hex) <==> freed_beside(
            refs,
            dropped,
            reclaimed,
            hex,
        ),
{
    kept_contains(hex_list(freed), not_in(reclaimed), hex);
    if hex_list(freed).contains(hex) {
        let i = choose|i: int| 0 <= i < freed.len() && hex_list(freed)[i] == hex;
        assert(freed.contains(freed[i]));
        assert(orphaned(refs, dropped, freed[i]));
    }
    if exists|h: [u8; 32]| #[trigger] orphaned(refs, dropped, h) && hex_text(h@) == hex {
        let h = choose|h: [u8; 32]| #[trigger]
            orphaned(refs, dropped, h) && hex_text(h@) == hex;
        assert(freed.contains(h));
        let i = choose|i: int| 0 <= i < freed.len() && freed[i] == h;
        assert(hex_list(freed)[i] == hex);
    }
}

/// Storage keeps what a kept snapshot needs: a chunk to which a kept snapshot refers, as a backup
/// does with each of its chunks, is not freed by dropping the others; and one that the tree of a
/// kept snapshot has is not reclaimed.
pub proof fn referred_chunks_stay(
    state: CatalogState,
    refs: Seq<RefFact>,
    keep: Seq<Seq<char>>,
    hash: [u8; 32],
    snapshot: Seq<char>,
)
    requires
        keep.contains(snapshot),
        refers(refs, hash, snapshot),
    ensures
        !freed_beside(
            refs,
            dropped_ids(snapshot_list(state), keep),
            reclaimable(state, keep),
            hex_text(hash@),
        ),
        live(state, keep, hex_text(hash@)) ==> !reclaimable(state, keep).contains(
            hex_text(hash@),
        ),
{
    let dropped = dropped_ids(snapshot_list(state), keep);
    dropped_contains(snapshot_list(state), keep, snapshot);
    only_dead_chunks_are_reclaimed(state, keep, hex_text(hash@));
    assert forall|h: [u8; 32]| #[trigger] orphaned(refs, dropped, h) implies hex_text(h@)
        != hex_text(hash@) by {
        if hex_text(h@) == hex_text(hash@) {
            hex_text_injective(h@, hash@);
            assert(h =~= hash);
        }
    }
}

/// Drops the references of snapshots, and gives the chunks outside the catalog that are free
/// then.
pub fn release_references(dedup: &mut DedupTable, plan: &PrunePlan) -> (freed: Vec<String>)
    requires
        old(dedup).wf(),
    ensures
        final(dedup).wf(),
        final(dedup)@ == without_snapshots(old(dedup)@, texts(plan.dropped@)),
        forall|hex: Seq<char>| #[trigger]
            texts(freed@).contains(hex) <==> freed_beside(
                old(dedup)@,
                texts(plan.dropped@),
                texts(plan.reclaimable@),
                hex,
            ),
{
    let ghost refs = dedup@;
    let list = dedup.remove_snapshots_references(&plan.dropped);
    let freed = hex_without(&list, &plan.reclaimable);
    proof {
        assert forall|hex: Seq<char>| #[trigger] texts(freed@).contains(hex) <==> freed_beside(
            refs,
            texts(plan.dropped@),
            texts(plan.reclaimable@),
            hex,
        ) by {
            hex_without_exact(
                refs,
                texts(plan.dropped@),
                texts(plan.reclaimable@),
                list@,
                hex,
            );
        }
    }
    freed
}

/// The chunks outside the catalog that `release_references` would free.
pub fn preview_references(dedup: &DedupTable, plan: &PrunePlan) -> (freed: Vec<String>)
    requires
        dedup.wf(),
    ensures
        forall|hex: Seq<char>| #[trigger]
            texts(freed@).contains(hex) <==> freed_beside(
                dedup@,
                texts(plan.dropped@),
                texts(plan.reclaimable@),
                hex,
            ),
{
    let list = dedup.would_be_freed(&plan.dropped);
    let freed = hex_without(&list, &plan.reclaimable);
    proof {
        assert forall|hex: Seq<char>| #[trigger] texts(freed@).contains(hex) <==> freed_beside(
            dedup@,
            texts(plan.dropped@),
            texts(plan.reclaimable@),
            hex,
        ) by {
            hex_without_exact(
                dedup@,
                texts(plan.dropped@),
                texts(plan.reclaimable@),
                list@,
                hex,
            );
        }
    }
    freed
}

/// The catalog without a chunk and without its uses.
pub open spec fn without_chunk(state: CatalogState, hash: Seq<char>) -> CatalogState {
    CatalogState {
        chunks: kept(state.chunks, other_chunk(hash)),
        file_chunks: kept(state.file_chunks, other_file_chunk(hash)),
        extent_chunks: kept(state.extent_chunks, other_extent_chunk(hash)),
        ..state
    }
}

/// Takes a chunk that is gone from storage out of the catalog.
pub fn forget_chunk(catalog: &mut CatalogIndex, hash: &str)
    requires
        old(catalog).wf(),
    ensures
        final(catalog).wf(),
        final(catalog)@ == without_chunk(old(catalog)@, hash@),
        !final(catalog)@.has_chunk(hash@),
{
    catalog.delete_file_chunks_by_hash(hash);
    let _ = catalog.delete_chunk(hash);
}

proof fn file_list_contains(rows: Seq<FileChunkFact>, file: i64, hash: Seq<char>)
    ensures
        (exists|k: int|
            0 <= k < file_list(rows, file).len() && (#[trigger] file_list(rows, file)[k]).1
                == hash) <==> (exists|i: int|
            0 <= i < rows.len() && (#[trigger] rows[i]).file == file && rows[i].hash == hash),
    decreases rows.len(),
{
    if rows.len() > 0 {
        let front = rows.drop_last();
        let l = file_list(rows, file);
        let f = file_list(front, file);
        file_list_contains(front, file, hash);
        if exists|k: int| 0 <= k < l.len() && (#[trigger] l[k]).1 == hash {
            let k = choose|k: int| 0 <= k < l.len() && (#[trigger] l[k]).1 == hash;
            if k < f.len() {
                assert(f[k].1 == hash);
                let i = choose|i: int|
                    0 <= i < front.len() && (#[trigger] front[i]).file == file && front[i].hash
                        == hash;
                assert(rows[i] == front[i]);
            } else {
                assert(rows[rows.len() - 1].hash == hash);
            }
        }
        if exists|i: int|
            0 <= i < rows.len() && (#[trigger] rows[i]).file == file && rows[i].hash == hash {
            let i = choose|i: int|
                0 <= i < rows.len() && (#[trigger] rows[i]).file == file && rows[i].hash == hash;
            if i < front.len() {
                assert(front[i] == rows[i]);
                let k = choose|k: int| 0 <= k < f.len() && (#[trigger] f[k]).1 == hash;
                assert(l[k].1 == hash);
            } else {
                assert(l[f.len() as int].1 == hash);
            }
        }
    }
}

proof fn file_list_without(rows: Seq<FileChunkFact>, file: i64, hash: Seq<char>)
    requires
        forall|i: int|
            0 <= i < rows.len() && (#[trigger] rows[i]).file == file ==> rows[i].hash != hash,
    ensures
        file_list(kept(rows, other_file_chunk(hash)), file) == file_list(rows, file),
    decreases rows.len(),
{
    if rows.len() > 0 {
        let front = rows.drop_last();
        assert forall|i: int| 0 <= i < front.len() && (#[trigger] front[i]).file == file implies front[i].hash
            != hash by {
            assert(rows[i] == front[i]);
        }
        file_list_without(front, file, hash);
        let k = kept(front, other_file_chunk(hash));
        assert(rows[rows.len() - 1] == rows.last());
        if rows.last().hash != hash {
            assert(k.push(rows.last()).drop_last() =~= k);
        }
    }
}

proof fn extent_chunks_without(
    rows: Seq<ExtentChunkFact>,
    object: i64,
    idx: u64,
    hash: Seq<char>,
)
    requires
        forall|i: int|
            0 <= i < rows.len() && (#[trigger] rows[i]).object == object && rows[i].extent_idx
                == idx ==> rows[i].hash != hash,
    ensures
        extent_chunks_of(kept(rows, other_extent_chunk(hash)), object, idx) == extent_chunks_of(
            rows,
            object,
            idx,
        ),
    decreases rows.len(),
{
    if rows.len() > 0 {
        let front = rows.drop_last();
        assert forall|i: int|
            0 <= i < front.len() && (#[trigger] front[i]).object == object && front[i].extent_idx
                == idx implies front[i].hash != hash by {
            assert(rows[i] == front[i]);
        }
        extent_chunks_without(front, object, idx, hash);
        let k = kept(front, other_extent_chunk(hash));
        assert(rows[rows.len() - 1] == rows.last());
        if rows.last().hash != hash {
            assert(k.push(rows.last()).drop_last() =~= k);
        }
    }
}

proof fn extent_chunks_contain(
    rows: Seq<ExtentChunkFact>,
    object: i64,
    idx: u64,
    i: int,
)
    requires
        0 <= i < rows.len(),
        rows[i].object == object,
        rows[i].extent_idx == idx,
    ensures
        exists|k: int|
            0 <= k < extent_chunks_of(rows, object, idx).len() && (#[trigger] extent_chunks_of(
                rows,
                object,
                idx,
            )[k]).1.1 == rows[i].hash,
    decreases rows.len(),
{
    let front = rows.drop_last();
    let l = extent_chunks_of(rows, object, idx);
    let f = extent_chunks_of(front, object, idx);
    if i < front.len() {
        assert(front[i] == rows[i]);
        extent_chunks_contain(front, object, idx, i);
        let k = choose|k: int| 0 <= k < f.len() && (#[trigger] f[k]).1.1 == rows[i].hash;
        assert(l[k].1.1 == rows[i].hash);
    } else {
        assert(l[f.len() as int].1.1 == rows[i].hash);
    }
}

proof fn sorted_contains<F>(s: Seq<(i64, F)>, k: int) -> (m: int)
    requires
        0 <= k < s.len(),
    ensures
        0 <= m < sorted(s).len(),
        sorted(s)[m] == s[k],
{
    broadcast use vstd::seq_lib::group_to_multiset_ensures;

    sorted_is_sorted(s);
    assert(s.contains(s[k]));
    assert(s.to_multiset().count(s[k]) > 0);
    assert(sorted(s).to_multiset().count(s[k]) > 0);
    assert(sorted(s).contains(s[k]));
    choose|m: int| 0 <= m < sorted(s).len() && sorted(s)[m] == s[k]
}

/// Taking a chunk out of the catalog leaves the content of every object that does not hold it as
/// it was, and no tree changes. So pruning never damages what a kept snapshot needs.
pub proof fn pruning_keeps_other_content(state: CatalogState, hash: Seq<char>, x: i64)
    requires
        state.has_object(x),
        !holds_chunk(state, x, hash),
    ensures
        without_chunk(state, hash).objects == state.objects,
        without_chunk(state, hash).tree == state.tree,
        without_chunk(state, hash).snapshots == state.snapshots,
        state.object(x).kind == ObjectType::File ==> file_chunk_list(without_chunk(state, hash), x)
            == file_chunk_list(state, x),
        state.object(x).kind == ObjectType::BlockDevice ==> layout_list(
            without_chunk(state, hash),
            x,
        ) == layout_list(state, x),
{
    let after = without_chunk(state, hash);
    if state.object(x).kind == ObjectType::File {
        assert forall|i: int|
            0 <= i < state.file_chunks.len() && (#[trigger] state.file_chunks[i]).file
                == x implies state.file_chunks[i].hash != hash by {
            if state.file_chunks[i].hash == hash {
                let list = file_list(state.file_chunks, x);
                file_list_contains(state.file_chunks, x, hash);
                let k = choose|k: int| 0 <= k < list.len() && (#[trigger] list[k]).1 == hash;
                let m = sorted_contains(list, k);
                assert(file_chunk_list(state, x)[m] == hash);
            }
        }
        file_list_without(state.file_chunks, x, hash);
    }
    if state.object(x).kind == ObjectType::BlockDevice {
        let layout = layout_list(state, x);
        let el = extent_list(state, x);
        assert(extent_list(after, x) == el);
        assert forall|i: int| 0 <= i < el.len() implies extent_chunk_list(after, x, el[i].0)
            == #[trigger] extent_chunk_list(state, x, el[i].0) by {
            let idx = el[i].0;
            let rows = state.extent_chunks;
            assert forall|n: int|
                0 <= n < rows.len() && (#[trigger] rows[n]).object == x && rows[n].extent_idx
                    == idx implies rows[n].hash != hash by {
                if rows[n].hash == hash {
                    extent_chunks_contain(rows, x, idx, n);
                    let list = extent_chunks_of(rows, x, idx);
                    let k = choose|k: int| 0 <= k < list.len() && (#[trigger] list[k]).1.1 == hash;
                    let m = sorted_contains(list, k);
                    assert(layout[i].chunks[m].1 == hash);
                    assert(layout_holds(layout, hash));
                }
            }
            extent_chunks_without(rows, x, idx, hash);
        }
        assert(layout_list(after, x) =~= layout) by {
            assert forall|i: int| 0 <= i < layout.len() implies layout_list(after, x)[i]
                == layout[i] by {
                assert(extent_chunk_list(after, x, el[i].0) == extent_chunk_list(
                    state,
                    x,
                    el[i].0,
                ));
            }
        }
    }
}

/// What no object of a kept snapshot holds is reclaimed, and what one holds is not.
pub proof fn unneeded_chunks_go(state: CatalogState, keep: Seq<Seq<char>>, hash: Seq<char>)
    requires
        chunk_hashes(state).contains(hash),
    ensures
        reclaimable(state, keep).contains(hash) <==> forall|k: int, x: i64|
            0 <= k < keep.len() && state.has_snapshot(#[trigger] keep[k]) && reachable(
                state,
                row_of(state.snapshots, snapshot_key(), keep[k]).root,
                x,
            ) ==> !#[trigger] holds_chunk(state, x, hash),
{
    only_dead_chunks_are_reclaimed(state, keep, hash);
}

/// Every snapshot is kept or dropped: those in the list that are not kept, and no others, are
/// dropped.
pub proof fn the_others_are_dropped(
    list: Seq<(Seq<char>, u64)>,
    keep: Seq<Seq<char>>,
    id: Seq<char>,
)
    ensures
        dropped_ids(list, keep).contains(id) <==> !keep.contains(id) && exists|k: int|
            0 <= k < list.len() && (#[trigger] list[k]).0 == id,
{
    dropped_contains(list, keep, id);
}

/// Forgetting a chunk takes its row and every use of it, and nothing else.
pub proof fn forgotten_chunks_leave_no_use(state: CatalogState, hash: Seq<char>)
    ensures
        ({
            let after = without_chunk(state, hash);
            &&& forall|c: ChunkFact| #[trigger]
                after.chunks.contains(c) <==> state.chunks.contains(c) && c.hash != hash
            &&& forall|c: FileChunkFact| #[trigger]
                after.file_chunks.contains(c) <==> state.file_chunks.contains(c) && c.hash != hash
            &&& forall|c: ExtentChunkFact| #[trigger]
                after.extent_chunks.contains(c) <==> state.extent_chunks.contains(c) && c.hash
                    != hash
            &&& after.objects == state.objects
            &&& after.tree == state.tree
            &&& after.extents == state.extents
            &&& after.snapshots == state.snapshots
        }),
{
    assert forall|c: ChunkFact| #[trigger]
        without_chunk(state, hash).chunks.contains(c) <==> state.chunks.contains(c) && c.hash
            != hash by {
        kept_contains(state.chunks, other_chunk(hash), c);
    }
    assert forall|c: FileChunkFact| #[trigger]
        without_chunk(state, hash).file_chunks.contains(c) <==> state.file_chunks.contains(c)
            && c.hash != hash by {
        kept_contains(state.file_chunks, other_file_chunk(hash), c);
    }
    assert forall|c: ExtentChunkFact| #[trigger]
        without_chunk(state, hash).extent_chunks.contains(c) <==> state.extent_chunks.contains(c)
            && c.hash != hash by {
        kept_contains(state.extent_chunks, other_extent_chunk(hash), c);
    }
}

} // verus!
