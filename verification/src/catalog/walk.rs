//! Walks through the directory trees of the catalog.
use crate::catalog::index::children;
use crate::catalog::index::file_chunk_list;
use crate::catalog::index::layout_list;
use crate::catalog::index::CatalogIndex;
use crate::catalog::index::CatalogState;
use crate::catalog::index::ExtentLayout;
use crate::catalog::index::ObjectType;
use crate::catalog::index::TreeFact;
use crate::catalog::rows::facts;
use crate::text::copy_text;
use crate::text::holds_text;
use crate::text::texts;
use crate::text::texts_push;
use vstd::prelude::*;

verus! {

/// Whether `b` is an entry of the directory `a`.
pub open spec fn edge(state: CatalogState, a: i64, b: i64) -> bool {
    &&& state.has_object(a)
    &&& state.object(a).kind == ObjectType::Directory
    &&& exists|i: int|
        0 <= i < state.tree.len() && (#[trigger] state.tree[i]).parent == a && state.tree[i].child
            == b
}

/// Whether every object of the list is an entry of the one before.
pub open spec fn is_path(state: CatalogState, p: Seq<i64>) -> bool {
    &&& p.len() > 0
    &&& forall|i: int| 0 <= i < p.len() - 1 ==> edge(state, #[trigger] p[i], p[i + 1])
}

/// Whether entries lead from one object to another; every object leads to itself.
pub open spec fn reachable(state: CatalogState, root: i64, x: i64) -> bool {
    exists|p: Seq<i64>| #[trigger] is_path(state, p) && p[0] == root && p.last() == x
}

/// Whether one of several objects leads to another.
pub open spec fn reachable_from(state: CatalogState, roots: Seq<i64>, x: i64) -> bool {
    exists|k: int| 0 <= k < roots.len() && reachable(state, #[trigger] roots[k], x)
}

/// Every object leads to itself.
pub proof fn root_reachable(state: CatalogState, x: i64)
    ensures
        reachable(state, x, x),
{
    assert(is_path(state, seq![x]));
}

/// What leads to a directory leads to its entries.
pub proof fn step_reachable(state: CatalogState, root: i64, a: i64, b: i64)
    requires
        reachable(state, root, a),
        edge(state, a, b),
    ensures
        reachable(state, root, b),
{
    let p = choose|p: Seq<i64>| #[trigger] is_path(state, p) && p[0] == root && p.last() == a;
    let q = p.push(b);
    assert forall|i: int| 0 <= i < q.len() - 1 implies edge(state, #[trigger] q[i], q[i + 1]) by {
        if i < p.len() - 1 {
            assert(q[i] == p[i] && q[i + 1] == p[i + 1]);
        }
    }
    assert(is_path(state, q));
}

proof fn closed_set_holds_path(state: CatalogState, set: Seq<i64>, p: Seq<i64>, n: int)
    requires
        is_path(state, p),
        0 <= n < p.len(),
        set.contains(p[0]),
        forall|a: i64, b: i64| set.contains(a) && #[trigger] edge(state, a, b) ==> set.contains(b),
    ensures
        set.contains(p[n]),
    decreases n,
{
    if n > 0 {
        closed_set_holds_path(state, set, p, n - 1);
        assert(edge(state, p[n - 1], p[n - 1 + 1]));
    }
}

proof fn children_hold(tree: Seq<TreeFact>, parent: i64, child: i64)
    ensures
        (exists|k: int| 0 <= k < children(tree, parent).len() && (#[trigger] children(
            tree,
            parent,
        )[k]).0 == child) <==> (exists|i: int|
            0 <= i < tree.len() && (#[trigger] tree[i]).parent == parent && tree[i].child == child),
    decreases tree.len(),
{
    if tree.len() > 0 {
        let front = tree.drop_last();
        let c = children(tree, parent);
        let f = children(front, parent);
        children_hold(front, parent, child);
        if exists|k: int| 0 <= k < c.len() && (#[trigger] c[k]).0 == child {
            let k = choose|k: int| 0 <= k < c.len() && (#[trigger] c[k]).0 == child;
            if k < f.len() {
                assert(f[k].0 == child);
                let i = choose|i: int|
                    0 <= i < front.len() && (#[trigger] front[i]).parent == parent
                        && front[i].child == child;
                assert(tree[i] == front[i]);
            } else {
                assert(tree[tree.len() - 1].child == child);
            }
        }
        if exists|i: int|
            0 <= i < tree.len() && (#[trigger] tree[i]).parent == parent && tree[i].child
                == child {
            let i = choose|i: int|
                0 <= i < tree.len() && (#[trigger] tree[i]).parent == parent && tree[i].child
                    == child;
            if i < front.len() {
                assert(front[i].parent == parent && front[i].child == child);
                let k = choose|k: int| 0 <= k < f.len() && (#[trigger] f[k]).0 == child;
                assert(c[k].0 == child);
            } else {
                assert(c[f.len() as int].0 == child);
            }
        }
    }
}

pub(crate) fn holds_id(list: &Vec<i64>, x: i64) -> (yes: bool)
    ensures
        yes == list@.contains(x),
{
    let mut i: usize = 0;
    while i < list.len()
        invariant
            i <= list@.len(),
            forall|j: int| 0 <= j < i ==> list@[j] != x,
        decreases list@.len() - i,
    {
        if list[i] == x {
            return true;
        }
        i += 1;
    }
    false
}

/// Everything that can be met on a walk.
spec fn universe(state: CatalogState, roots: Seq<i64>) -> Set<i64> {
    roots.to_set() + state.tree.map_values(|t: TreeFact| t.child).to_set()
}

proof fn visited_bounded(state: CatalogState, roots: Seq<i64>, visited: Seq<i64>)
    requires
        visited.no_duplicates(),
        forall|i: int|
            0 <= i < visited.len() ==> universe(state, roots).contains(#[trigger] visited[i]),
    ensures
        visited.len() <= universe(state, roots).len(),
{
    let u = universe(state, roots);
    vstd::seq_lib::seq_to_set_is_finite(roots);
    vstd::seq_lib::seq_to_set_is_finite(state.tree.map_values(|t: TreeFact| t.child));
    visited.unique_seq_to_set();
    assert(visited.to_set().subset_of(u)) by {
        assert forall|x: i64| visited.to_set().contains(x) implies u.contains(x) by {
            let i = choose|i: int| 0 <= i < visited.len() && visited[i] == x;
            assert(u.contains(visited[i]));
        }
    }
    vstd::set_lib::lemma_len_subset(visited.to_set(), u);
}

/// The objects that the given ones lead to, each once, a directory before its entries.
pub fn reachable_objects(catalog: &CatalogIndex, roots: &Vec<i64>) -> (visited: Vec<i64>)
    requires
        catalog.wf(),
    ensures
        visited@.no_duplicates(),
        forall|x: i64| #[trigger]
            visited@.contains(x) <==> reachable_from(catalog@, roots@, x),
{
    let ghost state = catalog@;
    let mut stack: Vec<i64> = Vec::new();
    let mut k: usize = roots.len();
    while k > 0
        invariant
            k <= roots@.len(),
            stack@.len() == roots@.len() - k,
            forall|j: int|
                0 <= j < stack@.len() ==> #[trigger] stack@[j] == roots@[roots@.len() - 1 - j],
        decreases k,
    {
        k -= 1;
        stack.push(roots[k]);
    }
    let mut visited: Vec<i64> = Vec::new();
    proof {
        assert forall|r: int| 0 <= r < roots@.len() implies stack@.contains(
            #[trigger] roots@[r],
        ) by {
            assert(stack@[roots@.len() - 1 - r] == roots@[r]);
        }
        assert forall|j: int| 0 <= j < stack@.len() implies reachable_from(
            state,
            roots@,
            #[trigger] stack@[j],
        ) && universe(state, roots@).contains(stack@[j]) by {
            let r = roots@.len() - 1 - j;
            root_reachable(state, roots@[r]);
            assert(reachable(state, roots@[r], stack@[j]));
            assert(roots@.to_set().contains(roots@[r]));
        }
    }
    while stack.len() > 0
        invariant
            catalog.wf(),
            state == catalog@,
            visited@.no_duplicates(),
            forall|j: int|
                0 <= j < stack@.len() ==> reachable_from(state, roots@, #[trigger] stack@[j])
                    && universe(state, roots@).contains(stack@[j]),
            forall|j: int|
                0 <= j < visited@.len() ==> reachable_from(state, roots@, #[trigger] visited@[j])
                    && universe(state, roots@).contains(visited@[j]),
            forall|a: i64, b: i64|
                visited@.contains(a) && #[trigger] edge(state, a, b) ==> visited@.contains(b)
                    || stack@.contains(b),
            forall|r: int|
                0 <= r < roots@.len() ==> visited@.contains(#[trigger] roots@[r])
                    || stack@.contains(roots@[r]),
        decreases universe(state, roots@).len() - visited@.len(), stack@.len(),
    {
        let ghost old_stack = stack@;
        let ghost old_visited = visited@;
        let x = stack.pop().unwrap();
        let ghost popped = stack@;
        assert(old_stack =~= popped.push(x));
        assert(x == old_stack[old_stack.len() - 1]);
        proof {
            visited_bounded(state, roots@, old_visited);
            assert forall|b: i64| old_stack.contains(b) implies b == x || popped.contains(b) by {
                let j = choose|j: int| 0 <= j < old_stack.len() && old_stack[j] == b;
                if j < popped.len() {
                    assert(popped[j] == b);
                }
            }
            assert forall|j: int| 0 <= j < popped.len() implies #[trigger] popped[j]
                == old_stack[j] by {}
        }
        if holds_id(&visited, x) {
            continue;
        }
        visited.push(x);
        proof {
            assert(visited@[old_visited.len() as int] == x);
            assert forall|b: i64| old_visited.contains(b) implies visited@.contains(b) by {
                let j = choose|j: int| 0 <= j < old_visited.len() && old_visited[j] == b;
                assert(visited@[j] == b);
            }
            assert forall|b: i64| visited@.contains(b) implies b == x || old_visited.contains(
                b,
            ) by {
                let j = choose|j: int| 0 <= j < visited@.len() && visited@[j] == b;
                if j < old_visited.len() {
                    assert(old_visited[j] == b);
                }
            }
            assert(visited@.no_duplicates()) by {
                assert forall|i: int, j: int|
                    0 <= i < visited@.len() && 0 <= j < visited@.len() && i != j implies visited@[i]
                    != visited@[j] by {
                    if i == old_visited.len() {
                        assert(old_visited.contains(old_visited[j]));
                    } else if j == old_visited.len() {
                        assert(old_visited.contains(old_visited[i]));
                    }
                }
            }
            assert forall|j: int| 0 <= j < visited@.len() implies reachable_from(
                state,
                roots@,
                #[trigger] visited@[j],
            ) && universe(state, roots@).contains(visited@[j]) by {
                if j < old_visited.len() {
                    assert(visited@[j] == old_visited[j]);
                }
            }
            visited_bounded(state, roots@, visited@);
        }
        let mut is_directory: bool = false;
        match catalog.get_object(x) {
            Some((kind, _)) => {
                if kind == ObjectType::Directory {
                    is_directory = true;
                }
            },
            None => {},
        }
        if is_directory {
            let entries = catalog.get_tree_children(x);
            let mut n: usize = entries.len();
            let ghost listed = children(state.tree, x);
            while n > 0
                invariant
                    n <= entries@.len(),
                    facts(entries@) == listed,
                    listed == children(state.tree, x),
                    state == catalog@,
                    stack@.len() == popped.len() + (entries@.len() - n),
                    forall|j: int| 0 <= j < popped.len() ==> #[trigger] stack@[j] == popped[j],
                    forall|j: int|
                        popped.len() <= j < stack@.len() ==> #[trigger] stack@[j] == listed[
                        entries@.len() - 1 - (j - popped.len())].0,
                decreases n,
            {
                n -= 1;
                assert(facts(entries@)[n as int] == entries@[n as int]@);
                stack.push(entries[n].0);
            }
            proof {
                assert forall|b: i64| edge(state, x, b) implies stack@.contains(b) by {
                    children_hold(state.tree, x, b);
                    let m = choose|m: int| 0 <= m < listed.len() && (#[trigger] listed[m]).0 == b;
                    let j = popped.len() + (listed.len() - 1 - m);
                    assert(stack@[j] == b);
                }
                assert forall|j: int| 0 <= j < stack@.len() implies reachable_from(
                    state,
                    roots@,
                    #[trigger] stack@[j],
                ) && universe(state, roots@).contains(stack@[j]) by {
                    if j < popped.len() {
                        assert(stack@[j] == popped[j]);
                        assert(popped[j] == old_stack[j]);
                    } else {
                        let m = entries@.len() - 1 - (j - popped.len());
                        let b = listed[m].0;
                        children_hold(state.tree, x, b);
                        assert(edge(state, x, b));
                        let r = choose|r: int|
                            0 <= r < roots@.len() && reachable(state, #[trigger] roots@[r], x);
                        step_reachable(state, roots@[r], x, b);
                        let t = choose|t: int|
                            0 <= t < state.tree.len() && (#[trigger] state.tree[t]).parent == x
                                && state.tree[t].child == b;
                        let mapped = state.tree.map_values(|t: TreeFact| t.child);
                        assert(mapped[t] == b);
                        assert(mapped.to_set().contains(b));
                    }
                }
            }
        } else {
            proof {
                assert forall|b: i64| !edge(state, x, b) by {}
            }
        }
        proof {
            assert forall|b: i64| popped.contains(b) implies stack@.contains(b) by {
                let j = choose|j: int| 0 <= j < popped.len() && popped[j] == b;
                assert(stack@[j] == b);
            }
            assert forall|a: i64, b: i64|
                visited@.contains(a) && #[trigger] edge(state, a, b) implies visited@.contains(b)
                || stack@.contains(b) by {
                if a == x {
                    assert(stack@.contains(b));
                } else {
                    assert(old_visited.contains(a));
                }
            }
        }
    }
    proof {
        assert forall|x: i64| #[trigger] visited@.contains(x) <==> reachable_from(
            state,
            roots@,
            x,
        ) by {
            if visited@.contains(x) {
                let j = choose|j: int| 0 <= j < visited@.len() && visited@[j] == x;
                assert(reachable_from(state, roots@, visited@[j]));
            }
            if reachable_from(state, roots@, x) {
                let r = choose|r: int|
                    0 <= r < roots@.len() && reachable(state, #[trigger] roots@[r], x);
                let p = choose|p: Seq<i64>| #[trigger]
                    is_path(state, p) && p[0] == roots@[r] && p.last() == x;
                assert(visited@.contains(roots@[r]));
                closed_set_holds_path(state, visited@, p, p.len() - 1);
            }
        }
    }
    visited
}

/// Whether an extent of the list has the chunk.
pub open spec fn layout_holds(layout: Seq<ExtentLayout>, hash: Seq<char>) -> bool {
    exists|i: int, j: int|
        0 <= i < layout.len() && 0 <= j < layout[i].chunks.len() && (#[trigger] layout[i].chunks[j]).1
            == hash
}

/// Whether the content of an object has the chunk: that of a file or of a block device.
pub open spec fn holds_chunk(state: CatalogState, x: i64, hash: Seq<char>) -> bool {
    &&& state.has_object(x)
    &&& match state.object(x).kind {
        ObjectType::File => file_chunk_list(state, x).contains(hash),
        ObjectType::BlockDevice => layout_holds(layout_list(state, x), hash),
        ObjectType::Directory => false,
        ObjectType::SystemFingerprint => false,
    }
}

/// Whether one of the objects has the chunk.
pub open spec fn any_holds_chunk(state: CatalogState, objects: Seq<i64>, hash: Seq<char>) -> bool {
    exists|k: int| 0 <= k < objects.len() && holds_chunk(state, #[trigger] objects[k], hash)
}

fn object_chunks(catalog: &CatalogIndex, x: i64) -> (out: Vec<String>)
    requires
        catalog.wf(),
    ensures
        forall|h: Seq<char>| #[trigger] texts(out@).contains(h) <==> holds_chunk(catalog@, x, h),
{
    match catalog.get_object(x) {
        None => {
            let none: Vec<String> = Vec::new();
            none
        },
        Some((kind, _)) => match kind {
            ObjectType::File => catalog.get_file_chunks(x),
            ObjectType::BlockDevice => {
                let layout = catalog.get_block_layout(x);
                let ghost facts_list = facts(layout.extents@);
                let mut out: Vec<String> = Vec::new();
                let mut i: usize = 0;
                while i < layout.extents.len()
                    invariant
                        i <= layout.extents@.len(),
                        facts_list == facts(layout.extents@),
                        forall|h: Seq<char>| #[trigger]
                            texts(out@).contains(h) <==> layout_holds(facts_list.take(i as int), h),
                    decreases layout.extents@.len() - i,
                {
                    let extent = &layout.extents[i];
                    let ghost before = out@;
                    let mut j: usize = 0;
                    assert(texts(out@) + Seq::<Seq<char>>::empty() =~= texts(before));
                    while j < extent.chunks.len()
                        invariant
                            j <= extent.chunks@.len(),
                            out@.len() == before.len() + j,
                            forall|m: int| 0 <= m < before.len() ==> texts(out@)[m] == texts(before)[m],
                            forall|m: int|
                                0 <= m < j ==> texts(out@)[before.len() + m] == (
                                #[trigger] extent.chunks@[m]).hash@,
                        decreases extent.chunks@.len() - j,
                    {
                        out.push(copy_text(extent.chunks[j].hash.as_str()));
                        j += 1;
                    }
                    proof {
                        let front = facts_list.take(i as int);
                        let next = facts_list.take(i as int + 1);
                        assert(next[i as int] == extent@);
                        assert forall|h: Seq<char>| #[trigger]
                            texts(out@).contains(h) <==> layout_holds(next, h) by {
                            if texts(out@).contains(h) {
                                let m = choose|m: int| 0 <= m < out@.len() && texts(out@)[m] == h;
                                if m < before.len() {
                                    assert(texts(before)[m] == h);
                                    assert(texts(before).contains(h));
                                    let (a, b) = choose|a: int, b: int|
                                        0 <= a < front.len() && 0 <= b < front[a].chunks.len() && (
                                        #[trigger] front[a].chunks[b]).1 == h;
                                    assert(next[a].chunks[b].1 == h);
                                } else {
                                    let b = m - before.len();
                                    assert(extent.chunks@[b].hash@ == h);
                                    assert(next[i as int].chunks[b].1 == h);
                                }
                            }
                            if layout_holds(next, h) {
                                let (a, b) = choose|a: int, b: int|
                                    0 <= a < next.len() && 0 <= b < next[a].chunks.len() && (
                                    #[trigger] next[a].chunks[b]).1 == h;
                                if a < i {
                                    assert(front[a].chunks[b].1 == h);
                                    assert(texts(before).contains(h));
                                    let m = choose|m: int|
                                        0 <= m < before.len() && texts(before)[m] == h;
                                    assert(texts(out@)[m] == h);
                                } else {
                                    assert(extent.chunks@[b].hash@ == h);
                                    assert(texts(out@)[before.len() + b] == h);
                                }
                            }
                        }
                    }
                    i += 1;
                }
                assert(facts_list.take(i as int) =~= facts_list);
                out
            },
            ObjectType::Directory => {
                let none: Vec<String> = Vec::new();
                none
            },
            ObjectType::SystemFingerprint => {
                let none: Vec<String> = Vec::new();
                none
            },
        },
    }
}

/// The chunks of the contents of the given objects, each once.
pub fn mark_object_chunks(catalog: &CatalogIndex, objects: &Vec<i64>) -> (active: Vec<String>)
    requires
        catalog.wf(),
    ensures
        forall|h: Seq<char>| #[trigger]
            texts(active@).contains(h) <==> any_holds_chunk(catalog@, objects@, h),
{
    let mut active: Vec<String> = Vec::new();
    let mut i: usize = 0;
    while i < objects.len()
        invariant
            catalog.wf(),
            i <= objects@.len(),
            forall|h: Seq<char>| #[trigger]
                texts(active@).contains(h) <==> any_holds_chunk(
                    catalog@,
                    objects@.take(i as int),
                    h,
                ),
        decreases objects@.len() - i,
    {
        let chunks = object_chunks(catalog, objects[i]);
        let ghost before = active@;
        let mut j: usize = 0;
        assert(forall|h: Seq<char>| !texts(chunks@).take(0).contains(h));
        while j < chunks.len()
            invariant
                j <= chunks@.len(),
                forall|h: Seq<char>| #[trigger]
                    texts(active@).contains(h) <==> (texts(before).contains(h) || texts(
                        chunks@,
                    ).take(j as int).contains(h)),
            decreases chunks@.len() - j,
        {
            let ghost was = active@;
            let ghost hash = texts(chunks@)[j as int];
            let ghost front = texts(chunks@).take(j as int);
            let ghost next = texts(chunks@).take(j as int + 1);
            if !holds_text(&active, chunks[j].as_str()) {
                let copy = copy_text(chunks[j].as_str());
                proof {
                    texts_push(active@, copy);
                }
                active.push(copy);
                assert(texts(active@)[was.len() as int] == hash);
            }
            proof {
                assert(next =~= front.push(hash));
                assert forall|h: Seq<char>| #[trigger]
                    texts(active@).contains(h) <==> (texts(before).contains(h) || next.contains(
                        h,
                    )) by {
                    assert(next.contains(h) <==> (front.contains(h) || h == hash)) by {
                        assert(next[j as int] == hash);
                        if front.contains(h) {
                            let m = choose|m: int| 0 <= m < front.len() && front[m] == h;
                            assert(next[m] == h);
                        }
                        if next.contains(h) {
                            let m = choose|m: int| 0 <= m < next.len() && next[m] == h;
                            if m < j {
                                assert(front[m] == h);
                            }
                        }
                    }
                    assert(texts(active@).contains(h) <==> (texts(was).contains(h) || h == hash))
                        by {
                        if texts(was).contains(h) {
                            let m = choose|m: int| 0 <= m < was.len() && texts(was)[m] == h;
                            assert(texts(active@)[m] == h);
                        }
                        if texts(active@).contains(h) {
                            let m = choose|m: int|
                                0 <= m < active@.len() && texts(active@)[m] == h;
                            if m < was.len() {
                                assert(texts(was)[m] == h);
                            }
                        }
                    }
                }
            }
            j += 1;
        }
        proof {
            assert(texts(chunks@).take(j as int) =~= texts(chunks@));
            let x = objects@[i as int];
            let front = objects@.take(i as int);
            let next = objects@.take(i as int + 1);
            assert forall|h: Seq<char>| #[trigger]
                texts(active@).contains(h) <==> any_holds_chunk(catalog@, next, h) by {
                assert(texts(chunks@).contains(h) <==> holds_chunk(catalog@, x, h));
                assert(next[i as int] == x);
                if any_holds_chunk(catalog@, front, h) {
                    let k = choose|k: int|
                        0 <= k < front.len() && holds_chunk(catalog@, #[trigger] front[k], h);
                    assert(next[k] == front[k]);
                }
                if any_holds_chunk(catalog@, next, h) {
                    let k = choose|k: int|
                        0 <= k < next.len() && holds_chunk(catalog@, #[trigger] next[k], h);
                    if k < i {
                        assert(front[k] == next[k]);
                    }
                }
            }
        }
        i += 1;
    }
    assert(objects@.take(i as int) =~= objects@);
    active
}

/// Only directories lead on, and only to their entries: whatever else an object is, it leads to
/// nothing but itself.
pub proof fn only_directories_lead_on(state: CatalogState, a: i64, b: i64)
    ensures
        edge(state, a, b) ==> state.has_object(a) && state.object(a).kind == ObjectType::Directory
            && children(state.tree, a).len() > 0,
        state.object(a).kind != ObjectType::Directory ==> (reachable(state, a, b) <==> a == b),
{
    if edge(state, a, b) {
        let i = choose|i: int|
            0 <= i < state.tree.len() && (#[trigger] state.tree[i]).parent == a
                && state.tree[i].child == b;
        parents_have_children(state.tree, a, i);
    }
    root_reachable(state, a);
    if reachable(state, a, b) && state.object(a).kind != ObjectType::Directory {
        let p = choose|p: Seq<i64>| #[trigger] is_path(state, p) && p[0] == a && p.last() == b;
        if p.len() > 1 {
            assert(edge(state, p[0int], p[0int + 1]));
        }
    }
}

proof fn parents_have_children(tree: Seq<TreeFact>, parent: i64, i: int)
    requires
        0 <= i < tree.len(),
        tree[i].parent == parent,
    ensures
        children(tree, parent).len() > 0,
    decreases tree.len(),
{
    if i < tree.len() - 1 {
        assert(tree.drop_last()[i] == tree[i]);
        parents_have_children(tree.drop_last(), parent, i);
    }
}

} // verus!
