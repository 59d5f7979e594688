//! Tables as lists of rows: keys, filters and orders.
use vstd::prelude::*;

verus! {

/// What the rows of a table say.
pub open spec fn facts<T: View>(rows: Seq<T>) -> Seq<T::V> {
    Seq::new(rows.len(), |i: int| rows[i]@)
}

pub proof fn facts_push<T: View>(rows: Seq<T>, row: T)
    ensures
        facts(rows.push(row)) == facts(rows).push(row@),
{
    assert(facts(rows.push(row)) =~= facts(rows).push(row@));
}

/// Whether no two rows have the same key.
pub open spec fn keyed<F, K>(rows: Seq<F>, key: spec_fn(F) -> K) -> bool {
    forall|i: int, j: int|
        0 <= i < j < rows.len() ==> key(#[trigger] rows[i]) != key(#[trigger] rows[j])
}

/// Whether some row has the given key.
pub open spec fn has_key<F, K>(rows: Seq<F>, key: spec_fn(F) -> K, k: K) -> bool {
    exists|i: int| 0 <= i < rows.len() && key(#[trigger] rows[i]) == k
}

pub proof fn has_key_push<F, K>(rows: Seq<F>, key: spec_fn(F) -> K, row: F, k: K)
    ensures
        has_key(rows.push(row), key, k) <==> (has_key(rows, key, k) || key(row) == k),
{
    let new = rows.push(row);
    if has_key(rows, key, k) {
        let i = choose|i: int| 0 <= i < rows.len() && key(#[trigger] rows[i]) == k;
        assert(new[i] == rows[i]);
    }
    if key(row) == k {
        assert(new[rows.len() as int] == row);
    }
    if has_key(new, key, k) {
        let i = choose|i: int| 0 <= i < new.len() && key(#[trigger] new[i]) == k;
        if i < rows.len() {
            assert(rows[i] == new[i]);
        }
    }
}

pub proof fn keyed_push<F, K>(rows: Seq<F>, key: spec_fn(F) -> K, row: F)
    requires
        keyed(rows, key),
        !has_key(rows, key, key(row)),
    ensures
        keyed(rows.push(row), key),
{
    let new = rows.push(row);
    assert forall|i: int, j: int| 0 <= i < j < new.len() implies key(#[trigger] new[i]) != key(
        #[trigger] new[j],
    ) by {
        assert(new[i] == rows[i]);
        if j < rows.len() {
            assert(new[j] == rows[j]);
        } else {
            assert(key(rows[i]) != key(row));
        }
    }
}

/// The row of a key.
pub open spec fn row_of<F, K>(rows: Seq<F>, key: spec_fn(F) -> K, k: K) -> F {
    rows[choose|i: int| 0 <= i < rows.len() && key(#[trigger] rows[i]) == k]
}

pub proof fn row_of_unique<F, K>(rows: Seq<F>, key: spec_fn(F) -> K, i: int)
    requires
        keyed(rows, key),
        0 <= i < rows.len(),
    ensures
        row_of(rows, key, key(rows[i])) == rows[i],
        has_key(rows, key, key(rows[i])),
{
    let k = key(rows[i]);
    let j = choose|j: int| 0 <= j < rows.len() && key(#[trigger] rows[j]) == k;
    if j < i {
        assert(key(rows[j]) != key(rows[i]));
    } else if i < j {
        assert(key(rows[i]) != key(rows[j]));
    }
}

/// The rows that a condition keeps.
pub open spec fn kept<F>(rows: Seq<F>, cond: spec_fn(F) -> bool) -> Seq<F>
    decreases rows.len(),
{
    if rows.len() == 0 {
        Seq::empty()
    } else if cond(rows.last()) {
        kept(rows.drop_last(), cond).push(rows.last())
    } else {
        kept(rows.drop_last(), cond)
    }
}

/// A row is kept exactly where it was there and meets the condition.
pub proof fn kept_contains<F>(rows: Seq<F>, cond: spec_fn(F) -> bool, row: F)
    ensures
        kept(rows, cond).contains(row) <==> (rows.contains(row) && cond(row)),
    decreases rows.len(),
{
    if rows.len() > 0 {
        let front = rows.drop_last();
        kept_contains(front, cond, row);
        let k = kept(front, cond);
        if rows.contains(row) {
            let i = choose|i: int| 0 <= i < rows.len() && rows[i] == row;
            if i < front.len() {
                assert(front[i] == row);
            }
        }
        if front.contains(row) {
            let i = choose|i: int| 0 <= i < front.len() && front[i] == row;
            assert(rows[i] == row);
        }
        assert(rows[rows.len() - 1] == rows.last());
        if cond(rows.last()) {
            let all = kept(rows, cond);
            assert(all[k.len() as int] == rows.last());
            if k.contains(row) {
                let i = choose|i: int| 0 <= i < k.len() && k[i] == row;
                assert(all[i] == row);
            }
            if all.contains(row) {
                let i = choose|i: int| 0 <= i < all.len() && all[i] == row;
                if i < k.len() {
                    assert(k[i] == row);
                }
            }
        }
    }
}

pub proof fn kept_keyed<F, K>(rows: Seq<F>, cond: spec_fn(F) -> bool, key: spec_fn(F) -> K)
    requires
        keyed(rows, key),
    ensures
        keyed(kept(rows, cond), key),
    decreases rows.len(),
{
    if rows.len() > 0 {
        let front = rows.drop_last();
        assert(keyed(front, key));
        kept_keyed(front, cond, key);
        let k = kept(front, cond);
        if cond(rows.last()) {
            if has_key(k, key, key(rows.last())) {
                let i = choose|i: int| 0 <= i < k.len() && key(#[trigger] k[i]) == key(rows.last());
                kept_contains(front, cond, k[i]);
                assert(k.contains(k[i]));
                let j = choose|j: int| 0 <= j < front.len() && front[j] == k[i];
                assert(rows[j] == k[i]);
                assert(key(rows[j]) != key(rows[rows.len() - 1]));
            }
            keyed_push(k, key, rows.last());
        }
    }
}

pub proof fn kept_step<F>(rows: Seq<F>, cond: spec_fn(F) -> bool, i: int)
    requires
        0 <= i < rows.len(),
    ensures
        kept(rows.take(i + 1), cond) == if cond(rows[i]) {
            kept(rows.take(i), cond).push(rows[i])
        } else {
            kept(rows.take(i), cond)
        },
{
    assert(rows.take(i + 1).drop_last() =~= rows.take(i));
    assert(rows.take(i + 1).last() == rows[i]);
}

/// Keeping all rows of a table but those that a condition drops is stable under a list of which
/// every row meets the condition.
pub proof fn kept_all<F>(rows: Seq<F>, cond: spec_fn(F) -> bool)
    requires
        forall|i: int| 0 <= i < rows.len() ==> cond(#[trigger] rows[i]),
    ensures
        kept(rows, cond) == rows,
    decreases rows.len(),
{
    if rows.len() > 0 {
        assert(cond(rows[rows.len() - 1]));
        assert forall|i: int| 0 <= i < rows.drop_last().len() implies cond(
            #[trigger] rows.drop_last()[i],
        ) by {
            assert(rows[i] == rows.drop_last()[i]);
        }
        kept_all(rows.drop_last(), cond);
        assert(rows.drop_last().push(rows.last()) =~= rows);
    } else {
        assert(kept(rows, cond) =~= rows);
    }
}

/// Conditions that agree on all rows keep the same rows.
pub proof fn kept_agree<F>(rows: Seq<F>, a: spec_fn(F) -> bool, b: spec_fn(F) -> bool)
    requires
        forall|i: int| 0 <= i < rows.len() ==> a(#[trigger] rows[i]) == b(rows[i]),
    ensures
        kept(rows, a) == kept(rows, b),
    decreases rows.len(),
{
    if rows.len() > 0 {
        let front = rows.drop_last();
        assert forall|i: int| 0 <= i < front.len() implies a(#[trigger] front[i]) == b(
            front[i],
        ) by {
            assert(front[i] == rows[i]);
        }
        kept_agree(front, a, b);
        assert(a(rows[rows.len() - 1]) == b(rows[rows.len() - 1]));
    }
}

/// A row that is kept can be found by its key.
pub proof fn kept_has_key<F, K>(
    rows: Seq<F>,
    cond: spec_fn(F) -> bool,
    key: spec_fn(F) -> K,
    i: int,
)
    requires
        keyed(rows, key),
        0 <= i < rows.len(),
        cond(rows[i]),
    ensures
        has_key(kept(rows, cond), key, key(rows[i])),
        row_of(kept(rows, cond), key, key(rows[i])) == rows[i],
{
    let k = kept(rows, cond);
    assert(rows.contains(rows[i]));
    kept_contains(rows, cond, rows[i]);
    let j = choose|j: int| 0 <= j < k.len() && k[j] == rows[i];
    kept_keyed(rows, cond, key);
    row_of_unique(k, key, j);
}

/// A number of 64 bits read as a signed one.
pub open spec fn signed(x: u64) -> int {
    if x < 0x8000_0000_0000_0000 {
        x as int
    } else {
        x - 0x1_0000_0000_0000_0000
    }
}

pub proof fn signed_injective(x: u64, y: u64)
    requires
        signed(x) == signed(y),
    ensures
        x == y,
{
}

/// A number of 64 bits read as a signed one.
pub fn as_signed(x: u64) -> (out: i64)
    ensures
        out == signed(x),
{
    if x < 0x8000_0000_0000_0000 {
        x as i64
    } else {
        -((0xffff_ffff_ffff_ffff - x) as i64) - 1
    }
}

/// Where an item of the given key goes: behind the last item whose key is not greater.
pub open spec fn place_for<F>(s: Seq<(i64, F)>, key: i64) -> int
    decreases s.len(),
{
    if s.len() == 0 || s.last().0 <= key {
        s.len() as int
    } else {
        place_for(s.drop_last(), key)
    }
}

/// The list with one more item, put where its key belongs.
pub open spec fn placed<F>(s: Seq<(i64, F)>, key: i64, item: F) -> Seq<(i64, F)> {
    s.insert(place_for(s, key), (key, item))
}

/// The items of a list in ascending order of their keys; items of one key keep their order.
pub open spec fn sorted<F>(s: Seq<(i64, F)>) -> Seq<(i64, F)>
    decreases s.len(),
{
    if s.len() == 0 {
        Seq::empty()
    } else {
        placed(sorted(s.drop_last()), s.last().0, s.last().1)
    }
}

pub open spec fn is_sorted<F>(s: Seq<(i64, F)>) -> bool {
    forall|i: int, j: int| 0 <= i < j < s.len() ==> (#[trigger] s[i]).0 <= (#[trigger] s[j]).0
}

pub proof fn place_for_range<F>(s: Seq<(i64, F)>, key: i64)
    ensures
        0 <= place_for(s, key) <= s.len(),
        forall|i: int| place_for(s, key) <= i < s.len() ==> (#[trigger] s[i]).0 > key,
        place_for(s, key) > 0 ==> s[place_for(s, key) - 1].0 <= key,
    decreases s.len(),
{
    if s.len() > 0 && s.last().0 > key {
        place_for_range(s.drop_last(), key);
        assert forall|i: int| place_for(s, key) <= i < s.len() implies (#[trigger] s[i]).0
            > key by {
            if i < s.len() - 1 {
                assert(s[i] == s.drop_last()[i]);
            }
        }
    }
}

/// Sorting gives a list in ascending order of the keys that holds the same items, each as often
/// as before.
pub proof fn sorted_is_sorted<F>(s: Seq<(i64, F)>)
    ensures
        is_sorted(sorted(s)),
        sorted(s).len() == s.len(),
        sorted(s).to_multiset() == s.to_multiset(),
    decreases s.len(),
{
    broadcast use vstd::seq_lib::group_to_multiset_ensures;

    if s.len() > 0 {
        let front = s.drop_last();
        sorted_is_sorted(front);
        let t = sorted(front);
        let key = s.last().0;
        let at = place_for(t, key);
        place_for_range(t, key);
        let new = sorted(s);
        assert forall|i: int, j: int| 0 <= i < j < new.len() implies (#[trigger] new[i]).0 <= (
        #[trigger] new[j]).0 by {
            let oi = if i < at {
                i
            } else {
                i - 1
            };
            let oj = if j < at {
                j
            } else {
                j - 1
            };
            if i != at && j != at {
                assert(t[oi].0 <= t[oj].0);
            } else if i == at {
                assert(t[oj].0 > key);
            } else {
                assert(t[at - 1].0 <= key);
                if i < at - 1 {
                    assert(t[i].0 <= t[at - 1].0);
                }
            }
        }
        assert(s =~= front.push(s.last()));
        assert(new =~= t.insert(at, s.last()));
    } else {
        assert(s =~= Seq::<(i64, F)>::empty());
    }
}

/// Sorting changes nothing where the keys ascend already.
pub proof fn sorted_stays<F>(s: Seq<(i64, F)>)
    requires
        is_sorted(s),
    ensures
        sorted(s) == s,
    decreases s.len(),
{
    if s.len() > 0 {
        let front = s.drop_last();
        assert(is_sorted(front));
        sorted_stays(front);
        if front.len() > 0 {
            assert(s[front.len() - 1].0 <= s[s.len() - 1].0);
        }
        assert(sorted(s) =~= s);
    } else {
        assert(sorted(s) =~= s);
    }
}

/// What keyed items say.
pub open spec fn keyed_facts<T: View>(s: Seq<(i64, T)>) -> Seq<(i64, T::V)> {
    Seq::new(s.len(), |i: int| (s[i].0, s[i].1@))
}

proof fn place_for_facts<T: View>(s: Seq<(i64, T)>, key: i64)
    ensures
        place_for(keyed_facts(s), key) == place_for(s, key),
    decreases s.len(),
{
    if s.len() > 0 && s.last().0 > key {
        place_for_facts(s.drop_last(), key);
        assert(keyed_facts(s).drop_last() =~= keyed_facts(s.drop_last()));
    }
}

/// Puts an item into a sorted list.
pub fn insert_by_key<T: View>(list: &mut Vec<(i64, T)>, key: i64, item: T)
    ensures
        keyed_facts(final(list)@) == placed(keyed_facts(old(list)@), key, item@),
{
    let ghost before = list@;
    let mut at: usize = list.len();
    assert(before.take(at as int) =~= before);
    while at > 0 && list[at - 1].0 > key
        invariant
            at <= list@.len(),
            list@ == before,
            place_for(before.take(at as int), key) == place_for(before, key),
        decreases at,
    {
        assert(before.take(at as int).drop_last() =~= before.take(at - 1));
        at -= 1;
    }
    list.insert(at, (key, item));
    proof {
        place_for_facts(before, key);
        assert(keyed_facts(list@) =~= placed(keyed_facts(before), key, item@));
    }
}

/// The items of a list without their keys, the last one first.
pub fn strip_keys_reversed<T: View>(list: Vec<(i64, T)>) -> (out: Vec<T>)
    ensures
        facts(out@) == items(keyed_facts(list@)).reverse(),
{
    let mut rest = list;
    let mut out: Vec<T> = Vec::new();
    let ghost all = list@;
    while rest.len() > 0
        invariant
            rest@.len() + out@.len() == all.len(),
            forall|i: int| 0 <= i < rest@.len() ==> rest@[i] == all[i],
            forall|i: int| 0 <= i < out@.len() ==> #[trigger] out@[i] == all[all.len() - 1 - i].1,
        decreases rest@.len(),
    {
        let entry = rest.pop().unwrap();
        out.push(entry.1);
    }
    assert(facts(out@) =~= items(keyed_facts(all)).reverse());
    out
}

/// The items of a list without their keys.
pub fn strip_keys<T: View>(list: Vec<(i64, T)>) -> (out: Vec<T>)
    ensures
        facts(out@) == items(keyed_facts(list@)),
{
    let mut rest = strip_keys_reversed(list);
    let ghost turned = rest@;
    let mut out: Vec<T> = Vec::new();
    while rest.len() > 0
        invariant
            rest@.len() + out@.len() == turned.len(),
            forall|i: int| 0 <= i < rest@.len() ==> rest@[i] == turned[i],
            forall|i: int|
                0 <= i < out@.len() ==> #[trigger] out@[i] == turned[turned.len() - 1 - i],
        decreases rest@.len(),
    {
        let item = rest.pop().unwrap();
        out.push(item);
    }
    proof {
        let target = items(keyed_facts(list@));
        assert(facts(turned) == target.reverse());
        assert(facts(turned).len() == target.reverse().len());
        assert(target.reverse().len() == target.len());
        assert forall|i: int| 0 <= i < target.len() implies facts(out@)[i] == target[i] by {
            assert(facts(turned)[turned.len() - 1 - i] == target.reverse()[turned.len() - 1 - i]);
        }
        assert(facts(out@) =~= target);
    }
    out
}

/// Adding an item to a list and sorting is the same as sorting and then putting the item in.
pub proof fn sorted_push<F>(s: Seq<(i64, F)>, key: i64, item: F)
    ensures
        sorted(s.push((key, item))) == placed(sorted(s), key, item),
{
    assert(s.push((key, item)).drop_last() =~= s);
}

/// The items of a sorted list without their keys.
pub open spec fn items<F>(s: Seq<(i64, F)>) -> Seq<F> {
    Seq::new(s.len(), |i: int| s[i].1)
}

} // verus!
