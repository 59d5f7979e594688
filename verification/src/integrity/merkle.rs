//! A hash tree over the chunk hashes of a snapshot.
//!
//! Leaves and branches are hashed with different first bytes. A node without a partner moves up
//! a level as it is.
use crate::bytes::append_bytes;
use crate::bytes::same_hash;
use crate::error::LazarusError;
use crate::primitives::blake3_hash;
use crate::primitives::hash_bytes;
use crate::text::decimal;
use crate::text::decimal_string;
use vstd::prelude::*;

verus! {

/// The byte hashed before a leaf.
pub const LEAF_PREFIX: u8 = 0x00;

/// The byte hashed before the two halves of a branch.
pub const BRANCH_PREFIX: u8 = 0x01;

/// A 32-byte node: the hash of a leaf or of a branch.
pub type Node = [u8; 32];

pub open spec fn leaf_input(leaf: Node) -> Seq<u8> {
    seq![LEAF_PREFIX] + leaf@
}

pub open spec fn branch_input(left: Node, right: Node) -> Seq<u8> {
    seq![BRANCH_PREFIX] + left@ + right@
}

/// The node of a leaf.
pub open spec fn leaf_node(leaf: Node) -> Node {
    blake3_hash(leaf_input(leaf))
}

/// The node above two nodes.
pub open spec fn branch_node(left: Node, right: Node) -> Node {
    blake3_hash(branch_input(left, right))
}

/// The bottom level of the tree over the given leaves.
pub open spec fn leaf_level(leaves: Seq<Node>) -> Seq<Node> {
    Seq::new(leaves.len(), |i: int| leaf_node(leaves[i]))
}

/// The level above a level: neighbours are joined, a lone last node stays.
pub open spec fn level_above(level: Seq<Node>) -> Seq<Node> {
    Seq::new(
        ((level.len() + 1) / 2) as nat,
        |i: int|
            if 2 * i + 1 < level.len() {
                branch_node(level[2 * i], level[2 * i + 1])
            } else {
                level[2 * i]
            },
    )
}

/// The node of 32 zero bytes.
pub open spec fn zero_node() -> Node {
    [
        0u8, 0u8, 0u8, 0u8, 0u8, 0u8, 0u8, 0u8, 0u8, 0u8, 0u8, 0u8, 0u8, 0u8, 0u8, 0u8,
        0u8, 0u8, 0u8, 0u8, 0u8, 0u8, 0u8, 0u8, 0u8, 0u8, 0u8, 0u8, 0u8, 0u8, 0u8, 0u8,
    ]
}

/// The node at the top over a level.
pub open spec fn top_of(level: Seq<Node>) -> Node
    decreases level.len(),
{
    if level.len() == 0 {
        zero_node()
    } else if level.len() == 1 {
        level[0]
    } else {
        top_of(level_above(level))
    }
}

/// The root over a list of leaves; all zeros where there is none.
pub open spec fn merkle_root(leaves: Seq<Node>) -> Node {
    top_of(leaf_level(leaves))
}

/// Two different byte strings with the same hash.
pub open spec fn collision(x: Seq<u8>, y: Seq<u8>) -> bool {
    x != y && blake3_hash(x) == blake3_hash(y)
}

proof fn equal_branches(a: Node, b: Node, c: Node, d: Node)
    requires
        branch_node(a, b) == branch_node(c, d),
    ensures
        (a == c && b == d) || exists|x: Seq<u8>, y: Seq<u8>| collision(x, y),
{
    let x = branch_input(a, b);
    let y = branch_input(c, d);
    if x == y {
        assert(a@ =~= x.subrange(1, 33));
        assert(c@ =~= y.subrange(1, 33));
        assert(b@ =~= x.subrange(33, 65));
        assert(d@ =~= y.subrange(33, 65));
        assert(a =~= c);
        assert(b =~= d);
    } else {
        assert(collision(x, y));
    }
}

proof fn equal_tops(a: Seq<Node>, b: Seq<Node>)
    requires
        a.len() == b.len(),
        top_of(a) == top_of(b),
    ensures
        a == b || exists|x: Seq<u8>, y: Seq<u8>| collision(x, y),
    decreases a.len(),
{
    if a.len() == 0 {
        assert(a =~= b);
    } else if a.len() == 1 {
        assert(a =~= b);
    } else if !(exists|x: Seq<u8>, y: Seq<u8>| collision(x, y)) {
        let ua = level_above(a);
        let ub = level_above(b);
        equal_tops(ua, ub);
        assert forall|i: int| 0 <= i < a.len() implies a[i] == b[i] by {
            let k = i / 2;
            assert(ua[k] == ub[k]);
            if 2 * k + 1 < a.len() {
                equal_branches(a[2 * k], a[2 * k + 1], b[2 * k], b[2 * k + 1]);
            }
        }
        assert(a =~= b);
    }
}

/// Two lists of as many leaves that are not the same have different roots, unless the hash
/// function maps two different inputs to one value.
pub proof fn roots_differ(a: Seq<Node>, b: Seq<Node>)
    requires
        a.len() == b.len(),
        a != b,
    ensures
        merkle_root(a) != merkle_root(b) || exists|x: Seq<u8>, y: Seq<u8>| collision(x, y),
{
    if merkle_root(a) == merkle_root(b) && !(exists|x: Seq<u8>, y: Seq<u8>| collision(x, y)) {
        equal_tops(leaf_level(a), leaf_level(b));
        assert forall|i: int| 0 <= i < a.len() implies a[i] == b[i] by {
            assert(leaf_level(a)[i] == leaf_level(b)[i]);
            let x = leaf_input(a[i]);
            let y = leaf_input(b[i]);
            if x != y {
                assert(collision(x, y));
            }
            assert(a[i]@ =~= x.subrange(1, 33));
            assert(b[i]@ =~= y.subrange(1, 33));
            assert(a[i] =~= b[i]);
        }
        assert(a =~= b);
    }
}

/// The node of a leaf.
pub fn hash_leaf(leaf: &Node) -> (out: Node)
    ensures
        out == leaf_node(*leaf),
{
    let mut input: Vec<u8> = Vec::new();
    input.push(LEAF_PREFIX);
    append_bytes(&mut input, leaf.as_slice());
    assert(input@ =~= leaf_input(*leaf));
    hash_bytes(input.as_slice())
}

/// The node above two nodes.
pub fn hash_branch(left: &Node, right: &Node) -> (out: Node)
    ensures
        out == branch_node(*left, *right),
{
    let mut input: Vec<u8> = Vec::new();
    input.push(BRANCH_PREFIX);
    append_bytes(&mut input, left.as_slice());
    append_bytes(&mut input, right.as_slice());
    assert(input@ =~= branch_input(*left, *right));
    hash_bytes(input.as_slice())
}

/// A hash tree with all its levels, from the leaves up to the root.
#[derive(Debug)]
pub struct MerkleTree {
    levels: Vec<Vec<Node>>,
}

impl MerkleTree {
    /// The nodes of the given level, counted from the leaves.
    pub closed spec fn level(&self, i: int) -> Seq<Node> {
        self.levels@[i]@
    }

    /// How many levels there are.
    pub closed spec fn height(&self) -> nat {
        self.levels@.len()
    }

    /// Every level is the one above the level before it, and the last one holds at most one node.
    pub open spec fn wf(&self) -> bool {
        &&& self.height() >= 1
        &&& forall|i: int|
            0 <= i < self.height() - 1 ==> #[trigger] self.level(i + 1) == level_above(
                self.level(i),
            )
        &&& self.level(self.height() - 1).len() <= 1
    }

    proof fn top_is_last(&self, i: int)
        requires
            self.wf(),
            0 <= i < self.height(),
        ensures
            top_of(self.level(i)) == top_of(self.level(self.height() - 1)),
        decreases self.height() - i,
    {
        if i < self.height() - 1 {
            self.top_is_last(i + 1);
            assert(self.level(i + 1) == level_above(self.level(i)));
            if self.level(i).len() == 1 {
                assert(self.level(i + 1) =~= self.level(i));
            } else if self.level(i).len() == 0 {
                assert(self.level(i + 1) =~= self.level(i));
            }
        }
    }

    /// Builds the tree over the given leaves, in order.
    pub fn from_leaves(leaves: &[Node]) -> (tree: Self)
        ensures
            tree.wf(),
            tree.level(0) == leaf_level(leaves@),
    {
        let mut bottom: Vec<Node> = Vec::new();
        let mut i: usize = 0;
        while i < leaves.len()
            invariant
                i <= leaves@.len(),
                bottom@.len() == i,
                forall|j: int| 0 <= j < i ==> bottom@[j] == leaf_node(leaves@[j]),
            decreases leaves@.len() - i,
        {
            bottom.push(hash_leaf(&leaves[i]));
            i += 1;
        }
        assert(bottom@ =~= leaf_level(leaves@));
        let mut levels: Vec<Vec<Node>> = Vec::new();
        let mut last: Vec<Node> = bottom;
        while last.len() > 1
            invariant
                forall|k: int|
                    0 <= k < levels@.len() - 1 ==> (#[trigger] levels@[k + 1])@ == level_above(
                        levels@[k]@,
                    ),
                levels@.len() > 0 ==> last@ == level_above(levels@[levels@.len() - 1]@),
                levels@.len() > 0 ==> levels@[0]@ == leaf_level(leaves@),
                levels@.len() == 0 ==> last@ == leaf_level(leaves@),
            decreases last@.len(),
        {
            let next = Self::next_level(&last);
            levels.push(last);
            last = next;
        }
        levels.push(last);
        MerkleTree { levels }
    }

    fn next_level(last: &Vec<Node>) -> (next: Vec<Node>)
        ensures
            next@ == level_above(last@),
    {
        let mut next: Vec<Node> = Vec::new();
        let mut i: usize = 0;
        while i < last.len()
            invariant
                i <= last@.len(),
                i % 2 == 0 || i == last@.len(),
                next@.len() == (i + 1) / 2,
                forall|k: int| 0 <= k < next@.len() ==> next@[k] == level_above(last@)[k],
            decreases last@.len() - i,
        {
            if last.len() - i == 1 {
                next.push(last[i]);
                i += 1;
            } else {
                next.push(hash_branch(&last[i], &last[i + 1]));
                i += 2;
            }
        }
        assert(next@ =~= level_above(last@));
        next
    }

    /// The root, or 32 zero bytes for a tree without leaves.
    pub fn root(&self) -> (out: Node)
        requires
            self.wf(),
        ensures
            out == top_of(self.level(0)),
    {
        proof {
            self.top_is_last(0);
        }
        let last = &self.levels[self.levels.len() - 1];
        if last.len() > 0 {
            last[0]
        } else {
            let zero: Node = [0u8; 32];
            assert(zero =~= zero_node());
            zero
        }
    }

    /// The number of leaves.
    pub fn leaf_count(&self) -> (n: usize)
        requires
            self.wf(),
        ensures
            n == self.level(0).len(),
    {
        self.levels[0].len()
    }

    /// The positions at which the leaves of two trees differ; every position of the longer one
    /// where the trees have different numbers of leaves.
    pub fn diff_leaves(&self, other: &MerkleTree) -> (out: Vec<usize>)
        requires
            self.wf(),
            other.wf(),
        ensures
            positions(out@) == if self.level(0).len() == other.level(0).len() {
                differing(self.level(0), other.level(0), self.level(0).len())
            } else {
                all_upto(
                    if self.level(0).len() > other.level(0).len() {
                        self.level(0).len()
                    } else {
                        other.level(0).len()
                    },
                )
            },
    {
        let a = &self.levels[0];
        let b = &other.levels[0];
        if a.len() != b.len() {
            let n: usize = if a.len() > b.len() {
                a.len()
            } else {
                b.len()
            };
            let mut out: Vec<usize> = Vec::new();
            let mut i: usize = 0;
            while i < n
                invariant
                    i <= n,
                    positions(out@) == all_upto(i as nat),
                decreases n - i,
            {
                let ghost before = out@;
                out.push(i);
                assert(positions(out@) =~= positions(before).push(i as int));
                assert(all_upto(i as nat).push(i as int) =~= all_upto((i + 1) as nat));
                i += 1;
            }
            out
        } else {
            differing_positions(a.as_slice(), b.as_slice())
        }
    }
}

/// The numbers in a list of positions.
pub open spec fn positions(v: Seq<usize>) -> Seq<int> {
    Seq::new(v.len(), |i: int| v[i] as int)
}

/// The numbers below `n`, in order.
pub open spec fn all_upto(n: nat) -> Seq<int> {
    Seq::new(n, |i: int| i)
}

/// The positions below `n` at which two lists differ, in order.
pub open spec fn differing(a: Seq<Node>, b: Seq<Node>, n: nat) -> Seq<int>
    decreases n,
{
    if n == 0 {
        Seq::empty()
    } else if a[n - 1] != b[n - 1] {
        differing(a, b, (n - 1) as nat).push(n - 1)
    } else {
        differing(a, b, (n - 1) as nat)
    }
}

/// The list of differing positions holds exactly the positions at which the lists differ.
pub proof fn differing_exact(a: Seq<Node>, b: Seq<Node>, n: nat)
    ensures
        forall|i: int| #[trigger]
            differing(a, b, n).contains(i) <==> (0 <= i < n && a[i] != b[i]),
    decreases n,
{
    if n > 0 {
        let rest = differing(a, b, (n - 1) as nat);
        differing_exact(a, b, (n - 1) as nat);
        let all = differing(a, b, n);
        assert forall|i: int| #[trigger] all.contains(i) <==> (0 <= i < n && a[i] != b[i]) by {
            assert(rest.contains(i) <==> (0 <= i < n - 1 && a[i] != b[i]));
            if a[n - 1] != b[n - 1] {
                assert(all[rest.len() as int] == n - 1);
                if rest.contains(i) {
                    let k = choose|k: int| 0 <= k < rest.len() && rest[k] == i;
                    assert(all[k] == i);
                }
                if all.contains(i) {
                    let k = choose|k: int| 0 <= k < all.len() && all[k] == i;
                    if k < rest.len() {
                        assert(rest[k] == i);
                    }
                }
            }
        }
    }
}

fn differing_positions(a: &[Node], b: &[Node]) -> (out: Vec<usize>)
    requires
        a@.len() == b@.len(),
    ensures
        positions(out@) == differing(a@, b@, a@.len()),
{
    let mut out: Vec<usize> = Vec::new();
    let mut i: usize = 0;
    assert(positions(out@) =~= differing(a@, b@, 0));
    while i < a.len()
        invariant
            i <= a@.len(),
            a@.len() == b@.len(),
            positions(out@) == differing(a@, b@, i as nat),
        decreases a@.len() - i,
    {
        if !same_hash(&a[i], &b[i]) {
            let ghost before = out@;
            out.push(i);
            assert(positions(out@) =~= positions(before).push(i as int));
        }
        i += 1;
    }
    out
}

/// The root over a list of leaves.
pub fn root_of(leaves: &[Node]) -> (out: Node)
    ensures
        out == merkle_root(leaves@),
{
    MerkleTree::from_leaves(leaves).root()
}

/// What a verification found.
#[derive(Debug)]
pub struct MerkleVerifyReport {
    pub ok: bool,
    /// The positions of the leaves that are not those expected.
    pub corrupted_leaves: Vec<usize>,
    pub expected_root: Node,
    pub actual_root: Node,
}

/// Checks leaves against a root. Where the root is another one, the leaves that are not the
/// expected ones are named.
pub fn verify(
    expected_root: &Node,
    expected_leaves: &[Node],
    actual_leaves: &[Node],
) -> (out: Result<MerkleVerifyReport, LazarusError>)
    ensures
        out is Err <==> expected_leaves@.len() != actual_leaves@.len(),
        out matches Err(e) ==> e is VerificationFailed && e.detail()
            == "Merkle leaf count mismatch: expected "@ + decimal(expected_leaves@.len())
            + ", got "@ + decimal(actual_leaves@.len()),
        out matches Ok(r) ==> {
            &&& r.expected_root == *expected_root
            &&& r.actual_root == merkle_root(actual_leaves@)
            &&& r.ok == (merkle_root(actual_leaves@) == *expected_root)
            &&& positions(r.corrupted_leaves@) == if r.ok {
                Seq::empty()
            } else {
                differing(expected_leaves@, actual_leaves@, expected_leaves@.len())
            }
        },
{
    if expected_leaves.len() != actual_leaves.len() {
        let mut m = crate::text::copy_text("Merkle leaf count mismatch: expected ");
        m.append(decimal_string(expected_leaves.len() as u64).as_str());
        m.append(", got ");
        m.append(decimal_string(actual_leaves.len() as u64).as_str());
        return Err(LazarusError::VerificationFailed(m));
    }
    let actual_root = root_of(actual_leaves);
    if same_hash(&actual_root, expected_root) {
        let none: Vec<usize> = Vec::new();
        assert(positions(none@) =~= Seq::<int>::empty());
        return Ok(
            MerkleVerifyReport {
                ok: true,
                corrupted_leaves: none,
                expected_root: *expected_root,
                actual_root,
            },
        );
    }
    let corrupted = differing_positions(expected_leaves, actual_leaves);
    Ok(
        MerkleVerifyReport {
            ok: false,
            corrupted_leaves: corrupted,
            expected_root: *expected_root,
            actual_root,
        },
    )
}

/// Where the recorded root is that of the expected leaves, a failed check names at least one
/// leaf, and every leaf that it does not name is as expected.
pub proof fn failed_check_names_a_leaf(expected: Seq<Node>, actual: Seq<Node>)
    requires
        expected.len() == actual.len(),
        merkle_root(actual) != merkle_root(expected),
    ensures
        differing(expected, actual, expected.len()).len() > 0,
        forall|i: int|
            0 <= i < expected.len() && !differing(expected, actual, expected.len()).contains(i)
                ==> expected[i] == actual[i],
{
    differing_exact(expected, actual, expected.len());
    if forall|i: int| 0 <= i < expected.len() ==> expected[i] == actual[i] {
        assert(expected =~= actual);
    }
    let i = choose|i: int| 0 <= i < expected.len() && expected[i] != actual[i];
    assert(differing(expected, actual, expected.len()).contains(i));
}

/// Leaves are hashed behind a 0 and branches behind a 1, so that neither passes for the other; a
/// branch holds its left side before its right one.
pub proof fn leaves_and_branches_are_told_apart(leaf: Node, left: Node, right: Node)
    ensures
        leaf_node(leaf) == blake3_hash(seq![0u8] + leaf@),
        branch_node(left, right) == blake3_hash(seq![1u8] + left@ + right@),
        leaf_input(leaf) != branch_input(left, right),
{
    assert(leaf_input(leaf)[0] == 0);
    assert(branch_input(left, right)[0] == 1);
}

/// The root of no leaves is zero, that of one is its leaf node, that of two their branch; and a
/// third is taken up as it is.
pub proof fn small_trees(a: Node, b: Node, c: Node)
    ensures
        forall|i: int| 0 <= i < 32 ==> merkle_root(Seq::empty())@[i] == 0,
        merkle_root(seq![a]) == leaf_node(a),
        merkle_root(seq![a, b]) == branch_node(leaf_node(a), leaf_node(b)),
        merkle_root(seq![a, b, c]) == branch_node(
            branch_node(leaf_node(a), leaf_node(b)),
            leaf_node(c),
        ),
{
    assert(leaf_level(Seq::empty()) =~= Seq::<Node>::empty());
    assert(leaf_level(seq![a]) =~= seq![leaf_node(a)]);
    assert(leaf_level(seq![a, b]) =~= seq![leaf_node(a), leaf_node(b)]);
    let two = seq![leaf_node(a), leaf_node(b)];
    assert(level_above(two) =~= seq![branch_node(leaf_node(a), leaf_node(b))]);
    reveal_with_fuel(top_of, 4);
    let three = seq![leaf_node(a), leaf_node(b), leaf_node(c)];
    assert(leaf_level(seq![a, b, c]) =~= three);
    let up = seq![branch_node(leaf_node(a), leaf_node(b)), leaf_node(c)];
    assert(level_above(three) =~= up);
    assert(level_above(up) =~= seq![branch_node(up[0], up[1])]);
}

/// Every level pairs the nodes below it in order; a node without a partner goes up as it is.
pub proof fn levels_pair_nodes(level: Seq<Node>, i: int)
    requires
        0 <= i,
        2 * i < level.len(),
    ensures
        level_above(level).len() == (level.len() + 1) / 2,
        2 * i + 1 < level.len() ==> level_above(level)[i] == branch_node(
            level[2 * i],
            level[2 * i + 1],
        ),
        2 * i + 1 == level.len() ==> level_above(level)[i] == level[2 * i],
{
}

} // verus!
