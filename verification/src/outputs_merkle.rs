//! The Merkle tree over the digests of a run's outputs.
//!
//! The tree is a complete binary tree of a fixed height. Its leaves are filled from the left;
//! every leaf that is not taken holds 32 zero bytes. A node is the Keccak-256 digest of its two
//! children, left before right.

use vstd::arithmetic::power2::{lemma2_to64, lemma_pow2_pos, lemma_pow2_unfold, pow2};
use vstd::prelude::*;

use crate::digest::{keccak256, keccak256_of};

verus! {

/// The digests as plain byte sequences.
pub open spec fn digests(list: Seq<[u8; 32]>) -> Seq<Seq<u8>> {
    list.map_values(|digest: [u8; 32]| digest@)
}

/// What a leaf holds that no digest was put into.
pub open spec fn pristine_leaf() -> Seq<u8> {
    Seq::new(32, |i: int| 0u8)
}

/// The node at `index` of `level`, where level 0 holds the leaves.
pub open spec fn node(leaves: Seq<Seq<u8>>, level: nat, index: nat) -> Seq<u8>
    decreases level,
{
    if level == 0 {
        if index < leaves.len() {
            leaves[index as int]
        } else {
            pristine_leaf()
        }
    } else {
        keccak256_of(
            node(leaves, (level - 1) as nat, 2 * index) + node(
                leaves,
                (level - 1) as nat,
                2 * index + 1,
            ),
        )
    }
}

/// The root of the tree of height `height` over `leaves`.
pub open spec fn merkle_root(leaves: Seq<Seq<u8>>, height: nat) -> Seq<u8> {
    node(leaves, height, 0)
}

/// The index, at `level`, of the node above the leaf at `index`.
pub open spec fn ancestor(index: nat, level: nat) -> nat
    decreases level,
{
    if level == 0 {
        index
    } else {
        ancestor(index, (level - 1) as nat) / 2
    }
}

/// The index of the other child of the same parent.
pub open spec fn sibling(index: nat) -> nat {
    if index % 2 == 0 {
        index + 1
    } else {
        (index - 1) as nat
    }
}

/// The siblings met on the way from the leaf at `index` up to the root, lowest first.
pub open spec fn proof_of(leaves: Seq<Seq<u8>>, height: nat, index: nat) -> Seq<Seq<u8>> {
    Seq::new(height, |level: int| node(leaves, level as nat, sibling(ancestor(index, level as nat))))
}

/// What a verifier computes from a leaf, its index and the siblings on its way up.
pub open spec fn folded(leaf: Seq<u8>, index: nat, siblings: Seq<Seq<u8>>) -> Seq<u8>
    decreases siblings.len(),
{
    if siblings.len() == 0 {
        leaf
    } else {
        let below = folded(leaf, index, siblings.drop_last());
        if ancestor(index, (siblings.len() - 1) as nat) % 2 == 0 {
            keccak256_of(below + siblings.last())
        } else {
            keccak256_of(siblings.last() + below)
        }
    }
}

/// The number of nodes of `level` that have a given leaf below them; one where there is no leaf.
spec fn width(leaf_count: nat, level: nat) -> nat
    decreases level,
{
    if level == 0 {
        if leaf_count == 0 {
            1
        } else {
            leaf_count
        }
    } else {
        (width(leaf_count, (level - 1) as nat) + 1) / 2
    }
}

proof fn lemma_width_positive(leaf_count: nat, level: nat)
    ensures
        width(leaf_count, level) >= 1,
    decreases level,
{
    if level > 0 {
        lemma_width_positive(leaf_count, (level - 1) as nat);
    }
}

/// Halving `level` times leaves at most `pow2(rest)` nodes where the leaves fit the whole height.
proof fn lemma_width_bound(leaf_count: nat, level: nat, rest: nat)
    ensures
        width(leaf_count, level) <= pow2(rest) <==> leaf_count <= pow2(level + rest),
    decreases level,
{
    if level == 0 {
        lemma_pow2_pos(rest);
    } else {
        lemma_width_bound(leaf_count, (level - 1) as nat, rest + 1);
        lemma_pow2_unfold(rest + 1);
    }
}

/// A node with no given leaf below it is the same as in the tree without leaves.
proof fn lemma_pristine(leaves: Seq<Seq<u8>>, level: nat, index: nat)
    requires
        index >= width(leaves.len(), level) || leaves.len() == 0,
    ensures
        node(leaves, level, index) == node(Seq::empty(), level, 0),
    decreases level,
{
    if level > 0 {
        let below = (level - 1) as nat;
        lemma_pristine(leaves, below, 2 * index);
        lemma_pristine(leaves, below, 2 * index + 1);
        lemma_pristine(Seq::empty(), below, 1);
    }
}

/// Below the height the way up from any leaf that fits ends at the root.
proof fn lemma_ancestor_reaches_root(index: nat, level: nat, rest: nat)
    requires
        index < pow2(level + rest),
    ensures
        ancestor(index, level) < pow2(rest),
    decreases level,
{
    if level > 0 {
        lemma_ancestor_reaches_root(index, (level - 1) as nat, rest + 1);
        lemma_pow2_unfold(rest + 1);
    }
}

proof fn lemma_fold(leaves: Seq<Seq<u8>>, height: nat, index: nat)
    ensures
        folded(node(leaves, 0, index), index, proof_of(leaves, height, index)) == node(
            leaves,
            height,
            ancestor(index, height),
        ),
    decreases height,
{
    if height > 0 {
        let below = (height - 1) as nat;
        lemma_fold(leaves, below, index);
        assert(proof_of(leaves, height, index).drop_last() =~= proof_of(leaves, below, index));
        let at = ancestor(index, below);
        assert(at % 2 == 0 ==> at == 2 * (at / 2));
        assert(at % 2 != 0 ==> at == 2 * (at / 2) + 1);
    }
}

/// Every proof leads from its leaf to the root: folding the leaf with the siblings of its proof
/// gives the root of the tree.
pub proof fn law_proofs_lead_to_root(leaves: Seq<Seq<u8>>, height: nat, index: nat)
    requires
        index < leaves.len() <= pow2(height),
    ensures
        folded(leaves[index as int], index, proof_of(leaves, height, index)) == merkle_root(
            leaves,
            height,
        ),
{
    lemma_fold(leaves, height, index);
    lemma_ancestor_reaches_root(index, height, 0);
    lemma2_to64();
}

/// The tree does not tell a missing leaf from a leaf of zero bytes: appending one keeps every
/// node, and so the root.
pub proof fn law_zero_leaf_keeps_root(leaves: Seq<Seq<u8>>, level: nat, index: nat)
    ensures
        node(leaves.push(pristine_leaf()), level, index) == node(leaves, level, index),
    decreases level,
{
    if level > 0 {
        law_zero_leaf_keeps_root(leaves, (level - 1) as nat, 2 * index);
        law_zero_leaf_keeps_root(leaves, (level - 1) as nat, 2 * index + 1);
    }
}

/// More leaves were given than the tree has.
#[derive(Debug, Clone, Copy, PartialEq, Eq, Structural)]
pub struct TooManyLeaves;

fn parent(left: &[u8; 32], right: &[u8; 32]) -> (digest: [u8; 32])
    ensures
        digest@ == keccak256_of(left@ + right@),
{
    let mut children: Vec<u8> = Vec::new();
    children.extend_from_slice(left);
    children.extend_from_slice(right);
    proof {
        assert(children@ =~= left@ + right@);
    }
    keccak256(&children)
}

/// The level above `current`, with `pristine` standing in for a right child that is not there.
fn parent_level(current: &Vec<[u8; 32]>, pristine: &[u8; 32]) -> (above: Vec<[u8; 32]>)
    ensures
        above@.len() == (current@.len() + 1) / 2,
        forall|i: int|
            0 <= i < above@.len() ==> (#[trigger] above@[i])@ == keccak256_of(
                current@[2 * i]@ + (if 2 * i + 1 < current@.len() {
                    current@[2 * i + 1]@
                } else {
                    pristine@
                }),
            ),
{
    let mut above: Vec<[u8; 32]> = Vec::new();
    let count: usize = current.len() / 2 + current.len() % 2;
    let mut i: usize = 0;
    while i < count
        invariant
            current@.len() <= usize::MAX,
            count == (current@.len() + 1) / 2,
            i <= count,
            above@.len() == i,
            forall|k: int|
                0 <= k < i ==> (#[trigger] above@[k])@ == keccak256_of(
                    current@[2 * k]@ + (if 2 * k + 1 < current@.len() {
                        current@[2 * k + 1]@
                    } else {
                        pristine@
                    }),
                ),
        decreases count - i,
    {
        let left: usize = 2 * i;
        if left < current.len() - 1 {
            above.push(parent(&current[left], &current[left + 1]));
        } else {
            above.push(parent(&current[left], pristine));
        }
        i = i + 1;
    }
    above
}

/// Whether `levels` and `pristine` hold the tree over `leaves` up to the level they reach.
spec fn built(
    leaves: Seq<Seq<u8>>,
    levels: Seq<Vec<[u8; 32]>>,
    pristine: Seq<[u8; 32]>,
) -> bool {
    &&& levels.len() == pristine.len()
    &&& forall|l: int|
        0 <= l < levels.len() ==> (#[trigger] levels[l])@.len() == width(leaves.len(), l as nat)
    &&& forall|l: int, k: int|
        0 <= l < levels.len() && 0 <= k < levels[l]@.len() ==> (#[trigger] levels[l]@[k])@ == node(
            leaves,
            l as nat,
            k as nat,
        )
    &&& forall|l: int|
        0 <= l < pristine.len() ==> (#[trigger] pristine[l])@ == node(Seq::empty(), l as nat, 0)
}

/// Builds the tree of height `height` over `leaves` and returns its root together with the proof
/// of every leaf, in the order of the leaves. A proof lists the siblings from the leaf upwards.
pub fn create_proofs(leaves: Vec<[u8; 32]>, height: usize) -> (result: Result<
    ([u8; 32], Vec<Vec<[u8; 32]>>),
    TooManyLeaves,
>)
    ensures
        result is Ok <==> leaves@.len() <= pow2(height as nat),
        result matches Ok((root, proofs)) ==> {
            &&& root@ == merkle_root(digests(leaves@), height as nat)
            &&& proofs@.len() == leaves@.len()
            &&& forall|i: int|
                0 <= i < proofs@.len() ==> digests((#[trigger] proofs@[i])@) == proof_of(
                    digests(leaves@),
                    height as nat,
                    i as nat,
                )
        },
{
    let ghost leaf_digests = digests(leaves@);
    let leaf_count: usize = leaves.len();
    let zero: [u8; 32] = [0u8; 32];
    proof {
        assert(zero@ =~= pristine_leaf());
    }
    let mut bottom: Vec<[u8; 32]> = leaves;
    if leaf_count == 0 {
        bottom.push(zero);
    }
    let mut levels: Vec<Vec<[u8; 32]>> = Vec::new();
    let mut pristine: Vec<[u8; 32]> = Vec::new();
    levels.push(bottom);
    pristine.push(zero);

    let mut level: usize = 0;
    while level < height
        invariant
            level <= height,
            leaf_digests.len() == leaf_count,
            levels@.len() == level + 1,
            built(leaf_digests, levels@, pristine@),
        decreases height - level,
    {
        let ghost levels_before = levels@;
        let ghost pristine_before = pristine@;
        let above: Vec<[u8; 32]> = parent_level(&levels[level], &pristine[level]);
        let blank: [u8; 32] = parent(&pristine[level], &pristine[level]);
        proof {
            let below = level as nat;
            lemma_pristine(Seq::empty(), below, 1);
            assert(levels@[level as int]@.len() == width(leaf_digests.len(), below));
            assert forall|k: int| 0 <= k < above@.len() implies (#[trigger] above@[k])@ == node(
                leaf_digests,
                below + 1,
                k as nat,
            ) by {
                assert(levels@[level as int]@[2 * k]@ == node(leaf_digests, below, (2 * k) as nat));
                if 2 * k + 1 < levels@[level as int]@.len() {
                    assert(levels@[level as int]@[2 * k + 1]@ == node(
                        leaf_digests,
                        below,
                        (2 * k + 1) as nat,
                    ));
                } else {
                    lemma_pristine(leaf_digests, below, (2 * k + 1) as nat);
                }
            }
        }
        levels.push(above);
        pristine.push(blank);
        proof {
            assert forall|l: int, k: int|
                0 <= l < levels@.len() && 0 <= k < levels@[l]@.len() implies (
            #[trigger] levels@[l]@[k])@ == node(leaf_digests, l as nat, k as nat) by {
                if l <= level {
                    assert(levels@[l] == levels_before[l]);
                }
            }
        }
        level = level + 1;
    }

    proof {
        lemma_width_positive(leaf_count as nat, height as nat);
        lemma_width_bound(leaf_count as nat, height as nat, 0);
        lemma2_to64();
    }
    if levels[height].len() != 1 {
        return Err(TooManyLeaves);
    }
    let root: [u8; 32] = levels[height][0];

    let mut proofs: Vec<Vec<[u8; 32]>> = Vec::new();
    let mut leaf: usize = 0;
    while leaf < leaf_count
        invariant
            leaf <= leaf_count,
            leaf_digests.len() == leaf_count,
            levels@.len() == height + 1,
            built(leaf_digests, levels@, pristine@),
            proofs@.len() == leaf,
            forall|i: int|
                0 <= i < leaf ==> digests((#[trigger] proofs@[i])@) == proof_of(
                    leaf_digests,
                    height as nat,
                    i as nat,
                ),
        decreases leaf_count - leaf,
    {
        let mut siblings: Vec<[u8; 32]> = Vec::new();
        let mut index: usize = leaf;
        let mut at: usize = 0;
        while at < height
            invariant
                at <= height,
                leaf_digests.len() == leaf_count,
                levels@.len() == height + 1,
                built(leaf_digests, levels@, pristine@),
                index == ancestor(leaf as nat, at as nat),
                siblings@.len() == at,
                forall|l: int|
                    0 <= l < at ==> (#[trigger] siblings@[l])@ == node(
                        leaf_digests,
                        l as nat,
                        sibling(ancestor(leaf as nat, l as nat)),
                    ),
            decreases height - at,
        {
            let other: usize = if index % 2 == 0 {
                index + 1
            } else {
                index - 1
            };
            if other < levels[at].len() {
                siblings.push(levels[at][other]);
            } else {
                proof {
                    lemma_pristine(leaf_digests, at as nat, other as nat);
                }
                siblings.push(pristine[at]);
            }
            index = index / 2;
            at = at + 1;
        }
        proof {
            assert(digests(siblings@) =~= proof_of(leaf_digests, height as nat, leaf as nat));
        }
        proofs.push(siblings);
        leaf = leaf + 1;
    }
    Ok((root, proofs))
}

proof fn lemma_node_left(left: Seq<Seq<u8>>, right: Seq<Seq<u8>>, level: nat, rest: nat, index: nat)
    requires
        left.len() == pow2(level + rest) || right.len() == 0,
        index < pow2(rest),
    ensures
        node(left + right, level, index) == node(left, level, index),
    decreases level,
{
    if level == 0 {
        assert(index < left.len() ==> (left + right)[index as int] == left[index as int]);
    } else {
        lemma_pow2_unfold(rest + 1);
        assert(level - 1 + (rest + 1) == level + rest);
        lemma_node_left(left, right, (level - 1) as nat, rest + 1, 2 * index);
        lemma_node_left(left, right, (level - 1) as nat, rest + 1, 2 * index + 1);
    }
}

proof fn lemma_node_right(
    left: Seq<Seq<u8>>,
    right: Seq<Seq<u8>>,
    level: nat,
    rest: nat,
    index: nat,
)
    requires
        left.len() == pow2(level + rest) || (right.len() == 0 && left.len() <= pow2(level + rest)),
    ensures
        node(left + right, level, index + pow2(rest)) == node(right, level, index),
    decreases level,
{
    if level == 0 {
        assert(index < right.len() ==> (left + right)[(index + left.len()) as int] == right[index as int]);
    } else {
        lemma_pow2_unfold(rest + 1);
        assert(level - 1 + (rest + 1) == level + rest);
        lemma_node_right(left, right, (level - 1) as nat, rest + 1, 2 * index);
        lemma_node_right(left, right, (level - 1) as nat, rest + 1, 2 * index + 1);
        assert(2 * (index + pow2(rest)) == 2 * index + pow2(rest + 1));
    }
}

/// A tree is the digest of its two halves, left before right: the first leaves, as many as the left
/// half has, are below the left root, and the others, in order, below the right one.
pub proof fn law_root_of_halves(left: Seq<Seq<u8>>, right: Seq<Seq<u8>>, height: nat)
    requires
        left.len() == pow2(height) || (right.len() == 0 && left.len() <= pow2(height)),
    ensures
        merkle_root(left + right, height + 1) == keccak256_of(
            merkle_root(left, height) + merkle_root(right, height),
        ),
{
    lemma2_to64();
    lemma_node_left(left, right, height, 0, 0);
    lemma_node_right(left, right, height, 0, 0);
    assert(node(left + right, height, 1) == node(right, height, 0));
}

/// The tree of one leaf is that leaf, and without a leaf it is 32 zero bytes.
pub proof fn law_root_of_one_leaf(leaf: Seq<u8>)
    ensures
        merkle_root(seq![leaf], 0) == leaf,
        merkle_root(Seq::empty(), 0).len() == 32,
        forall|i: int| 0 <= i < 32 ==> #[trigger] merkle_root(Seq::empty(), 0)[i] == 0,
{
}

proof fn lemma_ancestor_right(index: nat, level: nat, rest: nat)
    ensures
        ancestor(index + pow2(level + rest), level) == ancestor(index, level) + pow2(rest),
    decreases level,
{
    if level > 0 {
        assert(level - 1 + (rest + 1) == level + rest);
        lemma_ancestor_right(index, (level - 1) as nat, rest + 1);
        lemma_pow2_unfold(rest + 1);
    }
}

/// The proof of a leaf is its proof in its own half, and then the root of the other half.
pub proof fn law_proof_of_halves(
    left: Seq<Seq<u8>>,
    right: Seq<Seq<u8>>,
    height: nat,
    index: nat,
)
    requires
        left.len() == pow2(height) || (right.len() == 0 && left.len() <= pow2(height)),
        index < pow2(height),
    ensures
        proof_of(left + right, height + 1, index) == proof_of(left, height, index).push(
            merkle_root(right, height),
        ),
        proof_of(left + right, height + 1, index + pow2(height)) == proof_of(
            right,
            height,
            index,
        ).push(merkle_root(left, height)),
        proof_of(left, 0, index).len() == 0,
{
    lemma2_to64();
    let whole = left + right;
    let mine = proof_of(whole, height + 1, index);
    let theirs = proof_of(whole, height + 1, index + pow2(height));
    assert forall|l: int| 0 <= l < height + 1 implies #[trigger] mine[l] == proof_of(
        left,
        height,
        index,
    ).push(merkle_root(right, height))[l] && theirs[l] == proof_of(right, height, index).push(
        merkle_root(left, height),
    )[l] by {
        let level = l as nat;
        let rest = (height - l) as nat;
        assert(level + rest == height);
        let at = ancestor(index, level);
        lemma_ancestor_reaches_root(index, level, rest);
        lemma_ancestor_right(index, level, rest);
        if level < height {
            lemma_pow2_unfold(rest);
            lemma_node_left(left, right, level, rest, sibling(at));
            lemma_node_right(left, right, level, rest, sibling(at));
            assert(sibling(at + pow2(rest)) == sibling(at) + pow2(rest));
        } else {
            assert(at == 0);
            lemma_node_left(left, right, level, 0, 0);
            lemma_node_right(left, right, level, 0, 0);
        }
    }
    assert(mine =~= proof_of(left, height, index).push(merkle_root(right, height)));
    assert forall|l: int| 0 <= l < height + 1 implies #[trigger] theirs[l] == proof_of(
        right,
        height,
        index,
    ).push(merkle_root(left, height))[l] by {
        assert(mine[l] == mine[l]);
    }
    assert(theirs =~= proof_of(right, height, index).push(merkle_root(left, height)));
}

/// The view of digests keeps their number, their order and every byte.
pub proof fn law_digest_views_are_whole(list: Seq<[u8; 32]>)
    ensures
        digests(list).len() == list.len(),
        forall|i: int| 0 <= i < list.len() ==> #[trigger] digests(list)[i] == list[i]@,
{
}

} // verus!
