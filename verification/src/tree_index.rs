//! Nodes of a complete binary tree, numbered from the root.
//!
//! The root is node 1 and the parent of node `x` is `x / 2`, so the binary
//! digits of a node spell the path from the root to it. Node 0 stands for "no
//! node". The executable operations come from `balanced_tree_index`; what they
//! compute is stated here over natural numbers.
use balanced_tree_index::TreeIndex;
use rand_core::RngCore;
use vstd::arithmetic::power2::{
    lemma2_to64, lemma2_to64_rest, lemma_pow2_pos, lemma_pow2_strictly_increases, lemma_pow2_unfold,
    pow2,
};
use vstd::prelude::*;

verus! {

/// Number of edges between the root and node `x` (0 for the root itself).
pub open spec fn node_height(x: nat) -> nat
    decreases x,
{
    if x <= 1 {
        0
    } else {
        1 + node_height(x / 2)
    }
}

/// The deepest node that lies on the paths from the root to `a` and to `b`.
pub open spec fn common_ancestor(a: nat, b: nat) -> nat
    decreases a + b,
{
    if a == b {
        a
    } else if a > b {
        common_ancestor(a / 2, b)
    } else {
        common_ancestor(a, b / 2)
    }
}

/// Height of the deepest common ancestor of `a` and `b`: the number of path
/// steps that the two nodes share.
pub open spec fn common_ancestor_height(a: nat, b: nat) -> nat {
    node_height(common_ancestor(a, b))
}

/// `node` is a leaf of the tree of height `height`.
pub open spec fn is_leaf_at_height(node: nat, height: nat) -> bool {
    pow2(height) <= node < 2 * pow2(height)
}

/// A node of height `h` lies in `[2^h, 2^(h+1))`.
pub proof fn lemma_node_height_range(x: nat)
    requires
        x >= 1,
    ensures
        is_leaf_at_height(x, node_height(x)),
    decreases x,
{
    if x == 1 {
        lemma_pow2_unfold(1);
        lemma2_to64();
    } else {
        lemma_node_height_range(x / 2);
        lemma_pow2_unfold(node_height(x));
    }
}

/// The height of a node is the only `h` with `2^h <= x < 2^(h+1)`.
pub proof fn lemma_leaf_at_height_has_height(x: nat, h: nat)
    requires
        is_leaf_at_height(x, h),
    ensures
        node_height(x) == h,
    decreases h,
{
    lemma_pow2_pos(h);
    if h == 0 {
        lemma2_to64();
    } else {
        lemma_pow2_unfold(h);
        lemma_leaf_at_height_has_height(x / 2, (h - 1) as nat);
    }
}

/// Every node that a `u64` can name has a height below 64.
pub proof fn lemma_node_height_u64(x: u64)
    ensures
        node_height(x as nat) < 64,
{
    if x >= 1 {
        lemma_node_height_range(x as nat);
        let h = node_height(x as nat);
        if h >= 64 {
            if h > 64 {
                lemma_pow2_strictly_increases(64, h);
            }
            lemma2_to64_rest();
        }
    }
}

/// The common ancestor of two nodes is no deeper than either of them.
pub proof fn lemma_common_ancestor_height_bound(a: nat, b: nat)
    requires
        a >= 1,
        b >= 1,
    ensures
        common_ancestor(a, b) >= 1,
        common_ancestor_height(a, b) <= node_height(a),
        common_ancestor_height(a, b) <= node_height(b),
    decreases a + b,
{
    if a == b {
    } else if a > b {
        lemma_common_ancestor_height_bound(a / 2, b);
    } else {
        lemma_common_ancestor_height_bound(a, b / 2);
    }
}

/// `TreeIndex::height` of `balanced_tree_index` on `u64`: the height of the
/// node, which is the position of its highest set bit. The outside function
/// is not defined on node 0.
#[verifier::external_body]
pub(crate) fn height_u64(node: u64) -> (height: u32)
    requires
        node != 0,
    ensures
        height == node_height(node as nat),
{
    node.height()
}

/// `TreeIndex::common_ancestor_height` of `balanced_tree_index` on `u64`: the
/// height of the deepest node that is an ancestor of both arguments (a node
/// counts as its own ancestor). The outside function is not defined on node 0.
#[verifier::external_body]
pub(crate) fn common_ancestor_height_u64(a: u64, b: u64) -> (height: u32)
    requires
        a != 0,
        b != 0,
    ensures
        height == common_ancestor_height(a as nat, b as nat),
{
    a.common_ancestor_height(&b)
}

/// `TreeIndex::random_child_at_height` of `balanced_tree_index` on `u64`: some
/// descendant of `node` at the given height, picked with bits drawn from `rng`.
/// Which one is not stated: it depends on the generator.
#[verifier::external_body]
pub(crate) fn random_child_at_height<R: RngCore>(
    node: u64,
    height: u32,
    rng: &mut R,
) -> (child: u64)
    requires
        node != 0,
        node_height(node as nat) <= height < 64,
    ensures
        node_height(child as nat) == height,
        child as nat / pow2((height - node_height(node as nat)) as nat) == node,
{
    node.random_child_at_height(height, rng)
}

} // verus!
