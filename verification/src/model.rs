//! What a tree is, stated over sequences of digests: its root, and the root
//! that an inclusion proof folds up to.

use crate::common::split_point;
use crate::inclusion::ProofElem;
use crate::merge::Merge;
use vstd::prelude::*;

verus! {

/// The root of the tree over `leaves`: a single leaf is included as
/// `leaf_spec` of itself; a longer sequence divides at its split point, and
/// the roots of the two parts merge. Meant for non-empty sequences.
pub open spec fn tree_root<M: Merge>(leaves: Seq<M::Hash>) -> M::Hash
    decreases leaves.len(),
{
    if leaves.len() <= 1 {
        M::leaf_spec(leaves[0])
    } else {
        let mid = split_point(0, leaves.len() as int);
        M::merge_spec(tree_root::<M>(leaves.take(mid)), tree_root::<M>(leaves.skip(mid)))
    }
}

/// The digest reached from `subroot` by merging in the elements of `proof`
/// in order, the first one first.
pub open spec fn fold_proof<M: Merge>(subroot: M::Hash, proof: Seq<ProofElem<M::Hash>>) -> M::Hash
    decreases proof.len(),
{
    if proof.len() == 0 {
        subroot
    } else {
        proof.last().merge_spec::<M>(fold_proof::<M>(subroot, proof.drop_last()))
    }
}

/// The root that `proof` reconstructs for the raw digest `leaf`: the leaf is
/// finalized with `leaf_spec`, then the proof is folded over it from the
/// leaf's own sibling upwards.
pub open spec fn proof_root<M: Merge>(leaf: M::Hash, proof: Seq<ProofElem<M::Hash>>) -> M::Hash {
    fold_proof::<M>(M::leaf_spec(leaf), proof)
}

/// The tree over more than one leaf merges the trees over its two parts.
pub proof fn lemma_tree_root_split<M: Merge>(leaves: Seq<M::Hash>, lo: int, hi: int)
    requires
        0 <= lo,
        lo + 1 < hi <= leaves.len(),
    ensures
        tree_root::<M>(leaves.subrange(lo, hi)) == M::merge_spec(
            tree_root::<M>(leaves.subrange(lo, split_point(lo, hi))),
            tree_root::<M>(leaves.subrange(split_point(lo, hi), hi)),
        ),
{
    let part = leaves.subrange(lo, hi);
    let mid = split_point(0, part.len() as int);
    assert(mid + lo == split_point(lo, hi));
    assert(part.take(mid) =~= leaves.subrange(lo, split_point(lo, hi)));
    assert(part.skip(mid) =~= leaves.subrange(split_point(lo, hi), hi));
}

/// Whether `[start, end)` is a node of the tree over `[lo, hi)`: the whole
/// range is, and so is every node of the trees over its two children. A
/// range of one leaf has no children.
pub open spec fn is_node(lo: int, hi: int, start: int, end: int) -> bool
    decreases hi - lo,
{
    lo < hi && ((start == lo && end == hi) || (hi - lo > 1 && (is_node(
        lo,
        split_point(lo, hi),
        start,
        end,
    ) || is_node(split_point(lo, hi), hi, start, end))))
}

/// The nodes of the tree over `[lo, hi)`.
pub open spec fn node_set(lo: int, hi: int) -> Set<(int, int)> {
    Set::new(|r: (int, int)| is_node(lo, hi, r.0, r.1))
}

/// The ranges that the cache for `n` leaves is keyed by.
pub open spec fn tree_ranges(n: int) -> Set<(int, int)> {
    node_set(0, n)
}

/// The cache for `leaves`: every node of the tree over them, mapped to the
/// root of the tree over the leaves that it covers.
pub open spec fn cache_model<M: Merge>(leaves: Seq<M::Hash>) -> Map<(int, int), M::Hash> {
    Map::new(
        |r: (int, int)| is_node(0, leaves.len() as int, r.0, r.1),
        |r: (int, int)| tree_root::<M>(leaves.subrange(r.0, r.1)),
    )
}

/// The inclusion proof that `cache` holds for the leaf at `index`, read off
/// on the way from the node `[lo, hi)` down to that leaf: at each level the
/// cached digest of the child that does not contain the leaf, tagged with
/// the side it is on, the deepest level first.
pub open spec fn proof_path<T>(cache: Map<(int, int), T>, index: int, lo: int, hi: int) -> Seq<
    ProofElem<T>,
>
    decreases hi - lo,
{
    if hi - lo <= 1 {
        Seq::empty()
    } else {
        let mid = split_point(lo, hi);
        if index < mid {
            proof_path(cache, index, lo, mid).push(ProofElem::Right(cache[(mid, hi)]))
        } else {
            proof_path(cache, index, mid, hi).push(ProofElem::Left(cache[(lo, mid)]))
        }
    }
}

/// Whether `proof` is `path` with every digest cloned: the same tags in the
/// same order.
pub open spec fn copies_of<T: Clone>(path: Seq<ProofElem<T>>, proof: Seq<ProofElem<T>>) -> bool {
    &&& proof.len() == path.len()
    &&& forall|k: int| 0 <= k < path.len() ==> (#[trigger] path[k]).cloned_as(proof[k])
}

/// Whether a clone of a `T` is always equal to the value it was made from.
pub open spec fn clone_is_exact<T: Clone>() -> bool {
    forall|a: T, b: T| #[trigger] cloned::<T>(a, b) ==> a == b
}

/// A node lies within the range whose tree it belongs to, and is not empty.
pub proof fn lemma_node_bounds(lo: int, hi: int, start: int, end: int)
    requires
        is_node(lo, hi, start, end),
    ensures
        lo <= start < end <= hi,
    decreases hi - lo,
{
    if !(start == lo && end == hi) {
        let mid = split_point(lo, hi);
        if is_node(lo, mid, start, end) {
            lemma_node_bounds(lo, mid, start, end);
        } else {
            lemma_node_bounds(mid, hi, start, end);
        }
    }
}

/// The nodes of the tree over a node are nodes of the whole tree.
pub proof fn lemma_node_of_node(lo: int, hi: int, start: int, end: int, s: int, e: int)
    requires
        is_node(lo, hi, start, end),
        is_node(start, end, s, e),
    ensures
        is_node(lo, hi, s, e),
    decreases hi - lo,
{
    if !(start == lo && end == hi) {
        let mid = split_point(lo, hi);
        if is_node(lo, mid, start, end) {
            lemma_node_of_node(lo, mid, start, end, s, e);
        } else {
            lemma_node_of_node(mid, hi, start, end, s, e);
        }
    }
}

/// A node of more than one leaf has both its children in the tree.
pub proof fn lemma_node_children(lo: int, hi: int, start: int, end: int)
    requires
        is_node(lo, hi, start, end),
        end - start > 1,
    ensures
        is_node(lo, hi, start, split_point(start, end)),
        is_node(lo, hi, split_point(start, end), end),
{
    let mid = split_point(start, end);
    assert(is_node(start, mid, start, mid));
    assert(is_node(mid, end, mid, end));
    assert(is_node(start, end, start, mid));
    assert(is_node(start, end, mid, end));
    lemma_node_of_node(lo, hi, start, end, start, mid);
    lemma_node_of_node(lo, hi, start, end, mid, end);
}

/// Every single leaf of a non-empty range is a node of the tree over it.
pub proof fn lemma_leaf_is_node(lo: int, hi: int, index: int)
    requires
        lo <= index < hi,
    ensures
        is_node(lo, hi, index, index + 1),
    decreases hi - lo,
{
    if hi - lo > 1 {
        let mid = split_point(lo, hi);
        if index < mid {
            lemma_leaf_is_node(lo, mid, index);
        } else {
            lemma_leaf_is_node(mid, hi, index);
        }
    }
}

/// The range that holds the leaf at `index` and no other.
pub open spec fn leaf_range(index: int) -> (int, int) {
    (index, index + 1)
}

/// Whether two ranges share no leaf, or one of them contains the other.
pub open spec fn apart_or_nested(a: (int, int), b: (int, int)) -> bool {
    a.1 <= b.0 || b.1 <= a.0 || (a.0 <= b.0 && b.1 <= a.1) || (b.0 <= a.0 && a.1 <= b.1)
}

/// No two nodes of a tree overlap in part: either they share no leaf, or one
/// of them contains the other.
pub proof fn lemma_nodes_nest(lo: int, hi: int, a: (int, int), b: (int, int))
    requires
        is_node(lo, hi, a.0, a.1),
        is_node(lo, hi, b.0, b.1),
    ensures
        apart_or_nested(a, b),
    decreases hi - lo,
{
    lemma_node_bounds(lo, hi, a.0, a.1);
    lemma_node_bounds(lo, hi, b.0, b.1);
    if a != (lo, hi) && b != (lo, hi) {
        let mid = split_point(lo, hi);
        if is_node(lo, mid, a.0, a.1) {
            lemma_node_bounds(lo, mid, a.0, a.1);
            if is_node(lo, mid, b.0, b.1) {
                lemma_nodes_nest(lo, mid, a, b);
            } else {
                lemma_node_bounds(mid, hi, b.0, b.1);
            }
        } else {
            lemma_node_bounds(mid, hi, a.0, a.1);
            if is_node(mid, hi, b.0, b.1) {
                lemma_nodes_nest(mid, hi, a, b);
            } else {
                lemma_node_bounds(lo, mid, b.0, b.1);
            }
        }
    }
}

/// A tree over `n` leaves has `2n - 1` nodes.
pub proof fn lemma_node_count(lo: int, hi: int)
    requires
        lo < hi,
    ensures
        node_set(lo, hi).finite(),
        node_set(lo, hi).len() == 2 * (hi - lo) - 1,
    decreases hi - lo,
{
    if hi - lo == 1 {
        assert(node_set(lo, hi) =~= set![(lo, hi)]);
    } else {
        let mid = split_point(lo, hi);
        let left = node_set(lo, mid);
        let right = node_set(mid, hi);
        lemma_node_count(lo, mid);
        lemma_node_count(mid, hi);
        assert forall|r: (int, int)| left.contains(r) || right.contains(r) implies r != (lo, hi)
            && !(left.contains(r) && right.contains(r)) by {
            if left.contains(r) {
                lemma_node_bounds(lo, mid, r.0, r.1);
            }
            if right.contains(r) {
                lemma_node_bounds(mid, hi, r.0, r.1);
            }
        }
        assert(left.disjoint(right));
        vstd::set_lib::lemma_set_disjoint_lens(left, right);
        assert(node_set(lo, hi) =~= (left + right).insert((lo, hi)));
    }
}

/// What holds of the cache for any non-empty list of leaves: no two of its
/// ranges overlap in part, and none is empty; every single leaf has its
/// range; the whole range is there, with the root of the tree as its
/// digest; and there are `2n - 1` ranges in all.
pub proof fn lemma_cache_invariants<M: Merge>(leaves: Seq<M::Hash>)
    requires
        leaves.len() > 0,
    ensures
        forall|a: (int, int), b: (int, int)|
            cache_model::<M>(leaves).contains_key(a) && cache_model::<M>(leaves).contains_key(b)
                ==> apart_or_nested(a, b),
        forall|a: (int, int)|
            cache_model::<M>(leaves).contains_key(a) ==> 0 <= a.0 < a.1 <= leaves.len(),
        forall|i: int|
            0 <= i < leaves.len() ==> cache_model::<M>(leaves).contains_key(
                #[trigger] leaf_range(i),
            ),
        cache_model::<M>(leaves).contains_key((0, leaves.len() as int)),
        cache_model::<M>(leaves)[(0, leaves.len() as int)] == tree_root::<M>(leaves),
        cache_model::<M>(leaves).dom().finite(),
        cache_model::<M>(leaves).dom().len() == 2 * leaves.len() - 1,
{
    let n = leaves.len() as int;
    let cache = cache_model::<M>(leaves);
    assert forall|a: (int, int), b: (int, int)|
        cache.contains_key(a) && cache.contains_key(b) implies apart_or_nested(a, b) by {
        lemma_nodes_nest(0, n, a, b);
    }
    assert forall|a: (int, int)| cache.contains_key(a) implies 0 <= a.0 < a.1 <= n by {
        lemma_node_bounds(0, n, a.0, a.1);
    }
    assert forall|i: int| 0 <= i < n implies cache.contains_key(#[trigger] leaf_range(i)) by {
        lemma_leaf_is_node(0, n, i);
    }
    assert(leaves.subrange(0, n) =~= leaves);
    lemma_node_count(0, n);
    assert(cache.dom() =~= node_set(0, n));
}

/// A tree of one leaf has that leaf, finalized, as its root, and the proof
/// for it is empty.
pub proof fn lemma_single_leaf<M: Merge>(leaves: Seq<M::Hash>)
    requires
        leaves.len() == 1,
    ensures
        tree_root::<M>(leaves) == M::leaf_spec(leaves[0]),
        proof_path(cache_model::<M>(leaves), 0, 0, 1) == Seq::<ProofElem<M::Hash>>::empty(),
        proof_root::<M>(leaves[0], Seq::empty()) == tree_root::<M>(leaves),
{
}

/// Folding the path that the cache of a tree holds from one of its nodes
/// down to a leaf, over that leaf, gives the root of the tree over the node.
pub proof fn lemma_path_folds_to_node<M: Merge>(leaves: Seq<M::Hash>, index: int, lo: int, hi: int)
    requires
        is_node(0, leaves.len() as int, lo, hi),
        lo <= index < hi,
    ensures
        proof_root::<M>(leaves[index], proof_path(cache_model::<M>(leaves), index, lo, hi))
            == tree_root::<M>(leaves.subrange(lo, hi)),
    decreases hi - lo,
{
    let n = leaves.len() as int;
    let cache = cache_model::<M>(leaves);
    lemma_node_bounds(0, n, lo, hi);
    if hi - lo > 1 {
        let mid = split_point(lo, hi);
        lemma_node_children(0, n, lo, hi);
        lemma_tree_root_split::<M>(leaves, lo, hi);
        let path = proof_path(cache, index, lo, hi);
        if index < mid {
            lemma_path_folds_to_node::<M>(leaves, index, lo, mid);
            assert(path.drop_last() =~= proof_path(cache, index, lo, mid));
            assert(path.last() == ProofElem::Right(cache[(mid, hi)]));
        } else {
            lemma_path_folds_to_node::<M>(leaves, index, mid, hi);
            assert(path.drop_last() =~= proof_path(cache, index, mid, hi));
            assert(path.last() == ProofElem::Left(cache[(lo, mid)]));
        }
    }
}

/// The proof that the cache of a tree holds for any of its leaves
/// reconstructs, from that leaf, the root of the tree.
pub proof fn lemma_proof_verifies<M: Merge>(leaves: Seq<M::Hash>, index: int)
    requires
        0 <= index < leaves.len(),
    ensures
        proof_root::<M>(
            leaves[index],
            proof_path(cache_model::<M>(leaves), index, 0, leaves.len() as int),
        ) == tree_root::<M>(leaves),
{
    lemma_path_folds_to_node::<M>(leaves, index, 0, leaves.len() as int);
    assert(leaves.subrange(0, leaves.len() as int) =~= leaves);
}

/// One cache serves every leaf: each of the proofs that it holds leads from
/// its leaf to the digest that the cache holds for the whole range, which is
/// the root of the tree computed on its own.
pub proof fn lemma_every_proof_verifies<M: Merge>(leaves: Seq<M::Hash>)
    requires
        leaves.len() > 0,
    ensures
        cache_model::<M>(leaves)[(0, leaves.len() as int)] == tree_root::<M>(leaves),
        forall|index: int|
            0 <= index < leaves.len() ==> proof_root::<M>(
                leaves[index],
                #[trigger] proof_path(cache_model::<M>(leaves), index, 0, leaves.len() as int),
            ) == tree_root::<M>(leaves),
{
    assert(leaves.subrange(0, leaves.len() as int) =~= leaves);
    assert forall|index: int| 0 <= index < leaves.len() implies proof_root::<M>(
        leaves[index],
        #[trigger] proof_path(cache_model::<M>(leaves), index, 0, leaves.len() as int),
    ) == tree_root::<M>(leaves) by {
        lemma_proof_verifies::<M>(leaves, index);
    }
}

/// Where cloning a digest gives back an equal digest, a proof made of
/// clones is the path itself.
pub proof fn lemma_exact_copies<T: Clone>(path: Seq<ProofElem<T>>, proof: Seq<ProofElem<T>>)
    requires
        copies_of(path, proof),
        clone_is_exact::<T>(),
    ensures
        proof == path,
{
    assert(proof =~= path);
}

} // verus!
