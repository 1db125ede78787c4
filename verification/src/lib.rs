//! Merkle trees over precomputed leaf digests: root computation, a range-indexed
//! digest cache, inclusion proofs and their verification, all generic over the
//! combining strategy.

pub mod alg;
pub mod common;
pub mod error;
pub mod inclusion;
pub mod merge;
pub mod model;
pub mod packed;
pub mod proof_map;
pub mod proofelem;

pub use crate::error::TreeError;
pub use crate::inclusion::ProofElem;
pub use crate::merge::Merge;

use crate::common::split_slice;
use crate::model::{
    cache_model, clone_is_exact, copies_of, fold_proof, lemma_exact_copies, lemma_proof_verifies,
    proof_path, proof_root, tree_root,
};
use crate::proof_map::HashCache;
use vstd::prelude::*;

verus! {

/// The root of the tree over a non-empty slice of leaves, computed by
/// dividing it in two until single leaves remain.
fn subtree_root<M: Merge>(leaves: &[M::Hash]) -> (root: M::Hash)
    requires
        leaves.len() > 0,
    ensures
        root == tree_root::<M>(leaves@),
    decreases leaves.len(),
{
    if leaves.len() == 1 {
        M::leaf(&leaves[0])
    } else {
        let (left, right) = split_slice(leaves);
        M::merge(&subtree_root::<M>(left), &subtree_root::<M>(right))
    }
}

/// Computes the root of the tree over an ordered list of leaves, without
/// keeping any inner digest.
///
/// An empty list has no root: it is rejected with [`TreeError::EmptyInput`].
pub fn compute_root<M: Merge>(leaves: &[M::Hash]) -> (root: Result<M::Hash, TreeError>)
    ensures
        match root {
            Ok(h) => leaves.len() > 0 && h == tree_root::<M>(leaves@),
            Err(e) => leaves.len() == 0 && e == TreeError::EmptyInput,
        },
{
    if leaves.len() == 0 {
        Err(TreeError::EmptyInput)
    } else {
        Ok(subtree_root::<M>(leaves))
    }
}

/// Creates the inclusion proof for the leaf at `leaf_index`, the sibling of
/// the leaf first and the sibling just below the root last.
///
/// The digests in it are clones of those in the tree. Where a clone of a
/// digest equals the digest, the proof is the path through the tree itself,
/// and [`verify_proof`] leads from the leaf back to the root of `leaves`.
///
/// An empty list is rejected with [`TreeError::EmptyInput`], an index that
/// names no leaf with [`TreeError::IndexOutOfRange`].
pub fn create_proof<M: Merge>(leaf_index: usize, leaves: &[M::Hash]) -> (made: Result<
    Box<[ProofElem<M::Hash>]>,
    TreeError,
>) where M::Hash: Clone
    ensures
        match made {
            Ok(p) => {
                &&& leaf_index < leaves.len()
                &&& copies_of(
                    proof_path(
                        cache_model::<M>(leaves@),
                        leaf_index as int,
                        0,
                        leaves.len() as int,
                    ),
                    p@,
                )
                &&& clone_is_exact::<M::Hash>() ==> proof_root::<M>(leaves[leaf_index as int], p@)
                    == tree_root::<M>(leaves@)
            },
            Err(e) => if leaves.len() == 0 {
                e == TreeError::EmptyInput
            } else {
                leaf_index >= leaves.len() && e == TreeError::IndexOutOfRange
            },
        },
{
    match HashCache::from_leaves::<M>(leaves) {
        Ok(a) => {
            let made = a.create_proof(leaf_index);
            proof {
                if made is Ok && clone_is_exact::<M::Hash>() {
                    let path = proof_path(
                        cache_model::<M>(leaves@),
                        leaf_index as int,
                        0,
                        leaves.len() as int,
                    );
                    lemma_exact_copies(path, (made->Ok_0)@);
                    lemma_proof_verifies::<M>(leaves@, leaf_index as int);
                }
            }
            made
        },
        Err(e) => Err(e),
    }
}

/// Computes the root that a leaf and its inclusion proof stand for.
///
/// `leaf` is the digest as the caller holds it, before `Merge::leaf`. The
/// result is for the caller to compare with the root it trusts: that the
/// two differ is an answer, and no error.
pub fn verify_proof<M: Merge>(leaf: &M::Hash, proof: &[ProofElem<M::Hash>]) -> (root: M::Hash)
    ensures
        root == proof_root::<M>(*leaf, proof@),
{
    let mut subroot = M::leaf(leaf);
    let mut i: usize = 0;
    while i < proof.len()
        invariant
            i <= proof.len(),
            subroot == fold_proof::<M>(M::leaf_spec(*leaf), proof@.take(i as int)),
        decreases proof.len() - i,
    {
        proof {
            let upto = proof@.take(i + 1);
            assert(upto.drop_last() =~= proof@.take(i as int));
            assert(upto.last() == proof@[i as int]);
        }
        subroot = proof[i].merge::<M>(&subroot);
        i += 1;
    }
    proof {
        assert(proof@.take(proof.len() as int) =~= proof@);
    }
    subroot
}

} // verus!
