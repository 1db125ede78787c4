//! The combining strategy that a tree is built with.

use vstd::prelude::*;

verus! {

/// How digests enter a tree and how two children combine into their parent.
///
/// An implementation decides, among other things, whether leaves are hashed
/// once more on entry, which is what keeps an inner node from being passed
/// off as a leaf.
///
/// Both operations are functions of their arguments alone: `leaf_spec` and
/// `merge_spec` say what they compute, and the executable methods return
/// exactly that on every call. The cache and the direct computation of a root
/// agree because of it.
///
/// Nothing holds an implementation to this but its own verification: of one
/// written in unverified code, where `leaf_spec` and `merge_spec` are
/// ordinary functions that nothing calls, it is taken on trust.
pub trait Merge {
    type Hash;

    /// The digest under which a leaf is included.
    spec fn leaf_spec(leaf: Self::Hash) -> Self::Hash;

    /// The digest of an inner node with the given children.
    spec fn merge_spec(left: Self::Hash, right: Self::Hash) -> Self::Hash;

    /// Computes the digest under which `leaf` is included. The value handed
    /// in has been hashed once already; this is applied once per leaf, when
    /// it enters the tree.
    fn leaf(leaf: &Self::Hash) -> (digest: Self::Hash)
        ensures
            digest == Self::leaf_spec(*leaf),
    ;

    /// Computes the digest of an inner node from those of its children.
    fn merge(left: &Self::Hash, right: &Self::Hash) -> (digest: Self::Hash)
        ensures
            digest == Self::merge_spec(*left, *right),
    ;
}

} // verus!
