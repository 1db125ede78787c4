//! The elements of an inclusion proof.

use crate::merge::Merge;
use vstd::prelude::*;

verus! {

/// One step of an inclusion proof: the digest of the sibling subtree at one
/// level, tagged with the side on which that sibling sits.
#[derive(Copy, Clone, Eq, PartialEq, Ord, PartialOrd, Hash, Debug)]
pub enum ProofElem<T> {
    Left(T),
    Right(T),
}

impl<T> ProofElem<T> {
    /// The parent's digest, given the digest `subroot` of the node on the
    /// path: the element's own digest goes on the side its tag names.
    pub open spec fn merge_spec<M: Merge<Hash = T>>(self, subroot: T) -> T {
        match self {
            ProofElem::Left(l) => M::merge_spec(l, subroot),
            ProofElem::Right(r) => M::merge_spec(subroot, r),
        }
    }

    /// Whether `other` has the same tag and carries a clone of this
    /// element's digest.
    pub open spec fn cloned_as(self, other: ProofElem<T>) -> bool where T: Clone {
        match self {
            ProofElem::Left(l) => other matches ProofElem::Left(h) && cloned::<T>(l, h),
            ProofElem::Right(r) => other matches ProofElem::Right(h) && cloned::<T>(r, h),
        }
    }

    /// Combines the element with the digest of the node on the path.
    pub fn merge<M: Merge<Hash = T>>(&self, sibling: &M::Hash) -> (parent: M::Hash)
        ensures
            parent == self.merge_spec::<M>(*sibling),
    {
        match self {
            Self::Left(l) => M::merge(l, sibling),
            Self::Right(r) => M::merge(sibling, r),
        }
    }
}

impl<T> ProofElem<&T> {
    /// An element that owns a clone of the borrowed digest, under the same tag.
    pub fn cloned(self) -> (owned: ProofElem<T>) where T: Clone
        ensures
            match self {
                ProofElem::Left(l) => owned matches ProofElem::Left(h) && cloned::<T>(*l, h),
                ProofElem::Right(r) => owned matches ProofElem::Right(h) && cloned::<T>(*r, h),
            },
    {
        match self {
            Self::Left(l) => ProofElem::Left(l.clone()),
            Self::Right(r) => ProofElem::Right(r.clone()),
        }
    }
}

} // verus!
