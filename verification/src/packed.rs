//! Trees of BLAKE2b-256 digests, with the leaves handed over packed into one
//! array of bytes, 32 bytes to a leaf.

use crate::error::TreeError;
use crate::inclusion::ProofElem;
use crate::merge::Merge;
use crate::model::{
    cache_model, clone_is_exact, lemma_exact_copies, lemma_proof_verifies, proof_path, proof_root,
    tree_root,
};
use crate::proof_map::HashCache;
use blake2::digest::{Update, VariableOutput};
use blake2::VarBlake2b;
use vstd::prelude::*;

verus! {

/// The BLAKE2b digest of `data`, unkeyed and 32 bytes long.
pub uninterp spec fn blake2b_256_digest(data: Seq<u8>) -> Seq<u8>;

/// The array that holds the 32 bytes of `bytes`.
pub open spec fn as_digest(bytes: Seq<u8>) -> [u8; 32] {
    choose|a: [u8; 32]| a@ == bytes
}

/// An array is the one that holds its own bytes.
pub proof fn lemma_as_digest(a: [u8; 32])
    ensures
        as_digest(a@) == a,
{
    let b = as_digest(a@);
    assert(b@ == a@);
    assert(b =~= a);
}

/// Copies a slice of 32 bytes into an array.
pub fn to_fixed(bs: &[u8]) -> (ret: [u8; 32])
    requires
        bs.len() == 32,
    ensures
        ret@ == bs@,
        ret == as_digest(bs@),
{
    let mut ret = [0u8;32];
    let mut i: usize = 0;
    while i < 32
        invariant
            i <= 32,
            bs.len() == 32,
            forall|k: int| 0 <= k < i ==> ret@[k] == bs@[k],
        decreases 32 - i,
    {
        ret[i] = bs[i];
        i += 1;
    }
    proof {
        assert(ret@ =~= bs@);
        lemma_as_digest(ret);
    }
    ret
}

/// Hashes `data` with `blake2::VarBlake2b`, set up by `VariableOutput::new`
/// for 32 bytes of output, fed once through `Update::update` and finished
/// with `VariableOutput::finalize_variable`. The digest depends on the bytes
/// of `data` alone, and is what [`blake2b_256_digest`] names.
#[verifier::external_body]
fn blake2b256(data: &[u8]) -> (digest: [u8; 32])
    ensures
        digest@ == blake2b_256_digest(data@),
{
    let mut hasher = VarBlake2b::new(32).unwrap();
    hasher.update(data);
    let mut ret = [0u8;32];
    hasher.finalize_variable(|digest| ret = to_fixed(digest));
    ret
}

/// BLAKE2b-256 with the leaves hashed once more on entry, so that the digest
/// of an inner node cannot be passed off as a leaf.
pub struct Blake2b256Spr;

impl Merge for Blake2b256Spr {
    type Hash = [u8; 32];

    open spec fn leaf_spec(leaf: [u8; 32]) -> [u8; 32] {
        as_digest(blake2b_256_digest(leaf@))
    }

    open spec fn merge_spec(left: [u8; 32], right: [u8; 32]) -> [u8; 32] {
        as_digest(blake2b_256_digest(left@ + right@))
    }

    fn leaf(l: &[u8; 32]) -> (digest: [u8; 32]) {
        let digest = blake2b256(l.as_slice());
        proof {
            lemma_as_digest(digest);
        }
        digest
    }

    fn merge(l: &[u8; 32], r: &[u8; 32]) -> (digest: [u8; 32]) {
        let mut both: Vec<u8> = Vec::with_capacity(64);
        let mut i: usize = 0;
        while i < 32
            invariant
                i <= 32,
                both@ == l@.take(i as int),
            decreases 32 - i,
        {
            both.push(l[i]);
            i += 1;
            proof {
                assert(both@ =~= l@.take(i as int));
            }
        }
        i = 0;
        while i < 32
            invariant
                i <= 32,
                both@ == l@ + r@.take(i as int),
            decreases 32 - i,
        {
            both.push(r[i]);
            i += 1;
            proof {
                assert(both@ =~= l@ + r@.take(i as int));
            }
        }
        proof {
            assert(l@.take(0) =~= Seq::<u8>::empty());
            assert(r@.take(32) =~= r@);
        }
        let digest = blake2b256(both.as_slice());
        proof {
            lemma_as_digest(digest);
        }
        digest
    }
}

/// The leaves that `bs` packs: one for every 32 bytes, in order.
pub open spec fn unpacked(bs: Seq<u8>) -> Seq<[u8; 32]> {
    Seq::new((bs.len() / 32) as nat, |i: int| as_digest(bs.subrange(32 * i, 32 * i + 32)))
}

/// A clone of a digest is that digest.
pub proof fn lemma_digest_clone_is_exact()
    ensures
        clone_is_exact::<[u8; 32]>(),
{
    assert forall|a: [u8; 32], b: [u8; 32]| #[trigger] cloned::<[u8; 32]>(a, b) implies a == b by {
        assert forall|i: int| 0 <= i < 32 implies a[i] == b[i] by {
            assert(cloned::<u8>(a@[i], b@[i]));
        }
        assert(a =~= b);
    }
}

/// Unpacks a list of leaves.
pub fn split32(bs: &[u8]) -> (leaves: Vec<[u8; 32]>)
    requires
        bs.len() % 32 == 0,
    ensures
        leaves@ == unpacked(bs@),
{
    let count: usize = bs.len() / 32;
    let mut leaves: Vec<[u8; 32]> = Vec::with_capacity(count);
    let mut i: usize = 0;
    while i < count
        invariant
            i <= count,
            count == bs.len() / 32,
            bs.len() % 32 == 0,
            leaves@ == unpacked(bs@).take(i as int),
        decreases count - i,
    {
        let chunk = vstd::slice::slice_subrange(bs, 32 * i, 32 * i + 32);
        leaves.push(to_fixed(chunk));
        i += 1;
        proof {
            assert(leaves@ =~= unpacked(bs@).take(i as int));
        }
    }
    proof {
        assert(unpacked(bs@).take(count as int) =~= unpacked(bs@));
    }
    leaves
}

/// Computes the root of the tree over the packed `leaves`.
///
/// An empty list is rejected with [`TreeError::EmptyInput`].
pub fn compute_root(leaves: &[u8]) -> (root: Result<[u8; 32], TreeError>)
    requires
        leaves.len() % 32 == 0,
    ensures
        match root {
            Ok(h) => leaves.len() > 0 && h == tree_root::<Blake2b256Spr>(unpacked(leaves@)),
            Err(e) => leaves.len() == 0 && e == TreeError::EmptyInput,
        },
{
    let leaves = split32(leaves);
    crate::compute_root::<Blake2b256Spr>(leaves.as_slice())
}

/// Creates the inclusion proof for one of the packed `leaves`: the path
/// through their tree from that leaf upwards.
///
/// An empty list is rejected with [`TreeError::EmptyInput`], an index that
/// names no leaf with [`TreeError::IndexOutOfRange`].
pub fn create_proof(leaf_index: usize, leaves: &[u8]) -> (made: Result<
    Box<[ProofElem<[u8; 32]>]>,
    TreeError,
>)
    requires
        leaves.len() % 32 == 0,
    ensures
        match made {
            Ok(p) => {
                &&& leaf_index < leaves.len() / 32
                &&& p@ == proof_path(
                    cache_model::<Blake2b256Spr>(unpacked(leaves@)),
                    leaf_index as int,
                    0,
                    leaves.len() as int / 32,
                )
                &&& proof_root::<Blake2b256Spr>(unpacked(leaves@)[leaf_index as int], p@)
                    == tree_root::<Blake2b256Spr>(unpacked(leaves@))
            },
            Err(e) => if leaves.len() == 0 {
                e == TreeError::EmptyInput
            } else {
                leaf_index >= leaves.len() / 32 && e == TreeError::IndexOutOfRange
            },
        },
{
    let leaves = split32(leaves);
    let made = crate::create_proof::<Blake2b256Spr>(leaf_index, leaves.as_slice());
    proof {
        if made is Ok {
            lemma_digest_clone_is_exact();
            lemma_exact_copies(
                proof_path(
                    cache_model::<Blake2b256Spr>(leaves@),
                    leaf_index as int,
                    0,
                    leaves.len() as int,
                ),
                (made->Ok_0)@,
            );
        }
    }
    made
}

/// Computes the root that the 32 bytes of `leaf` and the proof stand for.
pub fn verify_proof(leaf: &[u8], proof: &[ProofElem<[u8; 32]>]) -> (root: [u8; 32])
    requires
        leaf.len() == 32,
    ensures
        root == proof_root::<Blake2b256Spr>(as_digest(leaf@), proof@),
{
    let leaf = to_fixed(leaf);
    crate::verify_proof::<Blake2b256Spr>(&leaf, proof)
}

/// Computes the root of the tree over the packed `leaves` and the inclusion
/// proof of every leaf, from one cache. Each proof leads from its leaf back
/// to that root.
///
/// An empty list is rejected with [`TreeError::EmptyInput`].
pub fn construct(leaves: &[u8]) -> (built: Result<
    ([u8; 32], Vec<Box<[ProofElem<[u8; 32]>]>>),
    TreeError,
>)
    requires
        leaves.len() % 32 == 0,
    ensures
        match built {
            Ok((root, proofs)) => {
                &&& leaves.len() > 0
                &&& root == tree_root::<Blake2b256Spr>(unpacked(leaves@))
                &&& proofs.len() == leaves.len() / 32
                &&& forall|i: int|
                    0 <= i < proofs.len() ==> {
                        &&& (#[trigger] proofs[i])@ == proof_path(
                            cache_model::<Blake2b256Spr>(unpacked(leaves@)),
                            i,
                            0,
                            leaves.len() as int / 32,
                        )
                        &&& proof_root::<Blake2b256Spr>(unpacked(leaves@)[i], proofs[i]@) == root
                    }
            },
            Err(e) => leaves.len() == 0 && e == TreeError::EmptyInput,
        },
{
    let leaves = split32(leaves);
    let a = match HashCache::from_leaves::<Blake2b256Spr>(leaves.as_slice()) {
        Ok(a) => a,
        Err(e) => { return Err(e); },
    };
    let root = *a.root();
    let mut proofs: Vec<Box<[ProofElem<[u8; 32]>]>> = Vec::with_capacity(leaves.len());
    let mut i: usize = 0;
    while i < leaves.len()
        invariant
            i <= leaves.len(),
            a.leaf_count() == leaves.len(),
            a@ == cache_model::<Blake2b256Spr>(leaves@),
            root == tree_root::<Blake2b256Spr>(leaves@),
            proofs.len() == i,
            forall|k: int|
                0 <= k < i ==> {
                    &&& (#[trigger] proofs[k])@ == proof_path(a@, k, 0, leaves.len() as int)
                    &&& proof_root::<Blake2b256Spr>(leaves[k], proofs[k]@) == root
                },
        decreases leaves.len() - i,
    {
        let p = match a.create_proof(i) {
            Ok(p) => p,
            Err(e) => { return Err(e); },
        };
        proof {
            lemma_digest_clone_is_exact();
            lemma_exact_copies(proof_path(a@, i as int, 0, leaves.len() as int), p@);
            lemma_proof_verifies::<Blake2b256Spr>(leaves@, i as int);
        }
        proofs.push(p);
        i += 1;
    }
    Ok((root, proofs))
}

} // verus!
