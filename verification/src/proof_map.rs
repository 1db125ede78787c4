//! A cache of every digest in a tree, keyed by the range of leaves that the
//! digest covers. Building it costs one pass over the leaves; the root and
//! the inclusion proof of every leaf are then read off without hashing again.

use crate::common::{split_range, split_tuple_as_range};
use crate::error::TreeError;
use crate::inclusion::ProofElem;
use crate::merge::Merge;
use crate::model::{
    cache_model, copies_of, is_node, lemma_node_bounds, lemma_node_children, lemma_node_count,
    lemma_tree_root_split, proof_path, tree_ranges, tree_root,
};
use core::ops::Range;
use std::collections::BTreeMap;
use vstd::prelude::*;
use vstd::std_specs::cmp::OrdSpec;
use vstd::std_specs::iter::IteratorSpec;

verus! {

/// The digests of a tree over a fixed list of leaves.
///
/// Seen as a map from ranges `(start, end)` to digests, it holds exactly the
/// nodes of the tree over `[0, leaf_count())`, whatever it was built from:
/// the whole range, every single leaf, and no two ranges that overlap in part.
pub struct HashCache<T> {
    cache: BTreeMap<(usize, usize), T>,
    leaves_len: usize,
}

/// A map keyed by pairs of machine integers, seen as one keyed by pairs of
/// mathematical integers.
spec fn int_keyed<T>(m: Map<(usize, usize), T>) -> Map<(int, int), T> {
    Map::new(
        |r: (int, int)|
            0 <= r.0 <= usize::MAX && 0 <= r.1 <= usize::MAX && m.contains_key(
                (r.0 as usize, r.1 as usize),
            ),
        |r: (int, int)| m[(r.0 as usize, r.1 as usize)],
    )
}

/// The digests that building the tree over `[start, end)` adds to the cache:
/// those of all its nodes but `[start, end)` itself.
spec fn below_model<M: Merge>(leaves: Seq<M::Hash>, start: int, end: int) -> Map<
    (int, int),
    M::Hash,
> {
    Map::new(
        |r: (int, int)| is_node(start, end, r.0, r.1) && r != (start, end),
        |r: (int, int)| tree_root::<M>(leaves.subrange(r.0, r.1)),
    )
}

/// Pairs of indices are ordered the way a `BTreeMap` relies on.
proof fn lemma_range_keys_ordered()
    ensures
        vstd::laws_cmp::obeys_cmp::<(usize, usize)>(),
{
    broadcast use vstd::laws_cmp::group_laws_cmp;
}

/// Whether the range `a` comes before `b` where a cache lists its ranges:
/// the one that starts first, and of two that start together the shorter.
pub open spec fn listed_before(a: (usize, usize), b: (usize, usize)) -> bool {
    a.0 < b.0 || (a.0 == b.0 && a.1 < b.1)
}

/// Keys that a `BTreeMap` hands out in increasing order are listed in the
/// order of [`listed_before`].
proof fn lemma_increasing_keys(keys: Seq<&(usize, usize)>)
    requires
        vstd::std_specs::btree::increasing_seq(keys),
    ensures
        forall|i: int, j: int| 0 <= i < j < keys.len() ==> listed_before(*keys[i], *keys[j]),
{
    broadcast use vstd::laws_cmp::group_laws_cmp;
    broadcast use vstd::std_specs::btree::axiom_increasing_seq_meaning;

    assert(vstd::laws_cmp::obeys_cmp::<&(usize, usize)>());
    assert forall|i: int, j: int| 0 <= i < j < keys.len() implies listed_before(
        *keys[i],
        *keys[j],
    ) by {
        assert(OrdSpec::cmp_spec(&keys[i], &keys[j]) is Less);
    }
}

/// An insertion shows through the change of keys as the same insertion.
proof fn lemma_int_keyed_insert<T>(m: Map<(usize, usize), T>, range: (usize, usize), digest: T)
    ensures
        int_keyed(m.insert(range, digest)) == int_keyed(m).insert(
            (range.0 as int, range.1 as int),
            digest,
        ),
{
    let after = int_keyed(m.insert(range, digest));
    let expected = int_keyed(m).insert((range.0 as int, range.1 as int), digest);
    assert forall|r: (int, int)| after.contains_key(r) <==> expected.contains_key(r) by {
        if 0 <= r.0 <= usize::MAX && 0 <= r.1 <= usize::MAX && r != (
            range.0 as int,
            range.1 as int,
        ) {
            assert((r.0 as usize, r.1 as usize) != range);
        }
    }
    assert(after =~= expected);
}

/// The change of keys keeps the number of entries.
proof fn lemma_int_keyed_len<T>(m: Map<(usize, usize), T>)
    requires
        m.dom().finite(),
    ensures
        int_keyed(m).dom().finite(),
        int_keyed(m).dom().len() == m.dom().len(),
{
    let widen = |k: (usize, usize)| (k.0 as int, k.1 as int);
    assert forall|r: (int, int)| int_keyed(m).dom().contains(r) implies m.dom().map(
        widen,
    ).contains(r) by {
        let k = (r.0 as usize, r.1 as usize);
        assert(m.dom().contains(k) && widen(k) == r);
    }
    assert(m.dom().map(widen) =~= int_keyed(m).dom());
    vstd::set_lib::lemma_map_size(m.dom(), int_keyed(m).dom(), widen);
}

/// Records `digest` for `range`, replacing what was recorded for it before.
fn cache_insert<T>(cache: &mut BTreeMap<(usize, usize), T>, range: (usize, usize), digest: T)
    ensures
        final(cache)@ == old(cache)@.insert(range, digest),
        int_keyed(final(cache)@) == int_keyed(old(cache)@).insert(
            (range.0 as int, range.1 as int),
            digest,
        ),
{
    proof {
        lemma_range_keys_ordered();
        lemma_int_keyed_insert(cache@, range, digest);
    }
    cache.insert(range, digest);
}

/// The digest recorded for `range`.
fn cache_get<T>(cache: &BTreeMap<(usize, usize), T>, range: (usize, usize)) -> (digest: &T)
    requires
        cache@.contains_key(range),
    ensures
        *digest == cache@[range],
{
    proof {
        lemma_range_keys_ordered();
    }
    cache.get(&range).unwrap()
}

/// Computes the root of the tree over `leaves[start..end]`, and records on
/// the way the digest of every node below that root. The root itself is
/// returned and not recorded: that is left to the caller.
fn populate<M: Merge>(
    cache: &mut BTreeMap<(usize, usize), M::Hash>,
    leaves: &[M::Hash],
    start: usize,
    end: usize,
) -> (root: M::Hash)
    requires
        start < end <= leaves.len(),
    ensures
        root == tree_root::<M>(leaves@.subrange(start as int, end as int)),
        int_keyed(final(cache)@) == int_keyed(old(cache)@).union_prefer_right(
            below_model::<M>(leaves@, start as int, end as int),
        ),
    decreases end - start,
{
    if end - start == 1 {
        proof {
            assert(int_keyed(cache@).union_prefer_right(
                below_model::<M>(leaves@, start as int, end as int),
            ) =~= int_keyed(cache@));
        }
        M::leaf(&leaves[start])
    } else {
        let (left, right) = split_tuple_as_range(start, end);
        let lefth = populate::<M>(cache, leaves, left.0, left.1);
        let righth = populate::<M>(cache, leaves, right.0, right.1);
        cache_insert(cache, left, lefth);
        cache_insert(cache, right, righth);
        proof {
            let mid = left.1 as int;
            lemma_tree_root_split::<M>(leaves@, start as int, end as int);
            let below = below_model::<M>(leaves@, start as int, end as int);
            let below_left = below_model::<M>(leaves@, start as int, mid);
            let below_right = below_model::<M>(leaves@, mid, end as int);
            assert forall|r: (int, int)|
                below.contains_key(r) <==> r == (start as int, mid) || r == (mid, end as int)
                    || below_left.contains_key(r) || below_right.contains_key(r) by {
                if is_node(start as int, mid, r.0, r.1) {
                    lemma_node_bounds(start as int, mid, r.0, r.1);
                }
                if is_node(mid, end as int, r.0, r.1) {
                    lemma_node_bounds(mid, end as int, r.0, r.1);
                }
            }
            assert(int_keyed(cache@) =~= int_keyed(old(cache)@).union_prefer_right(below));
        }
        M::merge(cache_get(cache, left), cache_get(cache, right))
    }
}

/// `Vec::into_boxed_slice` of the standard library: hands the elements over
/// to a boxed slice, the same ones in the same order.
#[verifier::external_body]
fn into_boxed_slice<T>(v: Vec<T>) -> (boxed: Box<[T]>)
    ensures
        boxed@ == v@,
{
    v.into_boxed_slice()
}

impl<T> View for HashCache<T> {
    type V = Map<(int, int), T>;

    closed spec fn view(&self) -> Map<(int, int), T> {
        int_keyed(self.cache@)
    }
}

impl<T> HashCache<T> {
    /// What every cache holds: the nodes of the tree over its leaves.
    #[verifier::type_invariant]
    closed spec fn well_formed(&self) -> bool {
        &&& self.leaves_len >= 1
        &&& self@.dom() =~= tree_ranges(self.leaves_len as int)
    }

    /// The number of leaves that the cache was built from.
    pub closed spec fn leaf_count(&self) -> nat {
        self.leaves_len as nat
    }

    /// Builds the cache for `leaves`: the digest of every node of the tree
    /// over them, each computed once.
    ///
    /// An empty list has no tree: it is rejected with
    /// [`TreeError::EmptyInput`].
    pub fn from_leaves<M: Merge<Hash = T>>(leaves: &[T]) -> (built: Result<Self, TreeError>)
        ensures
            match built {
                Ok(hc) => {
                    &&& leaves.len() > 0
                    &&& hc.leaf_count() == leaves.len()
                    &&& hc@ == cache_model::<M>(leaves@)
                    &&& hc@[(0, leaves.len() as int)] == tree_root::<M>(leaves@)
                },
                Err(e) => leaves.len() == 0 && e == TreeError::EmptyInput,
            },
    {
        if leaves.len() == 0 {
            return Err(TreeError::EmptyInput);
        }
        let mut cache = BTreeMap::new();
        let root = populate::<M>(&mut cache, leaves, 0, leaves.len());
        cache_insert(&mut cache, (0, leaves.len()), root);
        proof {
            assert(leaves@.subrange(0, leaves.len() as int) =~= leaves@);
            assert(int_keyed(cache@) =~= cache_model::<M>(leaves@));
        }
        Ok(HashCache { cache, leaves_len: leaves.len() })
    }

    /// The root of the tree, as computed when the cache was built.
    pub fn root(&self) -> (root: &T)
        ensures
            self@.contains_key((0, self.leaf_count() as int)),
            *root == self@[(0, self.leaf_count() as int)],
    {
        proof {
            use_type_invariant(self);
            assert(tree_ranges(self.leaves_len as int).contains((0, self.leaves_len as int)));
        }
        cache_get(&self.cache, (0, self.leaves_len))
    }

    /// The number of leaves that the cache was built from, which is never 0.
    /// The cache holds the nodes of the tree over that many leaves.
    pub fn leaves_len(&self) -> (n: usize)
        ensures
            n == self.leaf_count(),
            n >= 1,
            self@.dom() == tree_ranges(n as int),
    {
        proof {
            use_type_invariant(self);
        }
        self.leaves_len
    }

    /// The number of digests in the cache: one for each of the `n` leaves
    /// and one for each of the `n - 1` nodes above them.
    pub fn len(&self) -> (n: usize)
        ensures
            n == self@.dom().len(),
            n == 2 * self.leaf_count() - 1,
    {
        proof {
            use_type_invariant(self);
            lemma_range_keys_ordered();
            lemma_int_keyed_len(self.cache@);
            lemma_node_count(0, self.leaves_len as int);
        }
        self.cache.len()
    }

    /// The digest of the node that covers the leaves from `start` up to,
    /// and not including, `end`; `None` where the tree has no such node.
    pub fn get(&self, start: usize, end: usize) -> (found: Option<&T>)
        ensures
            match found {
                Some(h) => is_node(0, self.leaf_count() as int, start as int, end as int) && *h
                    == self@[(start as int, end as int)],
                None => !is_node(0, self.leaf_count() as int, start as int, end as int),
            },
    {
        proof {
            use_type_invariant(self);
            lemma_range_keys_ordered();
            assert(tree_ranges(self.leaves_len as int).contains((start as int, end as int))
                <==> self.cache@.contains_key((start, end)));
        }
        self.cache.get(&(start, end))
    }

    /// The ranges that the cache holds a digest for, each once.
    pub fn ranges(&self) -> (ranges: Vec<(usize, usize)>)
        ensures
            ranges@.no_duplicates(),
            ranges.len() == 2 * self.leaf_count() - 1,
            forall|i: int, j: int| 0 <= i < j < ranges.len() ==> listed_before(ranges[i], ranges[j]),
            forall|r: (usize, usize)|
                ranges@.contains(r) <==> self@.contains_key((r.0 as int, r.1 as int)),
    {
        proof {
            lemma_range_keys_ordered();
        }
        let mut ranges: Vec<(usize, usize)> = Vec::new();
        let keys = self.cache.keys();
        let ghost all = keys.remaining();
        proof {
            use_type_invariant(self);
            lemma_int_keyed_len(self.cache@);
            lemma_node_count(0, self.leaves_len as int);
            assert(all.unref().to_set() == self.cache@.dom());
            assert(all.no_duplicates());
            lemma_increasing_keys(all);
        }
        for k in it: keys
            invariant
                it.seq() == all,
                ranges@ == all.take(it.index()).unref(),
        {
            ranges.push(*k);
        }
        proof {
            assert(all.take(all.len() as int) =~= all);
            assert forall|r: (usize, usize)|
                ranges@.contains(r) <==> self@.contains_key((r.0 as int, r.1 as int)) by {
                assert(ranges@.contains(r) <==> ranges@.to_set().contains(r));
            }
        }
        ranges
    }

    /// Creates the inclusion proof for the leaf at `index`: the digests of
    /// the siblings along the way from that leaf up to the root, the leaf's
    /// own sibling first and the sibling just below the root last. A tree of
    /// one leaf gives the empty proof.
    ///
    /// An index that names no leaf is rejected with
    /// [`TreeError::IndexOutOfRange`].
    pub fn create_proof(&self, index: usize) -> (made: Result<Box<[ProofElem<T>]>, TreeError>) where
        T: Clone,

        ensures
            match made {
                Ok(p) => index < self.leaf_count() && copies_of(
                    proof_path(self@, index as int, 0, self.leaf_count() as int),
                    p@,
                ),
                Err(e) => index >= self.leaf_count() && e == TreeError::IndexOutOfRange,
            },
    {
        if index >= self.leaves_len {
            return Err(TreeError::IndexOutOfRange);
        }
        let mut ret: Vec<ProofElem<T>> = Vec::new();
        proof {
            use_type_invariant(self);
        }
        self.populate_proof(&mut ret, index, 0..self.leaves_len);
        proof {
            assert(ret@.skip(0) =~= ret@);
        }
        Ok(into_boxed_slice(ret))
    }

    /// Appends to `out` the part of the inclusion proof for the leaf at
    /// `index` that lies below the node `range`, which must contain `index`.
    fn populate_proof(&self, out: &mut Vec<ProofElem<T>>, index: usize, range: Range<usize>) where
        T: Clone,

        requires
            is_node(0, self.leaf_count() as int, range.start as int, range.end as int),
            range.start <= index < range.end,
        ensures
            final(out)@.len() >= old(out)@.len(),
            final(out)@.take(old(out)@.len() as int) == old(out)@,
            copies_of(
                proof_path(self@, index as int, range.start as int, range.end as int),
                final(out)@.skip(old(out)@.len() as int),
            ),
        decreases range.end - range.start,
    {
        let ghost before = out@;
        let ghost n = self.leaves_len as int;
        let ghost path = proof_path(self@, index as int, range.start as int, range.end as int);
        if range.end - range.start == 1 {
            proof {
                assert(out@.take(before.len() as int) =~= before);
            }
            return;
        }
        proof {
            use_type_invariant(self);
            lemma_node_children(0, n, range.start as int, range.end as int);
            lemma_node_bounds(0, n, range.start as int, range.end as int);
        }
        let (left, right) = split_range(range);
        let ghost mid = left.end as int;
        let in_left = index < left.end;
        if in_left {
            proof {
                assert(tree_ranges(n).contains((mid, right.end as int)));
            }
            self.populate_proof(out, index, left);
            let ghost below = out@;
            let h = cache_get(&self.cache, (right.start, right.end)).clone();
            out.push(ProofElem::Right(h));
            proof {
                let sub = proof_path(self@, index as int, left.start as int, mid);
                let ours = out@.skip(before.len() as int);
                assert(path == sub.push(ProofElem::Right(self@[(mid, right.end as int)])));
                assert(out@.take(before.len() as int) =~= below.take(before.len() as int));
                assert forall|k: int| 0 <= k < path.len() implies (#[trigger] path[k]).cloned_as(
                    ours[k],
                ) by {
                    if k < sub.len() {
                        assert(sub[k].cloned_as(below.skip(before.len() as int)[k]));
                    }
                }
            }
        } else {
            proof {
                assert(tree_ranges(n).contains((left.start as int, mid)));
            }
            self.populate_proof(out, index, right);
            let ghost below = out@;
            let h = cache_get(&self.cache, (left.start, left.end)).clone();
            out.push(ProofElem::Left(h));
            proof {
                let sub = proof_path(self@, index as int, mid, right.end as int);
                let ours = out@.skip(before.len() as int);
                assert(path == sub.push(ProofElem::Left(self@[(left.start as int, mid)])));
                assert(out@.take(before.len() as int) =~= below.take(before.len() as int));
                assert forall|k: int| 0 <= k < path.len() implies (#[trigger] path[k]).cloned_as(
                    ours[k],
                ) by {
                    if k < sub.len() {
                        assert(sub[k].cloned_as(below.skip(before.len() as int)[k]));
                    }
                }
            }
        }
    }
}

} // verus!
